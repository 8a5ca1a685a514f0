use vstd::prelude::*;
use crate::text::str_eq;

verus! {

/// Logging severities, from the most to the least severe.
#[derive(Clone, Copy, Debug, PartialEq, Eq, Structural)]
pub enum LogLevel {
    Critical,
    Error,
    Warning,
    Info,
    Debug,
    Trace,
}

/// A log level name that is not known.
pub struct InvalidLevel {
    pub text: String,
}

/// The lowercase form of a string, as `str::to_lowercase` gives it.
pub uninterp spec fn lower_of(s: Seq<char>) -> Seq<char>;

/// Relies on `str::to_lowercase`: the result depends on the characters alone.
#[verifier::external_body]
fn lowercase(s: &str) -> (r: String)
    ensures
        r@ == lower_of(s@),
{
    s.to_lowercase()
}

/// The level a lowercase name stands for: `trace`, `debug`, `info`,
/// `warning` or `warn`, `error`, `critical`.
pub open spec fn level_named(s: Seq<char>) -> Option<LogLevel> {
    if s == "trace"@ {
        Some(LogLevel::Trace)
    } else if s == "debug"@ {
        Some(LogLevel::Debug)
    } else if s == "info"@ {
        Some(LogLevel::Info)
    } else if s == "warning"@ || s == "warn"@ {
        Some(LogLevel::Warning)
    } else if s == "error"@ {
        Some(LogLevel::Error)
    } else if s == "critical"@ {
        Some(LogLevel::Critical)
    } else {
        None
    }
}

/// The level that a lowercase name stands for.
pub fn level_from_name(s: &str) -> (r: Option<LogLevel>)
    ensures
        r == level_named(s@),
{
    if str_eq(s, "trace") {
        Some(LogLevel::Trace)
    } else if str_eq(s, "debug") {
        Some(LogLevel::Debug)
    } else if str_eq(s, "info") {
        Some(LogLevel::Info)
    } else if str_eq(s, "warning") || str_eq(s, "warn") {
        Some(LogLevel::Warning)
    } else if str_eq(s, "error") {
        Some(LogLevel::Error)
    } else if str_eq(s, "critical") {
        Some(LogLevel::Critical)
    } else {
        None
    }
}

/// Reads a log level name in any letter case.
pub fn parse_slog_level(src: &str) -> (r: Result<LogLevel, InvalidLevel>)
    ensures
        match level_named(lower_of(src@)) {
            Some(l) => r == Ok::<LogLevel, InvalidLevel>(l),
            None => r is Err && r->Err_0.text@ == src@,
        },
{
    let lower = lowercase(src);
    match level_from_name(lower.as_str()) {
        Some(l) => Ok(l),
        None => Err(InvalidLevel { text: src.to_string() }),
    }
}

} // verus!
