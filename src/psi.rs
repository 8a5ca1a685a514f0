use vstd::prelude::*;

verus! {

/// Whether a pressure reading forbids work under `limit`.
///
/// A reading of `None` means that the pressure could not be read. It is
/// treated as being at the limit, so every gated decision skips its cycle
/// rather than proceeding on unknown pressure.
pub open spec fn at_limit(reading: Option<u8>, limit: u8) -> bool {
    match reading {
        Some(p) => p >= limit,
        None => true,
    }
}

/// Decides whether a pressure reading blocks a cycle gated by `limit`.
pub fn psi_at_limit(reading: Option<u8>, limit: u8) -> (r: bool)
    ensures
        r == at_limit(reading, limit),
{
    match reading {
        Some(p) => p >= limit,
        None => true,
    }
}

/// Turns a raw percentage into a reading, rejecting values above 100.
pub fn psi_reading(percent: u64) -> (r: Option<u8>)
    ensures
        r == (if percent <= 100 { Some(percent as u8) } else { None::<u8> }),
{
    if percent <= 100 {
        Some(percent as u8)
    } else {
        None
    }
}

} // verus!
