use vstd::prelude::*;
use crate::memcg::SingleConfig;
use crate::psi::{at_limit, psi_at_limit};

verus! {

/// Outcome counters of the eviction passes of one unit.
#[derive(Clone, Copy, Debug, PartialEq, Eq, Structural)]
pub struct EvictionCount {
    /// Pages reclaimed.
    pub page: u64,
    /// Passes that found no generation old enough to evict.
    pub no_min_lru_file: u64,
    /// Passes that advanced the oldest generation without evicting.
    pub min_lru_inc: u64,
    /// Soft errors.
    pub other_error: u64,
    /// Hard errors.
    pub error: u64,
    /// Passes skipped or cut short because pressure exceeded the limit.
    pub psi_exceeds_limit: u64,
}

/// Counters and generation window of one (cgroup, NUMA node) unit.
#[derive(Clone, Copy, Debug, PartialEq, Eq, Structural)]
pub struct NumaStatus {
    /// Time of the last generation increment, in seconds.
    pub last_inc_time: u64,
    pub max_seq: u64,
    pub min_seq: u64,
    pub run_aging_count: u64,
    pub eviction_count: EvictionCount,
    pub sleep_psi_exceeds_limit: u64,
}

/// Where a unit stands in its cycle.
#[derive(Clone, Copy, Debug, PartialEq, Eq, Structural)]
pub enum UnitState {
    /// Waiting for the next period tick.
    Waiting,
    /// An aging pass was requested and has not reported back.
    Aging,
    /// An eviction pass was requested and has not reported back.
    Evicting,
    /// The unit runs no more.
    Stopped,
}

/// How an eviction pass ended.
#[derive(Clone, Copy, Debug, PartialEq, Eq, Structural)]
pub enum EvictionOutcome {
    Evicted { pages: u64 },
    NoEligibleGeneration,
    PressureRose,
    SoftError,
    HardError,
}

/// What the world reports to a unit.
#[derive(Clone, Copy, Debug, PartialEq, Eq, Structural)]
pub enum UnitEvent {
    /// The period elapsed; `psi` is the cgroup's memory pressure.
    Tick { psi: Option<u8> },
    /// The aging pass ended with this generation window; `psi` is the
    /// pressure read afterwards, `now` the time in seconds.
    AgingDone { min_seq: u64, max_seq: u64, now: u64, psi: Option<u8> },
    /// The aging pass failed; `gone` tells that the cgroup no longer exists.
    AgingFailed { gone: bool },
    EvictionDone { outcome: EvictionOutcome },
    /// The unit was deleted or the process shuts down.
    StopRequested,
}

/// What a unit asks the world to do next.
#[derive(Clone, Copy, Debug, PartialEq, Eq, Structural)]
pub enum UnitAction {
    /// Nothing: wait for the next period.
    Wait,
    RunAging,
    RunEviction { swap: bool, swappiness_max: u8 },
    /// The unit stopped; its registry entry is to be released.
    Stop,
}

pub open spec fn inc(x: u64) -> u64 {
    x.saturating_add(1)
}

pub open spec fn zero_count() -> EvictionCount {
    EvictionCount {
        page: 0,
        no_min_lru_file: 0,
        min_lru_inc: 0,
        other_error: 0,
        error: 0,
        psi_exceeds_limit: 0,
    }
}

pub open spec fn fresh_status() -> NumaStatus {
    NumaStatus {
        last_inc_time: 0,
        max_seq: 0,
        min_seq: 0,
        run_aging_count: 0,
        eviction_count: zero_count(),
        sleep_psi_exceeds_limit: 0,
    }
}

/// The counters after an eviction pass ended with `o`.
pub open spec fn count_outcome(c: EvictionCount, o: EvictionOutcome) -> EvictionCount {
    match o {
        EvictionOutcome::Evicted { pages } => EvictionCount { page: c.page.saturating_add(pages), ..c },
        EvictionOutcome::NoEligibleGeneration => EvictionCount {
            no_min_lru_file: inc(c.no_min_lru_file),
            ..c
        },
        EvictionOutcome::PressureRose => EvictionCount {
            psi_exceeds_limit: inc(c.psi_exceeds_limit),
            ..c
        },
        EvictionOutcome::SoftError => EvictionCount { other_error: inc(c.other_error), ..c },
        EvictionOutcome::HardError => EvictionCount { error: inc(c.error), ..c },
    }
}

/// The status after an aging pass that left the window `[min_seq, max_seq]`.
pub open spec fn aged_status(s: NumaStatus, min_seq: u64, max_seq: u64, now: u64) -> NumaStatus {
    NumaStatus {
        last_inc_time: if max_seq != s.max_seq { now } else { s.last_inc_time },
        max_seq,
        min_seq,
        run_aging_count: inc(s.run_aging_count),
        ..s
    }
}

/// Whether a pass that has just aged may go on to evict.
pub open spec fn eviction_allowed(run_aging_count: u64, c: SingleConfig, psi: Option<u8>) -> bool {
    run_aging_count >= c.eviction_run_aging_count_min && !at_limit(psi, c.eviction_psi_percent_limit)
}

/// One transition of a unit: the next state, status and action.
pub open spec fn step(
    state: UnitState,
    s: NumaStatus,
    c: SingleConfig,
    e: UnitEvent,
) -> (UnitState, NumaStatus, UnitAction) {
    match (state, e) {
        (UnitState::Stopped, _) => (UnitState::Stopped, s, UnitAction::Stop),
        (_, UnitEvent::StopRequested) => (UnitState::Stopped, s, UnitAction::Stop),
        (UnitState::Waiting, UnitEvent::Tick { psi }) => if c.disabled {
            (UnitState::Waiting, s, UnitAction::Wait)
        } else if at_limit(psi, c.period_psi_percent_limit) {
            (
                UnitState::Waiting,
                NumaStatus { sleep_psi_exceeds_limit: inc(s.sleep_psi_exceeds_limit), ..s },
                UnitAction::Wait,
            )
        } else {
            (UnitState::Aging, s, UnitAction::RunAging)
        },
        (UnitState::Aging, UnitEvent::AgingDone { min_seq, max_seq, now, psi }) => {
            let a = aged_status(s, min_seq, max_seq, now);
            if eviction_allowed(a.run_aging_count, c, psi) {
                (
                    UnitState::Evicting,
                    a,
                    UnitAction::RunEviction { swap: c.swap, swappiness_max: c.swappiness_max },
                )
            } else if a.run_aging_count < c.eviction_run_aging_count_min {
                (
                    UnitState::Waiting,
                    NumaStatus {
                        eviction_count: EvictionCount {
                            min_lru_inc: inc(a.eviction_count.min_lru_inc),
                            ..a.eviction_count
                        },
                        ..a
                    },
                    UnitAction::Wait,
                )
            } else {
                (
                    UnitState::Waiting,
                    NumaStatus {
                        eviction_count: EvictionCount {
                            psi_exceeds_limit: inc(a.eviction_count.psi_exceeds_limit),
                            ..a.eviction_count
                        },
                        ..a
                    },
                    UnitAction::Wait,
                )
            }
        },
        (UnitState::Aging, UnitEvent::AgingFailed { gone }) => if gone {
            (
                UnitState::Stopped,
                NumaStatus {
                    eviction_count: EvictionCount { error: inc(s.eviction_count.error), ..s.eviction_count },
                    ..s
                },
                UnitAction::Stop,
            )
        } else {
            (
                UnitState::Waiting,
                NumaStatus {
                    eviction_count: EvictionCount {
                        other_error: inc(s.eviction_count.other_error),
                        ..s.eviction_count
                    },
                    ..s
                },
                UnitAction::Wait,
            )
        },
        (UnitState::Evicting, UnitEvent::EvictionDone { outcome }) => {
            let n = NumaStatus { eviction_count: count_outcome(s.eviction_count, outcome), ..s };
            if outcome == EvictionOutcome::HardError {
                (UnitState::Stopped, n, UnitAction::Stop)
            } else {
                (UnitState::Waiting, n, UnitAction::Wait)
            }
        },
        // An event that does not belong to the current state changes nothing.
        (UnitState::Waiting, _) => (UnitState::Waiting, s, UnitAction::Wait),
        (UnitState::Aging, _) => (UnitState::Aging, s, UnitAction::RunAging),
        (UnitState::Evicting, _) => (
            UnitState::Evicting,
            s,
            UnitAction::RunEviction { swap: c.swap, swappiness_max: c.swappiness_max },
        ),
    }
}


/// The state and status after a unit has taken `events` in order.
pub open spec fn run(
    state: UnitState,
    s: NumaStatus,
    c: SingleConfig,
    events: Seq<UnitEvent>,
) -> (UnitState, NumaStatus)
    decreases events.len(),
{
    if events.len() == 0 {
        (state, s)
    } else {
        let (st, ss) = run(state, s, c, events.drop_last());
        let r = step(st, ss, c, events.last());
        (r.0, r.1)
    }
}

/// A tick whose pressure is at or above the period limit (or unknown) runs
/// no aging pass: `run_aging_count` stays, `sleep_psi_exceeds_limit` grows by
/// exactly one, and the unit keeps waiting.
pub proof fn lemma_sleep_on_pressure(s: NumaStatus, c: SingleConfig, psi: Option<u8>)
    requires
        !c.disabled,
        at_limit(psi, c.period_psi_percent_limit),
        s.sleep_psi_exceeds_limit < u64::MAX,
    ensures
        ({
            let r = step(UnitState::Waiting, s, c, UnitEvent::Tick { psi });
            &&& r.0 == UnitState::Waiting
            &&& r.2 == UnitAction::Wait
            &&& r.1.run_aging_count == s.run_aging_count
            &&& r.1.sleep_psi_exceeds_limit == s.sleep_psi_exceeds_limit + 1
            &&& r.1.eviction_count == s.eviction_count
        }),
{
}

/// A unit asks for eviction only once `run_aging_count` has reached
/// `eviction_run_aging_count_min`.
pub proof fn lemma_eviction_needs_aging(state: UnitState, s: NumaStatus, c: SingleConfig, e: UnitEvent)
    requires
        state != UnitState::Evicting,
    ensures
        step(state, s, c, e).2 is RunEviction ==> step(state, s, c, e).1.run_aging_count
            >= c.eviction_run_aging_count_min,
{
}

spec fn no_early_eviction(state: UnitState, s: NumaStatus, c: SingleConfig) -> bool {
    &&& state == UnitState::Evicting ==> s.run_aging_count >= c.eviction_run_aging_count_min
    &&& s.run_aging_count < c.eviction_run_aging_count_min ==> s.eviction_count.page == 0
}

proof fn lemma_step_keeps_no_early_eviction(state: UnitState, s: NumaStatus, c: SingleConfig, e: UnitEvent)
    requires
        no_early_eviction(state, s, c),
    ensures
        no_early_eviction(step(state, s, c, e).0, step(state, s, c, e).1, c),
        step(state, s, c, e).1.run_aging_count >= s.run_aging_count,
{
}

/// Starting from a unit that has evicted nothing, no page is evicted while
/// `run_aging_count` stays below `eviction_run_aging_count_min`, whatever
/// events come.
pub proof fn lemma_no_eviction_before_min(s: NumaStatus, c: SingleConfig, events: Seq<UnitEvent>)
    requires
        s.eviction_count.page == 0,
    ensures
        run(UnitState::Waiting, s, c, events).1.run_aging_count < c.eviction_run_aging_count_min
            ==> run(UnitState::Waiting, s, c, events).1.eviction_count.page == 0,
{
    lemma_run_keeps_no_early_eviction(s, c, events);
}

proof fn lemma_run_keeps_no_early_eviction(s: NumaStatus, c: SingleConfig, events: Seq<UnitEvent>)
    requires
        s.eviction_count.page == 0,
    ensures
        no_early_eviction(run(UnitState::Waiting, s, c, events).0, run(UnitState::Waiting, s, c, events).1, c),
    decreases events.len(),
{
    if events.len() > 0 {
        lemma_run_keeps_no_early_eviction(s, c, events.drop_last());
        let (st, ss) = run(UnitState::Waiting, s, c, events.drop_last());
        lemma_step_keeps_no_early_eviction(st, ss, c, events.last());
    }
}

impl EvictionCount {
    pub fn new() -> (r: EvictionCount)
        ensures
            r == zero_count(),
    {
        EvictionCount {
            page: 0,
            no_min_lru_file: 0,
            min_lru_inc: 0,
            other_error: 0,
            error: 0,
            psi_exceeds_limit: 0,
        }
    }
}

impl NumaStatus {
    /// The status of a unit that has not run yet.
    pub fn new() -> (r: NumaStatus)
        ensures
            r == fresh_status(),
    {
        NumaStatus {
            last_inc_time: 0,
            max_seq: 0,
            min_seq: 0,
            run_aging_count: 0,
            eviction_count: EvictionCount::new(),
            sleep_psi_exceeds_limit: 0,
        }
    }
}

fn count_eviction(c: EvictionCount, o: EvictionOutcome) -> (r: EvictionCount)
    ensures
        r == count_outcome(c, o),
{
    match o {
        EvictionOutcome::Evicted { pages } => EvictionCount { page: c.page.saturating_add(pages), ..c },
        EvictionOutcome::NoEligibleGeneration => EvictionCount {
            no_min_lru_file: c.no_min_lru_file.saturating_add(1),
            ..c
        },
        EvictionOutcome::PressureRose => EvictionCount {
            psi_exceeds_limit: c.psi_exceeds_limit.saturating_add(1),
            ..c
        },
        EvictionOutcome::SoftError => EvictionCount { other_error: c.other_error.saturating_add(1), ..c },
        EvictionOutcome::HardError => EvictionCount { error: c.error.saturating_add(1), ..c },
    }
}

/// Advances a unit by one event.
///
/// On a tick the unit sleeps when the pressure is at or above the period
/// limit (or unknown), and asks for an aging pass otherwise. After aging it
/// asks for eviction only once it has aged `eviction_run_aging_count_min`
/// times and the pressure is below the eviction limit. A hard error stops it.
pub fn unit_step(state: UnitState, status: &mut NumaStatus, config: &SingleConfig, event: UnitEvent) -> (r: (UnitState, UnitAction))
    ensures
        (r.0, *final(status), r.1) == step(state, *old(status), *config, event),
{
    let s = *status;
    match (state, event) {
        (UnitState::Stopped, _) => (UnitState::Stopped, UnitAction::Stop),
        (_, UnitEvent::StopRequested) => (UnitState::Stopped, UnitAction::Stop),
        (UnitState::Waiting, UnitEvent::Tick { psi }) => {
            if config.disabled {
                (UnitState::Waiting, UnitAction::Wait)
            } else if psi_at_limit(psi, config.period_psi_percent_limit) {
                status.sleep_psi_exceeds_limit = s.sleep_psi_exceeds_limit.saturating_add(1);
                (UnitState::Waiting, UnitAction::Wait)
            } else {
                (UnitState::Aging, UnitAction::RunAging)
            }
        },
        (UnitState::Aging, UnitEvent::AgingDone { min_seq, max_seq, now, psi }) => {
            if max_seq != s.max_seq {
                status.last_inc_time = now;
            }
            status.max_seq = max_seq;
            status.min_seq = min_seq;
            status.run_aging_count = s.run_aging_count.saturating_add(1);
            let count = status.run_aging_count;
            if count >= config.eviction_run_aging_count_min && !psi_at_limit(
                psi,
                config.eviction_psi_percent_limit,
            ) {
                (
                    UnitState::Evicting,
                    UnitAction::RunEviction {
                        swap: config.swap,
                        swappiness_max: config.swappiness_max,
                    },
                )
            } else if count < config.eviction_run_aging_count_min {
                status.eviction_count.min_lru_inc = s.eviction_count.min_lru_inc.saturating_add(1);
                (UnitState::Waiting, UnitAction::Wait)
            } else {
                status.eviction_count.psi_exceeds_limit =
                    s.eviction_count.psi_exceeds_limit.saturating_add(1);
                (UnitState::Waiting, UnitAction::Wait)
            }
        },
        (UnitState::Aging, UnitEvent::AgingFailed { gone }) => {
            if gone {
                status.eviction_count.error = s.eviction_count.error.saturating_add(1);
                (UnitState::Stopped, UnitAction::Stop)
            } else {
                status.eviction_count.other_error = s.eviction_count.other_error.saturating_add(1);
                (UnitState::Waiting, UnitAction::Wait)
            }
        },
        (UnitState::Evicting, UnitEvent::EvictionDone { outcome }) => {
            status.eviction_count = count_eviction(s.eviction_count, outcome);
            match outcome {
                EvictionOutcome::HardError => (UnitState::Stopped, UnitAction::Stop),
                _ => (UnitState::Waiting, UnitAction::Wait),
            }
        },
        (UnitState::Waiting, _) => (UnitState::Waiting, UnitAction::Wait),
        (UnitState::Aging, _) => (UnitState::Aging, UnitAction::RunAging),
        (UnitState::Evicting, _) => (
            UnitState::Evicting,
            UnitAction::RunEviction { swap: config.swap, swappiness_max: config.swappiness_max },
        ),
    }
}

} // verus!
