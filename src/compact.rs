use vstd::prelude::*;
use crate::memcg::{pick, pick_exec};
use crate::psi::{at_limit, psi_at_limit};

verus! {

/// A partial compaction policy: an unset field keeps its current value.
#[derive(Clone, Copy, Debug, PartialEq, Eq, Structural)]
pub struct CompactOptionConfig {
    pub disabled: Option<bool>,
    pub period_secs: Option<u64>,
    pub period_psi_percent_limit: Option<u8>,
    pub compact_psi_percent_limit: Option<u8>,
    pub compact_sec_max: Option<i64>,
    pub compact_order: Option<u8>,
    pub compact_threshold: Option<u64>,
    pub compact_force_times: Option<u64>,
}

/// The process-wide compaction policy.
#[derive(Clone, Copy, Debug, PartialEq, Eq, Structural)]
pub struct CompactConfig {
    pub disabled: bool,
    pub period_secs: u64,
    /// Pressure at or above which a tick skips compaction.
    pub period_psi_percent_limit: u8,
    /// Pressure at or above which a running compaction is cut short.
    pub compact_psi_percent_limit: u8,
    /// Longest run, in seconds; a longer run is aborted as a timeout.
    pub compact_sec_max: i64,
    /// The page order that compaction targets.
    pub compact_order: u8,
    /// A run starts when the fragmentation signal is at or above this value.
    pub compact_threshold: u64,
    /// After this many consecutive pressure skips the next tick compacts.
    pub compact_force_times: u64,
}

pub open spec fn default_compact_config() -> CompactConfig {
    CompactConfig {
        disabled: false,
        period_secs: 600,
        period_psi_percent_limit: 1,
        compact_psi_percent_limit: 5,
        compact_sec_max: 300,
        compact_order: 9,
        compact_threshold: 1024,
        compact_force_times: u64::MAX,
    }
}

pub open spec fn overlay_compact(o: CompactOptionConfig, b: CompactConfig) -> CompactConfig {
    CompactConfig {
        disabled: pick(o.disabled, b.disabled),
        period_secs: pick(o.period_secs, b.period_secs),
        period_psi_percent_limit: pick(o.period_psi_percent_limit, b.period_psi_percent_limit),
        compact_psi_percent_limit: pick(o.compact_psi_percent_limit, b.compact_psi_percent_limit),
        compact_sec_max: pick(o.compact_sec_max, b.compact_sec_max),
        compact_order: pick(o.compact_order, b.compact_order),
        compact_threshold: pick(o.compact_threshold, b.compact_threshold),
        compact_force_times: pick(o.compact_force_times, b.compact_force_times),
    }
}

impl Default for CompactConfig {
    fn default() -> (r: CompactConfig)
        ensures
            r == default_compact_config(),
    {
        CompactConfig {
            disabled: false,
            period_secs: 600,
            period_psi_percent_limit: 1,
            compact_psi_percent_limit: 5,
            compact_sec_max: 300,
            compact_order: 9,
            compact_threshold: 1024,
            compact_force_times: u64::MAX,
        }
    }
}

impl CompactOptionConfig {
    /// Resolves this partial policy against `base`.
    pub fn resolve(&self, base: &CompactConfig) -> (r: CompactConfig)
        ensures
            r == overlay_compact(*self, *base),
    {
        CompactConfig {
            disabled: pick_exec(self.disabled, base.disabled),
            period_secs: pick_exec(self.period_secs, base.period_secs),
            period_psi_percent_limit: pick_exec(
                self.period_psi_percent_limit,
                base.period_psi_percent_limit,
            ),
            compact_psi_percent_limit: pick_exec(
                self.compact_psi_percent_limit,
                base.compact_psi_percent_limit,
            ),
            compact_sec_max: pick_exec(self.compact_sec_max, base.compact_sec_max),
            compact_order: pick_exec(self.compact_order, base.compact_order),
            compact_threshold: pick_exec(self.compact_threshold, base.compact_threshold),
            compact_force_times: pick_exec(self.compact_force_times, base.compact_force_times),
        }
    }
}

#[derive(Clone, Copy, Debug, PartialEq, Eq, Structural)]
pub enum CompactState {
    Waiting,
    Compacting,
}

/// Counters of the compaction controller.
#[derive(Clone, Copy, Debug, PartialEq, Eq, Structural)]
pub struct CompactStatus {
    /// Consecutive ticks skipped because of pressure.
    pub skip_count: u64,
    pub run_count: u64,
    pub forced_count: u64,
    pub timeout_count: u64,
    pub psi_abort_count: u64,
}

#[derive(Clone, Copy, Debug, PartialEq, Eq, Structural)]
pub enum CompactEvent {
    /// The period elapsed; `signal` is the fragmentation signal at the
    /// configured order, `None` when it could not be read.
    Tick { psi: Option<u8>, signal: Option<u64> },
    /// A check while compaction runs.
    Progress { psi: Option<u8>, elapsed_secs: u64 },
    Finished,
}

#[derive(Clone, Copy, Debug, PartialEq, Eq, Structural)]
pub enum CompactAction {
    Wait,
    Compact { order: u8 },
    Continue,
    Abort,
}

pub open spec fn sat_inc(x: u64) -> u64 {
    x.saturating_add(1)
}

pub open spec fn over_time(elapsed: u64, sec_max: i64) -> bool {
    elapsed as int > sec_max as int
}

/// One transition of the compaction controller.
pub open spec fn compact_step(
    state: CompactState,
    s: CompactStatus,
    c: CompactConfig,
    e: CompactEvent,
) -> (CompactState, CompactStatus, CompactAction) {
    match (state, e) {
        (CompactState::Waiting, CompactEvent::Tick { psi, signal }) => if c.disabled {
            (CompactState::Waiting, s, CompactAction::Wait)
        } else if s.skip_count >= c.compact_force_times {
            (
                CompactState::Compacting,
                CompactStatus { skip_count: 0, forced_count: sat_inc(s.forced_count), ..s },
                CompactAction::Compact { order: c.compact_order },
            )
        } else if at_limit(psi, c.period_psi_percent_limit) {
            (CompactState::Waiting, CompactStatus { skip_count: sat_inc(s.skip_count), ..s }, CompactAction::Wait)
        } else if signal is Some && signal->0 >= c.compact_threshold {
            (
                CompactState::Compacting,
                CompactStatus { skip_count: 0, ..s },
                CompactAction::Compact { order: c.compact_order },
            )
        } else {
            (CompactState::Waiting, CompactStatus { skip_count: 0, ..s }, CompactAction::Wait)
        },
        (CompactState::Compacting, CompactEvent::Progress { psi, elapsed_secs }) => if over_time(
            elapsed_secs,
            c.compact_sec_max,
        ) {
            (
                CompactState::Waiting,
                CompactStatus { timeout_count: sat_inc(s.timeout_count), ..s },
                CompactAction::Abort,
            )
        } else if at_limit(psi, c.compact_psi_percent_limit) {
            (
                CompactState::Waiting,
                CompactStatus { psi_abort_count: sat_inc(s.psi_abort_count), ..s },
                CompactAction::Abort,
            )
        } else {
            (CompactState::Compacting, s, CompactAction::Continue)
        },
        (CompactState::Compacting, CompactEvent::Finished) => (
            CompactState::Waiting,
            CompactStatus { run_count: sat_inc(s.run_count), ..s },
            CompactAction::Wait,
        ),
        (CompactState::Waiting, _) => (CompactState::Waiting, s, CompactAction::Wait),
        (CompactState::Compacting, _) => (CompactState::Compacting, s, CompactAction::Continue),
    }
}

/// The controller's state and counters after `events` in order.
pub open spec fn compact_run(
    state: CompactState,
    s: CompactStatus,
    c: CompactConfig,
    events: Seq<CompactEvent>,
) -> (CompactState, CompactStatus)
    decreases events.len(),
{
    if events.len() == 0 {
        (state, s)
    } else {
        let (st, ss) = compact_run(state, s, c, events.drop_last());
        let r = compact_step(st, ss, c, events.last());
        (r.0, r.1)
    }
}

pub open spec fn pressure_tick(e: CompactEvent, c: CompactConfig) -> bool {
    e is Tick && at_limit(e->Tick_psi, c.period_psi_percent_limit)
}

/// The compaction controller: its policy, where it stands, and its counters.
pub struct Compactor {
    pub config: CompactConfig,
    pub state: CompactState,
    pub status: CompactStatus,
}

impl Compactor {
    /// A waiting controller with zero counters.
    pub fn new(config: CompactConfig) -> (r: Compactor)
        ensures
            r.config == config,
            r.state == CompactState::Waiting,
            r.status == (CompactStatus {
                skip_count: 0,
                run_count: 0,
                forced_count: 0,
                timeout_count: 0,
                psi_abort_count: 0,
            }),
    {
        Compactor {
            config,
            state: CompactState::Waiting,
            status: CompactStatus {
                skip_count: 0,
                run_count: 0,
                forced_count: 0,
                timeout_count: 0,
                psi_abort_count: 0,
            },
        }
    }

    /// Lays a partial policy over the current one; state and counters stay.
    pub fn compact_set(&mut self, opt: &CompactOptionConfig)
        ensures
            final(self).config == overlay_compact(*opt, old(self).config),
            final(self).state == old(self).state,
            final(self).status == old(self).status,
    {
        self.config = opt.resolve(&self.config);
    }

    /// Advances the controller by one event.
    ///
    /// A tick skips under pressure at or above `period_psi_percent_limit`
    /// (or unknown pressure). Once `compact_force_times` consecutive ticks
    /// were skipped, the next tick compacts whatever the pressure, and the
    /// skip counter starts again from zero. Otherwise a tick compacts when
    /// the signal is at or above `compact_threshold`. A run is aborted when it
    /// takes longer than `compact_sec_max` seconds or when pressure reaches
    /// `compact_psi_percent_limit`.
    pub fn step(&mut self, event: CompactEvent) -> (r: CompactAction)
        ensures
            (final(self).state, final(self).status, r) == compact_step(
                old(self).state,
                old(self).status,
                old(self).config,
                event,
            ),
            final(self).config == old(self).config,
    {
        let c = self.config;
        let s = self.status;
        let state = self.state;
        let (next, status, action) = match (state, event) {
            (CompactState::Waiting, CompactEvent::Tick { psi, signal }) => {
                if c.disabled {
                    (CompactState::Waiting, s, CompactAction::Wait)
                } else if s.skip_count >= c.compact_force_times {
                    (
                        CompactState::Compacting,
                        CompactStatus {
                            skip_count: 0,
                            forced_count: s.forced_count.saturating_add(1),
                            ..s
                        },
                        CompactAction::Compact { order: c.compact_order },
                    )
                } else if psi_at_limit(psi, c.period_psi_percent_limit) {
                    (
                        CompactState::Waiting,
                        CompactStatus { skip_count: s.skip_count.saturating_add(1), ..s },
                        CompactAction::Wait,
                    )
                } else {
                    let crossed = match signal {
                        Some(v) => v >= c.compact_threshold,
                        None => false,
                    };
                    if crossed {
                        (
                            CompactState::Compacting,
                            CompactStatus { skip_count: 0, ..s },
                            CompactAction::Compact { order: c.compact_order },
                        )
                    } else {
                        (CompactState::Waiting, CompactStatus { skip_count: 0, ..s }, CompactAction::Wait)
                    }
                }
            },
            (CompactState::Compacting, CompactEvent::Progress { psi, elapsed_secs }) => {
                let late = c.compact_sec_max < 0 || elapsed_secs > c.compact_sec_max as u64;
                if late {
                    (
                        CompactState::Waiting,
                        CompactStatus { timeout_count: s.timeout_count.saturating_add(1), ..s },
                        CompactAction::Abort,
                    )
                } else if psi_at_limit(psi, c.compact_psi_percent_limit) {
                    (
                        CompactState::Waiting,
                        CompactStatus { psi_abort_count: s.psi_abort_count.saturating_add(1), ..s },
                        CompactAction::Abort,
                    )
                } else {
                    (CompactState::Compacting, s, CompactAction::Continue)
                }
            },
            (CompactState::Compacting, CompactEvent::Finished) => (
                CompactState::Waiting,
                CompactStatus { run_count: s.run_count.saturating_add(1), ..s },
                CompactAction::Wait,
            ),
            (CompactState::Waiting, _) => (CompactState::Waiting, s, CompactAction::Wait),
            (CompactState::Compacting, _) => (CompactState::Compacting, s, CompactAction::Continue),
        };
        self.state = next;
        self.status = status;
        action
    }
}

/// Consecutive ticks under pressure, fewer than or as many as
/// `compact_force_times`, each add one to the skip counter and run nothing.
pub proof fn lemma_skips_count_up(s: CompactStatus, c: CompactConfig, events: Seq<CompactEvent>)
    requires
        !c.disabled,
        s.skip_count == 0,
        events.len() <= c.compact_force_times,
        forall|i: int| 0 <= i < events.len() ==> pressure_tick(#[trigger] events[i], c),
    ensures
        compact_run(CompactState::Waiting, s, c, events).0 == CompactState::Waiting,
        compact_run(CompactState::Waiting, s, c, events).1.skip_count == events.len(),
        compact_run(CompactState::Waiting, s, c, events).1.run_count == s.run_count,
    decreases events.len(),
{
    if events.len() > 0 {
        let prefix = events.drop_last();
        assert forall|i: int| 0 <= i < prefix.len() implies pressure_tick(#[trigger] prefix[i], c) by {
            assert(prefix[i] == events[i]);
        }
        lemma_skips_count_up(s, c, prefix);
        assert(pressure_tick(events[events.len() - 1], c));
    }
}

/// After exactly `compact_force_times` consecutive ticks skipped for
/// pressure, the next tick compacts whatever the pressure and the skip
/// counter is zero again.
pub proof fn lemma_forced_compaction(
    s: CompactStatus,
    c: CompactConfig,
    events: Seq<CompactEvent>,
    psi: Option<u8>,
    signal: Option<u64>,
)
    requires
        !c.disabled,
        s.skip_count == 0,
        events.len() == c.compact_force_times,
        forall|i: int| 0 <= i < events.len() ==> pressure_tick(#[trigger] events[i], c),
    ensures
        ({
            let (st, ss) = compact_run(CompactState::Waiting, s, c, events);
            let r = compact_step(st, ss, c, CompactEvent::Tick { psi, signal });
            &&& r.0 == CompactState::Compacting
            &&& r.2 == CompactAction::Compact { order: c.compact_order }
            &&& r.1.skip_count == 0
        }),
{
    lemma_skips_count_up(s, c, events);
}

} // verus!
