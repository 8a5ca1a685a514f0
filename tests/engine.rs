use mem_agent::aging::{unit_step, EvictionOutcome, NumaStatus, UnitAction, UnitEvent, UnitState};
use mem_agent::compact::{CompactAction, CompactConfig, CompactEvent, CompactOptionConfig, CompactState, Compactor};
use mem_agent::memcg::SingleConfig;
use mem_agent::psi::{psi_at_limit, psi_reading};

fn one_cycle(state: &mut UnitState, st: &mut NumaStatus, c: &SingleConfig, psi: u8) -> UnitAction {
    let (s1, a1) = unit_step(*state, st, c, UnitEvent::Tick { psi: Some(psi) });
    *state = s1;
    if a1 != UnitAction::RunAging {
        return a1;
    }
    let ev = UnitEvent::AgingDone { min_seq: 0, max_seq: st.max_seq + 1, now: 7, psi: Some(psi) };
    let (s2, a2) = unit_step(*state, st, c, ev);
    *state = s2;
    if let UnitAction::RunEviction { .. } = a2 {
        let (s3, _) = unit_step(*state, st, c, UnitEvent::EvictionDone { outcome: EvictionOutcome::Evicted { pages: 10 } });
        *state = s3;
    }
    a2
}

#[test]
fn no_eviction_before_aging_minimum() {
    let mut c = SingleConfig::default();
    c.eviction_run_aging_count_min = 3;
    c.period_psi_percent_limit = 50;
    c.eviction_psi_percent_limit = 50;
    let mut st = NumaStatus::new();
    let mut state = UnitState::Waiting;
    for k in 1..3u64 {
        assert_eq!(one_cycle(&mut state, &mut st, &c, 0), UnitAction::Wait);
        assert_eq!(st.run_aging_count, k);
        assert_eq!(st.eviction_count.page, 0);
    }
    let a = one_cycle(&mut state, &mut st, &c, 0);
    assert_eq!(a, UnitAction::RunEviction { swap: false, swappiness_max: 50 });
    assert_eq!(st.run_aging_count, 3);
    assert_eq!(st.eviction_count.page, 10);
    assert_eq!(st.eviction_count.min_lru_inc, 2);
    assert_eq!(st.last_inc_time, 7);
}

#[test]
fn pressure_at_limit_sleeps_without_aging() {
    let c = SingleConfig::default();
    let mut st = NumaStatus::new();
    let (s, a) = unit_step(UnitState::Waiting, &mut st, &c, UnitEvent::Tick { psi: Some(1) });
    assert_eq!((s, a), (UnitState::Waiting, UnitAction::Wait));
    assert_eq!(st.run_aging_count, 0);
    assert_eq!(st.sleep_psi_exceeds_limit, 1);
    let (_, a) = unit_step(UnitState::Waiting, &mut st, &c, UnitEvent::Tick { psi: None });
    assert_eq!(a, UnitAction::Wait);
    assert_eq!(st.sleep_psi_exceeds_limit, 2);
}

#[test]
fn eviction_blocked_by_pressure_is_counted() {
    let mut c = SingleConfig::default();
    c.eviction_run_aging_count_min = 0;
    c.period_psi_percent_limit = 50;
    let mut st = NumaStatus::new();
    let (s, a) = unit_step(UnitState::Aging, &mut st, &c, UnitEvent::AgingDone { min_seq: 2, max_seq: 5, now: 3, psi: Some(20) });
    assert_eq!((s, a), (UnitState::Waiting, UnitAction::Wait));
    assert_eq!(st.eviction_count.psi_exceeds_limit, 1);
    assert_eq!((st.min_seq, st.max_seq), (2, 5));
}

#[test]
fn disabled_unit_stays_waiting() {
    let mut c = SingleConfig::default();
    c.disabled = true;
    let mut st = NumaStatus::new();
    let (s, a) = unit_step(UnitState::Waiting, &mut st, &c, UnitEvent::Tick { psi: Some(0) });
    assert_eq!((s, a), (UnitState::Waiting, UnitAction::Wait));
    assert_eq!(st, NumaStatus::new());
}

#[test]
fn soft_and_hard_aging_failures() {
    let c = SingleConfig::default();
    let mut st = NumaStatus::new();
    let (s, _) = unit_step(UnitState::Aging, &mut st, &c, UnitEvent::AgingFailed { gone: false });
    assert_eq!(s, UnitState::Waiting);
    assert_eq!(st.eviction_count.other_error, 1);
    let (s, a) = unit_step(UnitState::Aging, &mut st, &c, UnitEvent::AgingFailed { gone: true });
    assert_eq!((s, a), (UnitState::Stopped, UnitAction::Stop));
    assert_eq!(st.eviction_count.error, 1);
}

#[test]
fn eviction_outcomes_are_counted() {
    let c = SingleConfig::default();
    let mut st = NumaStatus::new();
    for o in [EvictionOutcome::NoEligibleGeneration, EvictionOutcome::PressureRose, EvictionOutcome::SoftError] {
        let (s, _) = unit_step(UnitState::Evicting, &mut st, &c, UnitEvent::EvictionDone { outcome: o });
        assert_eq!(s, UnitState::Waiting);
    }
    assert_eq!(st.eviction_count.no_min_lru_file, 1);
    assert_eq!(st.eviction_count.psi_exceeds_limit, 1);
    assert_eq!(st.eviction_count.other_error, 1);
}

#[test]
fn psi_gate_treats_unknown_as_at_limit() {
    assert!(psi_at_limit(None, 100));
    assert!(psi_at_limit(Some(10), 10));
    assert!(!psi_at_limit(Some(9), 10));
    assert_eq!(psi_reading(100), Some(100));
    assert_eq!(psi_reading(101), None);
}

#[test]
fn forced_compaction_after_four_skips() {
    let mut c = Compactor::new(CompactConfig::default());
    let opt = CompactOptionConfig {
        disabled: None,
        period_secs: None,
        period_psi_percent_limit: None,
        compact_psi_percent_limit: None,
        compact_sec_max: None,
        compact_order: Some(3),
        compact_threshold: Some(1000),
        compact_force_times: Some(4),
    };
    c.compact_set(&opt);
    for k in 1..=4u64 {
        assert_eq!(c.step(CompactEvent::Tick { psi: Some(90), signal: Some(5000) }), CompactAction::Wait);
        assert_eq!(c.status.skip_count, k);
    }
    let a = c.step(CompactEvent::Tick { psi: Some(90), signal: Some(0) });
    assert_eq!(a, CompactAction::Compact { order: 3 });
    assert_eq!(c.status.skip_count, 0);
    assert_eq!(c.state, CompactState::Compacting);
    assert_eq!(c.status.forced_count, 1);
}

#[test]
fn compaction_threshold_and_aborts() {
    let mut cfg = CompactConfig::default();
    cfg.compact_threshold = 1000;
    cfg.compact_sec_max = 10;
    let mut c = Compactor::new(cfg);
    assert_eq!(c.step(CompactEvent::Tick { psi: Some(0), signal: Some(999) }), CompactAction::Wait);
    assert_eq!(c.step(CompactEvent::Tick { psi: Some(0), signal: None }), CompactAction::Wait);
    assert_eq!(c.step(CompactEvent::Tick { psi: Some(0), signal: Some(1000) }), CompactAction::Compact { order: 9 });
    assert_eq!(c.step(CompactEvent::Progress { psi: Some(0), elapsed_secs: 5 }), CompactAction::Continue);
    assert_eq!(c.step(CompactEvent::Progress { psi: Some(0), elapsed_secs: 11 }), CompactAction::Abort);
    assert_eq!(c.status.timeout_count, 1);
    c.step(CompactEvent::Tick { psi: Some(0), signal: Some(1000) });
    assert_eq!(c.step(CompactEvent::Progress { psi: Some(5), elapsed_secs: 1 }), CompactAction::Abort);
    assert_eq!(c.status.psi_abort_count, 1);
    c.step(CompactEvent::Tick { psi: Some(0), signal: Some(1000) });
    assert_eq!(c.step(CompactEvent::Finished), CompactAction::Wait);
    assert_eq!(c.status.run_count, 1);
}

#[test]
fn disabled_compaction_waits() {
    let mut cfg = CompactConfig::default();
    cfg.disabled = true;
    cfg.compact_force_times = 0;
    let mut c = Compactor::new(cfg);
    assert_eq!(c.step(CompactEvent::Tick { psi: Some(0), signal: Some(u64::MAX) }), CompactAction::Wait);
    assert_eq!(c.state, CompactState::Waiting);
}
