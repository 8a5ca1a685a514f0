use mem_agent::compact::CompactConfig;
use mem_agent::control::MyControl;
use mem_agent::aging::{EvictionOutcome, UnitAction, UnitEvent, UnitState};
use mem_agent::memcg::{
    CgroupOptionConfig, Config, OptionConfig, PathNumaSelector, SingleConfig, SingleOptionConfig,
};
use mem_agent::registry::{ConfigOp, ItemErrorKind, Registry, TransitionKind};

fn item(path: &str, numa: Vec<u32>, config: SingleOptionConfig) -> CgroupOptionConfig {
    CgroupOptionConfig { path: path.to_string(), numa_id: numa, no_subdir: None, config }
}

fn change() -> OptionConfig {
    OptionConfig { default: SingleOptionConfig::empty(), add: vec![], set: vec![], del: vec![] }
}

fn registry() -> Registry {
    Registry::new(vec![0, 1], SingleConfig::default())
}

#[test]
fn apply_adds_two_units_with_default() {
    let mut reg = registry();
    let mut opt = change();
    opt.default.period_secs = Some(5);
    opt.default.eviction_psi_percent_limit = Some(10);
    opt.add.push(item("/a", vec![0, 1], SingleOptionConfig::empty()));
    let (tr, res) = reg.apply(&opt);
    assert!(res.is_ok());
    assert_eq!(tr.len(), 2);
    assert!(tr.iter().all(|t| t.kind == TransitionKind::Start && t.path == "/a"));
    let st = reg.status();
    assert_eq!(st.len(), 2);
    assert_eq!(st[0].path, "/a");
    assert_eq!(st[0].numa_id, 0);
    assert_eq!(st[1].numa_id, 1);
    for s in &st {
        assert_eq!(s.status.run_aging_count, 0);
        assert_eq!(s.config.period_secs, 5);
        assert_eq!(s.config.eviction_psi_percent_limit, 10);
        assert_eq!(s.config.swappiness_max, 50);
    }
}

#[test]
fn empty_numa_selects_every_host_node() {
    let mut reg = registry();
    let mut opt = change();
    opt.add.push(item("/b", vec![], SingleOptionConfig::empty()));
    let (tr, res) = reg.apply(&opt);
    assert!(res.is_ok());
    assert_eq!(tr.len(), 2);
    assert_eq!(reg.len(), 2);
}

#[test]
fn delete_untracked_reports_and_continues() {
    let mut reg = registry();
    let mut opt = change();
    opt.del.push(PathNumaSelector { path: "/x".to_string(), numa_id: vec![0] });
    opt.add.push(item("/a", vec![1], SingleOptionConfig::empty()));
    let (tr, res) = reg.apply(&opt);
    let err = res.unwrap_err();
    assert_eq!(err.items.len(), 1);
    assert_eq!(err.items[0].op, ConfigOp::Delete);
    assert_eq!(err.items[0].kind, ItemErrorKind::NotTracked);
    assert_eq!(err.items[0].numa_id, Some(0));
    assert_eq!(tr.len(), 1);
    assert_eq!(reg.len(), 1);
}

#[test]
fn every_item_error_kind() {
    let mut reg = registry();
    let mut first = change();
    first.add.push(item("/a", vec![0], SingleOptionConfig::empty()));
    assert!(reg.apply(&first).1.is_ok());
    let mut opt = change();
    opt.add.push(item("relative", vec![0], SingleOptionConfig::empty()));
    opt.add.push(item("/a", vec![7], SingleOptionConfig::empty()));
    opt.add.push(item("/a", vec![0], SingleOptionConfig::empty()));
    opt.set.push(item("/nope", vec![0], SingleOptionConfig::empty()));
    let (tr, res) = reg.apply(&opt);
    assert!(tr.is_empty());
    let kinds: Vec<ItemErrorKind> = res.unwrap_err().items.iter().map(|e| e.kind).collect();
    assert_eq!(
        kinds,
        vec![
            ItemErrorKind::BadPath,
            ItemErrorKind::BadNuma,
            ItemErrorKind::AlreadyTracked,
            ItemErrorKind::NotTracked
        ]
    );
}

#[test]
fn set_merges_over_existing_override_not_default() {
    let mut reg = registry();
    let mut opt = change();
    let mut cfg = SingleOptionConfig::empty();
    cfg.swap = Some(true);
    cfg.period_secs = Some(30);
    opt.add.push(item("/a", vec![0], cfg));
    assert!(reg.apply(&opt).1.is_ok());
    let mut set = change();
    let mut cfg2 = SingleOptionConfig::empty();
    cfg2.period_secs = Some(60);
    set.set.push(item("/a", vec![0], cfg2));
    set.default.swap = Some(false);
    set.default.swappiness_max = Some(70);
    let (tr, res) = reg.apply(&set);
    assert!(res.is_ok());
    assert_eq!(tr[0].kind, TransitionKind::Update);
    let c = reg.config_of(&"/a".to_string(), 0).unwrap();
    assert_eq!(c.period_secs, 60);
    assert!(c.swap);
    assert_eq!(c.swappiness_max, 70);
    assert_eq!(reg.default_config().swappiness_max, 70);
}

#[test]
fn delete_then_readd_in_one_change_starts_fresh() {
    let mut reg = registry();
    let mut opt = change();
    opt.add.push(item("/a", vec![0], SingleOptionConfig::empty()));
    assert!(reg.apply(&opt).1.is_ok());
    let p = "/a".to_string();
    assert_eq!(reg.on_event(&p, 0, UnitEvent::Tick { psi: Some(0) }), Some(UnitAction::RunAging));
    let mut again = change();
    again.del.push(PathNumaSelector { path: p.clone(), numa_id: vec![] });
    again.add.push(item("/a", vec![0], SingleOptionConfig::empty()));
    let (tr, res) = reg.apply(&again);
    assert!(res.is_ok());
    assert_eq!(tr[0].kind, TransitionKind::Stop);
    assert_eq!(tr[1].kind, TransitionKind::Start);
    assert_eq!(reg.status()[0].state, UnitState::Waiting);
}

#[test]
fn reapplying_a_change_is_idempotent() {
    let mut reg = registry();
    let mut opt = change();
    opt.default.period_secs = Some(9);
    let mut cfg = SingleOptionConfig::empty();
    cfg.swap = Some(true);
    opt.add.push(item("/a", vec![0, 1], SingleOptionConfig::empty()));
    opt.set.push(item("/a", vec![1], cfg));
    reg.apply(&opt);
    let first: Vec<(String, u32, SingleConfig)> =
        reg.status().into_iter().map(|s| (s.path, s.numa_id, s.config)).collect();
    let (tr, _) = reg.apply(&opt);
    let second: Vec<(String, u32, SingleConfig)> =
        reg.status().into_iter().map(|s| (s.path, s.numa_id, s.config)).collect();
    assert_eq!(first, second);
    assert!(tr.iter().all(|t| t.kind == TransitionKind::Update));
}

#[test]
fn hard_error_removes_the_entry() {
    let mut reg = registry();
    let mut opt = change();
    let mut cfg = SingleOptionConfig::empty();
    cfg.eviction_run_aging_count_min = Some(0);
    opt.add.push(item("/a", vec![0], cfg));
    reg.apply(&opt);
    let p = "/a".to_string();
    reg.on_event(&p, 0, UnitEvent::Tick { psi: Some(0) });
    let a = reg.on_event(&p, 0, UnitEvent::AgingDone { min_seq: 1, max_seq: 4, now: 100, psi: Some(0) });
    assert_eq!(a, Some(UnitAction::RunEviction { swap: false, swappiness_max: 50 }));
    let b = reg.on_event(&p, 0, UnitEvent::EvictionDone { outcome: EvictionOutcome::HardError });
    assert_eq!(b, Some(UnitAction::Stop));
    assert_eq!(reg.len(), 0);
    assert_eq!(reg.on_event(&p, 0, UnitEvent::Tick { psi: None }), None);
}

#[test]
fn startup_config_builds_registry() {
    let cfg = Config {
        default: SingleConfig::default(),
        cgroups: vec![item("/a", vec![1], SingleOptionConfig::empty())],
    };
    let (reg, tr, res) = Registry::from_config(vec![0, 1], &cfg);
    assert!(res.is_ok());
    assert_eq!(tr.len(), 1);
    assert_eq!(reg.status()[0].numa_id, 1);
}

#[test]
fn status_groups_numa_nodes_per_path() {
    let mut ctl = MyControl::new(registry(), CompactConfig::default());
    let mut opt = change();
    opt.default.period_secs = Some(5);
    opt.default.eviction_psi_percent_limit = Some(10);
    opt.add.push(item("/a", vec![0, 1], SingleOptionConfig::empty()));
    opt.add.push(item("/b", vec![1], SingleOptionConfig::empty()));
    let (tr, res) = ctl.memcg_set(&opt);
    assert!(res.is_ok());
    assert_eq!(tr.len(), 3);
    let st = ctl.memcg_status();
    assert_eq!(st.len(), 2);
    assert_eq!(st[0].path, "/a");
    assert_eq!(st[0].numa.len(), 2);
    assert_eq!(st[0].numa[0].0, 0);
    assert_eq!(st[0].numa[1].0, 1);
    assert!(st[0].numa.iter().all(|(_, s)| s.run_aging_count == 0));
    assert_eq!(st[1].path, "/b");
    assert_eq!(st[1].numa.len(), 1);
    let one = ctl.registry.cgroup_status(&"/a".to_string());
    assert_eq!(one.numa.len(), 2);
}

#[test]
fn children_inherit_parent_override() {
    let mut reg = registry();
    let mut opt = change();
    let mut cfg = SingleOptionConfig::empty();
    cfg.period_secs = Some(42);
    opt.add.push(item("/p", vec![0, 1], cfg));
    let mut flat = item("/q", vec![0], SingleOptionConfig::empty());
    flat.no_subdir = Some(true);
    opt.add.push(flat);
    assert!(reg.apply(&opt).1.is_ok());
    let tr = reg.adopt_child(&"/p".to_string(), &"/p/c".to_string());
    assert_eq!(tr.len(), 2);
    assert!(tr.iter().all(|t| t.kind == TransitionKind::Start && t.path == "/p/c"));
    assert_eq!(reg.config_of(&"/p/c".to_string(), 1).unwrap().period_secs, 42);
    assert!(reg.adopt_child(&"/p".to_string(), &"/p/c".to_string()).is_empty());
    assert!(reg.adopt_child(&"/q".to_string(), &"/q/c".to_string()).is_empty());
    assert_eq!(reg.len(), 5);
}
