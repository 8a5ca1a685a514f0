use mem_agent::logger::{level_from_name, parse_slog_level, LogLevel};
use mem_agent::option::{CgroupMemcgSetOption, CompactSetOption, MemcgSetOption, MemcgSetupOption, ParseError, PathNuma};

#[test]
fn parses_cgroup_option() {
    let o: CgroupMemcgSetOption =
        " path = /sys/fs/cgroup/a ,numa-id=0::2,swap=true,swappiness-max=+60,period-secs=30,no-subdir=false"
            .parse()
            .unwrap();
    assert_eq!(o.memcg_path, "/sys/fs/cgroup/a");
    assert_eq!(o.memcg_numa_id, vec![0, 2]);
    assert_eq!(o.memcg_swap, Some(true));
    assert_eq!(o.memcg_swappiness_max, Some(60));
    assert_eq!(o.memcg_period_secs, Some(30));
    assert_eq!(o.no_subdir, Some(false));
    assert_eq!(o.memcg_disabled, None);
}

#[test]
fn cgroup_option_errors() {
    assert!(matches!(CgroupMemcgSetOption::parse("path"), Err(ParseError::InvalidPair)));
    assert!(matches!(CgroupMemcgSetOption::parse("path=/a=b"), Err(ParseError::InvalidPair)));
    assert!(matches!(CgroupMemcgSetOption::parse("path=/a,colour=red"), Err(ParseError::UnknownKey)));
    assert!(matches!(CgroupMemcgSetOption::parse("path=/a,swappiness-max=256"), Err(ParseError::InvalidValue)));
    assert!(matches!(CgroupMemcgSetOption::parse("path=/a,swap=yes"), Err(ParseError::InvalidValue)));
    assert!(matches!(CgroupMemcgSetOption::parse("path=/a,numa-id=0:x"), Err(ParseError::InvalidValue)));
    assert!(matches!(CgroupMemcgSetOption::parse("swap=true"), Err(ParseError::PathRequired)));
    assert!(matches!(CgroupMemcgSetOption::parse(""), Err(ParseError::InvalidPair)));
}

#[test]
fn parses_limits_at_type_bounds() {
    let o = CgroupMemcgSetOption::parse(
        "path=/a,period-psi-percent-limit=255,eviction-psi-percent-limit=0,eviction-run-aging-count-min=18446744073709551615,disabled=true",
    )
    .unwrap();
    assert_eq!(o.memcg_period_psi_percent_limit, Some(255));
    assert_eq!(o.memcg_eviction_psi_percent_limit, Some(0));
    assert_eq!(o.memcg_eviction_run_aging_count_min, Some(u64::MAX));
    assert_eq!(o.memcg_disabled, Some(true));
    assert!(CgroupMemcgSetOption::parse("path=/a,period-secs=18446744073709551616").is_err());
    assert!(CgroupMemcgSetOption::parse("path=/a,numa-id=4294967296").is_err());
}

#[test]
fn parses_path_numa() {
    let p: PathNuma = "path=/a,numa-id=1:3".parse().unwrap();
    assert_eq!(p.path, "/a");
    assert_eq!(p.numa, vec![1, 3]);
    assert!(matches!(PathNuma::parse("path=/a,swap=true"), Err(ParseError::UnknownKey)));
    assert!(matches!(PathNuma::parse("numa-id=1"), Err(ParseError::PathRequired)));
    let sel = p.to_rpc_path_numa();
    assert_eq!(sel.numa_id, vec![1, 3]);
}

#[test]
fn setup_option_builds_config() {
    let o = MemcgSetupOption {
        memcg_disabled: None,
        memcg_swap: Some(true),
        memcg_swappiness_max: None,
        memcg_period_secs: Some(20),
        memcg_period_psi_percent_limit: None,
        memcg_eviction_psi_percent_limit: None,
        memcg_eviction_run_aging_count_min: None,
        memcg_cgroups: vec![CgroupMemcgSetOption::parse("path=/a,numa-id=1,no-subdir=true").unwrap()],
    };
    let c = o.to_mem_agent_memcg_config();
    assert!(c.default.swap);
    assert_eq!(c.default.period_secs, 20);
    assert_eq!(c.default.swappiness_max, 50);
    assert_eq!(c.default.eviction_run_aging_count_min, 3);
    assert_eq!(c.cgroups.len(), 1);
    assert_eq!(c.cgroups[0].path, "/a");
    assert_eq!(c.cgroups[0].numa_id, vec![1]);
    assert_eq!(c.cgroups[0].no_subdir, Some(true));
}

#[test]
fn set_option_builds_change() {
    let o = MemcgSetOption {
        memcg_disabled: Some(true),
        memcg_swap: None,
        memcg_swappiness_max: None,
        memcg_period_secs: None,
        memcg_period_psi_percent_limit: None,
        memcg_eviction_psi_percent_limit: None,
        memcg_eviction_run_aging_count_min: None,
        memcg_add: vec![CgroupMemcgSetOption::parse("path=/a").unwrap()],
        memcg_set: vec![CgroupMemcgSetOption::parse("path=/b,swap=true").unwrap()],
        memcg_del: vec![PathNuma::parse("path=/c").unwrap()],
    };
    let c = o.to_rpc_memcg_config();
    assert_eq!(c.default.disabled, Some(true));
    assert_eq!(c.add[0].path, "/a");
    assert_eq!(c.set[0].config.swap, Some(true));
    assert_eq!(c.del[0].path, "/c");
}

#[test]
fn compact_option_over_default() {
    let o = CompactSetOption {
        compact_disabled: None,
        compact_period_secs: Some(60),
        compact_period_psi_percent_limit: None,
        compact_psi_percent_limit: None,
        compact_sec_max: Some(-1),
        compact_order: Some(3),
        compact_threshold: None,
        compact_force_times: Some(4),
    };
    let p = o.to_rpc_compact_config();
    assert_eq!(p.compact_order, Some(3));
    assert_eq!(p.compact_threshold, None);
    let c = o.to_mem_agent_compact_config();
    assert_eq!(c.period_secs, 60);
    assert_eq!(c.compact_sec_max, -1);
    assert_eq!(c.compact_threshold, 1024);
    assert_eq!(c.compact_psi_percent_limit, 5);
    assert_eq!(c.compact_force_times, 4);
}

#[test]
fn log_levels_in_any_case() {
    assert_eq!(parse_slog_level("TRACE").ok(), Some(LogLevel::Trace));
    assert_eq!(parse_slog_level("Warn").ok(), Some(LogLevel::Warning));
    assert_eq!(parse_slog_level("warning").ok(), Some(LogLevel::Warning));
    assert_eq!(parse_slog_level("CriTical").ok(), Some(LogLevel::Critical));
    assert_eq!(parse_slog_level("Info").ok(), Some(LogLevel::Info));
    let e = parse_slog_level("Loud").err().unwrap();
    assert_eq!(e.text, "Loud");
    assert_eq!(level_from_name("Debug"), None);
    assert_eq!(level_from_name("debug"), Some(LogLevel::Debug));
    assert_eq!(level_from_name("error"), Some(LogLevel::Error));
}
