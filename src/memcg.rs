use vstd::prelude::*;

verus! {

/// A partial memory-cgroup policy: an unset field inherits its value.
#[derive(Clone, Copy, Debug, PartialEq, Eq, Structural)]
pub struct SingleOptionConfig {
    pub disabled: Option<bool>,
    pub swap: Option<bool>,
    pub swappiness_max: Option<u8>,
    pub period_secs: Option<u64>,
    pub period_psi_percent_limit: Option<u8>,
    pub eviction_psi_percent_limit: Option<u8>,
    pub eviction_run_aging_count_min: Option<u64>,
}

/// A fully resolved memory-cgroup policy.
#[derive(Clone, Copy, Debug, PartialEq, Eq, Structural)]
pub struct SingleConfig {
    pub disabled: bool,
    pub swap: bool,
    pub swappiness_max: u8,
    pub period_secs: u64,
    pub period_psi_percent_limit: u8,
    pub eviction_psi_percent_limit: u8,
    pub eviction_run_aging_count_min: u64,
}

pub open spec fn pick<T>(o: Option<T>, base: T) -> T {
    match o {
        Some(v) => v,
        None => base,
    }
}

pub open spec fn first_set<T>(o: Option<T>, base: Option<T>) -> Option<T> {
    match o {
        Some(v) => Some(v),
        None => base,
    }
}

/// The policy that results from laying the set fields of `o` over `base`.
pub open spec fn overlay(o: SingleOptionConfig, base: SingleConfig) -> SingleConfig {
    SingleConfig {
        disabled: pick(o.disabled, base.disabled),
        swap: pick(o.swap, base.swap),
        swappiness_max: pick(o.swappiness_max, base.swappiness_max),
        period_secs: pick(o.period_secs, base.period_secs),
        period_psi_percent_limit: pick(o.period_psi_percent_limit, base.period_psi_percent_limit),
        eviction_psi_percent_limit: pick(
            o.eviction_psi_percent_limit,
            base.eviction_psi_percent_limit,
        ),
        eviction_run_aging_count_min: pick(
            o.eviction_run_aging_count_min,
            base.eviction_run_aging_count_min,
        ),
    }
}

/// The partial policy that results from laying the set fields of `o` over
/// those of `base`; a field unset in both stays unset.
pub open spec fn merge_options(o: SingleOptionConfig, base: SingleOptionConfig) -> SingleOptionConfig {
    SingleOptionConfig {
        disabled: first_set(o.disabled, base.disabled),
        swap: first_set(o.swap, base.swap),
        swappiness_max: first_set(o.swappiness_max, base.swappiness_max),
        period_secs: first_set(o.period_secs, base.period_secs),
        period_psi_percent_limit: first_set(o.period_psi_percent_limit, base.period_psi_percent_limit),
        eviction_psi_percent_limit: first_set(
            o.eviction_psi_percent_limit,
            base.eviction_psi_percent_limit,
        ),
        eviction_run_aging_count_min: first_set(
            o.eviction_run_aging_count_min,
            base.eviction_run_aging_count_min,
        ),
    }
}

pub open spec fn no_options() -> SingleOptionConfig {
    SingleOptionConfig {
        disabled: None,
        swap: None,
        swappiness_max: None,
        period_secs: None,
        period_psi_percent_limit: None,
        eviction_psi_percent_limit: None,
        eviction_run_aging_count_min: None,
    }
}

pub open spec fn default_single_config() -> SingleConfig {
    SingleConfig {
        disabled: false,
        swap: false,
        swappiness_max: 50,
        period_secs: 600,
        period_psi_percent_limit: 1,
        eviction_psi_percent_limit: 1,
        eviction_run_aging_count_min: 3,
    }
}

pub fn pick_exec<T: Copy>(o: Option<T>, base: T) -> (r: T)
    ensures
        r == pick(o, base),
{
    match o {
        Some(v) => v,
        None => base,
    }
}

fn first_set_exec<T: Copy>(o: Option<T>, base: Option<T>) -> (r: Option<T>)
    ensures
        r == first_set(o, base),
{
    match o {
        Some(v) => Some(v),
        None => base,
    }
}

impl SingleOptionConfig {
    /// A partial policy with every field unset.
    pub fn empty() -> (r: SingleOptionConfig)
        ensures
            r == no_options(),
    {
        SingleOptionConfig {
            disabled: None,
            swap: None,
            swappiness_max: None,
            period_secs: None,
            period_psi_percent_limit: None,
            eviction_psi_percent_limit: None,
            eviction_run_aging_count_min: None,
        }
    }

    /// Resolves this partial policy against `base`.
    pub fn resolve(&self, base: &SingleConfig) -> (r: SingleConfig)
        ensures
            r == overlay(*self, *base),
    {
        SingleConfig {
            disabled: pick_exec(self.disabled, base.disabled),
            swap: pick_exec(self.swap, base.swap),
            swappiness_max: pick_exec(self.swappiness_max, base.swappiness_max),
            period_secs: pick_exec(self.period_secs, base.period_secs),
            period_psi_percent_limit: pick_exec(
                self.period_psi_percent_limit,
                base.period_psi_percent_limit,
            ),
            eviction_psi_percent_limit: pick_exec(
                self.eviction_psi_percent_limit,
                base.eviction_psi_percent_limit,
            ),
            eviction_run_aging_count_min: pick_exec(
                self.eviction_run_aging_count_min,
                base.eviction_run_aging_count_min,
            ),
        }
    }

    /// Lays the set fields of this partial policy over those of `base`.
    pub fn merge(&self, base: &SingleOptionConfig) -> (r: SingleOptionConfig)
        ensures
            r == merge_options(*self, *base),
    {
        SingleOptionConfig {
            disabled: first_set_exec(self.disabled, base.disabled),
            swap: first_set_exec(self.swap, base.swap),
            swappiness_max: first_set_exec(self.swappiness_max, base.swappiness_max),
            period_secs: first_set_exec(self.period_secs, base.period_secs),
            period_psi_percent_limit: first_set_exec(
                self.period_psi_percent_limit,
                base.period_psi_percent_limit,
            ),
            eviction_psi_percent_limit: first_set_exec(
                self.eviction_psi_percent_limit,
                base.eviction_psi_percent_limit,
            ),
            eviction_run_aging_count_min: first_set_exec(
                self.eviction_run_aging_count_min,
                base.eviction_run_aging_count_min,
            ),
        }
    }
}

impl Default for SingleConfig {
    fn default() -> (r: SingleConfig)
        ensures
            r == default_single_config(),
    {
        SingleConfig {
            disabled: false,
            swap: false,
            swappiness_max: 50,
            period_secs: 600,
            period_psi_percent_limit: 1,
            eviction_psi_percent_limit: 1,
            eviction_run_aging_count_min: 3,
        }
    }
}

/// Policy for one cgroup path on a selection of NUMA nodes.
///
/// An empty `numa_id` selects every NUMA node of the host.
pub struct CgroupOptionConfig {
    pub path: String,
    pub numa_id: Vec<u32>,
    pub no_subdir: Option<bool>,
    pub config: SingleOptionConfig,
}

/// A cgroup path with a selection of NUMA nodes (empty: every node).
pub struct PathNumaSelector {
    pub path: String,
    pub numa_id: Vec<u32>,
}

/// A configuration change: deletions, additions, overrides and a new default.
pub struct OptionConfig {
    pub default: SingleOptionConfig,
    pub add: Vec<CgroupOptionConfig>,
    pub set: Vec<CgroupOptionConfig>,
    pub del: Vec<PathNumaSelector>,
}

/// The startup configuration: a resolved default and the cgroups to track.
pub struct Config {
    pub default: SingleConfig,
    pub cgroups: Vec<CgroupOptionConfig>,
}

} // verus!
