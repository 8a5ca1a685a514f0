use vstd::prelude::*;
use crate::compact::{overlay_compact, CompactConfig, CompactOptionConfig, CompactState, Compactor};
use crate::memcg::{overlay, CgroupOptionConfig, Config, OptionConfig};
use crate::registry::{
    cgroup_items, change, paths_in, start, statuses_of, ConfigError, ConfigOp, ItemError, MemCgroup, Registry,
    Transition,
};

verus! {

/// The control surface: status queries and configuration changes for the
/// memory-cgroup registry and the compaction controller.
pub struct MyControl {
    pub registry: Registry,
    pub compactor: Compactor,
}

impl MyControl {
    pub fn new(registry: Registry, compact: CompactConfig) -> (r: MyControl)
        ensures
            r.registry.wf() == registry.wf(),
            r.registry@ == registry@,
            r.compactor.config == compact,
            r.compactor.state == CompactState::Waiting,
    {
        MyControl { registry, compactor: Compactor::new(compact) }
    }

    /// A startup control from a configuration; also returns the units to
    /// start and the rejected items.
    pub fn from_config(
        host_numa: Vec<u32>,
        memcg: &Config,
        compact: CompactConfig,
    ) -> (r: (MyControl, Vec<Transition>, Result<(), ConfigError>))
        ensures
            ({
                let c = cgroup_items(
                    start(Seq::empty()),
                    ConfigOp::Add,
                    memcg.cgroups@.map_values(|c: CgroupOptionConfig| c@),
                    host_numa@,
                );
                &&& r.0.registry.wf()
                &&& r.0.registry@.entries == c.entries
                &&& r.0.registry@.default == memcg.default
                &&& r.0.registry@.host_numa == host_numa@
                &&& r.1@.map_values(|t: Transition| t@) == c.transitions
                &&& (r.2 is Ok <==> c.errors.len() == 0)
            }),
            r.0.compactor.config == compact,
            r.0.compactor.state == CompactState::Waiting,
    {
        let (registry, tr, res) = Registry::from_config(host_numa, memcg);
        (MyControl::new(registry, compact), tr, res)
    }

    /// The status of every tracked cgroup, one per path.
    pub fn memcg_status(&self) -> (r: Vec<MemCgroup>)
        ensures
            r@.len() == paths_in(self.registry@.entries).len(),
            forall|k: int| 0 <= k < r@.len() ==> (#[trigger] r@[k]).path@ == paths_in(self.registry@.entries)[k]
                && r@[k].numa@ == statuses_of(self.registry@.entries, r@[k].path@),
    {
        self.registry.memcg_status()
    }

    /// Applies a memory-cgroup configuration change.
    pub fn memcg_set(&mut self, opt: &OptionConfig) -> (r: (Vec<Transition>, Result<(), ConfigError>))
        requires
            old(self).registry.wf(),
        ensures
            final(self).registry.wf(),
            ({
                let c = change(start(old(self).registry@.entries), opt@, old(self).registry@.host_numa);
                &&& final(self).registry@.entries == c.entries
                &&& final(self).registry@.default == overlay(opt.default, old(self).registry@.default)
                &&& final(self).registry@.host_numa == old(self).registry@.host_numa
                &&& r.0@.map_values(|t: Transition| t@) == c.transitions
                &&& (r.1 is Ok <==> c.errors.len() == 0)
                &&& (r.1 matches Err(e) ==> e.items@.map_values(|a: ItemError| a@) == c.errors)
            }),
            final(self).compactor == old(self).compactor,
    {
        self.registry.apply(opt)
    }

    /// Lays a partial compaction policy over the current one.
    pub fn compact_set(&mut self, opt: &CompactOptionConfig)
        ensures
            final(self).compactor.config == overlay_compact(*opt, old(self).compactor.config),
            final(self).compactor.state == old(self).compactor.state,
            final(self).compactor.status == old(self).compactor.status,
            final(self).registry@ == old(self).registry@,
    {
        self.compactor.compact_set(opt);
    }
}

} // verus!
