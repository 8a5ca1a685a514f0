//! A memory agent's core: a registry of memory cgroups tracked per NUMA
//! node with a reconciler for configuration changes, an aging and eviction
//! unit per tracked pair, a compaction controller, and a pressure gate that
//! treats unknown pressure as pressure at the limit. Each unit and the
//! controller is a state machine that takes events and returns the action
//! that the caller performs.

pub mod aging;
pub mod compact;
pub mod control;
pub mod logger;
pub mod memcg;
pub mod option;
pub mod psi;
pub mod reapply;
pub mod registry;
pub mod text;
