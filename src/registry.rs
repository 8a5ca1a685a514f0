use vstd::prelude::*;
use vstd::string::*;
use crate::aging::{fresh_status, step, unit_step, NumaStatus, UnitAction, UnitEvent, UnitState};
use crate::memcg::{
    merge_options, overlay, pick, CgroupOptionConfig, Config, OptionConfig, PathNumaSelector,
    SingleConfig, SingleOptionConfig,
};

verus! {

/// One tracked (cgroup, NUMA node) pair: its policy override and its unit.
pub struct Entry {
    pub path: String,
    pub numa_id: u32,
    pub no_subdir: bool,
    /// The cgroup's own override, resolved against the registry default.
    pub overrides: SingleOptionConfig,
    pub state: UnitState,
    pub status: NumaStatus,
}

pub struct EntryModel {
    pub path: Seq<char>,
    pub numa_id: u32,
    pub no_subdir: bool,
    pub overrides: SingleOptionConfig,
    pub state: UnitState,
    pub status: NumaStatus,
}

impl View for Entry {
    type V = EntryModel;

    open spec fn view(&self) -> EntryModel {
        EntryModel {
            path: self.path@,
            numa_id: self.numa_id,
            no_subdir: self.no_subdir,
            overrides: self.overrides,
            state: self.state,
            status: self.status,
        }
    }
}

/// What the reconciler did to a unit.
#[derive(Clone, Copy, Debug, PartialEq, Eq, Structural)]
pub enum TransitionKind {
    Start,
    Update,
    Stop,
}

pub struct Transition {
    pub kind: TransitionKind,
    pub path: String,
    pub numa_id: u32,
}

pub struct TransitionModel {
    pub kind: TransitionKind,
    pub path: Seq<char>,
    pub numa_id: u32,
}

impl View for Transition {
    type V = TransitionModel;

    open spec fn view(&self) -> TransitionModel {
        TransitionModel { kind: self.kind, path: self.path@, numa_id: self.numa_id }
    }
}

/// Which list of a configuration change an item came from.
#[derive(Clone, Copy, Debug, PartialEq, Eq, Structural)]
pub enum ConfigOp {
    Add,
    Modify,
    Delete,
}

/// Why an item of a configuration change was rejected.
#[derive(Clone, Copy, Debug, PartialEq, Eq, Structural)]
pub enum ItemErrorKind {
    /// The path is empty or not absolute.
    BadPath,
    /// The NUMA node does not exist on this host.
    BadNuma,
    /// An add named a pair that is already tracked.
    AlreadyTracked,
    /// A set or delete named a pair that is not tracked.
    NotTracked,
}

pub struct ItemError {
    pub op: ConfigOp,
    pub kind: ItemErrorKind,
    pub path: String,
    pub numa_id: Option<u32>,
}

pub struct ItemErrorModel {
    pub op: ConfigOp,
    pub kind: ItemErrorKind,
    pub path: Seq<char>,
    pub numa_id: Option<u32>,
}

impl View for ItemError {
    type V = ItemErrorModel;

    open spec fn view(&self) -> ItemErrorModel {
        ItemErrorModel { op: self.op, kind: self.kind, path: self.path@, numa_id: self.numa_id }
    }
}

/// Every item that a configuration change rejected; the others were applied.
pub struct ConfigError {
    pub items: Vec<ItemError>,
}

pub struct CgroupItemModel {
    pub path: Seq<char>,
    pub numa_id: Seq<u32>,
    pub no_subdir: Option<bool>,
    pub config: SingleOptionConfig,
}

impl View for CgroupOptionConfig {
    type V = CgroupItemModel;

    open spec fn view(&self) -> CgroupItemModel {
        CgroupItemModel {
            path: self.path@,
            numa_id: self.numa_id@,
            no_subdir: self.no_subdir,
            config: self.config,
        }
    }
}

pub struct SelectorModel {
    pub path: Seq<char>,
    pub numa_id: Seq<u32>,
}

impl View for PathNumaSelector {
    type V = SelectorModel;

    open spec fn view(&self) -> SelectorModel {
        SelectorModel { path: self.path@, numa_id: self.numa_id@ }
    }
}

pub struct OptionModel {
    pub default: SingleOptionConfig,
    pub add: Seq<CgroupItemModel>,
    pub set: Seq<CgroupItemModel>,
    pub del: Seq<SelectorModel>,
}

impl View for OptionConfig {
    type V = OptionModel;

    open spec fn view(&self) -> OptionModel {
        OptionModel {
            default: self.default,
            add: self.add@.map_values(|c: CgroupOptionConfig| c@),
            set: self.set@.map_values(|c: CgroupOptionConfig| c@),
            del: self.del@.map_values(|d: PathNumaSelector| d@),
        }
    }
}

/// The registry's entries together with what a change has produced so far.
pub struct Reconcile {
    pub entries: Seq<EntryModel>,
    pub transitions: Seq<TransitionModel>,
    pub errors: Seq<ItemErrorModel>,
}

pub open spec fn entries_model(v: Seq<Entry>) -> Seq<EntryModel> {
    v.map_values(|e: Entry| e@)
}

pub open spec fn rec_of(e: Seq<Entry>, t: Seq<Transition>, x: Seq<ItemError>) -> Reconcile {
    Reconcile {
        entries: entries_model(e),
        transitions: t.map_values(|a: Transition| a@),
        errors: x.map_values(|a: ItemError| a@),
    }
}

pub open spec fn same_key(e: EntryModel, p: Seq<char>, n: u32) -> bool {
    e.path == p && e.numa_id == n
}

/// The index of the entry for `(p, n)`, or -1 when none is tracked.
pub open spec fn find(s: Seq<EntryModel>, p: Seq<char>, n: u32) -> int
    decreases s.len(),
{
    if s.len() == 0 {
        -1
    } else if same_key(s.last(), p, n) {
        s.len() - 1
    } else {
        find(s.drop_last(), p, n)
    }
}

/// The NUMA nodes tracked for path `p`, in registry order.
pub open spec fn numas_of(s: Seq<EntryModel>, p: Seq<char>) -> Seq<u32>
    decreases s.len(),
{
    if s.len() == 0 {
        Seq::empty()
    } else if s.last().path == p {
        numas_of(s.drop_last(), p).push(s.last().numa_id)
    } else {
        numas_of(s.drop_last(), p)
    }
}

pub open spec fn valid_path(p: Seq<char>) -> bool {
    p.len() > 0 && p[0] == '/'
}

pub open spec fn with_error(
    r: Reconcile,
    op: ConfigOp,
    kind: ItemErrorKind,
    p: Seq<char>,
    n: Option<u32>,
) -> Reconcile {
    Reconcile {
        errors: r.errors.push(ItemErrorModel { op, kind, path: p, numa_id: n }),
        ..r
    }
}

pub open spec fn with_transition(
    r: Reconcile,
    entries: Seq<EntryModel>,
    kind: TransitionKind,
    p: Seq<char>,
    n: u32,
) -> Reconcile {
    Reconcile {
        entries,
        transitions: r.transitions.push(TransitionModel { kind, path: p, numa_id: n }),
        ..r
    }
}

pub open spec fn fresh_entry(
    p: Seq<char>,
    n: u32,
    no_subdir: Option<bool>,
    cfg: SingleOptionConfig,
) -> EntryModel {
    EntryModel {
        path: p,
        numa_id: n,
        no_subdir: pick(no_subdir, false),
        overrides: cfg,
        state: UnitState::Waiting,
        status: fresh_status(),
    }
}

/// The entry after a set: fields of `cfg` replace the cgroup's override,
/// unset ones keep the override's value; counters and state are kept.
pub open spec fn updated_entry(
    e: EntryModel,
    no_subdir: Option<bool>,
    cfg: SingleOptionConfig,
) -> EntryModel {
    EntryModel {
        no_subdir: pick(no_subdir, e.no_subdir),
        overrides: merge_options(cfg, e.overrides),
        ..e
    }
}

/// The effect of one item of list `op` on one (path, NUMA node) pair.
pub open spec fn pair_change(
    r: Reconcile,
    op: ConfigOp,
    p: Seq<char>,
    n: u32,
    no_subdir: Option<bool>,
    cfg: SingleOptionConfig,
    host: Seq<u32>,
) -> Reconcile {
    let i = find(r.entries, p, n);
    if !host.contains(n) {
        with_error(r, op, ItemErrorKind::BadNuma, p, Some(n))
    } else {
        match op {
            ConfigOp::Delete => if i < 0 {
                with_error(r, op, ItemErrorKind::NotTracked, p, Some(n))
            } else {
                with_transition(r, r.entries.remove(i), TransitionKind::Stop, p, n)
            },
            ConfigOp::Add => if i >= 0 {
                with_error(r, op, ItemErrorKind::AlreadyTracked, p, Some(n))
            } else {
                with_transition(
                    r,
                    r.entries.push(fresh_entry(p, n, no_subdir, cfg)),
                    TransitionKind::Start,
                    p,
                    n,
                )
            },
            ConfigOp::Modify => if i < 0 {
                with_error(r, op, ItemErrorKind::NotTracked, p, Some(n))
            } else {
                with_transition(
                    r,
                    r.entries.update(i, updated_entry(r.entries[i], no_subdir, cfg)),
                    TransitionKind::Update,
                    p,
                    n,
                )
            },
        }
    }
}

pub open spec fn numas_change(
    r: Reconcile,
    op: ConfigOp,
    p: Seq<char>,
    ns: Seq<u32>,
    no_subdir: Option<bool>,
    cfg: SingleOptionConfig,
    host: Seq<u32>,
) -> Reconcile
    decreases ns.len(),
{
    if ns.len() == 0 {
        r
    } else {
        pair_change(
            numas_change(r, op, p, ns.drop_last(), no_subdir, cfg, host),
            op,
            p,
            ns.last(),
            no_subdir,
            cfg,
            host,
        )
    }
}

/// The NUMA nodes that an item selects: those it names, or else every host
/// node for an add and every node tracked for the path for a set or delete.
pub open spec fn selection(
    r: Reconcile,
    op: ConfigOp,
    p: Seq<char>,
    ns: Seq<u32>,
    host: Seq<u32>,
) -> Seq<u32> {
    if ns.len() > 0 {
        ns
    } else if op == ConfigOp::Add {
        host
    } else {
        numas_of(r.entries, p)
    }
}

/// The effect of one item: a bad path or an empty selection is one error,
/// otherwise each selected node is changed in turn.
pub open spec fn item_change(
    r: Reconcile,
    op: ConfigOp,
    p: Seq<char>,
    ns: Seq<u32>,
    no_subdir: Option<bool>,
    cfg: SingleOptionConfig,
    host: Seq<u32>,
) -> Reconcile {
    let sel = selection(r, op, p, ns, host);
    if !valid_path(p) {
        with_error(r, op, ItemErrorKind::BadPath, p, None)
    } else if sel.len() == 0 {
        with_error(
            r,
            op,
            if op == ConfigOp::Add { ItemErrorKind::BadNuma } else { ItemErrorKind::NotTracked },
            p,
            None,
        )
    } else {
        numas_change(r, op, p, sel, no_subdir, cfg, host)
    }
}

pub open spec fn del_items(r: Reconcile, items: Seq<SelectorModel>, host: Seq<u32>) -> Reconcile
    decreases items.len(),
{
    if items.len() == 0 {
        r
    } else {
        let it = items.last();
        item_change(
            del_items(r, items.drop_last(), host),
            ConfigOp::Delete,
            it.path,
            it.numa_id,
            None,
            crate::memcg::no_options(),
            host,
        )
    }
}

pub open spec fn cgroup_items(
    r: Reconcile,
    op: ConfigOp,
    items: Seq<CgroupItemModel>,
    host: Seq<u32>,
) -> Reconcile
    decreases items.len(),
{
    if items.len() == 0 {
        r
    } else {
        let it = items.last();
        item_change(
            cgroup_items(r, op, items.drop_last(), host),
            op,
            it.path,
            it.numa_id,
            it.no_subdir,
            it.config,
            host,
        )
    }
}

/// A whole change: deletions first, then additions, then sets.
pub open spec fn change(r: Reconcile, opt: OptionModel, host: Seq<u32>) -> Reconcile {
    cgroup_items(
        cgroup_items(del_items(r, opt.del, host), ConfigOp::Add, opt.add, host),
        ConfigOp::Modify,
        opt.set,
        host,
    )
}

pub struct RegistryModel {
    pub host_numa: Seq<u32>,
    pub default: SingleConfig,
    pub entries: Seq<EntryModel>,
}

/// The registry of tracked (cgroup, NUMA node) pairs and their units.
pub struct Registry {
    host_numa: Vec<u32>,
    default: SingleConfig,
    entries: Vec<Entry>,
}

impl View for Registry {
    type V = RegistryModel;

    closed spec fn view(&self) -> RegistryModel {
        RegistryModel {
            host_numa: self.host_numa@,
            default: self.default,
            entries: entries_model(self.entries@),
        }
    }
}

/// The policy in force for entry `e` under default `d`.
pub open spec fn resolved(e: EntryModel, d: SingleConfig) -> SingleConfig {
    overlay(e.overrides, d)
}

fn copy_numas(v: &Vec<u32>) -> (r: Vec<u32>)
    ensures
        r@ == v@,
{
    let mut r: Vec<u32> = Vec::new();
    let mut i: usize = 0;
    while i < v.len()
        invariant
            i <= v.len(),
            r@ == v@.take(i as int),
        decreases v.len() - i,
    {
        r.push(v[i]);
        i += 1;
        assert(r@ =~= v@.take(i as int));
    }
    assert(v@.take(v.len() as int) =~= v@);
    r
}

fn clone_entry(e: &Entry) -> (r: Entry)
    ensures
        r@ == e@,
{
    Entry {
        path: e.path.clone(),
        numa_id: e.numa_id,
        no_subdir: e.no_subdir,
        overrides: e.overrides,
        state: e.state,
        status: e.status,
    }
}

impl Registry {
    /// The registry's invariant: each (path, NUMA node) pair is tracked
    /// once, and only on NUMA nodes of the host.
    pub open spec fn wf(&self) -> bool {
        keys_unique(self@.entries) && crate::reapply::on_host(self@.entries, self@.host_numa)
    }

    /// An empty registry for a host with NUMA nodes `host_numa`.
    pub fn new(host_numa: Vec<u32>, default: SingleConfig) -> (r: Registry)
        ensures
            r.wf(),
            r@.host_numa == host_numa@,
            r@.default == default,
            r@.entries.len() == 0,
    {
        let r = Registry { host_numa, default, entries: Vec::new() };
        assert(r@.entries =~= Seq::<EntryModel>::empty());
        r
    }

    pub fn default_config(&self) -> (r: SingleConfig)
        ensures
            r == self@.default,
    {
        self.default
    }

    pub fn len(&self) -> (r: usize)
        ensures
            r == self@.entries.len(),
    {
        self.entries.len()
    }

    fn host_has(&self, n: u32) -> (r: bool)
        ensures
            r == self.host_numa@.contains(n),
    {
        let mut i: usize = 0;
        while i < self.host_numa.len()
            invariant
                i <= self.host_numa.len(),
                forall|j: int| 0 <= j < i ==> self.host_numa@[j] != n,
            decreases self.host_numa.len() - i,
        {
            if self.host_numa[i] == n {
                assert(self.host_numa@[i as int] == n);
                return true;
            }
            i += 1;
        }
        false
    }

    /// The index of the entry for `(path, n)`, if it is tracked.
    pub fn find(&self, path: &String, n: u32) -> (r: Option<usize>)
        ensures
            match r {
                Some(i) => i as int == find(self@.entries, path@, n),
                None => find(self@.entries, path@, n) == -1,
            },
    {
        let ghost s = self@.entries;
        let mut i: usize = self.entries.len();
        assert(s.take(i as int) =~= s);
        while i > 0
            invariant
                i <= self.entries.len(),
                s == entries_model(self.entries@),
                find(s, path@, n) == find(s.take(i as int), path@, n),
            decreases i,
        {
            assert(s.take(i as int).drop_last() =~= s.take(i - 1));
            assert(s.take(i as int).last() == s[i - 1]);
            if self.entries[i - 1].path == *path && self.entries[i - 1].numa_id == n {
                return Some(i - 1);
            }
            i -= 1;
        }
        assert(s.take(0) =~= Seq::<EntryModel>::empty());
        None
    }

    /// The NUMA nodes tracked for `path`, in registry order.
    pub fn numas_of(&self, path: &String) -> (r: Vec<u32>)
        ensures
            r@ == numas_of(self@.entries, path@),
    {
        let ghost s = self@.entries;
        let mut r: Vec<u32> = Vec::new();
        let mut i: usize = 0;
        while i < self.entries.len()
            invariant
                i <= self.entries.len(),
                s == entries_model(self.entries@),
                r@ == numas_of(s.take(i as int), path@),
            decreases self.entries.len() - i,
        {
            assert(s.take(i + 1).drop_last() =~= s.take(i as int));
            if self.entries[i].path == *path {
                r.push(self.entries[i].numa_id);
            }
            i += 1;
        }
        assert(s.take(self.entries.len() as int) =~= s);
        r
    }
}


pub(crate) proof fn lemma_find_range(s: Seq<EntryModel>, p: Seq<char>, n: u32)
    ensures
        -1 <= find(s, p, n) < s.len(),
        find(s, p, n) >= 0 ==> same_key(s[find(s, p, n)], p, n),
    decreases s.len(),
{
    if s.len() > 0 {
        lemma_find_range(s.drop_last(), p, n);
    }
}

fn report(errs: &mut Vec<ItemError>, op: ConfigOp, kind: ItemErrorKind, path: &String, n: Option<u32>)
    ensures
        final(errs)@.map_values(|a: ItemError| a@) == old(errs)@.map_values(|a: ItemError| a@).push(
            ItemErrorModel { op, kind, path: path@, numa_id: n },
        ),
{
    let ghost before = errs@;
    errs.push(ItemError { op, kind, path: path.clone(), numa_id: n });
    assert(errs@.map_values(|a: ItemError| a@) =~= before.map_values(|a: ItemError| a@).push(
        ItemErrorModel { op, kind, path: path@, numa_id: n },
    ));
}

fn record(tr: &mut Vec<Transition>, kind: TransitionKind, path: &String, n: u32)
    ensures
        final(tr)@.map_values(|a: Transition| a@) == old(tr)@.map_values(|a: Transition| a@).push(
            TransitionModel { kind, path: path@, numa_id: n },
        ),
{
    let ghost before = tr@;
    tr.push(Transition { kind, path: path.clone(), numa_id: n });
    assert(tr@.map_values(|a: Transition| a@) =~= before.map_values(|a: Transition| a@).push(
        TransitionModel { kind, path: path@, numa_id: n },
    ));
}

impl Registry {
    fn change_pair(
        &mut self,
        op: ConfigOp,
        path: &String,
        n: u32,
        no_subdir: Option<bool>,
        cfg: SingleOptionConfig,
        tr: &mut Vec<Transition>,
        errs: &mut Vec<ItemError>,
    )
        ensures
            rec_of(final(self).entries@, final(tr)@, final(errs)@) == pair_change(
                rec_of(old(self).entries@, old(tr)@, old(errs)@),
                op,
                path@,
                n,
                no_subdir,
                cfg,
                old(self).host_numa@,
            ),
            final(self).host_numa@ == old(self).host_numa@,
            final(self).default == old(self).default,
    {
        let ghost r0 = rec_of(self.entries@, tr@, errs@);
        let ghost s0 = self.entries@;
        proof {
            lemma_find_range(r0.entries, path@, n);
        }
        if !self.host_has(n) {
            report(errs, op, ItemErrorKind::BadNuma, path, Some(n));
            return;
        }
        let found = self.find(path, n);
        match op {
            ConfigOp::Delete => match found {
                None => report(errs, op, ItemErrorKind::NotTracked, path, Some(n)),
                Some(i) => {
                    self.entries.remove(i);
                    record(tr, TransitionKind::Stop, path, n);
                    assert(entries_model(self.entries@) =~= r0.entries.remove(i as int));
                },
            },
            ConfigOp::Add => match found {
                Some(_) => report(errs, op, ItemErrorKind::AlreadyTracked, path, Some(n)),
                None => {
                    let keep = match no_subdir {
                        Some(b) => b,
                        None => false,
                    };
                    self.entries.push(
                        Entry {
                            path: path.clone(),
                            numa_id: n,
                            no_subdir: keep,
                            overrides: cfg,
                            state: UnitState::Waiting,
                            status: NumaStatus::new(),
                        },
                    );
                    record(tr, TransitionKind::Start, path, n);
                    assert(entries_model(self.entries@) =~= r0.entries.push(
                        fresh_entry(path@, n, no_subdir, cfg),
                    ));
                },
            },
            ConfigOp::Modify => match found {
                None => report(errs, op, ItemErrorKind::NotTracked, path, Some(n)),
                Some(i) => {
                    let mut e = self.entries.remove(i);
                    e.no_subdir = match no_subdir {
                        Some(b) => b,
                        None => e.no_subdir,
                    };
                    e.overrides = cfg.merge(&e.overrides);
                    self.entries.insert(i, e);
                    record(tr, TransitionKind::Update, path, n);
                    assert(entries_model(self.entries@) =~= r0.entries.update(
                        i as int,
                        updated_entry(r0.entries[i as int], no_subdir, cfg),
                    ));
                },
            },
        }
    }

    fn change_numas(
        &mut self,
        op: ConfigOp,
        path: &String,
        ns: &Vec<u32>,
        no_subdir: Option<bool>,
        cfg: SingleOptionConfig,
        tr: &mut Vec<Transition>,
        errs: &mut Vec<ItemError>,
    )
        ensures
            rec_of(final(self).entries@, final(tr)@, final(errs)@) == numas_change(
                rec_of(old(self).entries@, old(tr)@, old(errs)@),
                op,
                path@,
                ns@,
                no_subdir,
                cfg,
                old(self).host_numa@,
            ),
            final(self).host_numa@ == old(self).host_numa@,
            final(self).default == old(self).default,
    {
        let ghost r0 = rec_of(self.entries@, tr@, errs@);
        let ghost host = self.host_numa@;
        let mut i: usize = 0;
        assert(ns@.take(0) =~= Seq::<u32>::empty());
        while i < ns.len()
            invariant
                i <= ns.len(),
                self.host_numa@ == host,
                self.default == old(self).default,
                rec_of(self.entries@, tr@, errs@) == numas_change(
                    r0,
                    op,
                    path@,
                    ns@.take(i as int),
                    no_subdir,
                    cfg,
                    host,
                ),
            decreases ns.len() - i,
        {
            assert(ns@.take(i + 1).drop_last() =~= ns@.take(i as int));
            self.change_pair(op, path, ns[i], no_subdir, cfg, tr, errs);
            i += 1;
        }
        assert(ns@.take(ns.len() as int) =~= ns@);
    }

    fn change_item(
        &mut self,
        op: ConfigOp,
        path: &String,
        ns: &Vec<u32>,
        no_subdir: Option<bool>,
        cfg: SingleOptionConfig,
        tr: &mut Vec<Transition>,
        errs: &mut Vec<ItemError>,
    )
        ensures
            rec_of(final(self).entries@, final(tr)@, final(errs)@) == item_change(
                rec_of(old(self).entries@, old(tr)@, old(errs)@),
                op,
                path@,
                ns@,
                no_subdir,
                cfg,
                old(self).host_numa@,
            ),
            final(self).host_numa@ == old(self).host_numa@,
            final(self).default == old(self).default,
    {
        let valid = path.unicode_len() > 0 && path.as_str().get_char(0) == '/';
        if !valid {
            report(errs, op, ItemErrorKind::BadPath, path, None);
            return;
        }
        let sel = if ns.len() > 0 {
            copy_numas(ns)
        } else if op == ConfigOp::Add {
            copy_numas(&self.host_numa)
        } else {
            self.numas_of(path)
        };
        if sel.len() == 0 {
            let kind = if op == ConfigOp::Add {
                ItemErrorKind::BadNuma
            } else {
                ItemErrorKind::NotTracked
            };
            report(errs, op, kind, path, None);
            return;
        }
        self.change_numas(op, path, &sel, no_subdir, cfg, tr, errs);
    }

    fn delete_items(&mut self, items: &Vec<PathNumaSelector>, tr: &mut Vec<Transition>, errs: &mut Vec<ItemError>)
        ensures
            rec_of(final(self).entries@, final(tr)@, final(errs)@) == del_items(
                rec_of(old(self).entries@, old(tr)@, old(errs)@),
                items@.map_values(|d: PathNumaSelector| d@),
                old(self).host_numa@,
            ),
            final(self).host_numa@ == old(self).host_numa@,
            final(self).default == old(self).default,
    {
        let ghost r0 = rec_of(self.entries@, tr@, errs@);
        let ghost host = self.host_numa@;
        let ghost m = items@.map_values(|d: PathNumaSelector| d@);
        let mut i: usize = 0;
        assert(m.take(0) =~= Seq::<SelectorModel>::empty());
        while i < items.len()
            invariant
                i <= items.len(),
                m == items@.map_values(|d: PathNumaSelector| d@),
                self.host_numa@ == host,
                self.default == old(self).default,
                rec_of(self.entries@, tr@, errs@) == del_items(r0, m.take(i as int), host),
            decreases items.len() - i,
        {
            assert(m.take(i + 1).drop_last() =~= m.take(i as int));
            assert(m.take(i + 1).last() == items@[i as int]@);
            let it = &items[i];
            self.change_item(ConfigOp::Delete, &it.path, &it.numa_id, None, SingleOptionConfig::empty(), tr, errs);
            i += 1;
        }
        assert(m.take(items.len() as int) =~= m);
    }

    fn cgroup_items(
        &mut self,
        op: ConfigOp,
        items: &Vec<CgroupOptionConfig>,
        tr: &mut Vec<Transition>,
        errs: &mut Vec<ItemError>,
    )
        ensures
            rec_of(final(self).entries@, final(tr)@, final(errs)@) == cgroup_items(
                rec_of(old(self).entries@, old(tr)@, old(errs)@),
                op,
                items@.map_values(|c: CgroupOptionConfig| c@),
                old(self).host_numa@,
            ),
            final(self).host_numa@ == old(self).host_numa@,
            final(self).default == old(self).default,
    {
        let ghost r0 = rec_of(self.entries@, tr@, errs@);
        let ghost host = self.host_numa@;
        let ghost m = items@.map_values(|c: CgroupOptionConfig| c@);
        let mut i: usize = 0;
        assert(m.take(0) =~= Seq::<CgroupItemModel>::empty());
        while i < items.len()
            invariant
                i <= items.len(),
                m == items@.map_values(|c: CgroupOptionConfig| c@),
                self.host_numa@ == host,
                self.default == old(self).default,
                rec_of(self.entries@, tr@, errs@) == cgroup_items(r0, op, m.take(i as int), host),
            decreases items.len() - i,
        {
            assert(m.take(i + 1).drop_last() =~= m.take(i as int));
            assert(m.take(i + 1).last() == items@[i as int]@);
            let it = &items[i];
            self.change_item(op, &it.path, &it.numa_id, it.no_subdir, it.config, tr, errs);
            i += 1;
        }
        assert(m.take(items.len() as int) =~= m);
    }
}


/// A point-in-time copy of one tracked pair, with its policy resolved.
pub struct NumaSnapshot {
    pub path: String,
    pub numa_id: u32,
    pub no_subdir: bool,
    pub config: SingleConfig,
    pub state: UnitState,
    pub status: NumaStatus,
}

pub struct SnapshotModel {
    pub path: Seq<char>,
    pub numa_id: u32,
    pub no_subdir: bool,
    pub config: SingleConfig,
    pub state: UnitState,
    pub status: NumaStatus,
}

impl View for NumaSnapshot {
    type V = SnapshotModel;

    open spec fn view(&self) -> SnapshotModel {
        SnapshotModel {
            path: self.path@,
            numa_id: self.numa_id,
            no_subdir: self.no_subdir,
            config: self.config,
            state: self.state,
            status: self.status,
        }
    }
}

pub open spec fn snapshot_of(e: EntryModel, d: SingleConfig) -> SnapshotModel {
    SnapshotModel {
        path: e.path,
        numa_id: e.numa_id,
        no_subdir: e.no_subdir,
        config: resolved(e, d),
        state: e.state,
        status: e.status,
    }
}

pub open spec fn start(entries: Seq<EntryModel>) -> Reconcile {
    Reconcile { entries, transitions: Seq::empty(), errors: Seq::empty() }
}

/// The registry after an event reached the unit at index `i`: the unit
/// steps under its resolved policy and leaves the registry when it stops.
pub open spec fn after_event(m: RegistryModel, i: int, e: UnitEvent) -> (RegistryModel, UnitAction) {
    let en = m.entries[i];
    let r = step(en.state, en.status, resolved(en, m.default), e);
    if r.2 == UnitAction::Stop {
        (RegistryModel { entries: m.entries.remove(i), ..m }, r.2)
    } else {
        (RegistryModel { entries: m.entries.update(i, EntryModel { state: r.0, status: r.1, ..en }), ..m }, r.2)
    }
}

fn to_result(errs: Vec<ItemError>) -> (r: Result<(), ConfigError>)
    ensures
        r is Ok <==> errs@.len() == 0,
        r matches Err(e) ==> e.items@ == errs@,
{
    if errs.len() == 0 {
        Ok(())
    } else {
        Err(ConfigError { items: errs })
    }
}

impl Registry {
    /// Applies a configuration change.
    ///
    /// Deletions come first, then additions, then sets, and last the default
    /// is merged. An item that is rejected is reported in the error and the
    /// other items are still applied. The transitions tell which units to
    /// start, update in place, or stop.
    pub fn apply(&mut self, opt: &OptionConfig) -> (r: (Vec<Transition>, Result<(), ConfigError>))
        requires
            old(self).wf(),
        ensures
            final(self).wf(),
            ({
                let c = change(start(old(self)@.entries), opt@, old(self)@.host_numa);
                &&& final(self)@.entries == c.entries
                &&& final(self)@.host_numa == old(self)@.host_numa
                &&& final(self)@.default == overlay(opt.default, old(self)@.default)
                &&& r.0@.map_values(|t: Transition| t@) == c.transitions
                &&& (r.1 is Ok <==> c.errors.len() == 0)
                &&& (r.1 matches Err(e) ==> e.items@.map_values(|a: ItemError| a@) == c.errors)
            }),
    {
        let mut tr: Vec<Transition> = Vec::new();
        let mut errs: Vec<ItemError> = Vec::new();
        proof {
            assert(tr@.map_values(|a: Transition| a@) =~= Seq::<TransitionModel>::empty());
            assert(errs@.map_values(|a: ItemError| a@) =~= Seq::<ItemErrorModel>::empty());
        }
        self.delete_items(&opt.del, &mut tr, &mut errs);
        self.cgroup_items(ConfigOp::Add, &opt.add, &mut tr, &mut errs);
        self.cgroup_items(ConfigOp::Modify, &opt.set, &mut tr, &mut errs);
        self.default = opt.default.resolve(&self.default);
        proof {
            crate::reapply::lemma_change_keeps_wf(start(old(self)@.entries), opt@, old(self)@.host_numa);
        }
        (tr, to_result(errs))
    }

    /// A registry built from a startup configuration: its default, and an
    /// addition for each listed cgroup.
    pub fn from_config(host_numa: Vec<u32>, config: &Config) -> (r: (Registry, Vec<Transition>, Result<(), ConfigError>))
        ensures
            r.0.wf(),
            ({
                let c = cgroup_items(
                    start(Seq::empty()),
                    ConfigOp::Add,
                    config.cgroups@.map_values(|c: CgroupOptionConfig| c@),
                    host_numa@,
                );
                &&& r.0@.entries == c.entries
                &&& r.0@.host_numa == host_numa@
                &&& r.0@.default == config.default
                &&& r.1@.map_values(|t: Transition| t@) == c.transitions
                &&& (r.2 is Ok <==> c.errors.len() == 0)
                &&& (r.2 matches Err(e) ==> e.items@.map_values(|a: ItemError| a@) == c.errors)
            }),
    {
        let mut reg = Registry::new(host_numa, config.default);
        let mut tr: Vec<Transition> = Vec::new();
        let mut errs: Vec<ItemError> = Vec::new();
        proof {
            assert(reg.entries@.map_values(|e: Entry| e@) =~= Seq::<EntryModel>::empty());
            assert(tr@.map_values(|a: Transition| a@) =~= Seq::<TransitionModel>::empty());
            assert(errs@.map_values(|a: ItemError| a@) =~= Seq::<ItemErrorModel>::empty());
        }
        reg.cgroup_items(ConfigOp::Add, &config.cgroups, &mut tr, &mut errs);
        proof {
            crate::reapply::lemma_add_phase(
                start(Seq::empty()),
                config.cgroups@.map_values(|c: CgroupOptionConfig| c@),
                host_numa@,
            );
        }
        (reg, tr, to_result(errs))
    }

    /// The policy in force for `(path, n)`, if that pair is tracked.
    pub fn config_of(&self, path: &String, n: u32) -> (r: Option<SingleConfig>)
        ensures
            ({
                let i = find(self@.entries, path@, n);
                &&& r is None <==> i < 0
                &&& i >= 0 ==> r == Some(resolved(self@.entries[i], self@.default))
            }),
    {
        proof {
            lemma_find_range(self@.entries, path@, n);
        }
        match self.find(path, n) {
            None => None,
            Some(i) => Some(self.entries[i].overrides.resolve(&self.default)),
        }
    }

    /// A copy of every tracked pair, in registry order.
    pub fn status(&self) -> (r: Vec<NumaSnapshot>)
        ensures
            r@.len() == self@.entries.len(),
            forall|i: int| 0 <= i < r@.len() ==> #[trigger] r@[i]@ == snapshot_of(
                self@.entries[i],
                self@.default,
            ),
    {
        let mut r: Vec<NumaSnapshot> = Vec::new();
        let mut i: usize = 0;
        while i < self.entries.len()
            invariant
                i <= self.entries.len(),
                r@.len() == i,
                forall|j: int| 0 <= j < i ==> #[trigger] r@[j]@ == snapshot_of(
                    self@.entries[j],
                    self@.default,
                ),
            decreases self.entries.len() - i,
        {
            let e = &self.entries[i];
            r.push(
                NumaSnapshot {
                    path: e.path.clone(),
                    numa_id: e.numa_id,
                    no_subdir: e.no_subdir,
                    config: e.overrides.resolve(&self.default),
                    state: e.state,
                    status: e.status,
                },
            );
            i += 1;
        }
        r
    }

    /// Hands an event to the unit of `(path, n)` and returns what it asks
    /// for; `None` when that pair is not tracked. A unit that stops leaves
    /// the registry.
    pub fn on_event(&mut self, path: &String, n: u32, event: UnitEvent) -> (r: Option<UnitAction>)
        requires
            old(self).wf(),
        ensures
            final(self).wf(),
            ({
                let i = find(old(self)@.entries, path@, n);
                &&& i < 0 ==> r is None && final(self)@ == old(self)@
                &&& i >= 0 ==> r == Some(after_event(old(self)@, i, event).1)
                    && final(self)@ == after_event(old(self)@, i, event).0
            }),
    {
        let ghost m = self@;
        proof {
            lemma_find_range(m.entries, path@, n);
        }
        match self.find(path, n) {
            None => None,
            Some(i) => {
                let mut e = self.entries.remove(i);
                let config = e.overrides.resolve(&self.default);
                let (state, action) = unit_step(e.state, &mut e.status, &config, event);
                e.state = state;
                let ghost t = m.entries;
                if action != UnitAction::Stop {
                    self.entries.insert(i, e);
                    assert(self@.entries =~= after_event(m, i as int, event).0.entries);
                    assert forall|a: int, b: int|
                        #![trigger self@.entries[a], self@.entries[b]]
                        0 <= a < self@.entries.len() && 0 <= b < self@.entries.len() && a != b
                            implies !same_key(self@.entries[a], self@.entries[b].path, self@.entries[b].numa_id) by {
                        assert(self@.entries[a].path == t[a].path && self@.entries[a].numa_id == t[a].numa_id);
                        assert(self@.entries[b].path == t[b].path && self@.entries[b].numa_id == t[b].numa_id);
                    }
                    assert forall|a: int| 0 <= a < self@.entries.len() implies self@.host_numa.contains(
                        (#[trigger] self@.entries[a]).numa_id,
                    ) by {
                        assert(self@.entries[a].numa_id == t[a].numa_id);
                    }
                } else {
                    assert(self@.entries =~= after_event(m, i as int, event).0.entries);
                    assert forall|a: int, b: int|
                        #![trigger self@.entries[a], self@.entries[b]]
                        0 <= a < self@.entries.len() && 0 <= b < self@.entries.len() && a != b
                            implies !same_key(self@.entries[a], self@.entries[b].path, self@.entries[b].numa_id) by {
                        let x = if a < i { a } else { a + 1 };
                        let y = if b < i { b } else { b + 1 };
                        assert(self@.entries[a] == t[x]);
                        assert(self@.entries[b] == t[y]);
                    }
                    assert forall|a: int| 0 <= a < self@.entries.len() implies self@.host_numa.contains(
                        (#[trigger] self@.entries[a]).numa_id,
                    ) by {
                        assert(self@.entries[a] == t[if a < i { a } else { a + 1 }]);
                    }
                }
                Some(action)
            },
        }
    }
}


/// A pair added with override `cfg` runs under `cfg` laid over the default:
/// every field unset in `cfg` is the default's.
pub proof fn lemma_add_resolution(
    p: Seq<char>,
    n: u32,
    no_subdir: Option<bool>,
    cfg: SingleOptionConfig,
    d: SingleConfig,
)
    ensures
        resolved(fresh_entry(p, n, no_subdir, cfg), d) == overlay(cfg, d),
{
}

/// After a set with override `cfg`, each field of the policy in force comes
/// from `cfg` if set there, else from the cgroup's earlier override, else
/// from the default.
pub proof fn lemma_set_resolution(
    e: EntryModel,
    no_subdir: Option<bool>,
    cfg: SingleOptionConfig,
    d: SingleConfig,
)
    ensures
        resolved(updated_entry(e, no_subdir, cfg), d) == overlay(cfg, overlay(e.overrides, d)),
{
}

/// Merging a new default into the registry lays its set fields over the old
/// default; the policy of each pair is then its override over that default.
pub proof fn lemma_default_resolution(e: EntryModel, od: SingleOptionConfig, d: SingleConfig)
    ensures
        resolved(e, overlay(od, d)) == overlay(e.overrides, overlay(od, d)),
{
}

proof fn lemma_del_items_append(r: Reconcile, a: Seq<SelectorModel>, b: Seq<SelectorModel>, host: Seq<u32>)
    ensures
        del_items(r, a + b, host) == del_items(del_items(r, a, host), b, host),
    decreases b.len(),
{
    if b.len() == 0 {
        assert(a + b =~= a);
    } else {
        lemma_del_items_append(r, a, b.drop_last(), host);
        assert((a + b).drop_last() =~= a + b.drop_last());
        assert((a + b).last() == b.last());
    }
}

/// Deleting a pair that is not tracked adds one error and changes nothing
/// else: the items after it are processed as if it were absent.
pub proof fn lemma_del_untracked(
    r: Reconcile,
    a: Seq<SelectorModel>,
    x: SelectorModel,
    b: Seq<SelectorModel>,
    host: Seq<u32>,
    n: u32,
)
    requires
        valid_path(x.path),
        x.numa_id == seq![n],
        host.contains(n),
        find(del_items(r, a, host).entries, x.path, n) < 0,
    ensures
        del_items(r, a.push(x) + b, host) == del_items(
            with_error(del_items(r, a, host), ConfigOp::Delete, ItemErrorKind::NotTracked, x.path, Some(n)),
            b,
            host,
        ),
{
    lemma_del_items_append(r, a.push(x), b, host);
    assert(a.push(x).drop_last() =~= a);
    assert(seq![n].drop_last() =~= Seq::<u32>::empty());
    let rr = del_items(r, a, host);
    let none = crate::memcg::no_options();
    assert(numas_change(rr, ConfigOp::Delete, x.path, seq![n].drop_last(), None, none, host) == rr);
    assert(numas_change(rr, ConfigOp::Delete, x.path, seq![n], None, none, host) == pair_change(
        rr,
        ConfigOp::Delete,
        x.path,
        n,
        None,
        none,
        host,
    ));
    assert(del_items(r, a.push(x), host) == item_change(rr, ConfigOp::Delete, x.path, x.numa_id, None, none, host));
}


/// No two entries track the same (path, NUMA node) pair.
pub open spec fn keys_unique(s: Seq<EntryModel>) -> bool {
    forall|i: int, j: int|
        #![trigger s[i], s[j]]
        0 <= i < s.len() && 0 <= j < s.len() && i != j ==> !same_key(s[i], s[j].path, s[j].numa_id)
}

pub(crate) proof fn lemma_find_absent(s: Seq<EntryModel>, p: Seq<char>, n: u32)
    ensures
        find(s, p, n) < 0 <==> forall|i: int| 0 <= i < s.len() ==> !same_key(#[trigger] s[i], p, n),
    decreases s.len(),
{
    lemma_find_range(s, p, n);
    if s.len() > 0 {
        lemma_find_absent(s.drop_last(), p, n);
        assert forall|i: int| 0 <= i < s.len() - 1 implies s.drop_last()[i] == s[i] by {}
    }
}

pub(crate) proof fn lemma_pair_keeps_unique(
    r: Reconcile,
    op: ConfigOp,
    p: Seq<char>,
    n: u32,
    no_subdir: Option<bool>,
    cfg: SingleOptionConfig,
    host: Seq<u32>,
)
    requires
        keys_unique(r.entries),
    ensures
        keys_unique(pair_change(r, op, p, n, no_subdir, cfg, host).entries),
{
    let s = r.entries;
    let k = find(s, p, n);
    lemma_find_range(s, p, n);
    lemma_find_absent(s, p, n);
    if host.contains(n) {
        if op == ConfigOp::Delete && k >= 0 {
            let t = s.remove(k);
            assert forall|i: int, j: int|
                #![trigger t[i], t[j]]
                0 <= i < t.len() && 0 <= j < t.len() && i != j implies !same_key(t[i], t[j].path, t[j].numa_id) by {
                let a = if i < k { i } else { i + 1 };
                let b = if j < k { j } else { j + 1 };
                assert(t[i] == s[a]);
                assert(t[j] == s[b]);
            }
        } else if op == ConfigOp::Add && k < 0 {
            let t = s.push(fresh_entry(p, n, no_subdir, cfg));
            assert forall|i: int, j: int|
                #![trigger t[i], t[j]]
                0 <= i < t.len() && 0 <= j < t.len() && i != j implies !same_key(t[i], t[j].path, t[j].numa_id) by {
                if i < s.len() && j < s.len() {
                    assert(t[i] == s[i] && t[j] == s[j]);
                } else if i < s.len() {
                    assert(t[i] == s[i]);
                } else {
                    assert(t[j] == s[j]);
                    assert(!same_key(s[j], p, n));
                }
            }
        } else if op == ConfigOp::Modify && k >= 0 {
            let t = s.update(k, updated_entry(s[k], no_subdir, cfg));
            assert forall|i: int, j: int|
                #![trigger t[i], t[j]]
                0 <= i < t.len() && 0 <= j < t.len() && i != j implies !same_key(t[i], t[j].path, t[j].numa_id) by {
                assert(t[i].path == s[i].path && t[i].numa_id == s[i].numa_id);
                assert(t[j].path == s[j].path && t[j].numa_id == s[j].numa_id);
            }
        }
    }
}



/// Merging the same default twice gives the default of merging it once.
pub proof fn lemma_default_merge_idempotent(od: SingleOptionConfig, d: SingleConfig)
    ensures
        overlay(od, overlay(od, d)) == overlay(od, d),
{
}


/// The status of one cgroup: its path and, per tracked NUMA node, the
/// unit's counters.
pub struct MemCgroup {
    pub path: String,
    pub numa: Vec<(u32, NumaStatus)>,
}

/// The (NUMA node, status) pairs tracked for path `p`, in registry order.
pub open spec fn statuses_of(s: Seq<EntryModel>, p: Seq<char>) -> Seq<(u32, NumaStatus)>
    decreases s.len(),
{
    if s.len() == 0 {
        Seq::empty()
    } else if s.last().path == p {
        statuses_of(s.drop_last(), p).push((s.last().numa_id, s.last().status))
    } else {
        statuses_of(s.drop_last(), p)
    }
}

/// The tracked paths, each once, in order of first appearance.
pub open spec fn paths_in(s: Seq<EntryModel>) -> Seq<Seq<char>>
    decreases s.len(),
{
    if s.len() == 0 {
        Seq::empty()
    } else if paths_in(s.drop_last()).contains(s.last().path) {
        paths_in(s.drop_last())
    } else {
        paths_in(s.drop_last()).push(s.last().path)
    }
}

proof fn lemma_paths_in_has(s: Seq<EntryModel>, p: Seq<char>)
    ensures
        paths_in(s).contains(p) <==> exists|j: int| 0 <= j < s.len() && (#[trigger] s[j]).path == p,
    decreases s.len(),
{
    if s.len() > 0 {
        let d = s.drop_last();
        let l = s.last().path;
        let pd = paths_in(d);
        lemma_paths_in_has(d, p);
        if paths_in(s).contains(p) {
            if pd.contains(p) {
                let j = choose|j: int| 0 <= j < d.len() && (#[trigger] d[j]).path == p;
                assert(s[j] == d[j]);
            } else {
                let k = choose|k: int| 0 <= k < paths_in(s).len() && paths_in(s)[k] == p;
                assert(paths_in(s) == pd.push(l));
                assert(k == pd.len());
                assert(s[s.len() - 1].path == p);
            }
        }
        if exists|j: int| 0 <= j < s.len() && (#[trigger] s[j]).path == p {
            let j = choose|j: int| 0 <= j < s.len() && (#[trigger] s[j]).path == p;
            if j < s.len() - 1 {
                assert(d[j] == s[j]);
                assert(pd.contains(p));
                let k = choose|k: int| 0 <= k < pd.len() && pd[k] == p;
                if !pd.contains(l) {
                    assert(pd.push(l)[k] == p);
                }
            } else if !pd.contains(l) {
                assert(pd.push(l)[pd.len() as int] == p);
            }
        }
    }
}

impl Registry {
    /// The status of the cgroup at `path`: every NUMA node tracked for it.
    pub fn cgroup_status(&self, path: &String) -> (r: MemCgroup)
        ensures
            r.path@ == path@,
            r.numa@ == statuses_of(self@.entries, path@),
    {
        let ghost s = self@.entries;
        let mut numa: Vec<(u32, NumaStatus)> = Vec::new();
        let mut i: usize = 0;
        while i < self.entries.len()
            invariant
                i <= self.entries.len(),
                s == entries_model(self.entries@),
                numa@ == statuses_of(s.take(i as int), path@),
            decreases self.entries.len() - i,
        {
            assert(s.take(i + 1).drop_last() =~= s.take(i as int));
            if self.entries[i].path == *path {
                numa.push((self.entries[i].numa_id, self.entries[i].status));
            }
            i += 1;
        }
        assert(s.take(self.entries.len() as int) =~= s);
        MemCgroup { path: path.clone(), numa }
    }

    /// The status of every tracked cgroup, one per path, in order of first
    /// appearance.
    pub fn memcg_status(&self) -> (r: Vec<MemCgroup>)
        ensures
            r@.len() == paths_in(self@.entries).len(),
            forall|k: int| 0 <= k < r@.len() ==> (#[trigger] r@[k]).path@ == paths_in(self@.entries)[k]
                && r@[k].numa@ == statuses_of(self@.entries, r@[k].path@),
    {
        let ghost s = self@.entries;
        let mut r: Vec<MemCgroup> = Vec::new();
        let mut i: usize = 0;
        while i < self.entries.len()
            invariant
                i <= self.entries.len(),
                s == entries_model(self.entries@),
                r@.len() == paths_in(s.take(i as int)).len(),
                forall|k: int| 0 <= k < r@.len() ==> (#[trigger] r@[k]).path@ == paths_in(s.take(i as int))[k]
                    && r@[k].numa@ == statuses_of(s, r@[k].path@),
            decreases self.entries.len() - i,
        {
            let ghost t = s.take(i as int);
            assert(s.take(i + 1).drop_last() =~= t);
            let mut seen = false;
            let mut j: usize = 0;
            while j < i
                invariant
                    i < self.entries.len(),
                    j <= i,
                    s == entries_model(self.entries@),
                    t == s.take(i as int),
                    seen == exists|m: int| 0 <= m < j && (#[trigger] s[m]).path == s[i as int].path,
                decreases i - j,
            {
                assert(s[j as int] == self.entries@[j as int]@);
                assert(s[i as int] == self.entries@[i as int]@);
                if self.entries[j].path == self.entries[i].path {
                    seen = true;
                } else {
                    assert forall|m: int| 0 <= m < j + 1 && (#[trigger] s[m]).path == s[i as int].path implies m < j by {}
                }
                j += 1;
            }
            proof {
                lemma_paths_in_has(t, s[i as int].path);
                if seen {
                    let m = choose|m: int| 0 <= m < i && (#[trigger] s[m]).path == s[i as int].path;
                    assert(t[m] == s[m]);
                } else {
                    assert forall|m: int| 0 <= m < t.len() implies (#[trigger] t[m]).path != s[i as int].path by {
                        assert(t[m] == s[m]);
                    }
                }
            }
            if !seen {
                let ghost before = r@;
                let g = self.cgroup_status(&self.entries[i].path);
                r.push(g);
                assert forall|k: int| 0 <= k < r@.len() implies (#[trigger] r@[k]).path@ == paths_in(s.take(i + 1))[k]
                    && r@[k].numa@ == statuses_of(s, r@[k].path@) by {
                    if k < before.len() {
                        assert(r@[k] == before[k]);
                    }
                }
            }
            i += 1;
        }
        assert(s.take(self.entries.len() as int) =~= s);
        r
    }
}


/// Adoption of `child` for each entry of `s` that tracks `parent` with
/// sub-directory tracking on: the child is added on that NUMA node with the
/// parent's override.
pub open spec fn adopt(r: Reconcile, s: Seq<EntryModel>, parent: Seq<char>, child: Seq<char>, host: Seq<u32>) -> Reconcile
    decreases s.len(),
{
    if s.len() == 0 {
        r
    } else {
        let q = adopt(r, s.drop_last(), parent, child, host);
        let e = s.last();
        if e.path == parent && !e.no_subdir {
            pair_change(q, ConfigOp::Add, child, e.numa_id, Some(false), e.overrides, host)
        } else {
            q
        }
    }
}

proof fn lemma_adopt_keeps_wf(r: Reconcile, s: Seq<EntryModel>, parent: Seq<char>, child: Seq<char>, host: Seq<u32>)
    requires
        keys_unique(r.entries),
        crate::reapply::on_host(r.entries, host),
    ensures
        keys_unique(adopt(r, s, parent, child, host).entries),
        crate::reapply::on_host(adopt(r, s, parent, child, host).entries, host),
        r.entries.len() <= adopt(r, s, parent, child, host).entries.len(),
        forall|i: int| 0 <= i < r.entries.len() ==> #[trigger] adopt(r, s, parent, child, host).entries[i] == r.entries[i],
    decreases s.len(),
{
    if s.len() > 0 {
        lemma_adopt_keeps_wf(r, s.drop_last(), parent, child, host);
        let q = adopt(r, s.drop_last(), parent, child, host);
        let e = s.last();
        if e.path == parent && !e.no_subdir {
            crate::reapply::lemma_add_pair_keeps_prefix(q, child, e.numa_id, Some(false), e.overrides, host);
        }
    }
}

impl Registry {
    /// Tracks `child`, a cgroup found under `parent`, on every NUMA node
    /// where `parent` is tracked with sub-directory tracking on; the child
    /// starts with the parent's override and tracks its own children too.
    /// Pairs already tracked stay as they are.
    pub fn adopt_child(&mut self, parent: &String, child: &String) -> (r: Vec<Transition>)
        requires
            old(self).wf(),
        ensures
            final(self).wf(),
            ({
                let c = adopt(start(old(self)@.entries), old(self)@.entries, parent@, child@, old(self)@.host_numa);
                &&& final(self)@.entries == c.entries
                &&& r@.map_values(|t: Transition| t@) == c.transitions
            }),
            final(self)@.host_numa == old(self)@.host_numa,
            final(self)@.default == old(self)@.default,
    {
        let ghost s0 = self@.entries;
        let ghost host = self@.host_numa;
        let n0 = self.entries.len();
        let mut tr: Vec<Transition> = Vec::new();
        let mut errs: Vec<ItemError> = Vec::new();
        proof {
            assert(tr@.map_values(|a: Transition| a@) =~= Seq::<TransitionModel>::empty());
            assert(errs@.map_values(|a: ItemError| a@) =~= Seq::<ItemErrorModel>::empty());
            assert(s0.take(0) =~= Seq::<EntryModel>::empty());
        }
        let mut i: usize = 0;
        while i < n0
            invariant
                n0 == s0.len(),
                i <= n0,
                keys_unique(s0),
                crate::reapply::on_host(s0, host),
                self@.host_numa == host,
                self.default == old(self).default,
                rec_of(self.entries@, tr@, errs@) == adopt(start(s0), s0.take(i as int), parent@, child@, host),
                self.entries@.len() >= n0,
                forall|j: int| 0 <= j < n0 ==> #[trigger] entries_model(self.entries@)[j] == s0[j],
            decreases n0 - i,
        {
            proof {
                assert(s0.take(i + 1).drop_last() =~= s0.take(i as int));
                assert(s0.take(i + 1).last() == s0[i as int]);
                assert(entries_model(self.entries@)[i as int] == s0[i as int]);
                lemma_adopt_keeps_wf(start(s0), s0.take(i as int), parent@, child@, host);
            }
            if self.entries[i].path == *parent && !self.entries[i].no_subdir {
                let n = self.entries[i].numa_id;
                let o = self.entries[i].overrides;
                self.change_pair(ConfigOp::Add, child, n, Some(false), o, &mut tr, &mut errs);
                proof {
                    crate::reapply::lemma_add_pair_keeps_prefix(
                        adopt(start(s0), s0.take(i as int), parent@, child@, host),
                        child@,
                        n,
                        Some(false),
                        o,
                        host,
                    );
                }
            }
            i += 1;
        }
        proof {
            assert(s0.take(n0 as int) =~= s0);
            lemma_adopt_keeps_wf(start(s0), s0, parent@, child@, host);
        }
        tr
    }
}

} // verus!
