use vstd::prelude::*;
use crate::memcg::{first_set, merge_options, no_options, SingleOptionConfig};
use crate::registry::{
    find, keys_unique, numas_change, numas_of, pair_change, same_key, selection, valid_path,
    cgroup_items, item_change, updated_entry, CgroupItemModel, ConfigOp, EntryModel, Reconcile,
};

verus! {

/// An override as a set applies it: a `no_subdir` choice and a partial policy.
pub struct Overrides {
    pub no_subdir: Option<bool>,
    pub config: SingleOptionConfig,
}

pub open spec fn no_overrides() -> Overrides {
    Overrides { no_subdir: None, config: no_options() }
}

/// `b` applied after `a`.
pub open spec fn then(a: Overrides, b: Overrides) -> Overrides {
    Overrides { no_subdir: first_set(b.no_subdir, a.no_subdir), config: merge_options(b.config, a.config) }
}

pub open spec fn upd(e: EntryModel, a: Overrides) -> EntryModel {
    updated_entry(e, a.no_subdir, a.config)
}

pub open spec fn same_keys(s: Seq<EntryModel>, t: Seq<EntryModel>) -> bool {
    s.len() == t.len() && forall|i: int|
        0 <= i < s.len() ==> (#[trigger] s[i]).path == t[i].path && s[i].numa_id == t[i].numa_id
}

/// What the sets of one item over NUMA list `ns` amount to for the entry
/// with key `(ep, en)`.
pub open spec fn acc_numas(
    ep: Seq<char>,
    en: u32,
    p: Seq<char>,
    ns: Seq<u32>,
    item: Overrides,
    host: Seq<u32>,
) -> Overrides
    decreases ns.len(),
{
    if ns.len() == 0 {
        no_overrides()
    } else {
        let a = acc_numas(ep, en, p, ns.drop_last(), item, host);
        if host.contains(ns.last()) && ep == p && en == ns.last() {
            then(a, item)
        } else {
            a
        }
    }
}

/// What a list of set items amounts to for the entry with key `(ep, en)`,
/// when the registry holds the keys of `s`.
pub open spec fn acc_items(
    ep: Seq<char>,
    en: u32,
    items: Seq<CgroupItemModel>,
    s: Seq<EntryModel>,
    host: Seq<u32>,
) -> Overrides
    decreases items.len(),
{
    if items.len() == 0 {
        no_overrides()
    } else {
        let a = acc_items(ep, en, items.drop_last(), s, host);
        let it = items.last();
        let sel = if it.numa_id.len() > 0 { it.numa_id } else { numas_of(s, it.path) };
        if valid_path(it.path) && sel.len() > 0 {
            then(a, acc_numas(ep, en, it.path, sel, Overrides { no_subdir: it.no_subdir, config: it.config }, host))
        } else {
            a
        }
    }
}

proof fn lemma_upd_then(e: EntryModel, a: Overrides, b: Overrides)
    ensures
        upd(upd(e, a), b) == upd(e, then(a, b)),
{
}

proof fn lemma_upd_none(e: EntryModel)
    ensures
        upd(e, no_overrides()) == e,
{
}

proof fn lemma_then_self(a: Overrides)
    ensures
        then(a, a) == a,
{
}

proof fn lemma_same_keys_unique(s: Seq<EntryModel>, t: Seq<EntryModel>)
    requires
        same_keys(s, t),
        keys_unique(s),
    ensures
        keys_unique(t),
{
    assert forall|i: int, j: int|
        #![trigger t[i], t[j]]
        0 <= i < t.len() && 0 <= j < t.len() && i != j implies !same_key(t[i], t[j].path, t[j].numa_id) by {
        assert(s[i].path == t[i].path && s[i].numa_id == t[i].numa_id);
        assert(s[j].path == t[j].path && s[j].numa_id == t[j].numa_id);
    }
}

proof fn lemma_numas_of_same_keys(s: Seq<EntryModel>, t: Seq<EntryModel>, p: Seq<char>)
    requires
        same_keys(s, t),
    ensures
        numas_of(s, p) == numas_of(t, p),
    decreases s.len(),
{
    if s.len() > 0 {
        assert(same_keys(s.drop_last(), t.drop_last())) by {
            assert forall|i: int| 0 <= i < s.len() - 1 implies (#[trigger] s.drop_last()[i]).path == t.drop_last()[i].path
                && s.drop_last()[i].numa_id == t.drop_last()[i].numa_id by {
                assert(s.drop_last()[i] == s[i]);
                assert(t.drop_last()[i] == t[i]);
            }
        }
        lemma_numas_of_same_keys(s.drop_last(), t.drop_last(), p);
    }
}

proof fn lemma_find_keys(s: Seq<EntryModel>, t: Seq<EntryModel>, p: Seq<char>, n: u32)
    requires
        same_keys(s, t),
    ensures
        find(s, p, n) == find(t, p, n),
    decreases s.len(),
{
    if s.len() > 0 {
        assert(same_keys(s.drop_last(), t.drop_last())) by {
            assert forall|i: int| 0 <= i < s.len() - 1 implies (#[trigger] s.drop_last()[i]).path == t.drop_last()[i].path
                && s.drop_last()[i].numa_id == t.drop_last()[i].numa_id by {
                assert(s.drop_last()[i] == s[i]);
                assert(t.drop_last()[i] == t[i]);
            }
        }
        lemma_find_keys(s.drop_last(), t.drop_last(), p, n);
    }
}

proof fn lemma_find_hit(s: Seq<EntryModel>, p: Seq<char>, n: u32, i: int)
    requires
        keys_unique(s),
        0 <= i < s.len(),
    ensures
        same_key(s[i], p, n) <==> find(s, p, n) == i,
    decreases s.len(),
{
    crate::registry::lemma_find_range(s, p, n);
    if s.len() > 0 && i < s.len() - 1 {
        let k = find(s, p, n);
        if !same_key(s.last(), p, n) {
            assert(keys_unique(s.drop_last())) by {
                let d = s.drop_last();
                assert forall|a: int, b: int|
                    #![trigger d[a], d[b]]
                    0 <= a < d.len() && 0 <= b < d.len() && a != b implies !same_key(d[a], d[b].path, d[b].numa_id) by {
                    assert(d[a] == s[a] && d[b] == s[b]);
                }
            }
            lemma_find_hit(s.drop_last(), p, n, i);
            assert(s.drop_last()[i] == s[i]);
        } else {
            assert(!same_key(s[i], s[s.len() - 1].path, s[s.len() - 1].numa_id));
        }
    }
}

/// The sets of one item over a NUMA list change each entry by what they
/// amount to for its key, and keep every key.
proof fn lemma_numas_sets(
    r: Reconcile,
    p: Seq<char>,
    ns: Seq<u32>,
    item: Overrides,
    host: Seq<u32>,
)
    requires
        keys_unique(r.entries),
    ensures
        ({
            let t = numas_change(r, ConfigOp::Modify, p, ns, item.no_subdir, item.config, host).entries;
            &&& same_keys(r.entries, t)
            &&& forall|i: int| 0 <= i < t.len() ==> #[trigger] t[i] == upd(
                r.entries[i],
                acc_numas(r.entries[i].path, r.entries[i].numa_id, p, ns, item, host),
            )
        }),
    decreases ns.len(),
{
    let s = r.entries;
    if ns.len() == 0 {
        assert forall|i: int| 0 <= i < s.len() implies #[trigger] s[i] == upd(
            s[i],
            acc_numas(s[i].path, s[i].numa_id, p, ns, item, host),
        ) by {
            lemma_upd_none(s[i]);
        }
    } else {
        lemma_numas_sets(r, p, ns.drop_last(), item, host);
        let q = numas_change(r, ConfigOp::Modify, p, ns.drop_last(), item.no_subdir, item.config, host);
        let u = q.entries;
        let n = ns.last();
        lemma_same_keys_unique(s, u);
        lemma_find_keys(s, u, p, n);
        crate::registry::lemma_find_range(u, p, n);
        let t = pair_change(q, ConfigOp::Modify, p, n, item.no_subdir, item.config, host).entries;
        let k = find(u, p, n);
        assert forall|i: int| 0 <= i < t.len() implies #[trigger] t[i] == upd(
            s[i],
            acc_numas(s[i].path, s[i].numa_id, p, ns, item, host),
        ) && t[i].path == s[i].path && t[i].numa_id == s[i].numa_id by {
            let a = acc_numas(s[i].path, s[i].numa_id, p, ns.drop_last(), item, host);
            assert(u[i] == upd(s[i], a));
            lemma_find_hit(u, p, n, i);
            if host.contains(n) && same_key(s[i], p, n) {
                assert(k == i);
                lemma_upd_then(s[i], a, item);
            }
        }
    }
}

/// The set phase changes each entry by what the set items amount to for its
/// key, and keeps every key.
proof fn lemma_sets(r: Reconcile, items: Seq<CgroupItemModel>, host: Seq<u32>)
    requires
        keys_unique(r.entries),
    ensures
        ({
            let t = cgroup_items(r, ConfigOp::Modify, items, host).entries;
            &&& same_keys(r.entries, t)
            &&& forall|i: int| 0 <= i < t.len() ==> #[trigger] t[i] == upd(
                r.entries[i],
                acc_items(r.entries[i].path, r.entries[i].numa_id, items, r.entries, host),
            )
        }),
    decreases items.len(),
{
    let s = r.entries;
    if items.len() == 0 {
        assert forall|i: int| 0 <= i < s.len() implies #[trigger] s[i] == upd(
            s[i],
            acc_items(s[i].path, s[i].numa_id, items, s, host),
        ) by {
            lemma_upd_none(s[i]);
        }
    } else {
        lemma_sets(r, items.drop_last(), host);
        let q = cgroup_items(r, ConfigOp::Modify, items.drop_last(), host);
        let u = q.entries;
        let it = items.last();
        let item = Overrides { no_subdir: it.no_subdir, config: it.config };
        lemma_same_keys_unique(s, u);
        lemma_numas_of_same_keys(s, u, it.path);
        let sel = selection(q, ConfigOp::Modify, it.path, it.numa_id, host);
        let t = cgroup_items(r, ConfigOp::Modify, items, host).entries;
        assert(t == item_change(q, ConfigOp::Modify, it.path, it.numa_id, it.no_subdir, it.config, host).entries);
        if valid_path(it.path) && sel.len() > 0 {
            lemma_numas_sets(q, it.path, sel, item, host);
            assert forall|i: int| 0 <= i < t.len() implies #[trigger] t[i] == upd(
                s[i],
                acc_items(s[i].path, s[i].numa_id, items, s, host),
            ) && t[i].path == s[i].path && t[i].numa_id == s[i].numa_id by {
                let a = acc_items(s[i].path, s[i].numa_id, items.drop_last(), s, host);
                let b = acc_numas(u[i].path, u[i].numa_id, it.path, sel, item, host);
                assert(u[i] == upd(s[i], a));
                lemma_upd_then(s[i], a, b);
            }
        } else {
            assert forall|i: int| 0 <= i < t.len() implies #[trigger] t[i] == upd(
                s[i],
                acc_items(s[i].path, s[i].numa_id, items, s, host),
            ) && t[i].path == s[i].path && t[i].numa_id == s[i].numa_id by {
                assert(u[i] == upd(s[i], acc_items(s[i].path, s[i].numa_id, items.drop_last(), s, host)));
            }
        }
    }
}


pub open spec fn absent(s: Seq<EntryModel>, p: Seq<char>, n: u32) -> bool {
    forall|i: int| 0 <= i < s.len() ==> !same_key(#[trigger] s[i], p, n)
}

pub open spec fn no_path(s: Seq<EntryModel>, p: Seq<char>) -> bool {
    forall|i: int| 0 <= i < s.len() ==> (#[trigger] s[i]).path != p
}

/// Every tracked NUMA node is a node of the host.
pub open spec fn on_host(s: Seq<EntryModel>, host: Seq<u32>) -> bool {
    forall|i: int| 0 <= i < s.len() ==> host.contains((#[trigger] s[i]).numa_id)
}

/// What is left of `t` is left of `s`: no pair or path returns.
pub open spec fn shrinks(s: Seq<EntryModel>, t: Seq<EntryModel>) -> bool {
    &&& forall|p: Seq<char>, n: u32| absent(s, p, n) ==> #[trigger] absent(t, p, n)
    &&& forall|p: Seq<char>| no_path(s, p) ==> #[trigger] no_path(t, p)
}

/// A deletion item has nothing left to delete in `s`.
pub open spec fn cleared(s: Seq<EntryModel>, d: crate::registry::SelectorModel) -> bool {
    valid_path(d.path) ==> if d.numa_id.len() == 0 {
        no_path(s, d.path)
    } else {
        forall|k: int| 0 <= k < d.numa_id.len() ==> #[trigger] absent(s, d.path, d.numa_id[k])
    }
}

proof fn lemma_remove_shrinks(s: Seq<EntryModel>, k: int, host: Seq<u32>)
    requires
        0 <= k < s.len(),
    ensures
        shrinks(s, s.remove(k)),
        on_host(s, host) ==> on_host(s.remove(k), host),
{
    let t = s.remove(k);
    assert forall|i: int| 0 <= i < t.len() implies #[trigger] t[i] == s[if i < k { i } else { i + 1 }] by {}
    assert forall|p: Seq<char>, n: u32| absent(s, p, n) implies #[trigger] absent(t, p, n) by {
        assert forall|i: int| 0 <= i < t.len() implies !same_key(#[trigger] t[i], p, n) by {
            assert(t[i] == s[if i < k { i } else { i + 1 }]);
        }
    }
    assert forall|p: Seq<char>| no_path(s, p) implies #[trigger] no_path(t, p) by {
        assert forall|i: int| 0 <= i < t.len() implies (#[trigger] t[i]).path != p by {
            assert(t[i] == s[if i < k { i } else { i + 1 }]);
        }
    }
    if on_host(s, host) {
        assert forall|i: int| 0 <= i < t.len() implies host.contains((#[trigger] t[i]).numa_id) by {
            assert(t[i] == s[if i < k { i } else { i + 1 }]);
        }
    }
}

proof fn lemma_del_pair(r: Reconcile, p: Seq<char>, n: u32, host: Seq<u32>)
    requires
        keys_unique(r.entries),
        on_host(r.entries, host),
    ensures
        ({
            let t = pair_change(r, ConfigOp::Delete, p, n, None, no_options(), host);
            &&& keys_unique(t.entries)
            &&& on_host(t.entries, host)
            &&& shrinks(r.entries, t.entries)
            &&& absent(t.entries, p, n)
        }),
{
    let s = r.entries;
    crate::registry::lemma_find_range(s, p, n);
    crate::registry::lemma_find_absent(s, p, n);
    crate::registry::lemma_pair_keeps_unique(r, ConfigOp::Delete, p, n, None, no_options(), host);
    let k = find(s, p, n);
    if host.contains(n) && k >= 0 {
        lemma_remove_shrinks(s, k, host);
        let t = s.remove(k);
        assert forall|i: int| 0 <= i < t.len() implies !same_key(#[trigger] t[i], p, n) by {
            assert(t[i] == s[if i < k { i } else { i + 1 }]);
        }
    } else if !host.contains(n) {
        assert forall|i: int| 0 <= i < s.len() implies !same_key(#[trigger] s[i], p, n) by {
            assert(host.contains(s[i].numa_id));
        }
    }
}

proof fn lemma_shrinks_trans(a: Seq<EntryModel>, b: Seq<EntryModel>, c: Seq<EntryModel>)
    requires
        shrinks(a, b),
        shrinks(b, c),
    ensures
        shrinks(a, c),
{
    assert forall|p: Seq<char>, n: u32| absent(a, p, n) implies #[trigger] absent(c, p, n) by {
        assert(absent(b, p, n));
    }
    assert forall|p: Seq<char>| no_path(a, p) implies #[trigger] no_path(c, p) by {
        assert(no_path(b, p));
    }
}

proof fn lemma_del_numas(r: Reconcile, p: Seq<char>, ns: Seq<u32>, host: Seq<u32>)
    requires
        keys_unique(r.entries),
        on_host(r.entries, host),
    ensures
        ({
            let t = numas_change(r, ConfigOp::Delete, p, ns, None, no_options(), host);
            &&& keys_unique(t.entries)
            &&& on_host(t.entries, host)
            &&& shrinks(r.entries, t.entries)
            &&& forall|k: int| 0 <= k < ns.len() ==> #[trigger] absent(t.entries, p, ns[k])
        }),
    decreases ns.len(),
{
    if ns.len() == 0 {
        assert(shrinks(r.entries, r.entries));
    } else {
        lemma_del_numas(r, p, ns.drop_last(), host);
        let q = numas_change(r, ConfigOp::Delete, p, ns.drop_last(), None, no_options(), host);
        lemma_del_pair(q, p, ns.last(), host);
        let t = pair_change(q, ConfigOp::Delete, p, ns.last(), None, no_options(), host);
        lemma_shrinks_trans(r.entries, q.entries, t.entries);
        assert forall|k: int| 0 <= k < ns.len() implies #[trigger] absent(t.entries, p, ns[k]) by {
            if k < ns.len() - 1 {
                assert(ns.drop_last()[k] == ns[k]);
                assert(absent(q.entries, p, ns[k]));
            }
        }
    }
}

proof fn lemma_numas_of_has(s: Seq<EntryModel>, p: Seq<char>, i: int)
    requires
        0 <= i < s.len(),
        s[i].path == p,
    ensures
        numas_of(s, p).contains(s[i].numa_id),
    decreases s.len(),
{
    if i < s.len() - 1 {
        lemma_numas_of_has(s.drop_last(), p, i);
        assert(s.drop_last()[i] == s[i]);
        let l = numas_of(s.drop_last(), p);
        let j = choose|j: int| 0 <= j < l.len() && l[j] == s[i].numa_id;
        if s.last().path == p {
            assert(l.push(s.last().numa_id)[j] == s[i].numa_id);
        }
    } else {
        let l = numas_of(s.drop_last(), p);
        assert(l.push(s.last().numa_id)[l.len() as int] == s[i].numa_id);
    }
}

proof fn lemma_no_path_numas(s: Seq<EntryModel>, p: Seq<char>)
    ensures
        no_path(s, p) <==> numas_of(s, p).len() == 0,
    decreases s.len(),
{
    if s.len() > 0 {
        lemma_no_path_numas(s.drop_last(), p);
        if no_path(s, p) {
            assert forall|i: int| 0 <= i < s.len() - 1 implies (#[trigger] s.drop_last()[i]).path != p by {
                assert(s.drop_last()[i] == s[i]);
            }
        } else if numas_of(s, p).len() == 0 {
            let i = choose|i: int| 0 <= i < s.len() && (#[trigger] s[i]).path == p;
            lemma_numas_of_has(s, p, i);
        }
    }
}

proof fn lemma_cleared_shrinks(s: Seq<EntryModel>, t: Seq<EntryModel>, d: crate::registry::SelectorModel)
    requires
        cleared(s, d),
        shrinks(s, t),
    ensures
        cleared(t, d),
{
    if valid_path(d.path) && d.numa_id.len() > 0 {
        assert forall|k: int| 0 <= k < d.numa_id.len() implies #[trigger] absent(t, d.path, d.numa_id[k]) by {
            assert(absent(s, d.path, d.numa_id[k]));
        }
    }
}

/// A deletion item, once processed, has nothing left to delete.
proof fn lemma_del_item(r: Reconcile, d: crate::registry::SelectorModel, host: Seq<u32>)
    requires
        keys_unique(r.entries),
        on_host(r.entries, host),
    ensures
        ({
            let t = item_change(r, ConfigOp::Delete, d.path, d.numa_id, None, no_options(), host);
            &&& keys_unique(t.entries)
            &&& on_host(t.entries, host)
            &&& shrinks(r.entries, t.entries)
            &&& cleared(t.entries, d)
        }),
{
    let s = r.entries;
    let sel = selection(r, ConfigOp::Delete, d.path, d.numa_id, host);
    lemma_no_path_numas(s, d.path);
    if !valid_path(d.path) || sel.len() == 0 {
        assert(shrinks(s, s));
    } else {
        lemma_del_numas(r, d.path, sel, host);
        let t = numas_change(r, ConfigOp::Delete, d.path, sel, None, no_options(), host).entries;
        if d.numa_id.len() == 0 {
            assert forall|i: int| 0 <= i < t.len() implies (#[trigger] t[i]).path != d.path by {
                if t[i].path == d.path {
                    let n = t[i].numa_id;
                    if numas_of(s, d.path).contains(n) {
                        let k = choose|k: int| 0 <= k < sel.len() && sel[k] == n;
                        assert(absent(t, d.path, sel[k]));
                    } else {
                        assert forall|j: int| 0 <= j < s.len() implies !same_key(#[trigger] s[j], d.path, n) by {
                            if same_key(s[j], d.path, n) {
                                lemma_numas_of_has(s, d.path, j);
                            }
                        }
                        assert(absent(s, d.path, n));
                        assert(absent(t, d.path, n));
                    }
                }
            }
        }
    }
}

/// After the deletion phase every deletion item is cleared.
proof fn lemma_del_phase(r: Reconcile, items: Seq<crate::registry::SelectorModel>, host: Seq<u32>)
    requires
        keys_unique(r.entries),
        on_host(r.entries, host),
    ensures
        ({
            let t = crate::registry::del_items(r, items, host).entries;
            &&& keys_unique(t)
            &&& on_host(t, host)
            &&& forall|j: int| 0 <= j < items.len() ==> #[trigger] cleared(t, items[j])
        }),
    decreases items.len(),
{
    if items.len() > 0 {
        lemma_del_phase(r, items.drop_last(), host);
        let q = crate::registry::del_items(r, items.drop_last(), host);
        let d = items.last();
        lemma_del_item(q, d, host);
        let t = crate::registry::del_items(r, items, host).entries;
        assert forall|j: int| 0 <= j < items.len() implies #[trigger] cleared(t, items[j]) by {
            if j < items.len() - 1 {
                assert(items.drop_last()[j] == items[j]);
                lemma_cleared_shrinks(q.entries, t, items[j]);
            }
        }
    }
}


pub open spec fn add_selection(a: CgroupItemModel, host: Seq<u32>) -> Seq<u32> {
    if a.numa_id.len() > 0 { a.numa_id } else { host }
}

/// Every pair that an addition item names on a host node is tracked in `s`.
pub open spec fn covered(s: Seq<EntryModel>, a: CgroupItemModel, host: Seq<u32>) -> bool {
    valid_path(a.path) ==> forall|k: int|
        0 <= k < add_selection(a, host).len() && host.contains(add_selection(a, host)[k])
            ==> !#[trigger] absent(s, a.path, add_selection(a, host)[k])
}

/// `t` tracks all that `s` tracks, and besides only pairs on path `p`.
pub open spec fn grows_on(s: Seq<EntryModel>, t: Seq<EntryModel>, p: Seq<char>) -> bool {
    &&& forall|other: Seq<char>, n: u32| !absent(s, other, n) ==> !#[trigger] absent(t, other, n)
    &&& forall|other: Seq<char>, n: u32| other != p && absent(s, other, n) ==> #[trigger] absent(t, other, n)
    &&& forall|other: Seq<char>| other != p && no_path(s, other) ==> #[trigger] no_path(t, other)
}

proof fn lemma_add_pair(r: Reconcile, p: Seq<char>, n: u32, it: Overrides, host: Seq<u32>)
    requires
        keys_unique(r.entries),
        on_host(r.entries, host),
    ensures
        ({
            let t = pair_change(r, ConfigOp::Add, p, n, it.no_subdir, it.config, host).entries;
            &&& keys_unique(t)
            &&& on_host(t, host)
            &&& grows_on(r.entries, t, p)
            &&& host.contains(n) ==> !absent(t, p, n)
        }),
{
    let s = r.entries;
    crate::registry::lemma_find_range(s, p, n);
    crate::registry::lemma_find_absent(s, p, n);
    crate::registry::lemma_pair_keeps_unique(r, ConfigOp::Add, p, n, it.no_subdir, it.config, host);
    let t = pair_change(r, ConfigOp::Add, p, n, it.no_subdir, it.config, host).entries;
    if host.contains(n) && find(s, p, n) < 0 {
        assert forall|i: int| 0 <= i < s.len() implies #[trigger] t[i] == s[i] by {}
        assert forall|other: Seq<char>, n2: u32| !absent(s, other, n2) implies !#[trigger] absent(t, other, n2) by {
            let i = choose|i: int| 0 <= i < s.len() && same_key(#[trigger] s[i], other, n2);
            assert(t[i] == s[i]);
        }
        assert forall|other: Seq<char>, n2: u32| other != p && absent(s, other, n2) implies #[trigger] absent(t, other, n2) by {
            assert forall|i: int| 0 <= i < t.len() implies !same_key(#[trigger] t[i], other, n2) by {
                if i < s.len() {
                    assert(t[i] == s[i]);
                }
            }
        }
        assert forall|other: Seq<char>| other != p && no_path(s, other) implies #[trigger] no_path(t, other) by {
            assert forall|i: int| 0 <= i < t.len() implies (#[trigger] t[i]).path != other by {
                if i < s.len() {
                    assert(t[i] == s[i]);
                }
            }
        }
        assert forall|i: int| 0 <= i < t.len() implies host.contains((#[trigger] t[i]).numa_id) by {
            if i < s.len() {
                assert(t[i] == s[i]);
            }
        }
        assert(same_key(t[s.len() as int], p, n));
    }
}

proof fn lemma_grows_trans(a: Seq<EntryModel>, b: Seq<EntryModel>, c: Seq<EntryModel>, p: Seq<char>)
    requires
        grows_on(a, b, p),
        grows_on(b, c, p),
    ensures
        grows_on(a, c, p),
{
    assert forall|other: Seq<char>, n: u32| !absent(a, other, n) implies !#[trigger] absent(c, other, n) by {
        assert(!absent(b, other, n));
    }
    assert forall|other: Seq<char>, n: u32| other != p && absent(a, other, n) implies #[trigger] absent(c, other, n) by {
        assert(absent(b, other, n));
    }
    assert forall|other: Seq<char>| other != p && no_path(a, other) implies #[trigger] no_path(c, other) by {
        assert(no_path(b, other));
    }
}

proof fn lemma_add_numas(r: Reconcile, p: Seq<char>, ns: Seq<u32>, it: Overrides, host: Seq<u32>)
    requires
        keys_unique(r.entries),
        on_host(r.entries, host),
    ensures
        ({
            let t = numas_change(r, ConfigOp::Add, p, ns, it.no_subdir, it.config, host).entries;
            &&& keys_unique(t)
            &&& on_host(t, host)
            &&& grows_on(r.entries, t, p)
            &&& forall|k: int| 0 <= k < ns.len() && host.contains(ns[k]) ==> !#[trigger] absent(t, p, ns[k])
        }),
    decreases ns.len(),
{
    if ns.len() == 0 {
        assert(grows_on(r.entries, r.entries, p));
    } else {
        lemma_add_numas(r, p, ns.drop_last(), it, host);
        let q = numas_change(r, ConfigOp::Add, p, ns.drop_last(), it.no_subdir, it.config, host);
        lemma_add_pair(q, p, ns.last(), it, host);
        let t = pair_change(q, ConfigOp::Add, p, ns.last(), it.no_subdir, it.config, host).entries;
        lemma_grows_trans(r.entries, q.entries, t, p);
        assert forall|k: int| 0 <= k < ns.len() && host.contains(ns[k]) implies !#[trigger] absent(t, p, ns[k]) by {
            if k < ns.len() - 1 {
                assert(ns.drop_last()[k] == ns[k]);
                assert(!absent(q.entries, p, ns[k]));
            }
        }
    }
}

pub open spec fn grows_off(s: Seq<EntryModel>, t: Seq<EntryModel>, paths: Seq<Seq<char>>) -> bool {
    &&& forall|other: Seq<char>, n: u32| !absent(s, other, n) ==> !#[trigger] absent(t, other, n)
    &&& forall|other: Seq<char>, n: u32| !paths.contains(other) && absent(s, other, n) ==> #[trigger] absent(t, other, n)
    &&& forall|other: Seq<char>| !paths.contains(other) && no_path(s, other) ==> #[trigger] no_path(t, other)
}

pub open spec fn paths_of(items: Seq<CgroupItemModel>) -> Seq<Seq<char>> {
    items.map_values(|a: CgroupItemModel| a.path)
}

proof fn lemma_covered_grows(s: Seq<EntryModel>, t: Seq<EntryModel>, a: CgroupItemModel, host: Seq<u32>)
    requires
        covered(s, a, host),
        forall|other: Seq<char>, n: u32| !absent(s, other, n) ==> !#[trigger] absent(t, other, n),
    ensures
        covered(t, a, host),
{
    if valid_path(a.path) {
        let sel = add_selection(a, host);
        assert forall|k: int| 0 <= k < sel.len() && host.contains(sel[k]) implies !#[trigger] absent(t, a.path, sel[k]) by {
            assert(!absent(s, a.path, sel[k]));
        }
    }
}

/// After the addition phase every addition item is covered, and only the
/// paths of addition items gained pairs.
pub(crate) proof fn lemma_add_phase(r: Reconcile, items: Seq<CgroupItemModel>, host: Seq<u32>)
    requires
        keys_unique(r.entries),
        on_host(r.entries, host),
    ensures
        ({
            let t = cgroup_items(r, ConfigOp::Add, items, host).entries;
            &&& keys_unique(t)
            &&& on_host(t, host)
            &&& grows_off(r.entries, t, paths_of(items))
            &&& forall|j: int| 0 <= j < items.len() ==> #[trigger] covered(t, items[j], host)
        }),
    decreases items.len(),
{
    if items.len() == 0 {
        assert(grows_off(r.entries, r.entries, paths_of(items)));
    } else {
        let init = items.drop_last();
        lemma_add_phase(r, init, host);
        let q = cgroup_items(r, ConfigOp::Add, init, host);
        let a = items.last();
        let it = Overrides { no_subdir: a.no_subdir, config: a.config };
        let sel = selection(q, ConfigOp::Add, a.path, a.numa_id, host);
        let t = cgroup_items(r, ConfigOp::Add, items, host).entries;
        assert(paths_of(items) =~= paths_of(init).push(a.path));
        if valid_path(a.path) && sel.len() > 0 {
            lemma_add_numas(q, a.path, sel, it, host);
        } else {
            assert(grows_on(q.entries, t, a.path));
        }
        assert(grows_on(q.entries, t, a.path));
        assert forall|other: Seq<char>, n: u32| !paths_of(items).contains(other) && absent(r.entries, other, n)
            implies #[trigger] absent(t, other, n) by {
            assert(!paths_of(init).contains(other)) by {
                if paths_of(init).contains(other) {
                    let j = choose|j: int| 0 <= j < paths_of(init).len() && paths_of(init)[j] == other;
                    assert(paths_of(items)[j] == other);
                }
            }
            assert(other != a.path) by {
                assert(paths_of(items)[items.len() - 1] == a.path);
            }
            assert(absent(q.entries, other, n));
        }
        assert forall|other: Seq<char>| !paths_of(items).contains(other) && no_path(r.entries, other)
            implies #[trigger] no_path(t, other) by {
            assert(!paths_of(init).contains(other)) by {
                if paths_of(init).contains(other) {
                    let j = choose|j: int| 0 <= j < paths_of(init).len() && paths_of(init)[j] == other;
                    assert(paths_of(items)[j] == other);
                }
            }
            assert(other != a.path) by {
                assert(paths_of(items)[items.len() - 1] == a.path);
            }
            assert(no_path(q.entries, other));
        }
        assert forall|other: Seq<char>, n: u32| !absent(r.entries, other, n) implies !#[trigger] absent(t, other, n) by {
            assert(!absent(q.entries, other, n));
        }
        assert forall|j: int| 0 <= j < items.len() implies #[trigger] covered(t, items[j], host) by {
            if j < items.len() - 1 {
                assert(init[j] == items[j]);
                lemma_covered_grows(q.entries, t, items[j], host);
            }
        }
    }
}


proof fn lemma_absent_keys(s: Seq<EntryModel>, t: Seq<EntryModel>)
    requires
        same_keys(s, t),
    ensures
        forall|p: Seq<char>, n: u32| absent(s, p, n) <==> #[trigger] absent(t, p, n),
        forall|p: Seq<char>| no_path(s, p) <==> #[trigger] no_path(t, p),
        forall|host: Seq<u32>| on_host(s, host) <==> #[trigger] on_host(t, host),
{
    assert forall|p: Seq<char>, n: u32| absent(s, p, n) <==> #[trigger] absent(t, p, n) by {
        if absent(s, p, n) {
            assert forall|i: int| 0 <= i < t.len() implies !same_key(#[trigger] t[i], p, n) by {
                assert(s[i].path == t[i].path && s[i].numa_id == t[i].numa_id);
            }
        }
        if absent(t, p, n) {
            assert forall|i: int| 0 <= i < s.len() implies !same_key(#[trigger] s[i], p, n) by {
                assert(s[i].path == t[i].path && s[i].numa_id == t[i].numa_id);
            }
        }
    }
    assert forall|p: Seq<char>| no_path(s, p) <==> #[trigger] no_path(t, p) by {
        if no_path(s, p) {
            assert forall|i: int| 0 <= i < t.len() implies (#[trigger] t[i]).path != p by {
                assert(s[i].path == t[i].path);
            }
        }
        if no_path(t, p) {
            assert forall|i: int| 0 <= i < s.len() implies (#[trigger] s[i]).path != p by {
                assert(s[i].path == t[i].path);
            }
        }
    }
    assert forall|host: Seq<u32>| on_host(s, host) <==> #[trigger] on_host(t, host) by {
        if on_host(s, host) {
            assert forall|i: int| 0 <= i < t.len() implies host.contains((#[trigger] t[i]).numa_id) by {
                assert(s[i].numa_id == t[i].numa_id);
            }
        }
        if on_host(t, host) {
            assert forall|i: int| 0 <= i < s.len() implies host.contains((#[trigger] s[i]).numa_id) by {
                assert(s[i].numa_id == t[i].numa_id);
            }
        }
    }
}

proof fn lemma_acc_items_keys(
    ep: Seq<char>,
    en: u32,
    items: Seq<CgroupItemModel>,
    s: Seq<EntryModel>,
    t: Seq<EntryModel>,
    host: Seq<u32>,
)
    requires
        same_keys(s, t),
    ensures
        acc_items(ep, en, items, s, host) == acc_items(ep, en, items, t, host),
    decreases items.len(),
{
    if items.len() > 0 {
        lemma_acc_items_keys(ep, en, items.drop_last(), s, t, host);
        lemma_numas_of_same_keys(s, t, items.last().path);
    }
}

/// Deletions that have nothing left to delete change nothing.
proof fn lemma_del_numas_noop(r: Reconcile, p: Seq<char>, ns: Seq<u32>, host: Seq<u32>)
    requires
        forall|k: int| 0 <= k < ns.len() ==> #[trigger] absent(r.entries, p, ns[k]),
    ensures
        numas_change(r, ConfigOp::Delete, p, ns, None, no_options(), host).entries == r.entries,
        numas_change(r, ConfigOp::Delete, p, ns, None, no_options(), host).transitions == r.transitions,
    decreases ns.len(),
{
    if ns.len() > 0 {
        assert forall|k: int| 0 <= k < ns.len() - 1 implies #[trigger] absent(r.entries, p, ns.drop_last()[k]) by {
            assert(ns.drop_last()[k] == ns[k]);
        }
        lemma_del_numas_noop(r, p, ns.drop_last(), host);
        assert(absent(r.entries, p, ns[ns.len() - 1]));
        crate::registry::lemma_find_absent(r.entries, p, ns.last());
    }
}

proof fn lemma_del_phase_noop(r: Reconcile, items: Seq<crate::registry::SelectorModel>, host: Seq<u32>)
    requires
        forall|j: int| 0 <= j < items.len() ==> #[trigger] cleared(r.entries, items[j]),
    ensures
        crate::registry::del_items(r, items, host).entries == r.entries,
        crate::registry::del_items(r, items, host).transitions == r.transitions,
    decreases items.len(),
{
    if items.len() > 0 {
        assert forall|j: int| 0 <= j < items.len() - 1 implies #[trigger] cleared(r.entries, items.drop_last()[j]) by {
            assert(items.drop_last()[j] == items[j]);
        }
        lemma_del_phase_noop(r, items.drop_last(), host);
        let q = crate::registry::del_items(r, items.drop_last(), host);
        let d = items.last();
        assert(cleared(r.entries, items[items.len() - 1]));
        lemma_no_path_numas(r.entries, d.path);
        if valid_path(d.path) && d.numa_id.len() > 0 {
            lemma_del_numas_noop(q, d.path, d.numa_id, host);
        }
    }
}

proof fn lemma_add_numas_noop(r: Reconcile, p: Seq<char>, ns: Seq<u32>, it: Overrides, host: Seq<u32>)
    requires
        forall|k: int| 0 <= k < ns.len() && host.contains(ns[k]) ==> !#[trigger] absent(r.entries, p, ns[k]),
    ensures
        numas_change(r, ConfigOp::Add, p, ns, it.no_subdir, it.config, host).entries == r.entries,
        numas_change(r, ConfigOp::Add, p, ns, it.no_subdir, it.config, host).transitions == r.transitions,
    decreases ns.len(),
{
    if ns.len() > 0 {
        assert forall|k: int| 0 <= k < ns.len() - 1 && host.contains(ns.drop_last()[k]) implies !#[trigger] absent(
            r.entries,
            p,
            ns.drop_last()[k],
        ) by {
            assert(ns.drop_last()[k] == ns[k]);
        }
        lemma_add_numas_noop(r, p, ns.drop_last(), it, host);
        if host.contains(ns.last()) {
            assert(!absent(r.entries, p, ns[ns.len() - 1]));
        }
        crate::registry::lemma_find_absent(r.entries, p, ns.last());
    }
}

proof fn lemma_add_phase_noop(r: Reconcile, items: Seq<CgroupItemModel>, host: Seq<u32>)
    requires
        forall|j: int| 0 <= j < items.len() ==> #[trigger] covered(r.entries, items[j], host),
    ensures
        cgroup_items(r, ConfigOp::Add, items, host).entries == r.entries,
        cgroup_items(r, ConfigOp::Add, items, host).transitions == r.transitions,
    decreases items.len(),
{
    if items.len() > 0 {
        assert forall|j: int| 0 <= j < items.len() - 1 implies #[trigger] covered(r.entries, items.drop_last()[j], host) by {
            assert(items.drop_last()[j] == items[j]);
        }
        lemma_add_phase_noop(r, items.drop_last(), host);
        let q = cgroup_items(r, ConfigOp::Add, items.drop_last(), host);
        let a = items.last();
        assert(covered(r.entries, items[items.len() - 1], host));
        let sel = selection(q, ConfigOp::Add, a.path, a.numa_id, host);
        if valid_path(a.path) && sel.len() > 0 {
            assert(sel == add_selection(a, host));
            assert forall|k: int| 0 <= k < sel.len() && host.contains(sel[k]) implies !#[trigger] absent(
                q.entries,
                a.path,
                sel[k],
            ) by {
                assert(!absent(r.entries, a.path, add_selection(a, host)[k]));
            }
            lemma_add_numas_noop(q, a.path, sel, Overrides { no_subdir: a.no_subdir, config: a.config }, host);
        }
    }
}

pub open spec fn all_updates(t: Seq<crate::registry::TransitionModel>) -> bool {
    forall|i: int| 0 <= i < t.len() ==> (#[trigger] t[i]).kind == crate::registry::TransitionKind::Update
}

proof fn lemma_set_numas_updates(r: Reconcile, p: Seq<char>, ns: Seq<u32>, it: Overrides, host: Seq<u32>)
    requires
        all_updates(r.transitions),
    ensures
        all_updates(numas_change(r, ConfigOp::Modify, p, ns, it.no_subdir, it.config, host).transitions),
    decreases ns.len(),
{
    if ns.len() > 0 {
        lemma_set_numas_updates(r, p, ns.drop_last(), it, host);
    }
}

proof fn lemma_set_phase_updates(r: Reconcile, items: Seq<CgroupItemModel>, host: Seq<u32>)
    requires
        all_updates(r.transitions),
    ensures
        all_updates(cgroup_items(r, ConfigOp::Modify, items, host).transitions),
    decreases items.len(),
{
    if items.len() > 0 {
        lemma_set_phase_updates(r, items.drop_last(), host);
        let q = cgroup_items(r, ConfigOp::Modify, items.drop_last(), host);
        let a = items.last();
        let sel = selection(q, ConfigOp::Modify, a.path, a.numa_id, host);
        lemma_set_numas_updates(q, a.path, sel, Overrides { no_subdir: a.no_subdir, config: a.config }, host);
    }
}

/// Applying the same change a second time leaves the tracked entries as the
/// first application left them, and starts or stops no unit: the second
/// application only updates units in place. This holds when no path that the
/// change deletes is also added by it (a path deleted and re-added would be
/// deleted and re-added again), and of a registry whose pairs are unique and
/// on host NUMA nodes.
pub proof fn lemma_reapply(e0: Seq<EntryModel>, opt: crate::registry::OptionModel, host: Seq<u32>)
    requires
        keys_unique(e0),
        on_host(e0, host),
        forall|j: int, k: int|
            0 <= j < opt.del.len() && 0 <= k < opt.add.len() ==> (#[trigger] opt.del[j]).path != (
            #[trigger] opt.add[k]).path,
    ensures
        ({
            let c1 = crate::registry::change(crate::registry::start(e0), opt, host);
            let c2 = crate::registry::change(crate::registry::start(c1.entries), opt, host);
            &&& c2.entries == c1.entries
            &&& all_updates(c2.transitions)
        }),
{
    let r0 = crate::registry::start(e0);
    let d1 = crate::registry::del_items(r0, opt.del, host);
    lemma_del_phase(r0, opt.del, host);
    let a1 = cgroup_items(d1, ConfigOp::Add, opt.add, host);
    lemma_add_phase(d1, opt.add, host);
    let c1 = cgroup_items(a1, ConfigOp::Modify, opt.set, host);
    lemma_sets(a1, opt.set, host);
    let e1 = c1.entries;
    let m = a1.entries;
    lemma_absent_keys(m, e1);
    // Every deletion is still cleared and every addition still covered in e1.
    assert forall|j: int| 0 <= j < opt.del.len() implies #[trigger] cleared(e1, opt.del[j]) by {
        let d = opt.del[j];
        assert(cleared(d1.entries, d));
        assert(!paths_of(opt.add).contains(d.path)) by {
            if paths_of(opt.add).contains(d.path) {
                let k = choose|k: int| 0 <= k < paths_of(opt.add).len() && paths_of(opt.add)[k] == d.path;
                assert(opt.add[k].path == d.path);
            }
        }
        if valid_path(d.path) {
            if d.numa_id.len() == 0 {
                assert(no_path(m, d.path));
            } else {
                assert forall|k: int| 0 <= k < d.numa_id.len() implies #[trigger] absent(e1, d.path, d.numa_id[k]) by {
                    assert(absent(d1.entries, d.path, d.numa_id[k]));
                    assert(absent(m, d.path, d.numa_id[k]));
                }
            }
        }
    }
    assert forall|j: int| 0 <= j < opt.add.len() implies #[trigger] covered(e1, opt.add[j], host) by {
        let a = opt.add[j];
        assert(covered(m, a, host));
        if valid_path(a.path) {
            let sel = add_selection(a, host);
            assert forall|k: int| 0 <= k < sel.len() && host.contains(sel[k]) implies !#[trigger] absent(e1, a.path, sel[k]) by {
                assert(!absent(m, a.path, sel[k]));
            }
        }
    }
    // The second application: deletions and additions change nothing.
    let r1 = crate::registry::start(e1);
    lemma_del_phase_noop(r1, opt.del, host);
    let d2 = crate::registry::del_items(r1, opt.del, host);
    lemma_add_phase_noop(d2, opt.add, host);
    let a2 = cgroup_items(d2, ConfigOp::Add, opt.add, host);
    assert(a2.entries == e1);
    assert(a2.transitions.len() == 0);
    // Its sets land on what the first sets already produced.
    lemma_same_keys_unique(m, e1);
    lemma_sets(a2, opt.set, host);
    let c2 = cgroup_items(a2, ConfigOp::Modify, opt.set, host);
    assert forall|i: int| 0 <= i < e1.len() implies #[trigger] c2.entries[i] == e1[i] by {
        let acc = acc_items(m[i].path, m[i].numa_id, opt.set, m, host);
        lemma_acc_items_keys(m[i].path, m[i].numa_id, opt.set, m, e1, host);
        assert(e1[i] == upd(m[i], acc));
        assert(c2.entries[i] == upd(e1[i], acc_items(e1[i].path, e1[i].numa_id, opt.set, e1, host)));
        lemma_upd_then(m[i], acc, acc);
        lemma_then_self(acc);
    }
    assert(c2.entries =~= e1);
    lemma_set_phase_updates(a2, opt.set, host);
}


/// A change keeps the registry's pairs unique and on host NUMA nodes.
pub(crate) proof fn lemma_change_keeps_wf(r: Reconcile, opt: crate::registry::OptionModel, host: Seq<u32>)
    requires
        keys_unique(r.entries),
        on_host(r.entries, host),
    ensures
        keys_unique(crate::registry::change(r, opt, host).entries),
        on_host(crate::registry::change(r, opt, host).entries, host),
{
    lemma_del_phase(r, opt.del, host);
    let d = crate::registry::del_items(r, opt.del, host);
    lemma_add_phase(d, opt.add, host);
    let a = cgroup_items(d, ConfigOp::Add, opt.add, host);
    lemma_sets(a, opt.set, host);
    lemma_same_keys_unique(a.entries, crate::registry::change(r, opt, host).entries);
    lemma_absent_keys(a.entries, crate::registry::change(r, opt, host).entries);
}


/// An addition keeps the pairs unique and on host nodes, and keeps the
/// entries that were there, in place.
pub(crate) proof fn lemma_add_pair_keeps_prefix(
    r: Reconcile,
    p: Seq<char>,
    n: u32,
    no_subdir: Option<bool>,
    cfg: SingleOptionConfig,
    host: Seq<u32>,
)
    requires
        keys_unique(r.entries),
        on_host(r.entries, host),
    ensures
        ({
            let t = pair_change(r, ConfigOp::Add, p, n, no_subdir, cfg, host).entries;
            &&& keys_unique(t)
            &&& on_host(t, host)
            &&& r.entries.len() <= t.len()
            &&& forall|i: int| 0 <= i < r.entries.len() ==> #[trigger] t[i] == r.entries[i]
        }),
{
    lemma_add_pair(r, p, n, Overrides { no_subdir, config: cfg }, host);
}

} // verus!
