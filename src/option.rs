use vstd::prelude::*;
use vstd::string::*;
use crate::compact::{overlay_compact, CompactConfig, CompactOptionConfig, default_compact_config};
use crate::memcg::{
    default_single_config, overlay, CgroupOptionConfig, Config, OptionConfig, PathNumaSelector,
    SingleConfig, SingleOptionConfig,
};
use crate::registry::{CgroupItemModel, SelectorModel};
use crate::text::{parse_boolean, parse_uint, parse_unsigned, parse_bool, split, split_at_char, trim, trim_ws, str_eq};

verus! {

/// Why an option string was rejected.
#[derive(Clone, Copy, Debug, PartialEq, Eq, Structural)]
pub enum ParseError {
    /// A comma-separated piece is not exactly one `key=value`.
    InvalidPair,
    UnknownKey,
    /// A value does not read as its key's type.
    InvalidValue,
    /// No non-empty `path` was given.
    PathRequired,
}

/// Policy for one cgroup, as written `path=/a,numa-id=0:1,swap=true,...`.
pub struct CgroupMemcgSetOption {
    pub memcg_path: String,
    pub memcg_numa_id: Vec<u32>,
    pub memcg_disabled: Option<bool>,
    pub memcg_swap: Option<bool>,
    pub memcg_swappiness_max: Option<u8>,
    pub memcg_period_secs: Option<u64>,
    pub memcg_period_psi_percent_limit: Option<u8>,
    pub memcg_eviction_psi_percent_limit: Option<u8>,
    pub memcg_eviction_run_aging_count_min: Option<u64>,
    pub no_subdir: Option<bool>,
}

pub struct CgOptModel {
    pub path: Seq<char>,
    pub numa: Seq<u32>,
    pub config: SingleOptionConfig,
    pub no_subdir: Option<bool>,
}

impl View for CgroupMemcgSetOption {
    type V = CgOptModel;

    open spec fn view(&self) -> CgOptModel {
        CgOptModel {
            path: self.memcg_path@,
            numa: self.memcg_numa_id@,
            config: SingleOptionConfig {
                disabled: self.memcg_disabled,
                swap: self.memcg_swap,
                swappiness_max: self.memcg_swappiness_max,
                period_secs: self.memcg_period_secs,
                period_psi_percent_limit: self.memcg_period_psi_percent_limit,
                eviction_psi_percent_limit: self.memcg_eviction_psi_percent_limit,
                eviction_run_aging_count_min: self.memcg_eviction_run_aging_count_min,
            },
            no_subdir: self.no_subdir,
        }
    }
}

/// A cgroup path with NUMA nodes, as written `path=/a,numa-id=0:1`.
pub struct PathNuma {
    pub path: String,
    pub numa: Vec<u32>,
}

impl View for PathNuma {
    type V = SelectorModel;

    open spec fn view(&self) -> SelectorModel {
        SelectorModel { path: self.path@, numa_id: self.numa@ }
    }
}

pub open spec fn empty_cg() -> CgOptModel {
    CgOptModel { path: Seq::empty(), numa: Seq::empty(), config: crate::memcg::no_options(), no_subdir: None }
}

/// The NUMA list `a:b:c`: empty pieces are skipped, the others must read as
/// `u32`.
pub open spec fn numa_list(parts: Seq<Seq<char>>) -> Option<Seq<u32>>
    decreases parts.len(),
{
    if parts.len() == 0 {
        Some(Seq::empty())
    } else {
        match numa_list(parts.drop_last()) {
            None => None,
            Some(l) => if parts.last().len() == 0 {
                Some(l)
            } else {
                match parse_unsigned(parts.last(), u32::MAX as nat) {
                    None => None,
                    Some(x) => Some(l.push(x as u32)),
                }
            },
        }
    }
}

pub open spec fn parse_numa(v: Seq<char>) -> Option<Seq<u32>> {
    numa_list(split(v, ':'))
}

pub open spec fn as_u8(o: Option<nat>) -> Option<u8> {
    match o {
        Some(x) => Some(x as u8),
        None => None,
    }
}

pub open spec fn as_u64(o: Option<nat>) -> Option<u64> {
    match o {
        Some(x) => Some(x as u64),
        None => None,
    }
}

/// Applies the value `v` of a policy key to `c`; `None` for an unknown key,
/// `Some(None)` for a value that does not read.
pub open spec fn policy_key(c: SingleOptionConfig, k: Seq<char>, v: Seq<char>) -> Option<Option<SingleOptionConfig>> {
    if k == "disabled"@ {
        Some(if parse_bool(v) is Some { Some(SingleOptionConfig { disabled: parse_bool(v), ..c }) } else { None })
    } else if k == "swap"@ {
        Some(if parse_bool(v) is Some { Some(SingleOptionConfig { swap: parse_bool(v), ..c }) } else { None })
    } else if k == "swappiness-max"@ {
        let x = as_u8(parse_unsigned(v, u8::MAX as nat));
        Some(if x is Some { Some(SingleOptionConfig { swappiness_max: x, ..c }) } else { None })
    } else if k == "period-secs"@ {
        let x = as_u64(parse_unsigned(v, u64::MAX as nat));
        Some(if x is Some { Some(SingleOptionConfig { period_secs: x, ..c }) } else { None })
    } else if k == "period-psi-percent-limit"@ {
        let x = as_u8(parse_unsigned(v, u8::MAX as nat));
        Some(if x is Some { Some(SingleOptionConfig { period_psi_percent_limit: x, ..c }) } else { None })
    } else if k == "eviction-psi-percent-limit"@ {
        let x = as_u8(parse_unsigned(v, u8::MAX as nat));
        Some(if x is Some { Some(SingleOptionConfig { eviction_psi_percent_limit: x, ..c }) } else { None })
    } else if k == "eviction-run-aging-count-min"@ {
        let x = as_u64(parse_unsigned(v, u64::MAX as nat));
        Some(if x is Some { Some(SingleOptionConfig { eviction_run_aging_count_min: x, ..c }) } else { None })
    } else {
        None
    }
}

/// One `key=value` piece of a cgroup option applied to `m`.
pub open spec fn cg_pair(m: CgOptModel, pair: Seq<char>) -> Result<CgOptModel, ParseError> {
    let parts = split(pair, '=');
    if parts.len() != 2 {
        Err(ParseError::InvalidPair)
    } else {
        let k = trim(parts[0]);
        let v = trim(parts[1]);
        if k == "path"@ {
            Ok(CgOptModel { path: v, ..m })
        } else if k == "numa-id"@ {
            match parse_numa(v) {
                Some(l) => Ok(CgOptModel { numa: l, ..m }),
                None => Err(ParseError::InvalidValue),
            }
        } else if k == "no-subdir"@ {
            if parse_bool(v) is Some {
                Ok(CgOptModel { no_subdir: parse_bool(v), ..m })
            } else {
                Err(ParseError::InvalidValue)
            }
        } else {
            match policy_key(m.config, k, v) {
                None => Err(ParseError::UnknownKey),
                Some(None) => Err(ParseError::InvalidValue),
                Some(Some(c)) => Ok(CgOptModel { config: c, ..m }),
            }
        }
    }
}

pub open spec fn cg_pairs(pairs: Seq<Seq<char>>) -> Result<CgOptModel, ParseError>
    decreases pairs.len(),
{
    if pairs.len() == 0 {
        Ok(empty_cg())
    } else {
        match cg_pairs(pairs.drop_last()) {
            Err(e) => Err(e),
            Ok(m) => cg_pair(m, pairs.last()),
        }
    }
}

/// What a cgroup option string reads as.
pub open spec fn parse_cg(s: Seq<char>) -> Result<CgOptModel, ParseError> {
    match cg_pairs(split(s, ',')) {
        Err(e) => Err(e),
        Ok(m) => if m.path.len() == 0 { Err(ParseError::PathRequired) } else { Ok(m) },
    }
}

pub open spec fn pn_pair(m: SelectorModel, pair: Seq<char>) -> Result<SelectorModel, ParseError> {
    let parts = split(pair, '=');
    if parts.len() != 2 {
        Err(ParseError::InvalidPair)
    } else {
        let k = trim(parts[0]);
        let v = trim(parts[1]);
        if k == "path"@ {
            Ok(SelectorModel { path: v, ..m })
        } else if k == "numa-id"@ {
            match parse_numa(v) {
                Some(l) => Ok(SelectorModel { numa_id: l, ..m }),
                None => Err(ParseError::InvalidValue),
            }
        } else {
            Err(ParseError::UnknownKey)
        }
    }
}

pub open spec fn pn_pairs(pairs: Seq<Seq<char>>) -> Result<SelectorModel, ParseError>
    decreases pairs.len(),
{
    if pairs.len() == 0 {
        Ok(SelectorModel { path: Seq::empty(), numa_id: Seq::empty() })
    } else {
        match pn_pairs(pairs.drop_last()) {
            Err(e) => Err(e),
            Ok(m) => pn_pair(m, pairs.last()),
        }
    }
}

/// What a path-and-NUMA string reads as.
pub open spec fn parse_pn(s: Seq<char>) -> Result<SelectorModel, ParseError> {
    match pn_pairs(split(s, ',')) {
        Err(e) => Err(e),
        Ok(m) => if m.path.len() == 0 { Err(ParseError::PathRequired) } else { Ok(m) },
    }
}

/// Reads a NUMA list `a:b:c`, skipping empty pieces.
pub fn read_numa(v: &str) -> (r: Option<Vec<u32>>)
    ensures
        match parse_numa(v@) {
            Some(l) => r is Some && r->0@ == l,
            None => r is None,
        },
{
    let parts = split_at_char(v, ':');
    let ghost ps = parts@.map_values(|p: &str| p@);
    let mut out: Vec<u32> = Vec::new();
    let mut i: usize = 0;
    assert(ps.take(0) =~= Seq::<Seq<char>>::empty());
    while i < parts.len()
        invariant
            i <= parts.len(),
            ps == parts@.map_values(|p: &str| p@),
            ps == split(v@, ':'),
            numa_list(ps.take(i as int)) == Some(out@),
        decreases parts.len() - i,
    {
        assert(ps.take(i + 1).drop_last() =~= ps.take(i as int));
        assert(ps.take(i + 1).last() == parts@[i as int]@);
        let p = parts[i];
        if p.unicode_len() > 0 {
            match parse_uint(p, 0xffff_ffff) {
                None => {
                    proof {
                        lemma_numa_list_stays_none(ps, i as int + 1);
                    }
                    return None;
                },
                Some(x) => {
                    out.push(x as u32);
                },
            }
        }
        i += 1;
    }
    assert(ps.take(parts.len() as int) =~= ps);
    Some(out)
}

proof fn lemma_numa_list_stays_none(ps: Seq<Seq<char>>, k: int)
    requires
        0 <= k <= ps.len(),
        numa_list(ps.take(k)) is None,
    ensures
        numa_list(ps) is None,
    decreases ps.len() - k,
{
    if k < ps.len() {
        assert(ps.take(k + 1).drop_last() =~= ps.take(k));
        lemma_numa_list_stays_none(ps, k + 1);
    } else {
        assert(ps.take(k) =~= ps);
    }
}

fn read_u8(v: &str) -> (r: Option<u8>)
    ensures
        r == as_u8(parse_unsigned(v@, u8::MAX as nat)),
{
    match parse_uint(v, 255) {
        Some(x) => Some(x as u8),
        None => None,
    }
}

fn read_u64(v: &str) -> (r: Option<u64>)
    ensures
        r == as_u64(parse_unsigned(v@, u64::MAX as nat)),
{
    parse_uint(v, 0xffff_ffff_ffff_ffff)
}

/// Applies a policy key; `None` for an unknown key, `Some(None)` for a value
/// that does not read.
fn apply_policy_key(c: SingleOptionConfig, k: &str, v: &str) -> (r: Option<Option<SingleOptionConfig>>)
    ensures
        r == policy_key(c, k@, v@),
{
    if str_eq(k, "disabled") {
        let x = parse_boolean(v);
        Some(if x.is_some() { Some(SingleOptionConfig { disabled: x, ..c }) } else { None })
    } else if str_eq(k, "swap") {
        let x = parse_boolean(v);
        Some(if x.is_some() { Some(SingleOptionConfig { swap: x, ..c }) } else { None })
    } else if str_eq(k, "swappiness-max") {
        let x = read_u8(v);
        Some(if x.is_some() { Some(SingleOptionConfig { swappiness_max: x, ..c }) } else { None })
    } else if str_eq(k, "period-secs") {
        let x = read_u64(v);
        Some(if x.is_some() { Some(SingleOptionConfig { period_secs: x, ..c }) } else { None })
    } else if str_eq(k, "period-psi-percent-limit") {
        let x = read_u8(v);
        Some(if x.is_some() { Some(SingleOptionConfig { period_psi_percent_limit: x, ..c }) } else { None })
    } else if str_eq(k, "eviction-psi-percent-limit") {
        let x = read_u8(v);
        Some(if x.is_some() { Some(SingleOptionConfig { eviction_psi_percent_limit: x, ..c }) } else { None })
    } else if str_eq(k, "eviction-run-aging-count-min") {
        let x = read_u64(v);
        Some(if x.is_some() { Some(SingleOptionConfig { eviction_run_aging_count_min: x, ..c }) } else { None })
    } else {
        None
    }
}


fn owned(v: &str) -> (r: String)
    ensures
        r@ == v@,
{
    v.to_string()
}

impl CgroupMemcgSetOption {
    /// An option with no path, no NUMA nodes and every policy field unset.
    pub fn empty() -> (r: CgroupMemcgSetOption)
        ensures
            r@ == empty_cg(),
    {
        let r = CgroupMemcgSetOption {
            memcg_path: String::new(),
            memcg_numa_id: Vec::new(),
            memcg_disabled: None,
            memcg_swap: None,
            memcg_swappiness_max: None,
            memcg_period_secs: None,
            memcg_period_psi_percent_limit: None,
            memcg_eviction_psi_percent_limit: None,
            memcg_eviction_run_aging_count_min: None,
            no_subdir: None,
        };
        assert(r@.numa =~= Seq::<u32>::empty());
        r
    }

    fn set_policy(&mut self, c: SingleOptionConfig)
        ensures
            final(self)@ == (CgOptModel { config: c, ..old(self)@ }),
    {
        self.memcg_disabled = c.disabled;
        self.memcg_swap = c.swap;
        self.memcg_swappiness_max = c.swappiness_max;
        self.memcg_period_secs = c.period_secs;
        self.memcg_period_psi_percent_limit = c.period_psi_percent_limit;
        self.memcg_eviction_psi_percent_limit = c.eviction_psi_percent_limit;
        self.memcg_eviction_run_aging_count_min = c.eviction_run_aging_count_min;
    }

    fn policy(&self) -> (r: SingleOptionConfig)
        ensures
            r == self@.config,
    {
        SingleOptionConfig {
            disabled: self.memcg_disabled,
            swap: self.memcg_swap,
            swappiness_max: self.memcg_swappiness_max,
            period_secs: self.memcg_period_secs,
            period_psi_percent_limit: self.memcg_period_psi_percent_limit,
            eviction_psi_percent_limit: self.memcg_eviction_psi_percent_limit,
            eviction_run_aging_count_min: self.memcg_eviction_run_aging_count_min,
        }
    }

    fn apply_pair(&mut self, pair: &str) -> (r: Result<(), ParseError>)
        ensures
            match cg_pair(old(self)@, pair@) {
                Ok(m) => r is Ok && final(self)@ == m,
                Err(e) => r == Err::<(), ParseError>(e),
            },
    {
        let parts = split_at_char(pair, '=');
        if parts.len() != 2 {
            return Err(ParseError::InvalidPair);
        }
        assert(parts@[0]@ == split(pair@, '=')[0]);
        assert(parts@[1]@ == split(pair@, '=')[1]);
        let key = trim_ws(parts[0]);
        let value = trim_ws(parts[1]);
        if str_eq(key, "path") {
            self.memcg_path = owned(value);
            Ok(())
        } else if str_eq(key, "numa-id") {
            match read_numa(value) {
                Some(l) => {
                    self.memcg_numa_id = l;
                    Ok(())
                },
                None => Err(ParseError::InvalidValue),
            }
        } else if str_eq(key, "no-subdir") {
            let x = parse_boolean(value);
            if x.is_some() {
                self.no_subdir = x;
                Ok(())
            } else {
                Err(ParseError::InvalidValue)
            }
        } else {
            match apply_policy_key(self.policy(), key, value) {
                None => Err(ParseError::UnknownKey),
                Some(None) => Err(ParseError::InvalidValue),
                Some(Some(c)) => {
                    self.set_policy(c);
                    Ok(())
                },
            }
        }
    }

    /// Reads `key=value` pieces separated by commas. Keys are `path`,
    /// `numa-id` (nodes separated by `:`), `disabled`, `swap`,
    /// `swappiness-max`, `period-secs`, `period-psi-percent-limit`,
    /// `eviction-psi-percent-limit`, `eviction-run-aging-count-min` and
    /// `no-subdir`; keys and values are trimmed, a later key wins, and a
    /// non-empty path is required.
    pub fn parse(s: &str) -> (r: Result<CgroupMemcgSetOption, ParseError>)
        ensures
            match parse_cg(s@) {
                Ok(m) => r is Ok && r->Ok_0@ == m,
                Err(e) => r is Err && r->Err_0 == e,
            },
    {
        let pairs = split_at_char(s, ',');
        let ghost ps = pairs@.map_values(|p: &str| p@);
        let mut cg = CgroupMemcgSetOption::empty();
        let mut i: usize = 0;
        assert(ps.take(0) =~= Seq::<Seq<char>>::empty());
        while i < pairs.len()
            invariant
                i <= pairs.len(),
                ps == pairs@.map_values(|p: &str| p@),
                ps == split(s@, ','),
                cg_pairs(ps.take(i as int)) == Ok::<CgOptModel, ParseError>(cg@),
            decreases pairs.len() - i,
        {
            assert(ps.take(i + 1).drop_last() =~= ps.take(i as int));
            assert(ps.take(i + 1).last() == pairs@[i as int]@);
            match cg.apply_pair(pairs[i]) {
                Ok(()) => {},
                Err(e) => {
                    proof {
                        lemma_cg_pairs_stays_err(ps, i as int + 1, e);
                    }
                    return Err(e);
                },
            }
            i += 1;
        }
        assert(ps.take(pairs.len() as int) =~= ps);
        if cg.memcg_path.unicode_len() == 0 {
            return Err(ParseError::PathRequired);
        }
        Ok(cg)
    }

    /// This option as a cgroup item of a configuration change.
    pub fn to_rpc_memcg_config_item(&self) -> (r: CgroupOptionConfig)
        ensures
            r@ == item_of(self@),
    {
        CgroupOptionConfig {
            path: self.memcg_path.clone(),
            numa_id: copy_u32s(&self.memcg_numa_id),
            no_subdir: self.no_subdir,
            config: self.policy(),
        }
    }
}

pub open spec fn item_of(m: CgOptModel) -> CgroupItemModel {
    CgroupItemModel { path: m.path, numa_id: m.numa, no_subdir: m.no_subdir, config: m.config }
}

fn copy_u32s(v: &Vec<u32>) -> (r: Vec<u32>)
    ensures
        r@ == v@,
{
    let mut r: Vec<u32> = Vec::new();
    let mut i: usize = 0;
    while i < v.len()
        invariant
            i <= v.len(),
            r@ == v@.take(i as int),
        decreases v.len() - i,
    {
        r.push(v[i]);
        i += 1;
        assert(r@ =~= v@.take(i as int));
    }
    assert(v@.take(v.len() as int) =~= v@);
    r
}

proof fn lemma_cg_pairs_stays_err(ps: Seq<Seq<char>>, k: int, e: ParseError)
    requires
        0 <= k <= ps.len(),
        cg_pairs(ps.take(k)) == Err::<CgOptModel, ParseError>(e),
    ensures
        cg_pairs(ps) == Err::<CgOptModel, ParseError>(e),
    decreases ps.len() - k,
{
    if k < ps.len() {
        assert(ps.take(k + 1).drop_last() =~= ps.take(k));
        lemma_cg_pairs_stays_err(ps, k + 1, e);
    } else {
        assert(ps.take(k) =~= ps);
    }
}

proof fn lemma_pn_pairs_stays_err(ps: Seq<Seq<char>>, k: int, e: ParseError)
    requires
        0 <= k <= ps.len(),
        pn_pairs(ps.take(k)) == Err::<SelectorModel, ParseError>(e),
    ensures
        pn_pairs(ps) == Err::<SelectorModel, ParseError>(e),
    decreases ps.len() - k,
{
    if k < ps.len() {
        assert(ps.take(k + 1).drop_last() =~= ps.take(k));
        lemma_pn_pairs_stays_err(ps, k + 1, e);
    } else {
        assert(ps.take(k) =~= ps);
    }
}

impl std::str::FromStr for CgroupMemcgSetOption {
    type Err = ParseError;

    fn from_str(s: &str) -> Result<CgroupMemcgSetOption, ParseError> {
        CgroupMemcgSetOption::parse(s)
    }
}

impl PathNuma {
    fn apply_pair(&mut self, pair: &str) -> (r: Result<(), ParseError>)
        ensures
            match pn_pair(old(self)@, pair@) {
                Ok(m) => r is Ok && final(self)@ == m,
                Err(e) => r == Err::<(), ParseError>(e),
            },
    {
        let parts = split_at_char(pair, '=');
        if parts.len() != 2 {
            return Err(ParseError::InvalidPair);
        }
        assert(parts@[0]@ == split(pair@, '=')[0]);
        assert(parts@[1]@ == split(pair@, '=')[1]);
        let key = trim_ws(parts[0]);
        let value = trim_ws(parts[1]);
        if str_eq(key, "path") {
            self.path = owned(value);
            Ok(())
        } else if str_eq(key, "numa-id") {
            match read_numa(value) {
                Some(l) => {
                    self.numa = l;
                    Ok(())
                },
                None => Err(ParseError::InvalidValue),
            }
        } else {
            Err(ParseError::UnknownKey)
        }
    }

    /// Reads `path=...` and `numa-id=a:b` pieces separated by commas; a
    /// non-empty path is required.
    pub fn parse(s: &str) -> (r: Result<PathNuma, ParseError>)
        ensures
            match parse_pn(s@) {
                Ok(m) => r is Ok && r->Ok_0@ == m,
                Err(e) => r is Err && r->Err_0 == e,
            },
    {
        let pairs = split_at_char(s, ',');
        let ghost ps = pairs@.map_values(|p: &str| p@);
        let mut pn = PathNuma { path: String::new(), numa: Vec::new() };
        let mut i: usize = 0;
        assert(ps.take(0) =~= Seq::<Seq<char>>::empty());
        assert(pn@.numa_id =~= Seq::<u32>::empty());
        while i < pairs.len()
            invariant
                i <= pairs.len(),
                ps == pairs@.map_values(|p: &str| p@),
                ps == split(s@, ','),
                pn_pairs(ps.take(i as int)) == Ok::<SelectorModel, ParseError>(pn@),
            decreases pairs.len() - i,
        {
            assert(ps.take(i + 1).drop_last() =~= ps.take(i as int));
            assert(ps.take(i + 1).last() == pairs@[i as int]@);
            match pn.apply_pair(pairs[i]) {
                Ok(()) => {},
                Err(e) => {
                    proof {
                        lemma_pn_pairs_stays_err(ps, i as int + 1, e);
                    }
                    return Err(e);
                },
            }
            i += 1;
        }
        assert(ps.take(pairs.len() as int) =~= ps);
        if pn.path.unicode_len() == 0 {
            return Err(ParseError::PathRequired);
        }
        Ok(pn)
    }

    /// This option as a deletion selector of a configuration change.
    pub fn to_rpc_path_numa(&self) -> (r: PathNumaSelector)
        ensures
            r@ == self@,
    {
        PathNumaSelector { path: self.path.clone(), numa_id: copy_u32s(&self.numa) }
    }
}

impl std::str::FromStr for PathNuma {
    type Err = ParseError;

    fn from_str(s: &str) -> Result<PathNuma, ParseError> {
        PathNuma::parse(s)
    }
}


fn items_of(v: &Vec<CgroupMemcgSetOption>) -> (r: Vec<CgroupOptionConfig>)
    ensures
        r@.map_values(|c: CgroupOptionConfig| c@) == v@.map_values(|c: CgroupMemcgSetOption| item_of(c@)),
{
    let mut r: Vec<CgroupOptionConfig> = Vec::new();
    let mut i: usize = 0;
    while i < v.len()
        invariant
            i <= v.len(),
            r@.map_values(|c: CgroupOptionConfig| c@) == v@.take(i as int).map_values(
                |c: CgroupMemcgSetOption| item_of(c@),
            ),
        decreases v.len() - i,
    {
        let ghost before = r@;
        r.push(v[i].to_rpc_memcg_config_item());
        assert(r@.map_values(|c: CgroupOptionConfig| c@) =~= before.map_values(|c: CgroupOptionConfig| c@).push(item_of(v@[i as int]@)));
        i += 1;
        assert(v@.take(i as int).map_values(|c: CgroupMemcgSetOption| item_of(c@)) =~= v@.take(i - 1).map_values(
            |c: CgroupMemcgSetOption| item_of(c@),
        ).push(item_of(v@[i - 1]@)));
    }
    assert(v@.take(v.len() as int) =~= v@);
    r
}

/// The memory-cgroup options given at startup.
pub struct MemcgSetupOption {
    pub memcg_disabled: Option<bool>,
    pub memcg_swap: Option<bool>,
    pub memcg_swappiness_max: Option<u8>,
    pub memcg_period_secs: Option<u64>,
    pub memcg_period_psi_percent_limit: Option<u8>,
    pub memcg_eviction_psi_percent_limit: Option<u8>,
    pub memcg_eviction_run_aging_count_min: Option<u64>,
    pub memcg_cgroups: Vec<CgroupMemcgSetOption>,
}

impl MemcgSetupOption {
    pub open spec fn default_options(&self) -> SingleOptionConfig {
        SingleOptionConfig {
            disabled: self.memcg_disabled,
            swap: self.memcg_swap,
            swappiness_max: self.memcg_swappiness_max,
            period_secs: self.memcg_period_secs,
            period_psi_percent_limit: self.memcg_period_psi_percent_limit,
            eviction_psi_percent_limit: self.memcg_eviction_psi_percent_limit,
            eviction_run_aging_count_min: self.memcg_eviction_run_aging_count_min,
        }
    }

    /// The startup configuration: the given default fields over the built-in
    /// default, and one cgroup item per cgroup option, in order.
    pub fn to_mem_agent_memcg_config(&self) -> (r: Config)
        ensures
            r.default == overlay(self.default_options(), default_single_config()),
            r.cgroups@.map_values(|c: CgroupOptionConfig| c@) == self.memcg_cgroups@.map_values(
                |c: CgroupMemcgSetOption| item_of(c@),
            ),
    {
        let opts = SingleOptionConfig {
            disabled: self.memcg_disabled,
            swap: self.memcg_swap,
            swappiness_max: self.memcg_swappiness_max,
            period_secs: self.memcg_period_secs,
            period_psi_percent_limit: self.memcg_period_psi_percent_limit,
            eviction_psi_percent_limit: self.memcg_eviction_psi_percent_limit,
            eviction_run_aging_count_min: self.memcg_eviction_run_aging_count_min,
        };
        let base = SingleConfig::default();
        Config { default: opts.resolve(&base), cgroups: items_of(&self.memcg_cgroups) }
    }
}

/// A memory-cgroup configuration change as given to the control tool.
pub struct MemcgSetOption {
    pub memcg_disabled: Option<bool>,
    pub memcg_swap: Option<bool>,
    pub memcg_swappiness_max: Option<u8>,
    pub memcg_period_secs: Option<u64>,
    pub memcg_period_psi_percent_limit: Option<u8>,
    pub memcg_eviction_psi_percent_limit: Option<u8>,
    pub memcg_eviction_run_aging_count_min: Option<u64>,
    pub memcg_add: Vec<CgroupMemcgSetOption>,
    pub memcg_set: Vec<CgroupMemcgSetOption>,
    pub memcg_del: Vec<PathNuma>,
}

impl MemcgSetOption {
    pub open spec fn default_options(&self) -> SingleOptionConfig {
        SingleOptionConfig {
            disabled: self.memcg_disabled,
            swap: self.memcg_swap,
            swappiness_max: self.memcg_swappiness_max,
            period_secs: self.memcg_period_secs,
            period_psi_percent_limit: self.memcg_period_psi_percent_limit,
            eviction_psi_percent_limit: self.memcg_eviction_psi_percent_limit,
            eviction_run_aging_count_min: self.memcg_eviction_run_aging_count_min,
        }
    }

    /// The configuration change these options describe.
    pub fn to_rpc_memcg_config(&self) -> (r: OptionConfig)
        ensures
            r@.default == self.default_options(),
            r@.add == self.memcg_add@.map_values(|c: CgroupMemcgSetOption| item_of(c@)),
            r@.set == self.memcg_set@.map_values(|c: CgroupMemcgSetOption| item_of(c@)),
            r@.del == self.memcg_del@.map_values(|d: PathNuma| d@),
    {
        let mut del: Vec<PathNumaSelector> = Vec::new();
        let mut i: usize = 0;
        while i < self.memcg_del.len()
            invariant
                i <= self.memcg_del.len(),
                del@.map_values(|d: PathNumaSelector| d@) == self.memcg_del@.take(i as int).map_values(
                    |d: PathNuma| d@,
                ),
            decreases self.memcg_del.len() - i,
        {
            let ghost before = del@;
            del.push(self.memcg_del[i].to_rpc_path_numa());
            assert(del@.map_values(|d: PathNumaSelector| d@) =~= before.map_values(|d: PathNumaSelector| d@).push(
                self.memcg_del@[i as int]@,
            ));
            i += 1;
            assert(self.memcg_del@.take(i as int).map_values(|d: PathNuma| d@) =~= self.memcg_del@.take(
                i - 1,
            ).map_values(|d: PathNuma| d@).push(self.memcg_del@[i - 1]@));
        }
        assert(self.memcg_del@.take(self.memcg_del.len() as int) =~= self.memcg_del@);
        OptionConfig {
            default: SingleOptionConfig {
                disabled: self.memcg_disabled,
                swap: self.memcg_swap,
                swappiness_max: self.memcg_swappiness_max,
                period_secs: self.memcg_period_secs,
                period_psi_percent_limit: self.memcg_period_psi_percent_limit,
                eviction_psi_percent_limit: self.memcg_eviction_psi_percent_limit,
                eviction_run_aging_count_min: self.memcg_eviction_run_aging_count_min,
            },
            add: items_of(&self.memcg_add),
            set: items_of(&self.memcg_set),
            del,
        }
    }
}

/// Compaction options as given at startup or to the control tool.
pub struct CompactSetOption {
    pub compact_disabled: Option<bool>,
    pub compact_period_secs: Option<u64>,
    pub compact_period_psi_percent_limit: Option<u8>,
    pub compact_psi_percent_limit: Option<u8>,
    pub compact_sec_max: Option<i64>,
    pub compact_order: Option<u8>,
    pub compact_threshold: Option<u64>,
    pub compact_force_times: Option<u64>,
}

impl CompactSetOption {
    pub open spec fn options(&self) -> CompactOptionConfig {
        CompactOptionConfig {
            disabled: self.compact_disabled,
            period_secs: self.compact_period_secs,
            period_psi_percent_limit: self.compact_period_psi_percent_limit,
            compact_psi_percent_limit: self.compact_psi_percent_limit,
            compact_sec_max: self.compact_sec_max,
            compact_order: self.compact_order,
            compact_threshold: self.compact_threshold,
            compact_force_times: self.compact_force_times,
        }
    }

    /// The partial compaction policy these options describe.
    pub fn to_rpc_compact_config(&self) -> (r: CompactOptionConfig)
        ensures
            r == self.options(),
    {
        CompactOptionConfig {
            disabled: self.compact_disabled,
            period_secs: self.compact_period_secs,
            period_psi_percent_limit: self.compact_period_psi_percent_limit,
            compact_psi_percent_limit: self.compact_psi_percent_limit,
            compact_sec_max: self.compact_sec_max,
            compact_order: self.compact_order,
            compact_threshold: self.compact_threshold,
            compact_force_times: self.compact_force_times,
        }
    }

    /// The compaction policy: the given fields over the built-in default.
    pub fn to_mem_agent_compact_config(&self) -> (r: CompactConfig)
        ensures
            r == overlay_compact(self.options(), default_compact_config()),
    {
        let base = CompactConfig::default();
        self.to_rpc_compact_config().resolve(&base)
    }
}

} // verus!
