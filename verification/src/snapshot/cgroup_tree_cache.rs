//! Cache of cgroup limits keyed by cgroup path: the processes of one cgroup
//! share its limits, so each path's limit files are read once per
//! time-to-live rather than once per process.

use std::time::{Duration, Instant};

use vstd::prelude::*;

use crate::clock::{expired, expired_at};
use crate::files::{join_path, join_text, path_exists, present_ok, reader_ok, shows};
use crate::snapshot::cgroup::{limits_read, read_limits_in};
use crate::snapshot::host::now;
use crate::text::{
    chars_of, equals_in, last_index_of, lemma_last_index_of_is, push_str, rfind_char_in,
    skip_char_in, split_on, split_ranges, string_of, trim_start,
};

verus! {

/// Limits of one cgroup; 0 means "no limit".
#[derive(Clone, Copy, Debug)]
pub struct CgroupLimits {
    pub memory_limit_bytes: u64,
    pub cpu_quota_us: u64,
    pub cpu_period_us: u64,
    pub pids_limit: u64,
}

/// No limit at all.
pub open spec fn unlimited() -> CgroupLimits {
    CgroupLimits { memory_limit_bytes: 0, cpu_quota_us: 0, cpu_period_us: 0, pids_limit: 0 }
}

impl Default for CgroupLimits {
    fn default() -> (r: Self)
        ensures
            r == unlimited(),
    {
        CgroupLimits { memory_limit_bytes: 0, cpu_quota_us: 0, cpu_period_us: 0, pids_limit: 0 }
    }
}

/// The limits of a process that is in no cgroup: none.
pub fn no_limits() -> (r: CgroupLimits)
    ensures
        r == unlimited(),
{
    CgroupLimits::default()
}

/// The components of a cgroup path that are kept: those of the path without
/// its leading `/`, less the `.` and `..` ones.
pub open spec fn kept_parts(path: Seq<char>) -> Seq<Seq<char>> {
    split_on(trim_start(path, '/'), '/').filter(|x: Seq<char>| x != ".."@ && x != "."@)
}

/// Components joined with `/`.
pub open spec fn join_parts(parts: Seq<Seq<char>>) -> Seq<char>
    decreases parts.len(),
{
    if parts.len() == 0 {
        Seq::empty()
    } else if parts.len() == 1 {
        parts[0]
    } else {
        join_parts(parts.drop_last()) + seq!['/'] + parts.last()
    }
}

/// A cgroup path made relative and stripped of `.` and `..` components.
pub open spec fn normalized(path: Seq<char>) -> Seq<char> {
    join_parts(kept_parts(path))
}

proof fn lemma_filter_step(s: Seq<Seq<char>>, k: int, pred: spec_fn(Seq<char>) -> bool)
    requires
        0 <= k < s.len(),
    ensures
        s.take(k + 1).filter(pred) == if pred(s[k]) {
            s.take(k).filter(pred).push(s[k])
        } else {
            s.take(k).filter(pred)
        },
{
    reveal(Seq::filter);
    let t = s.take(k + 1);
    assert(t.drop_last() =~= s.take(k));
    assert(t.last() == s[k]);
    assert(t.len() > 0);
}

/// Normalizes a cgroup path.
pub fn normalize(path: &str) -> (r: String)
    ensures
        r@ == normalized(path@),
{
    let v = chars_of(path);
    let n = v.len();
    let start = skip_char_in(&v, 0, n, '/');
    assert(v@.subrange(0, n as int) =~= v@);
    let pieces = split_ranges(&v, start, n, '/');
    let ghost ps = split_on(trim_start(path@, '/'), '/');
    let ghost pred = |x: Seq<char>| x != ".."@ && x != "."@;
    let dots = chars_of("..");
    let dot = chars_of(".");
    let mut out = String::new();
    let mut kept: usize = 0;
    let mut k: usize = 0;
    proof {
        reveal(Seq::filter);
        assert(ps.take(0).filter(pred) =~= Seq::<Seq<char>>::empty());
    }
    while k < pieces.len()
        invariant
            k <= pieces@.len(),
            ps == split_on(trim_start(path@, '/'), '/'),
            v@ == path@,
            dots@ == ".."@,
            dot@ == "."@,
            pred == (|x: Seq<char>| x != ".."@ && x != "."@),
            crate::text::ranges_select(v@, pieces@, ps),
            kept == ps.take(k as int).filter(pred).len(),
            out@ == join_parts(ps.take(k as int).filter(pred)),
        decreases pieces@.len() - k,
    {
        let (a, b) = pieces[k];
        let ghost x = ps[k as int];
        assert(v@.subrange(a as int, b as int) == x);
        proof {
            lemma_filter_step(ps, k as int, pred);
        }
        let keep = !equals_in(&v, a, b, &dots) && !equals_in(&v, a, b, &dot);
        assert(keep == pred(x));
        if keep {
            let ghost before = ps.take(k as int).filter(pred);
            if kept > 0 {
                crate::text::push_char(&mut out, '/');
            }
            let piece = string_of(&v, a, b);
            push_str(&mut out, piece.as_str());
            proof {
                let after = ps.take(k + 1).filter(pred);
                assert(after == before.push(x));
                assert(after.drop_last() =~= before);
                if before.len() == 0 {
                    assert(out@ =~= join_parts(after));
                } else {
                    assert(out@ =~= join_parts(after));
                }
            }
            kept = kept + 1;
        }
        k = k + 1;
    }
    assert(ps.take(k as int) =~= ps);
    out
}

/// The last component of a path: what follows its last `/`.
pub open spec fn leaf_of(p: Seq<char>) -> Seq<char> {
    p.subrange(last_index_of(p, '/') + 1, p.len() as int)
}

fn leaf(p: &str) -> (r: String)
    ensures
        r@ == leaf_of(p@),
{
    let v = chars_of(p);
    let n = v.len();
    match rfind_char_in(&v, 0, n, '/') {
        Some(i) => {
            proof {
                lemma_last_index_of_is(v@, '/', i as int);
            }
            string_of(&v, i + 1, n)
        },
        None => {
            proof {
                lemma_last_index_of_is(v@, '/', -1);
            }
            string_of(&v, 0, n)
        },
    }
}

/// A directory holds cgroup limits: `present` found it, and found its
/// `memory.max` or else its `cpu.max`.
pub open spec fn holds_limits<E: Fn(&str) -> bool>(present: E, dir: Seq<char>) -> bool {
    shows(present, dir, true) && (shows(present, join_text(dir, "memory.max"@), true) || shows(
        present,
        join_text(dir, "cpu.max"@),
        true,
    ))
}

/// A directory showed no cgroup limits: `present` did not find it, or found
/// neither of its limit files.
pub open spec fn lacks_limits<E: Fn(&str) -> bool>(present: E, dir: Seq<char>) -> bool {
    shows(present, dir, false) || (shows(present, join_text(dir, "memory.max"@), false) && shows(
        present,
        join_text(dir, "cpu.max"@),
        false,
    ))
}

fn has_limit_files<E: Fn(&str) -> bool>(dir: &String, present: &E) -> (b: bool)
    requires
        present_ok(*present),
    ensures
        b ==> holds_limits(*present, dir@),
        !b ==> lacks_limits(*present, dir@),
{
    if !path_exists(present, dir) {
        return false;
    }
    let m = join_path(dir.as_str(), "memory.max");
    if path_exists(present, &m) {
        return true;
    }
    let c = join_path(dir.as_str(), "cpu.max");
    path_exists(present, &c)
}

/// The slices under which a cgroup that is not found at its own path is
/// looked for.
pub open spec fn parent_slice(i: int) -> Seq<char> {
    if i == 0 {
        "system.slice"@
    } else if i == 1 {
        "user.slice"@
    } else if i == 2 {
        "machine.slice"@
    } else {
        "init.scope"@
    }
}

/// The directory of the cgroup `path` under `base` that holds its limits:
/// the normalized path under `base` when it holds limits; else the first
/// slice directory (system, user, machine, init) holding the path's last
/// component that does; else the normalized path under `base`.
pub open spec fn dir_chosen<E: Fn(&str) -> bool>(
    present: E,
    base: Seq<char>,
    path: Seq<char>,
    r: Seq<char>,
) -> bool {
    let direct = join_text(base, normalized(path));
    ||| r == direct && holds_limits(present, direct)
    ||| exists|i: int|
        0 <= i < 4 && r == #[trigger] slice_dir(base, path, i) && lacks_limits(present, direct)
            && holds_limits(present, slice_dir(base, path, i)) && forall|j: int|
            0 <= j < i ==> lacks_limits(present, #[trigger] slice_dir(base, path, j))
    ||| r == direct && lacks_limits(present, direct) && forall|j: int|
        0 <= j < 4 ==> lacks_limits(present, #[trigger] slice_dir(base, path, j))
}

/// The directory of the last component of the cgroup `path` under the
/// `i`-th slice of `base`.
pub open spec fn slice_dir(base: Seq<char>, path: Seq<char>, i: int) -> Seq<char> {
    join_text(join_text(base, parent_slice(i)), leaf_of(normalized(path)))
}

fn slice_name(i: usize) -> (s: &'static str)
    requires
        i < 4,
    ensures
        s@ == parent_slice(i as int),
{
    if i == 0 {
        "system.slice"
    } else if i == 1 {
        "user.slice"
    } else if i == 2 {
        "machine.slice"
    } else {
        "init.scope"
    }
}

/// Finds the directory under `base` that holds the limits of the cgroup
/// `cgroup_path`.
pub fn find_cgroup_dir<E: Fn(&str) -> bool>(base: &str, cgroup_path: &str, present: &E) -> (r: String)
    requires
        present_ok(*present),
    ensures
        dir_chosen(*present, base@, cgroup_path@, r@),
{
    let norm = normalize(cgroup_path);
    let direct = join_path(base, norm.as_str());
    if has_limit_files(&direct, present) {
        return direct;
    }
    let lf = leaf(norm.as_str());
    let mut i: usize = 0;
    while i < 4
        invariant
            i <= 4,
            present_ok(*present),
            lf@ == leaf_of(normalized(cgroup_path@)),
            lacks_limits(*present, join_text(base@, normalized(cgroup_path@))),
            direct@ == join_text(base@, normalized(cgroup_path@)),
            forall|j: int| 0 <= j < i ==> lacks_limits(*present, #[trigger] slice_dir(base@, cgroup_path@, j)),
        decreases 4 - i,
    {
        let parent = join_path(base, slice_name(i));
        let candidate = join_path(parent.as_str(), lf.as_str());
        assert(candidate@ == slice_dir(base@, cgroup_path@, i as int));
        if has_limit_files(&candidate, present) {
            return candidate;
        }
        i = i + 1;
    }
    direct
}

/// Reads the limits of the cgroup `cgroup_path`.
fn read_cgroup_limits<F: Fn(&str) -> Option<String>, E: Fn(&str) -> bool>(
    cgroup_path: &str,
    read: &F,
    present: &E,
) -> (l: CgroupLimits)
    requires
        reader_ok(*read),
        present_ok(*present),
    ensures
        cgroup_limits_read(*read, *present, cgroup_path@, l),
{
    let dir = find_cgroup_dir("/sys/fs/cgroup", cgroup_path, present);
    let (memory_limit_bytes, cpu_quota_us, cpu_period_us, pids_limit) = read_limits_in(&dir, read);
    CgroupLimits { memory_limit_bytes, cpu_quota_us, cpu_period_us, pids_limit }
}

/// `l` is what reading the limits of the cgroup `path` through `read` gives,
/// `present` telling which directory holds them:
/// the limit files of the directory chosen for it.
pub open spec fn cgroup_limits_read<F: Fn(&str) -> Option<String>, E: Fn(&str) -> bool>(
    read: F,
    present: E,
    path: Seq<char>,
    l: CgroupLimits,
) -> bool {
    exists|dir: Seq<char>|
        dir_chosen(present, "/sys/fs/cgroup"@, path, dir) && limits_read(
            read,
            dir,
            (l.memory_limit_bytes, l.cpu_quota_us, l.cpu_period_us, l.pids_limit),
        )
}

/// A lookup of the cgroup `path` in the cache `before`, counting its entry
/// as `stale` or not, that returned `r` and left `after`: a fresh cached
/// entry is served as it is, the cache unchanged; a stale or missing one is
/// read afresh through `read` and `present` and cached for the path.
pub open spec fn limits_refreshed<F: Fn(&str) -> Option<String>, E: Fn(&str) -> bool>(
    read: F,
    present: E,
    before: Map<Seq<char>, CgroupLimits>,
    after: Map<Seq<char>, CgroupLimits>,
    path: Seq<char>,
    stale: bool,
    r: Option<CgroupLimits>,
) -> bool {
    if !stale && before.contains_key(path) {
        after == before && r == Some(before[path])
    } else {
        r matches Some(l) && cgroup_limits_read(read, present, path, l) && after == before.insert(path, l)
    }
}

/// One cached cgroup.
struct CgroupSlot {
    path: String,
    limits: CgroupLimits,
    loaded_at: Instant,
}

spec fn slots_wf(s: Seq<CgroupSlot>) -> bool {
    forall|i: int, j: int| 0 <= i < j < s.len() ==> (#[trigger] s[i]).path@ != (#[trigger] s[j]).path@
}

spec fn has_path(s: Seq<CgroupSlot>, p: Seq<char>) -> bool {
    exists|i: int| 0 <= i < s.len() && (#[trigger] s[i]).path@ == p
}

spec fn limits_at(s: Seq<CgroupSlot>, p: Seq<char>) -> CgroupLimits {
    s[choose|i: int| 0 <= i < s.len() && (#[trigger] s[i]).path@ == p].limits
}

spec fn loaded_at_of(s: Seq<CgroupSlot>, p: Seq<char>) -> Instant {
    s[choose|i: int| 0 <= i < s.len() && (#[trigger] s[i]).path@ == p].loaded_at
}

proof fn lemma_slot_at(s: Seq<CgroupSlot>, j: int)
    requires
        slots_wf(s),
        0 <= j < s.len(),
    ensures
        has_path(s, s[j].path@),
        limits_at(s, s[j].path@) == s[j].limits,
        loaded_at_of(s, s[j].path@) == s[j].loaded_at,
{
    let p = s[j].path@;
    assert(has_path(s, p));
    let c = choose|i: int| 0 <= i < s.len() && (#[trigger] s[i]).path@ == p;
    if c < j {
        assert(s[c].path@ != s[j].path@);
    } else if c > j {
        assert(s[j].path@ != s[c].path@);
    }
}

fn find_slot(s: &Vec<CgroupSlot>, path: &String) -> (r: Option<usize>)
    ensures
        match r {
            Some(j) => j < s@.len() && s@[j as int].path@ == path@,
            None => !has_path(s@, path@),
        },
{
    let mut j: usize = 0;
    while j < s.len()
        invariant
            j <= s@.len(),
            forall|k: int| 0 <= k < j ==> (#[trigger] s@[k]).path@ != path@,
        decreases s@.len() - j,
    {
        if s[j].path == *path {
            return Some(j);
        }
        j = j + 1;
    }
    None
}

/// Cache of cgroup limits keyed by cgroup path.
pub struct CgroupTreeCache {
    slots: Vec<CgroupSlot>,
    ttl: Duration,
    /// Number of distinct cgroup paths cached since the cache was made (a
    /// path loaded again after an invalidation counts again).
    pub total_paths_seen: u64,
}

impl View for CgroupTreeCache {
    type V = Map<Seq<char>, CgroupLimits>;

    closed spec fn view(&self) -> Map<Seq<char>, CgroupLimits> {
        Map::new(|p: Seq<char>| has_path(self.slots@, p), |p: Seq<char>| limits_at(self.slots@, p))
    }
}

impl CgroupTreeCache {
    /// Each path is cached once.
    pub closed spec fn wf(&self) -> bool {
        slots_wf(self.slots@)
    }

    /// When the limits of the cached path `p` were read.
    pub closed spec fn loaded_time(&self, p: Seq<char>) -> Instant {
        loaded_at_of(self.slots@, p)
    }

    /// Time after which a path's limits are read again.
    pub closed spec fn ttl(&self) -> Duration {
        self.ttl
    }

    /// The count of distinct paths cached since the cache was made.
    pub closed spec fn seen(&self) -> u64 {
        self.total_paths_seen
    }

    /// An empty cache whose entries live for `ttl`.
    pub fn new(ttl: Duration) -> (c: Self)
        ensures
            c.wf(),
            c@ == Map::<Seq<char>, CgroupLimits>::empty(),
            c.seen() == 0,
            c.ttl() == ttl,
    {
        let c = CgroupTreeCache { slots: Vec::new(), ttl, total_paths_seen: 0 };
        assert(c@ =~= Map::<Seq<char>, CgroupLimits>::empty());
        c
    }

    /// Returns the limits of the cgroup `cgroup_path`: the cached ones when
    /// the path is cached and not `stale`, else read afresh and cached;
    /// `None` for a process in no cgroup (`None` path).
    pub fn refresh<F: Fn(&str) -> Option<String>, E: Fn(&str) -> bool>(
        &mut self,
        cgroup_path: &Option<String>,
        stale: bool,
        read: &F,
        present: &E,
    ) -> (r: Option<CgroupLimits>)
        requires
            old(self).wf(),
            reader_ok(*read),
            present_ok(*present),
            old(self).seen() < u64::MAX,
        ensures
            final(self).wf(),
            final(self).ttl() == old(self).ttl(),
            match cgroup_path {
                None => r is None && final(self)@ == old(self)@ && final(self).seen()
                    == old(self).seen(),
                Some(p) => limits_refreshed(*read, *present, old(self)@, final(self)@, p@, stale, r) && final(self).seen()
                    == old(self).seen() + (if old(self)@.contains_key(p@) {
                    0int
                } else {
                    1int
                }),
            },
    {
        let path = match cgroup_path {
            Some(p) => p,
            None => {
                return None;
            },
        };
        let ghost s0 = self.slots@;
        let idx = find_slot(&self.slots, path);
        if !stale && idx.is_some() {
            let j = idx.unwrap();
            proof {
                lemma_slot_at(s0, j as int);
            }
            return Some(self.slots[j].limits);
        }
        proof {
            if idx.is_some() {
                lemma_slot_at(s0, idx->0 as int);
            }
        }
        let limits = read_cgroup_limits(path.as_str(), read, present);
        let slot = CgroupSlot { path: path.clone(), limits, loaded_at: now() };
        match idx {
            Some(j) => {
                self.slots.set(j, slot);
                proof {
                    lemma_slot_at(s0, j as int);
                    assert forall|a: int, b: int| 0 <= a < b < self.slots@.len() implies (
                    #[trigger] self.slots@[a]).path@ != (#[trigger] self.slots@[b]).path@ by {
                        assert(self.slots@[a].path@ == s0[a].path@);
                        assert(self.slots@[b].path@ == s0[b].path@);
                    }
                    assert forall|q: Seq<char>| has_path(self.slots@, q) == has_path(s0, q) by {
                        if has_path(s0, q) {
                            let c = choose|i: int| 0 <= i < s0.len() && (#[trigger] s0[i]).path@ == q;
                            assert(self.slots@[c].path@ == q);
                        }
                        if has_path(self.slots@, q) {
                            let c = choose|i: int| 0 <= i < self.slots@.len() && (
                            #[trigger] self.slots@[i]).path@ == q;
                            assert(s0[c].path@ == q);
                        }
                    }
                    assert forall|q: Seq<char>| has_path(s0, q) implies limits_at(self.slots@, q) == (
                    if q == path@ {
                        limits
                    } else {
                        limits_at(s0, q)
                    }) by {
                        let c = choose|i: int| 0 <= i < s0.len() && (#[trigger] s0[i]).path@ == q;
                        lemma_slot_at(s0, c);
                        lemma_slot_at(self.slots@, c);
                    }
                    assert(self@ =~= old(self)@.insert(path@, limits));
                }
            },
            None => {
                self.slots.push(slot);
                self.total_paths_seen = self.total_paths_seen + 1;
                proof {
                    let n = s0.len() as int;
                    assert forall|a: int, b: int| 0 <= a < b < self.slots@.len() implies (
                    #[trigger] self.slots@[a]).path@ != (#[trigger] self.slots@[b]).path@ by {
                        if b == n {
                            assert(self.slots@[a] == s0[a]);
                        }
                    }
                    assert forall|q: Seq<char>| has_path(self.slots@, q) == (has_path(s0, q) || q == path@) by {
                        if has_path(s0, q) {
                            let c = choose|i: int| 0 <= i < s0.len() && (#[trigger] s0[i]).path@ == q;
                            assert(self.slots@[c] == s0[c]);
                        }
                        if has_path(self.slots@, q) {
                            let c = choose|i: int| 0 <= i < self.slots@.len() && (
                            #[trigger] self.slots@[i]).path@ == q;
                            if c < n {
                                assert(s0[c] == self.slots@[c]);
                            }
                        }
                        if q == path@ {
                            assert(self.slots@[n].path@ == q);
                        }
                    }
                    assert forall|q: Seq<char>| has_path(self.slots@, q) implies limits_at(self.slots@, q)
                        == (if q == path@ {
                        limits
                    } else {
                        limits_at(s0, q)
                    }) by {
                        let c = choose|i: int| 0 <= i < self.slots@.len() && (
                        #[trigger] self.slots@[i]).path@ == q;
                        lemma_slot_at(self.slots@, c);
                        if c < n {
                            assert(s0[c] == self.slots@[c]);
                            lemma_slot_at(s0, c);
                        }
                    }
                    assert(self@ =~= old(self)@.insert(path@, limits));
                }
            },
        }
        Some(limits)
    }

    /// Returns the limits of the cgroup `cgroup_path`, reading them when the
    /// path is not cached or its entry is older than the time-to-live by the
    /// clock; `None` for a process in no cgroup (`None` path).
    pub fn get_or_load<F: Fn(&str) -> Option<String>, E: Fn(&str) -> bool>(
        &mut self,
        cgroup_path: &Option<String>,
        pid: u32,
        read: &F,
        present: &E,
    ) -> (r: Option<CgroupLimits>)
        requires
            old(self).wf(),
            reader_ok(*read),
            present_ok(*present),
            old(self).seen() < u64::MAX,
        ensures
            final(self).wf(),
            final(self).ttl() == old(self).ttl(),
            match cgroup_path {
                None => r is None && final(self)@ == old(self)@ && final(self).seen()
                    == old(self).seen(),
                Some(p) => (exists|n: Instant|
                    limits_refreshed(
                        *read,
                        *present,
                        old(self)@,
                        final(self)@,
                        p@,
                        !old(self)@.contains_key(p@) || #[trigger] expired_at(old(self).loaded_time(p@), old(self).ttl(), n),
                        r,
                    )) && final(self).seen() == old(self).seen() + (if old(self)@.contains_key(p@) {
                    0int
                } else {
                    1int
                }),
            },
    {
        let ghost before = *self;
        let ghost mut n: Instant = arbitrary();
        let stale = match cgroup_path {
            Some(p) => match find_slot(&self.slots, p) {
                Some(j) => {
                    let e = expired(&self.slots[j].loaded_at, &self.ttl);
                    proof {
                        lemma_slot_at(self.slots@, j as int);
                        n = choose|n: Instant| e == expired_at(self.slots@[j as int].loaded_at, self.ttl, n);
                    }
                    e
                },
                None => true,
            },
            None => true,
        };
        proof {
            if let Some(p) = cgroup_path {
                assert(stale == (!self@.contains_key(p@) || expired_at(self.loaded_time(p@), self.ttl(), n)));
            }
        }
        let r = self.refresh(cgroup_path, stale, read, present);
        proof {
            if let Some(p) = cgroup_path {
                // A plain ghost copy of the instant, to witness the clause.
                let k = n;
                let lt = before.loaded_time(p@);
                let tt = before.ttl();
                assert(expired_at(lt, tt, k) == expired_at(lt, tt, n));
                assert(limits_refreshed(*read, *present, before@, self@, p@, !before@.contains_key(p@) || expired_at(lt, tt, k), r));
            }
        }
        r
    }

    /// The count of distinct paths cached since the cache was made: the
    /// value of `total_paths_seen`.
    pub fn paths_seen(&self) -> (n: u64)
        ensures
            n == self.seen(),
    {
        self.total_paths_seen
    }

    /// Drops the cached limits of `path`.
    pub fn invalidate(&mut self, path: &str)
        requires
            old(self).wf(),
        ensures
            final(self).wf(),
            final(self).ttl() == old(self).ttl(),
            final(self)@ == old(self)@.remove(path@),
            final(self).seen() == old(self).seen(),
    {
        let key = path.to_string();
        let ghost s0 = self.slots@;
        match find_slot(&self.slots, &key) {
            Some(j) => {
                self.slots.remove(j);
                proof {
                    let s1 = self.slots@;
                    assert(s1 == s0.remove(j as int));
                    assert forall|a: int, b: int| 0 <= a < b < s1.len() implies (#[trigger] s1[a]).path@
                        != (#[trigger] s1[b]).path@ by {
                        let a0 = if a < j { a } else { a + 1 };
                        let b0 = if b < j { b } else { b + 1 };
                        assert(s1[a] == s0[a0] && s1[b] == s0[b0]);
                    }
                    assert forall|q: Seq<char>| has_path(s1, q) == (has_path(s0, q) && q != path@) by {
                        if has_path(s0, q) && q != path@ {
                            let c = choose|i: int| 0 <= i < s0.len() && (#[trigger] s0[i]).path@ == q;
                            if c < j {
                                assert(s1[c] == s0[c]);
                            } else {
                                assert(c != j);
                                assert(s1[c - 1] == s0[c]);
                            }
                        }
                        if has_path(s1, q) {
                            let c = choose|i: int| 0 <= i < s1.len() && (#[trigger] s1[i]).path@ == q;
                            let c0 = if c < j { c } else { c + 1 };
                            assert(s1[c] == s0[c0]);
                            if q == path@ {
                                if c0 < j {
                                    assert(s0[c0].path@ != s0[j as int].path@);
                                } else {
                                    assert(s0[j as int].path@ != s0[c0].path@);
                                }
                            }
                        }
                    }
                    assert forall|q: Seq<char>| has_path(s1, q) implies limits_at(s1, q) == limits_at(s0, q) by {
                        let c = choose|i: int| 0 <= i < s1.len() && (#[trigger] s1[i]).path@ == q;
                        let c0 = if c < j { c } else { c + 1 };
                        assert(s1[c] == s0[c0]);
                        lemma_slot_at(s1, c);
                        lemma_slot_at(s0, c0);
                    }
                    assert(self@ =~= old(self)@.remove(path@));
                }
            },
            None => {
                assert(self@ =~= old(self)@.remove(path@));
            },
        }
    }

    /// Number of cgroup paths cached.
    pub fn len(&self) -> (n: usize)
        requires
            self.wf(),
        ensures
            n == self@.dom().len(),
    {
        proof {
            let keys = self.slots@.map_values(|s: CgroupSlot| s.path@);
            assert forall|i: int, j: int| 0 <= i < keys.len() && 0 <= j < keys.len() && i != j implies keys[i]
                != keys[j] by {
                if i < j {
                    assert(self.slots@[i].path@ != self.slots@[j].path@);
                } else {
                    assert(self.slots@[j].path@ != self.slots@[i].path@);
                }
            }
            keys.unique_seq_to_set();
            assert forall|q: Seq<char>| keys.to_set().contains(q) <==> #[trigger] self@.dom().contains(q) by {
                if has_path(self.slots@, q) {
                    let c = choose|i: int| 0 <= i < self.slots@.len() && (#[trigger] self.slots@[i]).path@ == q;
                    assert(keys[c] == q);
                }
                if keys.to_set().contains(q) {
                    let c = choose|i: int| 0 <= i < keys.len() && keys[i] == q;
                    assert(self.slots@[c].path@ == q);
                }
            }
            assert(keys.to_set() =~= self@.dom());
        }
        self.slots.len()
    }
}

/// After the limits of a path are dropped, the next lookup of it reads them
/// afresh and caches what it read.
pub proof fn lemma_invalidated_limits_reload<F: Fn(&str) -> Option<String>, E: Fn(&str) -> bool>(
    read: F,
    present: E,
    cached: Map<Seq<char>, CgroupLimits>,
    after: Map<Seq<char>, CgroupLimits>,
    path: Seq<char>,
    stale: bool,
    r: Option<CgroupLimits>,
)
    requires
        limits_refreshed(read, present, cached.remove(path), after, path, stale, r),
    ensures
        r is Some,
        cgroup_limits_read(read, present, path, r->0),
        after == cached.remove(path).insert(path, r->0),
{
}

} // verus!
