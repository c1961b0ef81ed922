//! Per-process cache of the fields that rarely change: parent pid, command
//! name, namespace inodes, cgroup path and process manager. An entry is
//! loaded once and reloaded when it is older than the cache's time-to-live;
//! events invalidate entries, and sweeps drop the processes that are gone.

use std::collections::{HashMap, HashSet};
use std::time::{Duration, Instant};

use vstd::prelude::*;

use crate::clock::{expired, expired_at};
use crate::files::{list_links, lister_ok, lists, proc_path, proc_path_text, read_file, reader_ok, reads};
use crate::text::{
    chars_of, equals_in, find_char_in, index_of, last_index_of, lemma_index_of_is,
    lemma_last_index_of_is, line_ranges, lines, pair_index, find_pair_in, parse_u64_in,
    parse_u64_spec, rfind_char_in, skip_char_in, split_on, split_ranges, string_of, trim_start, dec_chars, push_dec, push_str,
};
use crate::snapshot::host::now;
use crate::snapshot::manager::{detect_manager, info_ok, names_view, walk, Info, Manager};
use crate::snapshot::procfields::{light_read, light_unreadable, read_light, LightProc};

verus! {

broadcast use vstd::std_specs::hash::group_hash_axioms;

/// The inode of a namespace link target of the form `<type>:[<inode>]`: the
/// digits between the first `:[` and the last `]`.
pub open spec fn ns_inode_of(target: Seq<char>) -> Option<u64> {
    let start = pair_index(target, ':', '[') as int;
    let end = last_index_of(target, ']');
    if start < target.len() && end >= 0 && start < end {
        parse_u64_spec(target.subrange(start + 2, end))
    } else {
        None
    }
}

/// Parses the inode out of a namespace link target.
pub fn ns_inode(target: &str) -> (r: Option<u64>)
    ensures
        r == ns_inode_of(target@),
{
    let v = chars_of(target);
    let n = v.len();
    assert(v@.subrange(0, n as int) =~= v@);
    let start = match find_pair_in(&v, 0, n, ':', '[') {
        Some(i) => i,
        None => {
            return None;
        },
    };
    let end = match rfind_char_in(&v, 0, n, ']') {
        Some(i) => i,
        None => {
            proof {
                lemma_last_index_of_is(v@, ']', -1);
            }
            return None;
        },
    };
    proof {
        lemma_last_index_of_is(v@, ']', end as int);
    }
    if start < end {
        assert(end != start + 1) by {
            assert(v@[start + 1] == '[');
        }
        parse_u64_in(&v, start + 2, end)
    } else {
        None
    }
}

/// The namespaces named by a listing of a process's `ns` directory: each
/// link whose target holds an inode, with its name, in listing order.
pub open spec fn ns_entries(listing: Seq<(String, String)>) -> Seq<(Seq<char>, u64)>
    decreases listing.len(),
{
    if listing.len() == 0 {
        Seq::empty()
    } else {
        let r = ns_entries(listing.drop_last());
        match ns_inode_of(listing.last().1@) {
            Some(i) => r.push((listing.last().0@, i)),
            None => r,
        }
    }
}

/// The (name, inode) pairs of `v`, names taken by their text.
pub open spec fn ns_view(v: Seq<(String, u64)>) -> Seq<(Seq<char>, u64)> {
    v.map_values(|e: (String, u64)| (e.0@, e.1))
}

/// The namespaces of a listing of a process's `ns` directory.
pub fn ns_inodes_of(listing: &Vec<(String, String)>) -> (out: Vec<(String, u64)>)
    ensures
        ns_view(out@) == ns_entries(listing@),
{
    let mut out: Vec<(String, u64)> = Vec::new();
    let mut k: usize = 0;
    while k < listing.len()
        invariant
            k <= listing@.len(),
            ns_view(out@) == ns_entries(listing@.take(k as int)),
        decreases listing@.len() - k,
    {
        proof {
            assert(listing@.take(k + 1).drop_last() =~= listing@.take(k as int));
        }
        let (name, target) = &listing[k];
        match ns_inode(target.as_str()) {
            Some(inode) => {
                out.push((name.clone(), inode));
                assert(ns_view(out@) =~= ns_entries(listing@.take(k as int)).push((name@, inode)));
            },
            None => {},
        }
        k = k + 1;
    }
    assert(listing@.take(k as int) =~= listing@);
    out
}

/// The label of a namespace, as its link names it: `<type>:[<inode>]`.
pub open spec fn ns_label(ns_type: Seq<char>, inode: u64) -> Seq<char> {
    ns_type + ":["@ + dec_chars(inode as nat) + "]"@
}

/// The labels of the namespaces `ns`, in order.
pub fn ns_labels(ns: &Vec<(String, u64)>) -> (out: Vec<String>)
    ensures
        out@.len() == ns@.len(),
        forall|i: int| 0 <= i < ns@.len() ==> (#[trigger] out@[i])@ == ns_label(ns@[i].0@, ns@[i].1),
{
    let mut out: Vec<String> = Vec::new();
    let mut k: usize = 0;
    while k < ns.len()
        invariant
            k <= ns@.len(),
            out@.len() == k,
            forall|i: int| 0 <= i < k ==> (#[trigger] out@[i])@ == ns_label(ns@[i].0@, ns@[i].1),
        decreases ns@.len() - k,
    {
        let (t, inode) = &ns[k];
        let mut s = t.clone();
        push_str(&mut s, ":[");
        push_dec(&mut s, *inode);
        push_str(&mut s, "]");
        out.push(s);
        k = k + 1;
    }
    out
}

/// Reads the namespace inodes of `pid` from the links of `/proc/<pid>/ns`;
/// empty when the directory cannot be read.
pub fn read_ns_inodes<G: Fn(&str) -> Option<Vec<(String, String)>>>(pid: u32, links: &G) -> (out: Vec<
    (String, u64),
>)
    requires
        lister_ok(*links),
    ensures
        ns_read(*links, pid, ns_view(out@)),
{
    let dir = proc_path(pid as i64, "ns");
    match list_links(links, &dir) {
        Some(listing) => ns_inodes_of(&listing),
        None => {
            let out: Vec<(String, u64)> = Vec::new();
            assert(ns_view(out@) =~= Seq::<(Seq<char>, u64)>::empty());
            out
        },
    }
}

/// `ns` is what listing `/proc/<pid>/ns` through `links` gives.
pub open spec fn ns_read<G: Fn(&str) -> Option<Vec<(String, String)>>>(links: G, pid: u32, ns: Seq<(Seq<char>, u64)>) -> bool {
    exists|out: Option<Vec<(String, String)>>|
        lists(links, proc_path_text(pid as int, "ns"@), out) && ns == match out {
            Some(l) => ns_entries(l@),
            None => Seq::empty(),
        }
}

/// The three `:`-separated fields of a cgroup line (hierarchy id, controllers,
/// path; the path keeps any further `:`), or `None` for a line with fewer
/// than two `:`.
pub open spec fn cgroup_fields(l: Seq<char>) -> Option<(Seq<char>, Seq<char>, Seq<char>)> {
    let i1 = index_of(l, ':') as int;
    if i1 >= l.len() {
        None
    } else {
        let r = l.skip(i1 + 1);
        let i2 = index_of(r, ':') as int;
        if i2 >= r.len() {
            None
        } else {
            Some((l.take(i1), r.take(i2), r.skip(i2 + 1)))
        }
    }
}

/// The candidate paths found so far: the unified (v2) hierarchy's, the
/// memory controller's, and the first other one.
pub type CgroupPick = (Option<Seq<char>>, Option<Seq<char>>, Option<Seq<char>>);

/// The candidates after one line with fields `f`. Paths lose their leading
/// `/`; a line whose path is then empty (none, or the root `/`) names no
/// path and is skipped. The unified hierarchy has id
/// `0` and no controllers; a later line of a kind replaces an earlier one,
/// except for the first-other candidate.
pub open spec fn cgroup_step(st: CgroupPick, f: (Seq<char>, Seq<char>, Seq<char>)) -> CgroupPick {
    let p = trim_start(f.2, '/');
    if p.len() == 0 {
        st
    } else {
        if f.0 == "0"@ && f.1.len() == 0 {
            (Some(p), st.1, st.2)
        } else if split_on(f.1, ',').contains("memory"@) {
            (st.0, Some(p), st.2)
        } else if st.2 is None {
            (st.0, st.1, Some(p))
        } else {
            st
        }
    }
}

/// The candidates after the lines `ls`, or `None` when one of them is
/// malformed.
pub open spec fn cgroup_scan(ls: Seq<Seq<char>>, st: CgroupPick) -> Option<CgroupPick>
    decreases ls.len(),
{
    if ls.len() == 0 {
        Some(st)
    } else {
        match cgroup_fields(ls[0]) {
            None => None,
            Some(f) => cgroup_scan(ls.drop_first(), cgroup_step(st, f)),
        }
    }
}

/// The cgroup path of a process, from the text of its `cgroup` file: the
/// unified hierarchy's path if there is one, else the memory controller's,
/// else the first one listed; `None` when the file has a malformed line or
/// no path at all.
pub open spec fn cgroup_path_of(text: Seq<char>) -> Option<Seq<char>> {
    match cgroup_scan(lines(text), (None, None, None)) {
        None => None,
        Some(st) => if st.0 is Some {
            st.0
        } else if st.1 is Some {
            st.1
        } else {
            st.2
        },
    }
}

/// The text of an optional string.
pub open spec fn opt_text(o: Option<String>) -> Option<Seq<char>> {
    match o {
        Some(s) => Some(s@),
        None => None,
    }
}

/// Whether `memory` is one of the comma-separated names of `v[lo..hi]`.
fn has_memory(v: &Vec<char>, lo: usize, hi: usize) -> (b: bool)
    requires
        lo <= hi <= v.len(),
    ensures
        b == split_on(v@.subrange(lo as int, hi as int), ',').contains("memory"@),
{
    let pieces = split_ranges(v, lo, hi, ',');
    let ghost ps = split_on(v@.subrange(lo as int, hi as int), ',');
    let name = chars_of("memory");
    let mut k: usize = 0;
    while k < pieces.len()
        invariant
            k <= pieces@.len(),
            name@ == "memory"@,
            ps == split_on(v@.subrange(lo as int, hi as int), ','),
            crate::text::ranges_select(v@, pieces@, ps),
            forall|j: int| 0 <= j < k ==> ps[j] != "memory"@,
        decreases pieces@.len() - k,
    {
        let (a, b) = pieces[k];
        if equals_in(v, a, b, &name) {
            assert(ps[k as int] == "memory"@);
            return true;
        }
        k = k + 1;
    }
    proof {
        if ps.contains("memory"@) {
            let j = choose|j: int| 0 <= j < ps.len() && ps[j] == "memory"@;
            assert(ps[j] != "memory"@);
        }
    }
    false
}

/// The two `:` of the cgroup line `v[lo..hi]`, or `None` when it has fewer.
pub(crate) fn line_colons(v: &Vec<char>, lo: usize, hi: usize) -> (r: Option<(usize, usize)>)
    requires
        lo <= hi <= v.len(),
    ensures
        match r {
            Some((i1, i2)) => lo <= i1 < i2 < hi && cgroup_fields(v@.subrange(lo as int, hi as int))
                == Some(
                (
                    v@.subrange(lo as int, i1 as int),
                    v@.subrange(i1 + 1, i2 as int),
                    v@.subrange(i2 + 1, hi as int),
                ),
            ),
            None => cgroup_fields(v@.subrange(lo as int, hi as int)) is None,
        },
{
    let ghost line = v@.subrange(lo as int, hi as int);
    let i1 = match find_char_in(v, lo, hi, ':') {
        Some(i) => i,
        None => {
            proof {
                assert forall|x: int| 0 <= x < line.len() implies #[trigger] line[x] != ':' by {
                    assert(line[x] == v@[lo + x]);
                }
                lemma_index_of_is(line, ':', line.len() as int);
            }
            return None;
        },
    };
    proof {
        assert forall|x: int| 0 <= x < i1 - lo implies #[trigger] line[x] != ':' by {
            assert(line[x] == v@[lo + x]);
        }
        assert(line[i1 - lo] == v@[i1 as int]);
        lemma_index_of_is(line, ':', i1 - lo);
    }
    let ghost rest = line.skip(i1 - lo + 1);
    assert(rest =~= v@.subrange(i1 + 1, hi as int));
    let i2 = match find_char_in(v, i1 + 1, hi, ':') {
        Some(i) => i,
        None => {
            proof {
                assert forall|x: int| 0 <= x < rest.len() implies #[trigger] rest[x] != ':' by {
                    assert(rest[x] == v@[i1 + 1 + x]);
                }
                lemma_index_of_is(rest, ':', rest.len() as int);
            }
            return None;
        },
    };
    proof {
        assert forall|x: int| 0 <= x < i2 - i1 - 1 implies #[trigger] rest[x] != ':' by {
            assert(rest[x] == v@[i1 + 1 + x]);
        }
        assert(rest[i2 - i1 - 1] == v@[i2 as int]);
        lemma_index_of_is(rest, ':', i2 - i1 - 1);
        assert(line.take(i1 - lo) =~= v@.subrange(lo as int, i1 as int));
        assert(rest.take(i2 - i1 - 1) =~= v@.subrange(i1 + 1, i2 as int));
        assert(rest.skip(i2 - i1) =~= v@.subrange(i2 + 1, hi as int));
    }
    Some((i1, i2))
}

/// The cgroup path named by the text of a process's `cgroup` file.
#[verifier::rlimit(30)]
pub fn cgroup_path_in(text: &str) -> (r: Option<String>)
    ensures
        opt_text(r) == cgroup_path_of(text@),
{
    let v = chars_of(text);
    let ls = line_ranges(&v);
    let ghost all = lines(v@);
    let zero = chars_of("0");
    let mut v2: Option<String> = None;
    let mut mem: Option<String> = None;
    let mut first: Option<String> = None;
    let mut k: usize = 0;
    assert(all.skip(0) =~= all);
    while k < ls.len()
        invariant
            k <= ls@.len(),
            v@ == text@,
            zero@ == "0"@,
            all == lines(v@),
            crate::text::ranges_select(v@, ls@, all),
            cgroup_scan(all, (None, None, None)) == cgroup_scan(
                all.skip(k as int),
                (opt_text(v2), opt_text(mem), opt_text(first)),
            ),
        decreases ls@.len() - k,
    {
        let (lo, hi) = ls[k];
        let ghost st = (opt_text(v2), opt_text(mem), opt_text(first));
        proof {
            assert(all.skip(k as int)[0] == all[k as int]);
            assert(all.skip(k as int).drop_first() =~= all.skip(k + 1));
            assert(all[k as int] == v@.subrange(lo as int, hi as int));
        }
        let (i1, i2) = match line_colons(&v, lo, hi) {
            Some(x) => x,
            None => {
                return None;
            },
        };
        let p0 = skip_char_in(&v, i2 + 1, hi, '/');
        if p0 < hi {
            let path = string_of(&v, p0, hi);
            if equals_in(&v, lo, i1, &zero) && i1 + 1 == i2 {
                v2 = Some(path);
            } else if has_memory(&v, i1 + 1, i2) {
                mem = Some(path);
            } else if first.is_none() {
                first = Some(path);
            }
        }
        k = k + 1;
    }
    assert(all.skip(k as int) =~= Seq::<Seq<char>>::empty());
    if v2.is_some() {
        v2
    } else if mem.is_some() {
        mem
    } else {
        first
    }
}

/// Resolves the cgroup path of `pid` from `/proc/<pid>/cgroup`, without its
/// leading `/` so that it composes under `/sys/fs/cgroup/`: the unified
/// hierarchy's path if there is one, else the memory controller's, else the
/// first listed.
pub fn resolve_cgroup_v2_path<F: Fn(&str) -> Option<String>>(pid: u32, read: &F) -> (r: Option<String>)
    requires
        reader_ok(*read),
    ensures
        cgroup_read(*read, pid, opt_text(r)),
{
    let path = proc_path(pid as i64, "cgroup");
    match read_file(read, &path) {
        Some(s) => cgroup_path_in(s.as_str()),
        None => None,
    }
}

/// `p` is the cgroup path that reading `/proc/<pid>/cgroup` through `read`
/// gives.
pub open spec fn cgroup_read<F: Fn(&str) -> Option<String>>(read: F, pid: u32, p: Option<Seq<char>>) -> bool {
    exists|out: Option<String>|
        reads(read, proc_path_text(pid as int, "cgroup"@), out) && p == match out {
            Some(s) => cgroup_path_of(s@),
            None => None,
        }
}

/// One cached process.
#[derive(Clone, Debug)]
pub struct ProcCacheEntry {
    pub pid: u32,
    pub ppid: u32,
    pub comm: String,
    /// Namespace type (`mnt`, `net`, ...) and inode, one pair per namespace.
    pub namespaces: Vec<(String, u64)>,
    /// Cgroup path relative to `/sys/fs/cgroup/`, when one was found.
    pub cgroup_path: Option<String>,
    /// The nearest ancestor process manager; found on the first load and
    /// kept across reloads.
    pub managed_by: Option<Manager>,
    pub loaded_at: Instant,
}

/// The (name, parent) pairs of the cached processes.
pub open spec fn parents_of(m: Map<u32, ProcCacheEntry>) -> Map<u32, (Seq<char>, u32)> {
    m.map_values(|e: ProcCacheEntry| (e.comm@, e.ppid))
}

/// `e` is the entry that loading `pid` gives: its light fields, namespaces
/// and cgroup path as read through `read` and `links`, and its manager, kept
/// from `old_mb` when that is known, else found by walking up from `pid`
/// through the cached processes `cache`.
pub open spec fn entry_loaded<F: Fn(&str) -> Option<String>, G: Fn(&str) -> Option<Vec<(String, String)>>>(
    pid: u32,
    old_mb: Option<Manager>,
    cache: Map<u32, ProcCacheEntry>,
    read: F,
    links: G,
    e: ProcCacheEntry,
) -> bool {
    &&& e.pid == pid
    &&& exists|light: LightProc|
        light_read(read, pid as i32, light) && e.ppid == light.ppid as u32 && e.comm@ == light.comm@
    &&& ns_read(links, pid, ns_view(e.namespaces@))
    &&& cgroup_read(read, pid, opt_text(e.cgroup_path))
    &&& match old_mb {
        Some(m) => e.managed_by == Some(m),
        None => exists|tr: Seq<(u32, Info)>|
            walk(tr, pid, 0, Set::empty()) == Some(e.managed_by) && forall|k: int|
                0 <= k < tr.len() ==> info_ok(parents_of(cache), read, (#[trigger] tr[k]).0, tr[k].1),
    }
}

/// The (name, parent) pairs of the cached processes, for the manager walk.
fn parent_pairs(cache: &HashMap<u32, ProcCacheEntry>) -> (m: HashMap<u32, (String, u32)>)
    ensures
        names_view(m@) == parents_of(cache@),
{
    let mut m: HashMap<u32, (String, u32)> = HashMap::new();
    for (k, e) in it: cache.iter()
        invariant
            it.seq().len() == cache@.len(),
            forall|i: int|
                0 <= i < it.seq().len() ==> cache@.contains_key(*(#[trigger] it.seq()[i]).0)
                    && cache@[*it.seq()[i].0] == *it.seq()[i].1,
            forall|q: u32| cache@.contains_key(q) ==> it.seq().contains((&q, &cache@[q])),
            forall|q: u32|
                #[trigger] m@.contains_key(q) <==> exists|i: int|
                    0 <= i < it.index() && *it.seq()[i].0 == q,
            forall|q: u32|
                #[trigger] m@.contains_key(q) ==> cache@.contains_key(q) && m@[q].0@ == cache@[q].comm@
                    && m@[q].1 == cache@[q].ppid,
    {
        proof {
            assert(cache@.contains_key(*k) && cache@[*k] == *e);
        }
        m.insert(*k, (e.comm.clone(), e.ppid));
        proof {
            assert forall|q: u32| #[trigger] m@.contains_key(q) <==> exists|i: int|
                0 <= i < it.index() + 1 && *it.seq()[i].0 == q by {
                if q == *k {
                    assert(*it.seq()[it.index() as int].0 == q);
                }
            }
        }
    }
    proof {
        assert(names_view(m@) =~= parents_of(cache@));
    }
    m
}

/// Loads the entry of `pid`: `None` when its stat file cannot be read.
fn load_entry<F: Fn(&str) -> Option<String>, G: Fn(&str) -> Option<Vec<(String, String)>>>(
    pid: u32,
    old_managed_by: Option<Manager>,
    cache: &HashMap<u32, ProcCacheEntry>,
    read: &F,
    links: &G,
) -> (r: Option<ProcCacheEntry>)
    requires
        reader_ok(*read),
        lister_ok(*links),
    ensures
        r is None ==> light_unreadable(*read, pid as i32),
        r matches Some(e) ==> entry_loaded(pid, old_managed_by, cache@, *read, *links, e),
{
    let light = match read_light(pid as i32, read) {
        Some(l) => l,
        None => {
            return None;
        },
    };
    let namespaces = read_ns_inodes(pid, links);
    let cgroup_path = resolve_cgroup_v2_path(pid, read);
    let managed_by = match old_managed_by {
        Some(m) => Some(m),
        None => {
            let parents = parent_pairs(cache);
            detect_manager(pid, &parents, read)
        },
    };
    Some(
        ProcCacheEntry {
            pid,
            ppid: light.ppid as u32,
            comm: light.comm,
            namespaces,
            cgroup_path,
            managed_by,
            loaded_at: now(),
        },
    )
}

/// The entry a lookup returned, by value.
pub open spec fn entry_of(r: Option<&ProcCacheEntry>) -> Option<ProcCacheEntry> {
    match r {
        Some(e) => Some(*e),
        None => None,
    }
}

/// The cache went from `old` to `new` by one lookup of `pid` that returned
/// `r`: an entry that is present and not `stale` is kept and returned;
/// otherwise `pid` is reloaded, keeping a manager already found, and the new
/// entry replaces the old one, or, when `pid` cannot be read, its entry is
/// dropped and nothing is returned.
pub open spec fn refreshed<F: Fn(&str) -> Option<String>, G: Fn(&str) -> Option<Vec<(String, String)>>>(
    old: Map<u32, ProcCacheEntry>,
    new: Map<u32, ProcCacheEntry>,
    pid: u32,
    stale: bool,
    r: Option<ProcCacheEntry>,
    read: F,
    links: G,
) -> bool {
    if !stale && old.contains_key(pid) {
        new == old && r == Some(old[pid])
    } else {
        let old_mb = if old.contains_key(pid) {
            old[pid].managed_by
        } else {
            None
        };
        match r {
            Some(e) => entry_loaded(pid, old_mb, old, read, links, e) && new == old.insert(pid, e),
            None => light_unreadable(read, pid as i32) && new == old.remove(pid),
        }
    }
}

/// The pids of the cached processes.
fn pids_of(m: &HashMap<u32, ProcCacheEntry>) -> (v: Vec<u32>)
    ensures
        forall|q: u32| m@.contains_key(q) <==> v@.contains(q),
{
    let mut v: Vec<u32> = Vec::new();
    for (k, _e) in it: m.iter()
        invariant
            it.seq().len() == m@.len(),
            forall|i: int|
                0 <= i < it.seq().len() ==> m@.contains_key(*(#[trigger] it.seq()[i]).0),
            forall|q: u32| m@.contains_key(q) ==> it.seq().contains((&q, &m@[q])),
            v@.len() == it.index(),
            forall|i: int| 0 <= i < it.index() ==> v@[i] == *(#[trigger] it.seq()[i]).0,
            forall|i: int| 0 <= i < v@.len() ==> m@.contains_key(#[trigger] v@[i]),
    {
        v.push(*k);
    }
    proof {
        assert forall|q: u32| m@.contains_key(q) implies v@.contains(q) by {
            let i = choose|i: int| 0 <= i < v@.len() && v@[i] == q;
        }
        assert forall|q: u32| v@.contains(q) implies m@.contains_key(q) by {
            let i = choose|i: int| 0 <= i < v@.len() && v@[i] == q;
        }
    }
    v
}

/// Cache of the stable fields of processes, keyed by pid.
pub struct ProcCache {
    entries: HashMap<u32, ProcCacheEntry>,
    ttl: Duration,
}

impl View for ProcCache {
    type V = Map<u32, ProcCacheEntry>;

    closed spec fn view(&self) -> Map<u32, ProcCacheEntry> {
        self.entries@
    }
}

impl ProcCache {
    /// Every entry is filed under its own pid.
    pub open spec fn wf(&self) -> bool {
        forall|p: u32| #[trigger] self@.contains_key(p) ==> self@[p].pid == p
    }

    /// Time after which an entry is reloaded.
    pub closed spec fn ttl(&self) -> Duration {
        self.ttl
    }

    /// An empty cache whose entries live for `ttl`.
    pub fn new(ttl: Duration) -> (c: Self)
        ensures
            c@ == Map::<u32, ProcCacheEntry>::empty(),
            c.wf(),
            c.ttl() == ttl,
    {
        ProcCache { entries: HashMap::new(), ttl }
    }

    /// Looks `pid` up, reloading it when `stale` or missing.
    pub fn refresh<F: Fn(&str) -> Option<String>, G: Fn(&str) -> Option<Vec<(String, String)>>>(
        &mut self,
        pid: u32,
        stale: bool,
        read: &F,
        links: &G,
    ) -> (r: Option<&ProcCacheEntry>)
        requires
            old(self).wf(),
            reader_ok(*read),
            lister_ok(*links),
        ensures
            final(self).wf(),
            final(self).ttl() == old(self).ttl(),
            refreshed(old(self)@, final(self)@, pid, stale, entry_of(r), *read, *links),
    {
        let present = self.entries.contains_key(&pid);
        if stale || !present {
            let old_managed_by = match self.entries.get(&pid) {
                Some(e) => e.managed_by,
                None => None,
            };
            match load_entry(pid, old_managed_by, &self.entries, read, links) {
                Some(e) => {
                    self.entries.insert(pid, e);
                },
                None => {
                    self.entries.remove(&pid);
                    return None;
                },
            }
        }
        self.entries.get(&pid)
    }

    /// Returns the entry of `pid`, loading it when it is missing or older
    /// than the time-to-live; `None`, with the entry dropped, when the
    /// process cannot be read (it has exited).
    pub fn get_or_load<F: Fn(&str) -> Option<String>, G: Fn(&str) -> Option<Vec<(String, String)>>>(
        &mut self,
        pid: u32,
        read: &F,
        links: &G,
    ) -> (r: Option<&ProcCacheEntry>)
        requires
            old(self).wf(),
            reader_ok(*read),
            lister_ok(*links),
        ensures
            final(self).wf(),
            final(self).ttl() == old(self).ttl(),
            exists|n: Instant|
                refreshed(
                    old(self)@,
                    final(self)@,
                    pid,
                    !old(self)@.contains_key(pid) || #[trigger] expired_at(old(self)@[pid].loaded_at, old(self).ttl(), n),
                    entry_of(r),
                    *read,
                    *links,
                ),
    {
        let ghost before = *self;
        let ghost mut n: Instant = arbitrary();
        let stale = match self.entries.get(&pid) {
            Some(e) => {
                let x = expired(&e.loaded_at, &self.ttl);
                proof {
                    n = choose|n: Instant| x == expired_at(e.loaded_at, self.ttl, n);
                }
                x
            },
            None => true,
        };
        proof {
            assert(stale == (!before@.contains_key(pid) || expired_at(before@[pid].loaded_at, before.ttl(), n)));
        }
        let r = self.refresh(pid, stale, read, links);
        proof {
            // A plain ghost copy of the instant, to witness the clause.
            let k = n;
            let lt = before@[pid].loaded_at;
            let tt = before.ttl();
            assert(expired_at(lt, tt, k) == expired_at(lt, tt, n));
            assert(before == *old(self));
        }
        r
    }

    /// Drops the entry of `pid`, so that the next lookup reloads it.
    pub fn invalidate(&mut self, pid: u32)
        requires
            old(self).wf(),
        ensures
            final(self).wf(),
            final(self).ttl() == old(self).ttl(),
            final(self)@ == old(self)@.remove(pid),
    {
        self.entries.remove(&pid);
    }

    /// Drops every entry whose pid is not in `alive_pids`.
    pub fn sweep(&mut self, alive_pids: &HashSet<u32>)
        requires
            old(self).wf(),
        ensures
            final(self).wf(),
            final(self).ttl() == old(self).ttl(),
            final(self)@ == old(self)@.restrict(alive_pids@),
    {
        let keys = pids_of(&self.entries);
        let ghost before = self.entries@;
        let ghost ttl0 = self.ttl;
        let mut j: usize = 0;
        while j < keys.len()
            invariant
                j <= keys@.len(),
                self.ttl == ttl0,
                forall|p: u32| #[trigger] before.contains_key(p) ==> before[p].pid == p,
                forall|q: u32| before.contains_key(q) <==> keys@.contains(q),
                forall|q: u32|
                    #[trigger] self.entries@.contains_key(q) <==> before.contains_key(q) && !(
                    keys@.take(j as int).contains(q) && !alive_pids@.contains(q)),
                forall|q: u32| #[trigger] self.entries@.contains_key(q) ==> self.entries@[q] == before[q],
            decreases keys@.len() - j,
        {
            let q = keys[j];
            if !alive_pids.contains(&q) {
                self.entries.remove(&q);
            }
            proof {
                assert forall|x: u32| keys@.take(j + 1).contains(x) <==> keys@.take(j as int).contains(x) || x == q by {
                    if keys@.take(j + 1).contains(x) {
                        let i = choose|i: int| 0 <= i < j + 1 && #[trigger] keys@.take(j + 1)[i] == x;
                        if i < j {
                            assert(keys@.take(j as int)[i] == x);
                        }
                    }
                    if keys@.take(j as int).contains(x) {
                        let i = choose|i: int| 0 <= i < j && #[trigger] keys@.take(j as int)[i] == x;
                        assert(keys@.take(j + 1)[i] == x);
                    }
                    if x == q {
                        assert(keys@.take(j + 1)[j as int] == x);
                    }
                }
            }
            j = j + 1;
        }
        proof {
            assert(keys@.take(j as int) =~= keys@);
            assert(self.entries@ =~= before.restrict(alive_pids@));
        }
    }

    /// All entries, keyed by pid.
    pub fn entries(&self) -> (m: &HashMap<u32, ProcCacheEntry>)
        ensures
            m@ == self@,
    {
        &self.entries
    }

    /// When the entry of `pid` was loaded, if it is cached.
    pub fn generation_of(&self, pid: u32) -> (t: Option<Instant>)
        ensures
            t == (if self@.contains_key(pid) {
                Some(self@[pid].loaded_at)
            } else {
                None
            }),
    {
        match self.entries.get(&pid) {
            Some(e) => Some(e.loaded_at),
            None => None,
        }
    }
}

/// A path without its leading `/` characters does not start with `/`.
proof fn lemma_trim_start_no_slash(s: Seq<char>)
    ensures
        trim_start(s, '/').len() == 0 || trim_start(s, '/')[0] != '/',
    decreases s.len(),
{
    if s.len() > 0 && s[0] == '/' {
        lemma_trim_start_no_slash(s.drop_first());
    }
}

/// A candidate, if any, is a relative, non-empty path.
spec fn rel_path(o: Option<Seq<char>>) -> bool {
    match o {
        Some(p) => p.len() > 0 && p[0] != '/',
        None => true,
    }
}

proof fn lemma_pick_relative(st: CgroupPick, f: (Seq<char>, Seq<char>, Seq<char>))
    requires
        rel_path(st.0) && rel_path(st.1) && rel_path(st.2),
    ensures
        rel_path(cgroup_step(st, f).0) && rel_path(cgroup_step(st, f).1) && rel_path(cgroup_step(st, f).2),
{
    lemma_trim_start_no_slash(f.2);
}

proof fn lemma_scan_relative(ls: Seq<Seq<char>>, st: CgroupPick)
    requires
        rel_path(st.0) && rel_path(st.1) && rel_path(st.2),
    ensures
        cgroup_scan(ls, st) matches Some(t) ==> rel_path(t.0) && rel_path(t.1) && rel_path(t.2),
    decreases ls.len(),
{
    if ls.len() > 0 {
        if let Some(f) = cgroup_fields(ls[0]) {
            lemma_pick_relative(st, f);
            lemma_scan_relative(ls.drop_first(), cgroup_step(st, f));
        }
    }
}

/// The cgroup path found for a process is relative and not empty: it never
/// starts with `/`, so that it composes under `/sys/fs/cgroup/`, and the
/// root cgroup gives no path.
pub proof fn lemma_cgroup_path_relative(text: Seq<char>)
    ensures
        cgroup_path_of(text) matches Some(p) ==> p.len() > 0 && p[0] != '/',
{
    lemma_scan_relative(lines(text), (None, None, None));
}

/// An invalidated process is read again on its next lookup, however recent
/// its dropped entry was: after `invalidate(pid)`, a lookup of `pid` that
/// counts the entry as fresh does exactly what one that counts it as stale
/// does.
pub proof fn lemma_invalidated_entry_reloads<F: Fn(&str) -> Option<String>, G: Fn(&str) -> Option<Vec<(String, String)>>>(
    m: Map<u32, ProcCacheEntry>,
    new: Map<u32, ProcCacheEntry>,
    pid: u32,
    r: Option<ProcCacheEntry>,
    read: F,
    links: G,
)
    ensures
        refreshed(m.remove(pid), new, pid, false, r, read, links) == refreshed(
            m.remove(pid),
            new,
            pid,
            true,
            r,
            read,
            links,
        ),
{
}

/// A reload never loses a process manager already found for the process:
/// when the cached entry of `pid` names a manager, the entry a lookup leaves
/// (if any) names the same one.
pub proof fn lemma_manager_kept<F: Fn(&str) -> Option<String>, G: Fn(&str) -> Option<Vec<(String, String)>>>(
    old: Map<u32, ProcCacheEntry>,
    new: Map<u32, ProcCacheEntry>,
    pid: u32,
    stale: bool,
    r: Option<ProcCacheEntry>,
    read: F,
    links: G,
)
    requires
        refreshed(old, new, pid, stale, r, read, links),
        old.contains_key(pid),
        old[pid].managed_by is Some,
    ensures
        new.contains_key(pid) ==> new[pid].managed_by == old[pid].managed_by,
        r matches Some(e) ==> e.managed_by == old[pid].managed_by,
{
}

/// A lookup leaves the process cached exactly when it returns an entry, and
/// the entry it returns is the one cached; other processes are untouched.
pub proof fn lemma_lookup_caches_result<F: Fn(&str) -> Option<String>, G: Fn(&str) -> Option<Vec<(String, String)>>>(
    old: Map<u32, ProcCacheEntry>,
    new: Map<u32, ProcCacheEntry>,
    pid: u32,
    stale: bool,
    r: Option<ProcCacheEntry>,
    read: F,
    links: G,
)
    requires
        refreshed(old, new, pid, stale, r, read, links),
    ensures
        new.contains_key(pid) <==> r is Some,
        r matches Some(e) ==> new[pid] == e,
        forall|q: u32| q != pid ==> (new.contains_key(q) == old.contains_key(q) && (old.contains_key(q) ==> new[q] == old[q])),
{
}

/// The law of a lookup: the process is cached afterwards exactly when an
/// entry comes back, and that entry, for the asked pid, is the one cached; a
/// fresh cached entry comes back unchanged with nothing reloaded; a reload
/// keeps a manager already found; the other processes are untouched.
pub proof fn lemma_lookup_law<F: Fn(&str) -> Option<String>, G: Fn(&str) -> Option<Vec<(String, String)>>>(
    old: Map<u32, ProcCacheEntry>,
    new: Map<u32, ProcCacheEntry>,
    pid: u32,
    stale: bool,
    r: Option<ProcCacheEntry>,
    read: F,
    links: G,
)
    requires
        refreshed(old, new, pid, stale, r, read, links),
        forall|p: u32| #[trigger] new.contains_key(p) ==> new[p].pid == p,
    ensures
        new.contains_key(pid) <==> r is Some,
        r matches Some(e) ==> e.pid == pid && new[pid] == e,
        !stale && old.contains_key(pid) ==> r == Some(old[pid]) && new == old,
        (old.contains_key(pid) && old[pid].managed_by is Some && r is Some) ==> r->0.managed_by
            == old[pid].managed_by,
        forall|q: u32| q != pid ==> (new.contains_key(q) == old.contains_key(q) && (old.contains_key(q) ==> new[q] == old[q])),
{
    lemma_lookup_caches_result(old, new, pid, stale, r, read, links);
    if old.contains_key(pid) && old[pid].managed_by is Some {
        lemma_manager_kept(old, new, pid, stale, r, read, links);
    }
}

} // verus!
