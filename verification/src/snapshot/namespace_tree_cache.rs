//! Reverse index from a namespace, `(type, inode)`, to the processes in it,
//! rebuilt from the process cache. Used to find a member process of a
//! namespace, and to list all of them.

use std::collections::HashMap;
use std::time::{Duration, Instant};

use vstd::prelude::*;

use crate::clock::{expired, expired_at};
use crate::snapshot::host::now;
use crate::snapshot::proc_cache::{ns_view, ProcCacheEntry};
use crate::text::chars_of;

verus! {

broadcast use vstd::std_specs::hash::group_hash_axioms;

/// `s` is strictly increasing.
pub open spec fn increasing(s: Seq<u32>) -> bool {
    forall|i: int, j: int| 0 <= i < j < s.len() ==> s[i] < s[j]
}

/// The processes of `pc` that are in the namespace `key`.
pub open spec fn ns_members(pc: Map<u32, ProcCacheEntry>, key: (Seq<char>, u64)) -> Set<u32> {
    Set::new(|p: u32| pc.contains_key(p) && ns_view(pc[p].namespaces@).contains(key))
}

/// The namespaces that some process of `pc` is in.
pub open spec fn ns_keys(pc: Map<u32, ProcCacheEntry>) -> Set<(Seq<char>, u64)> {
    Set::new(|key: (Seq<char>, u64)| exists|p: u32| #[trigger] ns_members(pc, key).contains(p))
}

/// The namespace tree of `pc`: each namespace some process is in, with the
/// processes in it.
pub open spec fn tree_of(pc: Map<u32, ProcCacheEntry>) -> Map<(Seq<char>, u64), Set<u32>> {
    Map::new(|key: (Seq<char>, u64)| ns_keys(pc).contains(key), |key: (Seq<char>, u64)| ns_members(pc, key))
}

/// One namespace and its processes, in increasing order.
struct NsGroup {
    ns_type: String,
    inode: u64,
    pids: Vec<u32>,
}

spec fn gkey(g: NsGroup) -> (Seq<char>, u64) {
    (g.ns_type@, g.inode)
}

/// The groups have distinct namespaces and non-empty increasing pid lists.
spec fn groups_wf(gs: Seq<NsGroup>) -> bool {
    &&& forall|i: int, j: int| 0 <= i < j < gs.len() ==> gkey(#[trigger] gs[i]) != gkey(#[trigger] gs[j])
    &&& forall|i: int| 0 <= i < gs.len() ==> increasing((#[trigger] gs[i]).pids@) && gs[i].pids@.len() > 0
}

spec fn has_key(gs: Seq<NsGroup>, key: (Seq<char>, u64)) -> bool {
    exists|j: int| 0 <= j < gs.len() && gkey(#[trigger] gs[j]) == key
}

spec fn members_of(gs: Seq<NsGroup>, key: (Seq<char>, u64)) -> Set<u32> {
    if has_key(gs, key) {
        gs[choose|j: int| 0 <= j < gs.len() && gkey(#[trigger] gs[j]) == key].pids@.to_set()
    } else {
        Set::empty()
    }
}

proof fn lemma_members_at(gs: Seq<NsGroup>, j: int)
    requires
        groups_wf(gs),
        0 <= j < gs.len(),
    ensures
        has_key(gs, gkey(gs[j])),
        members_of(gs, gkey(gs[j])) == gs[j].pids@.to_set(),
{
    let key = gkey(gs[j]);
    assert(has_key(gs, key));
    let c = choose|c: int| 0 <= c < gs.len() && gkey(#[trigger] gs[c]) == key;
    if c != j {
        if c < j {
            assert(gkey(gs[c]) != gkey(gs[j]));
        } else {
            assert(gkey(gs[j]) != gkey(gs[c]));
        }
    }
}

/// Inserts `p` into the increasing list `v`, keeping it increasing.
pub(crate) fn insert_sorted(v: &mut Vec<u32>, p: u32)
    requires
        increasing(old(v)@),
    ensures
        increasing(final(v)@),
        final(v)@.to_set() == old(v)@.to_set().insert(p),
        final(v)@.len() > 0,
{
    let ghost v0 = v@;
    let mut i: usize = 0;
    while i < v.len() && v[i] < p
        invariant
            v@ == v0,
            i <= v@.len(),
            increasing(v0),
            forall|k: int| 0 <= k < i ==> v0[k] < p,
        decreases v@.len() - i,
    {
        i = i + 1;
    }
    if i < v.len() && v[i] == p {
        assert(v0.to_set() =~= v0.to_set().insert(p)) by {
            assert(v0[i as int] == p);
        }
        return;
    }
    v.insert(i, p);
    proof {
        assert(v@ == v0.insert(i as int, p));
        assert forall|a: int, b: int| 0 <= a < b < v@.len() implies v@[a] < v@[b] by {
            if b < i {
            } else if b == i {
            } else if a < i {
                assert(v@[b] == v0[b - 1]);
            } else if a == i {
                assert(v@[b] == v0[b - 1]);
                assert(v0[i as int] > p);
            } else {
                assert(v@[a] == v0[a - 1] && v@[b] == v0[b - 1]);
            }
        }
        assert forall|x: u32| v@.to_set().contains(x) <==> v0.to_set().insert(p).contains(x) by {
            if v@.contains(x) {
                let k = choose|k: int| 0 <= k < v@.len() && v@[k] == x;
                if k < i {
                    assert(v0[k] == x);
                } else if k > i {
                    assert(v0[k - 1] == x);
                }
            }
            if v0.contains(x) {
                let k = choose|k: int| 0 <= k < v0.len() && v0[k] == x;
                if k < i {
                    assert(v@[k] == x);
                } else {
                    assert(v@[k + 1] == x);
                }
            }
            if x == p {
                assert(v@[i as int] == p);
            }
        }
        assert(v@.to_set() =~= v0.to_set().insert(p));
    }
}

/// The index of the group of namespace `(t, inode)`.
fn find_group(gs: &Vec<NsGroup>, t: &String, inode: u64) -> (r: Option<usize>)
    ensures
        match r {
            Some(j) => j < gs@.len() && gkey(gs@[j as int]) == (t@, inode),
            None => !has_key(gs@, (t@, inode)),
        },
{
    let mut j: usize = 0;
    while j < gs.len()
        invariant
            j <= gs@.len(),
            forall|k: int| 0 <= k < j ==> gkey(#[trigger] gs@[k]) != (t@, inode),
        decreases gs@.len() - j,
    {
        if gs[j].inode == inode && gs[j].ns_type == *t {
            return Some(j);
        }
        j = j + 1;
    }
    None
}

/// Files `p` under the namespace `(t, inode)`.
fn add_member(gs: &mut Vec<NsGroup>, t: &String, inode: u64, p: u32)
    requires
        groups_wf(old(gs)@),
    ensures
        groups_wf(final(gs)@),
        forall|k: (Seq<char>, u64)|
            #[trigger] has_key(final(gs)@, k) <==> has_key(old(gs)@, k) || k == (t@, inode),
        forall|k: (Seq<char>, u64)|
            #[trigger] members_of(final(gs)@, k) == if k == (t@, inode) {
                members_of(old(gs)@, k).insert(p)
            } else {
                members_of(old(gs)@, k)
            },
{
    let ghost g0 = gs@;
    let ghost key: (Seq<char>, u64) = (t@, inode);
    match find_group(gs, t, inode) {
        Some(j) => {
            let mut pids = gs[j].pids.clone();
            assert(pids@ =~= g0[j as int].pids@);
            insert_sorted(&mut pids, p);
            let name = gs[j].ns_type.clone();
            gs.set(j, NsGroup { ns_type: name, inode, pids });
            proof {
                assert forall|a: int, b: int| 0 <= a < b < gs@.len() implies gkey(#[trigger] gs@[a])
                    != gkey(#[trigger] gs@[b]) by {
                    assert(gkey(gs@[a]) == gkey(g0[a]) && gkey(gs@[b]) == gkey(g0[b]));
                }
                assert forall|k: (Seq<char>, u64)| #[trigger] has_key(gs@, k) <==> has_key(g0, k) || k == key by {
                    if has_key(g0, k) {
                        let c = choose|c: int| 0 <= c < g0.len() && gkey(#[trigger] g0[c]) == k;
                        assert(gkey(gs@[c]) == k);
                    }
                    if has_key(gs@, k) {
                        let c = choose|c: int| 0 <= c < gs@.len() && gkey(#[trigger] gs@[c]) == k;
                        assert(gkey(g0[c]) == k);
                    }
                }
                assert forall|k: (Seq<char>, u64)| #[trigger] members_of(gs@, k) == if k == key {
                    members_of(g0, k).insert(p)
                } else {
                    members_of(g0, k)
                } by {
                    if has_key(g0, k) {
                        let c = choose|c: int| 0 <= c < g0.len() && gkey(#[trigger] g0[c]) == k;
                        lemma_members_at(g0, c);
                        lemma_members_at(gs@, c);
                    } else if k != key {
                        assert(!has_key(gs@, k));
                    }
                }
            }
        },
        None => {
            let mut pids: Vec<u32> = Vec::new();
            pids.push(p);
            gs.push(NsGroup { ns_type: t.clone(), inode, pids });
            proof {
                let n = g0.len() as int;
                assert(gs@[n].pids@ =~= seq![p]);
                assert(seq![p].to_set() =~= Set::<u32>::empty().insert(p)) by {
                    assert(seq![p][0] == p);
                }
                assert forall|a: int, b: int| 0 <= a < b < gs@.len() implies gkey(#[trigger] gs@[a])
                    != gkey(#[trigger] gs@[b]) by {
                    if b == n {
                        assert(gkey(gs@[a]) == gkey(g0[a]));
                    }
                }
                assert forall|k: (Seq<char>, u64)| #[trigger] has_key(gs@, k) <==> has_key(g0, k) || k == key by {
                    if has_key(g0, k) {
                        let c = choose|c: int| 0 <= c < g0.len() && gkey(#[trigger] g0[c]) == k;
                        assert(gkey(gs@[c]) == k);
                    }
                    if has_key(gs@, k) {
                        let c = choose|c: int| 0 <= c < gs@.len() && gkey(#[trigger] gs@[c]) == k;
                        if c < n {
                            assert(gkey(g0[c]) == k);
                        }
                    }
                    if k == key {
                        assert(gkey(gs@[n]) == k);
                    }
                }
                assert forall|k: (Seq<char>, u64)| #[trigger] members_of(gs@, k) == if k == key {
                    members_of(g0, k).insert(p)
                } else {
                    members_of(g0, k)
                } by {
                    if has_key(g0, k) {
                        let c = choose|c: int| 0 <= c < g0.len() && gkey(#[trigger] g0[c]) == k;
                        lemma_members_at(g0, c);
                        lemma_members_at(gs@, c);
                    } else if k == key {
                        lemma_members_at(gs@, n);
                        assert(members_of(g0, k) =~= Set::<u32>::empty());
                    } else {
                        assert(!has_key(gs@, k));
                    }
                }
            }
        },
    }
}

/// The namespaces of the groups are exactly the keys they are filed under,
/// one group each.
proof fn lemma_group_count(gs: Seq<NsGroup>)
    requires
        groups_wf(gs),
    ensures
        Set::new(|k: (Seq<char>, u64)| has_key(gs, k)).len() == gs.len(),
        Set::new(|k: (Seq<char>, u64)| has_key(gs, k)).finite(),
{
    let keys = gs.map_values(|g: NsGroup| gkey(g));
    assert forall|i: int, j: int| 0 <= i < keys.len() && 0 <= j < keys.len() && i != j implies keys[i]
        != keys[j] by {
        if i < j {
            assert(gkey(gs[i]) != gkey(gs[j]));
        } else {
            assert(gkey(gs[j]) != gkey(gs[i]));
        }
    }
    assert(keys.no_duplicates());
    keys.unique_seq_to_set();
    assert forall|k: (Seq<char>, u64)| #[trigger] keys.to_set().contains(k) <==> has_key(gs, k) by {
        if has_key(gs, k) {
            let c = choose|c: int| 0 <= c < gs.len() && gkey(#[trigger] gs[c]) == k;
            assert(keys[c] == k);
        }
        if keys.to_set().contains(k) {
            let c = choose|c: int| 0 <= c < keys.len() && keys[c] == k;
            assert(gkey(gs[c]) == k);
        }
    }
    assert(keys.to_set() =~= Set::new(|k: (Seq<char>, u64)| has_key(gs, k)));
}

/// Reverse index from namespaces to the processes in them.
pub struct NamespaceTreeCache {
    groups: Vec<NsGroup>,
    built_at: Option<Instant>,
    ttl: Duration,
}

impl NamespaceTreeCache {
    /// The index: each namespace with the processes in it.
    pub closed spec fn tree(&self) -> Map<(Seq<char>, u64), Set<u32>> {
        Map::new(
            |k: (Seq<char>, u64)| has_key(self.groups@, k),
            |k: (Seq<char>, u64)| members_of(self.groups@, k),
        )
    }

    /// The index is well formed.
    pub closed spec fn wf(&self) -> bool {
        groups_wf(self.groups@)
    }

    /// Whether the index has been built and not invalidated since.
    pub closed spec fn built(&self) -> bool {
        self.built_at is Some
    }

    /// When the index was last built (meaningful while `built()`).
    pub closed spec fn built_time(&self) -> Instant {
        self.built_at->0
    }

    /// Time after which the index counts as stale.
    pub closed spec fn ttl(&self) -> Duration {
        self.ttl
    }

    /// An empty index, never built, that goes stale after `ttl`.
    pub fn new(ttl: Duration) -> (c: Self)
        ensures
            c.wf(),
            c.tree() == Map::<(Seq<char>, u64), Set<u32>>::empty(),
            !c.built(),
            c.ttl() == ttl,
    {
        let c = NamespaceTreeCache { groups: Vec::new(), built_at: None, ttl };
        assert(c.tree() =~= Map::<(Seq<char>, u64), Set<u32>>::empty());
        c
    }

    /// Rebuilds the index from the process cache's entries.
    pub fn rebuild_from(&mut self, proc_cache: &HashMap<u32, ProcCacheEntry>)
        ensures
            final(self).wf(),
            final(self).tree() == tree_of(proc_cache@),
            final(self).built(),
            final(self).ttl() == old(self).ttl(),
    {
        let ghost pc = proc_cache@;
        let ghost mut done: Set<u32> = Set::empty();
        let mut groups: Vec<NsGroup> = Vec::new();
        for (pid, e) in it: proc_cache.iter()
            invariant
                pc == proc_cache@,
                it.seq().len() == pc.len(),
                forall|i: int|
                    0 <= i < it.seq().len() ==> pc.contains_key(*(#[trigger] it.seq()[i]).0) && pc[*it.seq()[i].0]
                        == *it.seq()[i].1,
                forall|q: u32| pc.contains_key(q) ==> it.seq().contains((&q, &pc[q])),
                forall|q: u32|
                    pc.contains_key(q) ==> done.contains(q) || exists|i: int|
                        it.index() <= i < it.seq().len() && *(#[trigger] it.seq()[i]).0 == q,
                forall|q: u32| done.contains(q) ==> pc.contains_key(q),
                groups_wf(groups@),
                forall|k: (Seq<char>, u64)|
                    #[trigger] members_of(groups@, k) == Set::new(
                        |q: u32| done.contains(q) && ns_view(pc[q].namespaces@).contains(k),
                    ),
                forall|k: (Seq<char>, u64)|
                    #[trigger] has_key(groups@, k) <==> exists|q: u32|
                        done.contains(q) && ns_view(pc[q].namespaces@).contains(k),
        {
            let ghost nv = ns_view(e.namespaces@);
            assert(pc.contains_key(*pid) && pc[*pid] == *e) by {
                assert(it.seq()[it.index() as int] == (pid, e));
            }
            let mut m: usize = 0;
            while m < e.namespaces.len()
                invariant
                    m <= e.namespaces@.len(),
                    nv == ns_view(e.namespaces@),
                    groups_wf(groups@),
                    forall|k: (Seq<char>, u64)|
                        #[trigger] members_of(groups@, k) == Set::new(
                            |q: u32|
                                (done.contains(q) && ns_view(pc[q].namespaces@).contains(k)) || (q == *pid
                                    && nv.take(m as int).contains(k)),
                        ),
                    forall|k: (Seq<char>, u64)|
                        #[trigger] has_key(groups@, k) <==> (exists|q: u32|
                            done.contains(q) && ns_view(pc[q].namespaces@).contains(k)) || nv.take(
                            m as int,
                        ).contains(k),
                decreases e.namespaces@.len() - m,
            {
                let (t, inode) = &e.namespaces[m];
                add_member(&mut groups, t, *inode, *pid);
                proof {
                    assert(nv[m as int] == (t@, *inode));
                    assert forall|k: (Seq<char>, u64)| nv.take(m + 1).contains(k) <==> nv.take(m as int).contains(k)
                        || k == (t@, *inode) by {
                        if nv.take(m + 1).contains(k) {
                            let c = choose|c: int| 0 <= c < m + 1 && #[trigger] nv.take(m + 1)[c] == k;
                            if c < m {
                                assert(nv.take(m as int)[c] == k);
                            }
                        }
                        if nv.take(m as int).contains(k) {
                            let c = choose|c: int| 0 <= c < m && #[trigger] nv.take(m as int)[c] == k;
                            assert(nv.take(m + 1)[c] == k);
                        }
                        if k == (t@, *inode) {
                            assert(nv.take(m + 1)[m as int] == k);
                        }
                    }
                    assert forall|k: (Seq<char>, u64)| #[trigger] has_key(groups@, k) <==> (exists|q: u32|
                        done.contains(q) && ns_view(pc[q].namespaces@).contains(k)) || nv.take(m + 1).contains(k) by {
                        if k == (t@, *inode) {
                            assert(nv.take(m + 1)[m as int] == k);
                            assert(nv.take(m + 1).contains(k));
                        }
                        if nv.take(m as int).contains(k) {
                            let c = choose|c: int| 0 <= c < m && #[trigger] nv.take(m as int)[c] == k;
                            assert(nv.take(m + 1)[c] == k);
                        }
                        if nv.take(m + 1).contains(k) {
                            let c = choose|c: int| 0 <= c < m + 1 && #[trigger] nv.take(m + 1)[c] == k;
                            if c < m {
                                assert(nv.take(m as int)[c] == k);
                            }
                        }
                    }
                    assert forall|k: (Seq<char>, u64)| #[trigger] members_of(groups@, k) == Set::new(
                        |q: u32|
                            (done.contains(q) && ns_view(pc[q].namespaces@).contains(k)) || (q == *pid
                                && nv.take(m + 1).contains(k)),
                    ) by {
                        assert(members_of(groups@, k) =~= Set::new(
                            |q: u32|
                                (done.contains(q) && ns_view(pc[q].namespaces@).contains(k)) || (q == *pid
                                    && nv.take(m + 1).contains(k)),
                        ));
                    }
                }
                m = m + 1;
            }
            proof {
                assert(nv.take(m as int) =~= nv);
                let d2 = done.insert(*pid);
                assert forall|k: (Seq<char>, u64)| #[trigger] members_of(groups@, k) == Set::new(
                    |q: u32| d2.contains(q) && ns_view(pc[q].namespaces@).contains(k),
                ) by {
                    assert(members_of(groups@, k) =~= Set::new(
                        |q: u32| d2.contains(q) && ns_view(pc[q].namespaces@).contains(k),
                    ));
                }
                assert forall|k: (Seq<char>, u64)| #[trigger] has_key(groups@, k) <==> exists|q: u32|
                    d2.contains(q) && ns_view(pc[q].namespaces@).contains(k) by {
                    assert(pc[*pid] == *e);
                    if nv.contains(k) {
                        assert(d2.contains(*pid) && ns_view(pc[*pid].namespaces@).contains(k));
                    }
                    if exists|q: u32| done.contains(q) && ns_view(pc[q].namespaces@).contains(k) {
                        let q = choose|q: u32| done.contains(q) && ns_view(pc[q].namespaces@).contains(k);
                        assert(d2.contains(q) && ns_view(pc[q].namespaces@).contains(k));
                    }
                    if exists|q: u32| d2.contains(q) && ns_view(pc[q].namespaces@).contains(k) {
                        let q = choose|q: u32| d2.contains(q) && ns_view(pc[q].namespaces@).contains(k);
                        if q != *pid {
                            assert(done.contains(q));
                        } else {
                            assert(nv.contains(k));
                        }
                    }
                }
                assert forall|q: u32| pc.contains_key(q) implies d2.contains(q) || exists|i: int|
                    it.index() + 1 <= i < it.seq().len() && *(#[trigger] it.seq()[i]).0 == q by {
                    if !done.contains(q) {
                        let i = choose|i: int| it.index() <= i < it.seq().len() && *(#[trigger] it.seq()[i]).0 == q;
                        if i == it.index() {
                            assert(q == *pid);
                        }
                    }
                }
                done = d2;
            }
        }
        self.groups = groups;
        self.built_at = Some(now());
        proof {
            assert forall|q: u32| pc.contains_key(q) implies done.contains(q) by {}
            assert forall|k: (Seq<char>, u64)| #[trigger] members_of(self.groups@, k) == ns_members(pc, k) by {
                assert(members_of(self.groups@, k) =~= ns_members(pc, k));
            }
            assert forall|k: (Seq<char>, u64)| has_key(self.groups@, k) <==> #[trigger] ns_keys(pc).contains(k) by {
                if has_key(self.groups@, k) {
                    let q = choose|q: u32| done.contains(q) && ns_view(pc[q].namespaces@).contains(k);
                    assert(ns_members(pc, k).contains(q));
                }
                if ns_keys(pc).contains(k) {
                    let q = choose|q: u32| #[trigger] ns_members(pc, k).contains(q);
                    assert(done.contains(q));
                }
            }
            assert(self.tree() =~= tree_of(pc));
        }
    }

    /// Marks the index stale, so that the scanner rebuilds it next time.
    pub fn invalidate(&mut self)
        ensures
            final(self).wf() == old(self).wf(),
            final(self).tree() == old(self).tree(),
            !final(self).built(),
            final(self).ttl() == old(self).ttl(),
    {
        self.built_at = None;
    }

    /// Whether the index needs a rebuild: never built, invalidated, or older
    /// than its time-to-live (which depends on the clock).
    pub fn is_stale(&self) -> (r: bool)
        ensures
            !self.built() ==> r,
            self.built() ==> exists|n: Instant| r == expired_at(self.built_time(), self.ttl(), n),
    {
        match &self.built_at {
            None => true,
            Some(t) => {
                let r = expired(t, &self.ttl);
                proof {
                    let n = choose|n: Instant| r == expired_at(*t, self.ttl, n);
                    assert(r == expired_at(self.built_time(), self.ttl(), n));
                }
                r
            },
        }
    }

    /// A process in the namespace `(ns_type, inode)`, if the index has any.
    pub fn find_any_pid(&self, ns_type: &str, inode: u64) -> (r: Option<u32>)
        requires
            self.wf(),
        ensures
            r is None <==> !self.tree().contains_key((ns_type@, inode)),
            r matches Some(p) ==> self.tree()[(ns_type@, inode)].contains(p),
    {
        let t = ns_type.to_string();
        match find_group(&self.groups, &t, inode) {
            Some(j) => {
                proof {
                    lemma_members_at(self.groups@, j as int);
                }
                let p = self.groups[j].pids[0];
                assert(self.groups@[j as int].pids@.to_set().contains(p)) by {
                    assert(self.groups@[j as int].pids@[0] == p);
                }
                Some(p)
            },
            None => None,
        }
    }

    /// Every process in the namespace `(ns_type, inode)`, in increasing order.
    pub fn pids_in(&self, ns_type: &str, inode: u64) -> (v: Vec<u32>)
        requires
            self.wf(),
        ensures
            increasing(v@),
            v@.to_set() == (if self.tree().contains_key((ns_type@, inode)) {
                self.tree()[(ns_type@, inode)]
            } else {
                Set::empty()
            }),
    {
        let t = ns_type.to_string();
        match find_group(&self.groups, &t, inode) {
            Some(j) => {
                proof {
                    lemma_members_at(self.groups@, j as int);
                }
                let src = &self.groups[j].pids;
                let mut v: Vec<u32> = Vec::new();
                let mut i: usize = 0;
                while i < src.len()
                    invariant
                        i <= src@.len(),
                        v@ == src@.take(i as int),
                    decreases src@.len() - i,
                {
                    v.push(src[i]);
                    assert(src@.take(i + 1) =~= src@.take(i as int).push(src@[i as int]));
                    i = i + 1;
                }
                assert(src@.take(i as int) =~= src@);
                v
            },
            None => {
                let v: Vec<u32> = Vec::new();
                assert(v@.to_set() =~= Set::<u32>::empty());
                v
            },
        }
    }

    /// Number of namespaces in the index.
    pub fn num_entries(&self) -> (n: usize)
        requires
            self.wf(),
        ensures
            n == self.tree().dom().len(),
    {
        proof {
            lemma_group_count(self.groups@);
            assert(self.tree().dom() =~= Set::new(|k: (Seq<char>, u64)| has_key(self.groups@, k)));
        }
        self.groups.len()
    }
}

/// A process is filed under every namespace its cached entry lists.
pub proof fn lemma_member_listed(pc: Map<u32, ProcCacheEntry>, pid: u32, key: (Seq<char>, u64))
    requires
        pc.contains_key(pid),
        ns_view(pc[pid].namespaces@).contains(key),
    ensures
        tree_of(pc).contains_key(key),
        tree_of(pc)[key].contains(pid),
{
    assert(ns_members(pc, key).contains(pid));
}

/// A process is filed only under namespaces its cached entry lists.
pub proof fn lemma_member_only_listed(pc: Map<u32, ProcCacheEntry>, pid: u32, key: (Seq<char>, u64))
    requires
        tree_of(pc).contains_key(key),
        tree_of(pc)[key].contains(pid),
    ensures
        pc.contains_key(pid),
        ns_view(pc[pid].namespaces@).contains(key),
{
}

/// Every namespace in the index has a member, so that looking one up in it
/// finds a process exactly when the namespace is there.
pub proof fn lemma_indexed_namespace_has_member(c: &NamespaceTreeCache, key: (Seq<char>, u64))
    requires
        c.wf(),
        c.tree().contains_key(key),
    ensures
        exists|p: u32| c.tree()[key].contains(p),
{
    let gs = c.groups@;
    let j = choose|j: int| 0 <= j < gs.len() && gkey(#[trigger] gs[j]) == key;
    lemma_members_at(gs, j);
    assert(increasing(gs[j].pids@) && gs[j].pids@.len() > 0);
    assert(c.tree()[key] == members_of(gs, key));
    assert(gs[j].pids@.contains(gs[j].pids@[0]));
    assert(c.tree()[key].contains(gs[j].pids@[0]));
}

} // verus!
