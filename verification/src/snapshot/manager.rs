//! Which process manager (systemd, a container runtime) a process runs under:
//! the nearest ancestor whose command name is a known manager, walking up the
//! parent chain through a cache of (name, parent) pairs and, for processes
//! missing from it, their stat files.

use std::collections::{HashMap, HashSet};

use vstd::prelude::*;

use crate::files::{proc_path, proc_path_text, read_file, reader_ok, reads};
use crate::text::{
    chars_of, equals_in, find_char_in, index_of, last_index_of, lemma_index_of_is,
    lemma_last_index_of_is, parse_u32_in, parse_u32_spec, rfind_char_in, string_of,
    token_ranges, tokens,
};

verus! {

/// A process manager.
#[derive(Debug, Clone, Copy, PartialEq, Eq, Structural)]
pub enum Manager {
    Systemd,
    Containerd,
    Docker,
    Podman,
    Crio,
}

/// The command name of each manager.
pub open spec fn manager_name(m: Manager) -> Seq<char> {
    match m {
        Manager::Systemd => "systemd"@,
        Manager::Containerd => "containerd"@,
        Manager::Docker => "dockerd"@,
        Manager::Podman => "podman"@,
        Manager::Crio => "crio"@,
    }
}

impl Manager {
    /// The manager's command name.
    pub fn as_str(&self) -> (s: &'static str)
        ensures
            s@ == manager_name(*self),
    {
        match self {
            Manager::Systemd => "systemd",
            Manager::Containerd => "containerd",
            Manager::Docker => "dockerd",
            Manager::Podman => "podman",
            Manager::Crio => "crio",
        }
    }
}

/// Name and parent of a process.
pub struct ProcInfo {
    pub comm: String,
    pub ppid: u32,
}

/// Name and parent read from a stat line: the name between the first `(` and
/// the last `)`, and the parent as the second word after the character that
/// follows that `)`.
pub open spec fn proc_info_fields(stat: Seq<char>) -> Option<(Seq<char>, u32)> {
    let l = index_of(stat, '(') as int;
    let r = last_index_of(stat, ')');
    if l >= stat.len() || r < 0 || r <= l || r + 2 > stat.len() {
        None
    } else {
        let t = tokens(stat.subrange(r + 2, stat.len() as int));
        if t.len() >= 2 && parse_u32_spec(t[1]) is Some {
            Some((stat.subrange(l + 1, r), parse_u32_spec(t[1])->0))
        } else {
            None
        }
    }
}

/// Parses the name and parent out of a stat line.
pub fn parse_proc_info(stat: &str) -> (r: Option<ProcInfo>)
    ensures
        match proc_info_fields(stat@) {
            None => r is None,
            Some(f) => r matches Some(i) && i.comm@ == f.0 && i.ppid == f.1,
        },
{
    let v = chars_of(stat);
    let n = v.len();
    let l = match find_char_in(&v, 0, n, '(') {
        Some(i) => i,
        None => {
            proof {
                lemma_index_of_is(v@, '(', n as int);
            }
            return None;
        },
    };
    proof {
        lemma_index_of_is(v@, '(', l as int);
    }
    let r = match rfind_char_in(&v, 0, n, ')') {
        Some(i) => i,
        None => {
            proof {
                lemma_last_index_of_is(v@, ')', -1);
            }
            return None;
        },
    };
    proof {
        lemma_last_index_of_is(v@, ')', r as int);
    }
    if r <= l || n - r < 2 {
        return None;
    }
    let t = token_ranges(&v, r + 2, n);
    if t.len() < 2 {
        return None;
    }
    let ppid = match parse_u32_in(&v, t[1].0, t[1].1) {
        Some(x) => x,
        None => {
            return None;
        },
    };
    Some(ProcInfo { comm: string_of(&v, l + 1, r), ppid })
}

/// Reads the name and parent of `pid` from its stat file.
pub fn read_proc_info<F: Fn(&str) -> Option<String>>(pid: u32, read: &F) -> (r: Option<ProcInfo>)
    requires
        reader_ok(*read),
    ensures
        exists|out: Option<String>|
            reads(*read, proc_path_text(pid as int, "stat"@), out) && match out {
                Some(s) => match proc_info_fields(s@) {
                    None => r is None,
                    Some(f) => r matches Some(i) && i.comm@ == f.0 && i.ppid == f.1,
                },
                None => r is None,
            },
{
    let path = proc_path(pid as i64, "stat");
    match read_file(read, &path) {
        Some(s) => parse_proc_info(s.as_str()),
        None => None,
    }
}

/// The manager that an ancestor named `comm`, `depth` generations above the
/// process, reveals: none for the process itself; systemd only as the direct
/// parent; a container runtime at any depth.
pub open spec fn manager_for(comm: Seq<char>, depth: nat) -> Option<Manager> {
    if depth == 0 {
        None
    } else if comm == "systemd"@ && depth == 1 {
        Some(Manager::Systemd)
    } else if comm == "containerd"@ {
        Some(Manager::Containerd)
    } else if comm == "dockerd"@ {
        Some(Manager::Docker)
    } else if comm == "podman"@ {
        Some(Manager::Podman)
    } else if comm == "crio"@ {
        Some(Manager::Crio)
    } else {
        None
    }
}

fn is_text(v: &Vec<char>, lit: &str) -> (b: bool)
    ensures
        b == (v@ == lit@),
{
    let w = chars_of(lit);
    assert(v@.subrange(0, v@.len() as int) =~= v@);
    equals_in(v, 0, v.len(), &w)
}

/// The manager revealed by an ancestor named `comm` at `depth`.
pub fn manager_at(comm: &str, depth: u32) -> (m: Option<Manager>)
    ensures
        m == manager_for(comm@, depth as nat),
{
    let v = chars_of(comm);
    assert(v@.subrange(0, v@.len() as int) =~= v@);
    if depth == 0 {
        None
    } else if is_text(&v, "systemd") && depth == 1 {
        Some(Manager::Systemd)
    } else if is_text(&v, "containerd") {
        Some(Manager::Containerd)
    } else if is_text(&v, "dockerd") {
        Some(Manager::Docker)
    } else if is_text(&v, "podman") {
        Some(Manager::Podman)
    } else if is_text(&v, "crio") {
        Some(Manager::Crio)
    } else {
        None
    }
}

/// What is known of a process on the walk: its name and parent, or nothing
/// when it could not be read.
pub type Info = Option<(Seq<char>, u32)>;

/// The (name, parent) pairs of a cache, names taken by their text.
pub open spec fn names_view(m: Map<u32, (String, u32)>) -> Map<u32, (Seq<char>, u32)> {
    m.map_values(|e: (String, u32)| (e.0@, e.1))
}

/// `info` is what the walk learns of `p`: the cached pair when `p` is in the
/// cache, else what its stat file, read through `read`, gives.
pub open spec fn info_ok<F: Fn(&str) -> Option<String>>(
    cache: Map<u32, (Seq<char>, u32)>,
    read: F,
    p: u32,
    info: Info,
) -> bool {
    if cache.contains_key(p) {
        info == Some(cache[p])
    } else {
        exists|out: Option<String>|
            reads(read, proc_path_text(p as int, "stat"@), out) && info == match out {
                Some(s) => proc_info_fields(s@),
                None => None,
            }
    }
}

/// Outcome of the walk up from `cur`, at `depth` generations above the
/// starting process, having passed `visited`, when `tr` lists the processes
/// it looks up from here on with what it learns of each. `None` when `tr` is
/// not the list of lookups the walk makes.
///
/// The walk stops with no manager at pid 0, at a process seen before, at a
/// process it cannot read, or at a process that is its own parent or whose
/// parent is 0; it stops with a manager at the first ancestor that reveals
/// one.
pub open spec fn walk(tr: Seq<(u32, Info)>, cur: u32, depth: nat, visited: Set<u32>) -> Option<Option<Manager>>
    decreases tr.len(),
{
    if cur == 0 || visited.contains(cur) {
        if tr.len() == 0 {
            Some(None)
        } else {
            None
        }
    } else if tr.len() == 0 || tr[0].0 != cur {
        None
    } else {
        match tr[0].1 {
            None => if tr.len() == 1 {
                Some(None)
            } else {
                None
            },
            Some((comm, ppid)) => {
                if manager_for(comm, depth) is Some {
                    if tr.len() == 1 {
                        Some(manager_for(comm, depth))
                    } else {
                        None
                    }
                } else if ppid == 0 || ppid == cur {
                    if tr.len() == 1 {
                        Some(None)
                    } else {
                        None
                    }
                } else {
                    walk(tr.drop_first(), ppid, depth + 1, visited.insert(cur))
                }
            },
        }
    }
}

/// One step of the walk: with what is learned of `cur`, the walk from `cur`
/// over `step` then `fut` goes on as the walk from its parent over `fut`.
proof fn lemma_walk_step(
    comm: Seq<char>,
    ppid: u32,
    fut: Seq<(u32, Info)>,
    cur: u32,
    depth: nat,
    visited: Set<u32>,
)
    requires
        cur != 0,
        !visited.contains(cur),
        manager_for(comm, depth) is None,
        ppid != 0,
        ppid != cur,
    ensures
        walk(seq![(cur, Some((comm, ppid)))] + fut, cur, depth, visited) == walk(
            fut,
            ppid,
            depth + 1,
            visited.insert(cur),
        ),
{
    assert((seq![(cur, Some((comm, ppid)))] + fut).drop_first() =~= fut);
}

/// A set of nonzero `u32` has fewer than 2^32 elements.
proof fn lemma_u32_set_len(s: Set<u32>)
    requires
        s.finite(),
        !s.contains(0),
    ensures
        s.len() < 0x1_0000_0000,
{
    let full = Set::<u32>::range(1, u32::MAX).insert(u32::MAX);
    vstd::set_lib::range_set_properties::<u32>(1, u32::MAX);
    assert(s.subset_of(full));
    vstd::set_lib::lemma_len_subset(s, full);
}

/// Finds the manager of `pid`: walks up the parent chain, taking each
/// process's name and parent from `cache` when it is there and from its stat
/// file otherwise.
pub fn detect_manager<F: Fn(&str) -> Option<String>>(
    pid: u32,
    cache: &HashMap<u32, (String, u32)>,
    read: &F,
) -> (m: Option<Manager>)
    requires
        reader_ok(*read),
    ensures
        exists|tr: Seq<(u32, Info)>|
            walk(tr, pid, 0, Set::empty()) == Some(m) && forall|k: int|
                0 <= k < tr.len() ==> info_ok(names_view(cache@), *read, (#[trigger] tr[k]).0, tr[k].1),
{
    let mut current_pid = pid;
    let mut visited: HashSet<u32> = HashSet::new();
    let mut depth: u32 = 0;
    let ghost mut done: Seq<(u32, Info)> = Seq::empty();
    loop
        invariant
            reader_ok(*read),
            visited@.finite(),
            !visited@.contains(0),
            visited@.len() == depth,
            forall|fut: Seq<(u32, Info)>|
                walk(done + fut, pid, 0, Set::empty()) == #[trigger] walk(
                    fut,
                    current_pid,
                    depth as nat,
                    visited@,
                ),
            forall|k: int|
                0 <= k < done.len() ==> info_ok(names_view(cache@), *read, (#[trigger] done[k]).0, done[k].1),
        decreases 0x1_0000_0000 - depth,
    {
        if current_pid == 0 || visited.contains(&current_pid) {
            proof {
                assert(walk(done + Seq::empty(), pid, 0, Set::empty()) == walk(
                    Seq::empty(),
                    current_pid,
                    depth as nat,
                    visited@,
                ));
                assert(done + Seq::<(u32, Info)>::empty() =~= done);
            }
            return None;
        }
        proof {
            lemma_u32_set_len(visited@.insert(current_pid));
        }
        let cached = cache.get(&current_pid);
        let (comm, ppid) = match cached {
            Some(entry) => (entry.0.clone(), entry.1),
            None => match read_proc_info(current_pid, read) {
                Some(info) => (info.comm, info.ppid),
                None => {
                    let ghost step: (u32, Info) = (current_pid, None);
                    proof {
                        assert(info_ok(names_view(cache@), *read, current_pid, None));
                        let tr = done.push(step);
                        assert(walk(done + seq![step], pid, 0, Set::empty()) == walk(
                            seq![step],
                            current_pid,
                            depth as nat,
                            visited@,
                        ));
                        assert(done + seq![step] =~= tr);
                        assert(forall|k: int| 0 <= k < done.len() ==> tr[k] == done[k]);
                    }
                    return None;
                },
            },
        };
        let ghost step: (u32, Info) = (current_pid, Some((comm@, ppid)));
        proof {
            assert(info_ok(names_view(cache@), *read, current_pid, step.1));
        }
        let found = manager_at(comm.as_str(), depth);
        if found.is_some() {
            proof {
                let tr = done.push(step);
                assert(walk(done + seq![step], pid, 0, Set::empty()) == walk(
                    seq![step],
                    current_pid,
                    depth as nat,
                    visited@,
                ));
                assert(done + seq![step] =~= tr);
                assert(forall|k: int| 0 <= k < done.len() ==> tr[k] == done[k]);
            }
            return found;
        }
        if ppid == 0 || ppid == current_pid {
            proof {
                let tr = done.push(step);
                assert(walk(done + seq![step], pid, 0, Set::empty()) == walk(
                    seq![step],
                    current_pid,
                    depth as nat,
                    visited@,
                ));
                assert(done + seq![step] =~= tr);
                assert(forall|k: int| 0 <= k < done.len() ==> tr[k] == done[k]);
            }
            return None;
        }
        proof {
            assert forall|fut: Seq<(u32, Info)>|
                walk(done.push(step) + fut, pid, 0, Set::empty()) == #[trigger] walk(
                    fut,
                    ppid,
                    (depth + 1) as nat,
                    visited@.insert(current_pid),
                ) by {
                assert(done.push(step) + fut =~= done + (seq![step] + fut));
                lemma_walk_step(comm@, ppid, fut, current_pid, depth as nat, visited@);
                assert(walk(done + (seq![step] + fut), pid, 0, Set::empty()) == walk(
                    seq![step] + fut,
                    current_pid,
                    depth as nat,
                    visited@,
                ));
            }
            done = done.push(step);
        }
        visited.insert(current_pid);
        depth = depth + 1;
        current_pid = ppid;
    }
}

/// The walk ends at the nearest ancestor that reveals a manager: no process
/// it passes on the way reveals one, and when it ends with a manager, the
/// last process it looked up, at the largest depth, reveals that manager.
/// With no manager, no process it read reveals one.
pub proof fn lemma_walk_nearest(
    tr: Seq<(u32, Info)>,
    cur: u32,
    depth: nat,
    visited: Set<u32>,
    m: Option<Manager>,
)
    requires
        walk(tr, cur, depth, visited) == Some(m),
    ensures
        forall|k: int|
            0 <= k < tr.len() - 1 ==> ((#[trigger] tr[k]).1 matches Some(x) && manager_for(x.0, (depth + k) as nat)
                is None),
        m matches Some(mm) ==> (tr.len() >= 1 && (tr.last().1 matches Some(x) && manager_for(
            x.0,
            (depth + tr.len() - 1) as nat,
        ) == Some(mm))),
        m is None ==> forall|k: int|
            0 <= k < tr.len() ==> ((#[trigger] tr[k]).1 matches Some(x) ==> manager_for(x.0, (depth + k) as nat)
                is None),
    decreases tr.len(),
{
    if cur == 0 || visited.contains(cur) {
    } else {
        match tr[0].1 {
            None => {},
            Some((comm, ppid)) => {
                if manager_for(comm, depth) is Some {
                } else if ppid == 0 || ppid == cur {
                } else {
                    let rest = tr.drop_first();
                    lemma_walk_nearest(rest, ppid, depth + 1, visited.insert(cur), m);
                    assert forall|k: int| 0 <= k < tr.len() - 1 implies ((#[trigger] tr[k]).1 matches Some(x)
                        && manager_for(x.0, (depth + k) as nat) is None) by {
                        if k > 0 {
                            assert(tr[k] == rest[k - 1]);
                        }
                    }
                    if m is Some {
                        assert(tr.last() == rest.last());
                    } else {
                        assert forall|k: int| 0 <= k < tr.len() implies ((#[trigger] tr[k]).1 matches Some(x)
                            ==> manager_for(x.0, (depth + k) as nat) is None) by {
                            if k > 0 {
                                assert(tr[k] == rest[k - 1]);
                            }
                        }
                    }
                }
            },
        }
    }
}

/// When every process the walk looks up is in the cache, nothing is read:
/// each lookup gives the cached (name, parent) pair, and the manager found
/// is the one revealed by the nearest cached ancestor (`None` when none on
/// the walk reveals one).
pub proof fn lemma_cached_chain_manager<F: Fn(&str) -> Option<String>>(
    cache: Map<u32, (Seq<char>, u32)>,
    read: F,
    pid: u32,
    tr: Seq<(u32, Info)>,
    m: Option<Manager>,
)
    requires
        walk(tr, pid, 0, Set::empty()) == Some(m),
        forall|k: int| 0 <= k < tr.len() ==> info_ok(cache, read, (#[trigger] tr[k]).0, tr[k].1),
        forall|k: int| 0 <= k < tr.len() ==> cache.contains_key((#[trigger] tr[k]).0),
    ensures
        forall|k: int| 0 <= k < tr.len() ==> (#[trigger] tr[k]).1 == Some(cache[tr[k].0]),
        forall|k: int|
            0 <= k < tr.len() - 1 ==> manager_for(cache[(#[trigger] tr[k]).0].0, k as nat) is None,
        m matches Some(mm) ==> (tr.len() >= 1 && manager_for(cache[tr.last().0].0, (tr.len() - 1) as nat)
            == Some(mm)),
        m is None ==> forall|k: int| 0 <= k < tr.len() ==> manager_for(cache[(#[trigger] tr[k]).0].0, k as nat) is None,
{
    lemma_walk_nearest(tr, pid, 0, Set::empty(), m);
    assert forall|k: int| 0 <= k < tr.len() implies (#[trigger] tr[k]).1 == Some(cache[tr[k].0]) by {
        assert(info_ok(cache, read, tr[k].0, tr[k].1));
    }
}

/// An ancestor reveals the manager whose command name it bears: whenever a
/// name reveals a manager, that manager's name is the ancestor's name. The
/// container runtimes are revealed at every depth above the process, systemd
/// only as the direct parent, and the process itself reveals none.
pub proof fn lemma_manager_named_by_ancestor(comm: Seq<char>, depth: nat)
    ensures
        manager_for(comm, depth) matches Some(m) ==> manager_name(m) == comm,
        depth > 0 ==> manager_for("containerd"@, depth) == Some(Manager::Containerd),
        depth > 0 ==> manager_for("dockerd"@, depth) == Some(Manager::Docker),
        depth > 0 ==> manager_for("podman"@, depth) == Some(Manager::Podman),
        depth > 0 ==> manager_for("crio"@, depth) == Some(Manager::Crio),
        manager_for("systemd"@, depth) == (if depth == 1 {
            Some(Manager::Systemd)
        } else {
            None
        }),
        manager_for(comm, 0) is None,
{
    reveal_strlit("systemd");
    reveal_strlit("containerd");
    reveal_strlit("dockerd");
    reveal_strlit("podman");
    reveal_strlit("crio");
    assert("containerd"@ != "systemd"@) by {
        assert("containerd"@.len() != "systemd"@.len());
    }
    assert("dockerd"@ != "systemd"@) by {
        assert("dockerd"@[0] != "systemd"@[0]);
    }
    assert("dockerd"@ != "containerd"@) by {
        assert("dockerd"@.len() != "containerd"@.len());
    }
    assert("podman"@ != "systemd"@ && "podman"@ != "containerd"@ && "podman"@ != "dockerd"@) by {
        assert("podman"@.len() == 6);
    }
    assert("crio"@ != "systemd"@ && "crio"@ != "containerd"@ && "crio"@ != "dockerd"@ && "crio"@ != "podman"@) by {
        assert("crio"@.len() == 4);
    }
}

} // verus!
