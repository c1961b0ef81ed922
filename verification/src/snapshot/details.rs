//! On-demand details of one process: its open file descriptors, its network
//! connections (its socket inodes matched against the kernel's socket
//! tables), its children, and the text shown for one of its namespaces.

use std::collections::HashMap;

use vstd::prelude::*;

use crate::files::{list_links, lister_ok, lists, proc_path, proc_path_text, read_file, reader_ok, reads};
use crate::pb::{GetNamespaceDetailsResponse, NetworkConnection, OpenFile};
use crate::text_order::{lemma_text_lt_irreflexive, lemma_text_lt_total, lemma_text_lt_transitive, text_less, text_lt, texts, texts_increasing};
use crate::snapshot::namespace_tree_cache::{increasing, insert_sorted, NamespaceTreeCache};
use crate::text::{parse_u64, equals_in, dec_chars, push_dec, push_str, chars_of, has_prefix, parse_u32, parse_u32_spec, parse_u64_in, parse_u64_spec, starts_with_in};

verus! {

/// What a path names on disk, as its metadata tells.
#[derive(Clone, Copy, Debug, PartialEq, Eq, Structural)]
pub enum FileKind {
    Directory,
    Regular,
    Fifo,
    Other,
}

/// The kind of an open file, from the target of its descriptor link and,
/// for an absolute path outside `/dev/` and `/proc/`, the metadata `kind`
/// found for it (`None` when there is none, as for a deleted file).
pub open spec fn fd_class(path: Seq<char>, kind: Option<FileKind>) -> Seq<char> {
    if has_prefix(path, "socket:["@) || has_prefix(path, "[socket:"@) {
        "socket"@
    } else if has_prefix(path, "pipe:["@) {
        "pipe"@
    } else if has_prefix(path, "/dev/"@) {
        "char"@
    } else if has_prefix(path, "anon_inode:"@) {
        "other"@
    } else if has_prefix(path, "/proc/"@) {
        "directory"@
    } else if has_prefix(path, "/"@) {
        match kind {
            Some(FileKind::Directory) => "directory"@,
            Some(FileKind::Regular) => "regular"@,
            Some(FileKind::Fifo) => "fifo"@,
            Some(FileKind::Other) => "other"@,
            None => "regular"@,
        }
    } else {
        "other"@
    }
}

/// The metadata lookup `kind`, asked about `path`, may answer `out`.
pub open spec fn kind_of<K: Fn(&str) -> Option<FileKind>>(kind: K, path: Seq<char>, out: Option<FileKind>) -> bool {
    exists|p: &str| p@ == path && call_ensures(kind, (p,), out)
}

/// The metadata lookup accepts every path.
pub open spec fn kind_ok<K: Fn(&str) -> Option<FileKind>>(kind: K) -> bool {
    forall|p: &str| call_requires(kind, (p,))
}

fn starts(v: &Vec<char>, lit: &str) -> (b: bool)
    ensures
        b == has_prefix(v@, lit@),
{
    let p = chars_of(lit);
    assert(v@.subrange(0, v@.len() as int) =~= v@);
    starts_with_in(v, 0, v.len(), &p)
}

/// Classifies an open file by the target of its descriptor link.
pub fn classify_fd<K: Fn(&str) -> Option<FileKind>>(path: &str, kind: &K) -> (r: String)
    requires
        kind_ok(*kind),
    ensures
        exists|k: Option<FileKind>|
            r@ == fd_class(path@, k) && (has_prefix(path@, "/"@) && !has_prefix(path@, "/dev/"@)
                && !has_prefix(path@, "/proc/"@) ==> kind_of(*kind, path@, k)),
{
    let v = chars_of(path);
    proof {
        reveal_strlit("socket:[");
        reveal_strlit("[socket:");
        reveal_strlit("pipe:[");
        reveal_strlit("anon_inode:");
        reveal_strlit("/");
        if has_prefix(path@, "/"@) {
            assert(path@[0] == '/') by {
                assert(path@.take(1)[0] == "/"@[0]);
            }
        }
    }
    if starts(&v, "socket:[") || starts(&v, "[socket:") {
        proof {
            if has_prefix(path@, "socket:["@) {
                assert(path@[0] == path@.take(8)[0]);
            } else {
                assert(path@[0] == path@.take(8)[0]);
            }
        }
        assert(text_is(fd_class(path@, None), "socket"@));
        "socket".to_string()
    } else if starts(&v, "pipe:[") {
        assert(path@[0] == path@.take(6)[0]);
        assert(text_is(fd_class(path@, None), "pipe"@));
        "pipe".to_string()
    } else if starts(&v, "/dev/") {
        assert(text_is(fd_class(path@, None), "char"@));
        "char".to_string()
    } else if starts(&v, "anon_inode:") {
        assert(path@[0] == path@.take(11)[0]);
        assert(text_is(fd_class(path@, None), "other"@));
        "other".to_string()
    } else if starts(&v, "/proc/") {
        assert(text_is(fd_class(path@, None), "directory"@));
        "directory".to_string()
    } else if starts(&v, "/") {
        let k = kind(path);
        assert(kind_of(*kind, path@, k));
        let s = match k {
            Some(FileKind::Directory) => "directory",
            Some(FileKind::Regular) => "regular",
            Some(FileKind::Fifo) => "fifo",
            Some(FileKind::Other) => "other",
            None => "regular",
        };
        assert(text_is(fd_class(path@, k), s@));
        s.to_string()
    } else {
        assert(text_is(fd_class(path@, None), "other"@));
        "other".to_string()
    }
}

/// `a` is the text `b` (named, so that each branch states its class).
spec fn text_is(a: Seq<char>, b: Seq<char>) -> bool {
    a == b
}

/// The open files named by a listing of `/proc/<pid>/fd`: each link whose
/// name is a descriptor number, with its target and kind, in listing order.
pub open spec fn open_files_of<K: Fn(&str) -> Option<FileKind>>(
    listing: Seq<(String, String)>,
    kind: K,
    files: Seq<OpenFile>,
) -> bool
    decreases listing.len(),
{
    if listing.len() == 0 {
        files.len() == 0
    } else {
        let (name, target) = listing.last();
        match parse_u32_spec(name@) {
            None => open_files_of(listing.drop_last(), kind, files),
            Some(fd) => files.len() > 0 && open_files_of(listing.drop_last(), kind, files.drop_last())
                && files.last().fd == fd && files.last().path@ == target@ && exists|k: Option<FileKind>|
                files.last().file_type@ == fd_class(target@, k) && (has_prefix(target@, "/"@)
                    && !has_prefix(target@, "/dev/"@) && !has_prefix(target@, "/proc/"@) ==> kind_of(
                    kind,
                    target@,
                    k,
                )),
        }
    }
}

/// The open files of a listing of `/proc/<pid>/fd`.
pub fn open_files_in<K: Fn(&str) -> Option<FileKind>>(listing: &Vec<(String, String)>, kind: &K) -> (out: Vec<OpenFile>)
    requires
        kind_ok(*kind),
    ensures
        open_files_of(listing@, *kind, out@),
{
    let mut out: Vec<OpenFile> = Vec::new();
    let mut k: usize = 0;
    while k < listing.len()
        invariant
            k <= listing@.len(),
            kind_ok(*kind),
            open_files_of(listing@.take(k as int), *kind, out@),
        decreases listing@.len() - k,
    {
        let ghost before = out@;
        let (name, target) = &listing[k];
        proof {
            assert(listing@.take(k + 1).drop_last() =~= listing@.take(k as int));
            assert(listing@.take(k + 1).last() == listing@[k as int]);
        }
        match parse_u32(name.as_str()) {
            Some(fd) => {
                let file_type = classify_fd(target.as_str(), kind);
                out.push(OpenFile { fd, path: target.clone(), file_type });
                assert(out@.drop_last() =~= before);
            },
            None => {},
        }
        k = k + 1;
    }
    assert(listing@.take(k as int) =~= listing@);
    out
}

/// The open files of `pid`, from the links of `/proc/<pid>/fd`; empty when
/// the directory cannot be read.
pub fn read_open_files_pub<G: Fn(&str) -> Option<Vec<(String, String)>>, K: Fn(&str) -> Option<FileKind>>(
    pid: u32,
    links: &G,
    kind: &K,
) -> (out: Vec<OpenFile>)
    requires
        lister_ok(*links),
        kind_ok(*kind),
    ensures
        exists|l: Option<Vec<(String, String)>>|
            lists(*links, proc_path_text(pid as int, "fd"@), l) && match l {
                Some(listing) => open_files_of(listing@, *kind, out@),
                None => out@.len() == 0,
            },
{
    let dir = proc_path(pid as i64, "fd");
    let l = list_links(links, &dir);
    let out = match &l {
        Some(listing) => open_files_in(listing, kind),
        None => Vec::new(),
    };
    assert(lists(*links, proc_path_text(pid as int, "fd"@), l));
    out
}

/// The inode of a socket link target `socket:[<inode>]`.
pub open spec fn socket_inode_of(target: Seq<char>) -> Option<u64> {
    if has_prefix(target, "socket:["@) && target.len() > 8 && target.last() == ']' {
        parse_u64_spec(target.subrange(8, target.len() - 1))
    } else {
        None
    }
}

/// The socket inodes of a listing of `/proc/<pid>/fd`, in listing order.
pub open spec fn socket_inodes_of(listing: Seq<(String, String)>) -> Seq<u64>
    decreases listing.len(),
{
    if listing.len() == 0 {
        Seq::empty()
    } else {
        let r = socket_inodes_of(listing.drop_last());
        match socket_inode_of(listing.last().1@) {
            Some(i) => r.push(i),
            None => r,
        }
    }
}

/// Parses the inode out of a socket link target.
pub fn socket_inode(target: &str) -> (r: Option<u64>)
    ensures
        r == socket_inode_of(target@),
{
    let v = chars_of(target);
    proof {
        reveal_strlit("socket:[");
    }
    if !starts(&v, "socket:[") || v.len() <= 8 || v[v.len() - 1] != ']' {
        return None;
    }
    parse_u64_in(&v, 8, v.len() - 1)
}

/// The socket inodes among the links of `/proc/<pid>/fd`.
pub fn socket_inodes_for_pid<G: Fn(&str) -> Option<Vec<(String, String)>>>(pid: u32, links: &G) -> (v: Vec<u64>)
    requires
        lister_ok(*links),
    ensures
        exists|l: Option<Vec<(String, String)>>|
            lists(*links, proc_path_text(pid as int, "fd"@), l) && v@ == match l {
                Some(listing) => socket_inodes_of(listing@),
                None => Seq::empty(),
            },
{
    let dir = proc_path(pid as i64, "fd");
    let l = list_links(links, &dir);
    let mut v: Vec<u64> = Vec::new();
    if let Some(listing) = &l {
        let mut k: usize = 0;
        while k < listing.len()
            invariant
                k <= listing@.len(),
                v@ == socket_inodes_of(listing@.take(k as int)),
            decreases listing@.len() - k,
        {
            proof {
                assert(listing@.take(k + 1).drop_last() =~= listing@.take(k as int));
                assert(listing@.take(k + 1).last() == listing@[k as int]);
            }
            if let Some(i) = socket_inode(listing[k].1.as_str()) {
                v.push(i);
            }
            k = k + 1;
        }
        assert(listing@.take(k as int) =~= listing@);
    }
    assert(lists(*links, proc_path_text(pid as int, "fd"@), l));
    v
}

/// One row of a TCP socket table, as the kernel reports it.
#[derive(Clone, Debug)]
pub struct TcpRow {
    pub local_address: String,
    pub remote_address: String,
    /// The connection state's name.
    pub state: String,
    /// Whether the socket is listening.
    pub listening: bool,
    pub inode: u64,
}

/// One row of a UDP socket table.
#[derive(Clone, Debug)]
pub struct UdpRow {
    pub local_address: String,
    pub remote_address: String,
    pub inode: u64,
}

/// `c` reports the TCP row `r`: a listening socket is inbound, any other
/// outbound.
pub open spec fn tcp_conn(r: TcpRow, c: NetworkConnection) -> bool {
    &&& c.local_address@ == r.local_address@
    &&& c.remote_address@ == r.remote_address@
    &&& c.state@ == r.state@
    &&& c.direction@ == if r.listening {
        "inbound"@
    } else {
        "outbound"@
    }
}

/// `c` reports the UDP row `r`: unconnected and outbound.
pub open spec fn udp_conn(r: UdpRow, c: NetworkConnection) -> bool {
    &&& c.local_address@ == r.local_address@
    &&& c.remote_address@ == r.remote_address@
    &&& c.state@ == "UNCONNECTED"@
    &&& c.direction@ == "outbound"@
}

/// `out` reports, in order, the TCP rows whose inode is in `inodes`.
pub open spec fn tcp_conns(rows: Seq<TcpRow>, inodes: Seq<u64>, out: Seq<NetworkConnection>) -> bool
    decreases rows.len(),
{
    if rows.len() == 0 {
        out.len() == 0
    } else if inodes.contains(rows.last().inode) {
        out.len() > 0 && tcp_conns(rows.drop_last(), inodes, out.drop_last()) && tcp_conn(rows.last(), out.last())
    } else {
        tcp_conns(rows.drop_last(), inodes, out)
    }
}

/// `out` reports, in order, the UDP rows whose inode is in `inodes`.
pub open spec fn udp_conns(rows: Seq<UdpRow>, inodes: Seq<u64>, out: Seq<NetworkConnection>) -> bool
    decreases rows.len(),
{
    if rows.len() == 0 {
        out.len() == 0
    } else if inodes.contains(rows.last().inode) {
        out.len() > 0 && udp_conns(rows.drop_last(), inodes, out.drop_last()) && udp_conn(rows.last(), out.last())
    } else {
        udp_conns(rows.drop_last(), inodes, out)
    }
}

fn has_inode(inodes: &Vec<u64>, i: u64) -> (b: bool)
    ensures
        b == inodes@.contains(i),
{
    let mut k: usize = 0;
    while k < inodes.len()
        invariant
            k <= inodes@.len(),
            forall|j: int| 0 <= j < k ==> inodes@[j] != i,
        decreases inodes@.len() - k,
    {
        if inodes[k] == i {
            return true;
        }
        k = k + 1;
    }
    false
}

/// The connections among the socket-table rows that belong to the sockets
/// `inodes`: the matching TCP rows, then the matching UDP rows.
pub fn connections_of(inodes: &Vec<u64>, tcp: &Vec<TcpRow>, udp: &Vec<UdpRow>) -> (out: Vec<NetworkConnection>)
    ensures
        exists|n: int|
            0 <= n <= out@.len() && tcp_conns(tcp@, inodes@, out@.take(n)) && udp_conns(
                udp@,
                inodes@,
                out@.skip(n),
            ),
{
    let mut out: Vec<NetworkConnection> = Vec::new();
    let mut k: usize = 0;
    while k < tcp.len()
        invariant
            k <= tcp@.len(),
            tcp_conns(tcp@.take(k as int), inodes@, out@),
        decreases tcp@.len() - k,
    {
        let ghost before = out@;
        proof {
            assert(tcp@.take(k + 1).drop_last() =~= tcp@.take(k as int));
            assert(tcp@.take(k + 1).last() == tcp@[k as int]);
        }
        let r = &tcp[k];
        if has_inode(inodes, r.inode) {
            let direction = if r.listening {
                "inbound".to_string()
            } else {
                "outbound".to_string()
            };
            out.push(
                NetworkConnection {
                    local_address: r.local_address.clone(),
                    remote_address: r.remote_address.clone(),
                    state: r.state.clone(),
                    direction,
                },
            );
            assert(out@.drop_last() =~= before);
        }
        k = k + 1;
    }
    assert(tcp@.take(k as int) =~= tcp@);
    let n = out.len();
    let ghost head = out@;
    let mut k: usize = 0;
    while k < udp.len()
        invariant
            k <= udp@.len(),
            n == head.len(),
            out@.len() >= n,
            out@.take(n as int) == head,
            udp_conns(udp@.take(k as int), inodes@, out@.skip(n as int)),
        decreases udp@.len() - k,
    {
        let ghost before = out@;
        proof {
            assert(udp@.take(k + 1).drop_last() =~= udp@.take(k as int));
            assert(udp@.take(k + 1).last() == udp@[k as int]);
        }
        let r = &udp[k];
        if has_inode(inodes, r.inode) {
            out.push(
                NetworkConnection {
                    local_address: r.local_address.clone(),
                    remote_address: r.remote_address.clone(),
                    state: "UNCONNECTED".to_string(),
                    direction: "outbound".to_string(),
                },
            );
            assert(out@.take(n as int) =~= before.take(n as int));
            assert(out@.skip(n as int).drop_last() =~= before.skip(n as int));
            assert(out@.skip(n as int).last() == out@.last());
        }
        k = k + 1;
    }
    assert(udp@.take(k as int) =~= udp@);
    out
}

/// The socket tables lookup `tables` may answer `out`.
pub open spec fn tables_read<T: Fn() -> (Vec<TcpRow>, Vec<UdpRow>)>(tables: T, out: (Vec<TcpRow>, Vec<UdpRow>)) -> bool {
    call_ensures(tables, (), out)
}

/// `out` is what matching the sockets `inodes` against the tables that
/// `tables` reads gives; nothing, without reading them, when there are no
/// sockets.
pub open spec fn conns_read<T: Fn() -> (Vec<TcpRow>, Vec<UdpRow>)>(
    tables: T,
    inodes: Seq<u64>,
    out: Seq<NetworkConnection>,
) -> bool {
    &&& inodes.len() == 0 ==> out.len() == 0
    &&& inodes.len() > 0 ==> exists|t: (Vec<TcpRow>, Vec<UdpRow>), n: int|
        tables_read(tables, t) && 0 <= n <= out.len() && tcp_conns(t.0@, inodes, out.take(n))
            && udp_conns(t.1@, inodes, out.skip(n))
}

/// The network connections of `pid`: its socket inodes, from the links of
/// `/proc/<pid>/fd`, matched against the socket tables that `tables` reads.
/// A process with no socket gets no connection, and the tables are then not
/// read.
pub fn read_active_connections_pub<G: Fn(&str) -> Option<Vec<(String, String)>>, T: Fn() -> (Vec<TcpRow>, Vec<UdpRow>)>(
    pid: u32,
    links: &G,
    tables: &T,
) -> (out: Vec<NetworkConnection>)
    requires
        lister_ok(*links),
        call_requires(*tables, ()),
    ensures
        exists|l: Option<Vec<(String, String)>>|
            lists(*links, proc_path_text(pid as int, "fd"@), l) && conns_read(
                *tables,
                match l {
                    Some(listing) => socket_inodes_of(listing@),
                    None => Seq::empty(),
                },
                out@,
            ),
{
    let inodes = socket_inodes_for_pid(pid, links);
    let ghost l = choose|l: Option<Vec<(String, String)>>|
        lists(*links, proc_path_text(pid as int, "fd"@), l) && inodes@ == match l {
            Some(listing) => socket_inodes_of(listing@),
            None => Seq::empty(),
        };
    if inodes.len() == 0 {
        let out: Vec<NetworkConnection> = Vec::new();
        assert(conns_read(*tables, inodes@, out@));
        return out;
    }
    let t = tables();
    let out = connections_of(&inodes, &t.0, &t.1);
    assert(tables_read(*tables, t));
    assert(conns_read(*tables, inodes@, out@));
    out
}

/// The children of `parent_pid` among processes given as pid to parent pid,
/// in increasing pid order.
pub fn child_pids(parent_pid: u32, parents: &HashMap<u32, u32>) -> (v: Vec<u32>)
    ensures
        increasing(v@),
        v@.to_set() == Set::new(|p: u32| parents@.contains_key(p) && parents@[p] == parent_pid),
{
    let mut v: Vec<u32> = Vec::new();
    let ghost mut done: Set<u32> = Set::empty();
    for (pid, ppid) in it: parents.iter()
        invariant
            it.seq().len() == parents@.len(),
            forall|i: int|
                0 <= i < it.seq().len() ==> parents@.contains_key(*(#[trigger] it.seq()[i]).0) && parents@[*it.seq()[i].0]
                    == *it.seq()[i].1,
            forall|q: u32| parents@.contains_key(q) ==> it.seq().contains((&q, &parents@[q])),
            forall|q: u32|
                parents@.contains_key(q) ==> done.contains(q) || exists|i: int|
                    it.index() <= i < it.seq().len() && *(#[trigger] it.seq()[i]).0 == q,
            forall|q: u32| done.contains(q) ==> parents@.contains_key(q),
            increasing(v@),
            v@.to_set() == Set::new(|p: u32| done.contains(p) && parents@[p] == parent_pid),
    {
        assert(parents@.contains_key(*pid) && parents@[*pid] == *ppid) by {
            assert(it.seq()[it.index() as int] == (pid, ppid));
        }
        if *ppid == parent_pid {
            insert_sorted(&mut v, *pid);
        }
        proof {
            let d2 = done.insert(*pid);
            assert(v@.to_set() =~= Set::new(|p: u32| d2.contains(p) && parents@[p] == parent_pid));
            assert forall|q: u32| parents@.contains_key(q) implies d2.contains(q) || exists|i: int|
                it.index() + 1 <= i < it.seq().len() && *(#[trigger] it.seq()[i]).0 == q by {
                if !done.contains(q) {
                    let i = choose|i: int| it.index() <= i < it.seq().len() && *(#[trigger] it.seq()[i]).0 == q;
                    if i == it.index() {
                        assert(q == *pid);
                    }
                }
            }
            done = d2;
        }
    }
    proof {
        assert forall|q: u32| parents@.contains_key(q) implies done.contains(q) by {}
        assert(v@.to_set() =~= Set::new(|p: u32| parents@.contains_key(p) && parents@[p] == parent_pid));
    }
    v
}

/// One address of one network interface: the interface's name and flags,
/// and the address as `inet <ip>` or `inet6 <ip>` (`None` for an address of
/// another family).
#[derive(Clone, Debug)]
pub struct IfAddr {
    pub name: String,
    pub flags: String,
    pub addr: Option<String>,
}

/// The interface names of `a`.
pub open spec fn names_of(a: Seq<IfAddr>) -> Set<Seq<char>> {
    Set::new(|n: Seq<char>| exists|i: int| 0 <= i < a.len() && (#[trigger] a[i]).name@ == n)
}

/// The flags of the first address of interface `n`.
pub open spec fn first_flags(a: Seq<IfAddr>, n: Seq<char>) -> Seq<char>
    decreases a.len(),
{
    if a.len() == 0 {
        Seq::empty()
    } else if a[0].name@ == n {
        a[0].flags@
    } else {
        first_flags(a.drop_first(), n)
    }
}

/// The addresses of interface `n`, in order.
pub open spec fn ips_of(a: Seq<IfAddr>, n: Seq<char>) -> Seq<Seq<char>>
    decreases a.len(),
{
    if a.len() == 0 {
        Seq::empty()
    } else {
        let r = ips_of(a.drop_last(), n);
        if a.last().name@ == n && a.last().addr is Some {
            r.push(a.last().addr->0@)
        } else {
            r
        }
    }
}

/// One indented line per address.
pub open spec fn ip_lines(ips: Seq<Seq<char>>) -> Seq<char>
    decreases ips.len(),
{
    if ips.len() == 0 {
        Seq::empty()
    } else {
        ip_lines(ips.drop_last()) + "    "@ + ips.last() + "\n"@
    }
}

/// The block of the `k`-th interface: `k: name: <flags>` then its addresses.
pub open spec fn iface_block(k: nat, name: Seq<char>, flags: Seq<char>, ips: Seq<Seq<char>>) -> Seq<char> {
    dec_chars(k) + ": "@ + name + ": <"@ + flags + ">\n"@ + ip_lines(ips)
}

/// The blocks of the interfaces `ns`, numbered from 1.
pub open spec fn blocks(a: Seq<IfAddr>, ns: Seq<Seq<char>>) -> Seq<char>
    decreases ns.len(),
{
    if ns.len() == 0 {
        Seq::empty()
    } else {
        blocks(a, ns.drop_last()) + iface_block(
            ns.len(),
            ns.last(),
            first_flags(a, ns.last()),
            ips_of(a, ns.last()),
        )
    }
}

/// `out` lists the interfaces of `a` in name order, as `ip addr` does: each
/// with its number, name and flags, then its addresses.
pub open spec fn net_links_of(a: Seq<IfAddr>, out: Seq<char>) -> bool {
    exists|ns: Seq<Seq<char>>| texts_increasing(ns) && ns.to_set() == names_of(a) && out == blocks(a, ns)
}

/// Whether `v[i]` comes before the text `xv`.
fn text_before(v: &Vec<String>, i: usize, xv: &Vec<char>) -> (r: bool)
    requires
        i < v@.len(),
    ensures
        r == text_lt(v@[i as int]@, xv@),
{
    let cv = chars_of(v[i].as_str());
    text_less(&cv, xv)
}

/// Inserts `x` into the increasing list `v`, keeping it increasing.
fn insert_text_sorted(v: &mut Vec<String>, x: &String)
    requires
        texts_increasing(texts(old(v)@)),
    ensures
        texts_increasing(texts(final(v)@)),
        texts(final(v)@).to_set() == texts(old(v)@).to_set().insert(x@),
{
    let ghost t0 = texts(v@);
    let xv = chars_of(x.as_str());
    let mut i: usize = 0;
    while i < v.len() && text_before(v, i, &xv)
        invariant
            i <= v@.len(),
            texts(v@) == t0,
            xv@ == x@,
            texts_increasing(t0),
            forall|k: int| 0 <= k < i ==> text_lt(#[trigger] t0[k], x@),
        decreases v@.len() - i,
    {
        i = i + 1;
    }
    if i < v.len() && v[i] == *x {
        proof {
            assert(t0[i as int] == x@);
            assert(t0.to_set() =~= t0.to_set().insert(x@));
        }
        return;
    }
    proof {
        if i < t0.len() {
            lemma_text_lt_total(t0[i as int], x@);
            assert(t0[i as int] != x@);
            assert(!text_lt(t0[i as int], x@));
            assert(text_lt(x@, t0[i as int]));
        }
    }
    v.insert(i, x.clone());
    proof {
        let t1 = texts(v@);
        assert(t1 =~= t0.insert(i as int, x@));
        assert forall|a: int, b: int| 0 <= a < b < t1.len() implies text_lt(t1[a], t1[b]) by {
            if b < i {
            } else if b == i {
            } else if a < i {
                assert(t1[b] == t0[b - 1]);
                if b - 1 > a {
                }
                assert(text_lt(t0[a], x@));
                if b - 1 == i as int {
                    lemma_text_lt_transitive(t0[a], x@, t0[b - 1]);
                } else {
                    assert(text_lt(x@, t0[i as int]));
                    lemma_text_lt_transitive(t0[a], x@, t0[i as int]);
                    lemma_text_lt_transitive(t0[a], t0[i as int], t0[b - 1]);
                }
            } else if a == i {
                assert(t1[b] == t0[b - 1]);
                if b - 1 > i {
                    lemma_text_lt_transitive(x@, t0[i as int], t0[b - 1]);
                }
            } else {
                assert(t1[a] == t0[a - 1] && t1[b] == t0[b - 1]);
            }
        }
        assert forall|y: Seq<char>| t1.to_set().contains(y) <==> t0.to_set().insert(x@).contains(y) by {
            if t1.contains(y) {
                let k = choose|k: int| 0 <= k < t1.len() && t1[k] == y;
                if k < i {
                    assert(t0[k] == y);
                } else if k > i {
                    assert(t0[k - 1] == y);
                }
            }
            if t0.contains(y) {
                let k = choose|k: int| 0 <= k < t0.len() && t0[k] == y;
                if k < i {
                    assert(t1[k] == y);
                } else {
                    assert(t1[k + 1] == y);
                }
            }
            if y == x@ {
                assert(t1[i as int] == y);
            }
        }
        assert(t1.to_set() =~= t0.to_set().insert(x@));
    }
}

/// The interface names of the first `k` addresses of `a`.
pub open spec fn names_upto(a: Seq<IfAddr>, k: int) -> Set<Seq<char>> {
    Set::new(|n: Seq<char>| exists|i: int| 0 <= i < k && (#[trigger] a[i]).name@ == n)
}

proof fn lemma_names_upto_step(a: Seq<IfAddr>, k: int)
    requires
        0 <= k < a.len(),
    ensures
        names_upto(a, k + 1) == names_upto(a, k).insert(a[k].name@),
{
    assert forall|n: Seq<char>| #[trigger] names_upto(a, k + 1).contains(n) <==> names_upto(a, k).insert(
        a[k].name@,
    ).contains(n) by {
        if names_upto(a, k + 1).contains(n) {
            let i = choose|i: int| 0 <= i < k + 1 && (#[trigger] a[i]).name@ == n;
            if i < k {
                assert(names_upto(a, k).contains(n));
            }
        }
        if names_upto(a, k).contains(n) {
            let i = choose|i: int| 0 <= i < k && (#[trigger] a[i]).name@ == n;
            assert(0 <= i < k + 1 && a[i].name@ == n);
        }
        if n == a[k].name@ {
            assert(0 <= k < k + 1 && a[k].name@ == n);
        }
    }
    assert(names_upto(a, k + 1) =~= names_upto(a, k).insert(a[k].name@));
}

/// The interface names of `a`, in increasing order.
fn sorted_names(a: &Vec<IfAddr>) -> (v: Vec<String>)
    ensures
        texts_increasing(texts(v@)),
        texts(v@).to_set() == names_of(a@),
{
    let mut v: Vec<String> = Vec::new();
    let mut k: usize = 0;
    assert(texts(v@).to_set() =~= names_upto(a@, 0));
    while k < a.len()
        invariant
            k <= a@.len(),
            texts_increasing(texts(v@)),
            texts(v@).to_set() == names_upto(a@, k as int),
        decreases a@.len() - k,
    {
        insert_text_sorted(&mut v, &a[k].name);
        proof {
            lemma_names_upto_step(a@, k as int);
        }
        k = k + 1;
    }
    assert(names_upto(a@, k as int) =~= names_of(a@));
    v
}

fn flags_of(a: &Vec<IfAddr>, name: &String) -> (r: String)
    ensures
        r@ == first_flags(a@, name@),
{
    let mut i: usize = 0;
    assert(a@.skip(0) =~= a@);
    while i < a.len()
        invariant
            i <= a@.len(),
            first_flags(a@, name@) == first_flags(a@.skip(i as int), name@),
        decreases a@.len() - i,
    {
        assert(a@.skip(i as int)[0] == a@[i as int]);
        if a[i].name == *name {
            return a[i].flags.clone();
        }
        assert(a@.skip(i as int).drop_first() =~= a@.skip(i + 1));
        i = i + 1;
    }
    String::new()
}

fn ips_for(a: &Vec<IfAddr>, name: &String) -> (r: Vec<String>)
    ensures
        texts(r@) == ips_of(a@, name@),
{
    let mut r: Vec<String> = Vec::new();
    let mut i: usize = 0;
    assert(texts(r@) =~= ips_of(a@.take(0), name@));
    while i < a.len()
        invariant
            i <= a@.len(),
            texts(r@) == ips_of(a@.take(i as int), name@),
        decreases a@.len() - i,
    {
        assert(a@.take(i + 1).drop_last() =~= a@.take(i as int));
        assert(a@.take(i + 1).last() == a@[i as int]);
        let ghost before = r@;
        if a[i].name == *name {
            if let Some(ip) = &a[i].addr {
                r.push(ip.clone());
                assert(texts(r@) =~= texts(before).push(ip@));
            }
        }
        i = i + 1;
    }
    assert(a@.take(i as int) =~= a@);
    r
}

/// Appends the block of the `k`-th interface to `out`.
fn push_block(out: &mut String, k: u64, name: &String, flags: &String, ips: &Vec<String>)
    ensures
        final(out)@ == old(out)@ + iface_block(k as nat, name@, flags@, texts(ips@)),
{
    let ghost base = out@;
    push_dec(out, k);
    push_str(out, ": ");
    push_str(out, name.as_str());
    push_str(out, ": <");
    push_str(out, flags.as_str());
    push_str(out, ">\n");
    let ghost head = out@;
    assert(head == base + (dec_chars(k as nat) + ": "@ + name@ + ": <"@ + flags@ + ">\n"@));
    let mut j: usize = 0;
    assert(texts(ips@).take(0) =~= Seq::<Seq<char>>::empty());
    assert(out@ =~= head + ip_lines(texts(ips@).take(0)));
    while j < ips.len()
        invariant
            j <= ips@.len(),
            out@ == head + ip_lines(texts(ips@).take(j as int)),
        decreases ips@.len() - j,
    {
        push_str(out, "    ");
        push_str(out, ips[j].as_str());
        push_str(out, "\n");
        proof {
            let t = texts(ips@);
            assert(t.take(j + 1).drop_last() =~= t.take(j as int));
            assert(t.take(j + 1).last() == ips@[j as int]@);
            assert(out@ =~= head + ip_lines(t.take(j + 1)));
        }
        j = j + 1;
    }
    assert(texts(ips@).take(j as int) =~= texts(ips@));
    assert(out@ =~= base + iface_block(k as nat, name@, flags@, texts(ips@)));
}

/// Lists the interfaces of `a` in name order, each with its number, name
/// and flags, then its addresses.
pub fn format_net_links(a: &Vec<IfAddr>) -> (out: String)
    ensures
        net_links_of(a@, out@),
{
    let names = sorted_names(a);
    let ghost ns = texts(names@);
    let mut out = String::new();
    let mut k: usize = 0;
    assert(out@ =~= blocks(a@, ns.take(0)));
    while k < names.len()
        invariant
            k <= names@.len(),
            ns == texts(names@),
            out@ == blocks(a@, ns.take(k as int)),
        decreases names@.len() - k,
    {
        let flags = flags_of(a, &names[k]);
        let ips = ips_for(a, &names[k]);
        push_block(&mut out, (k + 1) as u64, &names[k], &flags, &ips);
        proof {
            assert(ns.take(k + 1).drop_last() =~= ns.take(k as int));
            assert(ns.take(k + 1).last() == names@[k as int]@);
        }
        k = k + 1;
    }
    assert(ns.take(k as int) =~= ns);
    out
}

/// Why a network namespace could not be entered.
#[derive(Clone, Copy, Debug, PartialEq, Eq, Structural)]
pub enum NetNsError {
    /// Its namespace file could not be opened.
    Open,
    /// Joining it failed.
    Setns,
}

/// A file's text, or the empty text when it could not be read.
pub open spec fn text_or_empty(out: Option<String>) -> Seq<char> {
    match out {
        Some(s) => s@,
        None => Seq::empty(),
    }
}

/// The reference process for a namespace: the given one when it is not 0;
/// else a member of the namespace according to `tree` when the inode is a
/// number and the namespace is in the index; else 0, meaning none.
pub open spec fn reference_ok(tree: Map<(Seq<char>, u64), Set<u32>>, ns_type: Seq<char>, ns_inode: Seq<char>, given: u32, r: u32) -> bool {
    if given > 0 {
        r == given
    } else {
        match parse_u64_spec(ns_inode) {
            Some(i) => if tree.contains_key((ns_type, i)) {
                tree[(ns_type, i)].contains(r)
            } else {
                r == 0
            },
            None => r == 0,
        }
    }
}

/// The details shown of a namespace of type `ns_type` whose member is
/// `pid`: for `mnt` its mount table; for `user` its uid and gid maps; for
/// `uts` its host name (when the namespace could be joined); for `net` its
/// routes and interfaces. All empty for no member (0) or another type.
pub open spec fn details_ok<
    F: Fn(&str) -> Option<String>,
    U: Fn(u32) -> Option<String>,
    L: Fn(u32) -> Result<Vec<IfAddr>, NetNsError>,
>(read: F, uts: U, net: L, ns_type: Seq<char>, pid: u32, r: GetNamespaceDetailsResponse) -> bool {
    let empty = Seq::<char>::empty();
    if pid == 0 || !(ns_type == "mnt"@ || ns_type == "user"@ || ns_type == "uts"@ || ns_type == "net"@) {
        r.mount_info@ == empty && r.net_links@ == empty && r.net_routes@ == empty && r.uts_info@ == empty
            && r.user_maps@ == empty
    } else if ns_type == "mnt"@ {
        (exists|o: Option<String>|
            reads(read, proc_path_text(pid as int, "mountinfo"@), o) && r.mount_info@ == text_or_empty(o))
            && r.net_links@ == empty && r.net_routes@ == empty && r.uts_info@ == empty && r.user_maps@ == empty
    } else if ns_type == "user"@ {
        (exists|u: Option<String>, g: Option<String>|
            reads(read, proc_path_text(pid as int, "uid_map"@), u) && reads(
                read,
                proc_path_text(pid as int, "gid_map"@),
                g,
            ) && r.user_maps@ == "UID Map:\n"@ + text_or_empty(u) + "\nGID Map:\n"@ + text_or_empty(g))
            && r.mount_info@ == empty && r.net_links@ == empty && r.net_routes@ == empty && r.uts_info@ == empty
    } else if ns_type == "uts"@ {
        (exists|h: Option<String>|
            call_ensures(uts, (pid,), h) && r.uts_info@ == match h {
                Some(name) => "hostname="@ + name@,
                None => empty,
            }) && r.mount_info@ == empty && r.net_links@ == empty && r.net_routes@ == empty && r.user_maps@ == empty
    } else {
        (exists|o: Option<String>|
            reads(read, proc_path_text(pid as int, "net/route"@), o) && r.net_routes@ == text_or_empty(o))
            && (exists|l: Result<Vec<IfAddr>, NetNsError>|
            call_ensures(net, (pid,), l) && match l {
                Ok(a) => net_links_of(a@, r.net_links@),
                Err(NetNsError::Open) => r.net_links@ == "Error: Could not open network namespace"@,
                Err(NetNsError::Setns) => r.net_links@ == "Error: Failed to setns to network namespace"@,
            }) && r.mount_info@ == empty && r.uts_info@ == empty && r.user_maps@ == empty
    }
}

fn read_or_empty<F: Fn(&str) -> Option<String>>(pid: u32, leaf: &str, read: &F) -> (s: String)
    requires
        reader_ok(*read),
    ensures
        exists|o: Option<String>| reads(*read, proc_path_text(pid as int, leaf@), o) && s@ == text_or_empty(o),
{
    let path = proc_path(pid as i64, leaf);
    let o = read_file(read, &path);
    let s = match &o {
        Some(t) => t.clone(),
        None => String::new(),
    };
    assert(reads(*read, proc_path_text(pid as int, leaf@), o) && s@ == text_or_empty(o));
    s
}

fn is_word(v: &Vec<char>, lit: &str) -> (b: bool)
    ensures
        b == (v@ == lit@),
{
    let w = chars_of(lit);
    assert(v@.subrange(0, v@.len() as int) =~= v@);
    equals_in(v, 0, v.len(), &w)
}

/// Builds the details of the namespace `(ns_type, ns_inode)` from one of its
/// member processes: `reference_pid`, or, when that is 0, one found in the
/// namespace index. Files are read through `read`; the host name and the
/// interfaces come from `uts` and `net`, which join the member's namespace.
/// Without a member, the response echoes the namespace with empty details.
pub fn read_namespace_details<
    F: Fn(&str) -> Option<String>,
    U: Fn(u32) -> Option<String>,
    L: Fn(u32) -> Result<Vec<IfAddr>, NetNsError>,
>(
    ns_type: &str,
    ns_inode: &str,
    reference_pid: u32,
    namespace_tree: &NamespaceTreeCache,
    read: &F,
    uts: &U,
    net: &L,
) -> (r: GetNamespaceDetailsResponse)
    requires
        namespace_tree.wf(),
        reader_ok(*read),
        forall|p: u32| call_requires(*uts, (p,)),
        forall|p: u32| call_requires(*net, (p,)),
    ensures
        r.ns_type@ == ns_type@,
        r.ns_inode@ == ns_inode@,
        exists|pid: u32|
            reference_ok(namespace_tree.tree(), ns_type@, ns_inode@, reference_pid, pid) && details_ok(
                *read,
                *uts,
                *net,
                ns_type@,
                pid,
                r,
            ),
{
    let ref_pid = if reference_pid > 0 {
        reference_pid
    } else {
        match parse_u64(ns_inode) {
            Some(inode) => match namespace_tree.find_any_pid(ns_type, inode) {
                Some(p) => p,
                None => 0,
            },
            None => 0,
        }
    };
    assert(reference_ok(namespace_tree.tree(), ns_type@, ns_inode@, reference_pid, ref_pid));
    let t = chars_of(ns_type);
    let mut mount_info = String::new();
    let mut net_links = String::new();
    let mut net_routes = String::new();
    let mut uts_info = String::new();
    let mut user_maps = String::new();
    if ref_pid != 0 {
        if is_word(&t, "mnt") {
            mount_info = read_or_empty(ref_pid, "mountinfo", read);
        } else if is_word(&t, "user") {
            let uid = read_or_empty(ref_pid, "uid_map", read);
            let gid = read_or_empty(ref_pid, "gid_map", read);
            push_str(&mut user_maps, "UID Map:\n");
            push_str(&mut user_maps, uid.as_str());
            push_str(&mut user_maps, "\nGID Map:\n");
            push_str(&mut user_maps, gid.as_str());
        } else if is_word(&t, "uts") {
            let h = uts(ref_pid);
            if let Some(name) = &h {
                push_str(&mut uts_info, "hostname=");
                push_str(&mut uts_info, name.as_str());
            }
            assert(call_ensures(*uts, (ref_pid,), h));
        } else if is_word(&t, "net") {
            net_routes = read_or_empty(ref_pid, "net/route", read);
            let l = net(ref_pid);
            net_links = match &l {
                Ok(a) => format_net_links(a),
                Err(NetNsError::Open) => "Error: Could not open network namespace".to_string(),
                Err(NetNsError::Setns) => "Error: Failed to setns to network namespace".to_string(),
            };
            assert(call_ensures(*net, (ref_pid,), l));
        }
    }
    let r = GetNamespaceDetailsResponse {
        ns_type: ns_type.to_string(),
        ns_inode: ns_inode.to_string(),
        mount_info,
        net_links,
        net_routes,
        uts_info,
        user_maps,
    };
    assert(details_ok(*read, *uts, *net, ns_type@, ref_pid, r));
    r
}

/// A uts namespace is reported by its member's host name: with a given
/// member whose host-name lookup answers `name`, the response's `uts_info`
/// is `hostname=` followed by exactly that name, and the other details are
/// empty.
pub proof fn lemma_uts_info_is_host_name<
    F: Fn(&str) -> Option<String>,
    U: Fn(u32) -> Option<String>,
    L: Fn(u32) -> Result<Vec<IfAddr>, NetNsError>,
>(
    read: F,
    uts: U,
    net: L,
    tree: Map<(Seq<char>, u64), Set<u32>>,
    ns_inode: Seq<char>,
    reference_pid: u32,
    name: String,
    r: GetNamespaceDetailsResponse,
)
    requires
        reference_pid > 0,
        exists|pid: u32| reference_ok(tree, "uts"@, ns_inode, reference_pid, pid) && details_ok(read, uts, net, "uts"@, pid, r),
        forall|h: Option<String>| call_ensures(uts, (reference_pid,), h) ==> h == Some(name),
    ensures
        r.uts_info@.len() == 9 + name@.len(),
        r.uts_info@.take(9) == seq!['h', 'o', 's', 't', 'n', 'a', 'm', 'e', '='],
        r.uts_info@.skip(9) == name@,
        r.mount_info@.len() == 0 && r.net_links@.len() == 0 && r.net_routes@.len() == 0 && r.user_maps@.len() == 0,
{
    reveal_strlit("hostname=");
    reveal_strlit("uts");
    reveal_strlit("mnt");
    reveal_strlit("user");
    reveal_strlit("net");
    assert("uts"@ != "mnt"@) by {
        assert("uts"@[0] != "mnt"@[0]);
    }
    assert("uts"@ != "user"@) by {
        assert("uts"@.len() != "user"@.len());
    }
    let pid = choose|pid: u32| reference_ok(tree, "uts"@, ns_inode, reference_pid, pid) && details_ok(read, uts, net, "uts"@, pid, r);
    assert(pid == reference_pid);
    let h = choose|h: Option<String>|
        call_ensures(uts, (pid,), h) && r.uts_info@ == match h {
            Some(n) => "hostname="@ + n@,
            None => Seq::<char>::empty(),
        };
    assert(h == Some(name));
    assert(r.uts_info@ == "hostname="@ + name@);
    assert(r.uts_info@.take(9) =~= seq!['h', 'o', 's', 't', 'n', 'a', 'm', 'e', '=']);
    assert(r.uts_info@.skip(9) =~= name@);
}

} // verus!
