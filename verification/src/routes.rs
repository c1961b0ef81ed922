//! The logic behind the API's requests: which processes a name-or-pid filter
//! selects, which flows belong to a process, and how a flow is reported.

use vstd::prelude::*;

use crate::bpf_types::{NetFlowKey, NetFlowStat};
use crate::pb::{GetNetworkFlowsResponse, NetworkFlow};
use crate::text::{chars_of, dec_chars, parse_u32, parse_u32_spec, push_dec, push_str};

verus! {

/// `name` holds `filter` as a substring.
pub open spec fn contains_text(name: Seq<char>, filter: Seq<char>) -> bool {
    exists|i: int| 0 <= i && i + filter.len() <= name.len() && #[trigger] name.subrange(i, i + filter.len()) == filter
}

/// Whether `v` holds `f` as a substring.
fn contains_in(v: &Vec<char>, f: &Vec<char>) -> (b: bool)
    ensures
        b == contains_text(v@, f@),
{
    if f.len() > v.len() {
        return false;
    }
    if f.len() == 0 {
        assert(v@.subrange(0int, 0int + f@.len()) =~= f@);
        assert(contains_text(v@, f@));
        return true;
    }
    let mut i: usize = 0;
    while i <= v.len() - f.len()
        invariant
            0 < f@.len() <= v@.len(),
            i <= v@.len() - f@.len() + 1,
            forall|k: int| 0 <= k < i ==> #[trigger] v@.subrange(k, k + f@.len()) != f@,
        decreases v@.len() - f@.len() + 1 - i,
    {
        if crate::text::equals_in(v, i, i + f.len(), f) {
            return true;
        }
        i = i + 1;
    }
    false
}

/// A process is selected by a filter when its name contains the filter, or
/// when the filter is a pid number equal to its pid; the empty filter
/// selects every process.
pub open spec fn selects(filter: Seq<char>, pid: u32, name: Seq<char>) -> bool {
    filter.len() == 0 || contains_text(name, filter) || parse_u32_spec(filter) == Some(pid)
}

/// Whether the filter selects the process `pid` named `name`.
pub fn process_matches(filter: &str, pid: u32, name: &str) -> (b: bool)
    ensures
        b == selects(filter@, pid, name@),
{
    let f = chars_of(filter);
    if f.len() == 0 {
        return true;
    }
    let n = chars_of(name);
    if contains_in(&n, &f) {
        return true;
    }
    match parse_u32(filter) {
        Some(p) => p == pid,
        None => false,
    }
}

/// The positions, in order, of the processes (pid, name) that the filter
/// selects.
pub fn select_processes(procs: &Vec<(u32, String)>, filter: &str) -> (idx: Vec<usize>)
    ensures
        forall|k: int| 0 <= k < idx@.len() ==> (#[trigger] idx@[k]) < procs@.len(),
        forall|a: int, b: int| 0 <= a < b < idx@.len() ==> idx@[a] < idx@[b],
        forall|i: int|
            0 <= i < procs@.len() ==> (idx@.contains(i as usize) <==> selects(
                filter@,
                #[trigger] procs@[i].0,
                procs@[i].1@,
            )),
{
    let mut idx: Vec<usize> = Vec::new();
    let mut i: usize = 0;
    while i < procs.len()
        invariant
            i <= procs@.len(),
            forall|k: int| 0 <= k < idx@.len() ==> (#[trigger] idx@[k]) < i,
            forall|a: int, b: int| 0 <= a < b < idx@.len() ==> idx@[a] < idx@[b],
            forall|j: int|
                0 <= j < i ==> (idx@.contains(j as usize) <==> selects(
                    filter@,
                    #[trigger] procs@[j].0,
                    procs@[j].1@,
                )),
        decreases procs@.len() - i,
    {
        let ghost before = idx@;
        if process_matches(filter, procs[i].0, procs[i].1.as_str()) {
            idx.push(i);
            proof {
                assert forall|j: int| 0 <= j < i + 1 implies (idx@.contains(j as usize) <==> selects(
                    filter@,
                    #[trigger] procs@[j].0,
                    procs@[j].1@,
                )) by {
                    if j < i {
                        if idx@.contains(j as usize) {
                            let k = choose|k: int| 0 <= k < idx@.len() && idx@[k] == j as usize;
                            if k < before.len() {
                                assert(before[k] == j as usize);
                            }
                        }
                        if before.contains(j as usize) {
                            let k = choose|k: int| 0 <= k < before.len() && before[k] == j as usize;
                            assert(idx@[k] == j as usize);
                        }
                    } else {
                        assert(idx@[idx@.len() - 1] == i);
                    }
                }
            }
        } else {
            proof {
                assert(!idx@.contains(i)) by {
                    if idx@.contains(i) {
                        let k = choose|k: int| 0 <= k < idx@.len() && idx@[k] == i;
                    }
                }
            }
        }
        i = i + 1;
    }
    idx
}

/// The flows of `pid` among `all`, in order.
pub open spec fn flows_of(all: Seq<(NetFlowKey, NetFlowStat)>, pid: u32) -> Seq<(NetFlowKey, NetFlowStat)> {
    all.filter(|e: (NetFlowKey, NetFlowStat)| e.0.pid == pid)
}

/// Keeps the flows of `pid`.
pub fn flows_for_pid(all: &Vec<(NetFlowKey, NetFlowStat)>, pid: u32) -> (out: Vec<(NetFlowKey, NetFlowStat)>)
    ensures
        out@ == flows_of(all@, pid),
{
    let mut out: Vec<(NetFlowKey, NetFlowStat)> = Vec::new();
    let mut i: usize = 0;
    proof {
        reveal(Seq::filter);
        assert(flows_of(all@.take(0), pid) =~= Seq::<(NetFlowKey, NetFlowStat)>::empty());
    }
    while i < all.len()
        invariant
            i <= all@.len(),
            out@ == flows_of(all@.take(i as int), pid),
        decreases all@.len() - i,
    {
        proof {
            reveal(Seq::filter);
            assert(all@.take(i + 1).drop_last() =~= all@.take(i as int));
            assert(all@.take(i + 1).last() == all@[i as int]);
        }
        let e = all[i];
        if e.0.pid == pid {
            out.push(e);
        }
        i = i + 1;
    }
    assert(all@.take(i as int) =~= all@);
    out
}

/// The bytes of `x` in memory order: little-endian or big-endian, as the
/// machine is.
pub open spec fn le_bytes(x: u32) -> Seq<u8> {
    seq![(x % 0x100) as u8, ((x / 0x100) % 0x100) as u8, ((x / 0x1_0000) % 0x100) as u8, (x / 0x100_0000) as u8]
}

/// The bytes of `x`, most significant first.
pub open spec fn be_bytes(x: u32) -> Seq<u8> {
    seq![(x / 0x100_0000) as u8, ((x / 0x1_0000) % 0x100) as u8, ((x / 0x100) % 0x100) as u8, (x % 0x100) as u8]
}

/// `u32::to_ne_bytes` of two words: the bytes of each in the machine's
/// order, which is the same for both.
#[verifier::external_body]
fn ne_bytes2(x: u32, y: u32) -> (b: ([u8; 4], [u8; 4]))
    ensures
        (b.0@ == le_bytes(x) && b.1@ == le_bytes(y)) || (b.0@ == be_bytes(x) && b.1@ == be_bytes(y)),
{
    (x.to_ne_bytes(), y.to_ne_bytes())
}

/// The dotted-quad text of an IPv4 address given as its four bytes.
pub open spec fn dotted(b: Seq<u8>) -> Seq<char> {
    dec_chars(b[0] as nat) + seq!['.'] + dec_chars(b[1] as nat) + seq!['.'] + dec_chars(b[2] as nat) + seq!['.']
        + dec_chars(b[3] as nat)
}

fn push_quad(s: &mut String, b: &[u8; 4])
    ensures
        final(s)@ == old(s)@ + dotted(b@),
{
    let ghost s0 = s@;
    push_dec(s, b[0] as u64);
    crate::text::push_char(s, '.');
    push_dec(s, b[1] as u64);
    crate::text::push_char(s, '.');
    push_dec(s, b[2] as u64);
    crate::text::push_char(s, '.');
    push_dec(s, b[3] as u64);
    assert(s@ =~= s0 + dotted(b@));
}

/// The name of an IP protocol number: `TCP`, `UDP`, or `proto<n>`.
pub open spec fn protocol_name(p: u16) -> Seq<char> {
    if p == 6 {
        "TCP"@
    } else if p == 17 {
        "UDP"@
    } else {
        "proto"@ + dec_chars(p as nat)
    }
}

/// `f` reports the flow `(k, v)`.
pub open spec fn flow_reported(k: NetFlowKey, v: NetFlowStat, f: NetworkFlow) -> bool {
    &&& (f.local_address@ == dotted(le_bytes(k.saddr)) && f.remote_address@ == dotted(le_bytes(k.daddr)))
        || (f.local_address@ == dotted(be_bytes(k.saddr)) && f.remote_address@ == dotted(be_bytes(k.daddr)))
    &&& f.local_port == k.sport && f.remote_port == k.dport
    &&& f.protocol@ == protocol_name(k.protocol)
    &&& f.rx_bytes == v.rx_bytes && f.tx_bytes == v.tx_bytes
    &&& f.rx_packets == v.rx_packets && f.tx_packets == v.tx_packets
}

/// Reports one flow: its endpoints, protocol and counters.
pub fn flow_to_pb(k: &NetFlowKey, v: &NetFlowStat) -> (f: NetworkFlow)
    ensures
        flow_reported(*k, *v, f),
{
    let (b1, b2) = ne_bytes2(k.saddr, k.daddr);
    let mut local_address = String::new();
    let mut remote_address = String::new();
    push_quad(&mut local_address, &b1);
    push_quad(&mut remote_address, &b2);
    assert(local_address@ =~= dotted(b1@));
    assert(remote_address@ =~= dotted(b2@));
    let protocol = if k.protocol == 6 {
        "TCP".to_string()
    } else if k.protocol == 17 {
        "UDP".to_string()
    } else {
        let mut p = String::new();
        push_str(&mut p, "proto");
        push_dec(&mut p, k.protocol as u64);
        p
    };
    NetworkFlow {
        local_address,
        remote_address,
        local_port: k.sport as u32,
        remote_port: k.dport as u32,
        protocol,
        rx_bytes: v.rx_bytes,
        tx_bytes: v.tx_bytes,
        rx_packets: v.rx_packets,
        tx_packets: v.tx_packets,
    }
}

/// The network-flows response for the flows of one process.
pub fn network_flows_response(flows: &Vec<(NetFlowKey, NetFlowStat)>) -> (r: GetNetworkFlowsResponse)
    ensures
        r.flows@.len() == flows@.len(),
        forall|i: int| 0 <= i < flows@.len() ==> flow_reported(flows@[i].0, flows@[i].1, #[trigger] r.flows@[i]),
{
    let mut out: Vec<NetworkFlow> = Vec::new();
    let mut i: usize = 0;
    while i < flows.len()
        invariant
            i <= flows@.len(),
            out@.len() == i,
            forall|j: int| 0 <= j < i ==> flow_reported(flows@[j].0, flows@[j].1, #[trigger] out@[j]),
        decreases flows@.len() - i,
    {
        out.push(flow_to_pb(&flows[i].0, &flows[i].1));
        i = i + 1;
    }
    GetNetworkFlowsResponse { flows: out }
}

/// A filter that occurs anywhere inside a process's name selects it: if the
/// name holds the filter at position `at`, the process is selected.
/// Conversely, a selected process has the empty filter, a name holding the
/// filter somewhere, or a pid the filter spells.
pub proof fn lemma_filter_inside_name_selects(filter: Seq<char>, pid: u32, name: Seq<char>, at: int)
    requires
        0 <= at,
        at + filter.len() <= name.len(),
        name.subrange(at, at + filter.len()) == filter,
    ensures
        selects(filter, pid, name),
{
}

/// The selection is exactly what a filter asks: a listed process is picked
/// when its name holds the filter at some position, and a picked process has
/// the empty filter, a name holding the filter, or the pid the filter
/// spells.
pub proof fn lemma_selection_by_substring(procs: Seq<(u32, String)>, filter: Seq<char>, idx: Seq<usize>, i: int, at: int)
    requires
        forall|k: int|
            0 <= k < procs.len() ==> (idx.contains(k as usize) <==> selects(
                filter,
                #[trigger] procs[k].0,
                procs[k].1@,
            )),
        0 <= i < procs.len(),
    ensures
        (0 <= at && at + filter.len() <= procs[i].1@.len() && procs[i].1@.subrange(at, at + filter.len()) == filter)
            ==> idx.contains(i as usize),
        idx.contains(i as usize) ==> (filter.len() == 0 || (exists|j: int|
            0 <= j && j + filter.len() <= procs[i].1@.len() && #[trigger] procs[i].1@.subrange(j, j + filter.len())
                == filter) || parse_u32_spec(filter) == Some(procs[i].0)),
{
    assert(selects(filter, procs[i].0, procs[i].1@) <==> idx.contains(i as usize));
}

} // verus!
