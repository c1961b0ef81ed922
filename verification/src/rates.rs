//! State published by the rates poller, and the integer part of its work:
//! the per-process growth of the cumulative I/O counters between two polls,
//! and the host-wide totals of that growth. Dividing by the elapsed time is
//! left to the caller.

use std::collections::HashMap;

use vstd::prelude::*;

use crate::bpf_types::{IoStat, NetFlowKey, NetFlowStat};

verus! {

/// Snapshot produced by the rates poller on every tick.
#[derive(Clone, Debug, Default)]
pub struct RateSnapshot {
    /// Per-process cumulative counters, summed across CPUs.
    pub cumulative_io: HashMap<u32, IoStat>,
    /// Per-process growth per second since the previous poll.
    pub per_pid_rates: HashMap<u32, IoStat>,
    /// Host-wide growth per second since the previous poll.
    pub host_rates: HostIoRates,
    /// Per-process cumulative flow counters, as the kernel map holds them.
    pub flows: HashMap<u32, Vec<(NetFlowKey, NetFlowStat)>>,
}

/// Host-wide I/O rates in bytes per second.
#[derive(Clone, Copy, Debug)]
pub struct HostIoRates {
    pub io_read_bytes_per_sec: u64,
    pub io_write_bytes_per_sec: u64,
    pub net_rx_bytes_per_sec: u64,
    pub net_tx_bytes_per_sec: u64,
}

impl Default for HostIoRates {
    fn default() -> (r: Self)
        ensures
            r.io_read_bytes_per_sec == 0,
            r.io_write_bytes_per_sec == 0,
            r.net_rx_bytes_per_sec == 0,
            r.net_tx_bytes_per_sec == 0,
    {
        HostIoRates {
            io_read_bytes_per_sec: 0,
            io_write_bytes_per_sec: 0,
            net_rx_bytes_per_sec: 0,
            net_tx_bytes_per_sec: 0,
        }
    }
}

/// `a - b`, or 0 when `b` exceeds `a`.
pub open spec fn sat_sub(a: u64, b: u64) -> u64 {
    if a >= b {
        (a - b) as u64
    } else {
        0
    }
}

/// The all-zero counters.
pub open spec fn zero_io() -> IoStat {
    IoStat { file_read_bytes: 0, file_write_bytes: 0, net_rx_bytes: 0, net_tx_bytes: 0 }
}

/// The previous counters of `pid`: zero for a process not seen before.
pub open spec fn prev_of(prev: Map<u32, IoStat>, pid: u32) -> IoStat {
    if prev.contains_key(pid) {
        prev[pid]
    } else {
        zero_io()
    }
}

/// Growth of each counter from `p` to `n`; a counter that went down (the
/// process's map entry was evicted and recreated) counts as no growth.
pub open spec fn io_growth(p: IoStat, n: IoStat) -> IoStat {
    IoStat {
        file_read_bytes: sat_sub(n.file_read_bytes, p.file_read_bytes),
        file_write_bytes: sat_sub(n.file_write_bytes, p.file_write_bytes),
        net_rx_bytes: sat_sub(n.net_rx_bytes, p.net_rx_bytes),
        net_tx_bytes: sat_sub(n.net_tx_bytes, p.net_tx_bytes),
    }
}

/// Sum of the four counters of each of `s`, as unbounded integers.
pub open spec fn io_sum(s: Seq<IoStat>) -> (int, int, int, int)
    decreases s.len(),
{
    if s.len() == 0 {
        (0, 0, 0, 0)
    } else {
        let t = io_sum(s.drop_last());
        let d = s.last();
        (
            t.0 + d.file_read_bytes,
            t.1 + d.file_write_bytes,
            t.2 + d.net_rx_bytes,
            t.3 + d.net_tx_bytes,
        )
    }
}

/// `x` reduced modulo 2^64: what a `u64` that counted up to `x`, wrapping
/// around, holds.
pub open spec fn wrap64(x: int) -> u64 {
    (x % 0x1_0000_0000_0000_0000) as u64
}

/// The counters whose unbounded sums are `t`, each wrapped to 64 bits.
pub open spec fn io_of_sum(t: (int, int, int, int)) -> IoStat {
    IoStat { file_read_bytes: wrap64(t.0), file_write_bytes: wrap64(t.1), net_rx_bytes: wrap64(t.2), net_tx_bytes: wrap64(t.3) }
}

/// Adding `b` with wrap-around to a counter that holds `s` wrapped holds
/// `s + b` wrapped.
proof fn lemma_wrap_step(s: int, b: u64)
    requires
        s >= 0,
    ensures
        vstd::wrapping::u64_specs::wrapping_add(wrap64(s), b) == wrap64(s + b),
{
    let m: int = 0x1_0000_0000_0000_0000;
    let a = s % m;
    vstd::arithmetic::div_mod::lemma_mod_division_less_than_divisor(s, m);
    vstd::arithmetic::div_mod::lemma_add_mod_noop(s, b as int, m);
    vstd::arithmetic::div_mod::lemma_small_mod(b as nat, m as nat);
    vstd::arithmetic::div_mod::lemma_small_mod(a as nat, m as nat);
    if a + b < m {
        vstd::arithmetic::div_mod::lemma_small_mod((a + b) as nat, m as nat);
    } else {
        vstd::arithmetic::div_mod::lemma_mod_sub_multiples_vanish(a + b, m);
        vstd::arithmetic::div_mod::lemma_small_mod((a + b - m) as nat, m as nat);
    }
}

/// Adds the counters of `values` together, as the per-CPU values of one map
/// entry are combined; each counter wraps around past 2^64, as the `+=` of
/// a release build does.
pub fn sum_io(values: &[IoStat]) -> (acc: IoStat)
    ensures
        acc == io_of_sum(io_sum(values@)),
{
    let mut acc = IoStat::default();
    let mut i: usize = 0;
    assert(values@.take(0) =~= Seq::<IoStat>::empty());
    while i < values.len()
        invariant
            i <= values@.len(),
            acc == io_of_sum(io_sum(values@.take(i as int))),
            io_sum(values@.take(i as int)).0 >= 0,
            io_sum(values@.take(i as int)).1 >= 0,
            io_sum(values@.take(i as int)).2 >= 0,
            io_sum(values@.take(i as int)).3 >= 0,
        decreases values@.len() - i,
    {
        let ghost t = io_sum(values@.take(i as int));
        proof {
            assert(values@.take(i + 1).drop_last() =~= values@.take(i as int));
        }
        let v = values[i];
        proof {
            lemma_wrap_step(t.0, v.file_read_bytes);
            lemma_wrap_step(t.1, v.file_write_bytes);
            lemma_wrap_step(t.2, v.net_rx_bytes);
            lemma_wrap_step(t.3, v.net_tx_bytes);
        }
        acc = IoStat {
            file_read_bytes: acc.file_read_bytes.wrapping_add(v.file_read_bytes),
            file_write_bytes: acc.file_write_bytes.wrapping_add(v.file_write_bytes),
            net_rx_bytes: acc.net_rx_bytes.wrapping_add(v.net_rx_bytes),
            net_tx_bytes: acc.net_tx_bytes.wrapping_add(v.net_tx_bytes),
        };
        i = i + 1;
    }
    proof {
        assert(values@.take(i as int) =~= values@);
    }
    acc
}

/// The growth of each process of `new_io` since `prev`.
pub open spec fn growths(prev: Map<u32, IoStat>, new_io: Seq<(u32, IoStat)>) -> Seq<IoStat> {
    new_io.map_values(|e: (u32, IoStat)| io_growth(prev_of(prev, e.0), e.1))
}

/// Growth of the cumulative counters between two polls. `new_io` is the
/// latest poll, one entry per process; `prev` the counters of the previous
/// poll. Returns, in the order of `new_io`, each process with its growth, and
/// the sum of those growths (each counter wrapping around past 2^64, as the
/// `+=` of a release build does).
pub fn io_growth_since(prev: &HashMap<u32, IoStat>, new_io: &Vec<(u32, IoStat)>) -> (r: (
    Vec<(u32, IoStat)>,
    IoStat,
))
    ensures
        r.0@.len() == new_io@.len(),
        forall|i: int|
            0 <= i < new_io@.len() ==> (#[trigger] r.0@[i]).0 == new_io@[i].0 && r.0@[i].1
                == io_growth(prev_of(prev@, new_io@[i].0), new_io@[i].1),
        r.1 == io_of_sum(io_sum(growths(prev@, new_io@))),
{
    let ghost g = growths(prev@, new_io@);
    let mut out: Vec<(u32, IoStat)> = Vec::new();
    let mut tot = IoStat::default();
    let mut i: usize = 0;
    assert(g.take(0) =~= Seq::<IoStat>::empty());
    while i < new_io.len()
        invariant
            i <= new_io@.len(),
            g == growths(prev@, new_io@),
            out@.len() == i,
            forall|k: int|
                0 <= k < i ==> (#[trigger] out@[k]).0 == new_io@[k].0 && out@[k].1 == g[k],
            tot == io_of_sum(io_sum(g.take(i as int))),
            io_sum(g.take(i as int)).0 >= 0,
            io_sum(g.take(i as int)).1 >= 0,
            io_sum(g.take(i as int)).2 >= 0,
            io_sum(g.take(i as int)).3 >= 0,
        decreases new_io@.len() - i,
    {
        let (pid, new) = new_io[i];
        let p = match prev.get(&pid) {
            Some(s) => *s,
            None => IoStat::default(),
        };
        let d = IoStat {
            file_read_bytes: new.file_read_bytes.saturating_sub(p.file_read_bytes),
            file_write_bytes: new.file_write_bytes.saturating_sub(p.file_write_bytes),
            net_rx_bytes: new.net_rx_bytes.saturating_sub(p.net_rx_bytes),
            net_tx_bytes: new.net_tx_bytes.saturating_sub(p.net_tx_bytes),
        };
        assert(d == g[i as int]);
        let ghost t = io_sum(g.take(i as int));
        proof {
            assert(g.take(i + 1).drop_last() =~= g.take(i as int));
            lemma_wrap_step(t.0, d.file_read_bytes);
            lemma_wrap_step(t.1, d.file_write_bytes);
            lemma_wrap_step(t.2, d.net_rx_bytes);
            lemma_wrap_step(t.3, d.net_tx_bytes);
        }
        tot = IoStat {
            file_read_bytes: tot.file_read_bytes.wrapping_add(d.file_read_bytes),
            file_write_bytes: tot.file_write_bytes.wrapping_add(d.file_write_bytes),
            net_rx_bytes: tot.net_rx_bytes.wrapping_add(d.net_rx_bytes),
            net_tx_bytes: tot.net_tx_bytes.wrapping_add(d.net_tx_bytes),
        };
        out.push((pid, d));
        i = i + 1;
    }
    proof {
        assert(g.take(i as int) =~= g);
    }
    (out, tot)
}

/// Counters that did not change grew by nothing.
pub proof fn lemma_no_change_no_growth(p: IoStat)
    ensures
        io_growth(p, p) == zero_io(),
{
}

/// A process's growth is at most its current counters, and all of them when
/// it was not seen before.
pub proof fn lemma_growth_bounded(prev: Map<u32, IoStat>, pid: u32, n: IoStat)
    ensures
        io_growth(prev_of(prev, pid), n).file_read_bytes <= n.file_read_bytes,
        io_growth(prev_of(prev, pid), n).file_write_bytes <= n.file_write_bytes,
        io_growth(prev_of(prev, pid), n).net_rx_bytes <= n.net_rx_bytes,
        io_growth(prev_of(prev, pid), n).net_tx_bytes <= n.net_tx_bytes,
        !prev.contains_key(pid) ==> io_growth(prev_of(prev, pid), n) == n,
{
}

} // verus!
