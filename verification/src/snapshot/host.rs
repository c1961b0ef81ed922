//! Host-wide fields the scanner reports: per-core CPU counters from
//! `/proc/stat`, total memory from `/proc/meminfo`, and the clock.

use std::time::Instant;

use vstd::prelude::*;

use crate::files::{list_links, lister_ok, lists, read_file, reader_ok, reads};
use crate::text_order::{sort_texts, texts, texts_sorted};
use crate::text::{
    chars_of, has_prefix, line_ranges, lines, parse_i64_in, parse_i64_spec, parse_u64_in, parse_u64_spec, trim_range, trim_ws, starts_with_in, token_ranges,
    tokens,
};

verus! {

/// `Instant::now`: the current time of the monotonic clock.
#[verifier::external_body]
pub fn now() -> Instant {
    Instant::now()
}

/// CPU time counters of one core.
#[derive(Clone, Copy, Debug, Default)]
pub struct CpuSample {
    /// user + nice + system + irq + softirq + steal.
    pub busy: u64,
    /// busy + idle + iowait.
    pub total: u64,
}

/// The numbers among the words `t`, in order (words that are not numbers
/// are skipped).
pub open spec fn numbers_of(t: Seq<Seq<char>>) -> Seq<u64>
    decreases t.len(),
{
    if t.len() == 0 {
        Seq::empty()
    } else {
        let r = numbers_of(t.drop_last());
        match parse_u64_spec(t.last()) {
            Some(n) => r.push(n),
            None => r,
        }
    }
}

/// The `i`-th counter, or 0 when the line has fewer.
pub open spec fn field(f: Seq<u64>, i: int) -> int {
    if i < f.len() {
        f[i] as int
    } else {
        0
    }
}

/// The sample a per-core line gives: `None` for a line that is not a
/// `cpu<N>` line, that has fewer than four counters, or whose sums do not
/// fit in 64 bits.
pub open spec fn cpu_line_sample(l: Seq<char>) -> Option<CpuSample> {
    if !has_prefix(l, "cpu"@) || has_prefix(l, "cpu "@) {
        None
    } else {
        let t = tokens(l);
        let f = numbers_of(t.skip(1));
        if t.len() == 0 || f.len() < 4 {
            None
        } else {
            let busy = field(f, 0) + field(f, 1) + field(f, 2) + field(f, 5) + field(f, 6) + field(f, 7);
            let total = busy + field(f, 3) + field(f, 4);
            if total <= u64::MAX {
                Some(CpuSample { busy: busy as u64, total: total as u64 })
            } else {
                None
            }
        }
    }
}

/// The per-core samples of the lines `ls`, in order.
pub open spec fn cpu_samples_in(ls: Seq<Seq<char>>) -> Seq<CpuSample>
    decreases ls.len(),
{
    if ls.len() == 0 {
        Seq::empty()
    } else {
        let r = cpu_samples_in(ls.drop_last());
        match cpu_line_sample(ls.last()) {
            Some(s) => r.push(s),
            None => r,
        }
    }
}

/// The numbers among the words of `v` at `ranges`.
fn numbers_in(v: &Vec<char>, ranges: &Vec<(usize, usize)>, from: usize) -> (f: Vec<u64>)
    requires
        from <= ranges@.len(),
        forall|k: int| 0 <= k < ranges@.len() ==> (#[trigger] ranges@[k]).0 <= ranges@[k].1 <= v@.len(),
    ensures
        f@ == numbers_of(ranges@.skip(from as int).map_values(|r: (usize, usize)| v@.subrange(r.0 as int, r.1 as int))),
{
    let ghost words = ranges@.skip(from as int).map_values(|r: (usize, usize)| v@.subrange(r.0 as int, r.1 as int));
    let mut f: Vec<u64> = Vec::new();
    let mut k: usize = from;
    assert(words.take(0) =~= Seq::<Seq<char>>::empty());
    while k < ranges.len()
        invariant
            from <= k <= ranges@.len(),
            forall|j: int| 0 <= j < ranges@.len() ==> (#[trigger] ranges@[j]).0 <= ranges@[j].1 <= v@.len(),
            words == ranges@.skip(from as int).map_values(|r: (usize, usize)| v@.subrange(r.0 as int, r.1 as int)),
            f@ == numbers_of(words.take(k - from)),
        decreases ranges@.len() - k,
    {
        proof {
            assert(words.take(k - from + 1).drop_last() =~= words.take(k - from));
            assert(words.take(k - from + 1).last() == v@.subrange(ranges@[k as int].0 as int, ranges@[k as int].1 as int));
        }
        if let Some(n) = parse_u64_in(v, ranges[k].0, ranges[k].1) {
            f.push(n);
        }
        k = k + 1;
    }
    assert(words.take(k - from) =~= words);
    f
}

fn get_or_zero(f: &Vec<u64>, i: usize) -> (x: u64)
    ensures
        x == field(f@, i as int),
{
    if i < f.len() {
        f[i]
    } else {
        0
    }
}

/// The sample of the line `v[lo..hi]`.
fn cpu_sample_at(v: &Vec<char>, lo: usize, hi: usize) -> (r: Option<CpuSample>)
    requires
        lo <= hi <= v.len(),
    ensures
        r == cpu_line_sample(v@.subrange(lo as int, hi as int)),
{
    let cpu = chars_of("cpu");
    let cpu_sp = chars_of("cpu ");
    if !starts_with_in(v, lo, hi, &cpu) || starts_with_in(v, lo, hi, &cpu_sp) {
        return None;
    }
    let t = token_ranges(v, lo, hi);
    let ghost ts = tokens(v@.subrange(lo as int, hi as int));
    if t.len() == 0 {
        return None;
    }
    let f = numbers_in(v, &t, 1);
    proof {
        assert(t@.skip(1).map_values(|r: (usize, usize)| v@.subrange(r.0 as int, r.1 as int)) =~= ts.skip(1));
    }
    if f.len() < 4 {
        return None;
    }
    let busy: u128 = get_or_zero(&f, 0) as u128 + get_or_zero(&f, 1) as u128 + get_or_zero(&f, 2) as u128
        + get_or_zero(&f, 5) as u128 + get_or_zero(&f, 6) as u128 + get_or_zero(&f, 7) as u128;
    let total: u128 = busy + get_or_zero(&f, 3) as u128 + get_or_zero(&f, 4) as u128;
    if total > u64::MAX as u128 {
        return None;
    }
    Some(CpuSample { busy: busy as u64, total: total as u64 })
}

/// The per-core samples of the text of `/proc/stat`.
pub fn cpu_samples_of(raw: &str) -> (out: Vec<CpuSample>)
    ensures
        out@ == cpu_samples_in(lines(raw@)),
{
    let v = chars_of(raw);
    let ls = line_ranges(&v);
    let ghost all = lines(v@);
    let mut out: Vec<CpuSample> = Vec::new();
    let mut k: usize = 0;
    assert(all.take(0) =~= Seq::<Seq<char>>::empty());
    while k < ls.len()
        invariant
            k <= ls@.len(),
            v@ == raw@,
            all == lines(v@),
            crate::text::ranges_select(v@, ls@, all),
            out@ == cpu_samples_in(all.take(k as int)),
        decreases ls@.len() - k,
    {
        proof {
            assert(all.take(k + 1).drop_last() =~= all.take(k as int));
            assert(all.take(k + 1).last() == all[k as int]);
        }
        if let Some(s) = cpu_sample_at(&v, ls[k].0, ls[k].1) {
            out.push(s);
        }
        k = k + 1;
    }
    assert(all.take(k as int) =~= all);
    out
}

/// Reads the per-core samples from `/proc/stat`; none when it cannot be read.
pub fn read_cpu_samples<F: Fn(&str) -> Option<String>>(read: &F) -> (out: Vec<CpuSample>)
    requires
        reader_ok(*read),
    ensures
        exists|o: Option<String>|
            reads(*read, "/proc/stat"@, o) && out@ == match o {
                Some(s) => cpu_samples_in(lines(s@)),
                None => Seq::empty(),
            },
{
    let path = "/proc/stat".to_string();
    let o = read_file(read, &path);
    let out = match &o {
        Some(s) => cpu_samples_of(s.as_str()),
        None => Vec::new(),
    };
    assert(reads(*read, "/proc/stat"@, o));
    out
}

/// Total memory in bytes from the lines `ls` of `/proc/meminfo`: the kB
/// value of the first `MemTotal:` line (0 when it is not a number) times
/// 1024; 0 when there is no such line or the product does not fit.
pub open spec fn memtotal_in(ls: Seq<Seq<char>>) -> u64
    decreases ls.len(),
{
    if ls.len() == 0 {
        0
    } else if has_prefix(ls[0], "MemTotal:"@) {
        let t = tokens(ls[0].skip("MemTotal:"@.len() as int));
        let kb: int = if t.len() > 0 && parse_u64_spec(t[0]) is Some {
            parse_u64_spec(t[0])->0 as int
        } else {
            0
        };
        if kb * 1024 <= u64::MAX {
            (kb * 1024) as u64
        } else {
            0
        }
    } else {
        memtotal_in(ls.drop_first())
    }
}

/// The total memory, in bytes, named by the text of `/proc/meminfo`.
pub fn memtotal_of(raw: &str) -> (b: u64)
    ensures
        b == memtotal_in(lines(raw@)),
{
    let v = chars_of(raw);
    let key = chars_of("MemTotal:");
    let ls = line_ranges(&v);
    let ghost all = lines(v@);
    let mut k: usize = 0;
    assert(all.skip(0) =~= all);
    while k < ls.len()
        invariant
            k <= ls@.len(),
            key@ == "MemTotal:"@,
            v@ == raw@,
            all == lines(v@),
            crate::text::ranges_select(v@, ls@, all),
            memtotal_in(all) == memtotal_in(all.skip(k as int)),
        decreases ls@.len() - k,
    {
        let (lo, hi) = ls[k];
        let ghost line = all[k as int];
        assert(all.skip(k as int)[0] == line);
        if starts_with_in(&v, lo, hi, &key) {
            let t = token_ranges(&v, lo + key.len(), hi);
            let ghost ts = tokens(line.skip(key@.len() as int));
            proof {
                assert(line == v@.subrange(lo as int, hi as int));
                assert(line.skip(key@.len() as int) =~= v@.subrange(lo + key@.len(), hi as int));
                assert(ts.len() == t@.len());
                if t@.len() > 0 {
                    assert(v@.subrange(t@[0].0 as int, t@[0].1 as int) == ts[0]);
                }
            }
            let kb: u64 = if t.len() > 0 {
                match parse_u64_in(&v, t[0].0, t[0].1) {
                    Some(x) => x,
                    None => 0,
                }
            } else {
                0
            };
            if kb <= u64::MAX / 1024 {
                return kb * 1024;
            }
            return 0;
        }
        assert(all.skip(k as int).drop_first() =~= all.skip(k + 1));
        k = k + 1;
    }
    assert(all.skip(k as int).len() == 0);
    0
}

/// Reads the total memory, in bytes, from `/proc/meminfo`; 0 when it cannot
/// be read.
pub fn read_memtotal_bytes<F: Fn(&str) -> Option<String>>(read: &F) -> (b: u64)
    requires
        reader_ok(*read),
    ensures
        exists|o: Option<String>|
            reads(*read, "/proc/meminfo"@, o) && b == match o {
                Some(s) => memtotal_in(lines(s@)),
                None => 0,
            },
{
    let path = "/proc/meminfo".to_string();
    let o = read_file(read, &path);
    let b = match &o {
        Some(s) => memtotal_of(s.as_str()),
        None => 0,
    };
    assert(reads(*read, "/proc/meminfo"@, o));
    b
}

/// Boot time in milliseconds since the epoch, from the lines `ls` of
/// `/proc/stat`: the first `btime ` line's trimmed rest as seconds, times
/// 1000; `None` when there is no such line, its rest is not a number, or
/// the product does not fit.
pub open spec fn btime_in(ls: Seq<Seq<char>>) -> Option<i64>
    decreases ls.len(),
{
    if ls.len() == 0 {
        None
    } else if has_prefix(ls[0], "btime "@) {
        match parse_i64_spec(trim_ws(ls[0].skip("btime "@.len() as int))) {
            Some(s) => if i64::MIN <= s * 1000 <= i64::MAX {
                Some((s * 1000) as i64)
            } else {
                None
            },
            None => None,
        }
    } else {
        btime_in(ls.drop_first())
    }
}

/// The boot time, in milliseconds since the epoch, named by the text of
/// `/proc/stat`.
pub fn boot_time_of(raw: &str) -> (r: Option<i64>)
    ensures
        r == btime_in(lines(raw@)),
{
    let v = chars_of(raw);
    let key = chars_of("btime ");
    let ls = line_ranges(&v);
    let ghost all = lines(v@);
    let mut k: usize = 0;
    assert(all.skip(0) =~= all);
    while k < ls.len()
        invariant
            k <= ls@.len(),
            key@ == "btime "@,
            v@ == raw@,
            all == lines(v@),
            crate::text::ranges_select(v@, ls@, all),
            btime_in(all) == btime_in(all.skip(k as int)),
        decreases ls@.len() - k,
    {
        let (lo, hi) = ls[k];
        let ghost line = all[k as int];
        assert(all.skip(k as int)[0] == line);
        if starts_with_in(&v, lo, hi, &key) {
            proof {
                assert(line == v@.subrange(lo as int, hi as int));
                assert(line.skip(key@.len() as int) =~= v@.subrange(lo + key@.len(), hi as int));
            }
            let (a, b) = trim_range(&v, lo + key.len(), hi);
            return match parse_i64_in(&v, a, b) {
                Some(secs) => secs.checked_mul(1000),
                None => None,
            };
        }
        assert(all.skip(k as int).drop_first() =~= all.skip(k + 1));
        k = k + 1;
    }
    assert(all.skip(k as int).len() == 0);
    None
}

/// Reads the boot time, in milliseconds since the epoch, from `/proc/stat`;
/// `None` when it cannot be read or holds no boot time.
pub fn read_boot_time<F: Fn(&str) -> Option<String>>(read: &F) -> (r: Option<i64>)
    requires
        reader_ok(*read),
    ensures
        exists|o: Option<String>|
            reads(*read, "/proc/stat"@, o) && r == match o {
                Some(s) => btime_in(lines(s@)),
                None => None,
            },
{
    let path = "/proc/stat".to_string();
    let o = read_file(read, &path);
    let r = match &o {
        Some(s) => boot_time_of(s.as_str()),
        None => None,
    };
    assert(reads(*read, "/proc/stat"@, o));
    r
}

/// The link targets of a directory listing of (name, target) pairs.
pub open spec fn link_targets(l: Seq<(String, String)>) -> Seq<Seq<char>> {
    l.map_values(|e: (String, String)| e.1@)
}

/// The targets of the links in `listing`, in text order, each kept as often
/// as it occurs (`pid_for_children` points to the same `pid:[..]` as `pid`).
pub fn host_namespaces_of(listing: &Vec<(String, String)>) -> (out: Vec<String>)
    ensures
        texts_sorted(texts(out@)),
        texts(out@).to_multiset() == link_targets(listing@).to_multiset(),
{
    let mut targets: Vec<String> = Vec::new();
    let mut k: usize = 0;
    while k < listing.len()
        invariant
            k <= listing@.len(),
            texts(targets@) == link_targets(listing@.take(k as int)),
        decreases listing@.len() - k,
    {
        targets.push(listing[k].1.clone());
        assert(link_targets(listing@.take(k + 1)) =~= link_targets(listing@.take(k as int)).push(listing@[k as int].1@));
        assert(texts(targets@) =~= link_targets(listing@.take(k + 1)));
        k = k + 1;
    }
    assert(listing@.take(k as int) =~= listing@);
    sort_texts(&targets)
}

/// The host's own namespaces, `<type>:[<inode>]`, read from the links of
/// `/proc/self/ns` and sorted; none when the directory cannot be listed.
pub fn read_host_namespaces<G: Fn(&str) -> Option<Vec<(String, String)>>>(links: &G) -> (out: Vec<String>)
    requires
        lister_ok(*links),
    ensures
        texts_sorted(texts(out@)),
        exists|o: Option<Vec<(String, String)>>|
            lists(*links, "/proc/self/ns"@, o) && texts(out@).to_multiset() == match o {
                Some(l) => link_targets(l@).to_multiset(),
                None => vstd::multiset::Multiset::empty(),
            },
{
    let dir = "/proc/self/ns".to_string();
    let o = list_links(links, &dir);
    let out = match &o {
        Some(l) => host_namespaces_of(l),
        None => {
            let v: Vec<String> = Vec::new();
            proof {
                broadcast use vstd::multiset::group_multiset_axioms;

                let t = texts(v@);
                assert(t =~= Seq::<Seq<char>>::empty());
                assert forall|a: Seq<char>| t.to_multiset().count(a) == 0 by {
                    vstd::seq_lib::to_multiset_contains(t, a);
                }
                assert(t.to_multiset() =~= vstd::multiset::Multiset::<Seq<char>>::empty());
            }
            v
        },
    };
    assert(lists(*links, "/proc/self/ns"@, o));
    out
}

} // verus!
