//! Cgroup v2 limits: the unified-hierarchy path of a process from
//! `/proc/<pid>/cgroup`, and the `memory.max`, `cpu.max` and `pids.max`
//! files under `/sys/fs/cgroup/<path>/`. A missing or unreadable value counts
//! as 0, which means "no limit".

use vstd::prelude::*;

use crate::files::{join_path, join_text, proc_path, proc_path_text, read_file, reader_ok, reads};
use crate::snapshot::proc_cache::{cgroup_fields, opt_text};
use crate::text::{
    chars_of, equals_in, line_ranges, lines, parse_u64_in, parse_u64_spec, skip_char_in,
    string_of, token_ranges, tokens, trim_range, trim_start, trim_ws,
};

verus! {

/// The value of a `memory.max` or `pids.max` file: its trimmed text as an
/// integer, with `max` (and anything unreadable) meaning 0.
pub open spec fn u64_max_value(text: Seq<char>) -> u64 {
    let t = trim_ws(text);
    if t == "max"@ {
        0
    } else {
        match parse_u64_spec(t) {
            Some(n) => n,
            None => 0,
        }
    }
}

/// Parses the text of a `memory.max` or `pids.max` file.
pub fn u64_max_of(text: &str) -> (n: u64)
    ensures
        n == u64_max_value(text@),
{
    let v = chars_of(text);
    let (a, b) = trim_range(&v, 0, v.len());
    assert(v@.subrange(0, v@.len() as int) =~= v@);
    let max = chars_of("max");
    if equals_in(&v, a, b, &max) {
        return 0;
    }
    match parse_u64_in(&v, a, b) {
        Some(n) => n,
        None => 0,
    }
}

/// The (quota, period) of a `cpu.max` file: its first word, `max` meaning 0,
/// and its second word, each 0 when missing or not a number.
pub open spec fn cpu_max_value(text: Seq<char>) -> (u64, u64) {
    let t = tokens(trim_ws(text));
    let quota = if t.len() == 0 || t[0] == "max"@ {
        0
    } else {
        match parse_u64_spec(t[0]) {
            Some(n) => n,
            None => 0,
        }
    };
    let period = if t.len() < 2 {
        0
    } else {
        match parse_u64_spec(t[1]) {
            Some(n) => n,
            None => 0,
        }
    };
    (quota, period)
}

/// Parses the text of a `cpu.max` file.
pub fn cpu_max_of(text: &str) -> (r: (u64, u64))
    ensures
        r == cpu_max_value(text@),
{
    let v = chars_of(text);
    let (a, b) = trim_range(&v, 0, v.len());
    assert(v@.subrange(0, v@.len() as int) =~= v@);
    let t = token_ranges(&v, a, b);
    let ghost ts = tokens(trim_ws(text@));
    assert(ts.len() == t@.len());
    let max = chars_of("max");
    let quota = if t.len() == 0 {
        0
    } else if equals_in(&v, t[0].0, t[0].1, &max) {
        0
    } else {
        match parse_u64_in(&v, t[0].0, t[0].1) {
            Some(n) => n,
            None => 0,
        }
    };
    let period = if t.len() < 2 {
        0
    } else {
        match parse_u64_in(&v, t[1].0, t[1].1) {
            Some(n) => n,
            None => 0,
        }
    };
    (quota, period)
}

/// Reads a `memory.max` or `pids.max` file; 0 when it cannot be read.
pub fn read_u64_max<F: Fn(&str) -> Option<String>>(path: &String, read: &F) -> (n: u64)
    requires
        reader_ok(*read),
    ensures
        exists|out: Option<String>| reads(*read, path@, out) && n == u64_max_read(out),
{
    let out = read_file(read, path);
    let n = match &out {
        Some(s) => u64_max_of(s.as_str()),
        None => 0,
    };
    assert(reads(*read, path@, out) && n == u64_max_read(out));
    n
}

/// Reads a `cpu.max` file; (0, 0) when it cannot be read.
pub fn read_cpu_max<F: Fn(&str) -> Option<String>>(path: &String, read: &F) -> (r: (u64, u64))
    requires
        reader_ok(*read),
    ensures
        exists|out: Option<String>|
            reads(*read, path@, out) && r == match out {
                Some(s) => cpu_max_value(s@),
                None => (0, 0),
            },
{
    match read_file(read, path) {
        Some(s) => cpu_max_of(s.as_str()),
        None => (0, 0),
    }
}

/// The path of the unified hierarchy in the lines `ls` of a `cgroup` file:
/// the path, without its leading `/`, of the first line with id `0` and a
/// non-empty path; `None` when there is none, or when a line before it has
/// fewer than two `:`.
pub open spec fn unified_path_in(ls: Seq<Seq<char>>) -> Option<Seq<char>>
    decreases ls.len(),
{
    if ls.len() == 0 {
        None
    } else {
        match cgroup_fields(ls[0]) {
            None => None,
            Some(f) => if f.0 == "0"@ && f.2.len() > 0 {
                Some(trim_start(f.2, '/'))
            } else {
                unified_path_in(ls.drop_first())
            },
        }
    }
}

/// The unified-hierarchy path named by the text of a `cgroup` file.
pub fn unified_path_of(text: &str) -> (r: Option<String>)
    ensures
        opt_text(r) == unified_path_in(lines(text@)),
{
    let v = chars_of(text);
    let ls = line_ranges(&v);
    let ghost all = lines(v@);
    let zero = chars_of("0");
    let mut k: usize = 0;
    assert(all.skip(0) =~= all);
    while k < ls.len()
        invariant
            k <= ls@.len(),
            v@ == text@,
            zero@ == "0"@,
            all == lines(v@),
            crate::text::ranges_select(v@, ls@, all),
            unified_path_in(all) == unified_path_in(all.skip(k as int)),
        decreases ls@.len() - k,
    {
        let (lo, hi) = ls[k];
        proof {
            assert(all.skip(k as int)[0] == all[k as int]);
            assert(all.skip(k as int).drop_first() =~= all.skip(k + 1));
            assert(all[k as int] == v@.subrange(lo as int, hi as int));
        }
        let (i1, i2) = match crate::snapshot::proc_cache::line_colons(&v, lo, hi) {
            Some(x) => x,
            None => {
                return None;
            },
        };
        if equals_in(&v, lo, i1, &zero) && i2 + 1 < hi {
            let p0 = skip_char_in(&v, i2 + 1, hi, '/');
            return Some(string_of(&v, p0, hi));
        }
        k = k + 1;
    }
    assert(all.skip(k as int) =~= Seq::<Seq<char>>::empty());
    None
}

/// A limit file's value: parsed when it could be read, else 0.
pub open spec fn u64_max_read(out: Option<String>) -> u64 {
    match out {
        Some(s) => u64_max_value(s@),
        None => 0,
    }
}

/// `r` is what reading `memory.max`, `cpu.max` and `pids.max` under the
/// directory `dir` through `read` gives, as (memory_limit_bytes,
/// cpu_quota_us, cpu_period_us, pids_limit).
pub open spec fn limits_read<F: Fn(&str) -> Option<String>>(read: F, dir: Seq<char>, r: (u64, u64, u64, u64)) -> bool {
    exists|m: Option<String>, c: Option<String>, p: Option<String>|
        reads(read, join_text(dir, "memory.max"@), m) && reads(read, join_text(dir, "cpu.max"@), c)
            && reads(read, join_text(dir, "pids.max"@), p) && r.0 == u64_max_read(m) && (r.1, r.2)
            == match c {
            Some(s) => cpu_max_value(s@),
            None => (0u64, 0u64),
        } && r.3 == u64_max_read(p)
}

/// Reads the three limit files under the directory `dir`.
pub fn read_limits_in<F: Fn(&str) -> Option<String>>(dir: &String, read: &F) -> (r: (u64, u64, u64, u64))
    requires
        reader_ok(*read),
    ensures
        limits_read(*read, dir@, r),
{
    let mpath = join_path(dir.as_str(), "memory.max");
    let cpath = join_path(dir.as_str(), "cpu.max");
    let ppath = join_path(dir.as_str(), "pids.max");
    let mem = read_u64_max(&mpath, read);
    let (quota, period) = read_cpu_max(&cpath, read);
    let pids = read_u64_max(&ppath, read);
    proof {
        let m = choose|out: Option<String>| reads(*read, mpath@, out) && mem == u64_max_read(out);
        let c = choose|out: Option<String>|
            reads(*read, cpath@, out) && (quota, period) == match out {
                Some(s) => cpu_max_value(s@),
                None => (0u64, 0u64),
            };
        let p = choose|out: Option<String>| reads(*read, ppath@, out) && pids == u64_max_read(out);
        assert(reads(*read, join_text(dir@, "memory.max"@), m));
        assert(reads(*read, join_text(dir@, "cpu.max"@), c));
        assert(reads(*read, join_text(dir@, "pids.max"@), p));
    }
    (mem, quota, period, pids)
}

/// The cgroup limits of `pid`, as (memory_limit_bytes, cpu_quota_us,
/// cpu_period_us, pids_limit): all 0 when the process has no unified-hierarchy
/// path.
pub fn read_limits<F: Fn(&str) -> Option<String>>(pid: u32, read: &F) -> (r: (u64, u64, u64, u64))
    requires
        reader_ok(*read),
    ensures
        exists|out: Option<String>|
            reads(*read, proc_path_text(pid as int, "cgroup"@), out) && match out {
                Some(s) => match unified_path_in(lines(s@)) {
                    Some(p) => limits_read(*read, join_text("/sys/fs/cgroup"@, p), r),
                    None => r == (0u64, 0u64, 0u64, 0u64),
                },
                None => r == (0u64, 0u64, 0u64, 0u64),
            },
{
    let path = proc_path(pid as i64, "cgroup");
    let cg = match read_file(read, &path) {
        Some(s) => unified_path_of(s.as_str()),
        None => None,
    };
    match cg {
        Some(p) => {
            let base = join_path("/sys/fs/cgroup", p.as_str());
            read_limits_in(&base, read)
        },
        None => (0, 0, 0, 0),
    }
}

} // verus!
