//! The light per-process fields the scanner needs, read from
//! `/proc/<pid>/stat` and `/proc/<pid>/status`: parent pid, command name,
//! state, CPU times and resident memory. Every reader gives `None` (or 0 for
//! the memory) on a missing or malformed file.

use vstd::prelude::*;

use crate::files::{proc_path, proc_path_text, read_file, reader_ok, reads};
use crate::text::{
    chars_of, find_char_in, has_prefix, index_of, last_index_of, lemma_index_of_is,
    lemma_last_index_of_is, line_ranges, lines, parse_i32_in, parse_i32_spec, parse_u64_in,
    parse_u64_spec, rfind_char_in, starts_with_in, string_of, token_ranges, tokens,
};

verus! {

/// The light fields of one process.
#[derive(Clone, Debug, Default)]
pub struct LightProc {
    pub pid: i32,
    pub ppid: i32,
    pub comm: String,
    pub state_char: char,
    pub utime: u64,
    pub stime: u64,
    /// Resident memory in bytes (`VmRSS` of the status file).
    pub rss_bytes: u64,
}

/// The index, among the words after the name, of the user time, for a name
/// of `name_words` words. For a name of one word (or none) it is the
/// kernel's position, the 12th word: state, ppid, seven further fields,
/// majflt, cmajflt, utime. Each further word of the name moves it one word
/// earlier: the times are the 14th and 15th words of the line counted from
/// its start, as `proc(5)` numbers the fields, with a name's words counted as
/// fields (what the original test of a name with a space asks). The system
/// time is the next word.
pub open spec fn utime_index(name_words: int) -> int {
    if name_words > 1 {
        12 - name_words
    } else {
        11
    }
}

/// What a stat line holds: parent pid, command name, state, user time and
/// system time. The name runs from after the first `(` to the last `)`; the
/// fields after that `)` are whitespace-separated: state, ppid, then the
/// times at `utime_index`. `None` when there is no `(` or no `)`, when the
/// last `)` comes before the first `(`, when fewer than 13 words follow the
/// name, when the name has more than ten words (the times would fall before
/// the ppid), or when the ppid or a time is not a number.
pub open spec fn stat_fields(raw: Seq<char>) -> Option<(i32, Seq<char>, char, u64, u64)> {
    let l = index_of(raw, '(') as int;
    let r = last_index_of(raw, ')');
    if l >= raw.len() || r < 0 || r < l {
        None
    } else {
        let t = tokens(raw.subrange(r + 1, raw.len() as int));
        let u = utime_index(tokens(raw.subrange(l + 1, r)).len() as int);
        if t.len() >= 13 && u >= 2 && parse_i32_spec(t[1]) is Some && parse_u64_spec(t[u]) is Some
            && parse_u64_spec(t[u + 1]) is Some {
            Some(
                (
                    parse_i32_spec(t[1])->0,
                    raw.subrange(l + 1, r),
                    t[0][0],
                    parse_u64_spec(t[u])->0,
                    parse_u64_spec(t[u + 1])->0,
                ),
            )
        } else {
            None
        }
    }
}

/// `r` is what `parse_stat` returns on the stat line `raw` for `pid`.
pub open spec fn parsed_stat(raw: Seq<char>, pid: i32, r: Option<(i32, i32, String, char, u64, u64)>) -> bool {
    match stat_fields(raw) {
        None => r is None,
        Some(f) => r matches Some(x) && x.0 == pid && x.1 == f.0 && x.2@ == f.1 && x.3 == f.2
            && x.4 == f.3 && x.5 == f.4,
    }
}

/// Parses a stat line into (pid, ppid, comm, state, utime, stime). The pid is
/// the caller's, not re-read from the line.
pub fn parse_stat(raw: &str, pid: i32) -> (r: Option<(i32, i32, String, char, u64, u64)>)
    ensures
        parsed_stat(raw@, pid, r),
{
    let v = chars_of(raw);
    let n = v.len();
    let l = match find_char_in(&v, 0, n, '(') {
        Some(i) => i,
        None => {
            proof {
                lemma_index_of_is(v@, '(', n as int);
            }
            return None;
        },
    };
    proof {
        lemma_index_of_is(v@, '(', l as int);
    }
    let r = match rfind_char_in(&v, 0, n, ')') {
        Some(i) => i,
        None => {
            proof {
                lemma_last_index_of_is(v@, ')', -1);
            }
            return None;
        },
    };
    proof {
        lemma_last_index_of_is(v@, ')', r as int);
    }
    if r < l {
        return None;
    }
    let comm = string_of(&v, l + 1, r);
    let t = token_ranges(&v, r + 1, n);
    let ghost ts = tokens(v@.subrange(r + 1, n as int));
    if t.len() < 13 {
        return None;
    }
    let state = v[t[0].0];
    proof {
        assert(v@.subrange(t[0].0 as int, t[0].1 as int)[0] == v@[t[0].0 as int]);
    }
    let ppid = match parse_i32_in(&v, t[1].0, t[1].1) {
        Some(x) => x,
        None => {
            return None;
        },
    };
    let nw = token_ranges(&v, l + 1, r).len();
    if nw > 10 {
        return None;
    }
    let u: usize = if nw > 1 {
        12 - nw
    } else {
        11
    };
    let utime = match parse_u64_in(&v, t[u].0, t[u].1) {
        Some(x) => x,
        None => {
            return None;
        },
    };
    let stime = match parse_u64_in(&v, t[u + 1].0, t[u + 1].1) {
        Some(x) => x,
        None => {
            return None;
        },
    };
    Some((pid, ppid, comm, state, utime, stime))
}

/// The `VmRSS` value of the first of `ls` that starts with `VmRSS:`: its first
/// word as an integer, or 0 when it is missing or not a number; 0 when no
/// line has the key.
pub open spec fn vmrss_in(ls: Seq<Seq<char>>) -> u64
    decreases ls.len(),
{
    if ls.len() == 0 {
        0
    } else if has_prefix(ls[0], "VmRSS:"@) {
        let t = tokens(ls[0].skip("VmRSS:"@.len() as int));
        if t.len() > 0 && parse_u64_spec(t[0]) is Some {
            parse_u64_spec(t[0])->0
        } else {
            0
        }
    } else {
        vmrss_in(ls.drop_first())
    }
}

/// The `VmRSS` value, in kB, of the text of a status file.
pub fn vmrss_kb(raw: &str) -> (kb: u64)
    ensures
        kb == vmrss_in(lines(raw@)),
{
    let v = chars_of(raw);
    let key = chars_of("VmRSS:");
    let ls = line_ranges(&v);
    let ghost all = lines(v@);
    let mut k: usize = 0;
    assert(all.skip(0) =~= all);
    while k < ls.len()
        invariant
            k <= ls@.len(),
            key@ == "VmRSS:"@,
            v@ == raw@,
            all == lines(v@),
            ls@.len() == all.len(),
            forall|j: int|
                0 <= j < ls@.len() ==> {
                    &&& (#[trigger] ls@[j]).0 <= ls@[j].1 <= v@.len()
                    &&& v@.subrange(ls@[j].0 as int, ls@[j].1 as int) == all[j]
                },
            vmrss_in(all) == vmrss_in(all.skip(k as int)),
        decreases ls@.len() - k,
    {
        let (lo, hi) = ls[k];
        let ghost line = all[k as int];
        assert(all.skip(k as int)[0] == line);
        if starts_with_in(&v, lo, hi, &key) {
            let t = token_ranges(&v, lo + key.len(), hi);
            let ghost ts = tokens(line.skip(key@.len() as int));
            proof {
                assert(line == v@.subrange(lo as int, hi as int));
                assert(has_prefix(line, "VmRSS:"@));
                assert(line.skip(key@.len() as int) =~= v@.subrange(lo + key@.len(), hi as int));
                assert(vmrss_in(all.skip(k as int)) == (if ts.len() > 0 && parse_u64_spec(ts[0]) is Some {
                    parse_u64_spec(ts[0])->0
                } else {
                    0
                }));
                assert(ts == tokens(v@.subrange(lo + key@.len(), hi as int)));
                assert(ts.len() == t@.len());
                if t@.len() > 0 {
                    assert(v@.subrange(t@[0].0 as int, t@[0].1 as int) == ts[0]);
                }
            }
            if t.len() > 0 {
                match parse_u64_in(&v, t[0].0, t[0].1) {
                    Some(x) => {
                        return x;
                    },
                    None => {
                        return 0;
                    },
                }
            }
            return 0;
        }
        assert(all.skip(k as int).drop_first() =~= all.skip(k + 1));
        k = k + 1;
    }
    assert(all.skip(k as int).len() == 0);
    0
}

/// The readable name of a task-state character, as `ps`-style tools show it.
pub open spec fn state_label_text(c: char) -> Seq<char> {
    if c == 'R' {
        "Running"@
    } else if c == 'S' {
        "Sleeping"@
    } else if c == 'D' {
        "DiskSleep"@
    } else if c == 'Z' {
        "Zombie"@
    } else if c == 'T' || c == 't' {
        "Stopped"@
    } else if c == 'X' {
        "Dead"@
    } else if c == 'I' {
        "Idle"@
    } else if c == 'P' {
        "Parked"@
    } else {
        "Unknown"@
    }
}

/// Maps a task-state character of a stat line to a readable name.
pub fn state_label(state_char: char) -> (s: &'static str)
    ensures
        s@ == state_label_text(state_char),
{
    match state_char {
        'R' => "Running",
        'S' => "Sleeping",
        'D' => "DiskSleep",
        'Z' => "Zombie",
        'T' | 't' => "Stopped",
        'X' => "Dead",
        'I' => "Idle",
        'P' => "Parked",
        _ => "Unknown",
    }
}

/// `p` holds the light fields parsed from the stat line `stat` and the status
/// text `status` (`None` when the status file could not be read) of `pid`.
pub open spec fn light_from(pid: i32, stat: Seq<char>, status: Option<Seq<char>>, p: LightProc) -> bool {
    &&& stat_fields(stat) matches Some(f)
    &&& p.pid == pid && p.ppid == f.0 && p.comm@ == f.1 && p.state_char == f.2
    &&& p.utime == f.3 && p.stime == f.4
    &&& p.rss_bytes == (match status {
        Some(s) => if vmrss_in(lines(s)) * 1024 <= u64::MAX {
            (vmrss_in(lines(s)) * 1024) as u64
        } else {
            u64::MAX
        },
        None => 0,
    })
}

/// Reading the stat file of `pid` through `read` gave nothing usable.
pub open spec fn light_unreadable<F: Fn(&str) -> Option<String>>(read: F, pid: i32) -> bool {
    exists|out: Option<String>|
        reads(read, proc_path_text(pid as int, "stat"@), out) && match out {
            Some(s) => stat_fields(s@) is None,
            None => true,
        }
}

/// `p` is what reading the stat and status files of `pid` through `read`
/// gives.
pub open spec fn light_read<F: Fn(&str) -> Option<String>>(read: F, pid: i32, p: LightProc) -> bool {
    exists|stat: String, status: Option<String>|
        reads(read, proc_path_text(pid as int, "stat"@), Some(stat)) && reads(
            read,
            proc_path_text(pid as int, "status"@),
            status,
        ) && light_from(
            pid,
            stat@,
            match status {
                Some(s) => Some(s@),
                None => None,
            },
            p,
        )
}

/// Reads the resident memory of `pid`, in kB, from its status file; 0 when
/// the file cannot be read or holds no `VmRSS` line.
pub fn read_vmrss_kb<F: Fn(&str) -> Option<String>>(pid: i32, read: &F) -> (kb: u64)
    requires
        reader_ok(*read),
    ensures
        exists|out: Option<String>|
            reads(*read, proc_path_text(pid as int, "status"@), out) && kb == match out {
                Some(s) => vmrss_in(lines(s@)),
                None => 0,
            },
{
    let path = proc_path(pid as i64, "status");
    let out = read_file(read, &path);
    match &out {
        Some(s) => vmrss_kb(s.as_str()),
        None => 0,
    }
}

/// Reads the light fields of `pid` through `read`: `None` when the stat file
/// cannot be read or parsed.
pub fn read_light<F: Fn(&str) -> Option<String>>(pid: i32, read: &F) -> (r: Option<LightProc>)
    requires
        reader_ok(*read),
    ensures
        r is None ==> light_unreadable(*read, pid),
        r matches Some(p) ==> light_read(*read, pid, p),
{
    let path = proc_path(pid as i64, "stat");
    let raw = match read_file(read, &path) {
        Some(s) => s,
        None => {
            return None;
        },
    };
    let (p, pp, comm, state, utime, stime) = match parse_stat(raw.as_str(), pid) {
        Some(x) => x,
        None => {
            return None;
        },
    };
    let spath = proc_path(pid as i64, "status");
    let status = read_file(read, &spath);
    let kb = match &status {
        Some(s) => vmrss_kb(s.as_str()),
        None => 0,
    };
    let rss_bytes: u64 = if kb <= u64::MAX / 1024 {
        kb * 1024
    } else {
        u64::MAX
    };
    Some(
        LightProc {
            pid: p,
            ppid: pp,
            comm,
            state_char: state,
            utime,
            stime,
            rss_bytes,
        },
    )
}

} // verus!
