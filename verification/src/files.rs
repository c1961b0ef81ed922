//! Reading the kernel's text files. The library never opens a file itself:
//! the functions that need a file's text take a reader, a closure from a path
//! to the file's contents (`None` when the file cannot be read), and their
//! contracts hold whatever the reader returns.

use vstd::prelude::*;

use crate::text::{chars_of, int_chars, push_int, push_str};

verus! {

/// The reader `read`, called with a path whose text is `path`, may return
/// `out`.
pub open spec fn reads<F: Fn(&str) -> Option<String>>(
    read: F,
    path: Seq<char>,
    out: Option<String>,
) -> bool {
    exists|p: &str| p@ == path && call_ensures(read, (p,), out)
}

/// The reader accepts every path.
pub open spec fn reader_ok<F: Fn(&str) -> Option<String>>(read: F) -> bool {
    forall|p: &str| call_requires(read, (p,))
}

/// Reads the file at `path` through `read`.
pub fn read_file<F: Fn(&str) -> Option<String>>(read: &F, path: &String) -> (out: Option<String>)
    requires
        reader_ok(*read),
    ensures
        reads(*read, path@, out),
{
    let p = path.as_str();
    let out = read(p);
    assert(p@ == path@);
    out
}

/// The lister `links`, called with a directory path whose text is `dir`, may
/// return `out`: the entries of the directory that are symbolic links, each
/// with its target (`None` when the directory cannot be read).
pub open spec fn lists<G: Fn(&str) -> Option<Vec<(String, String)>>>(
    links: G,
    dir: Seq<char>,
    out: Option<Vec<(String, String)>>,
) -> bool {
    exists|p: &str| p@ == dir && call_ensures(links, (p,), out)
}

/// The lister accepts every path.
pub open spec fn lister_ok<G: Fn(&str) -> Option<Vec<(String, String)>>>(links: G) -> bool {
    forall|p: &str| call_requires(links, (p,))
}

/// Lists the links of the directory at `dir` through `links`.
pub fn list_links<G: Fn(&str) -> Option<Vec<(String, String)>>>(links: &G, dir: &String) -> (out:
    Option<Vec<(String, String)>>)
    requires
        lister_ok(*links),
    ensures
        lists(*links, dir@, out),
{
    let p = dir.as_str();
    let out = links(p);
    assert(p@ == dir@);
    out
}

/// The existence test `present`, asked about a path whose text is `path`,
/// may answer `b`: whether something exists there.
pub open spec fn shows<E: Fn(&str) -> bool>(present: E, path: Seq<char>, b: bool) -> bool {
    exists|p: &str| p@ == path && call_ensures(present, (p,), b)
}

/// The existence test accepts every path.
pub open spec fn present_ok<E: Fn(&str) -> bool>(present: E) -> bool {
    forall|p: &str| call_requires(present, (p,))
}

/// Asks `present` whether something exists at `path`.
pub fn path_exists<E: Fn(&str) -> bool>(present: &E, path: &String) -> (b: bool)
    requires
        present_ok(*present),
    ensures
        shows(*present, path@, b),
{
    let p = path.as_str();
    let b = present(p);
    assert(p@ == path@);
    b
}

/// `/proc/<pid>/<leaf>`.
pub open spec fn proc_path_text(pid: int, leaf: Seq<char>) -> Seq<char> {
    "/proc/"@ + int_chars(pid) + "/"@ + leaf
}

/// Builds the path `/proc/<pid>/<leaf>`.
pub fn proc_path(pid: i64, leaf: &str) -> (p: String)
    ensures
        p@ == proc_path_text(pid as int, leaf@),
{
    let mut p = String::new();
    push_str(&mut p, "/proc/");
    push_int(&mut p, pid);
    push_str(&mut p, "/");
    push_str(&mut p, leaf);
    p
}

/// `Path::join` on texts: a relative `b` goes under `a`, with one `/`
/// between them; an absolute `b` replaces `a`.
pub open spec fn join_text(a: Seq<char>, b: Seq<char>) -> Seq<char> {
    if b.len() > 0 && b[0] == '/' {
        b
    } else if a.len() > 0 && a.last() == '/' {
        a + b
    } else {
        a + seq!['/'] + b
    }
}

/// Joins the path `b` onto the path `a`, as `Path::join` does.
pub fn join_path(a: &str, b: &str) -> (p: String)
    ensures
        p@ == join_text(a@, b@),
{
    let av = chars_of(a);
    let bv = chars_of(b);
    let mut p = String::new();
    if bv.len() > 0 && bv[0] == '/' {
        push_str(&mut p, b);
        assert(p@ =~= b@);
    } else if av.len() > 0 && av[av.len() - 1] == '/' {
        push_str(&mut p, a);
        push_str(&mut p, b);
        assert(p@ =~= a@ + b@);
    } else {
        push_str(&mut p, a);
        push_str(&mut p, "/");
        push_str(&mut p, b);
        proof {
            reveal_strlit("/");
        }
        assert(p@ =~= a@ + seq!['/'] + b@);
    }
    p
}

} // verus!
