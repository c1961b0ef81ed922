//! Lexicographic order of texts, character by character: the order of
//! `str` comparison (UTF-8 preserves the order of code points).

use vstd::prelude::*;

use crate::text::chars_of;

verus! {

/// `a` comes before `b`.
pub open spec fn text_lt(a: Seq<char>, b: Seq<char>) -> bool
    decreases a.len(),
{
    if a.len() == 0 {
        b.len() > 0
    } else if b.len() == 0 {
        false
    } else if a[0] != b[0] {
        a[0] < b[0]
    } else {
        text_lt(a.drop_first(), b.drop_first())
    }
}

pub proof fn lemma_text_lt_irreflexive(a: Seq<char>)
    ensures
        !text_lt(a, a),
    decreases a.len(),
{
    if a.len() > 0 {
        lemma_text_lt_irreflexive(a.drop_first());
    }
}

pub proof fn lemma_text_lt_total(a: Seq<char>, b: Seq<char>)
    ensures
        a == b || text_lt(a, b) || text_lt(b, a),
        !(text_lt(a, b) && text_lt(b, a)),
    decreases a.len(),
{
    if a.len() > 0 && b.len() > 0 && a[0] == b[0] {
        lemma_text_lt_total(a.drop_first(), b.drop_first());
        if a.drop_first() == b.drop_first() {
            assert(a =~= b) by {
                assert forall|i: int| 0 <= i < a.len() implies a[i] == b[i] by {
                    if i > 0 {
                        assert(a[i] == a.drop_first()[i - 1]);
                        assert(b[i] == b.drop_first()[i - 1]);
                    }
                }
            }
        }
    } else if a.len() == 0 && b.len() == 0 {
        assert(a =~= b);
    }
}

pub proof fn lemma_text_lt_transitive(a: Seq<char>, b: Seq<char>, c: Seq<char>)
    requires
        text_lt(a, b),
        text_lt(b, c),
    ensures
        text_lt(a, c),
    decreases a.len(),
{
    if a.len() > 0 && b.len() > 0 && c.len() > 0 && a[0] == b[0] && b[0] == c[0] {
        lemma_text_lt_transitive(a.drop_first(), b.drop_first(), c.drop_first());
    }
}

/// Whether `a` comes before `b`.
pub fn text_less(a: &Vec<char>, b: &Vec<char>) -> (r: bool)
    ensures
        r == text_lt(a@, b@),
{
    let mut i: usize = 0;
    assert(a@.skip(0) =~= a@ && b@.skip(0) =~= b@);
    while i < a.len() && i < b.len() && a[i] == b[i]
        invariant
            i <= a@.len(),
            i <= b@.len(),
            text_lt(a@, b@) == text_lt(a@.skip(i as int), b@.skip(i as int)),
        decreases a@.len() - i,
    {
        assert(a@.skip(i as int).drop_first() =~= a@.skip(i + 1));
        assert(b@.skip(i as int).drop_first() =~= b@.skip(i + 1));
        i = i + 1;
    }
    if i == a.len() {
        i < b.len()
    } else if i == b.len() {
        false
    } else {
        assert(a@.skip(i as int)[0] == a@[i as int]);
        assert(b@.skip(i as int)[0] == b@[i as int]);
        a[i] < b[i]
    }
}

/// `s` is strictly increasing in text order.
pub open spec fn texts_increasing(s: Seq<Seq<char>>) -> bool {
    forall|i: int, j: int| 0 <= i < j < s.len() ==> text_lt(s[i], s[j])
}

/// The texts of a sequence of strings.
pub open spec fn texts(v: Seq<String>) -> Seq<Seq<char>> {
    v.map_values(|s: String| s@)
}

/// `s` is in text order: no text comes before one ahead of it (equal texts
/// may follow each other).
pub open spec fn texts_sorted(s: Seq<Seq<char>>) -> bool {
    forall|i: int, j: int| 0 <= i < j < s.len() ==> !text_lt(s[j], s[i])
}

/// Whether the text `xv` does not come before `v[i]`.
fn not_before(v: &Vec<String>, i: usize, xv: &Vec<char>) -> (r: bool)
    requires
        i < v@.len(),
    ensures
        r == !text_lt(xv@, v@[i as int]@),
{
    let cv = chars_of(v[i].as_str());
    !text_less(xv, &cv)
}

/// Inserts `x` into the sorted list `v` after every text it does not come
/// before, keeping `v` sorted.
fn insert_in_order(v: &mut Vec<String>, x: String)
    requires
        texts_sorted(texts(old(v)@)),
    ensures
        texts_sorted(texts(final(v)@)),
        texts(final(v)@).to_multiset() == texts(old(v)@).to_multiset().insert(x@),
{
    let ghost t0 = texts(v@);
    let xv = chars_of(x.as_str());
    let mut i: usize = 0;
    while i < v.len() && not_before(v, i, &xv)
        invariant
            i <= v@.len(),
            texts(v@) == t0,
            xv@ == x@,
            texts_sorted(t0),
            forall|k: int| 0 <= k < i ==> !text_lt(x@, #[trigger] t0[k]),
        decreases v@.len() - i,
    {
        i = i + 1;
    }
    let ghost xs = x@;
    v.insert(i, x);
    proof {
        let t1 = texts(v@);
        assert(t1 =~= t0.insert(i as int, xs));
        if i < t0.len() {
            assert(text_lt(xs, t0[i as int]));
        }
        assert forall|a: int, b: int| 0 <= a < b < t1.len() implies !text_lt(t1[b], t1[a]) by {
            if b < i {
                assert(t1[a] == t0[a] && t1[b] == t0[b]);
            } else if b == i {
                assert(t1[a] == t0[a]);
            } else if a < i {
                assert(t1[a] == t0[a] && t1[b] == t0[b - 1]);
            } else if a == i {
                assert(t1[b] == t0[b - 1]);
                lemma_text_lt_total(t0[i as int], t0[b - 1]);
                if b - 1 > i {
                    if text_lt(t0[i as int], t0[b - 1]) {
                        lemma_text_lt_transitive(xs, t0[i as int], t0[b - 1]);
                    }
                }
                lemma_text_lt_total(xs, t0[b - 1]);
            } else {
                assert(t1[a] == t0[a - 1] && t1[b] == t0[b - 1]);
            }
        }
        vstd::seq_lib::to_multiset_insert(t0, i as int, xs);
    }
}

/// The texts of `v` in text order, each kept as often as it occurs.
pub fn sort_texts(v: &Vec<String>) -> (out: Vec<String>)
    ensures
        texts_sorted(texts(out@)),
        texts(out@).to_multiset() == texts(v@).to_multiset(),
{
    let mut out: Vec<String> = Vec::new();
    let mut k: usize = 0;
    assert(texts(v@).take(0) =~= Seq::<Seq<char>>::empty());
    assert(texts(out@) =~= Seq::<Seq<char>>::empty());
    while k < v.len()
        invariant
            k <= v@.len(),
            texts_sorted(texts(out@)),
            texts(out@).to_multiset() == texts(v@).take(k as int).to_multiset(),
        decreases v@.len() - k,
    {
        insert_in_order(&mut out, v[k].clone());
        proof {
            assert(texts(v@).take(k + 1) =~= texts(v@).take(k as int).push(v@[k as int]@));
            vstd::seq_lib::to_multiset_build(texts(v@).take(k as int), v@[k as int]@);
        }
        k = k + 1;
    }
    assert(texts(v@).take(k as int) =~= texts(v@));
    out
}

} // verus!
