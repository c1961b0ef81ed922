use vstd::prelude::*;

verus! {

/// Appends one character to a `String`, as `String::push` does.
#[verifier::external_body]
pub(crate) fn push_char(s: &mut String, c: char)
    ensures
        final(s)@ == old(s)@.push(c),
{
    s.push(c);
}

/// The characters of `s`, in order.
pub fn chars_of(s: &str) -> (v: Vec<char>)
    ensures
        v@ == s@,
{
    let mut v: Vec<char> = Vec::new();
    for c in it: s.chars()
        invariant
            v@ == it.seq().take(it.index() as int),
    {
        v.push(c);
    }
    v
}

/// A `String` holding the characters `v[lo..hi]`.
pub fn string_of(v: &Vec<char>, lo: usize, hi: usize) -> (s: String)
    requires
        lo <= hi <= v.len(),
    ensures
        s@ == v@.subrange(lo as int, hi as int),
{
    let mut s = String::new();
    let mut i = lo;
    while i < hi
        invariant
            lo <= i <= hi <= v.len(),
            s@ == v@.subrange(lo as int, i as int),
        decreases hi - i,
    {
        push_char(&mut s, v[i]);
        i = i + 1;
    }
    s
}

/// Appends the characters of `t` to `s`.
pub fn push_str(s: &mut String, t: &str)
    ensures
        final(s)@ == old(s)@ + t@,
{
    let ghost s0 = s@;
    let v = chars_of(t);
    let mut i: usize = 0;
    while i < v.len()
        invariant
            i <= v@.len(),
            v@ == t@,
            s@ == s0 + v@.take(i as int),
        decreases v@.len() - i,
    {
        push_char(s, v[i]);
        assert(v@.take(i + 1) =~= v@.take(i as int).push(v@[i as int]));
        i = i + 1;
    }
    assert(v@.take(i as int) =~= v@);
}

} // verus!

verus! {

/// True for the ASCII decimal digits.
pub open spec fn is_digit(c: char) -> bool {
    '0' <= c && c <= '9'
}

/// The value of a decimal digit.
pub open spec fn digit_of(c: char) -> nat {
    (c as int - '0' as int) as nat
}

/// Every character of `s` is a decimal digit.
pub open spec fn all_digits(s: Seq<char>) -> bool {
    forall|i: int| 0 <= i < s.len() ==> is_digit(#[trigger] s[i])
}

/// The value of a run of decimal digits, most significant first.
pub open spec fn digits_value(s: Seq<char>) -> nat
    decreases s.len(),
{
    if s.len() == 0 {
        0
    } else {
        digits_value(s.drop_last()) * 10 + digit_of(s.last())
    }
}

/// What `str::parse` reads from `s` for an unsigned integer type, before the
/// range check: an optional `+`, then one or more decimal digits.
pub open spec fn unsigned_value(s: Seq<char>) -> Option<nat> {
    let d = if s.len() > 0 && s[0] == '+' { s.drop_first() } else { s };
    if d.len() > 0 && all_digits(d) {
        Some(digits_value(d))
    } else {
        None
    }
}

/// What `str::parse` reads from `s` for a signed integer type, before the
/// range check: an optional `-` or `+`, then one or more decimal digits.
pub open spec fn signed_value(s: Seq<char>) -> Option<int> {
    if s.len() > 0 && s[0] == '-' {
        let d = s.drop_first();
        if d.len() > 0 && all_digits(d) {
            Some(-(digits_value(d) as int))
        } else {
            None
        }
    } else {
        match unsigned_value(s) {
            Some(v) => Some(v as int),
            None => None,
        }
    }
}

/// `s.parse::<u64>()`, as an `Option`.
pub open spec fn parse_u64_spec(s: Seq<char>) -> Option<u64> {
    match unsigned_value(s) {
        Some(v) => if v <= u64::MAX { Some(v as u64) } else { None },
        None => None,
    }
}

/// `s.parse::<u32>()`, as an `Option`.
pub open spec fn parse_u32_spec(s: Seq<char>) -> Option<u32> {
    match unsigned_value(s) {
        Some(v) => if v <= u32::MAX { Some(v as u32) } else { None },
        None => None,
    }
}

/// `s.parse::<u16>()`, as an `Option`.
pub open spec fn parse_u16_spec(s: Seq<char>) -> Option<u16> {
    match unsigned_value(s) {
        Some(v) => if v <= u16::MAX { Some(v as u16) } else { None },
        None => None,
    }
}

/// `s.parse::<usize>()`, as an `Option`.
pub open spec fn parse_usize_spec(s: Seq<char>) -> Option<usize> {
    match unsigned_value(s) {
        Some(v) => if v <= usize::MAX { Some(v as usize) } else { None },
        None => None,
    }
}

/// `s.parse::<i64>()`, as an `Option`.
pub open spec fn parse_i64_spec(s: Seq<char>) -> Option<i64> {
    match signed_value(s) {
        Some(v) => if i64::MIN <= v <= i64::MAX { Some(v as i64) } else { None },
        None => None,
    }
}

/// `s.parse::<i32>()`, as an `Option`.
pub open spec fn parse_i32_spec(s: Seq<char>) -> Option<i32> {
    match signed_value(s) {
        Some(v) => if i32::MIN <= v <= i32::MAX { Some(v as i32) } else { None },
        None => None,
    }
}

/// The value of a prefix of a digit run is at most the value of the run.
pub proof fn lemma_digits_prefix_le(s: Seq<char>, i: int)
    requires
        0 <= i <= s.len(),
    ensures
        digits_value(s.take(i)) <= digits_value(s),
    decreases s.len(),
{
    if i < s.len() {
        lemma_digits_prefix_le(s.drop_last(), i);
        assert(s.drop_last().take(i) =~= s.take(i));
    } else {
        assert(s.take(i) =~= s);
    }
}

/// Reads the digit run `v[lo..hi]`: `Some` of its value when it is a
/// non-empty run of decimal digits whose value fits in a `u64`.
pub fn digits_to_u64(v: &Vec<char>, lo: usize, hi: usize) -> (r: Option<u64>)
    requires
        lo <= hi <= v.len(),
    ensures
        ({
            let d = v@.subrange(lo as int, hi as int);
            r == if d.len() > 0 && all_digits(d) && digits_value(d) <= u64::MAX {
                Some(digits_value(d) as u64)
            } else {
                None
            }
        }),
{
    let ghost d = v@.subrange(lo as int, hi as int);
    if lo == hi {
        return None;
    }
    let mut acc: u64 = 0;
    let mut i = lo;
    while i < hi
        invariant
            lo <= i <= hi <= v.len(),
            d == v@.subrange(lo as int, hi as int),
            all_digits(d.take(i - lo)),
            acc == digits_value(d.take(i - lo)),
        decreases hi - i,
    {
        let c = v[i];
        assert(d[i - lo] == c);
        if !('0' <= c && c <= '9') {
            assert(!all_digits(d));
            return None;
        }
        let dv = (c as u32 - '0' as u32) as u64;
        assert(d.take(i - lo + 1).drop_last() =~= d.take(i - lo));
        assert(d.take(i - lo + 1).last() == c);
        let m = acc.checked_mul(10);
        if m.is_none() {
            proof {
                lemma_digits_prefix_le(d, i - lo + 1);
                if all_digits(d) {
                    assert(all_digits(d.take(i - lo + 1)));
                }
            }
            return None;
        }
        let s = m.unwrap().checked_add(dv);
        if s.is_none() {
            proof {
                lemma_digits_prefix_le(d, i - lo + 1);
                if all_digits(d) {
                    assert(all_digits(d.take(i - lo + 1)));
                }
            }
            return None;
        }
        acc = s.unwrap();
        i = i + 1;
        assert(all_digits(d.take(i - lo)));
    }
    assert(d.take(hi - lo) =~= d);
    Some(acc)
}

} // verus!

verus! {

/// `v[lo..hi].parse::<u64>()`.
pub fn parse_u64_in(v: &Vec<char>, lo: usize, hi: usize) -> (r: Option<u64>)
    requires
        lo <= hi <= v.len(),
    ensures
        r == parse_u64_spec(v@.subrange(lo as int, hi as int)),
{
    let ghost s = v@.subrange(lo as int, hi as int);
    if lo < hi && v[lo] == '+' {
        assert(v@.subrange(lo + 1, hi as int) =~= s.drop_first());
        digits_to_u64(v, lo + 1, hi)
    } else {
        digits_to_u64(v, lo, hi)
    }
}

/// `v[lo..hi].parse::<u32>()`.
pub fn parse_u32_in(v: &Vec<char>, lo: usize, hi: usize) -> (r: Option<u32>)
    requires
        lo <= hi <= v.len(),
    ensures
        r == parse_u32_spec(v@.subrange(lo as int, hi as int)),
{
    match parse_u64_in(v, lo, hi) {
        Some(x) => if x <= u32::MAX as u64 { Some(x as u32) } else { None },
        None => None,
    }
}

/// `v[lo..hi].parse::<u16>()`.
pub fn parse_u16_in(v: &Vec<char>, lo: usize, hi: usize) -> (r: Option<u16>)
    requires
        lo <= hi <= v.len(),
    ensures
        r == parse_u16_spec(v@.subrange(lo as int, hi as int)),
{
    match parse_u64_in(v, lo, hi) {
        Some(x) => if x <= u16::MAX as u64 { Some(x as u16) } else { None },
        None => None,
    }
}

/// `v[lo..hi].parse::<usize>()`.
pub fn parse_usize_in(v: &Vec<char>, lo: usize, hi: usize) -> (r: Option<usize>)
    requires
        lo <= hi <= v.len(),
    ensures
        r == parse_usize_spec(v@.subrange(lo as int, hi as int)),
{
    match parse_u64_in(v, lo, hi) {
        Some(x) => if x as u128 <= usize::MAX as u128 { Some(x as usize) } else { None },
        None => None,
    }
}

/// `v[lo..hi].parse::<i64>()`.
pub fn parse_i64_in(v: &Vec<char>, lo: usize, hi: usize) -> (r: Option<i64>)
    requires
        lo <= hi <= v.len(),
    ensures
        r == parse_i64_spec(v@.subrange(lo as int, hi as int)),
{
    let ghost s = v@.subrange(lo as int, hi as int);
    if lo < hi && v[lo] == '-' {
        assert(v@.subrange(lo + 1, hi as int) =~= s.drop_first());
        match digits_to_u64(v, lo + 1, hi) {
            Some(m) => {
                if m <= 0x7fff_ffff_ffff_ffffu64 {
                    Some(-(m as i64))
                } else if m == 0x8000_0000_0000_0000u64 {
                    Some(i64::MIN)
                } else {
                    None
                }
            },
            None => None,
        }
    } else {
        match parse_u64_in(v, lo, hi) {
            Some(x) => if x <= i64::MAX as u64 { Some(x as i64) } else { None },
            None => None,
        }
    }
}

/// `v[lo..hi].parse::<i32>()`.
pub fn parse_i32_in(v: &Vec<char>, lo: usize, hi: usize) -> (r: Option<i32>)
    requires
        lo <= hi <= v.len(),
    ensures
        r == parse_i32_spec(v@.subrange(lo as int, hi as int)),
{
    match parse_i64_in(v, lo, hi) {
        Some(x) => if i32::MIN as i64 <= x && x <= i32::MAX as i64 { Some(x as i32) } else { None },
        None => None,
    }
}

/// `s.parse::<u64>()`.
pub fn parse_u64(s: &str) -> (r: Option<u64>)
    ensures
        r == parse_u64_spec(s@),
{
    let v = chars_of(s);
    assert(v@.subrange(0, v.len() as int) =~= v@);
    parse_u64_in(&v, 0, v.len())
}

/// `s.parse::<u16>()`.
pub fn parse_u16(s: &str) -> (r: Option<u16>)
    ensures
        r == parse_u16_spec(s@),
{
    let v = chars_of(s);
    assert(v@.subrange(0, v.len() as int) =~= v@);
    parse_u16_in(&v, 0, v.len())
}

/// `s.parse::<u32>()`.
pub fn parse_u32(s: &str) -> (r: Option<u32>)
    ensures
        r == parse_u32_spec(s@),
{
    let v = chars_of(s);
    assert(v@.subrange(0, v.len() as int) =~= v@);
    parse_u32_in(&v, 0, v.len())
}

/// `s.parse::<usize>()`.
pub fn parse_usize(s: &str) -> (r: Option<usize>)
    ensures
        r == parse_usize_spec(s@),
{
    let v = chars_of(s);
    assert(v@.subrange(0, v.len() as int) =~= v@);
    parse_usize_in(&v, 0, v.len())
}

/// The character of a decimal digit value.
pub open spec fn digit_char(d: nat) -> char {
    ((d + 48) as u32) as char
}

/// The decimal text of `n`, as `format!("{n}")` writes it.
pub open spec fn dec_chars(n: nat) -> Seq<char>
    decreases n,
{
    if n < 10 {
        seq![digit_char(n)]
    } else {
        dec_chars(n / 10).push(digit_char(n % 10))
    }
}

/// A digit value's character is a decimal digit of that value.
pub proof fn lemma_digit_char(d: nat)
    requires
        d < 10,
    ensures
        is_digit(digit_char(d)),
        digit_of(digit_char(d)) == d,
{
    assert(digit_char(d) as int == d + 48);
}

/// The decimal text of a number is a digit run whose value is that number.
pub proof fn lemma_dec_chars_value(n: nat)
    ensures
        dec_chars(n).len() > 0,
        all_digits(dec_chars(n)),
        digits_value(dec_chars(n)) == n,
        dec_chars(n)[0] != '+' && dec_chars(n)[0] != '-',
    decreases n,
{
    lemma_digit_char(n % 10);
    if n >= 10 {
        lemma_dec_chars_value(n / 10);
        let p = dec_chars(n / 10);
        assert(dec_chars(n).drop_last() =~= p);
        assert(dec_chars(n).last() == digit_char(n % 10));
        assert((n / 10) * 10 + n % 10 == n);
        assert(digits_value(dec_chars(n)) == digits_value(p) * 10 + digit_of(digit_char(n % 10)));
        assert forall|i: int| 0 <= i < dec_chars(n).len() implies is_digit(#[trigger] dec_chars(n)[i]) by {
            if i < p.len() {
                assert(dec_chars(n)[i] == p[i]);
            }
        }
    } else {
        assert(dec_chars(n).drop_last() =~= Seq::<char>::empty());
        assert(digits_value(Seq::<char>::empty()) == 0);
        assert(n % 10 == n);
        assert(digits_value(dec_chars(n)) == digits_value(dec_chars(n).drop_last()) * 10 + digit_of(dec_chars(n).last()));
    }
}

/// Reading back the decimal text of a number gives the number.
pub proof fn lemma_parse_dec_roundtrip(n: nat)
    ensures
        unsigned_value(dec_chars(n)) == Some(n),
{
    lemma_dec_chars_value(n);
}

/// Appends the decimal text of `n` to `s`.
pub fn push_dec(s: &mut String, n: u64)
    ensures
        final(s)@ == old(s)@ + dec_chars(n as nat),
    decreases n,
{
    if n >= 10 {
        push_dec(s, n / 10);
    }
    let d = (n % 10) as u8;
    let c = (d + 48) as char;
    assert(c == digit_char((n % 10) as nat));
    push_char(s, c);
    proof {
        if n < 10 {
            assert(dec_chars(n as nat) =~= seq![digit_char(n as nat)]);
        }
    }
}

/// The decimal text of a signed `n`: a `-` before the digits of its
/// magnitude when it is negative.
pub open spec fn int_chars(n: int) -> Seq<char> {
    if n < 0 {
        seq!['-'] + dec_chars((-n) as nat)
    } else {
        dec_chars(n as nat)
    }
}

/// Appends the decimal text of the signed `n` to `s`.
pub fn push_int(s: &mut String, n: i64)
    ensures
        final(s)@ == old(s)@ + int_chars(n as int),
{
    let ghost s0 = s@;
    if n < 0 {
        push_char(s, '-');
        let m: u64 = ((-(n + 1)) as u64) + 1;
        push_dec(s, m);
        assert(s@ =~= s0 + int_chars(n as int));
    } else {
        push_dec(s, n as u64);
    }
}

} // verus!

verus! {

/// `char::is_whitespace`: the characters with the Unicode `White_Space`
/// property.
pub open spec fn is_ws(c: char) -> bool {
    ('\u{9}' <= c && c <= '\u{d}') || c == ' ' || c == '\u{85}' || c == '\u{a0}'
        || c == '\u{1680}' || ('\u{2000}' <= c && c <= '\u{200a}') || c == '\u{2028}'
        || c == '\u{2029}' || c == '\u{202f}' || c == '\u{205f}' || c == '\u{3000}'
}

/// `c.is_whitespace()`.
pub fn is_whitespace(c: char) -> (r: bool)
    ensures
        r == is_ws(c),
{
    ('\u{9}' <= c && c <= '\u{d}') || c == ' ' || c == '\u{85}' || c == '\u{a0}'
        || c == '\u{1680}' || ('\u{2000}' <= c && c <= '\u{200a}') || c == '\u{2028}'
        || c == '\u{2029}' || c == '\u{202f}' || c == '\u{205f}' || c == '\u{3000}'
}

/// Number of leading whitespace characters of `s`.
pub open spec fn ws_run(s: Seq<char>) -> nat
    decreases s.len(),
{
    if s.len() > 0 && is_ws(s[0]) {
        1 + ws_run(s.drop_first())
    } else {
        0
    }
}

/// Number of leading non-whitespace characters of `s`.
pub open spec fn word_len(s: Seq<char>) -> nat
    decreases s.len(),
{
    if s.len() > 0 && !is_ws(s[0]) {
        1 + word_len(s.drop_first())
    } else {
        0
    }
}

pub proof fn lemma_ws_run(s: Seq<char>)
    ensures
        ws_run(s) <= s.len(),
        forall|i: int| 0 <= i < ws_run(s) ==> is_ws(#[trigger] s[i]),
        ws_run(s) < s.len() ==> !is_ws(s[ws_run(s) as int]),
    decreases s.len(),
{
    if s.len() > 0 && is_ws(s[0]) {
        lemma_ws_run(s.drop_first());
        assert forall|i: int| 0 <= i < ws_run(s) implies is_ws(#[trigger] s[i]) by {
            if i > 0 {
                assert(s[i] == s.drop_first()[i - 1]);
            }
        }
    }
}

pub proof fn lemma_word_len(s: Seq<char>)
    ensures
        word_len(s) <= s.len(),
        forall|i: int| 0 <= i < word_len(s) ==> !is_ws(#[trigger] s[i]),
        word_len(s) < s.len() ==> is_ws(s[word_len(s) as int]),
    decreases s.len(),
{
    if s.len() > 0 && !is_ws(s[0]) {
        lemma_word_len(s.drop_first());
        assert forall|i: int| 0 <= i < word_len(s) implies !is_ws(#[trigger] s[i]) by {
            if i > 0 {
                assert(s[i] == s.drop_first()[i - 1]);
            }
        }
    }
}

/// `word_len` is the length of the leading run of non-whitespace.
pub proof fn lemma_word_len_is(s: Seq<char>, m: int)
    requires
        0 <= m <= s.len(),
        forall|i: int| 0 <= i < m ==> !is_ws(#[trigger] s[i]),
        m == s.len() || is_ws(s[m]),
    ensures
        word_len(s) == m,
    decreases m,
{
    if m > 0 {
        assert forall|i: int| 0 <= i < m - 1 implies !is_ws(#[trigger] s.drop_first()[i]) by {
            assert(s.drop_first()[i] == s[i + 1]);
        }
        if m < s.len() {
            assert(s.drop_first()[m - 1] == s[m]);
        }
        lemma_word_len_is(s.drop_first(), m - 1);
    }
}

/// The whitespace-separated words of `s`, as `str::split_whitespace` yields
/// them.
pub open spec fn tokens(s: Seq<char>) -> Seq<Seq<char>>
    decreases s.len(),
{
    let t = s.skip(ws_run(s) as int);
    if t.len() == 0 || ws_run(s) > s.len() {
        Seq::empty()
    } else {
        let n = word_len(t);
        proof {
            lemma_ws_run(s);
            lemma_word_len(t);
        }
        if n == 0 {
            Seq::empty()
        } else {
            seq![t.take(n as int)] + tokens(t.skip(n as int))
        }
    }
}

/// Leading whitespace does not change the words.
pub proof fn lemma_tokens_skip_ws(s: Seq<char>)
    requires
        s.len() > 0,
        is_ws(s[0]),
    ensures
        tokens(s) == tokens(s.drop_first()),
{
    lemma_ws_run(s);
    lemma_ws_run(s.drop_first());
    assert(s.skip(ws_run(s) as int) =~= s.drop_first().skip(ws_run(s.drop_first()) as int));
}

/// A string that starts with a word of length `m` yields that word first.
pub proof fn lemma_tokens_word(s: Seq<char>, m: int)
    requires
        0 < m <= s.len(),
        forall|i: int| 0 <= i < m ==> !is_ws(#[trigger] s[i]),
        m == s.len() || is_ws(s[m]),
    ensures
        tokens(s) == seq![s.take(m)] + tokens(s.skip(m)),
{
    lemma_word_len_is(s, m);
    assert(!is_ws(s[0]));
    assert(ws_run(s) == 0);
    assert(s.skip(0) =~= s);
}

/// The words of the empty text.
pub proof fn lemma_tokens_empty(s: Seq<char>)
    requires
        s.len() == 0,
    ensures
        tokens(s) == Seq::<Seq<char>>::empty(),
{
}

/// The ranges `r` select, from `v`, exactly the sequence `t` of texts.
pub open spec fn ranges_select(v: Seq<char>, r: Seq<(usize, usize)>, t: Seq<Seq<char>>) -> bool {
    &&& r.len() == t.len()
    &&& forall|k: int|
        0 <= k < r.len() ==> {
            &&& (#[trigger] r[k]).0 <= r[k].1 <= v.len()
            &&& v.subrange(r[k].0 as int, r[k].1 as int) == t[k]
        }
}

/// The words of `v[lo..hi]`, as index ranges into `v`.
pub fn token_ranges(v: &Vec<char>, lo: usize, hi: usize) -> (r: Vec<(usize, usize)>)
    requires
        lo <= hi <= v.len(),
    ensures
        ranges_select(v@, r@, tokens(v@.subrange(lo as int, hi as int))),
        forall|k: int| 0 <= k < r.len() ==> lo <= (#[trigger] r[k]).0 < r[k].1 <= hi,
{
    let mut r: Vec<(usize, usize)> = Vec::new();
    let mut i = lo;
    let ghost whole = tokens(v@.subrange(lo as int, hi as int));
    let ghost found: Seq<Seq<char>> = Seq::empty();
    while i < hi
        invariant
            lo <= i <= hi <= v.len(),
            whole == tokens(v@.subrange(lo as int, hi as int)),
            whole == found + tokens(v@.subrange(i as int, hi as int)),
            ranges_select(v@, r@, found),
            forall|k: int| 0 <= k < r.len() ==> lo <= (#[trigger] r[k]).0 < r[k].1 <= i,
        decreases hi - i,
    {
        if is_whitespace(v[i]) {
            proof {
                let s = v@.subrange(i as int, hi as int);
                lemma_tokens_skip_ws(s);
                assert(s.drop_first() =~= v@.subrange(i + 1, hi as int));
            }
            i = i + 1;
        } else {
            let start = i;
            let mut j = i + 1;
            while j < hi && !is_whitespace(v[j])
                invariant
                    start < j <= hi <= v.len(),
                    forall|m: int| start <= m < j ==> !is_ws(#[trigger] v@[m]),
                decreases hi - j,
            {
                j = j + 1;
            }
            proof {
                let s = v@.subrange(start as int, hi as int);
                let m = j - start;
                assert forall|x: int| 0 <= x < m implies !is_ws(#[trigger] s[x]) by {
                    assert(s[x] == v@[start + x]);
                }
                if j < hi {
                    assert(s[m] == v@[j as int]);
                }
                lemma_tokens_word(s, m);
                assert(s.take(m) =~= v@.subrange(start as int, j as int));
                assert(s.skip(m) =~= v@.subrange(j as int, hi as int));
                found = found.push(v@.subrange(start as int, j as int));
                assert(whole =~= found + tokens(v@.subrange(j as int, hi as int)));
            }
            r.push((start, j));
            i = j;
        }
    }
    proof {
        lemma_tokens_empty(v@.subrange(i as int, hi as int));
        assert(whole =~= found);
    }
    r
}

} // verus!

verus! {

/// Index of the first `c` in `s`, or `s.len()` when there is none.
pub open spec fn index_of(s: Seq<char>, c: char) -> nat
    decreases s.len(),
{
    if s.len() == 0 {
        0
    } else if s[0] == c {
        0
    } else {
        1 + index_of(s.drop_first(), c)
    }
}

pub proof fn lemma_index_of_is(s: Seq<char>, c: char, m: int)
    requires
        0 <= m <= s.len(),
        forall|i: int| 0 <= i < m ==> #[trigger] s[i] != c,
        m == s.len() || s[m] == c,
    ensures
        index_of(s, c) == m,
    decreases m,
{
    if m > 0 {
        assert forall|i: int| 0 <= i < m - 1 implies #[trigger] s.drop_first()[i] != c by {
            assert(s.drop_first()[i] == s[i + 1]);
        }
        if m < s.len() {
            assert(s.drop_first()[m - 1] == s[m]);
        }
        lemma_index_of_is(s.drop_first(), c, m - 1);
    }
}

/// Index of the last `c` in `s`, or -1 when there is none.
pub open spec fn last_index_of(s: Seq<char>, c: char) -> int
    decreases s.len(),
{
    if s.len() == 0 {
        -1
    } else if s.last() == c {
        s.len() - 1
    } else {
        last_index_of(s.drop_last(), c)
    }
}

pub proof fn lemma_last_index_of_is(s: Seq<char>, c: char, m: int)
    requires
        -1 <= m < s.len(),
        forall|i: int| m < i < s.len() ==> #[trigger] s[i] != c,
        m == -1 || s[m] == c,
    ensures
        last_index_of(s, c) == m,
    decreases s.len(),
{
    if s.len() > 0 && m < s.len() - 1 {
        assert(s[s.len() - 1] != c);
        assert forall|i: int| m < i < s.drop_last().len() implies #[trigger] s.drop_last()[i] != c by {
            assert(s.drop_last()[i] == s[i]);
        }
        lemma_last_index_of_is(s.drop_last(), c, m);
    }
}

/// The text of one line: a line that a `'\n'` ends loses a trailing `'\r'`.
pub open spec fn line_text(piece: Seq<char>, ended: bool) -> Seq<char> {
    if ended && piece.len() > 0 && piece.last() == '\r' {
        piece.drop_last()
    } else {
        piece
    }
}

/// The lines of `s`, as `str::lines` yields them: split after each `'\n'`,
/// a final line ending being optional, and `"\r\n"` counting as one ending.
pub open spec fn lines(s: Seq<char>) -> Seq<Seq<char>>
    decreases s.len(),
{
    if s.len() == 0 {
        Seq::empty()
    } else {
        let n = index_of(s, '\n');
        if n < s.len() {
            seq![line_text(s.take(n as int), true)] + lines(s.skip((n + 1) as int))
        } else {
            seq![s]
        }
    }
}

/// The lines of `v`, as index ranges into `v`.
pub fn line_ranges(v: &Vec<char>) -> (r: Vec<(usize, usize)>)
    ensures
        ranges_select(v@, r@, lines(v@)),
{
    let mut r: Vec<(usize, usize)> = Vec::new();
    let mut i: usize = 0;
    let ghost whole = lines(v@);
    let ghost found: Seq<Seq<char>> = Seq::empty();
    assert(v@.subrange(0, v.len() as int) =~= v@);
    while i < v.len()
        invariant
            i <= v.len(),
            whole == lines(v@),
            whole == found + lines(v@.subrange(i as int, v.len() as int)),
            ranges_select(v@, r@, found),
        decreases v.len() - i,
    {
        let start = i;
        let mut j = i;
        while j < v.len() && v[j] != '\n'
            invariant
                start <= j <= v.len(),
                forall|m: int| start <= m < j ==> #[trigger] v@[m] != '\n',
            decreases v.len() - j,
        {
            j = j + 1;
        }
        let ghost s = v@.subrange(start as int, v.len() as int);
        proof {
            let m = j - start;
            assert forall|x: int| 0 <= x < m implies #[trigger] s[x] != '\n' by {
                assert(s[x] == v@[start + x]);
            }
            if j < v.len() {
                assert(s[m] == v@[j as int]);
            }
            lemma_index_of_is(s, '\n', m);
        }
        if j < v.len() {
            let end = if j > start && v[j - 1] == '\r' { j - 1 } else { j };
            proof {
                let m = j - start;
                assert(s.take(m) =~= v@.subrange(start as int, j as int));
                assert(s.skip(m + 1) =~= v@.subrange(j + 1, v.len() as int));
                if j > start && v@[j - 1] == '\r' {
                    assert(s.take(m).drop_last() =~= v@.subrange(start as int, end as int));
                }
                assert(line_text(s.take(m), true) =~= v@.subrange(start as int, end as int));
                found = found.push(v@.subrange(start as int, end as int));
                assert(whole =~= found + lines(v@.subrange(j + 1, v.len() as int)));
            }
            r.push((start, end));
            i = j + 1;
        } else {
            proof {
                found = found.push(s);
                assert(whole =~= found);
                assert(lines(v@.subrange(v.len() as int, v.len() as int)) =~= Seq::<Seq<char>>::empty());
                assert(whole =~= found + lines(v@.subrange(v.len() as int, v.len() as int)));
            }
            r.push((start, v.len()));
            i = v.len();
        }
    }
    proof {
        assert(lines(v@.subrange(i as int, v.len() as int)) =~= Seq::<Seq<char>>::empty());
        assert(whole =~= found);
    }
    r
}

/// The pieces of `s` between the separators `c`, as `str::split` yields
/// them: one piece more than there are separators.
pub open spec fn split_on(s: Seq<char>, c: char) -> Seq<Seq<char>>
    decreases s.len(),
{
    let n = index_of(s, c);
    if n < s.len() {
        seq![s.take(n as int)] + split_on(s.skip((n + 1) as int), c)
    } else {
        seq![s]
    }
}

/// The pieces of `v[lo..hi]` between the separators `c`, as index ranges.
pub fn split_ranges(v: &Vec<char>, lo: usize, hi: usize, c: char) -> (r: Vec<(usize, usize)>)
    requires
        lo <= hi <= v.len(),
    ensures
        ranges_select(v@, r@, split_on(v@.subrange(lo as int, hi as int), c)),
        r@.len() > 0,
{
    let mut r: Vec<(usize, usize)> = Vec::new();
    let mut i: usize = lo;
    let mut done = false;
    let ghost whole = split_on(v@.subrange(lo as int, hi as int), c);
    let ghost found: Seq<Seq<char>> = Seq::empty();
    while !done
        invariant
            lo <= i <= hi <= v.len(),
            whole == split_on(v@.subrange(lo as int, hi as int), c),
            !done ==> whole == found + split_on(v@.subrange(i as int, hi as int), c),
            done ==> whole == found,
            done ==> r@.len() > 0,
            ranges_select(v@, r@, found),
        decreases hi - i + (if done { 0int } else { 1int }),
    {
        let start = i;
        let j = match find_char_in(v, start, hi, c) {
            Some(x) => x,
            None => hi,
        };
        let ghost s = v@.subrange(start as int, hi as int);
        proof {
            let m = j - start;
            assert forall|x: int| 0 <= x < m implies #[trigger] s[x] != c by {
                assert(s[x] == v@[start + x]);
            }
            if j < hi {
                assert(s[m] == v@[j as int]);
            }
            lemma_index_of_is(s, c, m);
            assert(s.take(m) =~= v@.subrange(start as int, j as int));
        }
        r.push((start, j));
        if j < hi {
            proof {
                let m = j - start;
                assert(s.skip(m + 1) =~= v@.subrange(j + 1, hi as int));
                found = found.push(v@.subrange(start as int, j as int));
                assert(whole =~= found + split_on(v@.subrange(j + 1, hi as int), c));
            }
            i = j + 1;
        } else {
            proof {
                assert(s =~= v@.subrange(start as int, j as int));
                found = found.push(s);
                assert(whole =~= found);
            }
            i = hi;
            done = true;
        }
    }
    r
}

/// Index of the first `a` directly followed by `b` in `s`, or `s.len()`
/// when there is none.
pub open spec fn pair_index(s: Seq<char>, a: char, b: char) -> nat
    decreases s.len(),
{
    if s.len() < 2 {
        s.len()
    } else if s[0] == a && s[1] == b {
        0
    } else {
        1 + pair_index(s.drop_first(), a, b)
    }
}

pub proof fn lemma_pair_index_is(s: Seq<char>, a: char, b: char, m: int)
    requires
        0 <= m <= s.len(),
        forall|i: int| 0 <= i < m && i + 1 < s.len() ==> !(#[trigger] s[i] == a && s[i + 1] == b),
        m == s.len() || (m + 1 < s.len() && s[m] == a && s[m + 1] == b),
    ensures
        pair_index(s, a, b) == m,
    decreases s.len(),
{
    if s.len() >= 2 && m > 0 {
        assert(!(s[0] == a && s[1] == b));
        let t = s.drop_first();
        assert forall|i: int| 0 <= i < m - 1 && i + 1 < t.len() implies !(#[trigger] t[i] == a && t[i
            + 1] == b) by {
            assert(t[i] == s[i + 1] && t[i + 1] == s[i + 2]);
        }
        if m < s.len() {
            assert(t[m - 1] == s[m] && t[m] == s[m + 1]);
        }
        lemma_pair_index_is(t, a, b, m - 1);
    }
}

/// The first index `i` in `[lo, hi - 1)` with `v[i] == a` and `v[i + 1] == b`.
pub fn find_pair_in(v: &Vec<char>, lo: usize, hi: usize, a: char, b: char) -> (r: Option<usize>)
    requires
        lo <= hi <= v.len(),
    ensures
        ({
            let s = v@.subrange(lo as int, hi as int);
            match r {
                Some(i) => lo <= i && i + 1 < hi && pair_index(s, a, b) == i - lo && v@[i as int] == a
                    && v@[i + 1] == b,
                None => pair_index(s, a, b) == s.len(),
            }
        }),
{
    let ghost s = v@.subrange(lo as int, hi as int);
    let mut i = lo;
    while i < hi && hi - i >= 2
        invariant
            lo <= i <= hi <= v.len(),
            s == v@.subrange(lo as int, hi as int),
            forall|k: int| 0 <= k < i - lo && k + 1 < s.len() ==> !(#[trigger] s[k] == a && s[k + 1] == b),
        decreases hi - i,
    {
        if v[i] == a && v[i + 1] == b {
            proof {
                assert(s[i - lo] == v@[i as int] && s[i - lo + 1] == v@[i + 1]);
                lemma_pair_index_is(s, a, b, i - lo);
            }
            return Some(i);
        }
        assert(s[i - lo] == v@[i as int] && s[i - lo + 1] == v@[i + 1]);
        i = i + 1;
    }
    proof {
        lemma_pair_index_is(s, a, b, s.len() as int);
    }
    None
}

/// `s` without its leading `c` characters.
pub open spec fn trim_start(s: Seq<char>, c: char) -> Seq<char>
    decreases s.len(),
{
    if s.len() > 0 && s[0] == c {
        trim_start(s.drop_first(), c)
    } else {
        s
    }
}

/// The first index in `[lo, hi]` from which `v[..hi]` no longer starts with `c`.
pub fn skip_char_in(v: &Vec<char>, lo: usize, hi: usize, c: char) -> (r: usize)
    requires
        lo <= hi <= v.len(),
    ensures
        lo <= r <= hi,
        v@.subrange(r as int, hi as int) == trim_start(v@.subrange(lo as int, hi as int), c),
{
    let mut i = lo;
    while i < hi && v[i] == c
        invariant
            lo <= i <= hi <= v.len(),
            trim_start(v@.subrange(lo as int, hi as int), c) == trim_start(v@.subrange(i as int, hi as int), c),
        decreases hi - i,
    {
        assert(v@.subrange(i as int, hi as int).drop_first() =~= v@.subrange(i + 1, hi as int));
        i = i + 1;
    }
    i
}

/// `s` without its trailing whitespace.
pub open spec fn trim_end_ws(s: Seq<char>) -> Seq<char>
    decreases s.len(),
{
    if s.len() > 0 && is_ws(s.last()) {
        trim_end_ws(s.drop_last())
    } else {
        s
    }
}

/// `str::trim`: `s` without its leading and trailing whitespace.
pub open spec fn trim_ws(s: Seq<char>) -> Seq<char> {
    trim_end_ws(s.skip(ws_run(s) as int))
}

/// The range of `v[lo..hi]` left after trimming its whitespace.
pub fn trim_range(v: &Vec<char>, lo: usize, hi: usize) -> (r: (usize, usize))
    requires
        lo <= hi <= v.len(),
    ensures
        lo <= r.0 <= r.1 <= hi,
        v@.subrange(r.0 as int, r.1 as int) == trim_ws(v@.subrange(lo as int, hi as int)),
{
    let ghost s = v@.subrange(lo as int, hi as int);
    let mut a = lo;
    while a < hi && is_whitespace(v[a])
        invariant
            lo <= a <= hi <= v.len(),
            s == v@.subrange(lo as int, hi as int),
            ws_run(s) == (a - lo) + ws_run(v@.subrange(a as int, hi as int)),
        decreases hi - a,
    {
        assert(v@.subrange(a as int, hi as int).drop_first() =~= v@.subrange(a + 1, hi as int));
        a = a + 1;
    }
    proof {
        assert(ws_run(v@.subrange(a as int, hi as int)) == 0);
        assert(s.skip(ws_run(s) as int) =~= v@.subrange(a as int, hi as int));
    }
    let mut b = hi;
    while b > a && is_whitespace(v[b - 1])
        invariant
            lo <= a <= b <= hi <= v.len(),
            trim_ws(s) == trim_end_ws(v@.subrange(a as int, b as int)),
        decreases b - a,
    {
        assert(v@.subrange(a as int, b as int).drop_last() =~= v@.subrange(a as int, b - 1));
        b = b - 1;
    }
    (a, b)
}

/// `v[lo..hi]` starts with `p`.
pub open spec fn has_prefix(s: Seq<char>, p: Seq<char>) -> bool {
    p.len() <= s.len() && s.take(p.len() as int) == p
}

/// Whether `v[lo..hi]` starts with `p`.
pub fn starts_with_in(v: &Vec<char>, lo: usize, hi: usize, p: &Vec<char>) -> (r: bool)
    requires
        lo <= hi <= v.len(),
    ensures
        r == has_prefix(v@.subrange(lo as int, hi as int), p@),
{
    let ghost s = v@.subrange(lo as int, hi as int);
    if p.len() > hi - lo {
        return false;
    }
    let mut k: usize = 0;
    while k < p.len()
        invariant
            p.len() <= hi - lo,
            lo <= hi <= v.len(),
            s == v@.subrange(lo as int, hi as int),
            k <= p.len(),
            forall|m: int| 0 <= m < k ==> v@[lo + m] == p@[m],
        decreases p.len() - k,
    {
        if v[lo + k] != p[k] {
            proof {
                assert(s.take(p.len() as int)[k as int] == v@[lo + k]);
            }
            return false;
        }
        k = k + 1;
    }
    assert(s.take(p.len() as int) =~= p@);
    true
}

/// Whether `v[lo..hi]` is exactly `p`.
pub fn equals_in(v: &Vec<char>, lo: usize, hi: usize, p: &Vec<char>) -> (r: bool)
    requires
        lo <= hi <= v.len(),
    ensures
        r == (v@.subrange(lo as int, hi as int) == p@),
{
    if hi - lo != p.len() {
        return false;
    }
    let b = starts_with_in(v, lo, hi, p);
    proof {
        let s = v@.subrange(lo as int, hi as int);
        assert(s.take(p.len() as int) =~= s);
    }
    b
}

/// The first index in `[lo, hi)` holding `c`.
pub fn find_char_in(v: &Vec<char>, lo: usize, hi: usize, c: char) -> (r: Option<usize>)
    requires
        lo <= hi <= v.len(),
    ensures
        match r {
            Some(i) => lo <= i < hi && v@[i as int] == c && forall|m: int|
                lo <= m < i ==> #[trigger] v@[m] != c,
            None => forall|m: int| lo <= m < hi ==> #[trigger] v@[m] != c,
        },
{
    let mut i = lo;
    while i < hi
        invariant
            lo <= i <= hi <= v.len(),
            forall|m: int| lo <= m < i ==> #[trigger] v@[m] != c,
        decreases hi - i,
    {
        if v[i] == c {
            return Some(i);
        }
        i = i + 1;
    }
    None
}

/// The last index in `[lo, hi)` holding `c`.
pub fn rfind_char_in(v: &Vec<char>, lo: usize, hi: usize, c: char) -> (r: Option<usize>)
    requires
        lo <= hi <= v.len(),
    ensures
        match r {
            Some(i) => lo <= i < hi && v@[i as int] == c && forall|m: int|
                i < m < hi ==> #[trigger] v@[m] != c,
            None => forall|m: int| lo <= m < hi ==> #[trigger] v@[m] != c,
        },
{
    let mut i = hi;
    while i > lo
        invariant
            lo <= i <= hi <= v.len(),
            forall|m: int| i <= m < hi ==> #[trigger] v@[m] != c,
        decreases i - lo,
    {
        if v[i - 1] == c {
            return Some(i - 1);
        }
        i = i - 1;
    }
    None
}

} // verus!
