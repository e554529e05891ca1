//! Character classification and string helpers shared by the content
//! processing functions: conversion between `&str` and `Vec<char>`,
//! substring search, literal replacement, decimal rendering, and a
//! lowercasing wrapper.

use vstd::prelude::*;

verus! {

/// The characters that `split_whitespace` treats as separators: the
/// Unicode `White_Space` code points.
pub open spec fn is_space(c: char) -> bool {
    let u = c as u32;
    ||| u == 0x20
    ||| (0x09 <= u && u <= 0x0D)
    ||| u == 0x85
    ||| u == 0xA0
    ||| u == 0x1680
    ||| (0x2000 <= u && u <= 0x200A)
    ||| u == 0x2028
    ||| u == 0x2029
    ||| u == 0x202F
    ||| u == 0x205F
    ||| u == 0x3000
}

/// The Unicode control characters (category `Cc`).
pub open spec fn is_ctrl(c: char) -> bool {
    let u = c as u32;
    u <= 0x1F || (0x7F <= u && u <= 0x9F)
}

/// ASCII letters, digits and underscore: the characters a code-block
/// language tag may consist of.
pub open spec fn is_word_char(c: char) -> bool {
    let u = c as u32;
    ||| (0x41 <= u && u <= 0x5A)
    ||| (0x61 <= u && u <= 0x7A)
    ||| (0x30 <= u && u <= 0x39)
    ||| u == 0x5F
}

/// ASCII decimal digits.
pub open spec fn is_digit(c: char) -> bool {
    let u = c as u32;
    0x30 <= u && u <= 0x39
}

pub fn space_char(c: char) -> (b: bool)
    ensures
        b == is_space(c),
{
    let u = c as u32;
    u == 0x20 || (0x09 <= u && u <= 0x0D) || u == 0x85 || u == 0xA0 || u == 0x1680 || (0x2000 <= u
        && u <= 0x200A) || u == 0x2028 || u == 0x2029 || u == 0x202F || u == 0x205F || u == 0x3000
}

pub fn ctrl_char(c: char) -> (b: bool)
    ensures
        b == is_ctrl(c),
{
    let u = c as u32;
    u <= 0x1F || (0x7F <= u && u <= 0x9F)
}

pub fn word_char(c: char) -> (b: bool)
    ensures
        b == is_word_char(c),
{
    let u = c as u32;
    (0x41 <= u && u <= 0x5A) || (0x61 <= u && u <= 0x7A) || (0x30 <= u && u <= 0x39) || u == 0x5F
}

pub fn digit_char(c: char) -> (b: bool)
    ensures
        b == is_digit(c),
{
    let u = c as u32;
    0x30 <= u && u <= 0x39
}

/// Collects the characters of `s` into a vector.
pub fn str_to_chars(s: &str) -> (r: Vec<char>)
    ensures
        r@ == s@,
{
    let n = s.unicode_len();
    let mut r: Vec<char> = Vec::new();
    let mut i: usize = 0;
    while i < n
        invariant
            n == s@.len(),
            i <= n,
            r@ == s@.take(i as int),
        decreases n - i,
    {
        r.push(s.get_char(i));
        i = i + 1;
        proof {
            assert(s@.take(i as int) =~= s@.take(i - 1) + seq![s@[i - 1]]);
        }
    }
    proof {
        assert(s@.take(n as int) =~= s@);
    }
    r
}

/// Relies on the std `FromIterator<char>` implementation for `String`:
/// collecting characters yields the string made of exactly those
/// characters, in order.
#[verifier::external_body]
pub fn chars_to_string(v: &Vec<char>) -> (r: String)
    ensures
        r@ == v@,
{
    v.iter().collect()
}

/// Appends the characters of `s` to `out`.
pub fn push_str_chars(out: &mut Vec<char>, s: &str)
    ensures
        final(out)@ == old(out)@ + s@,
{
    let n = s.unicode_len();
    let mut i: usize = 0;
    while i < n
        invariant
            n == s@.len(),
            i <= n,
            out@ == old(out)@ + s@.take(i as int),
        decreases n - i,
    {
        out.push(s.get_char(i));
        i = i + 1;
        proof {
            assert(s@.take(i as int) =~= s@.take(i - 1) + seq![s@[i - 1]]);
        }
    }
    proof {
        assert(s@.take(n as int) =~= s@);
    }
}

/// Appends `v[from..to]` to `out`.
pub fn push_subrange(out: &mut Vec<char>, v: &Vec<char>, from: usize, to: usize)
    requires
        from <= to <= v@.len(),
    ensures
        final(out)@ == old(out)@ + v@.subrange(from as int, to as int),
{
    let mut i: usize = from;
    while i < to
        invariant
            from <= i <= to <= v@.len(),
            out@ == old(out)@ + v@.subrange(from as int, i as int),
        decreases to - i,
    {
        out.push(v[i]);
        i = i + 1;
        proof {
            assert(v@.subrange(from as int, i as int) =~= v@.subrange(from as int, i - 1) + seq![
                v@[i - 1],
            ]);
        }
    }
}

/// `needle` occurs as a contiguous subsequence of `hay`.
pub open spec fn contains_seq(hay: Seq<char>, needle: Seq<char>) -> bool {
    exists|i: int|
        0 <= i && i + needle.len() <= hay.len() && #[trigger] hay.subrange(i, i + needle.len())
            == needle
}

/// Whether `hay[at..]` starts with `prefix`.
fn matches_at(hay: &str, hay_len: usize, at: usize, prefix: &str, prefix_len: usize) -> (r: bool)
    requires
        hay_len == hay@.len(),
        prefix_len == prefix@.len(),
        at + prefix_len <= hay_len,
    ensures
        r == (hay@.subrange(at as int, at + prefix_len) == prefix@),
{
    let mut j: usize = 0;
    while j < prefix_len
        invariant
            hay_len == hay@.len(),
            prefix_len == prefix@.len(),
            at + prefix_len <= hay_len,
            j <= prefix_len,
            hay@.subrange(at as int, at + j) == prefix@.take(j as int),
        decreases prefix_len - j,
    {
        if hay.get_char(at + j) != prefix.get_char(j) {
            proof {
                assert(hay@.subrange(at as int, at + prefix_len)[j as int] == hay@[at + j]);
            }
            return false;
        }
        j = j + 1;
        proof {
            assert(hay@.subrange(at as int, at + j) =~= hay@.subrange(at as int, at + j - 1)
                + seq![hay@[at + j - 1]]);
            assert(prefix@.take(j as int) =~= prefix@.take(j - 1) + seq![prefix@[j - 1]]);
        }
    }
    proof {
        assert(prefix@.take(prefix_len as int) =~= prefix@);
    }
    true
}

/// Substring search: whether `needle` occurs anywhere in `hay`.
pub fn contains_str(hay: &str, needle: &str) -> (r: bool)
    ensures
        r == contains_seq(hay@, needle@),
{
    let hay_len = hay.unicode_len();
    let needle_len = needle.unicode_len();
    if needle_len > hay_len {
        return false;
    }
    if needle_len == 0 {
        proof {
            assert(hay@.subrange(0, 0 + needle@.len() as int) =~= needle@);
        }
        return true;
    }
    let mut i: usize = 0;
    while i <= hay_len - needle_len
        invariant
            hay_len == hay@.len(),
            needle_len == needle@.len(),
            1 <= needle_len <= hay_len,
            i <= hay_len - needle_len + 1,
            forall|k: int|
                0 <= k < i ==> #[trigger] hay@.subrange(k, k + needle@.len()) != needle@,
        decreases hay_len - needle_len + 1 - i,
    {
        if matches_at(hay, hay_len, i, needle, needle_len) {
            return true;
        }
        i = i + 1;
    }
    false
}

/// Whether the views of `a` and `b` are the same character sequence.
pub fn str_eq(a: &str, b: &str) -> (r: bool)
    ensures
        r == (a@ == b@),
{
    let a_len = a.unicode_len();
    let b_len = b.unicode_len();
    if a_len != b_len {
        return false;
    }
    let mut i: usize = 0;
    while i < a_len
        invariant
            a_len == a@.len() == b@.len(),
            i <= a_len,
            a@.take(i as int) == b@.take(i as int),
        decreases a_len - i,
    {
        if a.get_char(i) != b.get_char(i) {
            return false;
        }
        i = i + 1;
        proof {
            assert(a@.take(i as int) =~= a@.take(i - 1) + seq![a@[i - 1]]);
            assert(b@.take(i as int) =~= b@.take(i - 1) + seq![b@[i - 1]]);
        }
    }
    proof {
        assert(a@.take(a_len as int) =~= a@);
        assert(b@.take(a_len as int) =~= b@);
    }
    true
}

/// Replaces every non-overlapping occurrence of `pat` in `s` by `rep`,
/// scanning from the left, as `str::replace` does. An empty pattern
/// leaves the text unchanged.
pub open spec fn replace_seq(s: Seq<char>, pat: Seq<char>, rep: Seq<char>) -> Seq<char>
    decreases s.len(),
{
    if pat.len() == 0 {
        s
    } else if s.len() >= pat.len() && s.take(pat.len() as int) == pat {
        rep + replace_seq(s.skip(pat.len() as int), pat, rep)
    } else if s.len() == 0 {
        Seq::empty()
    } else {
        seq![s[0]] + replace_seq(s.drop_first(), pat, rep)
    }
}

/// Whether `v[at..]` starts with `pat`.
pub(crate) fn vec_matches_at(v: &Vec<char>, at: usize, pat: &str, pat_len: usize) -> (r: bool)
    requires
        pat_len == pat@.len(),
        at + pat_len <= v@.len(),
    ensures
        r == (v@.subrange(at as int, at + pat_len) == pat@),
{
    let vlen = v.len();
    let mut j: usize = 0;
    while j < pat_len
        invariant
            pat_len == pat@.len(),
            vlen == v@.len(),
            at + pat_len <= vlen,
            j <= pat_len,
            v@.subrange(at as int, at + j) == pat@.take(j as int),
        decreases pat_len - j,
    {
        if v[at + j] != pat.get_char(j) {
            proof {
                assert(v@.subrange(at as int, at + pat_len)[j as int] == v@[at + j]);
            }
            return false;
        }
        j = j + 1;
        proof {
            assert(v@.subrange(at as int, at + j) =~= v@.subrange(at as int, at + j - 1) + seq![
                v@[at + j - 1],
            ]);
            assert(pat@.take(j as int) =~= pat@.take(j - 1) + seq![pat@[j - 1]]);
        }
    }
    proof {
        assert(pat@.take(pat_len as int) =~= pat@);
    }
    true
}

/// Literal replacement over a character vector.
pub fn replace_all(s: &Vec<char>, pat: &str, rep: &str) -> (r: Vec<char>)
    ensures
        r@ == replace_seq(s@, pat@, rep@),
{
    let n = s.len();
    let pat_len = pat.unicode_len();
    let mut out: Vec<char> = Vec::new();
    if pat_len == 0 {
        push_subrange(&mut out, s, 0, n);
        proof {
            assert(s@.subrange(0, n as int) =~= s@);
        }
        return out;
    }
    let mut i: usize = 0;
    proof {
        assert(s@.skip(0) =~= s@);
    }
    while i < n
        invariant
            n == s@.len(),
            pat_len == pat@.len(),
            1 <= pat_len,
            i <= n,
            replace_seq(s@, pat@, rep@) == out@ + replace_seq(s@.skip(i as int), pat@, rep@),
        decreases n - i,
    {
        let ghost suf = s@.skip(i as int);
        if pat_len <= n - i && vec_matches_at(s, i, pat, pat_len) {
            proof {
                assert(suf.take(pat@.len() as int) =~= s@.subrange(i as int, i + pat_len));
                assert(suf.skip(pat@.len() as int) =~= s@.skip(i + pat_len));
            }
            push_str_chars(&mut out, rep);
            i = i + pat_len;
        } else {
            proof {
                if pat_len <= n - i {
                    assert(suf.take(pat@.len() as int) =~= s@.subrange(i as int, i + pat_len));
                }
                assert(suf[0] == s@[i as int]);
                assert(suf.drop_first() =~= s@.skip(i + 1));
            }
            out.push(s[i]);
            i = i + 1;
        }
    }
    proof {
        assert(s@.skip(n as int) =~= Seq::<char>::empty());
    }
    out
}

/// The character for a single decimal digit.
pub open spec fn dec_digit(d: nat) -> char {
    if d == 0 {
        '0'
    } else if d == 1 {
        '1'
    } else if d == 2 {
        '2'
    } else if d == 3 {
        '3'
    } else if d == 4 {
        '4'
    } else if d == 5 {
        '5'
    } else if d == 6 {
        '6'
    } else if d == 7 {
        '7'
    } else if d == 8 {
        '8'
    } else {
        '9'
    }
}

/// The decimal rendering of a natural number, without sign or leading
/// zeros (except for zero itself).
pub open spec fn dec_of(n: nat) -> Seq<char>
    decreases n,
{
    if n < 10 {
        seq![dec_digit(n)]
    } else {
        dec_of(n / 10) + seq![dec_digit(n % 10)]
    }
}

fn dec_digit_exec(d: u64) -> (c: char)
    requires
        d < 10,
    ensures
        c == dec_digit(d as nat),
{
    match d {
        0 => '0',
        1 => '1',
        2 => '2',
        3 => '3',
        4 => '4',
        5 => '5',
        6 => '6',
        7 => '7',
        8 => '8',
        _ => '9',
    }
}

/// Renders `n` in decimal.
pub fn u64_to_string(n: u64) -> (r: String)
    ensures
        r@ == dec_of(n as nat),
{
    let mut digits: Vec<char> = Vec::new();
    let mut m = n;
    loop
        invariant_except_break
            m == 0 ==> n == 0 && digits@.len() == 0,
            m > 0 ==> dec_of(n as nat) == dec_of(m as nat) + digits@.reverse(),
        ensures
            dec_of(n as nat) == digits@.reverse(),
        decreases m,
    {
        let d = m % 10;
        let next = m / 10;
        proof {
            if m >= 10 {
                assert(dec_of(m as nat) == dec_of((m as nat) / 10) + seq![
                    dec_digit((m as nat) % 10),
                ]);
            }
            assert((digits@ + seq![dec_digit(d as nat)]).reverse() =~= seq![dec_digit(d as nat)]
                + digits@.reverse());
        }
        digits.push(dec_digit_exec(d));
        m = next;
        if m == 0 {
            break;
        }
    }
    let mut out: Vec<char> = Vec::new();
    let len = digits.len();
    let mut i: usize = 0;
    while i < len
        invariant
            len == digits@.len(),
            i <= len,
            out@ == digits@.reverse().take(i as int),
        decreases len - i,
    {
        out.push(digits[len - 1 - i]);
        i = i + 1;
        proof {
            assert(digits@.reverse().take(i as int) =~= digits@.reverse().take(i - 1) + seq![
                digits@.reverse()[i - 1],
            ]);
        }
    }
    proof {
        assert(digits@.reverse().take(len as int) =~= digits@.reverse());
    }
    chars_to_string(&out)
}

/// The result of `str::to_lowercase`, which depends on the input
/// characters alone.
pub uninterp spec fn lower_of(s: Seq<char>) -> Seq<char>;

/// Relies on str::to_lowercase: the result is a function of the input
/// characters alone, and an empty string stays empty.
#[verifier::external_body]
pub fn lowercase(s: &str) -> (r: String)
    ensures
        r@ == lower_of(s@),
        s@.len() == 0 ==> r@.len() == 0,
{
    s.to_lowercase()
}


/// `s` without its leading whitespace.
pub open spec fn trim_front(s: Seq<char>) -> Seq<char>
    decreases s.len(),
{
    if s.len() > 0 && is_space(s[0]) {
        trim_front(s.drop_first())
    } else {
        s
    }
}

/// `s` without its trailing whitespace.
pub open spec fn trim_back(s: Seq<char>) -> Seq<char>
    decreases s.len(),
{
    if s.len() > 0 && is_space(s.last()) {
        trim_back(s.drop_last())
    } else {
        s
    }
}

/// `s` without leading and trailing whitespace, as `str::trim` leaves
/// it.
pub open spec fn trim_spec(s: Seq<char>) -> Seq<char> {
    trim_back(trim_front(s))
}

proof fn lemma_trim_front_at(s: Seq<char>, a: int)
    requires
        0 <= a <= s.len(),
        forall|k: int| 0 <= k < a ==> is_space(s[k]),
        a == s.len() || !is_space(s[a]),
    ensures
        trim_front(s) == s.skip(a),
    decreases a,
{
    if a == 0 {
        assert(s.skip(0) =~= s);
    } else {
        let rest = s.drop_first();
        assert(forall|k: int| 0 <= k < a - 1 ==> is_space(rest[k]));
        lemma_trim_front_at(rest, a - 1);
        assert(rest.skip(a - 1) =~= s.skip(a));
    }
}

proof fn lemma_trim_back_at(s: Seq<char>, b: int)
    requires
        0 <= b <= s.len(),
        forall|k: int| s.len() - b <= k < s.len() ==> is_space(s[k]),
        b == s.len() || !is_space(s[s.len() - b - 1]),
    ensures
        trim_back(s) == s.take(s.len() - b),
    decreases b,
{
    if b == 0 {
        assert(s.take(s.len() as int) =~= s);
    } else {
        let front = s.drop_last();
        assert(forall|k: int| front.len() - (b - 1) <= k < front.len() ==> is_space(front[k]));
        lemma_trim_back_at(front, b - 1);
        assert(front.take(front.len() - (b - 1)) =~= s.take(s.len() - b));
    }
}

/// Drops leading and trailing whitespace.
pub fn trim_chars(v: &Vec<char>) -> (r: Vec<char>)
    ensures
        r@ == trim_spec(v@),
{
    let n = v.len();
    let mut a: usize = 0;
    while a < n && space_char(v[a])
        invariant
            a <= n,
            n == v@.len(),
            forall|k: int| 0 <= k < a ==> is_space(v@[k]),
        decreases n - a,
    {
        a = a + 1;
    }
    proof {
        lemma_trim_front_at(v@, a as int);
    }
    if a == n {
        proof {
            assert(v@.skip(n as int) =~= Seq::<char>::empty());
            assert(trim_back(Seq::<char>::empty()) =~= Seq::<char>::empty());
        }
        let r: Vec<char> = Vec::new();
        return r;
    }
    let ghost mid = v@.skip(a as int);
    let mut e: usize = n;
    while e > a + 1 && space_char(v[e - 1])
        invariant
            a < e <= n,
            n == v@.len(),
            forall|k: int| e <= k < n ==> is_space(v@[k]),
        decreases e,
    {
        e = e - 1;
    }
    // `v[a]` is not whitespace, so the backward scan stops before it.
    proof {
        assert(!is_space(v@[a as int]));
        let b = n - e;
        assert(forall|k: int| mid.len() - b <= k < mid.len() ==> is_space(mid[k]));
        if e > a {
            assert(mid[mid.len() - b - 1] == v@[e - 1]);
        }
        lemma_trim_back_at(mid, b as int);
        assert(mid.take(mid.len() - b) =~= v@.subrange(a as int, e as int));
    }
    let mut out: Vec<char> = Vec::new();
    push_subrange(&mut out, v, a, e);
    out
}


/// Every character of `s` is whitespace.
pub open spec fn all_spaces(s: Seq<char>) -> bool {
    forall|i: int| 0 <= i < s.len() ==> is_space(#[trigger] s[i])
}

/// Leading whitespace padding never changes the front trim.
pub proof fn lemma_trim_front_pad(pad: Seq<char>, s: Seq<char>)
    requires
        all_spaces(pad),
    ensures
        trim_front(pad + s) == trim_front(s),
    decreases pad.len(),
{
    if pad.len() == 0 {
        assert(pad + s =~= s);
    } else {
        assert((pad + s)[0] == pad[0]);
        assert((pad + s).drop_first() =~= pad.drop_first() + s);
        assert(all_spaces(pad.drop_first()));
        lemma_trim_front_pad(pad.drop_first(), s);
    }
}

/// Trailing whitespace padding never changes the back trim.
pub proof fn lemma_trim_back_pad(s: Seq<char>, pad: Seq<char>)
    requires
        all_spaces(pad),
    ensures
        trim_back(s + pad) == trim_back(s),
    decreases pad.len(),
{
    if pad.len() == 0 {
        assert(s + pad =~= s);
    } else {
        assert((s + pad).last() == pad.last());
        assert((s + pad).drop_last() =~= s + pad.drop_last());
        assert(all_spaces(pad.drop_last()));
        lemma_trim_back_pad(s, pad.drop_last());
    }
}

/// A string whose front trim is empty was all whitespace.
pub proof fn lemma_trim_front_empty(s: Seq<char>)
    requires
        trim_front(s).len() == 0,
    ensures
        all_spaces(s),
    decreases s.len(),
{
    if s.len() > 0 {
        assert(is_space(s[0]));
        lemma_trim_front_empty(s.drop_first());
        assert forall|i: int| 0 <= i < s.len() implies is_space(#[trigger] s[i]) by {
            if i > 0 {
                assert(s[i] == s.drop_first()[i - 1]);
            }
        }
    }
}

/// An all-whitespace string trims to nothing from the front.
pub proof fn lemma_trim_front_all_spaces(s: Seq<char>)
    requires
        all_spaces(s),
    ensures
        trim_front(s) == Seq::<char>::empty(),
    decreases s.len(),
{
    if s.len() > 0 {
        assert(all_spaces(s.drop_first()));
        lemma_trim_front_all_spaces(s.drop_first());
    } else {
        assert(s =~= Seq::<char>::empty());
    }
}

/// When something survives the front trim, appending text afterwards
/// just rides along.
pub proof fn lemma_trim_front_concat(q: Seq<char>, b: Seq<char>)
    requires
        trim_front(q).len() > 0,
    ensures
        trim_front(q + b) == trim_front(q) + b,
    decreases q.len(),
{
    if is_space(q[0]) {
        assert((q + b)[0] == q[0]);
        assert((q + b).drop_first() =~= q.drop_first() + b);
        lemma_trim_front_concat(q.drop_first(), b);
    } else {
        assert(trim_front(q) == q);
        assert((q + b)[0] == q[0]);
        assert(trim_front(q + b) == q + b);
    }
}

} // verus!
