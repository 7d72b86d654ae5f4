//! Character-sequence helpers shared by the rest of the library: conversion
//! between strings and character vectors, decimal rendering of integers,
//! UTF-8 byte lengths, and whitespace trimming.

use vstd::prelude::*;

verus! {

/// The characters of `s`, in order.
pub fn chars_of(s: &str) -> (v: Vec<char>)
    ensures
        v@ == s@,
{
    let mut v: Vec<char> = Vec::new();
    for c in it: s.chars()
        invariant
            v@ == it.seq().take(it.index() as int),
            it.seq() == s@,
    {
        v.push(c);
    }
    v
}

/// Collects characters into a `String` (std's `FromIterator<char>` for
/// `String`); the contract claims the string holds exactly these characters,
/// in order.
#[verifier::external_body]
pub(crate) fn string_of(v: &[char]) -> (s: String)
    ensures
        s@ == v@,
{
    v.iter().collect()
}

/// Appends the characters of `s` to `out`.
pub fn push_str(out: &mut Vec<char>, s: &str)
    ensures
        final(out)@ == old(out)@ + s@,
{
    let cs = chars_of(s);
    let mut i: usize = 0;
    while i < cs.len()
        invariant
            0 <= i <= cs@.len(),
            cs@ == s@,
            out@ == old(out)@ + s@.take(i as int),
        decreases cs@.len() - i,
    {
        out.push(cs[i]);
        i = i + 1;
        assert(s@.take(i as int) == s@.take(i - 1) + seq![s@[i - 1]]);
    }
    assert(s@.take(cs@.len() as int) == s@);
}

/// Appends the characters of `s` to `out`.
pub fn push_chars(out: &mut Vec<char>, s: &[char])
    ensures
        final(out)@ == old(out)@ + s@,
{
    let mut i: usize = 0;
    while i < s.len()
        invariant
            0 <= i <= s@.len(),
            out@ == old(out)@ + s@.take(i as int),
        decreases s@.len() - i,
    {
        out.push(s[i]);
        i = i + 1;
        assert(s@.take(i as int) == s@.take(i - 1) + seq![s@[i - 1]]);
    }
    assert(s@.take(s@.len() as int) == s@);
}

/// The ASCII digit for `d` (`d < 10`).
pub open spec fn digit_char(d: nat) -> char {
    (48 + d) as char
}

/// The decimal rendering of `n`, without sign or leading zeros.
pub open spec fn decimal(n: nat) -> Seq<char>
    decreases n,
{
    if n < 10 {
        seq![digit_char(n)]
    } else {
        decimal(n / 10).push(digit_char(n % 10))
    }
}

/// The decimal rendering of `n`, left-padded with `'0'` to at least `width`
/// characters (as `format!("{n:0width$}")` does).
pub open spec fn zero_padded(n: nat, width: nat) -> Seq<char> {
    let d = decimal(n);
    if d.len() < width {
        Seq::new((width - d.len()) as nat, |i: int| '0') + d
    } else {
        d
    }
}

fn digit(d: u64) -> (c: char)
    requires
        d < 10,
    ensures
        c == digit_char(d as nat),
{
    if d == 0 {
        '0'
    } else if d == 1 {
        '1'
    } else if d == 2 {
        '2'
    } else if d == 3 {
        '3'
    } else if d == 4 {
        '4'
    } else if d == 5 {
        '5'
    } else if d == 6 {
        '6'
    } else if d == 7 {
        '7'
    } else if d == 8 {
        '8'
    } else {
        '9'
    }
}

/// Appends the decimal rendering of `n` to `out`.
pub fn push_decimal(out: &mut Vec<char>, n: u64)
    ensures
        final(out)@ == old(out)@ + decimal(n as nat),
    decreases n,
{
    if n >= 10 {
        push_decimal(out, n / 10);
    }
    out.push(digit(n % 10));
    assert(n >= 10 ==> decimal(n as nat) == decimal((n / 10) as nat).push(digit_char((n % 10) as nat)));
}

/// The decimal rendering of `n`.
pub fn decimal_of(n: u64) -> (v: Vec<char>)
    ensures
        v@ == decimal(n as nat),
{
    let mut v: Vec<char> = Vec::new();
    push_decimal(&mut v, n);
    v
}

/// Appends `n` rendered in decimal and left-padded with zeros to `width`.
pub fn push_zero_padded(out: &mut Vec<char>, n: u64, width: usize)
    ensures
        final(out)@ == old(out)@ + zero_padded(n as nat, width as nat),
{
    let d = decimal_of(n);
    if d.len() < width {
        let pad = width - d.len();
        let mut i: usize = 0;
        while i < pad
            invariant
                0 <= i <= pad,
                out@ == old(out)@ + Seq::new(i as nat, |k: int| '0'),
            decreases pad - i,
        {
            out.push('0');
            i = i + 1;
            assert(out@ == old(out)@ + Seq::new(i as nat, |k: int| '0'));
        }
    }
    let ghost before = out@;
    push_chars(out, d.as_slice());
    assert(out@ == old(out)@ + zero_padded(n as nat, width as nat));
}

/// The number of bytes that `c` takes in UTF-8.
pub open spec fn utf8_width(c: char) -> nat {
    if (c as u32) < 0x80 {
        1
    } else if (c as u32) < 0x800 {
        2
    } else if (c as u32) < 0x10000 {
        3
    } else {
        4
    }
}

/// The number of bytes that `s` takes in UTF-8 (what `str::len` returns).
pub open spec fn utf8_len(s: Seq<char>) -> nat
    decreases s.len(),
{
    if s.len() == 0 {
        0
    } else {
        utf8_width(s[0]) + utf8_len(s.drop_first())
    }
}

/// The UTF-8 length of a concatenation is the sum of the lengths.
pub proof fn lemma_utf8_len_concat(a: Seq<char>, b: Seq<char>)
    ensures
        utf8_len(a + b) == utf8_len(a) + utf8_len(b),
    decreases a.len(),
{
    if a.len() > 0 {
        assert((a + b).drop_first() == a.drop_first() + b);
        assert((a + b)[0] == a[0]);
        lemma_utf8_len_concat(a.drop_first(), b);
    } else {
        assert(a + b == b);
    }
}

/// `utf8_len` counts the bytes of vstd's UTF-8 encoding.
pub proof fn lemma_utf8_len_encoding(s: Seq<char>)
    ensures
        vstd::utf8::encode_utf8(s).len() == utf8_len(s),
    decreases s.len(),
{
    if s.len() > 0 {
        let c = s[0];
        vstd::utf8::char_is_scalar(c);
        lemma_utf8_len_encoding(s.drop_first());
    }
}

/// The number of bytes `c` takes in UTF-8.
pub fn char_utf8_width(c: char) -> (w: usize)
    ensures
        w == utf8_width(c),
{
    let u = c as u32;
    if u < 0x80 {
        1
    } else if u < 0x800 {
        2
    } else if u < 0x10000 {
        3
    } else {
        4
    }
}

/// Tests whether the UTF-8 encoding of `s` is longer than `n` bytes.
pub fn utf8_longer_than(s: &[char], n: usize) -> (b: bool)
    ensures
        b == (utf8_len(s@) > n),
{
    let mut i: usize = 0;
    let mut total: usize = 0;
    assert(s@.take(0) == Seq::<char>::empty());
    while i < s.len()
        invariant
            0 <= i <= s@.len(),
            total == utf8_len(s@.take(i as int)),
            total <= n,
        decreases s@.len() - i,
    {
        let w = char_utf8_width(s[i]);
        proof {
            assert(s@.take(i + 1) == s@.take(i as int) + seq![s@[i as int]]);
            lemma_utf8_len_concat(s@.take(i as int), seq![s@[i as int]]);
            assert(seq![s@[i as int]].drop_first() == Seq::<char>::empty());
            assert(utf8_len(Seq::<char>::empty()) == 0);
            assert(utf8_len(seq![s@[i as int]]) == w);
        }
        if w > n - total {
            proof {
                assert(s@ == s@.take(i + 1) + s@.skip(i + 1));
                lemma_utf8_len_concat(s@.take(i + 1), s@.skip(i + 1));
            }
            return true;
        }
        total = total + w;
        i = i + 1;
    }
    assert(s@.take(i as int) == s@);
    false
}

/// The longest prefix of `s` whose UTF-8 encoding fits in `n` bytes.
pub open spec fn prefix_within(s: Seq<char>, n: int) -> Seq<char>
    decreases s.len(),
{
    if s.len() == 0 || utf8_width(s[0]) > n {
        Seq::empty()
    } else {
        seq![s[0]] + prefix_within(s.drop_first(), n - utf8_width(s[0]))
    }
}

/// The longest prefix of `s` whose UTF-8 encoding fits in `n` bytes.
pub fn prefix_within_bytes(s: &[char], n: usize) -> (v: Vec<char>)
    ensures
        v@ == prefix_within(s@, n as int),
{
    let mut v: Vec<char> = Vec::new();
    let mut i: usize = 0;
    let mut room: usize = n;
    assert(s@.skip(0) == s@);
    while i < s.len() && char_utf8_width(s[i]) <= room
        invariant
            0 <= i <= s@.len(),
            room <= n,
            v@ + prefix_within(s@.skip(i as int), room as int) == prefix_within(s@, n as int),
        decreases s@.len() - i,
    {
        let w = char_utf8_width(s[i]);
        proof {
            let t = s@.skip(i as int);
            assert(t[0] == s@[i as int]);
            assert(t.drop_first() == s@.skip(i + 1));
            assert(v@.push(s@[i as int]) + prefix_within(s@.skip(i + 1), room - w) == v@ + (seq![
                s@[i as int],
            ] + prefix_within(s@.skip(i + 1), room - w)));
        }
        v.push(s[i]);
        room = room - w;
        i = i + 1;
    }
    proof {
        let t = s@.skip(i as int);
        if i < s@.len() {
            assert(t[0] == s@[i as int]);
        }
        assert(prefix_within(t, room as int) == Seq::<char>::empty());
        assert(v@ + Seq::<char>::empty() == v@);
    }
    v
}

/// Whether `c` has the Unicode `White_Space` property (what
/// `char::is_whitespace` tests).
pub open spec fn is_white_space(c: char) -> bool {
    let u = c as u32;
    ||| u == 0x20
    ||| 0x09 <= u <= 0x0D
    ||| u == 0x85
    ||| u == 0xA0
    ||| u == 0x1680
    ||| 0x2000 <= u <= 0x200A
    ||| u == 0x2028
    ||| u == 0x2029
    ||| u == 0x202F
    ||| u == 0x205F
    ||| u == 0x3000
}

/// Tests whether `c` has the Unicode `White_Space` property.
pub fn white_space(c: char) -> (b: bool)
    ensures
        b == is_white_space(c),
{
    let u = c as u32;
    u == 0x20 || (0x09 <= u && u <= 0x0D) || u == 0x85 || u == 0xA0 || u == 0x1680 || (0x2000
        <= u && u <= 0x200A) || u == 0x2028 || u == 0x2029 || u == 0x202F || u == 0x205F || u
        == 0x3000
}

/// `s` without its leading white space.
pub open spec fn trim_start(s: Seq<char>) -> Seq<char>
    decreases s.len(),
{
    if s.len() > 0 && is_white_space(s[0]) {
        trim_start(s.drop_first())
    } else {
        s
    }
}

/// `s` without its trailing white space.
pub open spec fn trim_end(s: Seq<char>) -> Seq<char>
    decreases s.len(),
{
    if s.len() > 0 && is_white_space(s.last()) {
        trim_end(s.drop_last())
    } else {
        s
    }
}

/// `s` without leading and trailing white space (what `str::trim` returns).
pub open spec fn trim(s: Seq<char>) -> Seq<char> {
    trim_end(trim_start(s))
}

/// The characters of `s` from `lo` (inclusive) to `hi` (exclusive).
pub fn slice_chars(s: &[char], lo: usize, hi: usize) -> (v: Vec<char>)
    requires
        lo <= hi <= s@.len(),
    ensures
        v@ == s@.subrange(lo as int, hi as int),
{
    let mut v: Vec<char> = Vec::new();
    let mut i = lo;
    while i < hi
        invariant
            lo <= i <= hi <= s@.len(),
            v@ == s@.subrange(lo as int, i as int),
        decreases hi - i,
    {
        v.push(s[i]);
        i = i + 1;
        assert(v@ == s@.subrange(lo as int, i as int));
    }
    v
}

/// `s` without leading and trailing white space.
pub fn trim_chars(s: &[char]) -> (v: Vec<char>)
    ensures
        v@ == trim(s@),
{
    let mut lo: usize = 0;
    assert(s@.skip(0) == s@);
    while lo < s.len() && white_space(s[lo])
        invariant
            0 <= lo <= s@.len(),
            trim_start(s@) == trim_start(s@.skip(lo as int)),
        decreases s@.len() - lo,
    {
        assert(s@.skip(lo as int).drop_first() == s@.skip(lo + 1));
        lo = lo + 1;
    }
    assert(trim_start(s@) == s@.skip(lo as int));
    let mut hi: usize = s.len();
    while hi > lo && white_space(s[hi - 1])
        invariant
            lo <= hi <= s@.len(),
            trim(s@) == trim_end(s@.subrange(lo as int, hi as int)),
        decreases hi,
    {
        assert(s@.subrange(lo as int, hi as int).drop_last() == s@.subrange(lo as int, hi - 1));
        hi = hi - 1;
    }
    assert(s@.skip(lo as int) == s@.subrange(lo as int, s@.len() as int));
    slice_chars(s, lo, hi)
}

} // verus!

verus! {

/// Whether two strings hold the same characters.
pub fn str_eq(a: &str, b: &str) -> (r: bool)
    ensures
        r == (a@ == b@),
{
    let x = chars_of(a);
    let y = chars_of(b);
    chars_eq(x.as_slice(), y.as_slice())
}

/// Whether two character slices are equal.
pub fn chars_eq(x: &[char], y: &[char]) -> (r: bool)
    ensures
        r == (x@ == y@),
{
    if x.len() != y.len() {
        return false;
    }
    let mut i: usize = 0;
    while i < x.len()
        invariant
            0 <= i <= x@.len(),
            x@.len() == y@.len(),
            forall|k: int| 0 <= k < i ==> x@[k] == y@[k],
        decreases x@.len() - i,
    {
        if x[i] != y[i] {
            return false;
        }
        i = i + 1;
    }
    assert(x@ =~= y@);
    true
}

} // verus!

verus! {

/// `s` with every occurrence of `pat` replaced by `rep`, matching from the
/// left and never overlapping (what `str::replace` returns, for a non-empty
/// pattern).
pub open spec fn replace_all(s: Seq<char>, pat: Seq<char>, rep: Seq<char>) -> Seq<char>
    decreases s.len(),
{
    if pat.len() == 0 || s.len() < pat.len() {
        s
    } else if s.take(pat.len() as int) == pat {
        rep + replace_all(s.skip(pat.len() as int), pat, rep)
    } else {
        seq![s[0]] + replace_all(s.drop_first(), pat, rep)
    }
}

/// Whether `pat` occurs in `s` at position `i`.
fn matches_at(s: &[char], i: usize, pat: &[char]) -> (b: bool)
    requires
        i <= s@.len(),
    ensures
        b == (i + pat@.len() <= s@.len() && s@.subrange(i as int, i + pat@.len()) == pat@),
{
    let n = s.len();
    if pat.len() > n - i {
        return false;
    }
    let mut k: usize = 0;
    while k < pat.len()
        invariant
            n == s@.len(),
            0 <= k <= pat@.len(),
            i + pat@.len() <= s@.len(),
            forall|m: int| 0 <= m < k ==> s@[i + m] == pat@[m],
        decreases pat@.len() - k,
    {
        if s[i + k] != pat[k] {
            assert(s@.subrange(i as int, i + pat@.len())[k as int] != pat@[k as int]);
            return false;
        }
        k = k + 1;
    }
    assert(s@.subrange(i as int, i + pat@.len()) =~= pat@);
    true
}

/// Whether `pat` occurs somewhere in `s` (what `str::contains` tests).
pub open spec fn has_substring(s: Seq<char>, pat: Seq<char>) -> bool {
    exists|i: int| 0 <= i && i + pat.len() <= s.len() && #[trigger] s.subrange(i, i + pat.len()) == pat
}

/// Tests whether `pat` occurs somewhere in `s`.
pub fn contains_chars(s: &[char], pat: &[char]) -> (b: bool)
    ensures
        b == has_substring(s@, pat@),
{
    let mut i: usize = 0;
    while i < s.len()
        invariant
            0 <= i <= s@.len(),
            forall|j: int| 0 <= j < i && j + pat@.len() <= s@.len() ==> #[trigger] s@.subrange(j, j + pat@.len()) != pat@,
        decreases s@.len() - i,
    {
        if matches_at(s, i, pat) {
            return true;
        }
        i = i + 1;
    }
    matches_at(s, i, pat)
}

/// `s` with every occurrence of the non-empty `pat` replaced by `rep`.
pub fn replace_chars(s: &[char], pat: &[char], rep: &[char]) -> (r: Vec<char>)
    requires
        pat@.len() > 0,
    ensures
        r@ == replace_all(s@, pat@, rep@),
{
    let mut out: Vec<char> = Vec::new();
    let mut i: usize = 0;
    assert(s@.skip(0) == s@);
    while i < s.len()
        invariant
            0 <= i <= s@.len(),
            pat@.len() > 0,
            replace_all(s@, pat@, rep@) == out@ + replace_all(s@.skip(i as int), pat@, rep@),
        decreases s@.len() - i,
    {
        let ghost rest = s@.skip(i as int);
        if matches_at(s, i, pat) {
            assert(rest.take(pat@.len() as int) == s@.subrange(i as int, i + pat@.len()));
            assert(rest.skip(pat@.len() as int) == s@.skip(i + pat@.len()));
            push_chars(&mut out, rep);
            i = i + pat.len();
        } else {
            proof {
                if rest.len() >= pat@.len() {
                    assert(rest.take(pat@.len() as int) == s@.subrange(i as int, i + pat@.len()));
                }
                assert(rest.drop_first() == s@.skip(i + 1));
            }
            out.push(s[i]);
            i = i + 1;
        }
        assert(replace_all(s@, pat@, rep@) =~= out@ + replace_all(s@.skip(i as int), pat@, rep@));
    }
    assert(s@.skip(i as int).len() == 0);
    assert(out@ + replace_all(s@.skip(i as int), pat@, rep@) =~= out@);
    out
}

/// The part of `s` before its first `sep` and the part after it, if `s`
/// holds `sep`.
pub open spec fn split_once(s: Seq<char>, sep: char) -> Option<(Seq<char>, Seq<char>)> {
    if exists|k: int| 0 <= k < s.len() && s[k] == sep {
        let k = choose|k: int|
            0 <= k < s.len() && s[k] == sep && forall|j: int| 0 <= j < k ==> s[j] != sep;
        Some((s.take(k), s.skip(k + 1)))
    } else {
        None
    }
}

/// The position of the first `sep` in `s`, if any.
pub fn find_char(s: &[char], sep: char) -> (k: Option<usize>)
    ensures
        match k {
            Some(k) => {
                &&& k < s@.len()
                &&& s@[k as int] == sep
                &&& forall|j: int| 0 <= j < k ==> s@[j] != sep
                &&& split_once(s@, sep) == Some((s@.take(k as int), s@.skip(k + 1)))
            },
            None => split_once(s@, sep) is None,
        },
{
    let mut i: usize = 0;
    while i < s.len()
        invariant
            0 <= i <= s@.len(),
            forall|j: int| 0 <= j < i ==> s@[j] != sep,
        decreases s@.len() - i,
    {
        if s[i] == sep {
            proof {
                let kk = choose|k: int|
                    0 <= k < s@.len() && s@[k] == sep && forall|j: int| 0 <= j < k ==> s@[j] != sep;
                if kk < i {
                    assert(s@[kk] != sep);
                }
                if kk > i {
                    assert(s@[i as int] != sep);
                }
            }
            return Some(i);
        }
        i = i + 1;
    }
    None
}

} // verus!
