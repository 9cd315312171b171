//! Byte strings.
//!
//! Everything the server reads off the wire or writes to it is a sequence of
//! octets, and so is every path it joins.  This module holds the small
//! vocabulary the rest of the crate uses to speak about such sequences:
//! searching, trimming, comparing and decimal numbers.

use vstd::prelude::*;
use vstd::slice::slice_subrange;

verus! {

/// `/`
pub const SLASH: u8 = 47;

/// `.`
pub const DOT: u8 = 46;

/// `,`
pub const COMMA: u8 = 44;

/// `;`
pub const SEMICOLON: u8 = 59;

/// `:`
pub const COLON: u8 = 58;

/// `-`
pub const DASH: u8 = 45;

/// `+`
pub const PLUS: u8 = 43;

/// `*`
pub const ASTERISK: u8 = 42;

/// `%`
pub const PERCENT: u8 = 37;

/// `"`
pub const QUOTE: u8 = 34;

/// `?`
pub const QUESTION_MARK: u8 = 63;

/// `=`
pub const EQUALS: u8 = 61;

/// `q`
pub const LOWER_Q: u8 = 113;

/// `W`
pub const UPPER_W: u8 = 87;

/// White space as `str::trim` sees it within ASCII: space, tab, line feed,
/// vertical tab, form feed, carriage return.
pub open spec fn is_space(b: u8) -> bool {
    b == 32 || (9 <= b && b <= 13)
}

/// A decimal digit.
pub open spec fn is_digit(b: u8) -> bool {
    48 <= b && b <= 57
}

/// The first index at or after `from` that holds `b`, or the length if
/// there is none.
pub open spec fn find_from(s: Seq<u8>, b: u8, from: int) -> int
    decreases s.len() - from,
{
    if from < 0 || from >= s.len() {
        s.len() as int
    } else if s[from] == b {
        from
    } else {
        find_from(s, b, from + 1)
    }
}

/// The first index at or after `from` that holds no white space.
pub open spec fn skip_spaces(s: Seq<u8>, from: int) -> int
    decreases s.len() - from,
{
    if from < 0 || from >= s.len() {
        s.len() as int
    } else if !is_space(s[from]) {
        from
    } else {
        skip_spaces(s, from + 1)
    }
}

/// The length of `s` once trailing white space is cut off.
pub open spec fn trimmed_len(s: Seq<u8>) -> int
    decreases s.len(),
{
    if s.len() == 0 {
        0
    } else if !is_space(s.last()) {
        s.len() as int
    } else {
        trimmed_len(s.drop_last())
    }
}

/// `s` without the white space it begins with.
pub open spec fn trim_start(s: Seq<u8>) -> Seq<u8> {
    s.subrange(skip_spaces(s, 0), s.len() as int)
}

/// `s` without the white space it ends with.
pub open spec fn trim_end(s: Seq<u8>) -> Seq<u8> {
    s.subrange(0, trimmed_len(s))
}

/// `s` without the white space around it.
pub open spec fn trim(s: Seq<u8>) -> Seq<u8> {
    trim_end(trim_start(s))
}

/// `n` in decimal, most significant digit first, without leading zeros.
pub open spec fn decimal(n: nat) -> Seq<u8>
    decreases n,
{
    if n < 10 {
        seq![(48 + n) as u8]
    } else {
        decimal(n / 10).push((48 + n % 10) as u8)
    }
}

/// The number that a run of digits stands for.
pub open spec fn digits_value(s: Seq<u8>) -> nat
    decreases s.len(),
{
    if s.len() == 0 {
        0
    } else {
        digits_value(s.drop_last()) * 10 + (s.last() - 48) as nat
    }
}

/// Whether every byte is a decimal digit.
pub open spec fn all_digits(s: Seq<u8>) -> bool {
    forall|i: int| 0 <= i < s.len() ==> is_digit(#[trigger] s[i])
}

/// What is found lies at or after `from`, holds `b` unless it is the end,
/// and nothing before it does.
pub proof fn lemma_find_from(s: Seq<u8>, b: u8, from: int)
    requires
        0 <= from <= s.len(),
    ensures
        from <= find_from(s, b, from) <= s.len(),
        find_from(s, b, from) < s.len() ==> s[find_from(s, b, from)] == b,
        forall|i: int| from <= i < find_from(s, b, from) ==> s[i] != b,
    decreases s.len() - from,
{
    if from < s.len() && s[from] != b {
        lemma_find_from(s, b, from + 1);
    }
}

/// A number in decimal stands for the number.
pub proof fn lemma_decimal_value(n: nat)
    ensures
        digits_value(decimal(n)) == n,
    decreases n,
{
    if n < 10 {
        assert(decimal(n).drop_last() =~= Seq::<u8>::empty());
        assert(digits_value(decimal(n).drop_last()) == 0);
    } else {
        lemma_decimal_value(n / 10);
        assert(decimal(n).drop_last() =~= decimal(n / 10));
    }
}

/// A number in decimal is a run of at least one digit.
pub proof fn lemma_decimal_digits(n: nat)
    ensures
        decimal(n).len() >= 1,
        forall|i: int| 0 <= i < decimal(n).len() ==> is_digit(#[trigger] decimal(n)[i]),
    decreases n,
{
    if n >= 10 {
        lemma_decimal_digits(n / 10);
    }
}

/// The pieces of `s` between the separators `sep`, in order.
pub open spec fn split(s: Seq<u8>, sep: u8) -> Seq<Seq<u8>>
    decreases s.len(),
{
    let end = find_from(s, sep, 0);
    if end < 0 || end >= s.len() {
        seq![s]
    } else {
        seq![s.subrange(0, end)] + split(s.subrange(end + 1, s.len() as int), sep)
    }
}

/// Searching a tail of `s` finds what searching `s` finds.
pub proof fn lemma_find_shift(s: Seq<u8>, b: u8, from: int, at: int)
    requires
        0 <= from <= at <= s.len(),
    ensures
        find_from(s.subrange(from, s.len() as int), b, at - from) + from == find_from(s, b, at),
    decreases s.len() - at,
{
    let t = s.subrange(from, s.len() as int);
    if at < s.len() {
        assert(t[at - from] == s[at]);
        if s[at] != b {
            lemma_find_shift(s, b, from, at + 1);
        }
    }
}

/// One step of splitting: what stands before the next separator is the
/// next piece.
pub proof fn lemma_split_push(done: Seq<Seq<u8>>, s: Seq<u8>, from: int, sep: u8)
    requires
        0 <= from <= s.len(),
    ensures
        ({
            let end = find_from(s, sep, from);
            let rest = s.subrange(from, s.len() as int);
            if end >= s.len() {
                done + split(rest, sep) == done.push(rest)
            } else {
                done + split(rest, sep) == done.push(s.subrange(from, end)) + split(
                    s.subrange(end + 1, s.len() as int),
                    sep,
                )
            }
        }),
{
    let end = find_from(s, sep, from);
    let rest = s.subrange(from, s.len() as int);
    lemma_find_shift(s, sep, from, from);
    lemma_find_from(s, sep, from);
    let e = find_from(rest, sep, 0);
    assert(e + from == end);
    if end >= s.len() {
        assert(done + seq![rest] =~= done.push(rest));
    } else {
        assert(rest.subrange(0, e) =~= s.subrange(from, end));
        assert(rest.subrange(e + 1, rest.len() as int) =~= s.subrange(end + 1, s.len() as int));
        assert(done + (seq![rest.subrange(0, e)] + split(
            rest.subrange(e + 1, rest.len() as int),
            sep,
        )) =~= done.push(s.subrange(from, end)) + split(s.subrange(end + 1, s.len() as int), sep));
    }
}

/// The pieces of `s` between the separators `sep`, in order.
pub fn split_bytes<'a>(s: &'a [u8], sep: u8) -> (r: Vec<&'a [u8]>)
    ensures
        r@.len() == split(s@, sep).len(),
        forall|i: int| 0 <= i < r@.len() ==> (#[trigger] r@[i])@ == split(s@, sep)[i],
{
    let mut out: Vec<&'a [u8]> = Vec::new();
    let mut from: usize = 0;
    let ghost mut done: Seq<Seq<u8>> = Seq::empty();
    proof {
        assert(s@.subrange(0, s@.len() as int) =~= s@);
        assert(done + split(s@, sep) =~= split(s@, sep));
    }
    loop
        invariant_except_break
            from <= s@.len(),
            out@.len() == done.len(),
            forall|i: int| 0 <= i < out@.len() ==> (#[trigger] out@[i])@ == done[i],
            split(s@, sep) == done + split(s@.subrange(from as int, s@.len() as int), sep),
        ensures
            out@.len() == split(s@, sep).len(),
            forall|i: int| 0 <= i < out@.len() ==> (#[trigger] out@[i])@ == split(s@, sep)[i],
        decreases s@.len() - from,
    {
        let end = find_byte(s, sep, from);
        let piece = slice_subrange(s, from, end);
        proof {
            lemma_split_push(done, s@, from as int, sep);
            done = done.push(piece@);
        }
        out.push(piece);
        if end >= s.len() {
            proof {
                assert(piece@ =~= s@.subrange(from as int, s@.len() as int));
            }
            break ;
        }
        from = end + 1;
    }
    out
}

/// Whether a byte is white space.
pub fn is_space_byte(b: u8) -> (r: bool)
    ensures
        r == is_space(b),
{
    b == 32 || (9 <= b && b <= 13)
}

/// Whether a byte is a decimal digit.
pub fn is_digit_byte(b: u8) -> (r: bool)
    ensures
        r == is_digit(b),
{
    48 <= b && b <= 57
}

/// Whether two byte strings hold the same octets.
pub fn bytes_eq(a: &[u8], b: &[u8]) -> (r: bool)
    ensures
        r == (a@ == b@),
{
    if a.len() != b.len() {
        return false;
    }
    let mut i: usize = 0;
    while i < a.len()
        invariant
            a@.len() == b@.len(),
            i <= a@.len(),
            forall|k: int| 0 <= k < i ==> a@[k] == b@[k],
        decreases a@.len() - i,
    {
        if a[i] != b[i] {
            return false;
        }
        i += 1;
    }
    assert(a@ =~= b@);
    true
}

/// Whether `s` begins with `prefix`.
pub fn starts_with(s: &[u8], prefix: &[u8]) -> (r: bool)
    ensures
        r == prefix@.is_prefix_of(s@),
{
    if prefix.len() > s.len() {
        return false;
    }
    bytes_eq(slice_subrange(s, 0, prefix.len()), prefix)
}

/// The first position at or after `from` that holds `b`.
pub fn find_byte(s: &[u8], b: u8, from: usize) -> (r: usize)
    requires
        from <= s@.len(),
    ensures
        r == find_from(s@, b, from as int),
        from <= r <= s@.len(),
{
    let mut i: usize = from;
    while i < s.len() && s[i] != b
        invariant
            from <= i <= s@.len(),
            find_from(s@, b, from as int) == find_from(s@, b, i as int),
        decreases s@.len() - i,
    {
        i += 1;
    }
    i
}

/// The first position at or after `from` that holds no white space.
pub fn skip_space_bytes(s: &[u8], from: usize) -> (r: usize)
    requires
        from <= s@.len(),
    ensures
        r == skip_spaces(s@, from as int),
        from <= r <= s@.len(),
{
    let mut i: usize = from;
    while i < s.len() && is_space_byte(s[i])
        invariant
            from <= i <= s@.len(),
            skip_spaces(s@, from as int) == skip_spaces(s@, i as int),
        decreases s@.len() - i,
    {
        i += 1;
    }
    i
}

/// `s` without the white space it begins with.
pub fn trim_start_bytes(s: &[u8]) -> (r: &[u8])
    ensures
        r@ == trim_start(s@),
{
    let i = skip_space_bytes(s, 0);
    slice_subrange(s, i, s.len())
}

/// `s` without the white space it ends with.
pub fn trim_end_bytes(s: &[u8]) -> (r: &[u8])
    ensures
        r@ == trim_end(s@),
{
    let mut n: usize = s.len();
    proof {
        assert(s@.subrange(0, n as int) =~= s@);
    }
    while n > 0 && is_space_byte(s[n - 1])
        invariant
            n <= s@.len(),
            trimmed_len(s@) == trimmed_len(s@.subrange(0, n as int)),
        decreases n,
    {
        proof {
            let t = s@.subrange(0, n as int);
            assert(t.drop_last() =~= s@.subrange(0, n - 1));
        }
        n -= 1;
    }
    proof {
        let t = s@.subrange(0, n as int);
        if n > 0 {
            assert(t.last() == s@[n - 1]);
        }
    }
    slice_subrange(s, 0, n)
}

/// `s` without the white space around it.
pub fn trim_bytes(s: &[u8]) -> (r: &[u8])
    ensures
        r@ == trim(s@),
{
    trim_end_bytes(trim_start_bytes(s))
}

/// Appends `src` to `dst`.
pub fn append(dst: &mut Vec<u8>, src: &[u8])
    ensures
        final(dst)@ == old(dst)@ + src@,
{
    let mut i: usize = 0;
    while i < src.len()
        invariant
            i <= src@.len(),
            dst@ == old(dst)@ + src@.subrange(0, i as int),
        decreases src@.len() - i,
    {
        dst.push(src[i]);
        i += 1;
        assert(dst@ =~= old(dst)@ + src@.subrange(0, i as int));
    }
    assert(src@.subrange(0, src@.len() as int) =~= src@);
}

/// A copy of `s`.
pub fn to_vec(s: &[u8]) -> (r: Vec<u8>)
    ensures
        r@ == s@,
{
    let mut r: Vec<u8> = Vec::new();
    append(&mut r, s);
    assert(Seq::<u8>::empty() + s@ =~= s@);
    r
}

/// The number that a text stands for, if it is a run of digits that stands
/// for no more than `max`.
pub open spec fn number(s: Seq<u8>, max: u64) -> Option<u64> {
    if s.len() > 0 && all_digits(s) && digits_value(s) <= max {
        Some(digits_value(s) as u64)
    } else {
        None
    }
}

/// A run of digits stands for no less than any run it begins with.
pub proof fn lemma_digits_value_grows(s: Seq<u8>, n: int)
    requires
        0 <= n <= s.len(),
        all_digits(s),
    ensures
        digits_value(s.subrange(0, n)) <= digits_value(s),
    decreases s.len() - n,
{
    if n < s.len() {
        let t = s.drop_last();
        assert(is_digit(s[s.len() - 1]));
        assert(t.subrange(0, n) =~= s.subrange(0, n));
        assert forall|i: int| 0 <= i < t.len() implies is_digit(#[trigger] t[i]) by {
            assert(t[i] == s[i]);
        }
        lemma_digits_value_grows(t, n);
    } else {
        assert(s.subrange(0, n) =~= s);
    }
}

/// Reads a number in decimal that is no more than `max`.
pub fn parse_number(s: &[u8], max: u64) -> (r: Option<u64>)
    ensures
        r == number(s@, max),
{
    if s.len() == 0 {
        return None;
    }
    let mut i: usize = 0;
    while i < s.len()
        invariant
            i <= s@.len(),
            forall|k: int| 0 <= k < i ==> is_digit(#[trigger] s@[k]),
        decreases s@.len() - i,
    {
        if !is_digit_byte(s[i]) {
            return None;
        }
        i += 1;
    }
    assert(all_digits(s@));
    let mut acc: u64 = 0;
    let mut j: usize = 0;
    proof {
        assert(s@.subrange(0, 0) =~= Seq::<u8>::empty());
    }
    while j < s.len()
        invariant
            j <= s@.len(),
            all_digits(s@),
            acc == digits_value(s@.subrange(0, j as int)),
            acc <= max,
        decreases s@.len() - j,
    {
        let d: u64 = (s[j] - 48) as u64;
        proof {
            let next = s@.subrange(0, j + 1);
            assert(next.drop_last() =~= s@.subrange(0, j as int));
            assert(next.last() == s@[j as int]);
            lemma_digits_value_grows(s@, j + 1);
        }
        if d > max || acc > (max - d) / 10 {
            return None;
        }
        acc = acc * 10 + d;
        j += 1;
    }
    proof {
        assert(s@.subrange(0, j as int) =~= s@);
    }
    Some(acc)
}

/// Appends `n` in decimal to `dst`.
pub fn append_decimal(dst: &mut Vec<u8>, n: u64)
    ensures
        final(dst)@ == old(dst)@ + decimal(n as nat),
    decreases n,
{
    if n < 10 {
        dst.push(48 + n as u8);
        assert(dst@ =~= old(dst)@ + decimal(n as nat));
    } else {
        append_decimal(dst, n / 10);
        dst.push(48 + (n % 10) as u8);
        assert(dst@ =~= old(dst)@ + decimal(n as nat));
    }
}

} // verus!
