//! Content codings: reading `Accept-Encoding` and choosing among `br`,
//! `gzip`, `deflate` and `identity`.

use std::cmp::Ordering;
use vstd::prelude::*;
use vstd::slice::slice_subrange;
use vstd::string::*;
use crate::text::{
    all_digits, bytes_eq, digits_value, find_byte, find_from, is_digit, is_digit_byte,
    lemma_find_from, split, split_bytes, trim, trim_bytes, trim_end, trim_end_bytes,
    trim_start, trim_start_bytes, COMMA, DOT, EQUALS, LOWER_Q, SEMICOLON,
};

verus! {

/// The name of no coding at all.
pub const IDENTITY: &'static str = "identity";

/// The name of the zlib coding.
pub const DEFLATE: &'static str = "deflate";

/// The name of the gzip coding.
pub const GZIP: &'static str = "gzip";

/// The name of the Brotli coding.
pub const BR: &'static str = "br";

/// One entry of `Accept-Encoding`: the coding's name, and its weight from 0
/// to 1000.
#[derive(Debug, Clone, Copy, PartialEq, Eq)]
pub struct QualityValue<'a>(pub &'a [u8], pub u32);

/// The codings the server knows, least preferred first.  Between two
/// entries of one weight the later coding wins.
#[derive(Debug, Clone, Copy, PartialEq, Eq, PartialOrd, Ord, Structural)]
pub enum Encoding {
    Identity,
    Deflate,
    Gzip,
    Brotli,
}

/// The coding that a name stands for.  Names are matched to the letter;
/// a name that is none of `deflate`, `gzip` and `br` stands for no coding at
/// all.
pub open spec fn encoding_of(name: Seq<u8>) -> Encoding {
    if name == DEFLATE.spec_bytes() {
        Encoding::Deflate
    } else if name == GZIP.spec_bytes() {
        Encoding::Gzip
    } else if name == BR.spec_bytes() {
        Encoding::Brotli
    } else {
        Encoding::Identity
    }
}

impl Encoding {
    /// The place of the coding in the order of preference.
    pub open spec fn rank(self) -> int {
        match self {
            Encoding::Identity => 0,
            Encoding::Deflate => 1,
            Encoding::Gzip => 2,
            Encoding::Brotli => 3,
        }
    }

    /// The name of the coding in header fields.
    pub open spec fn name(self) -> &'static str {
        match self {
            Encoding::Identity => IDENTITY,
            Encoding::Deflate => DEFLATE,
            Encoding::Gzip => GZIP,
            Encoding::Brotli => BR,
        }
    }

    /// The coding that a name stands for.
    pub fn from(name: &[u8]) -> (r: Encoding)
        ensures
            r == encoding_of(name@),
    {
        if bytes_eq(name, DEFLATE.as_bytes()) {
            Encoding::Deflate
        } else if bytes_eq(name, GZIP.as_bytes()) {
            Encoding::Gzip
        } else if bytes_eq(name, BR.as_bytes()) {
            Encoding::Brotli
        } else {
            Encoding::Identity
        }
    }

    /// The place of the coding in the order of preference.
    pub fn position(self) -> (r: u8)
        ensures
            r == self.rank(),
    {
        match self {
            Encoding::Identity => 0,
            Encoding::Deflate => 1,
            Encoding::Gzip => 2,
            Encoding::Brotli => 3,
        }
    }

    /// The name of the coding in header fields.
    pub fn as_str(self) -> (r: &'static str)
        ensures
            r == self.name(),
    {
        match self {
            Encoding::Identity => IDENTITY,
            Encoding::Deflate => DEFLATE,
            Encoding::Gzip => GZIP,
            Encoding::Brotli => BR,
        }
    }
}

/// The name of a coding as a constant: the name itself for `deflate`,
/// `gzip` and `br`, and `identity` for every other text.
pub fn encoding_to_static_str(encoding: &[u8]) -> (r: &'static str)
    ensures
        r == encoding_of(encoding@).name(),
{
    Encoding::from(encoding).as_str()
}

/// The key by which entries compete: weight first, then the coding's rank.
pub open spec fn precedes(a: (u32, Encoding), b: (u32, Encoding)) -> bool {
    a.0 < b.0 || (a.0 == b.0 && a.1.rank() < b.1.rank())
}

/// How two keys stand to each other.
pub open spec fn order_of(a: (u32, Encoding), b: (u32, Encoding)) -> Ordering {
    if precedes(a, b) {
        Ordering::Less
    } else if precedes(b, a) {
        Ordering::Greater
    } else {
        Ordering::Equal
    }
}

/// Orders two entries by weight, and entries of one weight by the rank of
/// their coding.
pub fn sort_encoding(a: &QualityValue, b: &QualityValue) -> (r: Ordering)
    ensures
        r == order_of((a.1, encoding_of(a.0@)), (b.1, encoding_of(b.0@))),
{
    let ra = Encoding::from(a.0).position();
    let rb = Encoding::from(b.0).position();
    if a.1 < b.1 {
        Ordering::Less
    } else if a.1 > b.1 {
        Ordering::Greater
    } else if ra < rb {
        Ordering::Less
    } else if ra > rb {
        Ordering::Greater
    } else {
        Ordering::Equal
    }
}

/// The digit at place `i` of a fraction, zero past its end.
pub open spec fn fraction_digit(f: Seq<u8>, i: int) -> nat {
    if 0 <= i < f.len() {
        (f[i] - 48) as nat
    } else {
        0
    }
}

/// A fraction in thousandths; digits past the third are dropped.
pub open spec fn thousandths(f: Seq<u8>) -> nat {
    fraction_digit(f, 0) * 100 + fraction_digit(f, 1) * 10 + fraction_digit(f, 2)
}

/// The number that a decimal text stands for, in thousandths.  A decimal
/// text is a run of digits, a dot, and a run of digits; either run may be
/// empty but not both, and the dot may be left out with the second run.
pub open spec fn decimal_thousandths(t: Seq<u8>) -> Option<nat> {
    let dot = find_from(t, DOT, 0);
    let whole = t.subrange(0, dot);
    let fraction = if dot < t.len() {
        t.subrange(dot + 1, t.len() as int)
    } else {
        Seq::<u8>::empty()
    };
    if all_digits(whole) && all_digits(fraction) && whole.len() + fraction.len() > 0 {
        Some(digits_value(whole) * 1000 + thousandths(fraction))
    } else {
        None
    }
}

/// `t` without the `q=` it begins with, however often it is repeated.
pub open spec fn strip_q(t: Seq<u8>) -> Seq<u8>
    decreases t.len(),
{
    if t.len() >= 2 && t[0] == LOWER_Q && t[1] == EQUALS {
        strip_q(t.subrange(2, t.len() as int))
    } else {
        t
    }
}

/// The weight that a parameter stands for: leading white space and `q=`
/// set aside, a decimal number from 0 to 1 gives its thousandths, and
/// everything else gives 0.
pub open spec fn weight_of(parameter: Seq<u8>) -> u32 {
    match decimal_thousandths(strip_q(trim_start(parameter))) {
        Some(v) => if v <= 1000 {
            v as u32
        } else {
            0
        },
        None => 0,
    }
}

/// The entry that a piece of `Accept-Encoding` stands for.
///
/// White space around the piece does not count.  An empty piece stands for
/// nothing.  Otherwise the name is what comes before the first semicolon,
/// without trailing white space, and the weight is read from what stands
/// between the first semicolon and the second; where nothing follows the
/// first semicolon, or there is none, the weight is 1000.
pub open spec fn qvalue(q: Seq<u8>) -> Option<(Seq<u8>, u32)> {
    let s = trim(q);
    let semi = find_from(s, SEMICOLON, 0);
    if s.len() == 0 {
        None
    } else if semi + 1 >= s.len() {
        Some((trim_end(s.subrange(0, semi)), 1000u32))
    } else {
        Some(
            (
                trim_end(s.subrange(0, semi)),
                weight_of(s.subrange(semi + 1, find_from(s, SEMICOLON, semi + 1))),
            ),
        )
    }
}

/// Reads the weight out of a parameter.
fn parse_weight(parameter: &[u8]) -> (r: u32)
    ensures
        r == weight_of(parameter@),
{
    let t = trim_start_bytes(parameter);
    let mut j: usize = 0;
    proof {
        assert(t@.subrange(0, t@.len() as int) =~= t@);
    }
    while t.len() >= 2 && j <= t.len() - 2 && t[j] == LOWER_Q && t[j + 1] == EQUALS
        invariant
            j <= t@.len(),
            strip_q(t@) == strip_q(t@.subrange(j as int, t@.len() as int)),
        decreases t@.len() - j,
    {
        proof {
            let u = t@.subrange(j as int, t@.len() as int);
            assert(u.subrange(2, u.len() as int) =~= t@.subrange(j + 2, t@.len() as int));
        }
        j += 2;
    }
    let u = slice_subrange(t, j, t.len());
    let dot = find_byte(u, DOT, 0);
    proof {
        lemma_find_from(u@, DOT, 0);
        assert(strip_q(u@) == u@);
        assert(strip_q(trim_start(parameter@)) == u@);
    }
    let ghost whole = u@.subrange(0, dot as int);
    let ghost fraction = if dot < u@.len() {
        u@.subrange(dot + 1, u@.len() as int)
    } else {
        Seq::<u8>::empty()
    };
    // The whole part, counted no further than 2: anything from 2 on is
    // more than the weight may be.
    let mut capped: u32 = 0;
    let mut i: usize = 0;
    while i < dot
        invariant
            i <= dot <= u@.len(),
            dot == find_from(u@, DOT, 0),
            strip_q(trim_start(parameter@)) == u@,
            whole == u@.subrange(0, dot as int),
            all_digits(whole.subrange(0, i as int)),
            capped <= 2,
            capped < 2 ==> capped == digits_value(whole.subrange(0, i as int)),
            capped == 2 ==> digits_value(whole.subrange(0, i as int)) >= 2,
        decreases dot - i,
    {
        if !is_digit_byte(u[i]) {
            proof {
                assert(whole[i as int] == u@[i as int]);
                assert(!all_digits(whole));
            }
            return 0;
        }
        let d: u32 = (u[i] - 48) as u32;
        proof {
            let next = whole.subrange(0, i + 1);
            assert(next.drop_last() =~= whole.subrange(0, i as int));
            assert(next.last() == u@[i as int]);
            assert forall|k: int| 0 <= k < next.len() implies is_digit(#[trigger] next[k]) by {
                if k < i {
                    assert(next[k] == whole.subrange(0, i as int)[k]);
                }
            }
        }
        if capped == 0 {
            capped = if d >= 2 {
                2
            } else {
                d
            };
        } else {
            capped = 2;
        }
        i += 1;
    }
    proof {
        assert(whole.subrange(0, dot as int) =~= whole);
    }
    let mut first_three: u32 = 0;
    let mut k: usize = if dot < u.len() {
        dot + 1
    } else {
        u.len()
    };
    let start = k;
    while k < u.len()
        invariant
            start <= k <= u@.len(),
            dot == find_from(u@, DOT, 0),
            strip_q(trim_start(parameter@)) == u@,
            start == (if dot < u@.len() {
                dot + 1
            } else {
                u@.len() as int
            }),
            fraction == u@.subrange(start as int, u@.len() as int),
            forall|m: int| 0 <= m < k - start ==> is_digit(#[trigger] fraction[m]),
            first_three <= 999,
            first_three == (if k - start >= 3 {
                thousandths(fraction)
            } else if k - start == 2 {
                fraction_digit(fraction, 0) * 10 + fraction_digit(fraction, 1)
            } else if k - start == 1 {
                fraction_digit(fraction, 0)
            } else {
                0
            }),
        decreases u@.len() - k,
    {
        if !is_digit_byte(u[k]) {
            proof {
                assert(fraction[k - start] == u@[k as int]);
                assert(!all_digits(fraction));
            }
            return 0;
        }
        proof {
            assert(fraction[k - start] == u@[k as int]);
        }
        if k - start < 3 {
            first_three = first_three * 10 + (u[k] - 48) as u32;
        }
        k += 1;
    }
    proof {
        if dot >= u@.len() {
            assert(fraction =~= Seq::<u8>::empty());
        }
        assert(all_digits(fraction));
        assert(all_digits(whole));
    }
    if dot + (u.len() - start) == 0 {
        return 0;
    }
    let scaled: u32 = if u.len() - start >= 3 {
        first_three
    } else if u.len() - start == 2 {
        first_three * 10
    } else if u.len() - start == 1 {
        first_three * 100
    } else {
        0
    };
    assert(scaled == thousandths(fraction));
    if capped >= 2 {
        0
    } else if capped == 1 {
        if scaled == 0 {
            1000
        } else {
            0
        }
    } else {
        scaled
    }
}

/// Reads one entry of `Accept-Encoding`.
///
/// A weight is a decimal number from 0 to 1, counted in thousandths.  An
/// entry without a weight has 1000; one whose weight cannot be read, or is
/// more than 1, has 0, which means the coding is not acceptable.
pub fn parse_qvalue<'a>(q: &'a [u8]) -> (r: Option<QualityValue<'a>>)
    ensures
        match r {
            Some(v) => qvalue(q@) == Some((v.0@, v.1)),
            None => qvalue(q@) is None,
        },
{
    let s = trim_bytes(q);
    if s.len() == 0 {
        return None;
    }
    let semi = find_byte(s, SEMICOLON, 0);
    let name = trim_end_bytes(slice_subrange(s, 0, semi));
    if semi >= s.len() || semi + 1 >= s.len() {
        return Some(QualityValue(name, 1000));
    }
    let end = find_byte(s, SEMICOLON, semi + 1);
    let weight = parse_weight(slice_subrange(s, semi + 1, end));
    Some(QualityValue(name, weight))
}

/// What a piece of `Accept-Encoding` puts forward: its weight and coding,
/// provided it is an entry and its weight is not 0.
pub open spec fn candidate(piece: Seq<u8>) -> Option<(u32, Encoding)> {
    match qvalue(piece) {
        Some((name, weight)) => if weight > 0 {
            Some((weight, encoding_of(name)))
        } else {
            None
        },
        None => None,
    }
}

/// The better of the best so far and one more candidate.
pub open spec fn pick(best: Option<(u32, Encoding)>, next: Option<(u32, Encoding)>) -> Option<
    (u32, Encoding),
> {
    match (best, next) {
        (Some(b), Some(n)) => if precedes(b, n) {
            next
        } else {
            best
        },
        (None, _) => next,
        (_, None) => best,
    }
}

/// The best of what the pieces put forward.
pub open spec fn best(pieces: Seq<Seq<u8>>) -> Option<(u32, Encoding)>
    decreases pieces.len(),
{
    if pieces.len() == 0 {
        None
    } else {
        pick(best(pieces.drop_last()), candidate(pieces.last()))
    }
}

/// Text as a header field may hold it: visible ASCII, space and tab.
pub open spec fn is_header_text(s: Seq<u8>) -> bool {
    forall|i: int| 0 <= i < s.len() ==> (#[trigger] s[i] == 9 || (32 <= s[i] && s[i] < 127))
}

/// The coding that `Accept-Encoding` asks for: among the entries between
/// its commas whose weight is not 0, the one of the greatest weight, and
/// among those of the greatest weight the one of the highest rank.  Where
/// there is no such entry, or the field is no text, it is `identity`.
pub open spec fn preferred(accept_encoding: Seq<u8>) -> Encoding {
    if is_header_text(accept_encoding) {
        match best(split(accept_encoding, COMMA)) {
            Some((_, encoding)) => encoding,
            None => Encoding::Identity,
        }
    } else {
        Encoding::Identity
    }
}

/// Whether a header field value is text.
pub fn is_text(s: &[u8]) -> (r: bool)
    ensures
        r == is_header_text(s@),
{
    let mut i: usize = 0;
    while i < s.len()
        invariant
            i <= s@.len(),
            forall|k: int| 0 <= k < i ==> (#[trigger] s@[k] == 9 || (32 <= s@[k] && s@[k] < 127)),
        decreases s@.len() - i,
    {
        if !(s[i] == 9 || (32 <= s[i] && s[i] < 127)) {
            return false;
        }
        i += 1;
    }
    true
}

/// The coding that an `Accept-Encoding` field asks for.
pub fn negotiate(accept_encoding: &[u8]) -> (r: Encoding)
    ensures
        r == preferred(accept_encoding@),
{
    if !is_text(accept_encoding) {
        return Encoding::Identity;
    }
    let pieces = split_bytes(accept_encoding, COMMA);
    let ghost all = split(accept_encoding@, COMMA);
    let mut winner: Option<(u32, Encoding)> = None;
    let mut i: usize = 0;
    proof {
        assert(all.subrange(0, 0) =~= Seq::<Seq<u8>>::empty());
    }
    while i < pieces.len()
        invariant
            i <= pieces@.len(),
            pieces@.len() == all.len(),
            forall|k: int| 0 <= k < pieces@.len() ==> (#[trigger] pieces@[k])@ == all[k],
            winner == best(all.subrange(0, i as int)),
        decreases pieces@.len() - i,
    {
        let next = match parse_qvalue(pieces[i]) {
            Some(v) => if v.1 > 0 {
                Some((v.1, Encoding::from(v.0)))
            } else {
                None
            },
            None => None,
        };
        proof {
            let upto = all.subrange(0, i + 1);
            assert(upto.drop_last() =~= all.subrange(0, i as int));
            assert(upto.last() == pieces@[i as int]@);
            assert(next == candidate(upto.last()));
        }
        winner = match (winner, next) {
            (Some(b), Some(n)) => {
                if b.0 < n.0 || (b.0 == n.0 && b.1.position() < n.1.position()) {
                    next
                } else {
                    winner
                }
            },
            (None, _) => next,
            (_, None) => winner,
        };
        i += 1;
    }
    proof {
        assert(all.subrange(0, i as int) =~= all);
    }
    match winner {
        Some(w) => w.1,
        None => Encoding::Identity,
    }
}

/// The name of the coding that an `Accept-Encoding` field asks for.
///
/// Only `br`, `gzip` and `deflate` are on offer, and an entry of weight 0
/// never wins.
pub fn get_prior_encoding(accept_encoding: &[u8]) -> (r: &'static str)
    ensures
        r == preferred(accept_encoding@).name(),
{
    negotiate(accept_encoding).as_str()
}

/// What comes of asking for a coding that the server cannot apply.
#[derive(Debug, Clone, Copy, PartialEq, Eq, Structural)]
pub struct UnsupportedEncoding;

/// The coding to compress a body with, by its name.  Only `br`, `gzip`
/// and `deflate` compress; every other name is unsupported.
pub fn compressor(encoding: &[u8]) -> (r: Result<Encoding, UnsupportedEncoding>)
    ensures
        r == (if encoding_of(encoding@) == Encoding::Identity {
            Err::<Encoding, UnsupportedEncoding>(UnsupportedEncoding)
        } else {
            Ok::<Encoding, UnsupportedEncoding>(encoding_of(encoding@))
        }),
{
    match Encoding::from(encoding) {
        Encoding::Identity => Err(UnsupportedEncoding),
        coding => Ok(coding),
    }
}

/// Whether a coding by this name changes the body at all.
pub fn should_compress(enc: &str) -> (r: bool)
    ensures
        r == (enc@ != IDENTITY@),
{
    broadcast use vstd::utf8::encode_utf8_decode_utf8;

    let same = bytes_eq(enc.as_bytes(), IDENTITY.as_bytes());
    proof {
        if enc.spec_bytes() == IDENTITY.spec_bytes() {
            assert(vstd::utf8::decode_utf8(vstd::utf8::encode_utf8(enc@)) == enc@);
            assert(vstd::utf8::decode_utf8(vstd::utf8::encode_utf8(IDENTITY@)) == IDENTITY@);
        }
    }
    !same
}

/// No candidate among the pieces beats the best, and the best is one of
/// them.
pub proof fn lemma_best_is_greatest(pieces: Seq<Seq<u8>>)
    ensures
        forall|i: int|
            0 <= i < pieces.len() && (#[trigger] candidate(pieces[i])) is Some ==> best(pieces)
                is Some && !precedes(best(pieces).unwrap(), candidate(pieces[i]).unwrap()),
        best(pieces) is Some ==> exists|i: int|
            0 <= i < pieces.len() && #[trigger] candidate(pieces[i]) == best(pieces),
    decreases pieces.len(),
{
    if pieces.len() > 0 {
        let front = pieces.drop_last();
        lemma_best_is_greatest(front);
        assert forall|i: int|
            0 <= i < pieces.len() && (#[trigger] candidate(pieces[i])) is Some implies best(pieces)
                is Some && !precedes(best(pieces).unwrap(), candidate(pieces[i]).unwrap()) by {
            if i < front.len() {
                assert(front[i] == pieces[i]);
            }
        }
        if best(pieces) is Some {
            if best(pieces) == candidate(pieces.last()) {
                assert(candidate(pieces[pieces.len() - 1]) == best(pieces));
            } else {
                let i = choose|i: int|
                    0 <= i < front.len() && #[trigger] candidate(front[i]) == best(front);
                assert(front[i] == pieces[i]);
                assert(candidate(pieces[i]) == best(pieces));
            }
        }
    }
}

} // verus!
