//! UTF-16 code-unit indexing over Unicode strings.
//!
//! Character spans produced by this crate are measured in UTF-16 code units:
//! a code point above the Basic Multilingual Plane occupies two units (a
//! surrogate pair), every other code point occupies one. The functions here
//! give the exact code-unit length of a string and extract the substring
//! covering a half-open unit range, re-encoded as an ordinary string.

use vstd::prelude::*;

verus! {

/// The UTF-16 code units that encode one character: a single unit for a
/// code point below 0x10000, otherwise a high and a low surrogate.
pub open spec fn utf16_units(c: char) -> Seq<u16> {
    let u = c as u32;
    if u < 0x10000 {
        seq![u as u16]
    } else {
        seq![
            (0xD800 + ((u - 0x10000) / 0x400)) as u16,
            (0xDC00 + ((u - 0x10000) % 0x400)) as u16,
        ]
    }
}

/// The UTF-16 encoding of a character sequence.
pub open spec fn utf16_encode(s: Seq<char>) -> Seq<u16>
    decreases s.len(),
{
    if s.len() == 0 {
        Seq::empty()
    } else {
        utf16_units(s[0]) + utf16_encode(s.drop_first())
    }
}

pub open spec fn is_high_surrogate(u: u16) -> bool {
    0xD800 <= u <= 0xDBFF
}

pub open spec fn is_low_surrogate(u: u16) -> bool {
    0xDC00 <= u <= 0xDFFF
}

/// A unit sequence decodes to text exactly when every high surrogate is
/// followed by a low one and every low surrogate is preceded by a high one.
pub open spec fn valid_utf16(s: Seq<u16>) -> bool {
    forall|i: int|
        0 <= i < s.len() ==> {
            &&& (is_high_surrogate(#[trigger] s[i]) ==> i + 1 < s.len() && is_low_surrogate(
                s[i + 1],
            ))
            &&& (is_low_surrogate(s[i]) ==> 0 < i && is_high_surrogate(s[i - 1]))
        }
}

/// The scalar value encoded by a surrogate pair.
pub open spec fn combine_surrogates(hi: u16, lo: u16) -> u32 {
    (0x10000 + (hi - 0xD800) * 0x400 + (lo - 0xDC00)) as u32
}

/// The characters encoded by a unit sequence, meaningful on valid UTF-16.
pub open spec fn utf16_decode(s: Seq<u16>) -> Seq<char>
    decreases s.len(),
{
    if s.len() == 0 {
        Seq::empty()
    } else if is_high_surrogate(s[0]) {
        if s.len() >= 2 && is_low_surrogate(s[1]) {
            seq![combine_surrogates(s[0], s[1]) as char] + utf16_decode(s.skip(2))
        } else {
            utf16_decode(s.skip(1))
        }
    } else if is_low_surrogate(s[0]) {
        utf16_decode(s.skip(1))
    } else {
        seq![(s[0] as u32) as char] + utf16_decode(s.skip(1))
    }
}

/// Appending a character appends its units.
pub proof fn lemma_utf16_encode_push(s: Seq<char>, c: char)
    ensures
        utf16_encode(s.push(c)) == utf16_encode(s) + utf16_units(c),
    decreases s.len(),
{
    if s.len() == 0 {
        assert(s.push(c)[0] == c);
        assert(s.push(c).drop_first() =~= Seq::<char>::empty());
        assert(utf16_encode(s.push(c)) == utf16_units(s.push(c)[0]) + utf16_encode(
            s.push(c).drop_first(),
        ));
        assert(utf16_encode(s.push(c)) =~= utf16_units(c));
        assert(utf16_encode(s) + utf16_units(c) =~= utf16_units(c));
    } else {
        assert(s.push(c).drop_first() =~= s.drop_first().push(c));
        lemma_utf16_encode_push(s.drop_first(), c);
        assert(utf16_encode(s.push(c)) == utf16_units(s[0]) + utf16_encode(s.drop_first().push(c)));
        assert(utf16_units(s[0]) + (utf16_encode(s.drop_first()) + utf16_units(c)) =~= (utf16_units(
            s[0],
        ) + utf16_encode(s.drop_first())) + utf16_units(c));
    }
}

/// The exact number of UTF-16 code units the text decodes to.
pub fn utf16_len(txt: &str) -> (n: usize)
    ensures
        n == utf16_encode(txt@).len(),
{
    let units = encode_units(txt);
    units.len()
}

/// The UTF-16 code units of the text, as a vector.
pub(crate) fn encode_units(txt: &str) -> (units: Vec<u16>)
    ensures
        units@ == utf16_encode(txt@),
{
    let chars = crate::text::str_chars(txt);
    encode_chars(&chars)
}

/// The UTF-16 code units of a character vector.
pub(crate) fn encode_chars(chars: &Vec<char>) -> (units: Vec<u16>)
    ensures
        units@ == utf16_encode(chars@),
{
    let n = chars.len();
    let mut units: Vec<u16> = Vec::new();
    let mut i: usize = 0;
    proof {
        assert(chars@.subrange(0, 0) =~= Seq::<char>::empty());
    }
    while i < n
        invariant
            i <= n,
            n == chars@.len(),
            units@ == utf16_encode(chars@.subrange(0, i as int)),
        decreases n - i,
    {
        let c = chars[i];
        let u = c as u32;
        proof {
            vstd::utf8::char_is_scalar(c);
            lemma_utf16_encode_push(chars@.subrange(0, i as int), c);
            assert(chars@.subrange(0, i as int).push(c) =~= chars@.subrange(0, i + 1));
        }
        if u < 0x10000 {
            units.push(u as u16);
            proof {
                assert(units@ =~= utf16_encode(chars@.subrange(0, i + 1)));
            }
        } else {
            let hi = 0xD800 + ((u - 0x10000) / 0x400);
            let lo = 0xDC00 + ((u - 0x10000) % 0x400);
            units.push(hi as u16);
            units.push(lo as u16);
            proof {
                assert(units@ =~= utf16_encode(chars@.subrange(0, i + 1)));
            }
        }
        i = i + 1;
    }
    proof {
        assert(chars@.subrange(0, n as int) =~= chars@);
    }
    units
}

/// Relies on char::from_u32: a Unicode scalar value converts to the character
/// with that code; a surrogate or an out-of-range value does not convert.
pub assume_specification[ char::from_u32 ](i: u32) -> (r: Option<char>)
    ensures
        r is Some <==> vstd::utf8::is_scalar(i),
        r matches Some(c) ==> c as u32 == i,
;

/// A requested code-unit range does not decode to text (it splits a
/// surrogate pair).
#[derive(Debug)]
pub enum SubstringError {
    EncodeUtf16,
}

/// The code units in the half-open range, as their own vector.
fn units_range(units: &Vec<u16>, s: usize, e: usize) -> (r: Vec<u16>)
    requires
        s <= e <= units@.len(),
    ensures
        r@ == units@.subrange(s as int, e as int),
{
    let mut r: Vec<u16> = Vec::new();
    let mut i: usize = s;
    while i < e
        invariant
            s <= i <= e <= units@.len(),
            r@ == units@.subrange(s as int, i as int),
        decreases e - i,
    {
        r.push(units[i]);
        proof {
            assert(r@ =~= units@.subrange(s as int, i + 1));
        }
        i = i + 1;
    }
    r
}

/// Decodes a unit sequence back to characters; fails exactly when the
/// sequence is not valid UTF-16.
fn decode_units(units: &Vec<u16>) -> (r: Option<Vec<char>>)
    ensures
        r is Some <==> valid_utf16(units@),
        r matches Some(v) ==> v@ == utf16_decode(units@) && utf16_encode(v@) == units@,
{
    let n = units.len();
    let mut out: Vec<char> = Vec::new();
    let mut i: usize = 0;
    proof {
        assert(units@.skip(0) =~= units@);
        assert(Seq::<char>::empty() + utf16_decode(units@) =~= utf16_decode(units@));
        assert(units@.subrange(0, 0) =~= Seq::<u16>::empty());
    }
    while i < n
        invariant
            i <= n,
            n == units@.len(),
            utf16_decode(units@) == out@ + utf16_decode(units@.skip(i as int)),
            utf16_encode(out@) == units@.subrange(0, i as int),
            forall|j: int|
                0 <= j < i ==> {
                    &&& (is_high_surrogate(#[trigger] units@[j]) ==> j + 1 < i
                        && is_low_surrogate(units@[j + 1]))
                    &&& (is_low_surrogate(units@[j]) ==> 0 < j && is_high_surrogate(
                        units@[j - 1],
                    ))
                },
        decreases n - i,
    {
        let ghost rest = units@.skip(i as int);
        let u = units[i];
        proof {
            assert(rest[0] == units@[i as int]);
        }
        if 0xD800 <= u && u <= 0xDBFF {
            if i + 1 >= n || !(0xDC00 <= units[i + 1] && units[i + 1] <= 0xDFFF) {
                proof {
                    assert(!valid_utf16(units@)) by {
                        if valid_utf16(units@) {
                            assert(is_high_surrogate(units@[i as int]));
                        }
                    }
                }
                return None;
            }
            let lo = units[i + 1];
            let scalar: u32 = 0x10000 + ((u as u32) - 0xD800) * 0x400 + ((lo as u32) - 0xDC00);
            let c = char::from_u32(scalar).unwrap();
            proof {
                assert(rest[1] == units@[i + 1]);
                assert(rest.skip(2) =~= units@.skip(i + 2));
                assert(utf16_decode(rest) == seq![combine_surrogates(rest[0], rest[1]) as char]
                    + utf16_decode(units@.skip(i + 2)));
                vstd::utf8::char_u32_cast(c, scalar);
                assert(out@ + (seq![c] + utf16_decode(units@.skip(i + 2))) =~= out@.push(c)
                    + utf16_decode(units@.skip(i + 2)));
                lemma_utf16_encode_push(out@, c);
                assert((((scalar - 0x10000) as u32) / 0x400) as u32 == (u as u32 - 0xD800)
                    && (((scalar - 0x10000) as u32) % 0x400) as u32 == (lo as u32 - 0xDC00)) by {
                    let a = u as u32 - 0xD800;
                    let b = lo as u32 - 0xDC00;
                    assert(a * 0x400 + b == scalar - 0x10000);
                    assert(0 <= b < 0x400);
                    assert((a * 0x400 + b) / 0x400 == a && (a * 0x400 + b) % 0x400 == b) by (nonlinear_arith)
                        requires
                            0 <= a,
                            0 <= b < 0x400,
                    ;
                }
                assert(utf16_units(c) =~= seq![u, lo]);
                assert(utf16_encode(out@.push(c)) =~= units@.subrange(0, i + 2));
            }
            out.push(c);
            i = i + 2;
        } else if 0xDC00 <= u && u <= 0xDFFF {
            proof {
                assert(!valid_utf16(units@)) by {
                    if valid_utf16(units@) {
                        assert(is_low_surrogate(units@[i as int]));
                    }
                }
            }
            return None;
        } else {
            let c = char::from_u32(u as u32).unwrap();
            proof {
                assert(rest.skip(1) =~= units@.skip(i + 1));
                assert(utf16_decode(rest) == seq![(rest[0] as u32) as char] + utf16_decode(
                    units@.skip(i + 1),
                ));
                vstd::utf8::char_u32_cast(c, u as u32);
                assert(out@ + (seq![c] + utf16_decode(units@.skip(i + 1))) =~= out@.push(c)
                    + utf16_decode(units@.skip(i + 1)));
                lemma_utf16_encode_push(out@, c);
                assert(utf16_units(c) =~= seq![u]);
                assert(utf16_encode(out@.push(c)) =~= units@.subrange(0, i + 1));
            }
            out.push(c);
            i = i + 1;
        }
    }
    proof {
        assert(units@.skip(n as int) =~= Seq::<u16>::empty());
        assert(out@ + Seq::<char>::empty() =~= out@);
        assert(units@.subrange(0, n as int) =~= units@);
    }
    Some(out)
}

/// The substring of the text covering the half-open code-unit range,
/// re-encoded as its own string. Fails with an encoding error exactly when
/// the range splits a surrogate pair.
pub fn substring(txt: &str, s: usize, e: usize) -> (r: Result<String, SubstringError>)
    requires
        s <= e <= utf16_encode(txt@).len(),
    ensures
        match r {
            Ok(sub) => {
                &&& valid_utf16(utf16_encode(txt@).subrange(s as int, e as int))
                &&& sub@ == utf16_decode(utf16_encode(txt@).subrange(s as int, e as int))
                &&& utf16_encode(sub@) == utf16_encode(txt@).subrange(s as int, e as int)
            },
            Err(err) => {
                &&& !valid_utf16(utf16_encode(txt@).subrange(s as int, e as int))
                &&& err is EncodeUtf16
            },
        },
{
    let units = encode_units(txt);
    let range = units_range(&units, s, e);
    match decode_units(&range) {
        Some(chars) => Ok(crate::text::string_from_chars(&chars)),
        None => Err(SubstringError::EncodeUtf16),
    }
}

} // verus!
