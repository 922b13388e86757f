//! Decoding of the text encodings found in image metadata: UTF-16 (with
//! U+FFFD for unpaired surrogates), lossy UTF-8 and Latin-1.

use vstd::prelude::*;

verus! {

/// The replacement character that stands for undecodable input.
pub open spec fn replacement() -> char {
    '\u{FFFD}'
}

pub open spec fn is_lead_surrogate(u: u16) -> bool {
    0xD800 <= u < 0xDC00
}

pub open spec fn is_trail_surrogate(u: u16) -> bool {
    0xDC00 <= u < 0xE000
}

/// The code point that a surrogate pair stands for.
pub open spec fn surrogate_pair_value(lead: u16, trail: u16) -> int {
    0x10000 + (lead - 0xD800) * 0x400 + (trail - 0xDC00)
}

/// UTF-16 decoding of `u`: a unit outside the surrogate range is its own
/// scalar value; a lead surrogate followed by a trail surrogate is one scalar;
/// any other surrogate becomes U+FFFD and decoding resumes with the next unit.
pub open spec fn utf16_decode(u: Seq<u16>) -> Seq<char>
    decreases u.len(),
{
    if u.len() == 0 {
        Seq::empty()
    } else if !is_lead_surrogate(u[0]) && !is_trail_surrogate(u[0]) {
        seq![u[0] as char] + utf16_decode(u.drop_first())
    } else if is_lead_surrogate(u[0]) && u.len() >= 2 && is_trail_surrogate(u[1]) {
        seq![surrogate_pair_value(u[0], u[1]) as char] + utf16_decode(u.subrange(2, u.len() as int))
    } else {
        seq![replacement()] + utf16_decode(u.drop_first())
    }
}

/// ISO-8859-1 decoding: every byte is the scalar value of the same number.
pub open spec fn latin1_decode(b: Seq<u8>) -> Seq<char> {
    Seq::new(b.len(), |i: int| b[i] as char)
}

/// `char::from_u32` returns the scalar value `i` where `i` is one, and `None` otherwise.
pub assume_specification[ core::char::from_u32 ](i: u32) -> (r: Option<char>)
    ensures
        r is Some <==> (i <= 0x10FFFF && !(0xD800 <= i <= 0xDFFF)),
        r matches Some(c) ==> c == i as char && c as u32 == i,
;

/// The result of `String::from_utf8_lossy`: the UTF-8 decoding of the bytes,
/// where each maximal invalid subsequence becomes U+FFFD.
pub uninterp spec fn utf8_lossy(bytes: Seq<u8>) -> Seq<char>;

/// The text of 8-bit name bytes: valid UTF-8 decodes to exactly its scalar
/// values; other bytes as `String::from_utf8_lossy` gives them.
pub open spec fn utf8_text(bytes: Seq<u8>) -> Seq<char> {
    if vstd::utf8::valid_utf8(bytes) {
        vstd::utf8::decode_utf8(bytes)
    } else {
        utf8_lossy(bytes)
    }
}

/// Lossy UTF-8 decoding (std's `String::from_utf8_lossy`). Valid UTF-8 input
/// decodes to exactly its scalar values.
#[verifier::external_body]
pub(crate) fn decode_utf8_lossy(bytes: &[u8]) -> (s: String)
    ensures
        s@ == utf8_lossy(bytes@),
        vstd::utf8::valid_utf8(bytes@) ==> s@ == vstd::utf8::decode_utf8(bytes@),
{
    String::from_utf8_lossy(bytes).into_owned()
}

proof fn lemma_utf16_decode_step(u: Seq<u16>, i: int)
    requires
        0 <= i < u.len(),
    ensures
        !is_lead_surrogate(u[i]) && !is_trail_surrogate(u[i]) ==> utf16_decode(
            u.subrange(i, u.len() as int),
        ) == seq![u[i] as char] + utf16_decode(u.subrange(i + 1, u.len() as int)),
        is_lead_surrogate(u[i]) && i + 1 < u.len() && is_trail_surrogate(u[i + 1])
            ==> utf16_decode(u.subrange(i, u.len() as int)) == seq![
            surrogate_pair_value(u[i], u[i + 1]) as char,
        ] + utf16_decode(u.subrange(i + 2, u.len() as int)),
        (is_trail_surrogate(u[i]) || (is_lead_surrogate(u[i]) && !(i + 1 < u.len()
            && is_trail_surrogate(u[i + 1])))) ==> utf16_decode(u.subrange(i, u.len() as int))
            == seq![replacement()] + utf16_decode(u.subrange(i + 1, u.len() as int)),
{
    let s = u.subrange(i, u.len() as int);
    assert(s.drop_first() == u.subrange(i + 1, u.len() as int));
    if s.len() >= 2 {
        assert(s.subrange(2, s.len() as int) == u.subrange(i + 2, u.len() as int));
    }
}

/// Decodes a sequence of UTF-16 code units, replacing unpaired surrogates
/// with U+FFFD (std's `char::decode_utf16` with `unwrap_or(REPLACEMENT_CHARACTER)`).
pub fn decode_utf16(units: &[u16]) -> (r: Vec<char>)
    ensures
        r@ == utf16_decode(units@),
{
    let mut out: Vec<char> = Vec::new();
    let mut i: usize = 0;
    let n = units.len();
    assert(units@.subrange(0, n as int) == units@);
    while i < n
        invariant
            n == units@.len(),
            i <= n,
            utf16_decode(units@) == out@ + utf16_decode(units@.subrange(i as int, n as int)),
        decreases n - i,
    {
        proof {
            lemma_utf16_decode_step(units@, i as int);
        }
        let u = units[i];
        let ghost prev = out@;
        if u < 0xD800 || u >= 0xE000 {
            let c = match core::char::from_u32(u as u32) {
                Some(c) => c,
                None => '\u{FFFD}',
            };
            assert(c == u as char);
            out.push(c);
            assert(out@ == prev + seq![u as char]);
            i = i + 1;
        } else if u < 0xDC00 && i + 1 < n && units[i + 1] >= 0xDC00 && units[i + 1] < 0xE000 {
            let t = units[i + 1];
            assert(0x10000 + (u - 0xD800) * 0x400 + (t - 0xDC00) <= 0x10FFFF);
            let v: u32 = 0x10000 + ((u - 0xD800) as u32) * 0x400 + ((t - 0xDC00) as u32);
            let c = match core::char::from_u32(v) {
                Some(c) => c,
                None => '\u{FFFD}',
            };
            assert(c == surrogate_pair_value(u, t) as char);
            out.push(c);
            assert(out@ == prev + seq![surrogate_pair_value(u, t) as char]);
            i = i + 2;
        } else {
            out.push('\u{FFFD}');
            assert(out@ == prev + seq![replacement()]);
            i = i + 1;
        }
        assert(utf16_decode(units@) == out@ + utf16_decode(units@.subrange(i as int, n as int)));
    }
    out
}

/// Decodes bytes as ISO-8859-1.
pub fn decode_latin1(bytes: &[u8]) -> (r: Vec<char>)
    ensures
        r@ == latin1_decode(bytes@),
{
    let mut out: Vec<char> = Vec::new();
    let mut i: usize = 0;
    while i < bytes.len()
        invariant
            i <= bytes@.len(),
            out@ == latin1_decode(bytes@.subrange(0, i as int)),
        decreases bytes.len() - i,
    {
        let b = bytes[i];
        out.push(b as char);
        i = i + 1;
        assert(out@ =~= latin1_decode(bytes@.subrange(0, i as int)));
    }
    assert(bytes@.subrange(0, bytes@.len() as int) == bytes@);
    out
}

} // verus!
