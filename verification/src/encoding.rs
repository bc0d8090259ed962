//! Byte/text encodings used by the wire formats: lowercase hex, base64,
//! and UTF-8 string conversion.

use vstd::prelude::*;
use vstd::string::StringSliceAdditionalSpecFns;

verus! {

/// The lowercase hex digit for a nibble.
pub open spec fn hex_char_of(n: u8) -> char
    recommends
        n < 16,
{
    if n == 0 {
        '0'
    } else if n == 1 {
        '1'
    } else if n == 2 {
        '2'
    } else if n == 3 {
        '3'
    } else if n == 4 {
        '4'
    } else if n == 5 {
        '5'
    } else if n == 6 {
        '6'
    } else if n == 7 {
        '7'
    } else if n == 8 {
        '8'
    } else if n == 9 {
        '9'
    } else if n == 10 {
        'a'
    } else if n == 11 {
        'b'
    } else if n == 12 {
        'c'
    } else if n == 13 {
        'd'
    } else if n == 14 {
        'e'
    } else {
        'f'
    }
}

/// Lowercase hex rendering of a byte string, high nibble first.
pub open spec fn hex_of(b: Seq<u8>) -> Seq<char> {
    Seq::new(
        2 * b.len(),
        |i: int|
            if i % 2 == 0 {
                hex_char_of(b[i / 2] / 16)
            } else {
                hex_char_of(b[i / 2] % 16)
            },
    )
}

/// Whether a character is a hex digit (either case).
pub open spec fn is_hex_char(c: char) -> bool {
    ('0' <= c && c <= '9') || ('a' <= c && c <= 'f') || ('A' <= c && c <= 'F')
}

/// Numeric value of a hex digit.
pub open spec fn hex_val(c: char) -> u8
    recommends
        is_hex_char(c),
{
    if '0' <= c && c <= '9' {
        (c as u8 - '0' as u8) as u8
    } else if 'a' <= c && c <= 'f' {
        (c as u8 - 'a' as u8 + 10) as u8
    } else {
        (c as u8 - 'A' as u8 + 10) as u8
    }
}

/// What decoding a hex string yields: the byte string, if every character
/// is a hex digit and the length is even; nothing otherwise.
pub open spec fn hex_parse(s: Seq<char>) -> Option<Seq<u8>> {
    if s.len() % 2 == 0 && (forall|i: int| 0 <= i < s.len() ==> is_hex_char(#[trigger] s[i])) {
        Some(
            Seq::new(
                s.len() / 2,
                |i: int| (hex_val(s[2 * i]) * 16 + hex_val(s[2 * i + 1])) as u8,
            ),
        )
    } else {
        None
    }
}

/// Decoding inverts encoding: the hex rendering of a byte string parses
/// back to that byte string.
pub proof fn lemma_hex_round_trip(b: Seq<u8>)
    ensures
        hex_parse(hex_of(b)) == Some(b),
{
    let s = hex_of(b);
    assert forall|i: int| 0 <= i < s.len() implies is_hex_char(#[trigger] s[i]) by {
        let n: u8 = if i % 2 == 0 {
            b[i / 2] / 16
        } else {
            b[i / 2] % 16
        };
        assert(s[i] == hex_char_of(n));
    }
    let d = hex_parse(s)->Some_0;
    assert forall|i: int| 0 <= i < d.len() implies d[i] == b[i] by {
        assert(s[2 * i] == hex_char_of(b[i] / 16));
        assert(s[2 * i + 1] == hex_char_of(b[i] % 16));
        assert(hex_val(hex_char_of(b[i] / 16)) == b[i] / 16);
        assert(hex_val(hex_char_of(b[i] % 16)) == b[i] % 16);
    }
    assert(d =~= b);
}

/// Relies on hex::encode: two lowercase hex digits per input byte,
/// high nibble first.
#[verifier::external_body]
pub fn hex_encode(b: &Vec<u8>) -> (r: String)
    ensures
        r@ == hex_of(b@),
{
    hex::encode(b)
}

/// Relies on hex::decode: succeeds exactly on even-length strings of hex
/// digits (either case), pairing digits into bytes high nibble first.
#[verifier::external_body]
pub fn hex_decode(s: &str) -> (r: Option<Vec<u8>>)
    ensures
        r is Some <==> hex_parse(s@) is Some,
        r is Some ==> Some(r->Some_0@) == hex_parse(s@),
{
    hex::decode(s).ok()
}

/// What base64 decoding yields on a given string; a function of the
/// string alone.
pub uninterp spec fn b64_parse_of(s: Seq<char>) -> Option<Seq<u8>>;

/// Relies on base64::encode: standard alphabet with padding; decoding the
/// result yields the input bytes.
#[verifier::external_body]
pub fn base64_encode(b: &Vec<u8>) -> (r: String)
    ensures
        b64_parse_of(r@) == Some(b@),
        vstd::utf8::is_ascii_chars(r@),
{
    base64::encode(b)
}

/// Relies on base64::decode: standard alphabet with padding; the result is
/// a function of the input string alone.
#[verifier::external_body]
pub fn base64_decode(s: &str) -> (r: Option<Vec<u8>>)
    ensures
        r is Some <==> b64_parse_of(s@) is Some,
        r is Some ==> Some(r->Some_0@) == b64_parse_of(s@),
{
    base64::decode(s).ok()
}

/// Relies on String::from_utf8: succeeds exactly on valid UTF-8 input and
/// decodes it, leaving the byte string unchanged.
#[verifier::external_body]
pub fn string_from_utf8(v: Vec<u8>) -> (r: Option<String>)
    ensures
        r is Some <==> vstd::utf8::valid_utf8(v@),
        r is Some ==> r->Some_0@ == vstd::utf8::decode_utf8(v@),
{
    String::from_utf8(v).ok()
}

/// Big-endian byte rendering of an unsigned 64-bit integer.
pub open spec fn be64_of(t: u64) -> Seq<u8> {
    seq![
        (t >> 56) as u8,
        (t >> 48) as u8,
        (t >> 40) as u8,
        (t >> 32) as u8,
        (t >> 24) as u8,
        (t >> 16) as u8,
        (t >> 8) as u8,
        t as u8,
    ]
}

/// Render an unsigned 64-bit integer as its 8 big-endian bytes.
pub fn u64_to_be_bytes(t: u64) -> (r: Vec<u8>)
    ensures
        r@ == be64_of(t),
{
    let mut out: Vec<u8> = Vec::new();
    out.push((t >> 56) as u8);
    out.push((t >> 48) as u8);
    out.push((t >> 40) as u8);
    out.push((t >> 32) as u8);
    out.push((t >> 24) as u8);
    out.push((t >> 16) as u8);
    out.push((t >> 8) as u8);
    out.push(t as u8);
    proof {
        assert(out@ =~= be64_of(t));
    }
    out
}

/// Append the bytes of `src` to `dst`.
pub fn push_all(dst: &mut Vec<u8>, src: &Vec<u8>)
    ensures
        final(dst)@ == old(dst)@ + src@,
{
    let mut i: usize = 0;
    while i < src.len()
        invariant
            i <= src@.len(),
            dst@ == old(dst)@ + src@.take(i as int),
        decreases src@.len() - i,
    {
        dst.push(src[i]);
        i = i + 1;
    }
    proof {
        assert(dst@ =~= old(dst)@ + src@);
    }
}

/// Copy the bytes of a string into a fresh byte vector.
pub fn str_to_bytes(s: &str) -> (r: Vec<u8>)
    ensures
        r@ == s.spec_bytes(),
{
    vstd::slice::slice_to_vec(s.as_bytes())
}

} // verus!
