//! The wire forms of integers and text, and reading them back.
//!
//! Integers are fixed-width and little-endian. Text is its UTF-8 length in
//! bytes as a 64-bit integer, followed by the UTF-8 bytes. Nothing is padded.
//!
//! A reader is described by a function from the bytes in front of it to the
//! value they begin with and the bytes that follow it.
//!
//! The byte forms of integers are opaque, to keep them out of proofs that
//! only move them about. A proof about given bytes reveals them:
//! `reveal(u32_bytes)` for writing, `reveal(u32_of)` for reading.

use vstd::prelude::*;
use vstd::slice::{slice_subrange, slice_to_vec};
use vstd::string::StrSliceExecFns;
use vstd::utf8::{
    decode_utf8, decode_utf8_encode_utf8, encode_utf8, encode_utf8_decode_utf8,
    encode_utf8_valid_utf8, valid_utf8,
};

verus! {

/// What a reader makes of the bytes in front of it: the value they begin
/// with and the bytes after it, or nothing when they begin with no value.
pub type Parsed<T> = Option<(T, Seq<u8>)>;

/// Whether a reader that stood at `at` in `bytes` and now stands at `next`
/// has `rest` in front of it.
pub open spec fn advanced(bytes: Seq<u8>, at: int, next: int, rest: Seq<u8>) -> bool {
    at <= next <= bytes.len() && bytes.skip(next) == rest
}

/// The wire form of a byte.
pub open spec fn u8_bytes(v: u8) -> Seq<u8> {
    seq![v]
}

/// Reads a byte.
pub open spec fn parse_u8(s: Seq<u8>) -> Parsed<u8> {
    if s.len() >= 1 {
        Some((s[0], s.skip(1)))
    } else {
        None
    }
}

/// The wire form of a 32-bit integer: four bytes, least significant first.
#[verifier::opaque]
pub open spec fn u32_bytes(v: u32) -> Seq<u8> {
    seq![
        (v % 256) as u8,
        ((v / 256) % 256) as u8,
        ((v / 65536) % 256) as u8,
        ((v / 16777216) % 256) as u8,
    ]
}

/// The 32-bit integer that the first four bytes of `s` write.
#[verifier::opaque]
pub open spec fn u32_of(s: Seq<u8>) -> u32 {
    (s[0] + 256 * s[1] + 65536 * s[2] + 16777216 * s[3]) as u32
}

/// Reads a 32-bit integer.
pub open spec fn parse_u32(s: Seq<u8>) -> Parsed<u32> {
    if s.len() >= 4 {
        Some((u32_of(s), s.skip(4)))
    } else {
        None
    }
}

/// The wire form of a 64-bit integer: eight bytes, least significant first.
#[verifier::opaque]
pub open spec fn u64_bytes(v: u64) -> Seq<u8> {
    u32_bytes((v % 0x1_0000_0000) as u32) + u32_bytes((v / 0x1_0000_0000) as u32)
}

/// The 64-bit integer that the first eight bytes of `s` write.
#[verifier::opaque]
pub open spec fn u64_of(s: Seq<u8>) -> u64 {
    (u32_of(s) + 0x1_0000_0000 * u32_of(s.skip(4))) as u64
}

/// Reads a 64-bit integer.
pub open spec fn parse_u64(s: Seq<u8>) -> Parsed<u64> {
    if s.len() >= 8 {
        Some((u64_of(s), s.skip(8)))
    } else {
        None
    }
}

/// Whether the UTF-8 length of `text` can be written as a 64-bit integer.
pub open spec fn text_fits(text: Seq<char>) -> bool {
    encode_utf8(text).len() <= u64::MAX
}

/// The wire form of text: its length in bytes, then its UTF-8 bytes.
pub open spec fn text_bytes(text: Seq<char>) -> Seq<u8> {
    u64_bytes(encode_utf8(text).len() as u64) + encode_utf8(text)
}

/// Reads text: a length, then that many bytes, which must be UTF-8.
pub open spec fn parse_text(s: Seq<u8>) -> Parsed<Seq<char>> {
    match parse_u64(s) {
        Some((n, rest)) => if n <= rest.len() && valid_utf8(rest.take(n as int)) {
            Some((decode_utf8(rest.take(n as int)), rest.skip(n as int)))
        } else {
            None
        },
        None => None,
    }
}

/// A written byte is read back, whatever follows it.
pub proof fn lemma_u8_round_trip(v: u8, rest: Seq<u8>)
    ensures
        parse_u8(u8_bytes(v) + rest) == Some((v, rest)),
{
    assert((u8_bytes(v) + rest).skip(1) =~= rest);
}

/// A written 32-bit integer is read back, whatever follows it.
pub proof fn lemma_u32_round_trip(v: u32, rest: Seq<u8>)
    ensures
        u32_bytes(v).len() == 4,
        parse_u32(u32_bytes(v) + rest) == Some((v, rest)),
{
    reveal(u32_bytes);
    reveal(u32_of);
    let s = u32_bytes(v) + rest;
    assert(s[0] == u32_bytes(v)[0] && s[1] == u32_bytes(v)[1] && s[2] == u32_bytes(v)[2] && s[3]
        == u32_bytes(v)[3]);
    assert(u32_of(s) == v);
    assert(s.skip(4) =~= rest);
}

/// A written 64-bit integer is read back, whatever follows it.
pub proof fn lemma_u64_round_trip(v: u64, rest: Seq<u8>)
    ensures
        u64_bytes(v).len() == 8,
        parse_u64(u64_bytes(v) + rest) == Some((v, rest)),
{
    reveal(u64_bytes);
    reveal(u64_of);
    let low = (v % 0x1_0000_0000) as u32;
    let high = (v / 0x1_0000_0000) as u32;
    let s = u64_bytes(v) + rest;
    lemma_u32_round_trip(low, u32_bytes(high) + rest);
    lemma_u32_round_trip(high, rest);
    assert(s =~= u32_bytes(low) + (u32_bytes(high) + rest));
    assert(s.skip(4) =~= u32_bytes(high) + rest);
    assert(s.skip(8) =~= rest);
}

/// Written text is read back, whatever follows it.
pub proof fn lemma_text_round_trip(text: Seq<char>, rest: Seq<u8>)
    requires
        text_fits(text),
    ensures
        parse_text(text_bytes(text) + rest) == Some((text, rest)),
{
    let raw = encode_utf8(text);
    let n = raw.len() as u64;
    lemma_u64_round_trip(n, raw + rest);
    assert(text_bytes(text) + rest =~= u64_bytes(n) + (raw + rest));
    assert((raw + rest).take(n as int) =~= raw);
    assert((raw + rest).skip(n as int) =~= rest);
    encode_utf8_valid_utf8(text);
    encode_utf8_decode_utf8(text);
}

/// A byte that was read stood in front of the rest in its wire form.
pub proof fn lemma_u8_parsed(s: Seq<u8>)
    ensures
        parse_u8(s) matches Some((v, rest)) ==> s == u8_bytes(v) + rest,
{
    if let Some((v, rest)) = parse_u8(s) {
        assert(s =~= u8_bytes(v) + rest);
    }
}

/// The number written in base 256 by four digits, least significant first,
/// has those digits.
proof fn lemma_base_256(a: int, b: int, c: int, d: int)
    requires
        0 <= a < 256,
        0 <= b < 256,
        0 <= c < 256,
        0 <= d < 256,
    ensures
        ({
            let v = a + 256 * b + 65536 * c + 16777216 * d;
            &&& 0 <= v <= u32::MAX
            &&& v % 256 == a
            &&& (v / 256) % 256 == b
            &&& (v / 65536) % 256 == c
            &&& (v / 16777216) % 256 == d
        }),
{
    let v = a + 256 * b + 65536 * c + 16777216 * d;
    let upper = c + 256 * d;
    let middle = b + 256 * upper;
    vstd::arithmetic::div_mod::lemma_fundamental_div_mod_converse(v, 256, middle, a);
    vstd::arithmetic::div_mod::lemma_fundamental_div_mod_converse(middle, 256, upper, b);
    vstd::arithmetic::div_mod::lemma_fundamental_div_mod_converse(v, 65536, upper, a + 256 * b);
    vstd::arithmetic::div_mod::lemma_fundamental_div_mod_converse(upper, 256, d, c);
    vstd::arithmetic::div_mod::lemma_fundamental_div_mod_converse(
        v,
        16777216,
        d,
        a + 256 * b + 65536 * c,
    );
    vstd::arithmetic::div_mod::lemma_fundamental_div_mod_converse(d, 256, 0, d);
}

/// A 32-bit integer that was read stood in front of the rest in its wire
/// form.
pub proof fn lemma_u32_parsed(s: Seq<u8>)
    ensures
        parse_u32(s) matches Some((v, rest)) ==> s == u32_bytes(v) + rest,
{
    reveal(u32_bytes);
    reveal(u32_of);
    if let Some((v, rest)) = parse_u32(s) {
        lemma_base_256(s[0] as int, s[1] as int, s[2] as int, s[3] as int);
        let written = u32_bytes(v);
        assert(written[0] == s[0] && written[1] == s[1] && written[2] == s[2] && written[3]
            == s[3]);
        assert(s =~= written + rest);
    }
}

/// A 64-bit integer that was read stood in front of the rest in its wire
/// form.
pub proof fn lemma_u64_parsed(s: Seq<u8>)
    ensures
        parse_u64(s) matches Some((v, rest)) ==> s == u64_bytes(v) + rest,
{
    reveal(u64_bytes);
    reveal(u64_of);
    if let Some((v, rest)) = parse_u64(s) {
        lemma_u32_parsed(s);
        lemma_u32_parsed(s.skip(4));
        assert(s.skip(4).skip(4) =~= rest);
        assert((v % 0x1_0000_0000) as u32 == u32_of(s));
        assert((v / 0x1_0000_0000) as u32 == u32_of(s.skip(4)));
        assert(s =~= u64_bytes(v) + rest);
    }
}

/// Text that was read stood in front of the rest in its wire form.
pub proof fn lemma_text_parsed(s: Seq<u8>)
    ensures
        parse_text(s) matches Some((text, rest)) ==> s == text_bytes(text) + rest && text_fits(
            text,
        ),
{
    if let Some((text, rest)) = parse_text(s) {
        lemma_u64_parsed(s);
        let (n, after) = parse_u64(s).unwrap();
        let raw = after.take(n as int);
        decode_utf8_encode_utf8(raw);
        assert(encode_utf8(text) == raw);
        assert(raw.len() == n);
        assert(after =~= raw + rest);
        assert(s =~= text_bytes(text) + rest);
    }
}

/// `String::from_utf8`: turns bytes into the string they encode. The result
/// is a string exactly when the bytes are well-formed UTF-8, and that
/// string's UTF-8 bytes are the bytes given.
#[verifier::external_body]
pub(crate) fn text_from_utf8(raw: Vec<u8>) -> (r: Option<String>)
    ensures
        r is Some <==> valid_utf8(raw@),
        r matches Some(text) ==> encode_utf8(text@) == raw@,
{
    match String::from_utf8(raw) {
        Ok(text) => Some(text),
        Err(_) => None,
    }
}

/// Appends the wire form of a byte.
pub(crate) fn put_u8(out: &mut Vec<u8>, v: u8)
    ensures
        final(out)@ == old(out)@ + u8_bytes(v),
{
    out.push(v);
    assert(out@ =~= old(out)@ + u8_bytes(v));
}

/// Appends the wire form of a 32-bit integer.
pub(crate) fn put_u32(out: &mut Vec<u8>, v: u32)
    ensures
        final(out)@ == old(out)@ + u32_bytes(v),
{
    proof {
        reveal(u32_bytes);
    }
    out.push((v % 256) as u8);
    out.push(((v / 256) % 256) as u8);
    out.push(((v / 65536) % 256) as u8);
    out.push((v / 16777216) as u8);
    assert(out@ =~= old(out)@ + u32_bytes(v));
}

/// Appends the wire form of a 64-bit integer.
pub(crate) fn put_u64(out: &mut Vec<u8>, v: u64)
    ensures
        final(out)@ == old(out)@ + u64_bytes(v),
{
    proof {
        reveal(u64_bytes);
    }
    put_u32(out, (v % 0x1_0000_0000) as u32);
    put_u32(out, (v / 0x1_0000_0000) as u32);
    assert(out@ =~= old(out)@ + u64_bytes(v));
}

/// Appends the wire form of text.
pub(crate) fn put_text(out: &mut Vec<u8>, text: &String)
    ensures
        final(out)@ == old(out)@ + text_bytes(text@),
        text_fits(text@),
{
    let mut raw = text.as_str().as_bytes_vec();
    let n: usize = raw.len();
    put_u64(out, n as u64);
    out.append(&mut raw);
    assert(out@ =~= old(out)@ + text_bytes(text@));
}

/// Reads a byte at `at`.
pub(crate) fn take_u8(bytes: &[u8], at: usize) -> (r: Option<(u8, usize)>)
    requires
        at <= bytes@.len(),
    ensures
        match parse_u8(bytes@.skip(at as int)) {
            Some((v, rest)) => r matches Some((got, next)) && got == v && advanced(
                bytes@,
                at as int,
                next as int,
                rest,
            ),
            None => r is None,
        },
{
    if bytes.len() - at < 1 {
        return None;
    }
    let v: u8 = bytes[at];
    assert(bytes@.skip(at as int).skip(1) =~= bytes@.skip(at + 1));
    Some((v, at + 1))
}

/// Reads a 32-bit integer at `at`.
pub(crate) fn take_u32(bytes: &[u8], at: usize) -> (r: Option<(u32, usize)>)
    requires
        at <= bytes@.len(),
    ensures
        match parse_u32(bytes@.skip(at as int)) {
            Some((v, rest)) => r matches Some((got, next)) && got == v && advanced(
                bytes@,
                at as int,
                next as int,
                rest,
            ),
            None => r is None,
        },
{
    if bytes.len() - at < 4 {
        return None;
    }
    proof {
        reveal(u32_of);
    }
    let v: u32 = bytes[at] as u32 + 256 * bytes[at + 1] as u32 + 65536 * bytes[at + 2] as u32
        + 16777216 * bytes[at + 3] as u32;
    assert(bytes@.skip(at as int).skip(4) =~= bytes@.skip(at + 4));
    Some((v, at + 4))
}

/// Reads a 64-bit integer at `at`.
pub(crate) fn take_u64(bytes: &[u8], at: usize) -> (r: Option<(u64, usize)>)
    requires
        at <= bytes@.len(),
    ensures
        match parse_u64(bytes@.skip(at as int)) {
            Some((v, rest)) => r matches Some((got, next)) && got == v && advanced(
                bytes@,
                at as int,
                next as int,
                rest,
            ),
            None => r is None,
        },
{
    if bytes.len() - at < 8 {
        return None;
    }
    proof {
        reveal(u64_of);
    }
    let low: u32 = match take_u32(bytes, at) {
        Some((low, _)) => low,
        None => {
            return None;
        },
    };
    let high: u32 = match take_u32(bytes, at + 4) {
        Some((high, _)) => high,
        None => {
            return None;
        },
    };
    assert(bytes@.skip(at as int).skip(4) =~= bytes@.skip(at + 4));
    assert(bytes@.skip(at as int).skip(8) =~= bytes@.skip(at + 8));
    Some((low as u64 + 0x1_0000_0000 * high as u64, at + 8))
}

/// Reads text at `at`.
pub(crate) fn take_text(bytes: &[u8], at: usize) -> (r: Option<(String, usize)>)
    requires
        at <= bytes@.len(),
    ensures
        match parse_text(bytes@.skip(at as int)) {
            Some((text, rest)) => r matches Some((got, next)) && got@ == text && advanced(
                bytes@,
                at as int,
                next as int,
                rest,
            ),
            None => r is None,
        },
{
    let (n, start) = match take_u64(bytes, at) {
        Some(read) => read,
        None => {
            return None;
        },
    };
    if n > (bytes.len() - start) as u64 {
        return None;
    }
    let end: usize = start + n as usize;
    let raw = slice_to_vec(slice_subrange(bytes, start, end));
    assert(bytes@.skip(start as int).take(n as int) =~= bytes@.subrange(start as int, end as int));
    assert(bytes@.skip(start as int).skip(n as int) =~= bytes@.skip(end as int));
    match text_from_utf8(raw) {
        Some(text) => {
            proof {
                encode_utf8_decode_utf8(text@);
            }
            Some((text, end))
        },
        None => None,
    }
}

} // verus!
