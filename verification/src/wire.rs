//! Byte-level encoding of the values that travel inside frames.
//!
//! Integers are fixed-width little-endian, strings are a `u64` byte count
//! followed by their UTF-8 bytes, and tagged unions are a `u32` variant
//! index followed by the payload of the variant.

use vstd::prelude::*;
use vstd::slice::{slice_subrange, slice_to_vec};
use vstd::utf8::{decode_utf8, encode_utf8, valid_utf8};

verus! {

/// The four bytes of `n`, least significant first.
#[verifier::opaque]
pub open spec fn le32(n: u32) -> Seq<u8> {
    seq![
        (n % 256) as u8,
        (n / 256 % 256) as u8,
        (n / 65536 % 256) as u8,
        (n / 16777216) as u8,
    ]
}

/// The number whose little-endian bytes are the first four of `b`.
#[verifier::opaque]
pub open spec fn le32_value(b: Seq<u8>) -> int
    recommends
        b.len() >= 4,
{
    b[0] as int + 256 * (b[1] as int) + 65536 * (b[2] as int) + 16777216 * (b[3] as int)
}

/// The eight bytes of `n`, least significant first.
#[verifier::opaque]
pub open spec fn le64(n: u64) -> Seq<u8> {
    le32((n % 4294967296) as u32) + le32((n / 4294967296) as u32)
}

/// The number whose little-endian bytes are the first eight of `b`.
#[verifier::opaque]
pub open spec fn le64_value(b: Seq<u8>) -> int
    recommends
        b.len() >= 8,
{
    le32_value(b.subrange(0, 4)) + 4294967296 * le32_value(b.subrange(4, 8))
}

/// Reading back what `le32` wrote gives the number.
pub proof fn lemma_le32_round_trip(n: u32, rest: Seq<u8>)
    ensures
        le32(n).len() == 4,
        le32_value(le32(n) + rest) == n,
{
    reveal(le32);
    reveal(le32_value);
    let b = le32(n) + rest;
    assert(b[0] == (n % 256) as u8);
    assert(b[1] == (n / 256 % 256) as u8);
    assert(b[2] == (n / 65536 % 256) as u8);
    assert(b[3] == (n / 16777216) as u8);
}

/// Four bytes are the `le32` of the number they spell.
pub proof fn lemma_le32_canonical(b: Seq<u8>)
    requires
        b.len() >= 4,
    ensures
        0 <= le32_value(b) <= u32::MAX,
        le32(le32_value(b) as u32) == b.subrange(0, 4),
{
    reveal(le32);
    reveal(le32_value);
    let n = le32_value(b);
    let (b0, b1, b2, b3) = (b[0] as int, b[1] as int, b[2] as int, b[3] as int);
    let q1 = b1 + 256 * b2 + 65536 * b3;
    let q2 = b2 + 256 * b3;
    assert(n == 256 * q1 + b0);
    assert(n == 65536 * q2 + (b0 + 256 * b1));
    assert(n == 16777216 * b3 + (b0 + 256 * b1 + 65536 * b2));
    assert(n % 256 == b0 && n / 256 == q1);
    assert(q1 % 256 == b1);
    assert(n / 65536 == q2);
    assert(q2 % 256 == b2);
    assert(n / 16777216 == b3);
    assert(le32(n as u32) =~= b.subrange(0, 4));
}

/// The number that bytes spell depends on their first four only.
pub proof fn lemma_le32_value_prefix(a: Seq<u8>, b: Seq<u8>)
    requires
        a.len() >= 4,
        b.len() >= 4,
        a.subrange(0, 4) == b.subrange(0, 4),
    ensures
        le32_value(a) == le32_value(b),
{
    reveal(le32_value);
    assert(forall|i: int| 0 <= i < 4 ==> a[i] == a.subrange(0, 4)[i]);
    assert(forall|i: int| 0 <= i < 4 ==> b[i] == b.subrange(0, 4)[i]);
}

/// Four zero bytes spell zero, and they are the bytes of zero.
pub proof fn lemma_le32_zero(b: Seq<u8>)
    requires
        b.len() >= 4,
    ensures
        le32_value(b) == 0 <==> b.subrange(0, 4) == seq![0u8, 0u8, 0u8, 0u8],
        le32(0) == seq![0u8, 0u8, 0u8, 0u8],
{
    reveal(le32);
    reveal(le32_value);
    let z = seq![0u8, 0u8, 0u8, 0u8];
    assert(le32(0) =~= z);
    if le32_value(b) == 0 {
        assert(b.subrange(0, 4) =~= z);
    }
    if b.subrange(0, 4) == z {
        assert(forall|i: int| 0 <= i < 4 ==> b[i] == b.subrange(0, 4)[i]);
    }
}

/// Reading back what `le64` wrote gives the number.
pub proof fn lemma_le64_round_trip(n: u64, rest: Seq<u8>)
    ensures
        le64(n).len() == 8,
        le64_value(le64(n) + rest) == n,
{
    reveal(le64);
    reveal(le64_value);
    let lo = (n % 4294967296) as u32;
    let hi = (n / 4294967296) as u32;
    let b = le64(n) + rest;
    lemma_le32_round_trip(lo, Seq::empty());
    lemma_le32_round_trip(hi, Seq::empty());
    assert(b.subrange(0, 4) =~= le32(lo) + Seq::<u8>::empty());
    assert(b.subrange(4, 8) =~= le32(hi) + Seq::<u8>::empty());
}

/// A number below 2^64 splits into its low and high 32-bit halves.
proof fn lemma_halves(low: int, high: int)
    requires
        0 <= low <= u32::MAX,
        0 <= high <= u32::MAX,
    ensures
        0 <= low + 4294967296 * high <= u64::MAX,
        (low + 4294967296 * high) % 4294967296 == low,
        (low + 4294967296 * high) / 4294967296 == high,
{
}

/// Eight bytes are the `le64` of the number they spell.
pub proof fn lemma_le64_canonical(b: Seq<u8>)
    requires
        b.len() >= 8,
    ensures
        0 <= le64_value(b) <= u64::MAX,
        le64(le64_value(b) as u64) == b.subrange(0, 8),
{
    reveal(le64);
    reveal(le64_value);
    let lo = b.subrange(0, 4);
    let hi = b.subrange(4, 8);
    lemma_le32_canonical(lo);
    lemma_le32_canonical(hi);
    lemma_halves(le32_value(lo), le32_value(hi));
    let n = le64_value(b) as u64;
    assert(lo.subrange(0, 4) =~= lo);
    assert(hi.subrange(0, 4) =~= hi);
    assert(le32((n % 4294967296) as u32) == lo);
    assert(le32((n / 4294967296) as u32) == hi);
    assert(lo + hi =~= b.subrange(0, 8));
}

/// Appends the little-endian bytes of `n`.
pub fn write_u32(n: u32, out: &mut Vec<u8>)
    ensures
        final(out)@ == old(out)@ + le32(n),
{
    out.push((n % 256) as u8);
    out.push((n / 256 % 256) as u8);
    out.push((n / 65536 % 256) as u8);
    out.push((n / 16777216) as u8);
    proof {
        reveal(le32);
    }
    assert(out@ =~= old(out)@ + le32(n));
}

/// Reads a little-endian `u32` from the front of `bytes`.
pub fn read_u32(bytes: &[u8]) -> (r: Option<u32>)
    ensures
        bytes@.len() < 4 ==> r is None,
        bytes@.len() >= 4 ==> r == Some(le32_value(bytes@) as u32)
            && 0 <= le32_value(bytes@) <= u32::MAX,
{
    if bytes.len() < 4 {
        return None;
    }
    proof {
        reveal(le32_value);
    }
    let b0: u32 = bytes[0] as u32;
    let b1: u32 = bytes[1] as u32;
    let b2: u32 = bytes[2] as u32;
    let b3: u32 = bytes[3] as u32;
    Some(b0 + 256 * b1 + 65536 * b2 + 16777216 * b3)
}

/// Appends the little-endian bytes of `n`.
pub fn write_u64(n: u64, out: &mut Vec<u8>)
    ensures
        final(out)@ == old(out)@ + le64(n),
{
    write_u32((n % 4294967296) as u32, out);
    write_u32((n / 4294967296) as u32, out);
    proof {
        reveal(le64);
    }
    assert(out@ =~= old(out)@ + le64(n));
}

/// Reads a little-endian `u64` from the front of `bytes`.
pub fn read_u64(bytes: &[u8]) -> (r: Option<u64>)
    ensures
        bytes@.len() < 8 ==> r is None,
        bytes@.len() >= 8 ==> r == Some(le64_value(bytes@) as u64)
            && 0 <= le64_value(bytes@) <= u64::MAX,
{
    if bytes.len() < 8 {
        return None;
    }
    proof {
        reveal(le64_value);
    }
    let lo = read_u32(slice_subrange(bytes, 0, 4));
    let hi = read_u32(slice_subrange(bytes, 4, 8));
    match (lo, hi) {
        (Some(lo), Some(hi)) => Some(lo as u64 + 4294967296 * (hi as u64)),
        _ => None,
    }
}

/// The encoding of a string: its UTF-8 byte count as a `u64`, then the bytes.
pub open spec fn wire_str(s: Seq<char>) -> Seq<u8> {
    le64(encode_utf8(s).len() as u64) + encode_utf8(s)
}

/// The string at the front of `bytes` and the number of bytes it takes,
/// or `None` where the bytes are too few or are not UTF-8.
pub open spec fn parse_str(bytes: Seq<u8>) -> Option<(Seq<char>, int)> {
    if bytes.len() < 8 {
        None
    } else {
        let n = le64_value(bytes);
        if bytes.len() - 8 < n {
            None
        } else {
            let body = bytes.subrange(8, 8 + n);
            if valid_utf8(body) {
                Some((decode_utf8(body), 8 + n))
            } else {
                None
            }
        }
    }
}

/// A string whose byte count fits the length prefix.
pub open spec fn str_encodable(s: Seq<char>) -> bool {
    encode_utf8(s).len() <= u64::MAX
}

/// Parsing the encoding of a string gives the string back, whatever follows it.
pub proof fn lemma_parse_wire_str(s: Seq<char>, rest: Seq<u8>)
    requires
        str_encodable(s),
    ensures
        parse_str(wire_str(s) + rest) == Some((s, wire_str(s).len() as int)),
{
    broadcast use vstd::utf8::encode_utf8_valid_utf8, vstd::utf8::encode_utf8_decode_utf8;

    let body = encode_utf8(s);
    let n = body.len() as u64;
    let all = wire_str(s) + rest;
    lemma_le64_round_trip(n, body + rest);
    assert(all =~= le64(n) + (body + rest));
    assert(all.subrange(8, 8 + n) =~= body);
}

/// Whatever parses as a string is that string's encoding.
pub proof fn lemma_wire_parse_str(bytes: Seq<u8>)
    ensures
        parse_str(bytes) matches Some((s, n)) ==> 8 <= n <= bytes.len() && str_encodable(s)
            && wire_str(s) == bytes.subrange(0, n),
{
    broadcast use vstd::utf8::decode_utf8_encode_utf8;

    if let Some((s, n)) = parse_str(bytes) {
        let len = le64_value(bytes);
        let body = bytes.subrange(8, 8 + len);
        lemma_le64_canonical(bytes);
        assert(encode_utf8(s) == body);
        assert(wire_str(s) =~= bytes.subrange(0, n));
    }
}

/// `String::from_utf8`: succeeds exactly on well-formed UTF-8 and then
/// holds the characters that the bytes encode.
#[verifier::external_body]
pub(crate) fn string_from_utf8(bytes: Vec<u8>) -> (r: Option<String>)
    ensures
        r is Some <==> valid_utf8(bytes@),
        r matches Some(s) ==> s@ == decode_utf8(bytes@),
{
    String::from_utf8(bytes).ok()
}

/// Appends the encoding of `s`.
pub fn write_str(s: &str, out: &mut Vec<u8>)
    ensures
        str_encodable(s@),
        final(out)@ == old(out)@ + wire_str(s@),
{
    let body = s.as_bytes();
    write_u64(body.len() as u64, out);
    out.extend_from_slice(body);
    assert(out@ =~= old(out)@ + wire_str(s@));
}

/// Reads a string from the front of `bytes`; the second component is the
/// number of bytes it took.
pub fn read_str(bytes: &[u8]) -> (r: Option<(String, usize)>)
    ensures
        match r {
            Some((s, n)) => parse_str(bytes@) == Some((s@, n as int)),
            None => parse_str(bytes@) is None,
        },
{
    let n = match read_u64(bytes) {
        Some(n) => n,
        None => { return None; },
    };
    if n > (bytes.len() - 8) as u64 {
        return None;
    }
    let end: usize = 8 + n as usize;
    let body = slice_to_vec(slice_subrange(bytes, 8, end));
    match string_from_utf8(body) {
        Some(s) => Some((s, end)),
        None => None,
    }
}

} // verus!
