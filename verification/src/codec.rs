//! Byte encodings: fixed-width big-endian integers and length-prefixed text.

use vstd::prelude::*;
use vstd::slice::{slice_subrange, slice_to_vec};
use vstd::utf8::{
    decode_utf8, decode_utf8_encode_utf8, encode_utf8, encode_utf8_decode_utf8,
    encode_utf8_valid_utf8, valid_utf8,
};

verus! {

/// Width in bytes of an encoded 64-bit integer.
pub const WORD: usize = 8;

/// The eight bytes of `x`, most significant first.
pub open spec fn be_bytes(x: u64) -> Seq<u8> {
    seq![
        (x >> 56) as u8,
        ((x >> 48) & 0xff) as u8,
        ((x >> 40) & 0xff) as u8,
        ((x >> 32) & 0xff) as u8,
        ((x >> 24) & 0xff) as u8,
        ((x >> 16) & 0xff) as u8,
        ((x >> 8) & 0xff) as u8,
        (x & 0xff) as u8,
    ]
}

/// The integer whose big-endian bytes are the first eight of `s`.
pub open spec fn be_value(s: Seq<u8>) -> u64
    recommends
        s.len() >= 8,
{
    (s[0] as u64) << 56 | (s[1] as u64) << 48 | (s[2] as u64) << 40 | (s[3] as u64) << 32 | (
    s[4] as u64) << 24 | (s[5] as u64) << 16 | (s[6] as u64) << 8 | (s[7] as u64)
}

/// Decoding undoes encoding.
pub proof fn lemma_be_value_of_bytes(x: u64)
    ensures
        be_bytes(x).len() == 8,
        be_value(be_bytes(x)) == x,
{
    assert(x == (((x >> 56) as u8) as u64) << 56 | ((((x >> 48) & 0xff) as u8) as u64) << 48 | ((((x
        >> 40) & 0xff) as u8) as u64) << 40 | ((((x >> 32) & 0xff) as u8) as u64) << 32 | ((((x
        >> 24) & 0xff) as u8) as u64) << 24 | ((((x >> 16) & 0xff) as u8) as u64) << 16 | ((((x
        >> 8) & 0xff) as u8) as u64) << 8 | (((x & 0xff) as u8) as u64)) by (bit_vector);
}

/// Encoding undoes decoding on sequences of exactly eight bytes.
pub proof fn lemma_be_bytes_of_value(s: Seq<u8>)
    requires
        s.len() == 8,
    ensures
        be_bytes(be_value(s)) == s,
{
    let (a, b, c, d, e, f, g, h) = (s[0], s[1], s[2], s[3], s[4], s[5], s[6], s[7]);
    let x = be_value(s);
    assert(x == (a as u64) << 56 | (b as u64) << 48 | (c as u64) << 40 | (d as u64) << 32 | (
    e as u64) << 24 | (f as u64) << 16 | (g as u64) << 8 | (h as u64));
    assert({
        &&& (x >> 56) as u8 == a
        &&& ((x >> 48) & 0xff) as u8 == b
        &&& ((x >> 40) & 0xff) as u8 == c
        &&& ((x >> 32) & 0xff) as u8 == d
        &&& ((x >> 24) & 0xff) as u8 == e
        &&& ((x >> 16) & 0xff) as u8 == f
        &&& ((x >> 8) & 0xff) as u8 == g
        &&& (x & 0xff) as u8 == h
    }) by (bit_vector)
        requires
            x == (a as u64) << 56 | (b as u64) << 48 | (c as u64) << 40 | (d as u64) << 32 | (
            e as u64) << 24 | (f as u64) << 16 | (g as u64) << 8 | (h as u64),
    ;
    assert(be_bytes(x) =~= s);
}

/// Two integers with the same encoding are the same integer.
pub proof fn lemma_be_bytes_injective(x: u64, y: u64)
    requires
        be_bytes(x) == be_bytes(y),
    ensures
        x == y,
{
    lemma_be_value_of_bytes(x);
    lemma_be_value_of_bytes(y);
}

/// Appends the big-endian bytes of `x` to `out`.
pub fn put_u64(out: &mut Vec<u8>, x: u64)
    ensures
        final(out)@ == old(out)@ + be_bytes(x),
{
    out.push((x >> 56) as u8);
    out.push(((x >> 48) & 0xff) as u8);
    out.push(((x >> 40) & 0xff) as u8);
    out.push(((x >> 32) & 0xff) as u8);
    out.push(((x >> 24) & 0xff) as u8);
    out.push(((x >> 16) & 0xff) as u8);
    out.push(((x >> 8) & 0xff) as u8);
    out.push((x & 0xff) as u8);
    assert(out@ =~= old(out)@ + be_bytes(x));
}

/// The big-endian encoding of `x`.
pub fn encode_u64(x: u64) -> (out: Vec<u8>)
    ensures
        out@ == be_bytes(x),
{
    let mut out: Vec<u8> = Vec::new();
    put_u64(&mut out, x);
    assert(out@ =~= be_bytes(x));
    out
}

/// Reads the integer encoded in the eight bytes of `bytes` that start at `pos`.
fn get_u64(bytes: &[u8], pos: usize) -> (x: u64)
    requires
        pos + 8 <= bytes@.len(),
    ensures
        x == be_value(bytes@.subrange(pos as int, pos + 8)),
{
    let x: u64 = (bytes[pos] as u64) << 56 | (bytes[pos + 1] as u64) << 48 | (bytes[pos
        + 2] as u64) << 40 | (bytes[pos + 3] as u64) << 32 | (bytes[pos + 4] as u64) << 24 | (
    bytes[pos + 5] as u64) << 16 | (bytes[pos + 6] as u64) << 8 | (bytes[pos + 7] as u64);
    x
}

/// Decodes a stored integer: `Some` exactly when `bytes` has the width of one.
pub fn decode_u64(bytes: &[u8]) -> (r: Option<u64>)
    ensures
        r is Some <==> bytes@.len() == 8,
        r is Some ==> be_bytes(r->0) == bytes@,
        r is Some ==> r->0 == be_value(bytes@),
{
    if bytes.len() == WORD {
        let x = get_u64(bytes, 0);
        proof {
            assert(bytes@.subrange(0, 8) =~= bytes@);
            lemma_be_bytes_of_value(bytes@);
        }
        Some(x)
    } else {
        None
    }
}

/// The framed form of a text: the length of its UTF-8 bytes as a big-endian
/// integer, then those bytes.
pub open spec fn text_bytes(s: Seq<char>) -> Seq<u8> {
    be_bytes(encode_utf8(s).len() as u64) + encode_utf8(s)
}

/// Whether the UTF-8 length of `s` can be written in the length prefix.
pub open spec fn text_fits(s: Seq<char>) -> bool {
    encode_utf8(s).len() <= u64::MAX
}

/// The text framed at `pos` in `bytes`, with the position just behind it;
/// `None` where the prefix is cut short, the body runs past the end, or the
/// body is not UTF-8.
pub open spec fn text_at(bytes: Seq<u8>, pos: int) -> Option<(Seq<char>, int)> {
    if 0 <= pos && pos + 8 <= bytes.len() {
        let end = pos + 8 + be_value(bytes.subrange(pos, pos + 8));
        if end <= bytes.len() && valid_utf8(bytes.subrange(pos + 8, end)) {
            Some((decode_utf8(bytes.subrange(pos + 8, end)), end))
        } else {
            None
        }
    } else {
        None
    }
}

/// A framed text is read back wherever it stands, whatever follows it.
pub proof fn lemma_text_at_of_bytes(before: Seq<u8>, s: Seq<char>, after: Seq<u8>)
    requires
        text_fits(s),
    ensures
        text_at(before + text_bytes(s) + after, before.len() as int) == Some(
            (s, (before.len() + text_bytes(s).len()) as int),
        ),
        text_bytes(s).len() == 8 + encode_utf8(s).len(),
{
    let body = encode_utf8(s);
    let n = body.len() as u64;
    let all = before + text_bytes(s) + after;
    let pos = before.len() as int;
    lemma_be_value_of_bytes(n);
    assert(all.subrange(pos, pos + 8) =~= be_bytes(n));
    assert(all.subrange(pos + 8, pos + 8 + n) =~= body);
    encode_utf8_valid_utf8(s);
    encode_utf8_decode_utf8(s);
}

/// What `text_at` reads is the framed form of the text it returns.
pub proof fn lemma_text_bytes_of_at(bytes: Seq<u8>, pos: int)
    requires
        text_at(bytes, pos) is Some,
    ensures
        ({
            let (s, end) = text_at(bytes, pos)->0;
            &&& text_fits(s)
            &&& pos + 8 <= end <= bytes.len()
            &&& bytes.subrange(pos, end) == text_bytes(s)
        }),
{
    let (s, end) = text_at(bytes, pos)->0;
    let head = bytes.subrange(pos, pos + 8);
    let body = bytes.subrange(pos + 8, end);
    decode_utf8_encode_utf8(body);
    lemma_be_bytes_of_value(head);
    assert(bytes.subrange(pos, end) =~= head + body);
}

/// Appends the framed form of `s` to `out`.
pub fn put_text(out: &mut Vec<u8>, s: &str)
    ensures
        final(out)@ == old(out)@ + text_bytes(s@),
        text_fits(s@),
{
    let body = s.as_bytes();
    put_u64(out, body.len() as u64);
    let mut i: usize = 0;
    while i < body.len()
        invariant
            i <= body@.len(),
            body@ == encode_utf8(s@),
            out@ == old(out)@ + be_bytes(body@.len() as u64) + body@.subrange(0, i as int),
        decreases body@.len() - i,
    {
        out.push(body[i]);
        i = i + 1;
        assert(body@.subrange(0, i as int) =~= body@.subrange(0, i - 1).push(body@[i - 1]));
        assert(out@ =~= old(out)@ + be_bytes(body@.len() as u64) + body@.subrange(0, i as int));
    }
    assert(body@.subrange(0, i as int) =~= body@);
    assert(out@ =~= old(out)@ + text_bytes(s@));
}

/// Calls `String::from_utf8`. Trusted: the call succeeds exactly on byte
/// strings that are well-formed UTF-8, and the string it then returns holds
/// the characters that those bytes encode.
#[verifier::external_body]
fn string_from_utf8(bytes: Vec<u8>) -> (r: Option<String>)
    ensures
        r is Some <==> valid_utf8(bytes@),
        r is Some ==> r->0@ == decode_utf8(bytes@),
{
    match String::from_utf8(bytes) {
        Ok(s) => Some(s),
        Err(_) => None,
    }
}

/// Reads the text framed at `pos` in `bytes` and the position behind it.
pub fn get_text(bytes: &[u8], pos: usize) -> (r: Option<(String, usize)>)
    ensures
        (match r {
            Some((s, end)) => text_at(bytes@, pos as int) == Some((s@, end as int)),
            None => text_at(bytes@, pos as int) is None,
        }),
{
    if bytes.len() < WORD || pos > bytes.len() - WORD {
        return None;
    }
    let n = get_u64(bytes, pos);
    let start = pos + WORD;
    if n > (bytes.len() - start) as u64 {
        return None;
    }
    let end = start + n as usize;
    let body = slice_to_vec(slice_subrange(bytes, start, end));
    match string_from_utf8(body) {
        Some(s) => Some((s, end)),
        None => None,
    }
}

} // verus!
