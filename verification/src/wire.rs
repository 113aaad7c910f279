//! Low-level byte-level primitives of the wire protocol: fixed-width
//! little-endian integer fields, count-prefixed byte sequences, and the
//! length-prefix framing that delimits one logical message on the stream.

use vstd::prelude::*;

verus! {

/// Decode-time structural failure: bad discriminant, count/length mismatch,
/// truncated buffer, or trailing bytes inside one framed message.
#[derive(Clone, Copy, Debug, PartialEq, Eq, Structural)]
pub enum WireError {
    MalformedMessage,
}

/// The bytes of `v` in little-endian order, least significant byte first.
pub open spec fn u32_le_bytes(v: u32) -> Seq<u8> {
    seq![
        (v & 0xff) as u8,
        ((v >> 8) & 0xff) as u8,
        ((v >> 16) & 0xff) as u8,
        ((v >> 24) & 0xff) as u8,
    ]
}

/// The `u32` whose little-endian bytes are `b0 b1 b2 b3`.
pub open spec fn u32_from_le(b0: u8, b1: u8, b2: u8, b3: u8) -> u32 {
    (b0 as u32) | ((b1 as u32) << 8) | ((b2 as u32) << 16) | ((b3 as u32) << 24)
}

/// The bytes of `v` in little-endian order.
pub open spec fn u16_le_bytes(v: u16) -> Seq<u8> {
    seq![(v & 0xff) as u8, ((v >> 8) & 0xff) as u8]
}

/// The `u16` whose little-endian bytes are `b0 b1`.
pub open spec fn u16_from_le(b0: u8, b1: u8) -> u16 {
    (b0 as u16) | ((b1 as u16) << 8)
}

pub proof fn lemma_u32_le_round_trip(v: u32)
    ensures
        u32_from_le(
            (v & 0xff) as u8,
            ((v >> 8) & 0xff) as u8,
            ((v >> 16) & 0xff) as u8,
            ((v >> 24) & 0xff) as u8,
        ) == v,
{
    assert(((v & 0xff) as u8 as u32) | (((v >> 8) & 0xff) as u8 as u32) << 8
        | (((v >> 16) & 0xff) as u8 as u32) << 16 | (((v >> 24) & 0xff) as u8 as u32) << 24
        == v) by (bit_vector);
}

pub proof fn lemma_u16_le_round_trip(v: u16)
    ensures
        u16_from_le((v & 0xff) as u8, ((v >> 8) & 0xff) as u8) == v,
{
    assert(((v & 0xff) as u8 as u16) | (((v >> 8) & 0xff) as u8 as u16) << 8 == v)
        by (bit_vector);
}

/// Reads one byte at offset `i`; `None` when the buffer is exhausted.
pub open spec fn parse_u8(b: Seq<u8>, i: int) -> Option<(u8, int)> {
    if 0 <= i && i + 1 <= b.len() {
        Some((b[i], i + 1))
    } else {
        None
    }
}

/// Reads a little-endian `u32` at offset `i`.
pub open spec fn parse_u32(b: Seq<u8>, i: int) -> Option<(u32, int)> {
    if 0 <= i && i + 4 <= b.len() {
        Some((u32_from_le(b[i], b[i + 1], b[i + 2], b[i + 3]), i + 4))
    } else {
        None
    }
}

/// Reads `n` raw bytes at offset `i`.
pub open spec fn parse_bytes(b: Seq<u8>, i: int, n: int) -> Option<(Seq<u8>, int)> {
    if 0 <= i && 0 <= n && i + n <= b.len() {
        Some((b.subrange(i, i + n), i + n))
    } else {
        None
    }
}

/// The bracketing of three concatenated sequences does not matter.
pub proof fn lemma_concat3<T>(a: Seq<T>, b: Seq<T>, c: Seq<T>)
    ensures
        a + (b + c) == (a + b) + c,
{
    assert(a + (b + c) =~= (a + b) + c);
}

/// The bracketing of four concatenated sequences does not matter.
pub proof fn lemma_concat4<T>(a: Seq<T>, b: Seq<T>, c: Seq<T>, d: Seq<T>)
    ensures
        a + (b + c) + d == (a + b) + c + d,
        (a + b) + c + d == a + b + (c + d),
        a + (b + c + d) == (a + b) + c + d,
{
    assert(a + (b + c) + d =~= (a + b) + c + d);
    assert((a + b) + c + d =~= a + b + (c + d));
    assert(a + (b + c + d) =~= (a + b) + c + d);
}

/// A byte written at the end of `pre` parses back from there, whatever follows.
pub proof fn lemma_parse_u8_at(pre: Seq<u8>, v: u8, post: Seq<u8>)
    ensures
        parse_u8(pre + seq![v] + post, pre.len() as int) == Some((v, pre.len() as int + 1)),
{
    let b = pre + seq![v] + post;
    assert(b[pre.len() as int] == v);
}

/// A little-endian `u32` written at the end of `pre` parses back from there.
pub proof fn lemma_parse_u32_at(pre: Seq<u8>, v: u32, post: Seq<u8>)
    ensures
        parse_u32(pre + u32_le_bytes(v) + post, pre.len() as int) == Some((v, pre.len() as int + 4)),
{
    let b = pre + u32_le_bytes(v) + post;
    let i = pre.len() as int;
    assert(b[i] == (v & 0xff) as u8);
    assert(b[i + 1] == ((v >> 8) & 0xff) as u8);
    assert(b[i + 2] == ((v >> 16) & 0xff) as u8);
    assert(b[i + 3] == ((v >> 24) & 0xff) as u8);
    lemma_u32_le_round_trip(v);
}

/// Raw bytes written at the end of `pre` parse back from there.
pub proof fn lemma_parse_bytes_at(pre: Seq<u8>, data: Seq<u8>, post: Seq<u8>)
    ensures
        parse_bytes(pre + data + post, pre.len() as int, data.len() as int)
            == Some((data, pre.len() as int + data.len() as int)),
{
    let b = pre + data + post;
    assert(b.subrange(pre.len() as int, pre.len() as int + data.len() as int) =~= data);
}

/// Appends one byte.
pub fn write_u8(out: &mut Vec<u8>, v: u8)
    ensures
        final(out)@ == old(out)@ + seq![v],
{
    out.push(v);
}

/// Appends the four little-endian bytes of `v`.
pub fn write_u32(out: &mut Vec<u8>, v: u32)
    ensures
        final(out)@ == old(out)@ + u32_le_bytes(v),
{
    out.push((v & 0xff) as u8);
    out.push(((v >> 8) & 0xff) as u8);
    out.push(((v >> 16) & 0xff) as u8);
    out.push(((v >> 24) & 0xff) as u8);
    assert(out@ =~= old(out)@ + u32_le_bytes(v));
}

/// Appends every byte of `data`.
pub fn write_all(out: &mut Vec<u8>, data: &Vec<u8>)
    ensures
        final(out)@ == old(out)@ + data@,
{
    let ghost base = out@;
    let mut k: usize = 0;
    while k < data.len()
        invariant
            k <= data@.len(),
            out@ =~= base + data@.subrange(0, k as int),
        decreases data@.len() - k,
    {
        out.push(data[k]);
        k = k + 1;
    }
    assert(out@ =~= base + data@);
}

/// Reads one byte at `*i`, advancing the offset, exactly as `parse_u8`.
pub fn read_u8(b: &[u8], i: &mut usize) -> (r: Result<u8, WireError>)
    ensures
        match parse_u8(b@, *old(i) as int) {
            Some((v, j)) => r == Ok::<u8, WireError>(v) && *final(i) == j,
            None => r == Err::<u8, WireError>(WireError::MalformedMessage) && *final(i) == *old(i),
        },
{
    if *i < b.len() {
        let v = b[*i];
        *i = *i + 1;
        Ok(v)
    } else {
        Err(WireError::MalformedMessage)
    }
}

/// Reads a little-endian `u32` at `*i`, advancing the offset, exactly as `parse_u32`.
pub fn read_u32(b: &[u8], i: &mut usize) -> (r: Result<u32, WireError>)
    ensures
        match parse_u32(b@, *old(i) as int) {
            Some((v, j)) => r == Ok::<u32, WireError>(v) && *final(i) == j,
            None => r == Err::<u32, WireError>(WireError::MalformedMessage) && *final(i) == *old(i),
        },
{
    if b.len() >= 4 && *i <= b.len() - 4 {
        let b0 = b[*i];
        let b1 = b[*i + 1];
        let b2 = b[*i + 2];
        let b3 = b[*i + 3];
        *i = *i + 4;
        Ok((b0 as u32) | ((b1 as u32) << 8) | ((b2 as u32) << 16) | ((b3 as u32) << 24))
    } else {
        Err(WireError::MalformedMessage)
    }
}

/// Reads `n` raw bytes at `*i`, advancing the offset, exactly as `parse_bytes`.
pub fn read_bytes(b: &[u8], i: &mut usize, n: usize) -> (r: Result<Vec<u8>, WireError>)
    ensures
        match parse_bytes(b@, *old(i) as int, n as int) {
            Some((v, j)) => r matches Ok(out) && out@ == v && *final(i) == j,
            None => r == Err::<Vec<u8>, WireError>(WireError::MalformedMessage)
                && *final(i) == *old(i),
        },
{
    if n <= b.len() && *i <= b.len() - n {
        let mut out: Vec<u8> = Vec::new();
        let end = *i + n;
        let mut k = *i;
        while k < end
            invariant
                *i <= k <= end <= b@.len(),
                out@ =~= b@.subrange(*i as int, k as int),
            decreases end - k,
        {
            out.push(b[k]);
            k = k + 1;
        }
        assert(out@ =~= b@.subrange(*i as int, *i + n as int));
        *i = end;
        Ok(out)
    } else {
        Err(WireError::MalformedMessage)
    }
}

/// Longest frame payload the two-byte length prefix can describe.
pub open spec fn max_frame_len() -> int {
    0xffff
}

/// Prefixes `payload` with its two-byte little-endian length, so that a
/// stream reader can reassemble exactly one logical message regardless of
/// how the transport splits reads and writes.
pub fn frame_message(payload: &Vec<u8>) -> (r: Vec<u8>)
    requires
        payload@.len() <= max_frame_len(),
    ensures
        r@ == u16_le_bytes(payload@.len() as u16) + payload@,
        r@.len() == payload@.len() + 2,
{
    let n = payload.len() as u16;
    let mut out: Vec<u8> = Vec::new();
    out.push((n & 0xff) as u8);
    out.push(((n >> 8) & 0xff) as u8);
    let mut k: usize = 0;
    while k < payload.len()
        invariant
            k <= payload@.len(),
            out@ =~= u16_le_bytes(payload@.len() as u16) + payload@.subrange(0, k as int),
        decreases payload@.len() - k,
    {
        out.push(payload[k]);
        k = k + 1;
    }
    assert(out@ =~= u16_le_bytes(payload@.len() as u16) + payload@);
    out
}

/// Recovers the payload length from the two bytes of a frame header.
pub fn frame_length(b0: u8, b1: u8) -> (n: u16)
    ensures
        n == u16_from_le(b0, b1),
{
    (b0 as u16) | ((b1 as u16) << 8)
}

/// A framed message is its header followed by its payload; reading the
/// header back yields the payload's length.
pub proof fn lemma_frame_round_trip(payload: Seq<u8>)
    requires
        payload.len() <= max_frame_len(),
    ensures
        ({
            let framed = u16_le_bytes(payload.len() as u16) + payload;
            &&& u16_from_le(framed[0], framed[1]) == payload.len()
            &&& framed.subrange(2, framed.len() as int) == payload
        }),
{
    let n = payload.len() as u16;
    lemma_u16_le_round_trip(n);
    let framed = u16_le_bytes(n) + payload;
    assert(framed.subrange(2, framed.len() as int) =~= payload);
}

} // verus!
