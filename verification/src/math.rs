//! Vector components carried by the protocol. Every component travels as a
//! 32-bit IEEE-754 single-precision field; the core never computes with the
//! values, so it carries each component as its raw bit pattern (`u32`) and
//! leaves the numeric interpretation to the rendering and input layers.

use vstd::prelude::*;

use crate::wire::{
    lemma_parse_u32_at, parse_u32, read_u32, u32_le_bytes, write_u32, WireError,
};

verus! {

/// Bit pattern of single-precision one, the unit component of the default
/// basis vectors.
pub const FLOAT_ONE_BITS: u32 = 0x3f80_0000;

/// A two-component vector of raw IEEE-754 bit patterns.
#[derive(Clone, Copy, Debug, PartialEq, Eq, Structural)]
pub struct Vec2Bits {
    pub x: u32,
    pub y: u32,
}

/// A three-component vector of raw IEEE-754 bit patterns.
#[derive(Clone, Copy, Debug, PartialEq, Eq, Structural)]
pub struct Vec3Bits {
    pub x: u32,
    pub y: u32,
    pub z: u32,
}

/// A four-component value of raw IEEE-754 bit patterns: an orientation,
/// carried either as a quaternion or as four raw floats.
#[derive(Clone, Copy, Debug, PartialEq, Eq, Structural)]
pub struct Vec4Bits {
    pub x: u32,
    pub y: u32,
    pub z: u32,
    pub w: u32,
}

impl Vec2Bits {
    pub fn new(x: u32, y: u32) -> (r: Self)
        ensures
            r == (Vec2Bits { x, y }),
    {
        Vec2Bits { x, y }
    }
}

impl Vec3Bits {
    pub fn new(x: u32, y: u32, z: u32) -> (r: Self)
        ensures
            r == (Vec3Bits { x, y, z }),
    {
        Vec3Bits { x, y, z }
    }

    /// The all-zero vector.
    pub fn zero() -> (r: Self)
        ensures
            r == (Vec3Bits { x: 0, y: 0, z: 0 }),
    {
        Vec3Bits { x: 0, y: 0, z: 0 }
    }

    /// The unit vector along the forward axis.
    pub fn forward() -> (r: Self)
        ensures
            r == (Vec3Bits { x: 0, y: 0, z: FLOAT_ONE_BITS }),
    {
        Vec3Bits { x: 0, y: 0, z: FLOAT_ONE_BITS }
    }

    /// The unit vector along the right axis.
    pub fn right() -> (r: Self)
        ensures
            r == (Vec3Bits { x: FLOAT_ONE_BITS, y: 0, z: 0 }),
    {
        Vec3Bits { x: FLOAT_ONE_BITS, y: 0, z: 0 }
    }
}

impl Vec4Bits {
    pub fn new(x: u32, y: u32, z: u32, w: u32) -> (r: Self)
        ensures
            r == (Vec4Bits { x, y, z, w }),
    {
        Vec4Bits { x, y, z, w }
    }

    /// The all-zero value.
    pub fn zero() -> (r: Self)
        ensures
            r == (Vec4Bits { x: 0, y: 0, z: 0, w: 0 }),
    {
        Vec4Bits { x: 0, y: 0, z: 0, w: 0 }
    }
}

pub open spec fn enc_vec2(v: Vec2Bits) -> Seq<u8> {
    u32_le_bytes(v.x) + u32_le_bytes(v.y)
}

pub open spec fn enc_vec3(v: Vec3Bits) -> Seq<u8> {
    u32_le_bytes(v.x) + u32_le_bytes(v.y) + u32_le_bytes(v.z)
}

pub open spec fn enc_vec4(v: Vec4Bits) -> Seq<u8> {
    u32_le_bytes(v.x) + u32_le_bytes(v.y) + u32_le_bytes(v.z) + u32_le_bytes(v.w)
}

pub open spec fn parse_vec2(b: Seq<u8>, i: int) -> Option<(Vec2Bits, int)> {
    match parse_u32(b, i) {
        None => None,
        Some((x, i)) => match parse_u32(b, i) {
            None => None,
            Some((y, i)) => Some((Vec2Bits { x, y }, i)),
        },
    }
}

pub open spec fn parse_vec3(b: Seq<u8>, i: int) -> Option<(Vec3Bits, int)> {
    match parse_u32(b, i) {
        None => None,
        Some((x, i)) => match parse_u32(b, i) {
            None => None,
            Some((y, i)) => match parse_u32(b, i) {
                None => None,
                Some((z, i)) => Some((Vec3Bits { x, y, z }, i)),
            },
        },
    }
}

pub open spec fn parse_vec4(b: Seq<u8>, i: int) -> Option<(Vec4Bits, int)> {
    match parse_u32(b, i) {
        None => None,
        Some((x, i)) => match parse_u32(b, i) {
            None => None,
            Some((y, i)) => match parse_u32(b, i) {
                None => None,
                Some((z, i)) => match parse_u32(b, i) {
                    None => None,
                    Some((w, i)) => Some((Vec4Bits { x, y, z, w }, i)),
                },
            },
        },
    }
}

pub fn write_vec2(out: &mut Vec<u8>, v: Vec2Bits)
    ensures
        final(out)@ == old(out)@ + enc_vec2(v),
{
    write_u32(out, v.x);
    write_u32(out, v.y);
    assert(out@ =~= old(out)@ + enc_vec2(v));
}

pub fn write_vec3(out: &mut Vec<u8>, v: Vec3Bits)
    ensures
        final(out)@ == old(out)@ + enc_vec3(v),
{
    write_u32(out, v.x);
    write_u32(out, v.y);
    write_u32(out, v.z);
    assert(out@ =~= old(out)@ + enc_vec3(v));
}

pub fn write_vec4(out: &mut Vec<u8>, v: Vec4Bits)
    ensures
        final(out)@ == old(out)@ + enc_vec4(v),
{
    write_u32(out, v.x);
    write_u32(out, v.y);
    write_u32(out, v.z);
    write_u32(out, v.w);
    assert(out@ =~= old(out)@ + enc_vec4(v));
}

pub fn read_vec2(b: &[u8], i: &mut usize) -> (r: Result<Vec2Bits, WireError>)
    ensures
        match parse_vec2(b@, *old(i) as int) {
            Some((v, j)) => r == Ok::<Vec2Bits, WireError>(v) && *final(i) == j,
            None => r == Err::<Vec2Bits, WireError>(WireError::MalformedMessage),
        },
{
    let x = match read_u32(b, i) {
        Ok(v) => v,
        Err(e) => {
            return Err(e);
        },
    };
    let y = match read_u32(b, i) {
        Ok(v) => v,
        Err(e) => {
            return Err(e);
        },
    };
    Ok(Vec2Bits { x, y })
}

pub fn read_vec3(b: &[u8], i: &mut usize) -> (r: Result<Vec3Bits, WireError>)
    ensures
        match parse_vec3(b@, *old(i) as int) {
            Some((v, j)) => r == Ok::<Vec3Bits, WireError>(v) && *final(i) == j,
            None => r == Err::<Vec3Bits, WireError>(WireError::MalformedMessage),
        },
{
    let x = match read_u32(b, i) {
        Ok(v) => v,
        Err(e) => {
            return Err(e);
        },
    };
    let y = match read_u32(b, i) {
        Ok(v) => v,
        Err(e) => {
            return Err(e);
        },
    };
    let z = match read_u32(b, i) {
        Ok(v) => v,
        Err(e) => {
            return Err(e);
        },
    };
    Ok(Vec3Bits { x, y, z })
}

pub fn read_vec4(b: &[u8], i: &mut usize) -> (r: Result<Vec4Bits, WireError>)
    ensures
        match parse_vec4(b@, *old(i) as int) {
            Some((v, j)) => r == Ok::<Vec4Bits, WireError>(v) && *final(i) == j,
            None => r == Err::<Vec4Bits, WireError>(WireError::MalformedMessage),
        },
{
    let x = match read_u32(b, i) {
        Ok(v) => v,
        Err(e) => {
            return Err(e);
        },
    };
    let y = match read_u32(b, i) {
        Ok(v) => v,
        Err(e) => {
            return Err(e);
        },
    };
    let z = match read_u32(b, i) {
        Ok(v) => v,
        Err(e) => {
            return Err(e);
        },
    };
    let w = match read_u32(b, i) {
        Ok(v) => v,
        Err(e) => {
            return Err(e);
        },
    };
    Ok(Vec4Bits { x, y, z, w })
}

/// An encoded two-vector parses back from wherever it was written.
pub proof fn lemma_parse_vec2_at(pre: Seq<u8>, v: Vec2Bits, post: Seq<u8>)
    ensures
        parse_vec2(pre + enc_vec2(v) + post, pre.len() as int)
            == Some((v, pre.len() as int + enc_vec2(v).len() as int)),
{
    let b = pre + enc_vec2(v) + post;
    assert(b =~= pre + u32_le_bytes(v.x) + (u32_le_bytes(v.y) + post));
    lemma_parse_u32_at(pre, v.x, u32_le_bytes(v.y) + post);
    let pre1 = pre + u32_le_bytes(v.x);
    assert(b =~= pre1 + u32_le_bytes(v.y) + post);
    lemma_parse_u32_at(pre1, v.y, post);
}

/// An encoded three-vector parses back from wherever it was written.
pub proof fn lemma_parse_vec3_at(pre: Seq<u8>, v: Vec3Bits, post: Seq<u8>)
    ensures
        parse_vec3(pre + enc_vec3(v) + post, pre.len() as int)
            == Some((v, pre.len() as int + enc_vec3(v).len() as int)),
{
    let b = pre + enc_vec3(v) + post;
    assert(b =~= pre + u32_le_bytes(v.x) + (u32_le_bytes(v.y) + u32_le_bytes(v.z) + post));
    lemma_parse_u32_at(pre, v.x, u32_le_bytes(v.y) + u32_le_bytes(v.z) + post);
    let pre1 = pre + u32_le_bytes(v.x);
    assert(b =~= pre1 + u32_le_bytes(v.y) + (u32_le_bytes(v.z) + post));
    lemma_parse_u32_at(pre1, v.y, u32_le_bytes(v.z) + post);
    let pre2 = pre1 + u32_le_bytes(v.y);
    assert(b =~= pre2 + u32_le_bytes(v.z) + post);
    lemma_parse_u32_at(pre2, v.z, post);
}

/// An encoded four-vector parses back from wherever it was written.
pub proof fn lemma_parse_vec4_at(pre: Seq<u8>, v: Vec4Bits, post: Seq<u8>)
    ensures
        parse_vec4(pre + enc_vec4(v) + post, pre.len() as int)
            == Some((v, pre.len() as int + enc_vec4(v).len() as int)),
{
    let b = pre + enc_vec4(v) + post;
    assert(b =~= pre + u32_le_bytes(v.x) + (u32_le_bytes(v.y) + u32_le_bytes(v.z)
        + u32_le_bytes(v.w) + post));
    lemma_parse_u32_at(pre, v.x, u32_le_bytes(v.y) + u32_le_bytes(v.z) + u32_le_bytes(v.w) + post);
    let pre1 = pre + u32_le_bytes(v.x);
    assert(b =~= pre1 + u32_le_bytes(v.y) + (u32_le_bytes(v.z) + u32_le_bytes(v.w) + post));
    lemma_parse_u32_at(pre1, v.y, u32_le_bytes(v.z) + u32_le_bytes(v.w) + post);
    let pre2 = pre1 + u32_le_bytes(v.y);
    assert(b =~= pre2 + u32_le_bytes(v.z) + (u32_le_bytes(v.w) + post));
    lemma_parse_u32_at(pre2, v.z, u32_le_bytes(v.w) + post);
    let pre3 = pre2 + u32_le_bytes(v.z);
    assert(b =~= pre3 + u32_le_bytes(v.w) + post);
    lemma_parse_u32_at(pre3, v.w, post);
}

} // verus!
