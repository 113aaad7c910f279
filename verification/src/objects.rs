//! Server-tracked world objects: the wire form (`NetworkObject`) and the
//! client-owned runtime entity (`Object`) that mirrors it between frames.
//!
//! Identity is the fixed-width integer id. The object-type tag tells the
//! renderer which model resource an entity needs; the resource is resolved
//! once, when the entity is first created, and never changes afterwards.

use vstd::prelude::*;

use crate::math::{
    enc_vec3, enc_vec4, lemma_parse_vec3_at, lemma_parse_vec4_at, parse_vec3, parse_vec4,
    read_vec3, read_vec4, write_vec3, write_vec4, Vec3Bits, Vec4Bits,
};
use crate::wire::{
    lemma_parse_u32_at, lemma_parse_u8_at, parse_u32, parse_u8, read_u32, read_u8, u32_le_bytes,
    write_u32, write_u8, WireError,
};

verus! {

/// The closed set of object types the server may announce.
#[derive(Clone, Copy, Debug, PartialEq, Eq, Structural)]
pub enum ObjectKind {
    Ground,
    Player,
    Ball,
    Ring,
}

/// The discriminant byte that encodes an object type.
pub open spec fn kind_tag(k: ObjectKind) -> u8 {
    match k {
        ObjectKind::Ground => 1,
        ObjectKind::Player => 2,
        ObjectKind::Ball => 3,
        ObjectKind::Ring => 4,
    }
}

/// The object type a discriminant byte names, if any.
pub open spec fn kind_of_tag(t: u8) -> Option<ObjectKind> {
    if t == 1 {
        Some(ObjectKind::Ground)
    } else if t == 2 {
        Some(ObjectKind::Player)
    } else if t == 3 {
        Some(ObjectKind::Ball)
    } else if t == 4 {
        Some(ObjectKind::Ring)
    } else {
        None
    }
}

/// One object's authoritative state inside a snapshot: stable id, type tag,
/// position, and orientation.
#[derive(Clone, Copy, Debug, PartialEq, Eq, Structural)]
pub struct NetworkObject {
    pub position: Vec3Bits,
    pub rotation: Vec4Bits,
    pub id: u32,
    pub kind: ObjectKind,
}

pub open spec fn enc_network_object(o: NetworkObject) -> Seq<u8> {
    enc_vec3(o.position) + enc_vec4(o.rotation) + u32_le_bytes(o.id) + seq![kind_tag(o.kind)]
}

pub open spec fn parse_network_object(b: Seq<u8>, i: int) -> Option<(NetworkObject, int)> {
    match parse_vec3(b, i) {
        None => None,
        Some((position, i)) => match parse_vec4(b, i) {
            None => None,
            Some((rotation, i)) => match parse_u32(b, i) {
                None => None,
                Some((id, i)) => match parse_u8(b, i) {
                    None => None,
                    Some((t, i)) => match kind_of_tag(t) {
                        None => None,
                        Some(kind) => Some((NetworkObject { position, rotation, id, kind }, i)),
                    },
                },
            },
        },
    }
}

/// Emits the discriminant byte of an object type.
pub fn write_kind(out: &mut Vec<u8>, k: ObjectKind)
    ensures
        final(out)@ == old(out)@ + seq![kind_tag(k)],
{
    match k {
        ObjectKind::Ground => write_u8(out, 1),
        ObjectKind::Player => write_u8(out, 2),
        ObjectKind::Ball => write_u8(out, 3),
        ObjectKind::Ring => write_u8(out, 4),
    }
}

pub fn write_network_object(out: &mut Vec<u8>, o: &NetworkObject)
    ensures
        final(out)@ == old(out)@ + enc_network_object(*o),
{
    write_vec3(out, o.position);
    write_vec4(out, o.rotation);
    write_u32(out, o.id);
    write_kind(out, o.kind);
    assert(out@ =~= old(out)@ + enc_network_object(*o));
}

pub fn read_network_object(b: &[u8], i: &mut usize) -> (r: Result<NetworkObject, WireError>)
    ensures
        match parse_network_object(b@, *old(i) as int) {
            Some((o, j)) => r == Ok::<NetworkObject, WireError>(o) && *final(i) == j,
            None => r == Err::<NetworkObject, WireError>(WireError::MalformedMessage),
        },
{
    let position = match read_vec3(b, i) {
        Ok(v) => v,
        Err(e) => {
            return Err(e);
        },
    };
    let rotation = match read_vec4(b, i) {
        Ok(v) => v,
        Err(e) => {
            return Err(e);
        },
    };
    let id = match read_u32(b, i) {
        Ok(v) => v,
        Err(e) => {
            return Err(e);
        },
    };
    let t = match read_u8(b, i) {
        Ok(v) => v,
        Err(e) => {
            return Err(e);
        },
    };
    let kind = if t == 1 {
        ObjectKind::Ground
    } else if t == 2 {
        ObjectKind::Player
    } else if t == 3 {
        ObjectKind::Ball
    } else if t == 4 {
        ObjectKind::Ring
    } else {
        return Err(WireError::MalformedMessage);
    };
    Ok(NetworkObject { position, rotation, id, kind })
}

/// An encoded object parses back from wherever it was written.
#[verifier::rlimit(50)]
pub proof fn lemma_parse_network_object_at(pre: Seq<u8>, o: NetworkObject, post: Seq<u8>)
    ensures
        parse_network_object(pre + enc_network_object(o) + post, pre.len() as int)
            == Some((o, pre.len() as int + enc_network_object(o).len() as int)),
{
    let b = pre + enc_network_object(o) + post;
    assert(b =~= pre + enc_vec3(o.position) + (enc_vec4(o.rotation) + u32_le_bytes(o.id)
        + seq![kind_tag(o.kind)] + post));
    lemma_parse_vec3_at(
        pre,
        o.position,
        enc_vec4(o.rotation) + u32_le_bytes(o.id) + seq![kind_tag(o.kind)] + post,
    );
    let pre1 = pre + enc_vec3(o.position);
    assert(b =~= pre1 + enc_vec4(o.rotation) + (u32_le_bytes(o.id) + seq![kind_tag(o.kind)]
        + post));
    lemma_parse_vec4_at(pre1, o.rotation, u32_le_bytes(o.id) + seq![kind_tag(o.kind)] + post);
    let pre2 = pre1 + enc_vec4(o.rotation);
    assert(b =~= pre2 + u32_le_bytes(o.id) + (seq![kind_tag(o.kind)] + post));
    lemma_parse_u32_at(pre2, o.id, seq![kind_tag(o.kind)] + post);
    let pre3 = pre2 + u32_le_bytes(o.id);
    assert(b =~= pre3 + seq![kind_tag(o.kind)] + post);
    lemma_parse_u8_at(pre3, kind_tag(o.kind), post);
    assert(kind_of_tag(kind_tag(o.kind)) == Some(o.kind));
}

/// The model resource slot that a newly sighted object of type `k` is given.
/// The rendering layer maps each slot to its loaded asset.
pub open spec fn model_slot(k: ObjectKind) -> u64 {
    match k {
        ObjectKind::Ground => 0,
        ObjectKind::Player => 1,
        ObjectKind::Ball => 2,
        ObjectKind::Ring => 3,
    }
}

/// Executable form of [`model_slot`], shared with the rendering layer.
pub fn model_for_kind(k: ObjectKind) -> (m: u64)
    ensures
        m == model_slot(k),
{
    match k {
        ObjectKind::Ground => 0,
        ObjectKind::Player => 1,
        ObjectKind::Ball => 2,
        ObjectKind::Ring => 3,
    }
}

/// A client-owned runtime entity: the renderable resource slot resolved at
/// creation, plus the pose mirrored from the most recent snapshot.
#[derive(Clone, Copy, Debug, PartialEq, Eq, Structural)]
pub struct Object {
    pub model: u64,
    pub id: u32,
    pub kind: ObjectKind,
    pub position: Vec3Bits,
    pub rotation: Vec4Bits,
}

impl Object {
    /// Synthesizes a fresh entity for a newly sighted id: the model resource
    /// is resolved from the type tag; the pose comes from the snapshot.
    pub fn new(id: u32, kind: ObjectKind, position: Vec3Bits, rotation: Vec4Bits) -> (r: Self)
        ensures
            r == (Object { model: model_slot(kind), id, kind, position, rotation }),
    {
        Object { model: model_for_kind(kind), id, kind, position, rotation }
    }

    /// Overwrites the pose from a newer snapshot of the same object. The
    /// renderable resource, id, and type are left untouched.
    pub fn update(&mut self, new_state: &NetworkObject)
        ensures
            *final(self) == (Object {
                position: new_state.position,
                rotation: new_state.rotation,
                ..*old(self)
            }),
    {
        self.position = new_state.position;
        self.rotation = new_state.rotation;
    }
}

} // verus!
