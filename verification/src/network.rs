//! Per-frame state exchange: the client's input signal, the server's world
//! snapshot, and the session response that carries the first snapshot or a
//! rejection reason.
//!
//! Every message has one fixed binary layout: one discriminant byte per
//! tagged union, one count byte per list, little-endian 32-bit fields for
//! vector components. Encoding is pure; decoding either consumes the whole
//! buffer and yields a value, or fails as a malformed message with no
//! partial result.

use vstd::prelude::*;

use crate::math::{
    enc_vec2, enc_vec3, lemma_parse_vec2_at, lemma_parse_vec3_at, parse_vec2, parse_vec3,
    read_vec2, read_vec3, write_vec2, write_vec3, Vec2Bits, Vec3Bits,
};
use crate::objects::{
    enc_network_object, lemma_parse_network_object_at, parse_network_object, read_network_object,
    write_network_object, NetworkObject,
};
use crate::wire::{lemma_concat3, lemma_concat4, lemma_parse_u8_at, parse_u8, read_u8, write_u8, WireError};

verus! {

/// Server-side rejection cause, carried one-way from server to client.
#[derive(Clone, Copy, Debug, PartialEq, Eq, Structural)]
pub enum Reason {
    IdInUse,
    InvalidRequestFormat,
    InvalidIdFormat,
    InvalidPassword,
    IdDoesntExist,
    WrongPassword,
}

/// The discriminant byte that encodes a rejection reason.
pub open spec fn reason_tag(r: Reason) -> u8 {
    match r {
        Reason::IdInUse => 1,
        Reason::InvalidRequestFormat => 2,
        Reason::InvalidIdFormat => 3,
        Reason::InvalidPassword => 4,
        Reason::IdDoesntExist => 5,
        Reason::WrongPassword => 6,
    }
}

/// The rejection reason a discriminant byte names, if any.
pub open spec fn reason_of_tag(t: u8) -> Option<Reason> {
    if t == 1 {
        Some(Reason::IdInUse)
    } else if t == 2 {
        Some(Reason::InvalidRequestFormat)
    } else if t == 3 {
        Some(Reason::InvalidIdFormat)
    } else if t == 4 {
        Some(Reason::InvalidPassword)
    } else if t == 5 {
        Some(Reason::IdDoesntExist)
    } else if t == 6 {
        Some(Reason::WrongPassword)
    } else {
        None
    }
}

impl Reason {
    /// The user-facing explanation of this rejection.
    pub fn to_string(&self) -> (r: String)
        ensures
            *self == Reason::IdInUse ==> r@ == "The given ID is already in use."@,
            *self == Reason::InvalidRequestFormat ==> r@ == "The request is invalid."@,
            *self == Reason::InvalidIdFormat ==> r@ == "The given ID is invalid"@,
            *self == Reason::InvalidPassword ==> r@ == "The given password is invalid"@,
            *self == Reason::IdDoesntExist ==> r@ == "There is no session with the given ID"@,
            *self == Reason::WrongPassword ==> r@ == "The given password is incorrect"@,
    {
        match self {
            Reason::IdInUse => "The given ID is already in use.".to_owned(),
            Reason::InvalidRequestFormat => "The request is invalid.".to_owned(),
            Reason::InvalidIdFormat => "The given ID is invalid".to_owned(),
            Reason::InvalidPassword => "The given password is invalid".to_owned(),
            Reason::IdDoesntExist => "There is no session with the given ID".to_owned(),
            Reason::WrongPassword => "The given password is incorrect".to_owned(),
        }
    }
}

/// Emits the discriminant byte of a rejection reason.
pub fn write_reason(out: &mut Vec<u8>, r: Reason)
    ensures
        final(out)@ == old(out)@ + seq![reason_tag(r)],
{
    match r {
        Reason::IdInUse => write_u8(out, 1),
        Reason::InvalidRequestFormat => write_u8(out, 2),
        Reason::InvalidIdFormat => write_u8(out, 3),
        Reason::InvalidPassword => write_u8(out, 4),
        Reason::IdDoesntExist => write_u8(out, 5),
        Reason::WrongPassword => write_u8(out, 6),
    }
}

/// Reads one rejection-reason discriminant byte.
pub fn read_reason(b: &[u8], i: &mut usize) -> (r: Result<Reason, WireError>)
    ensures
        match parse_reason(b@, *old(i) as int) {
            Some((v, j)) => r == Ok::<Reason, WireError>(v) && *final(i) == j,
            None => r == Err::<Reason, WireError>(WireError::MalformedMessage),
        },
{
    let t = match read_u8(b, i) {
        Ok(v) => v,
        Err(e) => {
            return Err(e);
        },
    };
    if t == 1 {
        Ok(Reason::IdInUse)
    } else if t == 2 {
        Ok(Reason::InvalidRequestFormat)
    } else if t == 3 {
        Ok(Reason::InvalidIdFormat)
    } else if t == 4 {
        Ok(Reason::InvalidPassword)
    } else if t == 5 {
        Ok(Reason::IdDoesntExist)
    } else if t == 6 {
        Ok(Reason::WrongPassword)
    } else {
        Err(WireError::MalformedMessage)
    }
}

pub open spec fn parse_reason(b: Seq<u8>, i: int) -> Option<(Reason, int)> {
    match parse_u8(b, i) {
        None => None,
        Some((t, i)) => match reason_of_tag(t) {
            None => None,
            Some(r) => Some((r, i)),
        },
    }
}

/// An encoded reason parses back from wherever it was written.
pub proof fn lemma_parse_reason_at(pre: Seq<u8>, r: Reason, post: Seq<u8>)
    ensures
        parse_reason(pre + seq![reason_tag(r)] + post, pre.len() as int)
            == Some((r, pre.len() as int + 1)),
{
    lemma_parse_u8_at(pre, reason_tag(r), post);
    assert(reason_of_tag(reason_tag(r)) == Some(r));
}

/// Per-frame client intent: desired movement, desired rotation delta, and
/// the camera-distance scalar of this protocol generation.
#[derive(Clone, Copy, Debug, PartialEq, Eq, Structural)]
pub struct PlayerSignal {
    pub desired_mov: Vec3Bits,
    pub desired_rot: Vec2Bits,
    pub camera_radius: u32,
}

pub open spec fn enc_player_signal(s: PlayerSignal) -> Seq<u8> {
    enc_vec3(s.desired_mov) + enc_vec2(s.desired_rot) + crate::wire::u32_le_bytes(s.camera_radius)
}

pub open spec fn parse_player_signal(b: Seq<u8>, i: int) -> Option<(PlayerSignal, int)> {
    match parse_vec3(b, i) {
        None => None,
        Some((desired_mov, i)) => match parse_vec2(b, i) {
            None => None,
            Some((desired_rot, i)) => match crate::wire::parse_u32(b, i) {
                None => None,
                Some((camera_radius, i)) => Some(
                    (PlayerSignal { desired_mov, desired_rot, camera_radius }, i),
                ),
            },
        },
    }
}

/// The input signal a whole frame-sync request buffer holds, if it is
/// exactly one well-formed message.
pub open spec fn player_signal_msg(b: Seq<u8>) -> Option<PlayerSignal> {
    match parse_player_signal(b, 0) {
        None => None,
        Some((s, n)) => if n == b.len() {
            Some(s)
        } else {
            None
        },
    }
}

impl PlayerSignal {
    pub fn new(desired_mov: Vec3Bits, desired_rot: Vec2Bits, camera_radius: u32) -> (r: Self)
        ensures
            r == (PlayerSignal { desired_mov, desired_rot, camera_radius }),
    {
        PlayerSignal { desired_mov, desired_rot, camera_radius }
    }

    /// Encodes this signal as the body of one frame-sync request.
    pub fn to_bytes(&self) -> (r: Vec<u8>)
        ensures
            r@ == enc_player_signal(*self),
    {
        let mut out: Vec<u8> = Vec::new();
        write_vec3(&mut out, self.desired_mov);
        write_vec2(&mut out, self.desired_rot);
        crate::wire::write_u32(&mut out, self.camera_radius);
        assert(out@ =~= enc_player_signal(*self));
        out
    }

    /// Decodes one whole frame-sync request buffer.
    pub fn from_bytes(b: &[u8]) -> (r: Result<PlayerSignal, WireError>)
        ensures
            match player_signal_msg(b@) {
                Some(s) => r == Ok::<PlayerSignal, WireError>(s),
                None => r == Err::<PlayerSignal, WireError>(WireError::MalformedMessage),
            },
    {
        let mut i: usize = 0;
        let s = match read_player_signal(b, &mut i) {
            Ok(v) => v,
            Err(e) => {
                return Err(e);
            },
        };
        if i == b.len() {
            Ok(s)
        } else {
            Err(WireError::MalformedMessage)
        }
    }
}

pub fn read_player_signal(b: &[u8], i: &mut usize) -> (r: Result<PlayerSignal, WireError>)
    ensures
        match parse_player_signal(b@, *old(i) as int) {
            Some((v, j)) => r == Ok::<PlayerSignal, WireError>(v) && *final(i) == j,
            None => r == Err::<PlayerSignal, WireError>(WireError::MalformedMessage),
        },
{
    let desired_mov = match read_vec3(b, i) {
        Ok(v) => v,
        Err(e) => {
            return Err(e);
        },
    };
    let desired_rot = match read_vec2(b, i) {
        Ok(v) => v,
        Err(e) => {
            return Err(e);
        },
    };
    let camera_radius = match crate::wire::read_u32(b, i) {
        Ok(v) => v,
        Err(e) => {
            return Err(e);
        },
    };
    Ok(PlayerSignal { desired_mov, desired_rot, camera_radius })
}

/// An encoded input signal parses back from wherever it was written.
#[verifier::rlimit(50)]
pub proof fn lemma_parse_player_signal_at(pre: Seq<u8>, s: PlayerSignal, post: Seq<u8>)
    ensures
        parse_player_signal(pre + enc_player_signal(s) + post, pre.len() as int)
            == Some((s, pre.len() as int + enc_player_signal(s).len() as int)),
{
    let b = pre + enc_player_signal(s) + post;
    let mov = enc_vec3(s.desired_mov);
    let rot = enc_vec2(s.desired_rot);
    let rad = crate::wire::u32_le_bytes(s.camera_radius);
    assert(b =~= pre + mov + (rot + rad + post));
    lemma_parse_vec3_at(pre, s.desired_mov, rot + rad + post);
    let pre1 = pre + mov;
    assert(b =~= pre1 + rot + (rad + post));
    lemma_parse_vec2_at(pre1, s.desired_rot, rad + post);
    let pre2 = pre1 + rot;
    assert(b =~= pre2 + rad + post);
    crate::wire::lemma_parse_u32_at(pre2, s.camera_radius, post);
}

/// For all input signals, decoding an encoding yields the signal back:
/// round-trip identity for the frame-sync request message.
pub proof fn lemma_player_signal_round_trip(s: PlayerSignal)
    ensures
        player_signal_msg(enc_player_signal(s)) == Some(s),
{
    lemma_parse_player_signal_at(Seq::empty(), s, Seq::empty());
    assert(Seq::<u8>::empty() + enc_player_signal(s) + Seq::<u8>::empty()
        =~= enc_player_signal(s));
}

/// One sibling player's summary inside a snapshot: translation and camera
/// fields only, so that snapshots stay flat and bounded.
#[derive(Clone, Copy, Debug, PartialEq, Eq, Structural)]
pub struct PlayerPose {
    pub translation: Vec3Bits,
    pub camera_pos: Vec3Bits,
    pub camera_target: Vec3Bits,
}

pub open spec fn enc_pose(p: PlayerPose) -> Seq<u8> {
    enc_vec3(p.translation) + enc_vec3(p.camera_pos) + enc_vec3(p.camera_target)
}

pub open spec fn parse_pose(b: Seq<u8>, i: int) -> Option<(PlayerPose, int)> {
    match parse_vec3(b, i) {
        None => None,
        Some((translation, i)) => match parse_vec3(b, i) {
            None => None,
            Some((camera_pos, i)) => match parse_vec3(b, i) {
                None => None,
                Some((camera_target, i)) => Some(
                    (PlayerPose { translation, camera_pos, camera_target }, i),
                ),
            },
        },
    }
}

pub fn read_pose(b: &[u8], i: &mut usize) -> (r: Result<PlayerPose, WireError>)
    ensures
        match parse_pose(b@, *old(i) as int) {
            Some((v, j)) => r == Ok::<PlayerPose, WireError>(v) && *final(i) == j,
            None => r == Err::<PlayerPose, WireError>(WireError::MalformedMessage),
        },
{
    let translation = match read_vec3(b, i) {
        Ok(v) => v,
        Err(e) => {
            return Err(e);
        },
    };
    let camera_pos = match read_vec3(b, i) {
        Ok(v) => v,
        Err(e) => {
            return Err(e);
        },
    };
    let camera_target = match read_vec3(b, i) {
        Ok(v) => v,
        Err(e) => {
            return Err(e);
        },
    };
    Ok(PlayerPose { translation, camera_pos, camera_target })
}

pub fn write_pose(out: &mut Vec<u8>, p: &PlayerPose)
    ensures
        final(out)@ == old(out)@ + enc_pose(*p),
{
    write_vec3(out, p.translation);
    write_vec3(out, p.camera_pos);
    write_vec3(out, p.camera_target);
    assert(out@ =~= old(out)@ + enc_pose(*p));
}

/// An encoded player summary parses back from wherever it was written.
#[verifier::rlimit(50)]
pub proof fn lemma_parse_pose_at(pre: Seq<u8>, p: PlayerPose, post: Seq<u8>)
    ensures
        parse_pose(pre + enc_pose(p) + post, pre.len() as int)
            == Some((p, pre.len() as int + enc_pose(p).len() as int)),
{
    let b = pre + enc_pose(p) + post;
    let t = enc_vec3(p.translation);
    let c = enc_vec3(p.camera_pos);
    let g = enc_vec3(p.camera_target);
    assert(b =~= pre + t + (c + g + post));
    lemma_parse_vec3_at(pre, p.translation, c + g + post);
    let pre1 = pre + t;
    assert(b =~= pre1 + c + (g + post));
    lemma_parse_vec3_at(pre1, p.camera_pos, g + post);
    let pre2 = pre1 + c;
    assert(b =~= pre2 + g + post);
    lemma_parse_vec3_at(pre2, p.camera_target, post);
}

/// Depth-first encoding of a list of player summaries.
pub open spec fn enc_poses(ps: Seq<PlayerPose>) -> Seq<u8>
    decreases ps.len(),
{
    if ps.len() == 0 {
        Seq::empty()
    } else {
        enc_pose(ps[0]) + enc_poses(ps.drop_first())
    }
}

/// Parses exactly `n` consecutive player summaries.
pub open spec fn parse_poses(b: Seq<u8>, i: int, n: int) -> Option<(Seq<PlayerPose>, int)>
    decreases n,
{
    if n <= 0 {
        Some((Seq::empty(), i))
    } else {
        match parse_pose(b, i) {
            None => None,
            Some((p, i)) => match parse_poses(b, i, n - 1) {
                None => None,
                Some((ps, i)) => Some((seq![p] + ps, i)),
            },
        }
    }
}

/// An encoded list of player summaries parses back, item for item.
#[verifier::rlimit(100)]
pub proof fn lemma_parse_poses_at(pre: Seq<u8>, ps: Seq<PlayerPose>, post: Seq<u8>)
    ensures
        parse_poses(pre + enc_poses(ps) + post, pre.len() as int, ps.len() as int)
            == Some((ps, pre.len() as int + enc_poses(ps).len() as int)),
    decreases ps.len(),
{
    if ps.len() == 0 {
        assert(ps =~= Seq::<PlayerPose>::empty());
        assert(enc_poses(ps) == Seq::<u8>::empty());
        assert(pre + enc_poses(ps) + post =~= pre + post);
    } else {
        let b = pre + enc_poses(ps) + post;
        let head = enc_pose(ps[0]);
        let tail = enc_poses(ps.drop_first());
        assert(enc_poses(ps) == head + tail);
        lemma_concat4(pre, head, tail, post);
        assert(b == pre + head + (tail + post));
        lemma_parse_pose_at(pre, ps[0], tail + post);
        let pre1 = pre + head;
        assert(b == pre1 + tail + post);
        lemma_parse_poses_at(pre1, ps.drop_first(), post);
        assert(seq![ps[0]] + ps.drop_first() =~= ps);
    }
}

/// Reads exactly `n` consecutive player summaries.
pub fn read_poses(b: &[u8], i: &mut usize, n: u8) -> (r: Result<Vec<PlayerPose>, WireError>)
    ensures
        match parse_poses(b@, *old(i) as int, n as int) {
            Some((ps, j)) => r matches Ok(v) && v@ == ps && *final(i) == j,
            None => r == Err::<Vec<PlayerPose>, WireError>(WireError::MalformedMessage),
        },
{
    let ghost i0 = *i as int;
    let mut acc: Vec<PlayerPose> = Vec::new();
    let mut k: u8 = 0;
    proof {
        if parse_poses(b@, i0, n as int) is Some {
            let (rest, j) = parse_poses(b@, i0, n as int)->Some_0;
            assert(Seq::<PlayerPose>::empty() + rest =~= rest);
        }
    }
    while k < n
        invariant
            k <= n,
            i0 == *old(i) as int,
            parse_poses(b@, i0, n as int) == (match parse_poses(
                b@,
                *i as int,
                n as int - k as int,
            ) {
                Some((rest, j)) => Some((acc@ + rest, j)),
                None => None::<(Seq<PlayerPose>, int)>,
            }),
        decreases n - k,
    {
        let ghost prev = acc@;
        let ghost a = *i as int;
        let p = match read_pose(b, i) {
            Ok(v) => v,
            Err(e) => {
                proof {
                    assert(parse_pose(b@, a) is None);
                    assert(parse_poses(b@, a, n as int - k as int) is None);
                }
                return Err(e);
            },
        };
        proof {
            assert(parse_pose(b@, a) == Some((p, *i as int)));
            if parse_poses(b@, *i as int, n as int - k as int - 1) is Some {
                let (ps, l) = parse_poses(b@, *i as int, n as int - k as int - 1)->Some_0;
                assert(prev + (seq![p] + ps) =~= prev.push(p) + ps);
            }
        }
        acc.push(p);
        k = k + 1;
    }
    assert(parse_poses(b@, *i as int, 0) == Some((Seq::<PlayerPose>::empty(), *i as int)));
    assert(acc@ + Seq::<PlayerPose>::empty() =~= acc@);
    Ok(acc)
}

/// Writes every player summary in order.
pub fn write_poses(out: &mut Vec<u8>, ps: &Vec<PlayerPose>)
    ensures
        final(out)@ == old(out)@ + enc_poses(ps@),
{
    let ghost base = out@;
    let mut k: usize = 0;
    proof {
        assert(ps@.subrange(0, 0) =~= Seq::<PlayerPose>::empty());
        assert(base + Seq::<u8>::empty() =~= base);
    }
    while k < ps.len()
        invariant
            k <= ps@.len(),
            out@ == base + enc_poses(ps@.subrange(0, k as int)),
        decreases ps@.len() - k,
    {
        write_pose(out, &ps[k]);
        k = k + 1;
        proof {
            lemma_enc_poses_snoc(ps@.subrange(0, k as int));
            assert(ps@.subrange(0, k as int).drop_last() =~= ps@.subrange(0, k as int - 1));
            assert(ps@.subrange(0, k as int).last() == ps@[k as int - 1]);
            assert(out@ =~= base + enc_poses(ps@.subrange(0, k as int)));
        }
    }
    assert(ps@.subrange(0, ps@.len() as int) =~= ps@);
}

/// Unrolls the encoding of a non-empty list at its last element.
pub proof fn lemma_enc_poses_snoc(ps: Seq<PlayerPose>)
    requires
        ps.len() > 0,
    ensures
        enc_poses(ps) == enc_poses(ps.drop_last()) + enc_pose(ps.last()),
    decreases ps.len(),
{
    if ps.len() == 1 {
        reveal_with_fuel(enc_poses, 2);
        assert(ps.drop_last() =~= Seq::<PlayerPose>::empty());
        assert(ps.drop_first() =~= Seq::<PlayerPose>::empty());
        assert(enc_poses(ps) =~= enc_poses(ps.drop_last()) + enc_pose(ps.last()));
    } else {
        lemma_enc_poses_snoc(ps.drop_first());
        assert(ps.drop_first().drop_last() =~= ps.drop_last().drop_first());
        assert(ps.drop_first().last() == ps.last());
        assert(ps.drop_last()[0] == ps[0]);
        assert(enc_poses(ps.drop_last()) == enc_pose(ps[0]) + enc_poses(ps.drop_last().drop_first()));
        assert(enc_poses(ps) =~= enc_poses(ps.drop_last()) + enc_pose(ps.last()));
    }
}


/// Depth-first encoding of a list of world objects.
pub open spec fn enc_objects(os: Seq<NetworkObject>) -> Seq<u8>
    decreases os.len(),
{
    if os.len() == 0 {
        Seq::empty()
    } else {
        enc_network_object(os[0]) + enc_objects(os.drop_first())
    }
}

/// Parses exactly `n` consecutive world objects.
pub open spec fn parse_objects(b: Seq<u8>, i: int, n: int) -> Option<(Seq<NetworkObject>, int)>
    decreases n,
{
    if n <= 0 {
        Some((Seq::empty(), i))
    } else {
        match parse_network_object(b, i) {
            None => None,
            Some((o, i)) => match parse_objects(b, i, n - 1) {
                None => None,
                Some((os, i)) => Some((seq![o] + os, i)),
            },
        }
    }
}

/// An encoded list of world objects parses back, item for item.
#[verifier::rlimit(100)]
pub proof fn lemma_parse_objects_at(pre: Seq<u8>, os: Seq<NetworkObject>, post: Seq<u8>)
    ensures
        parse_objects(pre + enc_objects(os) + post, pre.len() as int, os.len() as int)
            == Some((os, pre.len() as int + enc_objects(os).len() as int)),
    decreases os.len(),
{
    if os.len() == 0 {
        assert(os =~= Seq::<NetworkObject>::empty());
        assert(enc_objects(os) == Seq::<u8>::empty());
        assert(pre + enc_objects(os) + post =~= pre + post);
    } else {
        let b = pre + enc_objects(os) + post;
        let head = enc_network_object(os[0]);
        let tail = enc_objects(os.drop_first());
        assert(enc_objects(os) == head + tail);
        lemma_concat4(pre, head, tail, post);
        assert(b == pre + head + (tail + post));
        lemma_parse_network_object_at(pre, os[0], tail + post);
        let pre1 = pre + head;
        assert(b == pre1 + tail + post);
        lemma_parse_objects_at(pre1, os.drop_first(), post);
        assert(seq![os[0]] + os.drop_first() =~= os);
    }
}

/// Reads exactly `n` consecutive world objects.
pub fn read_objects(b: &[u8], i: &mut usize, n: u8) -> (r: Result<Vec<NetworkObject>, WireError>)
    ensures
        match parse_objects(b@, *old(i) as int, n as int) {
            Some((os, j)) => r matches Ok(v) && v@ == os && *final(i) == j,
            None => r == Err::<Vec<NetworkObject>, WireError>(WireError::MalformedMessage),
        },
{
    let ghost i0 = *i as int;
    let mut acc: Vec<NetworkObject> = Vec::new();
    let mut k: u8 = 0;
    proof {
        if parse_objects(b@, i0, n as int) is Some {
            let (rest, j) = parse_objects(b@, i0, n as int)->Some_0;
            assert(Seq::<NetworkObject>::empty() + rest =~= rest);
        }
    }
    while k < n
        invariant
            k <= n,
            i0 == *old(i) as int,
            parse_objects(b@, i0, n as int) == (match parse_objects(
                b@,
                *i as int,
                n as int - k as int,
            ) {
                Some((rest, j)) => Some((acc@ + rest, j)),
                None => None::<(Seq<NetworkObject>, int)>,
            }),
        decreases n - k,
    {
        let ghost prev = acc@;
        let ghost a = *i as int;
        let o = match read_network_object(b, i) {
            Ok(v) => v,
            Err(e) => {
                proof {
                    assert(parse_network_object(b@, a) is None);
                    assert(parse_objects(b@, a, n as int - k as int) is None);
                }
                return Err(e);
            },
        };
        proof {
            assert(parse_network_object(b@, a) == Some((o, *i as int)));
            if parse_objects(b@, *i as int, n as int - k as int - 1) is Some {
                let (os, l) = parse_objects(b@, *i as int, n as int - k as int - 1)->Some_0;
                assert(prev + (seq![o] + os) =~= prev.push(o) + os);
            }
        }
        acc.push(o);
        k = k + 1;
    }
    assert(parse_objects(b@, *i as int, 0) == Some((Seq::<NetworkObject>::empty(), *i as int)));
    assert(acc@ + Seq::<NetworkObject>::empty() =~= acc@);
    Ok(acc)
}

/// Unrolls the encoding of a non-empty list at its last element.
pub proof fn lemma_enc_objects_snoc(os: Seq<NetworkObject>)
    requires
        os.len() > 0,
    ensures
        enc_objects(os) == enc_objects(os.drop_last()) + enc_network_object(os.last()),
    decreases os.len(),
{
    if os.len() == 1 {
        reveal_with_fuel(enc_objects, 2);
        assert(os.drop_last() =~= Seq::<NetworkObject>::empty());
        assert(os.drop_first() =~= Seq::<NetworkObject>::empty());
        assert(enc_objects(os) =~= enc_objects(os.drop_last()) + enc_network_object(os.last()));
    } else {
        lemma_enc_objects_snoc(os.drop_first());
        assert(os.drop_first().drop_last() =~= os.drop_last().drop_first());
        assert(os.drop_first().last() == os.last());
        assert(os.drop_last()[0] == os[0]);
        assert(enc_objects(os.drop_last()) == enc_network_object(os[0])
            + enc_objects(os.drop_last().drop_first()));
        assert(enc_objects(os) =~= enc_objects(os.drop_last()) + enc_network_object(os.last()));
    }
}

/// Writes every world object in order.
pub fn write_objects(out: &mut Vec<u8>, os: &Vec<NetworkObject>)
    ensures
        final(out)@ == old(out)@ + enc_objects(os@),
{
    let ghost base = out@;
    let mut k: usize = 0;
    proof {
        assert(os@.subrange(0, 0) =~= Seq::<NetworkObject>::empty());
        assert(base + Seq::<u8>::empty() =~= base);
    }
    while k < os.len()
        invariant
            k <= os@.len(),
            out@ == base + enc_objects(os@.subrange(0, k as int)),
        decreases os@.len() - k,
    {
        write_network_object(out, &os[k]);
        k = k + 1;
        proof {
            lemma_enc_objects_snoc(os@.subrange(0, k as int));
            assert(os@.subrange(0, k as int).drop_last() =~= os@.subrange(0, k as int - 1));
            assert(os@.subrange(0, k as int).last() == os@[k as int - 1]);
            assert(out@ =~= base + enc_objects(os@.subrange(0, k as int)));
        }
    }
    assert(os@.subrange(0, os@.len() as int) =~= os@);
}

/// The mathematical content of one world snapshot: the local player's
/// authoritative transform, the sibling-player summaries, and the world
/// objects, free of any executable container.
pub struct SnapshotView {
    pub translation: Vec3Bits,
    pub camera_pos: Vec3Bits,
    pub camera_target: Vec3Bits,
    pub fwd: Vec3Bits,
    pub right: Vec3Bits,
    pub players: Seq<PlayerPose>,
    pub objects: Seq<NetworkObject>,
}

impl SnapshotView {
    /// Both lists fit their one-byte count fields.
    pub open spec fn wf(self) -> bool {
        self.players.len() <= 255 && self.objects.len() <= 255
    }
}

/// The server's authoritative world state for one player's view, as
/// exchanged once per frame and carried inside an accepting session
/// response.
#[derive(Debug, Clone, PartialEq, Eq)]
pub struct ResponseSignal {
    pub translation: Vec3Bits,
    pub camera_pos: Vec3Bits,
    pub camera_target: Vec3Bits,
    pub fwd: Vec3Bits,
    pub right: Vec3Bits,
    pub players: Vec<PlayerPose>,
    pub objects: Vec<NetworkObject>,
}

impl View for ResponseSignal {
    type V = SnapshotView;

    open spec fn view(&self) -> SnapshotView {
        SnapshotView {
            translation: self.translation,
            camera_pos: self.camera_pos,
            camera_target: self.camera_target,
            fwd: self.fwd,
            right: self.right,
            players: self.players@,
            objects: self.objects@,
        }
    }
}

pub open spec fn enc_snapshot_header(v: SnapshotView) -> Seq<u8> {
    seq![v.players.len() as u8] + seq![v.objects.len() as u8] + enc_vec3(v.translation)
        + enc_vec3(v.camera_pos) + enc_vec3(v.camera_target) + enc_vec3(v.fwd) + enc_vec3(v.right)
}

pub open spec fn enc_snapshot(v: SnapshotView) -> Seq<u8> {
    enc_snapshot_header(v) + enc_poses(v.players) + enc_objects(v.objects)
}

/// The fixed-width front of a snapshot: both count bytes, then the local
/// player's five transform vectors.
pub open spec fn parse_snapshot_header(b: Seq<u8>, i: int) -> Option<
    ((u8, u8, Vec3Bits, Vec3Bits, Vec3Bits, Vec3Bits, Vec3Bits), int),
> {
    match parse_u8(b, i) {
        None => None,
        Some((pc, i)) => match parse_u8(b, i) {
            None => None,
            Some((oc, i)) => match parse_vec3(b, i) {
                None => None,
                Some((translation, i)) => match parse_vec3(b, i) {
                    None => None,
                    Some((camera_pos, i)) => match parse_vec3(b, i) {
                        None => None,
                        Some((camera_target, i)) => match parse_vec3(b, i) {
                            None => None,
                            Some((fwd, i)) => match parse_vec3(b, i) {
                                None => None,
                                Some((right, i)) => Some(
                                    ((pc, oc, translation, camera_pos, camera_target, fwd, right),
                                    i),
                                ),
                            },
                        },
                    },
                },
            },
        },
    }
}

pub open spec fn parse_snapshot(b: Seq<u8>, i: int) -> Option<(SnapshotView, int)> {
    match parse_snapshot_header(b, i) {
        None => None,
        Some(((pc, oc, translation, camera_pos, camera_target, fwd, right), i)) => match
            parse_poses(b, i, pc as int) {
            None => None,
            Some((players, i)) => match parse_objects(b, i, oc as int) {
                None => None,
                Some((objects, i)) => Some(
                    (SnapshotView {
                        translation,
                        camera_pos,
                        camera_target,
                        fwd,
                        right,
                        players,
                        objects,
                    }, i),
                ),
            },
        },
    }
}

/// The snapshot a whole frame-sync response buffer holds, if it is exactly
/// one well-formed message.
pub open spec fn snapshot_msg(b: Seq<u8>) -> Option<SnapshotView> {
    match parse_snapshot(b, 0) {
        None => None,
        Some((v, n)) => if n == b.len() {
            Some(v)
        } else {
            None
        },
    }
}

/// Reads one snapshot, advancing the offset, exactly as `parse_snapshot`.
pub fn read_snapshot(b: &[u8], i: &mut usize) -> (r: Result<ResponseSignal, WireError>)
    ensures
        match parse_snapshot(b@, *old(i) as int) {
            Some((v, j)) => r matches Ok(s) && s@ == v && *final(i) == j,
            None => r == Err::<ResponseSignal, WireError>(WireError::MalformedMessage),
        },
{
    let pc = match read_u8(b, i) {
        Ok(v) => v,
        Err(e) => {
            return Err(e);
        },
    };
    let oc = match read_u8(b, i) {
        Ok(v) => v,
        Err(e) => {
            return Err(e);
        },
    };
    let translation = match read_vec3(b, i) {
        Ok(v) => v,
        Err(e) => {
            return Err(e);
        },
    };
    let camera_pos = match read_vec3(b, i) {
        Ok(v) => v,
        Err(e) => {
            return Err(e);
        },
    };
    let camera_target = match read_vec3(b, i) {
        Ok(v) => v,
        Err(e) => {
            return Err(e);
        },
    };
    let fwd = match read_vec3(b, i) {
        Ok(v) => v,
        Err(e) => {
            return Err(e);
        },
    };
    let right = match read_vec3(b, i) {
        Ok(v) => v,
        Err(e) => {
            return Err(e);
        },
    };
    let players = match read_poses(b, i, pc) {
        Ok(v) => v,
        Err(e) => {
            return Err(e);
        },
    };
    let objects = match read_objects(b, i, oc) {
        Ok(v) => v,
        Err(e) => {
            return Err(e);
        },
    };
    Ok(ResponseSignal { translation, camera_pos, camera_target, fwd, right, players, objects })
}

impl ResponseSignal {
    /// A snapshot with the given transform and no players or objects yet.
    pub fn new(
        translation: Vec3Bits,
        camera_pos: Vec3Bits,
        camera_target: Vec3Bits,
        fwd: Vec3Bits,
        right: Vec3Bits,
    ) -> (r: Self)
        ensures
            r.translation == translation,
            r.camera_pos == camera_pos,
            r.camera_target == camera_target,
            r.fwd == fwd,
            r.right == right,
            r.players@ == Seq::<PlayerPose>::empty(),
            r.objects@ == Seq::<NetworkObject>::empty(),
    {
        ResponseSignal {
            translation,
            camera_pos,
            camera_target,
            fwd,
            right,
            players: Vec::new(),
            objects: Vec::new(),
        }
    }

    /// Whether both lists fit their one-byte count fields, so that the
    /// snapshot can be encoded.
    pub fn encodable(&self) -> (r: bool)
        ensures
            r == self@.wf(),
    {
        self.players.len() <= 255 && self.objects.len() <= 255
    }

    /// Encodes this snapshot as the body of one frame-sync response. The
    /// encoded player-count and object-count fields equal the lengths of
    /// the respective lists.
    pub fn to_bytes(&self) -> (r: Vec<u8>)
        requires
            self@.wf(),
        ensures
            r@ == enc_snapshot(self@),
            r@[0] == self.players@.len() as u8,
            r@[1] == self.objects@.len() as u8,
    {
        let mut out: Vec<u8> = Vec::new();
        write_u8(&mut out, self.players.len() as u8);
        write_u8(&mut out, self.objects.len() as u8);
        write_vec3(&mut out, self.translation);
        write_vec3(&mut out, self.camera_pos);
        write_vec3(&mut out, self.camera_target);
        write_vec3(&mut out, self.fwd);
        write_vec3(&mut out, self.right);
        write_poses(&mut out, &self.players);
        write_objects(&mut out, &self.objects);
        assert(out@ =~= enc_snapshot(self@));
        out
    }

    /// Decodes one whole frame-sync response buffer.
    pub fn from_bytes(b: &[u8]) -> (r: Result<ResponseSignal, WireError>)
        ensures
            match snapshot_msg(b@) {
                Some(v) => r matches Ok(s) && s@ == v,
                None => r == Err::<ResponseSignal, WireError>(WireError::MalformedMessage),
            },
    {
        let mut i: usize = 0;
        let s = match read_snapshot(b, &mut i) {
            Ok(v) => v,
            Err(e) => {
                return Err(e);
            },
        };
        if i == b.len() {
            Ok(s)
        } else {
            Err(WireError::MalformedMessage)
        }
    }
}

impl Default for ResponseSignal {
    /// The zero snapshot: origin transform and, as the protocol has always
    /// had it, the forward unit vector for both basis fields.
    fn default() -> (r: Self)
        ensures
            r.translation == (Vec3Bits { x: 0, y: 0, z: 0 }),
            r.camera_pos == (Vec3Bits { x: 0, y: 0, z: 0 }),
            r.camera_target == (Vec3Bits { x: 0, y: 0, z: 0 }),
            r.fwd == (Vec3Bits { x: 0, y: 0, z: crate::math::FLOAT_ONE_BITS }),
            r.right == (Vec3Bits { x: 0, y: 0, z: crate::math::FLOAT_ONE_BITS }),
            r.players@ == Seq::<PlayerPose>::empty(),
            r.objects@ == Seq::<NetworkObject>::empty(),
    {
        ResponseSignal::new(
            Vec3Bits::zero(),
            Vec3Bits::zero(),
            Vec3Bits::zero(),
            Vec3Bits::forward(),
            Vec3Bits::forward(),
        )
    }
}

/// An encoded snapshot header parses back from wherever it was written.
#[verifier::rlimit(100)]
pub proof fn lemma_parse_snapshot_header_at(pre: Seq<u8>, v: SnapshotView, post: Seq<u8>)
    ensures
        parse_snapshot_header(pre + enc_snapshot_header(v) + post, pre.len() as int) == Some(
            ((
                v.players.len() as u8,
                v.objects.len() as u8,
                v.translation,
                v.camera_pos,
                v.camera_target,
                v.fwd,
                v.right,
            ), pre.len() as int + enc_snapshot_header(v).len() as int),
        ),
{
    let b = pre + enc_snapshot_header(v) + post;
    let x1 = seq![v.players.len() as u8];
    let x2 = seq![v.objects.len() as u8];
    let x3 = enc_vec3(v.translation);
    let x4 = enc_vec3(v.camera_pos);
    let x5 = enc_vec3(v.camera_target);
    let x6 = enc_vec3(v.fwd);
    let x7 = enc_vec3(v.right);
    let h6 = x1 + x2 + x3 + x4 + x5 + x6;
    let h5 = x1 + x2 + x3 + x4 + x5;
    let h4 = x1 + x2 + x3 + x4;
    let h3 = x1 + x2 + x3;
    let h2 = x1 + x2;
    // Peel the fields off the left-associated encoding, right to left.
    lemma_concat4(pre, h6, x7, post);
    assert(b == (pre + h6) + x7 + post);
    let s7 = post;
    lemma_concat3(pre, h5, x6);
    lemma_concat4(pre + h5, x6, x7, s7);
    assert(b == (pre + h5) + x6 + (x7 + s7));
    let s6 = x7 + s7;
    lemma_concat3(pre, h4, x5);
    lemma_concat4(pre + h4, x5, x6, s6);
    assert(b == (pre + h4) + x5 + (x6 + s6));
    let s5 = x6 + s6;
    lemma_concat3(pre, h3, x4);
    lemma_concat4(pre + h3, x4, x5, s5);
    assert(b == (pre + h3) + x4 + (x5 + s5));
    let s4 = x5 + s5;
    lemma_concat3(pre, h2, x3);
    lemma_concat4(pre + h2, x3, x4, s4);
    assert(b == (pre + h2) + x3 + (x4 + s4));
    let s3 = x4 + s4;
    lemma_concat3(pre, x1, x2);
    lemma_concat4(pre + x1, x2, x3, s3);
    assert(b == (pre + x1) + x2 + (x3 + s3));
    let s2 = x3 + s3;
    lemma_concat4(pre, x1, x2, s2);
    assert(b == pre + x1 + (x2 + s2));
    let s1 = x2 + s2;
    // Now parse each field where it lies.
    lemma_parse_u8_at(pre, v.players.len() as u8, s1);
    lemma_parse_u8_at(pre + x1, v.objects.len() as u8, s2);
    lemma_parse_vec3_at(pre + h2, v.translation, s3);
    lemma_parse_vec3_at(pre + h3, v.camera_pos, s4);
    lemma_parse_vec3_at(pre + h4, v.camera_target, s5);
    lemma_parse_vec3_at(pre + h5, v.fwd, s6);
    lemma_parse_vec3_at(pre + h6, v.right, s7);
}

/// A sequence of three parts embedded between `pre` and `post`, bracketed
/// at each of the three part boundaries in turn.
proof fn lemma_split3(pre: Seq<u8>, h: Seq<u8>, p: Seq<u8>, o: Seq<u8>, post: Seq<u8>)
    ensures
        pre + (h + p + o) + post == pre + h + (p + (o + post)),
        pre + (h + p + o) + post == (pre + h) + p + (o + post),
        pre + (h + p + o) + post == ((pre + h) + p) + o + post,
{
    assert(pre + (h + p + o) + post =~= pre + h + (p + (o + post)));
    assert(pre + (h + p + o) + post =~= (pre + h) + p + (o + post));
    assert(pre + (h + p + o) + post =~= ((pre + h) + p) + o + post);
}

/// The fixed header of an encoded snapshot parses where the encoding put
/// it.
#[verifier::rlimit(100)]
proof fn lemma_snapshot_header_piece(pre: Seq<u8>, v: SnapshotView, post: Seq<u8>)
    requires
        v.wf(),
    ensures
        parse_snapshot_header(pre + enc_snapshot(v) + post, pre.len() as int) == Some(
            ((
                v.players.len() as u8,
                v.objects.len() as u8,
                v.translation,
                v.camera_pos,
                v.camera_target,
                v.fwd,
                v.right,
            ), pre.len() as int + 62),
        ),
{
    let h = enc_snapshot_header(v);
    let p = enc_poses(v.players);
    let o = enc_objects(v.objects);
    assert(h.len() == 62);
    lemma_split3(pre, h, p, o, post);
    lemma_parse_snapshot_header_at(pre, v, p + (o + post));
}

/// The player list of an encoded snapshot parses where the encoding put
/// it.
#[verifier::rlimit(100)]
proof fn lemma_snapshot_poses_piece(pre: Seq<u8>, v: SnapshotView, post: Seq<u8>)
    requires
        v.wf(),
    ensures
        parse_poses(pre + enc_snapshot(v) + post, pre.len() as int + 62, v.players.len() as int)
            == Some((v.players, pre.len() as int + 62 + enc_poses(v.players).len() as int)),
{
    let h = enc_snapshot_header(v);
    let p = enc_poses(v.players);
    let o = enc_objects(v.objects);
    assert(h.len() == 62);
    lemma_split3(pre, h, p, o, post);
    lemma_parse_poses_at(pre + h, v.players, o + post);
}

/// The object list of an encoded snapshot parses where the encoding put
/// it, ending exactly at the encoding's end.
#[verifier::rlimit(100)]
proof fn lemma_snapshot_objects_piece(pre: Seq<u8>, v: SnapshotView, post: Seq<u8>)
    requires
        v.wf(),
    ensures
        parse_objects(
            pre + enc_snapshot(v) + post,
            pre.len() as int + 62 + enc_poses(v.players).len() as int,
            v.objects.len() as int,
        ) == Some((v.objects, pre.len() as int + enc_snapshot(v).len() as int)),
{
    let h = enc_snapshot_header(v);
    let p = enc_poses(v.players);
    let o = enc_objects(v.objects);
    assert(h.len() == 62);
    lemma_split3(pre, h, p, o, post);
    lemma_parse_objects_at((pre + h) + p, v.objects, post);
}

/// An encoded snapshot parses back from wherever it was written.
#[verifier::rlimit(100)]
pub proof fn lemma_parse_snapshot_at(pre: Seq<u8>, v: SnapshotView, post: Seq<u8>)
    requires
        v.wf(),
    ensures
        parse_snapshot(pre + enc_snapshot(v) + post, pre.len() as int)
            == Some((v, pre.len() as int + enc_snapshot(v).len() as int)),
{
    lemma_snapshot_header_piece(pre, v, post);
    lemma_snapshot_poses_piece(pre, v, post);
    lemma_snapshot_objects_piece(pre, v, post);
    assert((v.players.len() as u8) as int == v.players.len() as int);
    assert((v.objects.len() as u8) as int == v.objects.len() as int);
}

/// For all well-formed snapshots, decoding an encoding yields the snapshot
/// back: round-trip identity for the frame-sync response message.
pub proof fn lemma_snapshot_round_trip(v: SnapshotView)
    requires
        v.wf(),
    ensures
        snapshot_msg(enc_snapshot(v)) == Some(v),
{
    lemma_parse_snapshot_at(Seq::empty(), v, Seq::empty());
    assert(Seq::<u8>::empty() + enc_snapshot(v) + Seq::<u8>::empty() =~= enc_snapshot(v));
}

/// The server's answer to one session request: the initial snapshot on
/// acceptance, or the rejection reason.
#[derive(Debug, Clone, PartialEq, Eq)]
pub enum ServerResponse {
    Accepted(ResponseSignal),
    InvalidRequest(Reason),
}

/// The mathematical content of a session response.
pub enum ServerResponseView {
    Accepted(SnapshotView),
    InvalidRequest(Reason),
}

impl View for ServerResponse {
    type V = ServerResponseView;

    open spec fn view(&self) -> ServerResponseView {
        match self {
            ServerResponse::Accepted(s) => ServerResponseView::Accepted(s@),
            ServerResponse::InvalidRequest(r) => ServerResponseView::InvalidRequest(*r),
        }
    }
}

impl ServerResponseView {
    pub open spec fn wf(self) -> bool {
        match self {
            ServerResponseView::Accepted(s) => s.wf(),
            ServerResponseView::InvalidRequest(_) => true,
        }
    }
}

pub open spec fn enc_server_response(v: ServerResponseView) -> Seq<u8> {
    match v {
        ServerResponseView::Accepted(s) => seq![1u8] + enc_snapshot(s),
        ServerResponseView::InvalidRequest(r) => seq![2u8] + seq![reason_tag(r)],
    }
}

pub open spec fn parse_server_response(b: Seq<u8>, i: int) -> Option<(ServerResponseView, int)> {
    match parse_u8(b, i) {
        None => None,
        Some((tag, i)) => if tag == 1 {
            match parse_snapshot(b, i) {
                None => None,
                Some((s, i)) => Some((ServerResponseView::Accepted(s), i)),
            }
        } else if tag == 2 {
            match parse_reason(b, i) {
                None => None,
                Some((r, i)) => Some((ServerResponseView::InvalidRequest(r), i)),
            }
        } else {
            None
        },
    }
}

/// The session response a whole buffer holds, if it is exactly one
/// well-formed message.
pub open spec fn server_response_msg(b: Seq<u8>) -> Option<ServerResponseView> {
    match parse_server_response(b, 0) {
        None => None,
        Some((v, n)) => if n == b.len() {
            Some(v)
        } else {
            None
        },
    }
}

impl ServerResponse {
    /// Whether this response can be encoded: an accepted response needs an
    /// encodable snapshot.
    pub fn encodable(&self) -> (r: bool)
        ensures
            r == self@.wf(),
    {
        match self {
            ServerResponse::Accepted(s) => s.encodable(),
            ServerResponse::InvalidRequest(_) => true,
        }
    }

    /// Encodes this response: one discriminant byte, then the variant body.
    pub fn to_bytes(&self) -> (r: Vec<u8>)
        requires
            self@.wf(),
        ensures
            r@ == enc_server_response(self@),
    {
        match self {
            ServerResponse::Accepted(s) => {
                let mut out: Vec<u8> = Vec::new();
                write_u8(&mut out, 1);
                let body = s.to_bytes();
                let mut k: usize = 0;
                while k < body.len()
                    invariant
                        k <= body@.len(),
                        out@ == seq![1u8] + body@.subrange(0, k as int),
                    decreases body@.len() - k,
                {
                    out.push(body[k]);
                    k = k + 1;
                    assert(out@ =~= seq![1u8] + body@.subrange(0, k as int));
                }
                assert(body@.subrange(0, body@.len() as int) =~= body@);
                out
            },
            ServerResponse::InvalidRequest(r) => {
                let mut out: Vec<u8> = Vec::new();
                write_u8(&mut out, 2);
                write_reason(&mut out, *r);
                assert(out@ =~= enc_server_response(self@));
                out
            },
        }
    }

    /// Decodes one whole session-response buffer.
    pub fn from_bytes(b: &[u8]) -> (r: Result<ServerResponse, WireError>)
        ensures
            match server_response_msg(b@) {
                Some(v) => r matches Ok(m) && m@ == v,
                None => r == Err::<ServerResponse, WireError>(WireError::MalformedMessage),
            },
    {
        let mut i: usize = 0;
        let tag = match read_u8(b, &mut i) {
            Ok(v) => v,
            Err(e) => {
                return Err(e);
            },
        };
        if tag == 1 {
            let s = match read_snapshot(b, &mut i) {
                Ok(v) => v,
                Err(e) => {
                    return Err(e);
                },
            };
            if i == b.len() {
                Ok(ServerResponse::Accepted(s))
            } else {
                Err(WireError::MalformedMessage)
            }
        } else if tag == 2 {
            let r = match read_reason(b, &mut i) {
                Ok(v) => v,
                Err(e) => {
                    return Err(e);
                },
            };
            if i == b.len() {
                Ok(ServerResponse::InvalidRequest(r))
            } else {
                Err(WireError::MalformedMessage)
            }
        } else {
            Err(WireError::MalformedMessage)
        }
    }
}

/// For all well-formed session responses, decoding an encoding yields the
/// response back: round-trip identity for the session-response message.
#[verifier::rlimit(100)]
pub proof fn lemma_server_response_round_trip(v: ServerResponseView)
    requires
        v.wf(),
    ensures
        server_response_msg(enc_server_response(v)) == Some(v),
{
    let b = enc_server_response(v);
    match v {
        ServerResponseView::Accepted(s) => {
            lemma_parse_u8_at(Seq::empty(), 1u8, enc_snapshot(s));
            assert(Seq::<u8>::empty() + seq![1u8] + enc_snapshot(s) =~= b);
            lemma_parse_snapshot_at(seq![1u8], s, Seq::empty());
            assert(seq![1u8] + enc_snapshot(s) + Seq::<u8>::empty() =~= b);
        },
        ServerResponseView::InvalidRequest(r) => {
            lemma_parse_u8_at(Seq::empty(), 2u8, seq![reason_tag(r)]);
            assert(Seq::<u8>::empty() + seq![2u8] + seq![reason_tag(r)] =~= b);
            lemma_parse_reason_at(seq![2u8], r, Seq::empty());
            assert(seq![2u8] + seq![reason_tag(r)] + Seq::<u8>::empty() =~= b);
        },
    }
}


/// One encoded player summary takes 36 bytes.
pub proof fn lemma_enc_poses_len(ps: Seq<PlayerPose>)
    ensures
        enc_poses(ps).len() == 36 * ps.len(),
    decreases ps.len(),
{
    if ps.len() > 0 {
        lemma_enc_poses_len(ps.drop_first());
    }
}

/// One encoded world object takes 33 bytes.
pub proof fn lemma_enc_objects_len(os: Seq<NetworkObject>)
    ensures
        enc_objects(os).len() == 33 * os.len(),
    decreases os.len(),
{
    if os.len() > 0 {
        lemma_enc_objects_len(os.drop_first());
    }
}

/// A successful player-list parse yields exactly the declared number of
/// summaries and consumes exactly their bytes.
proof fn lemma_parse_poses_len(b: Seq<u8>, i: int, n: int)
    ensures
        parse_poses(b, i, n) matches Some((ps, j)) ==> ps.len() == (if n >= 0 {
            n
        } else {
            0
        }) && j == i + 36 * ps.len(),
    decreases n,
{
    if n > 0 {
        if parse_pose(b, i) is Some {
            let (p, i1) = parse_pose(b, i)->Some_0;
            lemma_parse_poses_len(b, i1, n - 1);
        }
    }
}

/// A successful object-list parse yields exactly the declared number of
/// objects and consumes exactly their bytes.
proof fn lemma_parse_objects_len(b: Seq<u8>, i: int, n: int)
    ensures
        parse_objects(b, i, n) matches Some((os, j)) ==> os.len() == (if n >= 0 {
            n
        } else {
            0
        }) && j == i + 33 * os.len(),
    decreases n,
{
    if n > 0 {
        if parse_network_object(b, i) is Some {
            let (o, i1) = parse_network_object(b, i)->Some_0;
            lemma_parse_objects_len(b, i1, n - 1);
        }
    }
}

/// A successful snapshot parse reads its list lengths from the two count
/// bytes and consumes exactly the bytes of the fixed header and the lists.
proof fn lemma_parse_snapshot_len(b: Seq<u8>, i: int)
    ensures
        parse_snapshot(b, i) matches Some((v, j)) ==> {
            &&& i + 2 <= b.len()
            &&& v.players.len() == b[i] as int
            &&& v.objects.len() == b[i + 1] as int
            &&& j == i + 62 + 36 * v.players.len() + 33 * v.objects.len()
        },
{
    if parse_snapshot_header(b, i) is Some {
        let (header, i1) = parse_snapshot_header(b, i)->Some_0;
        let pc = header.0;
        let oc = header.1;
        assert(pc == b[i]);
        assert(oc == b[i + 1]);
        assert(i1 == i + 62);
        lemma_parse_poses_len(b, i1, pc as int);
        if parse_poses(b, i1, pc as int) is Some {
            let (ps, i2) = parse_poses(b, i1, pc as int)->Some_0;
            lemma_parse_objects_len(b, i2, oc as int);
        }
    }
}

/// The two leading bytes of an encoded snapshot are its list lengths, and
/// the whole encoding's length is fixed by them.
proof fn lemma_enc_snapshot_counts(v: SnapshotView)
    requires
        v.wf(),
    ensures
        enc_snapshot(v).len() == 62 + 36 * v.players.len() + 33 * v.objects.len(),
        enc_snapshot(v)[0] == v.players.len() as u8,
        enc_snapshot(v)[1] == v.objects.len() as u8,
{
    lemma_enc_poses_len(v.players);
    lemma_enc_objects_len(v.objects);
    assert(enc_snapshot_header(v).len() == 62);
    assert(enc_snapshot_header(v)[0] == v.players.len() as u8);
    assert(enc_snapshot_header(v)[1] == v.objects.len() as u8);
}

/// Decoding a snapshot whose player-count byte (index zero) or
/// object-count byte (index one) was falsified yields no value at all — a
/// count that does not match its list leaves nothing to decode, never a
/// partial result.
#[verifier::rlimit(100)]
pub proof fn lemma_falsified_count_rejected(v: SnapshotView, k: int, c: u8)
    requires
        v.wf(),
        0 <= k < 2,
        c != enc_snapshot(v)[k],
    ensures
        snapshot_msg(enc_snapshot(v).update(k, c)) == None::<SnapshotView>,
{
    let b0 = enc_snapshot(v);
    let b = b0.update(k, c);
    lemma_enc_snapshot_counts(v);
    if parse_snapshot(b, 0) is Some {
        let (w, j) = parse_snapshot(b, 0)->Some_0;
        lemma_parse_snapshot_len(b, 0);
        // The parsed list lengths are the buffer's count bytes, one of
        // which was falsified: the consumed length disagrees with the
        // buffer's, so whole-buffer decoding rejects it.
        if k == 0 {
            assert(b[0] == c && b[1] == b0[1]);
            assert(w.players.len() != v.players.len());
            assert(w.objects.len() == v.objects.len());
            assert(j != b.len());
        } else {
            assert(b[0] == b0[0] && b[1] == c);
            assert(w.objects.len() != v.objects.len());
            assert(w.players.len() == v.players.len());
            assert(j != b.len());
        }
    }
}


/// Decoding a truncated snapshot encoding yields no value at all: the
/// count fields promise more bytes than remain in the buffer, so the
/// decoder reports a malformed message rather than a partial result.
pub proof fn lemma_truncated_snapshot_rejected(v: SnapshotView, m: int)
    requires
        v.wf(),
        0 <= m < enc_snapshot(v).len(),
    ensures
        snapshot_msg(enc_snapshot(v).take(m)) == None::<SnapshotView>,
{
    let b0 = enc_snapshot(v);
    let t = b0.take(m);
    lemma_enc_snapshot_counts(v);
    if parse_snapshot(t, 0) is Some {
        let (w, j) = parse_snapshot(t, 0)->Some_0;
        lemma_parse_snapshot_len(t, 0);
        // A successful parse reads its counts from the first two bytes,
        // which truncation left untouched, so it claims to end exactly at
        // the untruncated length — past the end of this buffer.
        assert(t[0] == b0[0]);
        assert(t[1] == b0[1]);
        assert(j == b0.len());
        assert(j != t.len());
    }
}

} // verus!
