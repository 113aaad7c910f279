//! The local player's mirror of the server's authoritative state. Every
//! frame, the snapshot replaces the whole transform — position, camera, and
//! basis vectors — wholesale; nothing is reconciled incrementally.

use vstd::prelude::*;

use crate::math::{Vec3Bits, FLOAT_ONE_BITS};
use crate::network::ResponseSignal;
use crate::objects::Object;

verus! {

/// The client's own player: a renderable entity plus the transform mirrored
/// from the most recent snapshot.
#[derive(Clone, Copy, Debug, PartialEq, Eq, Structural)]
pub struct Player {
    pub object: Object,
    pub position: Vec3Bits,
    pub camera_pos: Vec3Bits,
    pub camera_target: Vec3Bits,
    pub fwd: Vec3Bits,
    pub right: Vec3Bits,
}

impl Player {
    /// A player at the given position, looking along the default basis.
    pub fn new(
        camera_pos: Vec3Bits,
        camera_target: Vec3Bits,
        object: Object,
        position: Vec3Bits,
    ) -> (r: Self)
        ensures
            r.object == object,
            r.position == position,
            r.camera_pos == camera_pos,
            r.camera_target == camera_target,
            r.fwd == (Vec3Bits { x: 0, y: 0, z: FLOAT_ONE_BITS }),
            r.right == (Vec3Bits { x: FLOAT_ONE_BITS, y: 0, z: 0 }),
    {
        Player {
            object,
            position,
            camera_pos,
            camera_target,
            fwd: Vec3Bits::forward(),
            right: Vec3Bits::right(),
        }
    }

    /// Replaces the whole transform from the snapshot. The player's own
    /// renderable entity is untouched.
    pub fn set_state(&mut self, new_state: &ResponseSignal)
        ensures
            final(self).position == new_state.translation,
            final(self).camera_pos == new_state.camera_pos,
            final(self).camera_target == new_state.camera_target,
            final(self).fwd == new_state.fwd,
            final(self).right == new_state.right,
            final(self).object == old(self).object,
    {
        self.position = new_state.translation;
        self.camera_pos = new_state.camera_pos;
        self.camera_target = new_state.camera_target;
        self.fwd = new_state.fwd;
        self.right = new_state.right;
    }
}

} // verus!
