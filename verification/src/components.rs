//! What a host entity carries to take part in the voxel world.

use crate::math::{IVec3, Mat3, Vec3, ONE_BITS, ZERO_BITS};
use vstd::prelude::*;

verus! {

/// A single voxel of the given material.
#[derive(Clone, Copy, Debug, PartialEq, Eq, Structural)]
pub struct Particle {
    pub material: u8,
}

/// One side of a portal. `normal` is a unit vector along a grid axis, as
/// single-precision bit patterns.
#[derive(Clone, Copy, Debug, PartialEq, Eq, Structural)]
pub struct Portal {
    pub half_size: IVec3,
    pub normal: Vec3,
}

/// The edges of a box of the given material.
#[derive(Clone, Copy, Debug, PartialEq, Eq, Structural)]
pub struct Edges {
    pub material: u8,
    pub half_size: IVec3,
}

/// A solid box of the given material.
#[derive(Clone, Copy, Debug, PartialEq, Eq, Structural)]
pub struct Box {
    pub material: u8,
    pub half_size: IVec3,
}

/// The moving state of a physics body. The host sets `velocity`; the device
/// writes all three fields when it has simulated a frame.
#[derive(Clone, Copy, Debug, PartialEq, Eq, Structural)]
pub struct Velocity {
    pub velocity: Vec3,
    pub hit_normal: Vec3,
    pub portal_rotation: Mat3,
}

impl Velocity {
    /// A body that moves with `velocity`, has hit nothing and was turned by
    /// no portal.
    pub fn new(velocity: Vec3) -> (v: Velocity)
        ensures
            v == (Velocity {
                velocity,
                hit_normal: Vec3::zero(),
                portal_rotation: Mat3::identity(),
            }),
    {
        Velocity {
            velocity,
            hit_normal: Vec3 { x: ZERO_BITS, y: ZERO_BITS, z: ZERO_BITS },
            portal_rotation: Mat3 {
                x_axis: Vec3 { x: ONE_BITS, y: ZERO_BITS, z: ZERO_BITS },
                y_axis: Vec3 { x: ZERO_BITS, y: ONE_BITS, z: ZERO_BITS },
                z_axis: Vec3 { x: ZERO_BITS, y: ZERO_BITS, z: ONE_BITS },
            },
        }
    }
}

/// Makes a physics body a box of the given half extent.
#[derive(Clone, Copy, Debug, PartialEq, Eq, Structural)]
pub struct BoxCollider {
    pub half_size: IVec3,
}

} // verus!
