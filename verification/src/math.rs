//! Small vectors as they travel to the device: signed grid coordinates, and
//! single-precision numbers held as their IEEE-754 bit patterns.

use vstd::prelude::*;

verus! {

/// Bit pattern of the single-precision number `0.0`.
pub const ZERO_BITS: u32 = 0;

/// Bit pattern of the single-precision number `1.0`.
pub const ONE_BITS: u32 = 0x3F80_0000;

/// The word that holds a signed integer in two's complement.
pub open spec fn word_of_i32(value: i32) -> u32 {
    if value >= 0 {
        value as u32
    } else {
        (value + 0x1_0000_0000) as u32
    }
}

/// `bytemuck::cast` from `i32` to `u32`. Both types are four bytes wide, so
/// the call cannot fail and returns the bytes of `value` unchanged, read as
/// an unsigned integer: the two's complement word of `value`.
#[verifier::external_body]
pub(crate) fn cast_i32(value: i32) -> (word: u32)
    ensures
        word == word_of_i32(value),
{
    bytemuck::cast(value)
}

/// Three signed integers: a position or extent on the voxel grid.
#[derive(Clone, Copy, Debug, PartialEq, Eq, Structural)]
pub struct IVec3 {
    pub x: i32,
    pub y: i32,
    pub z: i32,
}

impl IVec3 {
    /// The three words that hold the vector, `x` first.
    pub open spec fn words(self) -> Seq<u32> {
        seq![word_of_i32(self.x), word_of_i32(self.y), word_of_i32(self.z)]
    }

    /// The vector with a fourth lane behind its three.
    pub open spec fn extended(self, w: i32) -> IVec4 {
        IVec4 { x: self.x, y: self.y, z: self.z, w }
    }

    pub fn new(x: i32, y: i32, z: i32) -> (v: IVec3)
        ensures
            v == (IVec3 { x, y, z }),
    {
        IVec3 { x, y, z }
    }

    pub fn extend(self, w: i32) -> (v: IVec4)
        ensures
            v == self.extended(w),
    {
        IVec4 { x: self.x, y: self.y, z: self.z, w }
    }
}

/// Four signed integers: three coordinates and a fourth lane.
#[derive(Clone, Copy, Debug, PartialEq, Eq, Structural)]
pub struct IVec4 {
    pub x: i32,
    pub y: i32,
    pub z: i32,
    pub w: i32,
}

/// Four single-precision numbers, each held as its bit pattern.
#[derive(Clone, Copy, Debug, PartialEq, Eq, Structural)]
pub struct Vec4 {
    pub x: u32,
    pub y: u32,
    pub z: u32,
    pub w: u32,
}

/// Three single-precision numbers, each held as its bit pattern.
#[derive(Clone, Copy, Debug, PartialEq, Eq, Structural)]
pub struct Vec3 {
    pub x: u32,
    pub y: u32,
    pub z: u32,
}

impl Vec3 {
    /// The three words that hold the vector, `x` first.
    pub open spec fn words(self) -> Seq<u32> {
        seq![self.x, self.y, self.z]
    }

    /// The vector whose three components are `0.0`.
    pub open spec fn zero() -> Vec3 {
        Vec3 { x: ZERO_BITS, y: ZERO_BITS, z: ZERO_BITS }
    }

    /// The vector with a fourth lane behind its three.
    pub open spec fn extended(self, w: u32) -> Vec4 {
        Vec4 { x: self.x, y: self.y, z: self.z, w }
    }

    pub fn new(x: u32, y: u32, z: u32) -> (v: Vec3)
        ensures
            v == (Vec3 { x, y, z }),
    {
        Vec3 { x, y, z }
    }

    pub fn extend(self, w: u32) -> (v: Vec4)
        ensures
            v == self.extended(w),
    {
        Vec4 { x: self.x, y: self.y, z: self.z, w }
    }
}

/// A 3x3 matrix of single-precision numbers, stored by columns.
#[derive(Clone, Copy, Debug, PartialEq, Eq, Structural)]
pub struct Mat3 {
    pub x_axis: Vec3,
    pub y_axis: Vec3,
    pub z_axis: Vec3,
}

impl Mat3 {
    /// The nine words that hold the matrix, column after column.
    pub open spec fn words(self) -> Seq<u32> {
        self.x_axis.words() + self.y_axis.words() + self.z_axis.words()
    }

    /// The identity matrix: `1.0` on the diagonal, `0.0` elsewhere.
    pub open spec fn identity() -> Mat3 {
        Mat3 {
            x_axis: Vec3 { x: ONE_BITS, y: ZERO_BITS, z: ZERO_BITS },
            y_axis: Vec3 { x: ZERO_BITS, y: ONE_BITS, z: ZERO_BITS },
            z_axis: Vec3 { x: ZERO_BITS, y: ZERO_BITS, z: ONE_BITS },
        }
    }

    pub fn from_cols(x_axis: Vec3, y_axis: Vec3, z_axis: Vec3) -> (m: Mat3)
        ensures
            m == (Mat3 { x_axis, y_axis, z_axis }),
    {
        Mat3 { x_axis, y_axis, z_axis }
    }
}

} // verus!
