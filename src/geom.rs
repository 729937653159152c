use vstd::prelude::*;

verus! {

/// A 3D point as stored in a points chunk.
///
/// Each coordinate holds the bit pattern of an IEEE-754 single-precision
/// number, decoded from four big-endian bytes; `f32::from_bits` turns it
/// into the float.
#[derive(Clone, Copy, Debug, PartialEq, Eq, Structural)]
pub struct Point {
    pub x: u32,
    pub y: u32,
    pub z: u32,
}

} // verus!
