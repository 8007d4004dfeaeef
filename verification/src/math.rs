//! Small vectors of unsigned integers.
use vstd::prelude::*;

verus! {

/// Unsigned grid coordinates.
#[derive(Debug, Clone, Copy, PartialEq, Eq, Hash, Structural)]
pub struct UVec3 {
    pub x: u32,
    pub y: u32,
    pub z: u32,
}

impl UVec3 {
    pub fn new(x: u32, y: u32, z: u32) -> (r: UVec3)
        ensures
            r == (UVec3 { x, y, z }),
    {
        UVec3 { x, y, z }
    }

    /// The coordinate on `axis`.
    pub open spec fn axis_value(self, axis: nat) -> nat {
        if axis == 0 {
            self.x as nat
        } else if axis == 1 {
            self.y as nat
        } else {
            self.z as nat
        }
    }
}

impl From<[u32; 3]> for UVec3 {
    fn from(a: [u32; 3]) -> (r: UVec3) {
        UVec3 { x: a[0], y: a[1], z: a[2] }
    }
}

impl vstd::std_specs::convert::FromSpecImpl<[u32; 3]> for UVec3 {
    open spec fn obeys_from_spec() -> bool {
        true
    }

    open spec fn from_spec(a: [u32; 3]) -> UVec3 {
        UVec3 { x: a[0], y: a[1], z: a[2] }
    }
}

/// Two unsigned integers.
#[derive(Debug, Clone, Copy, PartialEq, Eq, Hash, Structural)]
pub struct UVec2 {
    pub x: u32,
    pub y: u32,
}

impl UVec2 {
    pub fn new(x: u32, y: u32) -> (r: UVec2)
        ensures
            r == (UVec2 { x, y }),
    {
        UVec2 { x, y }
    }
}

/// Four unsigned integers.
#[derive(Debug, Clone, Copy, PartialEq, Eq, Hash, Structural)]
pub struct UVec4 {
    pub x: u32,
    pub y: u32,
    pub z: u32,
    pub w: u32,
}

impl UVec4 {
    pub fn new(x: u32, y: u32, z: u32, w: u32) -> (r: UVec4)
        ensures
            r == (UVec4 { x, y, z, w }),
    {
        UVec4 { x, y, z, w }
    }
}

} // verus!
