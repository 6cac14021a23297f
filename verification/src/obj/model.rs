use vstd::prelude::*;

verus! {

/// A two-component vector, used for UV coordinates.  The loader
/// instantiates `T` with the raw IEEE 754 binary32 bit pattern of each
/// component (`u32`), so equality between vectors is bit-exact equality of
/// the underlying floating-point values.
#[derive(PartialOrd, PartialEq, Eq, Structural, Debug, Copy, Clone)]
pub struct Vector<T: Copy> {
    pub x: T,
    pub y: T,
}

impl<T: Copy> Vector<T> {
    pub fn new(x: T, y: T) -> (v: Self)
        ensures
            v == (Vector { x, y }),
    {
        Self { x, y }
    }
}

/// A three-component point.  The loader instantiates `T` with the raw
/// IEEE 754 binary64 bit pattern of each coordinate (`u64`), so equality
/// between positions is bit-exact equality of the underlying values.
#[derive(PartialOrd, PartialEq, Eq, Structural, Debug, Copy, Clone)]
pub struct Position<T: Copy> {
    pub x: T,
    pub y: T,
    pub z: T,
}

impl<T: Copy> Position<T> {
    pub fn new(x: T, y: T, z: T) -> (p: Self)
        ensures
            p == (Position { x, y, z }),
    {
        Self { x, y, z }
    }
}

/// One polygon: an ordered list of corners, each the pair of a global
/// position-pool index and a global UV-pool index.
#[derive(Debug, Clone)]
pub struct Face {
    pub vertex_normals: Vec<(u32, u32)>,
}

} // verus!
