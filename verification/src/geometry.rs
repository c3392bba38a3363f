use vstd::prelude::*;

verus! {

/// A point of the pixel grid.
#[derive(Clone, Copy, Debug, PartialEq, Eq, Structural)]
pub struct Vector2i {
    pub x: i32,
    pub y: i32,
}

impl Vector2i {
    /// The point `(x, y)`.
    pub fn new(x: i32, y: i32) -> (r: Self)
        ensures
            r.x == x,
            r.y == y,
    {
        Vector2i { x, y }
    }
}

/// Four unsigned components: the red, green, blue and alpha channels of a
/// colour, in that order.
#[derive(Clone, Copy, Debug, PartialEq, Eq, Structural)]
pub struct Vector4u {
    pub x: u32,
    pub y: u32,
    pub z: u32,
    pub w: u32,
}

impl Vector4u {
    /// The vector `(x, y, z, w)`.
    pub fn new(x: u32, y: u32, z: u32, w: u32) -> (r: Self)
        ensures
            r.x == x,
            r.y == y,
            r.z == z,
            r.w == w,
    {
        Vector4u { x, y, z, w }
    }
}

} // verus!
