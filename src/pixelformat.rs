//! Pixel formats that a surface can hold.
use vstd::prelude::*;

verus! {

/// A value that a surface can store in each of its cells.
pub trait Pixel: Copy + Sized {
    /// The value that a fresh surface holds everywhere.
    spec fn blank() -> Self;

    fn zeroed() -> (r: Self)
        ensures
            r == Self::blank(),
    ;
}

/// An 8-bit-per-channel colour.
#[derive(Clone, Copy, Debug, PartialEq, Eq, Structural)]
pub struct Rgba {
    pub r: u8,
    pub g: u8,
    pub b: u8,
    pub a: u8,
}

impl Pixel for Rgba {
    open spec fn blank() -> Self {
        Rgba { r: 0, g: 0, b: 0, a: 0 }
    }

    fn zeroed() -> (r: Self) {
        Rgba { r: 0, g: 0, b: 0, a: 0 }
    }
}

impl Default for Rgba {
    fn default() -> (r: Self)
        ensures
            r == Rgba::blank(),
    {
        Rgba { r: 0, g: 0, b: 0, a: 0 }
    }
}

/// A depth value; smaller is nearer.
#[derive(Clone, Copy, Debug, PartialEq, Eq, Structural)]
pub struct Depth(pub i32);

impl Pixel for Depth {
    open spec fn blank() -> Self {
        Depth(0)
    }

    fn zeroed() -> (r: Self) {
        Depth(0)
    }
}

impl Default for Depth {
    fn default() -> (r: Self)
        ensures
            r == Depth::blank(),
    {
        Depth(0)
    }
}

} // verus!
