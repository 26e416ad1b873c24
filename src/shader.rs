//! Fragment shaders: what colour a fragment gets from its blended attributes.
use vstd::prelude::*;

use crate::pixelformat::{Depth, Pixel};
use crate::vertex::Position;

verus! {

/// Turns the blended attributes of a fragment into a pixel.
pub trait FragmentShader<V, P> {
    spec fn shade_spec(&self, v: V) -> P;

    fn shade(&self, v: V) -> (r: P)
        ensures
            r == self.shade_spec(v),
    ;
}

/// Gives every fragment the same pixel.
#[derive(Clone, Copy, Debug)]
pub struct SolidColor<P> {
    pub color: P,
}

impl<V, P: Pixel> FragmentShader<V, P> for SolidColor<P> {
    open spec fn shade_spec(&self, v: V) -> P {
        self.color
    }

    fn shade(&self, v: V) -> (r: P) {
        self.color
    }
}

/// Writes the blended attribute itself as the pixel.
#[derive(Clone, Copy, Debug)]
pub struct PassThrough;

impl<P: Pixel> FragmentShader<P, P> for PassThrough {
    open spec fn shade_spec(&self, v: P) -> P {
        v
    }

    fn shade(&self, v: P) -> (r: P) {
        v
    }
}

/// Turns a vertex into its fixed-point clip-space position and its attributes.
pub trait VertexShader<T, V> {
    spec fn shade_spec(&self, v: T) -> (Position<i32>, V);

    fn shade(&self, v: &T) -> (r: (Position<i32>, V))
        ensures
            r == self.shade_spec(*v),
    ;
}

/// Takes vertices that already carry their clip-space position and attributes.
#[derive(Clone, Copy, Debug)]
pub struct Prepared;

impl<V: Copy> VertexShader<(Position<i32>, V), V> for Prepared {
    open spec fn shade_spec(&self, v: (Position<i32>, V)) -> (Position<i32>, V) {
        v
    }

    fn shade(&self, v: &(Position<i32>, V)) -> (r: (Position<i32>, V)) {
        *v
    }
}

/// Converts a blended depth into the value the depth surface stores and compares.
pub trait DepthMap {
    spec fn map_spec(&self, z: i32) -> Depth;

    fn map(&self, z: i32) -> (r: Depth)
        ensures
            r == self.map_spec(z),
    ;
}

/// Stores the blended depth as it is.
#[derive(Clone, Copy, Debug)]
pub struct LinearDepth;

impl DepthMap for LinearDepth {
    open spec fn map_spec(&self, z: i32) -> Depth {
        Depth(z)
    }

    fn map(&self, z: i32) -> (r: Depth) {
        Depth(z)
    }
}

/// Stores the blended depth reversed, so that larger values count as nearer.
#[derive(Clone, Copy, Debug)]
pub struct ReversedDepth;

impl DepthMap for ReversedDepth {
    open spec fn map_spec(&self, z: i32) -> Depth {
        Depth((-1 - z) as i32)
    }

    fn map(&self, z: i32) -> (r: Depth) {
        Depth(-1 - z)
    }
}

} // verus!
