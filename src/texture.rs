//! Nearest-neighbour lookups into a surface.
use vstd::prelude::*;

use crate::pixelformat::Pixel;
use crate::shader::FragmentShader;
use crate::surface::Surface;

verus! {

/// Texture coordinates are fixed-point: this value stands for `1.0`.
pub const UV_ONE: i64 = 65536;

/// The texel column (or row) that the coordinate `c` falls in, for a texture `size` texels
/// across: `floor(c * size)` in fixed point.
pub open spec fn texel_of(c: int, size: nat) -> int {
    c * size / (UV_ONE as int)
}

/// Reads texels out of a surface, with a zero border outside it.
pub struct Sampler<'a, P: Pixel> {
    texture: &'a Surface<P>,
}

impl<'a, P: Pixel> Sampler<'a, P> {
    #[verifier::type_invariant]
    spec fn inv(&self) -> bool {
        self.texture.wf()
    }

    /// The surface that is read.
    pub closed spec fn texture(&self) -> Surface<P> {
        *self.texture
    }

    /// The pixel found at the texture coordinates `(u, v)`, zero outside the texture.
    pub open spec fn sample_spec(&self, u: int, v: int) -> P {
        match self.texture().at(texel_of(u, self.texture().w()), texel_of(v, self.texture().h())) {
            Some(p) => p,
            None => P::blank(),
        }
    }

    pub fn new(texture: &'a Surface<P>) -> (r: Self)
        requires
            texture.wf(),
        ensures
            r.texture() == *texture,
    {
        Sampler { texture }
    }

    /// The texel at `(floor(u * width), floor(v * height))`, or the zero pixel outside the
    /// texture; `u` and `v` are fixed-point with `UV_ONE` standing for `1.0`.
    pub fn sample(&self, u: i32, v: i32) -> (r: P)
        ensures
            r == self.sample_spec(u as int, v as int),
    {
        proof {
            use_type_invariant(self);
        }
        let w: i64 = self.texture.width() as i64;
        let h: i64 = self.texture.height() as i64;
        assert(-0x8000_0000 * 0x1_0000_0000 <= u * w < 0x8000_0000 * 0x1_0000_0000) by (nonlinear_arith)
            requires
                -0x8000_0000 <= u < 0x8000_0000,
                0 <= w < 0x1_0000_0000,
        ;
        assert(-0x8000_0000 * 0x1_0000_0000 <= v * h < 0x8000_0000 * 0x1_0000_0000) by (nonlinear_arith)
            requires
                -0x8000_0000 <= v < 0x8000_0000,
                0 <= h < 0x1_0000_0000,
        ;
        let pu: i64 = u as i64 * w;
        let pv: i64 = v as i64 * h;
        if pu < 0 || pv < 0 {
            assert(texel_of(u as int, self.texture().w()) < 0 || texel_of(v as int, self.texture().h()) < 0);
            return P::zeroed();
        }
        let x: i64 = pu / UV_ONE;
        let y: i64 = pv / UV_ONE;
        if x >= w || y >= h {
            return P::zeroed();
        }
        match self.texture.get(x as u32, y as u32) {
            Some(p) => p,
            None => P::zeroed(),
        }
    }
}

/// A texture used as a fragment shader: the attributes are the texture coordinates.
impl<'a, P: Pixel> FragmentShader<(i32, i32), P> for Sampler<'a, P> {
    open spec fn shade_spec(&self, v: (i32, i32)) -> P {
        self.sample_spec(v.0 as int, v.1 as int)
    }

    fn shade(&self, v: (i32, i32)) -> (r: P) {
        self.sample(v.0, v.1)
    }
}

} // verus!
