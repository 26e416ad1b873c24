//! Vertex positions and the viewport they are mapped into.
use vstd::prelude::*;

verus! {

/// Clip-space coordinates are fixed-point: this value stands for `1.0`.
pub const CLIP_ONE: i64 = 65536;

/// `p / d` rounded towards zero.
pub open spec fn trunc_div(p: int, d: int) -> int {
    if p >= 0 {
        p / d
    } else {
        -((-p) / d)
    }
}

/// A homogeneous clip-space position.
#[derive(Clone, Copy, Debug)]
pub struct Position<T> {
    pub x: T,
    pub y: T,
    pub z: T,
    pub w: T,
}

/// The rectangle of device pixels that clip space is mapped onto.
#[derive(Clone, Copy, Debug, PartialEq, Eq, Structural)]
pub struct Viewport {
    pub x: i32,
    pub y: i32,
    pub width: u32,
    pub height: u32,
}

impl Viewport {
    /// The device column of the clip-space `x`: `((x + 1) / 2) * width`, truncated, plus the
    /// viewport's left edge.
    pub open spec fn device_x(self, x: int) -> int {
        trunc_div((x + CLIP_ONE) * self.width, 2 * CLIP_ONE) + self.x
    }

    /// The device row of the clip-space `y`: `((1 - y) / 2) * height`, truncated, plus the
    /// viewport's top edge; clip space points up, device rows go down.
    pub open spec fn device_y(self, y: int) -> int {
        trunc_div((CLIP_ONE - y) * self.height, 2 * CLIP_ONE) + self.y
    }

    /// The device position of `p` and its depth, passed through; `None` where a device
    /// coordinate does not fit in an `i32`.
    pub open spec fn maps(self, p: Position<i32>) -> Option<(i32, i32, i32)> {
        let (dx, dy) = (self.device_x(p.x as int), self.device_y(p.y as int));
        if i32::MIN <= dx <= i32::MAX && i32::MIN <= dy <= i32::MAX {
            Some((dx as i32, dy as i32, p.z))
        } else {
            None
        }
    }
}

/// `p / d` rounded towards zero, for a positive `d`.
fn trunc_div_exec(p: i128, d: i128) -> (r: i128)
    requires
        d > 0,
        p > i128::MIN,
    ensures
        r == trunc_div(p as int, d as int),
{
    if p >= 0 {
        p / d
    } else {
        let m: i128 = -p;
        let q: i128 = m / d;
        -q
    }
}

fn in_i32(v: i128) -> (r: bool)
    ensures
        r == (i32::MIN <= v <= i32::MAX),
{
    i32::MIN as i128 <= v && v <= i32::MAX as i128
}

impl Position<i32> {
    /// Maps the fixed-point clip-space position onto the viewport's pixel grid; depth passes
    /// through unchanged and there is no perspective divide. `None` where a device
    /// coordinate would not fit in an `i32`.
    pub fn to_device_coordinates(&self, viewport: &Viewport) -> (r: Option<(i32, i32, i32)>)
        ensures
            r == viewport.maps(*self),
    {
        let two: i128 = 2 * CLIP_ONE as i128;
        let w: i128 = viewport.width as i128;
        let h: i128 = viewport.height as i128;
        assert(-0x1_0000_0000 <= self.x + CLIP_ONE <= 0x1_0000_0000);
        assert(-0x1_0000_0000 * 0x1_0000_0000 <= (self.x + CLIP_ONE) * w <= 0x1_0000_0000
            * 0x1_0000_0000) by (nonlinear_arith)
            requires
                -0x1_0000_0000 <= self.x + CLIP_ONE <= 0x1_0000_0000,
                0 <= w <= 0x1_0000_0000,
        ;
        assert(-0x1_0000_0000 * 0x1_0000_0000 <= (CLIP_ONE - self.y) * h <= 0x1_0000_0000
            * 0x1_0000_0000) by (nonlinear_arith)
            requires
                -0x1_0000_0000 <= CLIP_ONE - self.y <= 0x1_0000_0000,
                0 <= h <= 0x1_0000_0000,
        ;
        let px: i128 = (self.x as i128 + CLIP_ONE as i128) * w;
        let py: i128 = (CLIP_ONE as i128 - self.y as i128) * h;
        let qx: i128 = trunc_div_exec(px, two);
        let qy: i128 = trunc_div_exec(py, two);
        proof {
            vstd::arithmetic::div_mod::lemma_div_is_ordered_by_denominator(
                if px >= 0 { px as int } else { -px },
                1,
                two as int,
            );
            vstd::arithmetic::div_mod::lemma_div_is_ordered_by_denominator(
                if py >= 0 { py as int } else { -py },
                1,
                two as int,
            );
        }
        let dx: i128 = qx + viewport.x as i128;
        let dy: i128 = qy + viewport.y as i128;
        if in_i32(dx) && in_i32(dy) {
            Some((dx as i32, dy as i32, self.z))
        } else {
            None
        }
    }
}

} // verus!
