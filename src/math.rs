//! Exact interpolation on integers.
use vstd::prelude::*;
use vstd::arithmetic::div_mod::lemma_fundamental_div_mod_converse;

verus! {

/// The largest numerator or denominator a coefficient may have.
pub const RATIO_LIMIT: i128 = 0x400_0000_0000_0000_0000_0000;

/// The fraction `num / den`, a coefficient of interpolation. It may lie outside `[0, 1]`,
/// where blending extrapolates.
#[derive(Clone, Copy, Debug, PartialEq, Eq, Structural)]
pub struct Ratio {
    pub num: i128,
    pub den: i128,
}

impl Ratio {
    /// The denominator is positive and both parts are within `RATIO_LIMIT`.
    pub open spec fn wf(self) -> bool {
        &&& 0 < self.den <= RATIO_LIMIT
        &&& -RATIO_LIMIT <= self.num <= RATIO_LIMIT
    }

    /// The fraction lies in `[0, 1]`.
    pub open spec fn in_unit(self) -> bool {
        0 <= self.num <= self.den
    }
}

/// `v` held to the range of `i32`.
pub open spec fn saturate_i32(v: int) -> i32 {
    if v < i32::MIN {
        i32::MIN
    } else if v > i32::MAX {
        i32::MAX
    } else {
        v as i32
    }
}

/// `a + t * (b - a)`, rounded down.
pub open spec fn lerp_int(a: int, b: int, t: Ratio) -> int {
    a + (b - a) * (t.num as int) / (t.den as int)
}

/// The quotient `p / d` rounded towards negative infinity.
pub(crate) fn floor_div(p: i128, d: i128) -> (r: i128)
    requires
        0 < d <= 0x1000_0000_0000_0000_0000_0000_0000_0000,
        -0x1000_0000_0000_0000_0000_0000_0000_0000 <= p <= 0x1000_0000_0000_0000_0000_0000_0000_0000,
    ensures
        r == p / d,
{
    if p >= 0 {
        p / d
    } else {
        let m: i128 = -p;
        let q: i128 = (m + d - 1) / d;
        proof {
            let rr = (m + d - 1) % (d as int);
            vstd::arithmetic::div_mod::lemma_fundamental_div_mod(m + d - 1, d as int);
            assert(p == (-q) * d + (d - 1 - rr)) by (nonlinear_arith)
                requires
                    m + d - 1 == d * q + rr,
                    p == -m,
            ;
            lemma_fundamental_div_mod_converse(p as int, d as int, -q, d - 1 - rr);
        }
        -q
    }
}

/// Interpolating stays between the two ends and meets each end at `0` and `1`.
pub proof fn lemma_lerp_between(a: int, b: int, t: Ratio)
    requires
        t.den > 0,
        t.in_unit(),
    ensures
        a <= b ==> a <= lerp_int(a, b, t) <= b,
        b <= a ==> b <= lerp_int(a, b, t) <= a,
        t.num == 0 ==> lerp_int(a, b, t) == a,
        t.num == t.den ==> lerp_int(a, b, t) == b,
{
    let d = b - a;
    let p = d * t.num;
    let q = p / t.den as int;
    let r = p % t.den as int;
    vstd::arithmetic::div_mod::lemma_fundamental_div_mod(p, t.den as int);
    assert(0 <= r < t.den);
    if d >= 0 {
        assert(0 <= p <= d * t.den) by (nonlinear_arith)
            requires
                d >= 0,
                0 <= t.num <= t.den,
                p == d * t.num,
        ;
        assert(0 <= q <= d) by (nonlinear_arith)
            requires
                p == t.den * q + r,
                0 <= r < t.den,
                0 <= p <= d * t.den,
        ;
    } else {
        assert(d * t.den <= p <= 0) by (nonlinear_arith)
            requires
                d < 0,
                0 <= t.num <= t.den,
                p == d * t.num,
        ;
        assert(d <= q <= 0) by (nonlinear_arith)
            requires
                p == t.den * q + r,
                0 <= r < t.den,
                d * t.den <= p <= 0,
        ;
    }
    if t.num == 0 {
        assert(p == 0);
        lemma_fundamental_div_mod_converse(p, t.den as int, 0, 0);
    }
    if t.num == t.den {
        lemma_fundamental_div_mod_converse(p, t.den as int, d, 0);
    }
}

/// Values that can be blended linearly by a coefficient.
pub trait Lerp: Sized {
    spec fn lerp_spec(a: Self, b: Self, t: Ratio) -> Self;

    fn lerp(&self, other: Self, t: Ratio) -> (r: Self)
        requires
            t.wf(),
        ensures
            r == Self::lerp_spec(*self, other, t),
    ;
}

impl Lerp for i32 {
    /// Rounded down, and held to the range of `i32` where the coefficient extrapolates.
    open spec fn lerp_spec(a: i32, b: i32, t: Ratio) -> i32 {
        saturate_i32(lerp_int(a as int, b as int, t))
    }

    fn lerp(&self, other: i32, t: Ratio) -> (r: i32) {
        let a: i32 = *self;
        proof {
            assert(-(0x1_0000_0000 * RATIO_LIMIT) <= (other - a) * t.num <= 0x1_0000_0000
                * RATIO_LIMIT) by (nonlinear_arith)
                requires
                    -0x1_0000_0000 <= other - a <= 0x1_0000_0000,
                    -RATIO_LIMIT <= t.num <= RATIO_LIMIT,
            ;
        }
        let p: i128 = (other as i128 - a as i128) * t.num;
        let q: i128 = floor_div(p, t.den);
        proof {
            let (pp, dd) = (p as int, t.den as int);
            if pp >= 0 {
                assert(0 <= pp / dd <= pp) by (nonlinear_arith)
                    requires
                        pp >= 0,
                        dd > 0,
                ;
            } else {
                vstd::arithmetic::div_mod::lemma_fundamental_div_mod(pp, dd);
                assert(pp <= pp / dd < 0) by (nonlinear_arith)
                    requires
                        pp < 0,
                        dd > 0,
                        pp == dd * (pp / dd) + pp % dd,
                        0 <= pp % dd < dd,
                ;
            }
        }
        let v: i128 = a as i128 + q;
        if v < i32::MIN as i128 {
            i32::MIN
        } else if v > i32::MAX as i128 {
            i32::MAX
        } else {
            v as i32
        }
    }
}

} // verus!
