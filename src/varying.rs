//! Values that vary from vertex to vertex and are blended across a triangle.
use vstd::prelude::*;

use crate::math::{Lerp, RATIO_LIMIT, Ratio, lemma_lerp_between};
use crate::pixelformat::Depth;

verus! {

/// An attribute, or a tuple of attributes, blended between two vertices; a coefficient outside
/// `[0, 1]` extrapolates.
pub trait Varying: Sized {
    spec fn vary_spec(a: Self, b: Self, t: Ratio) -> Self;

    fn vary(&self, other: Self, t: Ratio) -> (r: Self)
        requires
            t.wf(),
        ensures
            r == Self::vary_spec(*self, other, t),
    ;

    /// Blending by `0` gives the first value and blending by `1` the second.
    proof fn lemma_vary_ends(a: Self, b: Self, den: i128)
        requires
            0 < den <= RATIO_LIMIT,
        ensures
            Self::vary_spec(a, b, Ratio { num: 0, den }) == a,
            Self::vary_spec(a, b, Ratio { num: den, den }) == b,
    ;
}

impl Varying for () {
    open spec fn vary_spec(a: (), b: (), t: Ratio) -> () {
        ()
    }

    fn vary(&self, other: (), t: Ratio) -> (r: ()) {
    }

    proof fn lemma_vary_ends(a: (), b: (), den: i128) {
    }
}

impl Varying for i32 {
    open spec fn vary_spec(a: i32, b: i32, t: Ratio) -> i32 {
        <i32 as Lerp>::lerp_spec(a, b, t)
    }

    fn vary(&self, other: i32, t: Ratio) -> (r: i32) {
        self.lerp(other, t)
    }

    proof fn lemma_vary_ends(a: i32, b: i32, den: i128) {
        lemma_lerp_between(a as int, b as int, Ratio { num: 0, den });
        lemma_lerp_between(a as int, b as int, Ratio { num: den, den });
    }
}

impl Varying for Depth {
    open spec fn vary_spec(a: Depth, b: Depth, t: Ratio) -> Depth {
        Depth(<i32 as Varying>::vary_spec(a.0, b.0, t))
    }

    fn vary(&self, other: Depth, t: Ratio) -> (r: Depth) {
        Depth(self.0.vary(other.0, t))
    }

    proof fn lemma_vary_ends(a: Depth, b: Depth, den: i128) {
        <i32 as Varying>::lemma_vary_ends(a.0, b.0, den);
    }
}

impl<A: Varying, B: Varying> Varying for (A, B) {
    open spec fn vary_spec(a: (A, B), b: (A, B), t: Ratio) -> (A, B) {
        (A::vary_spec(a.0, b.0, t), B::vary_spec(a.1, b.1, t))
    }

    fn vary(&self, other: (A, B), t: Ratio) -> (r: (A, B)) {
        (self.0.vary(other.0, t), self.1.vary(other.1, t))
    }

    proof fn lemma_vary_ends(a: (A, B), b: (A, B), den: i128) {
        A::lemma_vary_ends(a.0, b.0, den);
        B::lemma_vary_ends(a.1, b.1, den);
    }
}

impl<A: Varying, B: Varying, C: Varying> Varying for (A, B, C) {
    open spec fn vary_spec(a: (A, B, C), b: (A, B, C), t: Ratio) -> (A, B, C) {
        (A::vary_spec(a.0, b.0, t), B::vary_spec(a.1, b.1, t), C::vary_spec(a.2, b.2, t))
    }

    fn vary(&self, other: (A, B, C), t: Ratio) -> (r: (A, B, C)) {
        (self.0.vary(other.0, t), self.1.vary(other.1, t), self.2.vary(other.2, t))
    }

    proof fn lemma_vary_ends(a: (A, B, C), b: (A, B, C), den: i128) {
        A::lemma_vary_ends(a.0, b.0, den);
        B::lemma_vary_ends(a.1, b.1, den);
        C::lemma_vary_ends(a.2, b.2, den);
    }
}

impl<A: Varying, B: Varying, C: Varying, D: Varying> Varying for (A, B, C, D) {
    open spec fn vary_spec(a: (A, B, C, D), b: (A, B, C, D), t: Ratio) -> (A, B, C, D) {
        (
            A::vary_spec(a.0, b.0, t),
            B::vary_spec(a.1, b.1, t),
            C::vary_spec(a.2, b.2, t),
            D::vary_spec(a.3, b.3, t),
        )
    }

    fn vary(&self, other: (A, B, C, D), t: Ratio) -> (r: (A, B, C, D)) {
        (
            self.0.vary(other.0, t),
            self.1.vary(other.1, t),
            self.2.vary(other.2, t),
            self.3.vary(other.3, t),
        )
    }

    proof fn lemma_vary_ends(a: (A, B, C, D), b: (A, B, C, D), den: i128) {
        A::lemma_vary_ends(a.0, b.0, den);
        B::lemma_vary_ends(a.1, b.1, den);
        C::lemma_vary_ends(a.2, b.2, den);
        D::lemma_vary_ends(a.3, b.3, den);
    }
}

impl<A: Varying, B: Varying, C: Varying, D: Varying, E: Varying> Varying for (A, B, C, D, E) {
    open spec fn vary_spec(a: (A, B, C, D, E), b: (A, B, C, D, E), t: Ratio) -> (A, B, C, D, E) {
        (
            A::vary_spec(a.0, b.0, t),
            B::vary_spec(a.1, b.1, t),
            C::vary_spec(a.2, b.2, t),
            D::vary_spec(a.3, b.3, t),
            E::vary_spec(a.4, b.4, t),
        )
    }

    fn vary(&self, other: (A, B, C, D, E), t: Ratio) -> (r: (A, B, C, D, E)) {
        (
            self.0.vary(other.0, t),
            self.1.vary(other.1, t),
            self.2.vary(other.2, t),
            self.3.vary(other.3, t),
            self.4.vary(other.4, t),
        )
    }

    proof fn lemma_vary_ends(a: (A, B, C, D, E), b: (A, B, C, D, E), den: i128) {
        A::lemma_vary_ends(a.0, b.0, den);
        B::lemma_vary_ends(a.1, b.1, den);
        C::lemma_vary_ends(a.2, b.2, den);
        D::lemma_vary_ends(a.3, b.3, den);
        E::lemma_vary_ends(a.4, b.4, den);
    }
}

impl<A: Varying, B: Varying, C: Varying, D: Varying, E: Varying, F: Varying> Varying for (A, B, C, D, E, F) {
    open spec fn vary_spec(a: (A, B, C, D, E, F), b: (A, B, C, D, E, F), t: Ratio) -> (A, B, C, D, E, F) {
        (
            A::vary_spec(a.0, b.0, t),
            B::vary_spec(a.1, b.1, t),
            C::vary_spec(a.2, b.2, t),
            D::vary_spec(a.3, b.3, t),
            E::vary_spec(a.4, b.4, t),
            F::vary_spec(a.5, b.5, t),
        )
    }

    fn vary(&self, other: (A, B, C, D, E, F), t: Ratio) -> (r: (A, B, C, D, E, F)) {
        (
            self.0.vary(other.0, t),
            self.1.vary(other.1, t),
            self.2.vary(other.2, t),
            self.3.vary(other.3, t),
            self.4.vary(other.4, t),
            self.5.vary(other.5, t),
        )
    }

    proof fn lemma_vary_ends(a: (A, B, C, D, E, F), b: (A, B, C, D, E, F), den: i128) {
        A::lemma_vary_ends(a.0, b.0, den);
        B::lemma_vary_ends(a.1, b.1, den);
        C::lemma_vary_ends(a.2, b.2, den);
        D::lemma_vary_ends(a.3, b.3, den);
        E::lemma_vary_ends(a.4, b.4, den);
        F::lemma_vary_ends(a.5, b.5, den);
    }
}

impl<A: Varying, B: Varying, C: Varying, D: Varying, E: Varying, F: Varying, G: Varying> Varying for (A, B, C, D, E, F, G) {
    open spec fn vary_spec(a: (A, B, C, D, E, F, G), b: (A, B, C, D, E, F, G), t: Ratio) -> (A, B, C, D, E, F, G) {
        (
            A::vary_spec(a.0, b.0, t),
            B::vary_spec(a.1, b.1, t),
            C::vary_spec(a.2, b.2, t),
            D::vary_spec(a.3, b.3, t),
            E::vary_spec(a.4, b.4, t),
            F::vary_spec(a.5, b.5, t),
            G::vary_spec(a.6, b.6, t),
        )
    }

    fn vary(&self, other: (A, B, C, D, E, F, G), t: Ratio) -> (r: (A, B, C, D, E, F, G)) {
        (
            self.0.vary(other.0, t),
            self.1.vary(other.1, t),
            self.2.vary(other.2, t),
            self.3.vary(other.3, t),
            self.4.vary(other.4, t),
            self.5.vary(other.5, t),
            self.6.vary(other.6, t),
        )
    }

    proof fn lemma_vary_ends(a: (A, B, C, D, E, F, G), b: (A, B, C, D, E, F, G), den: i128) {
        A::lemma_vary_ends(a.0, b.0, den);
        B::lemma_vary_ends(a.1, b.1, den);
        C::lemma_vary_ends(a.2, b.2, den);
        D::lemma_vary_ends(a.3, b.3, den);
        E::lemma_vary_ends(a.4, b.4, den);
        F::lemma_vary_ends(a.5, b.5, den);
        G::lemma_vary_ends(a.6, b.6, den);
    }
}

impl<A: Varying, B: Varying, C: Varying, D: Varying, E: Varying, F: Varying, G: Varying, H: Varying> Varying for (A, B, C, D, E, F, G, H) {
    open spec fn vary_spec(a: (A, B, C, D, E, F, G, H), b: (A, B, C, D, E, F, G, H), t: Ratio) -> (A, B, C, D, E, F, G, H) {
        (
            A::vary_spec(a.0, b.0, t),
            B::vary_spec(a.1, b.1, t),
            C::vary_spec(a.2, b.2, t),
            D::vary_spec(a.3, b.3, t),
            E::vary_spec(a.4, b.4, t),
            F::vary_spec(a.5, b.5, t),
            G::vary_spec(a.6, b.6, t),
            H::vary_spec(a.7, b.7, t),
        )
    }

    fn vary(&self, other: (A, B, C, D, E, F, G, H), t: Ratio) -> (r: (A, B, C, D, E, F, G, H)) {
        (
            self.0.vary(other.0, t),
            self.1.vary(other.1, t),
            self.2.vary(other.2, t),
            self.3.vary(other.3, t),
            self.4.vary(other.4, t),
            self.5.vary(other.5, t),
            self.6.vary(other.6, t),
            self.7.vary(other.7, t),
        )
    }

    proof fn lemma_vary_ends(a: (A, B, C, D, E, F, G, H), b: (A, B, C, D, E, F, G, H), den: i128) {
        A::lemma_vary_ends(a.0, b.0, den);
        B::lemma_vary_ends(a.1, b.1, den);
        C::lemma_vary_ends(a.2, b.2, den);
        D::lemma_vary_ends(a.3, b.3, den);
        E::lemma_vary_ends(a.4, b.4, den);
        F::lemma_vary_ends(a.5, b.5, den);
        G::lemma_vary_ends(a.6, b.6, den);
        H::lemma_vary_ends(a.7, b.7, den);
    }
}

/// Blending is affine at its ends for every varying type: `vary(a, b, 0) == a` and
/// `vary(a, b, 1) == b`.
pub proof fn lemma_vary_affine_ends<V: Varying>(a: V, b: V, den: i128)
    requires
        0 < den <= RATIO_LIMIT,
    ensures
        V::vary_spec(a, b, Ratio { num: 0, den }) == a,
        V::vary_spec(a, b, Ratio { num: den, den }) == b,
{
    V::lemma_vary_ends(a, b, den);
}

/// A pair blends each of its parts on its own, with the same coefficient.
pub proof fn lemma_vary_componentwise<A: Varying, B: Varying>(a: (A, B), b: (A, B), t: Ratio)
    ensures
        <(A, B) as Varying>::vary_spec(a, b, t).0 == A::vary_spec(a.0, b.0, t),
        <(A, B) as Varying>::vary_spec(a, b, t).1 == B::vary_spec(a.1, b.1, t),
{
}

/// A blended attribute lies between the attribute's values at the two ends.
pub proof fn lemma_vary_between(a: i32, b: i32, t: Ratio)
    requires
        t.wf(),
        t.in_unit(),
    ensures
        a <= b ==> a <= <i32 as Varying>::vary_spec(a, b, t) <= b,
        b <= a ==> b <= <i32 as Varying>::vary_spec(a, b, t) <= a,
{
    lemma_lerp_between(a as int, b as int, t);
}

} // verus!
