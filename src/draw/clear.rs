//! Filling a whole surface with one value.
use vstd::prelude::*;

use crate::pixelformat::Pixel;
use crate::surface::{Surface, lemma_uniform_reads};

verus! {

/// Overwrites every pixel of `surface` with `value`.
pub struct ClearPipeline<'a, P: Pixel> {
    pub surface: &'a mut Surface<P>,
    pub value: P,
}

impl<'a, P: Pixel> ClearPipeline<'a, P> {
    /// Runs the clear: afterwards every cell of the grid holds `value`.
    pub fn run(&mut self)
        requires
            old(self).surface.wf(),
        ensures
            final(self).value == old(self).value,
            *final(final(self).surface) == *final(old(self).surface),
            final(self).surface.wf(),
            final(self).surface.w() == old(self).surface.w(),
            final(self).surface.h() == old(self).surface.h(),
            final(self).surface.pixels() == Seq::new(
                old(self).surface.pixels().len(),
                |i: int| old(self).value,
            ),
    {
        let value = self.value;
        let data = self.surface.data_mut();
        let n = data.len();
        let mut i: usize = 0;
        while i < n
            invariant
                i <= n,
                n == data@.len(),
                forall|j: int| 0 <= j < i ==> data@[j] == value,
            decreases n - i,
        {
            data[i] = value;
            i = i + 1;
        }
        assert(data@ =~= Seq::new(n as nat, |j: int| value));
    }
}

/// After a clear, every cell of the grid reads the clear value.
pub proof fn lemma_clear_then_get<P: Pixel>(before: Surface<P>, after: Surface<P>, value: P, x: int, y: int)
    requires
        before.wf(),
        after.wf(),
        after.w() == before.w(),
        after.h() == before.h(),
        after.pixels() == Seq::new(before.pixels().len(), |i: int| value),
        after.in_bounds(x, y),
    ensures
        after.at(x, y) == Some(value),
{
    lemma_uniform_reads(after, value, x, y);
}

} // verus!
