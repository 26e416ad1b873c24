//! A two-dimensional grid of pixels, stored row by row.
use vstd::prelude::*;

use crate::pixelformat::Pixel;

verus! {

/// Why a buffer could not become a surface.
#[derive(Clone, Copy, Debug, PartialEq, Eq, Structural)]
pub enum SurfaceError {
    /// The buffer does not hold exactly `width * height` pixels.
    BufferSize { expected: u64, actual: u64 },
}

/// The cell `(x, y)` of a `w` by `h` grid stored row by row, or `None` outside it.
pub open spec fn read_cell<P>(cells: Seq<P>, w: nat, h: nat, x: int, y: int) -> Option<P> {
    if 0 <= x < w && 0 <= y < h {
        Some(cells[y * w + x])
    } else {
        None
    }
}

/// The grid after writing `p` at `(x, y)`; outside the grid nothing changes.
pub open spec fn write_cell<P>(cells: Seq<P>, w: nat, h: nat, x: int, y: int, p: P) -> Seq<P> {
    if 0 <= x < w && 0 <= y < h {
        cells.update(y * w + x, p)
    } else {
        cells
    }
}

/// A `width` by `height` grid of pixels, row-major, origin at the top left.
#[derive(Clone)]
pub struct Surface<P: Pixel> {
    width: u32,
    height: u32,
    data: Vec<P>,
}

impl<P: Pixel> Surface<P> {
    /// The number of columns.
    pub closed spec fn w(&self) -> nat {
        self.width as nat
    }

    /// The number of rows.
    pub closed spec fn h(&self) -> nat {
        self.height as nat
    }

    /// The pixels, row after row.
    pub closed spec fn pixels(&self) -> Seq<P> {
        self.data@
    }

    /// The buffer holds exactly one pixel per cell, and its length is a `usize`.
    pub open spec fn wf(&self) -> bool {
        &&& self.pixels().len() == self.w() * self.h()
        &&& self.pixels().len() <= usize::MAX
    }

    pub open spec fn in_bounds(&self, x: int, y: int) -> bool {
        0 <= x < self.w() && 0 <= y < self.h()
    }

    /// Where the cell `(x, y)` sits in the buffer.
    pub open spec fn index_of(&self, x: int, y: int) -> int {
        y * self.w() + x
    }

    /// The pixel at `(x, y)`, or `None` outside the grid.
    pub open spec fn at(&self, x: int, y: int) -> Option<P> {
        read_cell(self.pixels(), self.w(), self.h(), x, y)
    }

    /// The surface after writing `p` at `(x, y)`; outside the grid nothing changes.
    pub open spec fn written(&self, x: int, y: int, p: P) -> Seq<P> {
        write_cell(self.pixels(), self.w(), self.h(), x, y, p)
    }

    /// A surface whose every pixel is the blank value.
    pub fn new(width: u32, height: u32) -> (r: Self)
        requires
            width as int * height as int <= usize::MAX,
        ensures
            r.wf(),
            r.w() == width,
            r.h() == height,
            r.pixels() == Seq::new(width as nat * height as nat, |i: int| P::blank()),
    {
        let n: usize = width as usize * height as usize;
        let mut data: Vec<P> = Vec::with_capacity(n);
        let mut i: usize = 0;
        while i < n
            invariant
                i <= n,
                data@ == Seq::new(i as nat, |j: int| P::blank()),
            decreases n - i,
        {
            data.push(P::zeroed());
            i = i + 1;
            assert(data@ =~= Seq::new(i as nat, |j: int| P::blank()));
        }
        Surface { width, height, data }
    }

    /// Wraps a buffer of exactly `width * height` pixels; any other length is refused.
    pub fn from_buffer(width: u32, height: u32, buffer: Vec<P>) -> (r: Result<Self, SurfaceError>)
        ensures
            buffer@.len() == width as int * height as int <==> r is Ok,
            r matches Ok(s) ==> s.wf() && s.w() == width && s.h() == height && s.pixels()
                == buffer@,
            r matches Err(e) ==> e == (SurfaceError::BufferSize {
                expected: (width as int * height as int) as u64,
                actual: buffer@.len() as u64,
            }),
    {
        assert(width as int * height as int <= u32::MAX as int * u32::MAX as int) by (nonlinear_arith);
        let expected: u64 = width as u64 * height as u64;
        let actual: u64 = buffer.len() as u64;
        if actual == expected {
            Ok(Surface { width, height, data: buffer })
        } else {
            Err(SurfaceError::BufferSize { expected, actual })
        }
    }

    pub fn width(&self) -> (r: u32)
        ensures
            r == self.w(),
    {
        self.width
    }

    pub fn height(&self) -> (r: u32)
        ensures
            r == self.h(),
    {
        self.height
    }

    /// The pixels, row after row.
    pub fn data(&self) -> (r: &[P])
        ensures
            r@ == self.pixels(),
    {
        self.data.as_slice()
    }

    /// The pixels, row after row, for writing in place; the size stays.
    pub fn data_mut(&mut self) -> (r: &mut [P])
        ensures
            r@ == old(self).pixels(),
            final(self).pixels() == final(r)@,
            final(self).w() == old(self).w(),
            final(self).h() == old(self).h(),
    {
        self.data.as_mut_slice()
    }

    /// The place in the buffer of the cell `(x, y)`, were the grid that large; it lies inside
    /// the buffer exactly for cells inside the grid.
    fn flat_index(&self, x: u32, y: u32) -> (r: u64)
        ensures
            r == self.index_of(x as int, y as int),
            self.wf() && self.in_bounds(x as int, y as int) ==> r < self.pixels().len(),
    {
        proof {
            let (w, h) = (self.w() as int, self.h() as int);
            assert(y as int * w + x <= u32::MAX as int * u32::MAX as int + u32::MAX as int)
                by (nonlinear_arith)
                requires
                    0 <= x <= u32::MAX,
                    0 <= y <= u32::MAX,
                    0 <= w <= u32::MAX,
            ;
            if self.wf() && self.in_bounds(x as int, y as int) {
                lemma_index_in_range(self.w(), self.h(), x as int, y as int);
            }
        }
        x as u64 + y as u64 * self.width as u64
    }

    /// The pixel at `(x, y)`, or `None` outside the grid.
    pub fn get(&self, x: u32, y: u32) -> (r: Option<P>)
        requires
            self.wf(),
        ensures
            r == self.at(x as int, y as int),
    {
        if x < self.width && y < self.height {
            let i = self.flat_index(x, y);
            Some(self.data[i as usize])
        } else {
            None
        }
    }

    /// Writes `pixel` at `(x, y)`; outside the grid this does nothing.
    pub fn set(&mut self, x: u32, y: u32, pixel: P)
        requires
            old(self).wf(),
        ensures
            final(self).wf(),
            final(self).w() == old(self).w(),
            final(self).h() == old(self).h(),
            final(self).pixels() == old(self).written(x as int, y as int, pixel),
    {
        if x < self.width && y < self.height {
            let i = self.flat_index(x, y);
            self.data.set(i as usize, pixel);
        }
    }
}

/// A cell inside a `w` by `h` grid has its place inside the buffer.
pub proof fn lemma_index_in_range(w: nat, h: nat, x: int, y: int)
    requires
        0 <= x < w,
        0 <= y < h,
    ensures
        0 <= y * w + x < w * h,
{
    assert(0 <= y * w + x < w * h) by (nonlinear_arith)
        requires
            0 <= x < w,
            0 <= y < h,
    ;
}

/// Outside the grid a read finds nothing and a write changes nothing.
pub proof fn lemma_outside_untouched<P: Pixel>(s: Surface<P>, x: int, y: int, p: P)
    requires
        s.wf(),
        !s.in_bounds(x, y),
    ensures
        s.at(x, y) is None,
        s.written(x, y, p) == s.pixels(),
{
}

/// A surface whose every pixel is `v` reads `v` at every cell of its grid; in particular a
/// fresh surface reads the blank value everywhere.
pub proof fn lemma_uniform_reads<P: Pixel>(s: Surface<P>, v: P, x: int, y: int)
    requires
        s.wf(),
        s.pixels() == Seq::new(s.pixels().len(), |i: int| v),
        s.in_bounds(x, y),
    ensures
        s.at(x, y) == Some(v),
{
    lemma_index_in_range(s.w(), s.h(), x, y);
}

/// A write inside the grid is read back, and leaves every other cell as it was.
pub proof fn lemma_write_then_read<P>(s: Seq<P>, w: nat, h: nat, x: int, y: int, p: P, x2: int, y2: int)
    requires
        s.len() == w * h,
    ensures
        write_cell(s, w, h, x, y, p).len() == s.len(),
        0 <= x < w && 0 <= y < h ==> read_cell(write_cell(s, w, h, x, y, p), w, h, x, y) == Some(p),
        (x2 != x || y2 != y) ==> read_cell(write_cell(s, w, h, x, y, p), w, h, x2, y2) == read_cell(s, w, h, x2, y2),
{
    if 0 <= x < w && 0 <= y < h {
        lemma_index_in_range(w, h, x, y);
        if 0 <= x2 < w && 0 <= y2 < h && (x2 != x || y2 != y) {
            lemma_index_in_range(w, h, x2, y2);
            assert(y2 * w + x2 != y * w + x) by (nonlinear_arith)
                requires
                    0 <= x < w,
                    0 <= x2 < w,
                    x2 != x || y2 != y,
            ;
        }
    }
}

} // verus!
