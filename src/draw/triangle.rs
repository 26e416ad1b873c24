//! Scan conversion of triangles: the long-edge / short-edge walk.
use vstd::prelude::*;

use crate::math::{Lerp, Ratio, floor_div, lemma_lerp_between, lerp_int};
use vstd::arithmetic::div_mod::lemma_fundamental_div_mod_converse;
use crate::pixelformat::{Depth, Pixel};
use crate::mesh::Mesh;
use crate::shader::{DepthMap, FragmentShader, LinearDepth, VertexShader};
use crate::vertex::{Position, Viewport};
use crate::surface::{Surface, lemma_write_then_read, read_cell, write_cell};
use crate::varying::Varying;

verus! {

/// Device coordinates that the walk accepts lie within `[-COORD_LIMIT, COORD_LIMIT]`, so that
/// its exact arithmetic fits in 128 bits.
pub const COORD_LIMIT: i32 = 0x100_0000;

/// A vertex already placed on the device's pixel grid, with its depth and attributes.
#[derive(Clone, Copy, Debug)]
pub struct DeviceVertex<V> {
    pub x: i32,
    pub y: i32,
    pub z: i32,
    pub var: V,
}

impl<V> DeviceVertex<V> {
    /// Both coordinates lie within `COORD_LIMIT` of the origin.
    pub open spec fn in_range(self) -> bool {
        &&& -COORD_LIMIT <= self.x <= COORD_LIMIT
        &&& -COORD_LIMIT <= self.y <= COORD_LIMIT
    }
}

/// A candidate pixel produced by scan conversion.
#[derive(Clone, Copy, Debug)]
pub struct Fragment<V> {
    pub x: i32,
    pub y: i32,
    pub z: i32,
    pub var: V,
}

/// An edge of a triangle, its upper end first.
#[derive(Clone, Copy, Debug)]
pub struct Edge<V> {
    pub top: DeviceVertex<V>,
    pub bottom: DeviceVertex<V>,
}

/// The two ends of one row, left end first: each is where an edge crosses the row, exactly
/// `n / d`, with the depth and attributes blended there.
pub struct Scanline<V> {
    pub n1: i128,
    pub d1: i128,
    pub w1: (i32, V),
    pub n2: i128,
    pub d2: i128,
    pub w2: (i32, V),
    pub y: i32,
}

/// What is blended along an edge: the depth and the attributes.
pub open spec fn payload<V>(v: DeviceVertex<V>) -> (i32, V) {
    (v.z, v.var)
}

/// The edge from `a` to `b`, oriented so that its top has the smaller `y`.
pub open spec fn edge_spec<V>(a: DeviceVertex<V>, b: DeviceVertex<V>) -> Edge<V> {
    if a.y > b.y {
        Edge { top: b, bottom: a }
    } else {
        Edge { top: a, bottom: b }
    }
}

impl<V> Edge<V> {
    /// How many rows the edge spans.
    pub open spec fn extent(self) -> int {
        self.bottom.y - self.top.y
    }

    /// Where row `y` lies along the edge, as a fraction of its span.
    pub open spec fn t_at(self, y: int) -> Ratio {
        Ratio { num: (y - self.top.y) as i128, den: self.extent() as i128 }
    }

    /// Where the edge crosses row `y`, exactly: this value divided by `extent()`.
    pub open spec fn crossing_num(self, y: int) -> int {
        self.top.x * self.extent() + (self.bottom.x - self.top.x) * (y - self.top.y)
    }

    /// Both ends are within range.
    pub open spec fn in_range(self) -> bool {
        self.top.in_range() && self.bottom.in_range()
    }
}

/// The edges `(a, b)`, `(b, c)`, `(c, a)`, in that order.
pub open spec fn edges_spec<V>(a: DeviceVertex<V>, b: DeviceVertex<V>, c: DeviceVertex<V>) -> Seq<
    Edge<V>,
> {
    seq![edge_spec(a, b), edge_spec(b, c), edge_spec(c, a)]
}

/// The first of three edges whose row span is greatest.
pub open spec fn long_index<V>(es: Seq<Edge<V>>) -> int {
    if es[0].extent() >= es[1].extent() && es[0].extent() >= es[2].extent() {
        0
    } else if es[1].extent() >= es[2].extent() {
        1
    } else {
        2
    }
}

/// The row `y` between a short edge `s` and the long edge `l`, each edge parameterised over
/// its own span; the end that lies further left comes first.
pub open spec fn scanline_spec<V: Varying>(s: Edge<V>, l: Edge<V>, y: int) -> Scanline<V> {
    let st = s.t_at(y);
    let lt = l.t_at(y);
    let (sn, sd) = (s.crossing_num(y), s.extent());
    let (ln, ld) = (l.crossing_num(y), l.extent());
    let sw = <(i32, V) as Varying>::vary_spec(payload(s.top), payload(s.bottom), st);
    let lw = <(i32, V) as Varying>::vary_spec(payload(l.top), payload(l.bottom), lt);
    if sn * ld > ln * sd {
        Scanline {
            n1: ln as i128,
            d1: ld as i128,
            w1: lw,
            n2: sn as i128,
            d2: sd as i128,
            w2: sw,
            y: y as i32,
        }
    } else {
        Scanline {
            n1: sn as i128,
            d1: sd as i128,
            w1: sw,
            n2: ln as i128,
            d2: ld as i128,
            w2: lw,
            y: y as i32,
        }
    }
}

impl<V> Scanline<V> {
    /// The first column of the row: its left end rounded down.
    pub open spec fn first_col(self) -> int {
        self.n1 as int / self.d1 as int
    }

    /// The column after the last: the right end rounded down.
    pub open spec fn end_col(self) -> int {
        self.n2 as int / self.d2 as int
    }

    /// Where column `x` lies between the two ends, as a fraction of the row's exact width:
    /// `(x - n1/d1) / (n2/d2 - n1/d1)`.
    pub open spec fn t_at(self, x: int) -> Ratio {
        Ratio {
            num: ((x * self.d1 - self.n1) * self.d2) as i128,
            den: (self.n2 * self.d1 - self.n1 * self.d2) as i128,
        }
    }

    /// The ends are positive-denominator fractions of bounded size, in order.
    pub open spec fn wf(self) -> bool {
        &&& 0 < self.d1 <= 0x200_0000
        &&& 0 < self.d2 <= 0x200_0000
        &&& -0x8_0000_0000_0000 <= self.n1 <= 0x8_0000_0000_0000
        &&& -0x8_0000_0000_0000 <= self.n2 <= 0x8_0000_0000_0000
        &&& -COORD_LIMIT <= self.first_col() <= COORD_LIMIT
        &&& -COORD_LIMIT <= self.end_col() <= COORD_LIMIT
        &&& self.n1 * self.d2 <= self.n2 * self.d1
    }
}

/// The fragment at column `x` of a row, blended from the row's exact ends.
pub open spec fn fragment_at<V: Varying>(sl: Scanline<V>, x: int) -> Fragment<V> {
    let w = <(i32, V) as Varying>::vary_spec(sl.w1, sl.w2, sl.t_at(x));
    Fragment { x: x as i32, y: sl.y, z: w.0, var: w.1 }
}

/// The fragments of a row: from the left end rounded down up to, not including, the right end
/// rounded down.
pub open spec fn row_spec<V: Varying>(sl: Scanline<V>) -> Seq<Fragment<V>> {
    let n: nat = if sl.end_col() > sl.first_col() {
        (sl.end_col() - sl.first_col()) as nat
    } else {
        0
    };
    Seq::new(n, |i: int| fragment_at(sl, sl.first_col() + i))
}

/// The fragments of the rows from the top of `s` up to, not including, `y_end`.
pub open spec fn rows_spec<V: Varying>(s: Edge<V>, l: Edge<V>, y_end: int) -> Seq<Fragment<V>>
    decreases y_end - s.top.y,
{
    if y_end <= s.top.y {
        seq![]
    } else {
        rows_spec(s, l, y_end - 1) + row_spec(scanline_spec(s, l, y_end - 1))
    }
}

/// The fragments of a triangle: the rows of the first short edge, then those of the second.
pub open spec fn triangle_spec<V: Varying>(
    a: DeviceVertex<V>,
    b: DeviceVertex<V>,
    c: DeviceVertex<V>,
) -> Seq<Fragment<V>> {
    let es = edges_spec(a, b, c);
    let li = long_index(es);
    let l = es[li];
    let s1 = es[(li + 1) % 3];
    let s2 = es[(li + 2) % 3];
    rows_spec(s1, l, s1.bottom.y as int) + rows_spec(s2, l, s2.bottom.y as int)
}

/// A short edge lies within the rows of the long edge.
pub open spec fn spans_within<V>(s: Edge<V>, l: Edge<V>) -> bool {
    &&& s.top.y <= s.bottom.y
    &&& l.top.y <= s.top.y
    &&& s.bottom.y <= l.bottom.y
}

impl<V: Varying + Copy> Edge<V> {
    fn new(a: DeviceVertex<V>, b: DeviceVertex<V>) -> (r: Edge<V>)
        ensures
            r == edge_spec(a, b),
    {
        if a.y > b.y {
            Edge { top: b, bottom: a }
        } else {
            Edge { top: a, bottom: b }
        }
    }

    fn y_length(&self) -> (r: i128)
        ensures
            r == self.extent(),
    {
        self.bottom.y as i128 - self.top.y as i128
    }

    /// Appends the fragments of every row that this short edge spans.
    fn each_scanline(&self, long: &Edge<V>, out: &mut Vec<Fragment<V>>)
        requires
            spans_within(*self, *long),
            self.in_range(),
            long.in_range(),
        ensures
            final(out)@ == old(out)@ + rows_spec(*self, *long, self.bottom.y as int),
    {
        let mut y: i32 = self.top.y;
        while y < self.bottom.y
            invariant
                spans_within(*self, *long),
                self.in_range(),
                long.in_range(),
                self.top.y <= y <= self.bottom.y,
                out@ == old(out)@ + rows_spec(*self, *long, y as int),
            decreases self.bottom.y - y,
        {
            let sl = Scanline::new(self, long, y);
            Scanline::each_pixel(&sl, out);
            assert(out@ =~= old(out)@ + rows_spec(*self, *long, y + 1));
            y = y + 1;
        }
    }
}

/// Where an in-range edge crosses one of its rows: a bounded fraction that rounds down to the
/// edge's blend of its end columns, between those columns.
proof fn lemma_crossing<V>(e: Edge<V>, y: int)
    requires
        e.top.y <= y <= e.bottom.y,
        e.top.y < e.bottom.y,
    ensures
        e.crossing_num(y) / e.extent() == lerp_int(e.top.x as int, e.bottom.x as int, e.t_at(y)),
        e.top.x <= e.bottom.x ==> e.top.x <= e.crossing_num(y) / e.extent() <= e.bottom.x,
        e.bottom.x <= e.top.x ==> e.bottom.x <= e.crossing_num(y) / e.extent() <= e.top.x,
        -0x4_0000_0000_0000_0000 <= e.crossing_num(y) <= 0x4_0000_0000_0000_0000,
        e.in_range() ==> -0x8_0000_0000_0000 <= e.crossing_num(y) <= 0x8_0000_0000_0000,
        e.in_range() ==> e.extent() <= 0x200_0000,
{
    let (tx, bx, d, k) = (e.top.x as int, e.bottom.x as int, e.extent(), y - e.top.y);
    lemma_lerp_as_fraction(tx, bx, k, d);
    lemma_lerp_between(tx, bx, e.t_at(y));
    assert(-0x4_0000_0000_0000_0000 <= tx * d + (bx - tx) * k <= 0x4_0000_0000_0000_0000)
        by (nonlinear_arith)
        requires
            -0x8000_0000 <= tx < 0x8000_0000,
            -0x1_0000_0000 <= bx - tx <= 0x1_0000_0000,
            0 <= k <= d <= 0x1_0000_0000,
    ;
    if e.in_range() {
        assert(-0x8_0000_0000_0000 <= tx * d + (bx - tx) * k <= 0x8_0000_0000_0000)
            by (nonlinear_arith)
            requires
                -0x100_0000 <= tx <= 0x100_0000,
                -0x200_0000 <= bx - tx <= 0x200_0000,
                0 <= k <= d <= 0x200_0000,
        ;
    }
}

/// The two terms of an in-range edge's crossing are each bounded.
proof fn lemma_crossing_parts<V>(e: Edge<V>, y: int)
    requires
        e.top.y <= y <= e.bottom.y,
        e.in_range(),
    ensures
        -0x2_0000_0000_0000 <= e.top.x * e.extent() <= 0x2_0000_0000_0000,
        -0x4_0000_0000_0000 <= (e.bottom.x - e.top.x) * (y - e.top.y) <= 0x4_0000_0000_0000,
{
    let (tx, bx, d, k) = (e.top.x as int, e.bottom.x as int, e.extent(), y - e.top.y);
    assert(-0x2_0000_0000_0000 <= tx * d <= 0x2_0000_0000_0000) by (nonlinear_arith)
        requires
            -0x100_0000 <= tx <= 0x100_0000,
            0 <= d <= 0x200_0000,
    ;
    assert(-0x4_0000_0000_0000 <= (bx - tx) * k <= 0x4_0000_0000_0000) by (nonlinear_arith)
        requires
            -0x200_0000 <= bx - tx <= 0x200_0000,
            0 <= k <= 0x200_0000,
    ;
}

/// Of two fractions with positive denominators, the one that rounds down lower is the smaller.
proof fn lemma_floor_order(n1: int, d1: int, n2: int, d2: int)
    requires
        d1 > 0,
        d2 > 0,
        n1 / d1 < n2 / d2,
    ensures
        n1 * d2 < n2 * d1,
{
    vstd::arithmetic::div_mod::lemma_fundamental_div_mod(n1, d1);
    vstd::arithmetic::div_mod::lemma_fundamental_div_mod(n2, d2);
    let (c1, c2) = (n1 / d1, n2 / d2);
    assert(n1 * d2 < n2 * d1) by (nonlinear_arith)
        requires
            d1 > 0,
            d2 > 0,
            n1 == d1 * c1 + n1 % d1,
            n1 % d1 < d1,
            n2 == d2 * c2 + n2 % d2,
            0 <= n2 % d2,
            c1 + 1 <= c2,
    ;
}

impl<V: Varying + Copy> Scanline<V> {
    /// The row `y` between the short edge `s` and the long edge `l`.
    fn new(s: &Edge<V>, l: &Edge<V>, y: i32) -> (r: Scanline<V>)
        requires
            spans_within(*s, *l),
            s.in_range(),
            l.in_range(),
            s.top.y <= y < s.bottom.y,
        ensures
            r == scanline_spec(*s, *l, y as int),
            r.wf(),
    {
        let sd = s.y_length();
        let ld = l.y_length();
        let st = Ratio { num: y as i128 - s.top.y as i128, den: sd };
        let lt = Ratio { num: y as i128 - l.top.y as i128, den: ld };
        proof {
            lemma_crossing(*s, y as int);
            lemma_crossing(*l, y as int);
        }
        proof {
            lemma_crossing_parts(*s, y as int);
            lemma_crossing_parts(*l, y as int);
        }
        let sn: i128 = s.top.x as i128 * sd + (s.bottom.x as i128 - s.top.x as i128) * (y as i128
            - s.top.y as i128);
        let ln: i128 = l.top.x as i128 * ld + (l.bottom.x as i128 - l.top.x as i128) * (y as i128
            - l.top.y as i128);
        let sw = (s.top.z, s.top.var).vary((s.bottom.z, s.bottom.var), st);
        let lw = (l.top.z, l.top.var).vary((l.bottom.z, l.bottom.var), lt);
        proof {
            assert(sn == s.crossing_num(y as int));
            assert(ln == l.crossing_num(y as int));
            assert(-0x1000_0000_0000_0000_0000 <= sn * ld <= 0x1000_0000_0000_0000_0000) by (nonlinear_arith)
                requires
                    -0x8_0000_0000_0000 <= sn <= 0x8_0000_0000_0000,
                    0 < ld <= 0x200_0000,
            ;
            assert(-0x1000_0000_0000_0000_0000 <= ln * sd <= 0x1000_0000_0000_0000_0000) by (nonlinear_arith)
                requires
                    -0x8_0000_0000_0000 <= ln <= 0x8_0000_0000_0000,
                    0 < sd <= 0x200_0000,
            ;
        }
        if sn * ld > ln * sd {
            Scanline { n1: ln, d1: ld, w1: lw, n2: sn, d2: sd, w2: sw, y }
        } else {
            Scanline { n1: sn, d1: sd, w1: sw, n2: ln, d2: ld, w2: lw, y }
        }
    }

    /// Appends the fragments of this row.
    fn each_pixel(&self, out: &mut Vec<Fragment<V>>)
        requires
            self.wf(),
        ensures
            final(out)@ == old(out)@ + row_spec(*self),
    {
        let c1: i128 = floor_div(self.n1, self.d1);
        let c2: i128 = floor_div(self.n2, self.d2);
        if c2 <= c1 {
            assert(row_spec(*self) =~= Seq::<Fragment<V>>::empty());
            assert(out@ =~= old(out)@ + row_spec(*self));
            return;
        }
        proof {
            lemma_floor_order(self.n1 as int, self.d1 as int, self.n2 as int, self.d2 as int);
            assert(-0x1000_0000_0000_0000_0000 <= self.n2 * self.d1 <= 0x1000_0000_0000_0000_0000)
                by (nonlinear_arith)
                requires
                    -0x8_0000_0000_0000 <= self.n2 <= 0x8_0000_0000_0000,
                    0 < self.d1 <= 0x200_0000,
            ;
            assert(-0x1000_0000_0000_0000_0000 <= self.n1 * self.d2 <= 0x1000_0000_0000_0000_0000)
                by (nonlinear_arith)
                requires
                    -0x8_0000_0000_0000 <= self.n1 <= 0x8_0000_0000_0000,
                    0 < self.d2 <= 0x200_0000,
            ;
        }
        let den: i128 = self.n2 * self.d1 - self.n1 * self.d2;
        let end: i32 = c2 as i32;
        let mut x: i32 = c1 as i32;
        while x < end
            invariant
                self.wf(),
                c1 == self.first_col(),
                c2 == self.end_col(),
                end == c2,
                c1 <= x <= c2,
                den == self.n2 * self.d1 - self.n1 * self.d2,
                0 < den <= 0x2000_0000_0000_0000_0000,
                out@ == old(out)@ + row_spec(*self).take(x - c1),
            decreases end - x,
        {
            proof {
                assert(-0x10_0000_0000_0000 <= x * self.d1 - self.n1 <= 0x10_0000_0000_0000)
                    by (nonlinear_arith)
                    requires
                        -0x100_0000 <= x <= 0x100_0000,
                        0 < self.d1 <= 0x200_0000,
                        -0x8_0000_0000_0000 <= self.n1 <= 0x8_0000_0000_0000,
                ;
                assert(-0x2000_0000_0000_0000_0000 <= (x * self.d1 - self.n1) * self.d2
                    <= 0x2000_0000_0000_0000_0000) by (nonlinear_arith)
                    requires
                        -0x10_0000_0000_0000 <= x * self.d1 - self.n1 <= 0x10_0000_0000_0000,
                        0 < self.d2 <= 0x200_0000,
                ;
            }
            let num: i128 = (x as i128 * self.d1 - self.n1) * self.d2;
            let t = Ratio { num, den };
            assert(t == self.t_at(x as int));
            let w = self.w1.vary(self.w2, t);
            out.push(Fragment { x, y: self.y, z: w.0, var: w.1 });
            assert(row_spec(*self).take(x + 1 - c1) =~= row_spec(*self).take(x - c1).push(
                fragment_at(*self, x as int),
            ));
            x = x + 1;
        }
        assert(row_spec(*self).take(x - c1) =~= row_spec(*self));
    }
}

/// The long edge spans every row of the triangle, so each short edge lies within it.
proof fn lemma_long_edge_spans<V>(es: Seq<Edge<V>>, a: DeviceVertex<V>, b: DeviceVertex<V>, c: DeviceVertex<V>)
    requires
        es == edges_spec(a, b, c),
    ensures
        spans_within(es[(long_index(es) + 1) % 3], es[long_index(es)]),
        spans_within(es[(long_index(es) + 2) % 3], es[long_index(es)]),
{
}

/// Scan-converts one triangle: the fragments, row by row, of the rows between each short edge
/// and the long edge.
pub fn rasterize_triangle<V: Varying + Copy>(
    a: DeviceVertex<V>,
    b: DeviceVertex<V>,
    c: DeviceVertex<V>,
) -> (r: Vec<Fragment<V>>)
    requires
        a.in_range(),
        b.in_range(),
        c.in_range(),
    ensures
        r@ == triangle_spec(a, b, c),
{
    let edges = [Edge::new(a, b), Edge::new(b, c), Edge::new(c, a)];
    let ghost es = edges_spec(a, b, c);
    assert(edges@ =~= es);
    let mut long: usize = 0;
    if edges[1].y_length() > edges[long].y_length() {
        long = 1;
    }
    if edges[2].y_length() > edges[long].y_length() {
        long = 2;
    }
    assert(long == long_index(es));
    let short1: usize = if long == 2 { 0 } else { long + 1 };
    let short2: usize = if long == 0 { 2 } else { long - 1 };
    proof {
        lemma_long_edge_spans(es, a, b, c);
    }
    let mut out: Vec<Fragment<V>> = Vec::new();
    edges[short1].each_scanline(&edges[long], &mut out);
    edges[short2].each_scanline(&edges[long], &mut out);
    assert(out@ =~= triangle_spec(a, b, c));
    out
}

/// Three vertices of one triangle.
pub type DeviceTriangle<V> = (DeviceVertex<V>, DeviceVertex<V>, DeviceVertex<V>);

/// Every vertex of every triangle is within range.
pub open spec fn tris_in_range<V>(tris: Seq<DeviceTriangle<V>>) -> bool {
    forall|i: int|
        0 <= i < tris.len() ==> (#[trigger] tris[i]).0.in_range() && tris[i].1.in_range()
            && tris[i].2.in_range()
}

/// The fragments of every triangle, triangle after triangle.
pub open spec fn mesh_fragments<V: Varying>(tris: Seq<DeviceTriangle<V>>) -> Seq<Fragment<V>>
    decreases tris.len(),
{
    if tris.len() == 0 {
        seq![]
    } else {
        let t = tris.last();
        mesh_fragments(tris.drop_last()) + triangle_spec(t.0, t.1, t.2)
    }
}

/// A `w` by `h` colour grid after each fragment, in order, is shaded and written.
pub open spec fn paint<V, P, F: FragmentShader<V, P>>(
    cells: Seq<P>,
    w: nat,
    h: nat,
    frags: Seq<Fragment<V>>,
    shader: F,
) -> Seq<P>
    decreases frags.len(),
{
    if frags.len() == 0 {
        cells
    } else {
        let f = frags.last();
        write_cell(
            paint(cells, w, h, frags.drop_last(), shader),
            w,
            h,
            f.x as int,
            f.y as int,
            shader.shade_spec(f.var),
        )
    }
}

/// A fragment passes the depth test where its mapped depth is at most the stored one; outside
/// the depth grid it fails.
pub open spec fn depth_passes<V, D: DepthMap>(depth: Seq<Depth>, w: nat, h: nat, f: Fragment<V>, dm: D) -> bool {
    match read_cell(depth, w, h, f.x as int, f.y as int) {
        Some(d) => dm.map_spec(f.z).0 <= d.0,
        None => false,
    }
}

/// The colour grid and the depth grid after each fragment, in order, is depth-tested and,
/// where it passes, has its mapped depth and then its shaded colour written.
pub open spec fn paint_tested<V, P, F: FragmentShader<V, P>, D: DepthMap>(
    color: Seq<P>,
    cw: nat,
    ch: nat,
    depth: Seq<Depth>,
    dw: nat,
    dh: nat,
    frags: Seq<Fragment<V>>,
    shader: F,
    dm: D,
) -> (Seq<P>, Seq<Depth>)
    decreases frags.len(),
{
    if frags.len() == 0 {
        (color, depth)
    } else {
        let prev = paint_tested(color, cw, ch, depth, dw, dh, frags.drop_last(), shader, dm);
        let f = frags.last();
        if depth_passes(prev.1, dw, dh, f, dm) {
            (
                write_cell(prev.0, cw, ch, f.x as int, f.y as int, shader.shade_spec(f.var)),
                write_cell(prev.1, dw, dh, f.x as int, f.y as int, dm.map_spec(f.z)),
            )
        } else {
            prev
        }
    }
}

/// Writes `p` at the signed position `(x, y)`; negative positions lie outside every surface.
fn put_pixel<P: Pixel>(surface: &mut Surface<P>, x: i32, y: i32, p: P)
    requires
        old(surface).wf(),
    ensures
        final(surface).wf(),
        final(surface).w() == old(surface).w(),
        final(surface).h() == old(surface).h(),
        final(surface).pixels() == old(surface).written(x as int, y as int, p),
{
    if x >= 0 && y >= 0 {
        surface.set(x as u32, y as u32, p);
    }
}

/// The depth stored at the signed position `(x, y)`, or `None` outside the surface.
fn depth_at(surface: &Surface<Depth>, x: i32, y: i32) -> (r: Option<Depth>)
    requires
        surface.wf(),
    ensures
        r == surface.at(x as int, y as int),
{
    if x >= 0 && y >= 0 {
        surface.get(x as u32, y as u32)
    } else {
        None
    }
}

/// A shaded vertex placed on the device grid: its position mapped onto the viewport, kept only
/// where both coordinates lie within `COORD_LIMIT`.
pub open spec fn device_vertex<V>(vp: Viewport, shaded: (Position<i32>, V)) -> Option<
    DeviceVertex<V>,
> {
    match vp.maps(shaded.0) {
        Some(d) => {
            let v = DeviceVertex { x: d.0, y: d.1, z: d.2, var: shaded.1 };
            if v.in_range() {
                Some(v)
            } else {
                None
            }
        },
        None => None,
    }
}

/// A triangle of the mesh with each vertex shaded and placed; `None` where a vertex cannot be
/// placed.
pub open spec fn device_triangle<T, V, S: VertexShader<T, V>>(vp: Viewport, shader: S, t: (T, T, T)) -> Option<
    DeviceTriangle<V>,
> {
    match (
        device_vertex(vp, shader.shade_spec(t.0)),
        device_vertex(vp, shader.shade_spec(t.1)),
        device_vertex(vp, shader.shade_spec(t.2)),
    ) {
        (Some(a), Some(b), Some(c)) => Some((a, b, c)),
        _ => None,
    }
}

/// The placed triangles of a mesh, in order, those that cannot be placed left out.
pub open spec fn device_triangles<T, V, S: VertexShader<T, V>>(
    vp: Viewport,
    shader: S,
    tris: Seq<(T, T, T)>,
) -> Seq<DeviceTriangle<V>>
    decreases tris.len(),
{
    if tris.len() == 0 {
        seq![]
    } else {
        let prev = device_triangles(vp, shader, tris.drop_last());
        match device_triangle(vp, shader, tris.last()) {
            Some(t) => prev.push(t),
            None => prev,
        }
    }
}

fn place_vertex<V: Copy>(viewport: &Viewport, shaded: (Position<i32>, V)) -> (r: Option<DeviceVertex<V>>)
    ensures
        r == device_vertex(*viewport, shaded),
{
    match shaded.0.to_device_coordinates(viewport) {
        Some(d) => {
            if -COORD_LIMIT <= d.0 && d.0 <= COORD_LIMIT && -COORD_LIMIT <= d.1 && d.1 <= COORD_LIMIT {
                Some(DeviceVertex { x: d.0, y: d.1, z: d.2, var: shaded.1 })
            } else {
                None
            }
        },
        None => None,
    }
}

/// Shades every vertex of every triangle, once per triangle, and places it on the viewport;
/// a triangle with a vertex that cannot be placed is left out.
pub fn shade_triangles<T, V: Copy, S: VertexShader<T, V>>(
    triangles: &Vec<(T, T, T)>,
    viewport: &Viewport,
    shader: &S,
) -> (r: Vec<DeviceTriangle<V>>)
    ensures
        r@ == device_triangles(*viewport, *shader, triangles@),
        tris_in_range(r@),
{
    let mut out: Vec<DeviceTriangle<V>> = Vec::new();
    let mut i: usize = 0;
    while i < triangles.len()
        invariant
            i <= triangles@.len(),
            out@ == device_triangles(*viewport, *shader, triangles@.take(i as int)),
            tris_in_range(out@),
        decreases triangles@.len() - i,
    {
        let t = &triangles[i];
        let a = place_vertex(viewport, shader.shade(&t.0));
        let b = place_vertex(viewport, shader.shade(&t.1));
        let c = place_vertex(viewport, shader.shade(&t.2));
        assert(triangles@.take(i + 1).drop_last() =~= triangles@.take(i as int));
        assert(triangles@.take(i + 1).last() == triangles@[i as int]);
        match (a, b, c) {
            (Some(a), Some(b), Some(c)) => {
                out.push((a, b, c));
            },
            _ => {},
        }
        proof {
            assert forall|k: int| 0 <= k < out@.len() implies (#[trigger] out@[k]).0.in_range()
                && out@[k].1.in_range() && out@[k].2.in_range() by {}
        }
        i = i + 1;
    }
    assert(triangles@.take(i as int) =~= triangles@);
    out
}

/// Draws triangles into a colour surface, with a depth test where a depth surface is attached.
pub struct TrianglePipeline<'a, P: Pixel, F> {
    pub color_attachment: &'a mut Surface<P>,
    pub depth_attachment: Option<&'a mut Surface<Depth>>,
    pub fragment_shader: F,
}

impl<'a, P: Pixel, F> TrianglePipeline<'a, P, F> {
    fn draw_plain<V: Varying + Copy>(
        color: &mut Surface<P>,
        shader: &F,
        triangles: &Vec<DeviceTriangle<V>>,
    ) where F: FragmentShader<V, P>
        requires
            old(color).wf(),
            tris_in_range(triangles@),
        ensures
            final(color).wf(),
            final(color).w() == old(color).w(),
            final(color).h() == old(color).h(),
            final(color).pixels() == paint(
                old(color).pixels(),
                old(color).w(),
                old(color).h(),
                mesh_fragments(triangles@),
                *shader,
            ),
    {
        let ghost (c0, w, h) = (color.pixels(), color.w(), color.h());
        let mut i: usize = 0;
        while i < triangles.len()
            invariant
                i <= triangles@.len(),
                tris_in_range(triangles@),
                color.wf(),
                color.w() == w,
                color.h() == h,
                color.pixels() == paint(c0, w, h, mesh_fragments(triangles@.take(i as int)), *shader),
            decreases triangles@.len() - i,
        {
            let t = triangles[i];
            let frags = rasterize_triangle(t.0, t.1, t.2);
            let ghost done = mesh_fragments(triangles@.take(i as int));
            let mut j: usize = 0;
            while j < frags.len()
                invariant
                    j <= frags@.len(),
                    color.wf(),
                    color.w() == w,
                    color.h() == h,
                    color.pixels() == paint(c0, w, h, done + frags@.take(j as int), *shader),
                decreases frags@.len() - j,
            {
                let f = frags[j];
                let p = shader.shade(f.var);
                put_pixel(color, f.x, f.y, p);
                assert((done + frags@.take(j + 1)).drop_last() =~= done + frags@.take(j as int));
                j = j + 1;
            }
            assert(triangles@.take(i + 1).drop_last() =~= triangles@.take(i as int));
            assert(done + frags@.take(j as int) =~= mesh_fragments(triangles@.take(i + 1)));
            i = i + 1;
        }
        assert(triangles@.take(i as int) =~= triangles@);
    }

    fn draw_tested<V: Varying + Copy, D: DepthMap>(
        color: &mut Surface<P>,
        depth: &mut Surface<Depth>,
        shader: &F,
        dm: &D,
        triangles: &Vec<DeviceTriangle<V>>,
    ) where F: FragmentShader<V, P>
        requires
            old(color).wf(),
            old(depth).wf(),
            tris_in_range(triangles@),
        ensures
            final(color).wf(),
            final(color).w() == old(color).w(),
            final(color).h() == old(color).h(),
            final(depth).wf(),
            final(depth).w() == old(depth).w(),
            final(depth).h() == old(depth).h(),
            (final(color).pixels(), final(depth).pixels()) == paint_tested(
                old(color).pixels(),
                old(color).w(),
                old(color).h(),
                old(depth).pixels(),
                old(depth).w(),
                old(depth).h(),
                mesh_fragments(triangles@),
                *shader,
                *dm,
            ),
    {
        let ghost (c0, cw, ch) = (color.pixels(), color.w(), color.h());
        let ghost (d0, dw, dh) = (depth.pixels(), depth.w(), depth.h());
        let mut i: usize = 0;
        while i < triangles.len()
            invariant
                i <= triangles@.len(),
                tris_in_range(triangles@),
                color.wf(),
                color.w() == cw,
                color.h() == ch,
                depth.wf(),
                depth.w() == dw,
                depth.h() == dh,
                (color.pixels(), depth.pixels()) == paint_tested(
                    c0,
                    cw,
                    ch,
                    d0,
                    dw,
                    dh,
                    mesh_fragments(triangles@.take(i as int)),
                    *shader,
                    *dm,
                ),
            decreases triangles@.len() - i,
        {
            let t = triangles[i];
            let frags = rasterize_triangle(t.0, t.1, t.2);
            let ghost done = mesh_fragments(triangles@.take(i as int));
            let mut j: usize = 0;
            while j < frags.len()
                invariant
                    j <= frags@.len(),
                    color.wf(),
                    color.w() == cw,
                    color.h() == ch,
                    depth.wf(),
                    depth.w() == dw,
                    depth.h() == dh,
                    (color.pixels(), depth.pixels()) == paint_tested(
                        c0,
                        cw,
                        ch,
                        d0,
                        dw,
                        dh,
                        done + frags@.take(j as int),
                        *shader,
                        *dm,
                    ),
                decreases frags@.len() - j,
            {
                let f = frags[j];
                assert((done + frags@.take(j + 1)).drop_last() =~= done + frags@.take(j as int));
                let stored = depth_at(depth, f.x, f.y);
                match stored {
                    Some(d) => {
                        let mapped = dm.map(f.z);
                        if mapped.0 <= d.0 {
                            put_pixel(depth, f.x, f.y, mapped);
                            let p = shader.shade(f.var);
                            put_pixel(color, f.x, f.y, p);
                        }
                    },
                    None => {},
                }
                j = j + 1;
            }
            assert(triangles@.take(i + 1).drop_last() =~= triangles@.take(i as int));
            assert(done + frags@.take(j as int) =~= mesh_fragments(triangles@.take(i + 1)));
            i = i + 1;
        }
        assert(triangles@.take(i as int) =~= triangles@);
    }

    /// Runs the pipeline over every triangle, in order. Without a depth attachment each fragment
    /// is shaded and written; with one, each fragment's depth goes through `depth_map`, and
    /// only fragments whose mapped depth passes the test are written.
    pub fn run_with_depth_map<V: Varying + Copy, D: DepthMap>(
        &mut self,
        triangles: &Vec<DeviceTriangle<V>>,
        depth_map: &D,
    ) where F: FragmentShader<V, P>

        requires
            old(self).color_attachment.wf(),
            old(self).depth_attachment matches Some(d) ==> d.wf(),
            tris_in_range(triangles@),
        ensures
            *final(final(self).color_attachment) == *final(old(self).color_attachment),
            final(self).fragment_shader == old(self).fragment_shader,
            final(self).color_attachment.wf(),
            final(self).color_attachment.w() == old(self).color_attachment.w(),
            final(self).color_attachment.h() == old(self).color_attachment.h(),
            old(self).depth_attachment is None ==> final(self).depth_attachment is None
                && final(self).color_attachment.pixels() == paint(
                old(self).color_attachment.pixels(),
                old(self).color_attachment.w(),
                old(self).color_attachment.h(),
                mesh_fragments(triangles@),
                old(self).fragment_shader,
            ),
            old(self).depth_attachment matches Some(d0) ==> final(self).depth_attachment matches Some(
                d1,
) && *final(d1) == *final(d0) && d1.wf() && d1.w() == d0.w() && d1.h() == d0.h() && (
            final(self).color_attachment.pixels(),
            d1.pixels(),
            ) == paint_tested(
                old(self).color_attachment.pixels(),
                old(self).color_attachment.w(),
                old(self).color_attachment.h(),
                d0.pixels(),
                d0.w(),
                d0.h(),
                mesh_fragments(triangles@),
                old(self).fragment_shader,
                *depth_map,
            ),
    {
        match &mut self.depth_attachment {
            Some(depth) => {
                Self::draw_tested(self.color_attachment, depth, &self.fragment_shader, depth_map, triangles);
            },
            None => {
                Self::draw_plain(self.color_attachment, &self.fragment_shader, triangles);
            },
        }
    }

    /// Runs the whole pipeline over a mesh: each vertex of each triangle, in order, is shaded
    /// once and mapped onto the viewport, and the triangles whose three vertices all land
    /// within `COORD_LIMIT` are drawn as `run_with_depth_map` draws them; a triangle with a
    /// vertex beyond it is left out.
    pub fn run_mesh<M: Mesh, V: Varying + Copy, S: VertexShader<M::Vertex, V>, D: DepthMap>(
        &mut self,
        mesh: &M,
        viewport: &Viewport,
        vertex_shader: &S,
        depth_map: &D,
    ) where F: FragmentShader<V, P>
        requires
            old(self).color_attachment.wf(),
            old(self).depth_attachment matches Some(d) ==> d.wf(),
            mesh.mesh_wf(),
        ensures
            *final(final(self).color_attachment) == *final(old(self).color_attachment),
            final(self).fragment_shader == old(self).fragment_shader,
            final(self).color_attachment.wf(),
            final(self).color_attachment.w() == old(self).color_attachment.w(),
            final(self).color_attachment.h() == old(self).color_attachment.h(),
            old(self).depth_attachment is None ==> final(self).depth_attachment is None
                && final(self).color_attachment.pixels() == paint(
                old(self).color_attachment.pixels(),
                old(self).color_attachment.w(),
                old(self).color_attachment.h(),
                mesh_fragments(device_triangles(*viewport, *vertex_shader, mesh.triangles_spec())),
                old(self).fragment_shader,
            ),
            old(self).depth_attachment matches Some(d0) ==> final(self).depth_attachment matches Some(
                d1,
) && *final(d1) == *final(d0) && d1.wf() && d1.w() == d0.w() && d1.h() == d0.h() && (
            final(self).color_attachment.pixels(),
            d1.pixels(),
            ) == paint_tested(
                old(self).color_attachment.pixels(),
                old(self).color_attachment.w(),
                old(self).color_attachment.h(),
                d0.pixels(),
                d0.w(),
                d0.h(),
                mesh_fragments(device_triangles(*viewport, *vertex_shader, mesh.triangles_spec())),
                old(self).fragment_shader,
                *depth_map,
            ),
    {
        let triangles = mesh.triangles();
        let device = shade_triangles(&triangles, viewport, vertex_shader);
        self.run_with_depth_map(&device, depth_map);
    }

    /// Runs the pipeline over every triangle, in order. Without a depth attachment each fragment
    /// is shaded and written; with one, only fragments whose depth, stored as it is, passes the
    /// depth test are.
    pub fn run<V: Varying + Copy>(&mut self, triangles: &Vec<DeviceTriangle<V>>) where
        F: FragmentShader<V, P>,

        requires
            old(self).color_attachment.wf(),
            old(self).depth_attachment matches Some(d) ==> d.wf(),
            tris_in_range(triangles@),
        ensures
            *final(final(self).color_attachment) == *final(old(self).color_attachment),
            final(self).fragment_shader == old(self).fragment_shader,
            final(self).color_attachment.wf(),
            final(self).color_attachment.w() == old(self).color_attachment.w(),
            final(self).color_attachment.h() == old(self).color_attachment.h(),
            old(self).depth_attachment is None ==> final(self).depth_attachment is None
                && final(self).color_attachment.pixels() == paint(
                old(self).color_attachment.pixels(),
                old(self).color_attachment.w(),
                old(self).color_attachment.h(),
                mesh_fragments(triangles@),
                old(self).fragment_shader,
            ),
            old(self).depth_attachment matches Some(d0) ==> final(self).depth_attachment matches Some(
                d1,
) && *final(d1) == *final(d0) && d1.wf() && d1.w() == d0.w() && d1.h() == d0.h() && (
            final(self).color_attachment.pixels(),
            d1.pixels(),
            ) == paint_tested(
                old(self).color_attachment.pixels(),
                old(self).color_attachment.w(),
                old(self).color_attachment.h(),
                d0.pixels(),
                d0.w(),
                d0.h(),
                mesh_fragments(triangles@),
                old(self).fragment_shader,
                LinearDepth,
            ),
    {
        self.run_with_depth_map(triangles, &LinearDepth);
    }
}

/// Of two fragments on the same cell, the one whose mapped depth is smaller keeps its colour
/// and depth, whichever is drawn first, as long as the stored depth lets the first through.
pub proof fn lemma_nearer_fragment_wins<V, P, F: FragmentShader<V, P>, D: DepthMap>(
    color: Seq<P>,
    cw: nat,
    ch: nat,
    depth: Seq<Depth>,
    dw: nat,
    dh: nat,
    near: Fragment<V>,
    far: Fragment<V>,
    shader: F,
    dm: D,
)
    requires
        color.len() == cw * ch,
        depth.len() == dw * dh,
        near.x == far.x,
        near.y == far.y,
        0 <= near.x < cw && 0 <= near.y < ch,
        read_cell(depth, dw, dh, near.x as int, near.y as int) matches Some(d) && dm.map_spec(
            far.z,
        ).0 <= d.0,
        dm.map_spec(near.z).0 < dm.map_spec(far.z).0,
    ensures
        ({
            let r = paint_tested(color, cw, ch, depth, dw, dh, seq![far, near], shader, dm);
            read_cell(r.0, cw, ch, near.x as int, near.y as int) == Some(shader.shade_spec(near.var))
                && read_cell(r.1, dw, dh, near.x as int, near.y as int) == Some(
                dm.map_spec(near.z),
            )
        }),
        ({
            let r = paint_tested(color, cw, ch, depth, dw, dh, seq![near, far], shader, dm);
            read_cell(r.0, cw, ch, near.x as int, near.y as int) == Some(shader.shade_spec(near.var))
                && read_cell(r.1, dw, dh, near.x as int, near.y as int) == Some(
                dm.map_spec(near.z),
            )
        }),
{
    let (x, y) = (near.x as int, near.y as int);
    let empty = Seq::<Fragment<V>>::empty();
    assert(seq![far, near].drop_last() =~= seq![far]);
    assert(seq![near, far].drop_last() =~= seq![near]);
    assert(seq![far].drop_last() =~= empty);
    assert(seq![near].drop_last() =~= empty);
    assert(paint_tested(color, cw, ch, depth, dw, dh, empty, shader, dm) == (color, depth));
    let r1 = paint_tested(color, cw, ch, depth, dw, dh, seq![far], shader, dm);
    assert(depth_passes(depth, dw, dh, far, dm));
    lemma_write_then_read(color, cw, ch, x, y, shader.shade_spec(far.var), x, y);
    lemma_write_then_read(depth, dw, dh, x, y, dm.map_spec(far.z), x, y);
    assert(depth_passes(r1.1, dw, dh, near, dm));
    lemma_write_then_read(r1.0, cw, ch, x, y, shader.shade_spec(near.var), x, y);
    lemma_write_then_read(r1.1, dw, dh, x, y, dm.map_spec(near.z), x, y);
    let r2 = paint_tested(color, cw, ch, depth, dw, dh, seq![near], shader, dm);
    assert(depth_passes(depth, dw, dh, near, dm));
    lemma_write_then_read(color, cw, ch, x, y, shader.shade_spec(near.var), x, y);
    lemma_write_then_read(depth, dw, dh, x, y, dm.map_spec(near.z), x, y);
    assert(!depth_passes(r2.1, dw, dh, far, dm));
}

pub open spec fn min3(a: int, b: int, c: int) -> int {
    if a <= b && a <= c {
        a
    } else if b <= c {
        b
    } else {
        c
    }
}

pub open spec fn max3(a: int, b: int, c: int) -> int {
    if a >= b && a >= c {
        a
    } else if b >= c {
        b
    } else {
        c
    }
}

/// No fragment of `frags` falls inside a `w` by `h` grid.
pub open spec fn misses<V>(frags: Seq<Fragment<V>>, w: nat, h: nat) -> bool {
    forall|k: int|
        0 <= k < frags.len() ==> !(0 <= #[trigger] frags[k].x < w && 0 <= frags[k].y < h)
}

/// The triangle lies wholly to one side of a `w` by `h` grid.
pub open spec fn beside_grid<V>(
    a: DeviceVertex<V>,
    b: DeviceVertex<V>,
    c: DeviceVertex<V>,
    w: nat,
    h: nat,
) -> bool {
    ||| max3(a.x as int, b.x as int, c.x as int) < 0
    ||| max3(a.y as int, b.y as int, c.y as int) < 0
    ||| min3(a.x as int, b.x as int, c.x as int) >= w
    ||| min3(a.y as int, b.y as int, c.y as int) >= h
}

proof fn lemma_row_within<V: Varying>(s: Edge<V>, l: Edge<V>, y: int, lo: int, hi: int)
    requires
        spans_within(s, l),
        s.top.y <= y < s.bottom.y,
        lo <= s.top.x <= hi,
        lo <= s.bottom.x <= hi,
        lo <= l.top.x <= hi,
        lo <= l.bottom.x <= hi,
    ensures
        forall|k: int|
            0 <= k < row_spec(scanline_spec(s, l, y)).len() ==> lo <= (
            #[trigger] row_spec(scanline_spec(s, l, y))[k]).x <= hi && row_spec(
                scanline_spec(s, l, y),
            )[k].y == y,
{
    lemma_crossing(s, y);
    lemma_crossing(l, y);
    let sl = scanline_spec(s, l, y);
    assert(lo <= sl.first_col() <= hi && lo <= sl.end_col() <= hi);
}

proof fn lemma_rows_within<V: Varying>(s: Edge<V>, l: Edge<V>, y_end: int, lo: int, hi: int)
    requires
        spans_within(s, l),
        y_end <= s.bottom.y,
        lo <= s.top.x <= hi,
        lo <= s.bottom.x <= hi,
        lo <= l.top.x <= hi,
        lo <= l.bottom.x <= hi,
    ensures
        forall|k: int|
            0 <= k < rows_spec(s, l, y_end).len() ==> lo <= (#[trigger] rows_spec(s, l, y_end)[k]).x
                <= hi && s.top.y <= rows_spec(s, l, y_end)[k].y < y_end,
    decreases y_end - s.top.y,
{
    if y_end > s.top.y {
        lemma_rows_within(s, l, y_end - 1, lo, hi);
        lemma_row_within(s, l, y_end - 1, lo, hi);
        let a = rows_spec(s, l, y_end - 1);
        let b = row_spec(scanline_spec(s, l, y_end - 1));
        assert forall|k: int| 0 <= k < rows_spec(s, l, y_end).len() implies lo <= (
        #[trigger] rows_spec(s, l, y_end)[k]).x <= hi && s.top.y <= rows_spec(s, l, y_end)[k].y
            < y_end by {
            if k >= a.len() {
                assert(rows_spec(s, l, y_end)[k] == b[k - a.len()]);
            } else {
                assert(rows_spec(s, l, y_end)[k] == a[k]);
            }
        }
    }
}

/// Every fragment of a triangle lies within the triangle's bounding box, its bottom row left
/// out.
pub proof fn lemma_triangle_within<V: Varying>(a: DeviceVertex<V>, b: DeviceVertex<V>, c: DeviceVertex<V>)
    ensures
        forall|k: int|
            0 <= k < triangle_spec(a, b, c).len() ==> {
                let f = #[trigger] triangle_spec(a, b, c)[k];
                &&& min3(a.x as int, b.x as int, c.x as int) <= f.x <= max3(
                    a.x as int,
                    b.x as int,
                    c.x as int,
                )
                &&& min3(a.y as int, b.y as int, c.y as int) <= f.y < max3(
                    a.y as int,
                    b.y as int,
                    c.y as int,
                )
            },
{
    let es = edges_spec(a, b, c);
    let li = long_index(es);
    let l = es[li];
    let s1 = es[(li + 1) % 3];
    let s2 = es[(li + 2) % 3];
    lemma_long_edge_spans(es, a, b, c);
    let lo = min3(a.x as int, b.x as int, c.x as int);
    let hi = max3(a.x as int, b.x as int, c.x as int);
    lemma_rows_within(s1, l, s1.bottom.y as int, lo, hi);
    lemma_rows_within(s2, l, s2.bottom.y as int, lo, hi);
    let r1 = rows_spec(s1, l, s1.bottom.y as int);
    let r2 = rows_spec(s2, l, s2.bottom.y as int);
    assert forall|k: int| 0 <= k < triangle_spec(a, b, c).len() implies {
        let f = #[trigger] triangle_spec(a, b, c)[k];
        &&& lo <= f.x <= hi
        &&& min3(a.y as int, b.y as int, c.y as int) <= f.y < max3(a.y as int, b.y as int, c.y as int)
    } by {
        if k < r1.len() {
            assert(triangle_spec(a, b, c)[k] == r1[k]);
        } else {
            assert(triangle_spec(a, b, c)[k] == r2[k - r1.len()]);
        }
    }
}

proof fn lemma_paint_misses<V, P, F: FragmentShader<V, P>>(
    cells: Seq<P>,
    w: nat,
    h: nat,
    frags: Seq<Fragment<V>>,
    shader: F,
)
    requires
        misses(frags, w, h),
    ensures
        paint(cells, w, h, frags, shader) == cells,
    decreases frags.len(),
{
    if frags.len() > 0 {
        assert(misses(frags.drop_last(), w, h)) by {
            assert forall|k: int| 0 <= k < frags.drop_last().len() implies !(0 <= #[trigger] frags.drop_last()[k].x < w && 0 <= frags.drop_last()[k].y < h) by {
                assert(frags.drop_last()[k] == frags[k]);
            }
        }
        lemma_paint_misses(cells, w, h, frags.drop_last(), shader);
        assert(!(0 <= frags[frags.len() - 1].x < w && 0 <= frags[frags.len() - 1].y < h));
    }
}

proof fn lemma_paint_tested_misses<V, P, F: FragmentShader<V, P>, D: DepthMap>(
    color: Seq<P>,
    cw: nat,
    ch: nat,
    depth: Seq<Depth>,
    dw: nat,
    dh: nat,
    frags: Seq<Fragment<V>>,
    shader: F,
    dm: D,
)
    requires
        misses(frags, dw, dh),
    ensures
        paint_tested(color, cw, ch, depth, dw, dh, frags, shader, dm) == (color, depth),
    decreases frags.len(),
{
    if frags.len() > 0 {
        assert(misses(frags.drop_last(), dw, dh)) by {
            assert forall|k: int| 0 <= k < frags.drop_last().len() implies !(0 <= #[trigger] frags.drop_last()[k].x < dw && 0 <= frags.drop_last()[k].y < dh) by {
                assert(frags.drop_last()[k] == frags[k]);
            }
        }
        lemma_paint_tested_misses(color, cw, ch, depth, dw, dh, frags.drop_last(), shader, dm);
        assert(!(0 <= frags[frags.len() - 1].x < dw && 0 <= frags[frags.len() - 1].y < dh));
    }
}

/// No fragment of a triangle wholly to one side of a grid falls inside it.
pub proof fn lemma_outside_triangle_misses<V: Varying>(
    a: DeviceVertex<V>,
    b: DeviceVertex<V>,
    c: DeviceVertex<V>,
    w: nat,
    h: nat,
)
    requires
        beside_grid(a, b, c, w, h),
    ensures
        misses(triangle_spec(a, b, c), w, h),
{
    lemma_triangle_within(a, b, c);
    let frags = triangle_spec(a, b, c);
    assert forall|k: int| 0 <= k < frags.len() implies !(0 <= #[trigger] frags[k].x < w && 0
        <= frags[k].y < h) by {
        let f = triangle_spec(a, b, c)[k];
    }
}

/// Every triangle lies wholly to one side of a `w` by `h` grid.
pub open spec fn all_beside_grid<V>(tris: Seq<DeviceTriangle<V>>, w: nat, h: nat) -> bool {
    forall|i: int|
        0 <= i < tris.len() ==> beside_grid((#[trigger] tris[i]).0, tris[i].1, tris[i].2, w, h)
}

/// No fragment of a mesh whose triangles each lie to one side of a grid falls inside it.
pub proof fn lemma_outside_mesh_misses<V: Varying>(tris: Seq<DeviceTriangle<V>>, w: nat, h: nat)
    requires
        all_beside_grid(tris, w, h),
    ensures
        misses(mesh_fragments(tris), w, h),
    decreases tris.len(),
{
    if tris.len() > 0 {
        let rest = tris.drop_last();
        assert forall|i: int| 0 <= i < rest.len() implies beside_grid(
            (#[trigger] rest[i]).0,
            rest[i].1,
            rest[i].2,
            w,
            h,
        ) by {
            assert(rest[i] == tris[i]);
        }
        lemma_outside_mesh_misses(rest, w, h);
        let t = tris.last();
        assert(beside_grid(tris[tris.len() - 1].0, t.1, t.2, w, h));
        lemma_outside_triangle_misses(t.0, t.1, t.2, w, h);
        let a = mesh_fragments(rest);
        let b = triangle_spec(t.0, t.1, t.2);
        assert forall|k: int| 0 <= k < (a + b).len() implies !(0 <= #[trigger] (a + b)[k].x < w
            && 0 <= (a + b)[k].y < h) by {
            if k < a.len() {
                assert((a + b)[k] == a[k]);
            } else {
                assert((a + b)[k] == b[k - a.len()]);
            }
        }
    }
}

/// Triangles that each lie wholly to one side of the colour grid write nothing: without a
/// depth test the colour grid stays as it was, and with a depth grid of the same size neither
/// grid changes, whatever the depth map.
pub proof fn lemma_outside_mesh_draws_nothing<V: Varying, P, F: FragmentShader<V, P>, D: DepthMap>(
    tris: Seq<DeviceTriangle<V>>,
    color: Seq<P>,
    cw: nat,
    ch: nat,
    depth: Seq<Depth>,
    dw: nat,
    dh: nat,
    shader: F,
    dm: D,
)
    requires
        all_beside_grid(tris, cw, ch),
    ensures
        paint(color, cw, ch, mesh_fragments(tris), shader) == color,
        dw == cw && dh == ch ==> paint_tested(
            color,
            cw,
            ch,
            depth,
            dw,
            dh,
            mesh_fragments(tris),
            shader,
            dm,
        ) == (color, depth),
{
    lemma_outside_mesh_misses(tris, cw, ch);
    lemma_paint_misses(color, cw, ch, mesh_fragments(tris), shader);
    if dw == cw && dh == ch {
        lemma_paint_tested_misses(color, cw, ch, depth, dw, dh, mesh_fragments(tris), shader, dm);
    }
}

/// The three vertices lie on one line (or coincide).
pub open spec fn collinear<V>(a: DeviceVertex<V>, b: DeviceVertex<V>, c: DeviceVertex<V>) -> bool {
    (b.x - a.x) * (c.y - a.y) == (c.x - a.x) * (b.y - a.y)
}

/// `v` lies on the line through the edge `e`.
pub open spec fn on_line<V>(v: DeviceVertex<V>, e: Edge<V>) -> bool {
    (v.x - e.top.x) * e.extent() == (e.bottom.x - e.top.x) * (v.y - e.top.y)
}

proof fn lemma_cross_symmetric(ax: int, ay: int, bx: int, by: int, cx: int, cy: int)
    requires
        (bx - ax) * (cy - ay) == (cx - ax) * (by - ay),
    ensures
        (cx - bx) * (ay - by) == (ax - bx) * (cy - by),
        (ax - cx) * (by - cy) == (bx - cx) * (ay - cy),
        (cx - ax) * (by - ay) == (bx - ax) * (cy - ay),
        (ax - bx) * (cy - by) == (cx - bx) * (ay - by),
        (bx - cx) * (ay - cy) == (ax - cx) * (by - cy),
{
    assert((cx - bx) * (ay - by) == (ax - bx) * (cy - by)) by (nonlinear_arith)
        requires
            (bx - ax) * (cy - ay) == (cx - ax) * (by - ay),
    ;
    assert((ax - cx) * (by - cy) == (bx - cx) * (ay - cy)) by (nonlinear_arith)
        requires
            (bx - ax) * (cy - ay) == (cx - ax) * (by - ay),
    ;
}

/// On a line every edge of the triangle passes through every vertex.
proof fn lemma_all_on_line<V>(a: DeviceVertex<V>, b: DeviceVertex<V>, c: DeviceVertex<V>)
    requires
        collinear(a, b, c),
    ensures
        forall|k: int|
            0 <= k < 3 ==> on_line(a, #[trigger] edges_spec(a, b, c)[k]) && on_line(
                b,
                edges_spec(a, b, c)[k],
            ) && on_line(c, edges_spec(a, b, c)[k]),
{
    lemma_cross_symmetric(a.x as int, a.y as int, b.x as int, b.y as int, c.x as int, c.y as int);
    let es = edges_spec(a, b, c);
    assert forall|k: int| 0 <= k < 3 implies on_line(a, #[trigger] es[k]) && on_line(b, es[k])
        && on_line(c, es[k]) by {
        let e = es[k];
        assert(on_line(e.top, e));
        assert((e.bottom.x - e.top.x) * e.extent() == (e.bottom.x - e.top.x) * (e.bottom.y
            - e.top.y));
    }
}

/// Two fractions that are equal round down to the same integer.
proof fn lemma_equal_fractions_floor(a: int, b: int, c: int, d: int)
    requires
        b > 0,
        d > 0,
        a * d == c * b,
    ensures
        a / b == c / d,
{
    let q = a / b;
    let r = a % b;
    vstd::arithmetic::div_mod::lemma_fundamental_div_mod(a, b);
    let r2 = c - q * d;
    assert(r2 * b == r * d) by (nonlinear_arith)
        requires
            a == b * q + r,
            a * d == c * b,
            r2 == c - q * d,
    ;
    assert(0 <= r2 < d) by (nonlinear_arith)
        requires
            r2 * b == r * d,
            0 <= r < b,
            b > 0,
            d > 0,
    ;
    lemma_fundamental_div_mod_converse(c, d, q, r2);
}

/// Rounding down after the blend is rounding down the blend taken as one fraction.
proof fn lemma_lerp_as_fraction(x1: int, x2: int, num: int, den: int)
    requires
        den > 0,
    ensures
        x1 + (x2 - x1) * num / den == (x1 * den + (x2 - x1) * num) / den,
{
    let p = (x2 - x1) * num;
    vstd::arithmetic::div_mod::lemma_fundamental_div_mod(p, den);
    let q = p / den;
    let r = p % den;
    assert(x1 * den + p == (x1 + q) * den + r) by (nonlinear_arith)
        requires
            p == den * q + r,
    ;
    lemma_fundamental_div_mod_converse(x1 * den + p, den, x1 + q, r);
}

/// Two segments of one line cross each row at the same place.
proof fn lemma_same_crossing(
    tx: int,
    ty: int,
    ld: int,
    ldx: int,
    px: int,
    py: int,
    qx: int,
    qy: int,
    y: int,
)
    requires
        (px - tx) * ld == ldx * (py - ty),
        (qx - tx) * ld == ldx * (qy - ty),
    ensures
        (px * (qy - py) + (qx - px) * (y - py)) * ld == (tx * ld + ldx * (y - ty)) * (qy - py),
{
    let (sd, sdx) = (qy - py, qx - px);
    assert(sdx * ld == ldx * sd) by (nonlinear_arith)
        requires
            (px - tx) * ld == ldx * (py - ty),
            (qx - tx) * ld == ldx * (qy - ty),
            sdx == qx - px,
            sd == qy - py,
    ;
    assert(px * sd * ld == (tx * ld + ldx * (py - ty)) * sd) by (nonlinear_arith)
        requires
            (px - tx) * ld == ldx * (py - ty),
    ;
    assert(sdx * (y - py) * ld == ldx * (y - py) * sd) by (nonlinear_arith)
        requires
            sdx * ld == ldx * sd,
    ;
    assert((px * sd + sdx * (y - py)) * ld == (tx * ld + ldx * (y - ty)) * sd) by (nonlinear_arith)
        requires
            px * sd * ld == (tx * ld + ldx * (py - ty)) * sd,
            sdx * (y - py) * ld == ldx * (y - py) * sd,
    ;
}

/// On a line, a short edge and the long edge meet each row at the same place.
proof fn lemma_row_empty_on_line<V: Varying>(s: Edge<V>, l: Edge<V>, y: int)
    requires
        spans_within(s, l),
        s.top.y <= y < s.bottom.y,
        on_line(s.top, l),
        on_line(s.bottom, l),
    ensures
        row_spec(scanline_spec(s, l, y)).len() == 0,
{
    lemma_same_crossing(
        l.top.x as int,
        l.top.y as int,
        l.extent(),
        l.bottom.x - l.top.x,
        s.top.x as int,
        s.top.y as int,
        s.bottom.x as int,
        s.bottom.y as int,
        y,
    );
    lemma_crossing(s, y);
    lemma_crossing(l, y);
    let (sn, sd, ln, ld) = (s.crossing_num(y), s.extent(), l.crossing_num(y), l.extent());
    assert(sn * ld == ln * sd);
    lemma_equal_fractions_floor(sn, sd, ln, ld);
}

proof fn lemma_rows_empty_on_line<V: Varying>(s: Edge<V>, l: Edge<V>, y_end: int)
    requires
        spans_within(s, l),
        y_end <= s.bottom.y,
        on_line(s.top, l),
        on_line(s.bottom, l),
    ensures
        rows_spec(s, l, y_end).len() == 0,
    decreases y_end - s.top.y,
{
    if y_end > s.top.y {
        lemma_rows_empty_on_line(s, l, y_end - 1);
        lemma_row_empty_on_line(s, l, y_end - 1);
    }
}

/// A triangle of zero area, its vertices on one line or coinciding, has no fragments.
pub proof fn lemma_zero_area_triangle_is_empty<V: Varying>(
    a: DeviceVertex<V>,
    b: DeviceVertex<V>,
    c: DeviceVertex<V>,
)
    requires
        collinear(a, b, c),
    ensures
        triangle_spec(a, b, c).len() == 0,
{
    let es = edges_spec(a, b, c);
    let li = long_index(es);
    let l = es[li];
    let s1 = es[(li + 1) % 3];
    let s2 = es[(li + 2) % 3];
    lemma_long_edge_spans(es, a, b, c);
    lemma_all_on_line(a, b, c);
    assert(on_line(s1.top, l) && on_line(s1.bottom, l));
    assert(on_line(s2.top, l) && on_line(s2.bottom, l));
    lemma_rows_empty_on_line(s1, l, s1.bottom.y as int);
    lemma_rows_empty_on_line(s2, l, s2.bottom.y as int);
}

/// A mesh whose triangles all have zero area has no fragments, so drawing it changes nothing.
pub proof fn lemma_zero_area_mesh_is_empty<V: Varying>(tris: Seq<DeviceTriangle<V>>)
    requires
        forall|i: int|
            0 <= i < tris.len() ==> collinear((#[trigger] tris[i]).0, tris[i].1, tris[i].2),
    ensures
        mesh_fragments(tris).len() == 0,
    decreases tris.len(),
{
    if tris.len() > 0 {
        let rest = tris.drop_last();
        assert forall|i: int| 0 <= i < rest.len() implies collinear(
            (#[trigger] rest[i]).0,
            rest[i].1,
            rest[i].2,
        ) by {
            assert(rest[i] == tris[i]);
        }
        lemma_zero_area_mesh_is_empty(rest);
        let t = tris.last();
        assert(collinear(tris[tris.len() - 1].0, t.1, t.2));
        lemma_zero_area_triangle_is_empty(t.0, t.1, t.2);
    }
}

} // verus!
