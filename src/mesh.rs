//! Getting the triangles out of a mesh.
use vstd::prelude::*;

verus! {

/// A source of triangles.
pub trait Mesh {
    type Vertex;

    /// The mesh can be walked: every index it holds names a vertex.
    spec fn mesh_wf(&self) -> bool;

    /// The triangles, in order.
    spec fn triangles_spec(&self) -> Seq<(Self::Vertex, Self::Vertex, Self::Vertex)>;

    fn triangles(&self) -> (r: Vec<(Self::Vertex, Self::Vertex, Self::Vertex)>)
        requires
            self.mesh_wf(),
        ensures
            r@ == self.triangles_spec(),
    ;
}

/// The vertices taken three at a time; a remainder of one or two is left out.
pub open spec fn flat_triangles<T>(vs: Seq<T>) -> Seq<(T, T, T)> {
    Seq::new(vs.len() / 3, |i: int| (vs[3 * i], vs[3 * i + 1], vs[3 * i + 2]))
}

/// The indices taken three at a time, each naming a vertex; a remainder is left out.
pub open spec fn indexed_triangles<T>(vs: Seq<T>, idx: Seq<usize>) -> Seq<(T, T, T)> {
    Seq::new(
        idx.len() / 3,
        |i: int| (vs[idx[3 * i] as int], vs[idx[3 * i + 1] as int], vs[idx[3 * i + 2] as int]),
    )
}

/// A flat list of vertices, three per triangle.
impl<T: Copy> Mesh for Vec<T> {
    type Vertex = T;

    open spec fn mesh_wf(&self) -> bool {
        true
    }

    open spec fn triangles_spec(&self) -> Seq<(T, T, T)> {
        flat_triangles(self@)
    }

    fn triangles(&self) -> (r: Vec<(T, T, T)>) {
        let len: usize = self.len();
        let n: usize = len / 3;
        let mut out: Vec<(T, T, T)> = Vec::new();
        let mut i: usize = 0;
        while i < n
            invariant
                i <= n,
                len == self@.len(),
                n == len / 3,
                out@ == flat_triangles(self@).take(i as int),
            decreases n - i,
        {
            out.push((self[3 * i], self[3 * i + 1], self[3 * i + 2]));
            assert(out@ =~= flat_triangles(self@).take(i + 1));
            i = i + 1;
        }
        assert(out@ =~= flat_triangles(self@));
        out
    }
}

/// A list of vertices and a list of indices into it, three indices per triangle.
impl<T: Copy> Mesh for (Vec<T>, Vec<usize>) {
    type Vertex = T;

    open spec fn mesh_wf(&self) -> bool {
        forall|i: int| 0 <= i < self.1@.len() ==> self.1@[i] < self.0@.len()
    }

    open spec fn triangles_spec(&self) -> Seq<(T, T, T)> {
        indexed_triangles(self.0@, self.1@)
    }

    fn triangles(&self) -> (r: Vec<(T, T, T)>) {
        let vs = &self.0;
        let idx = &self.1;
        let len: usize = idx.len();
        let n: usize = len / 3;
        let mut out: Vec<(T, T, T)> = Vec::new();
        let mut i: usize = 0;
        while i < n
            invariant
                i <= n,
                len == idx@.len(),
                n == len / 3,
                self.mesh_wf(),
                vs == &self.0,
                idx == &self.1,
                out@ == indexed_triangles(vs@, idx@).take(i as int),
            decreases n - i,
        {
            let (p, q, r) = (idx[3 * i], idx[3 * i + 1], idx[3 * i + 2]);
            out.push((vs[p], vs[q], vs[r]));
            assert(out@ =~= indexed_triangles(vs@, idx@).take(i + 1));
            i = i + 1;
        }
        assert(out@ =~= indexed_triangles(vs@, idx@));
        out
    }
}

} // verus!
