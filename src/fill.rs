//! Fan triangulation of flattened contours and the classification of the
//! resulting mesh.
//!
//! Each contour is triangulated as a fan around its first point: point `i`
//! forms the triangle `(first, prev, i)` with the pending previous point.
//! When the three points are collinear no triangle is emitted and the new
//! point takes the place of the pending one. The orientation of each
//! candidate triangle is computed by the caller from the coordinates; the
//! mesh refers to points only by the caller's ids.
use vstd::prelude::*;
use crate::stencil::{PathFillType, VertexMode};

verus! {

/// The turning direction of a triangle `(a, b, c)`: the sign of the cross
/// product `(b - a) x (c - a)`.
#[derive(Debug, Clone, Copy, PartialEq, Eq, Structural)]
pub enum Orientation {
    /// Positive cross product: a front-facing triangle.
    CW,
    /// Negative cross product: a back-facing triangle.
    CCW,
    /// The three points are collinear.
    Linear,
}

/// The abstract state of a mesh under construction.
pub struct MeshView {
    /// For each mesh vertex, the id of the point it holds.
    pub vertices: Seq<usize>,
    /// Triangle list: three vertex indices per triangle.
    pub indices: Seq<u32>,
    pub front_count: int,
    pub back_count: int,
    /// Vertex index of the first point of the current contour.
    pub first: int,
    /// Vertex index of the pending previous point of the current contour.
    pub prev: int,
}

/// The classification of a whole path's fan triangulation.
pub open spec fn classify_spec(rule: PathFillType, front: int, back: int) -> VertexMode {
    if rule == PathFillType::EvenOdd {
        VertexMode::EvenOddFill
    } else if front == 0 || back == 0 {
        VertexMode::Convex
    } else {
        VertexMode::Complex
    }
}

impl MeshView {
    /// A contour is open: its first point comes before the pending point,
    /// which is the last vertex.
    pub open spec fn in_contour(self) -> bool {
        &&& 0 <= self.first < self.prev
        &&& self.prev == self.vertices.len() - 1
    }

    pub open spec fn wf(self) -> bool {
        &&& self.vertices.len() <= u32::MAX
        &&& 0 <= self.front_count
        &&& 0 <= self.back_count
        &&& self.front_count + self.back_count <= self.vertices.len()
        &&& self.indices.len() == 3 * (self.front_count + self.back_count)
        &&& forall|k: int| 0 <= k < self.indices.len() ==> #[trigger] self.indices[k] < self.vertices.len()
    }

    pub open spec fn begin_contour(self, p0: usize, p1: usize) -> Self {
        MeshView {
            vertices: self.vertices.push(p0).push(p1),
            first: self.vertices.len() as int,
            prev: self.vertices.len() as int + 1,
            ..self
        }
    }

    pub open spec fn add_point(self, p: usize, o: Orientation) -> Self {
        if o == Orientation::Linear {
            MeshView { vertices: self.vertices.update(self.prev, p), ..self }
        } else {
            let n = self.vertices.len() as int;
            MeshView {
                vertices: self.vertices.push(p),
                indices: self.indices.push(self.first as u32).push(self.prev as u32).push(n as u32),
                front_count: if o == Orientation::CW {
                    self.front_count + 1
                } else {
                    self.front_count
                },
                back_count: if o == Orientation::CCW {
                    self.back_count + 1
                } else {
                    self.back_count
                },
                prev: n,
                ..self
            }
        }
    }

    /// Adds the points `ps` with the orientations `os`, in order.
    pub open spec fn add_points(self, ps: Seq<usize>, os: Seq<Orientation>) -> Self
        decreases ps.len(),
    {
        if ps.len() == 0 || os.len() == 0 {
            self
        } else {
            self.add_point(ps[0], os[0]).add_points(ps.drop_first(), os.drop_first())
        }
    }

    /// The fan of one contour of points `ps`, given the orientation of each
    /// candidate triangle from the third point on.
    pub open spec fn fan(self, ps: Seq<usize>, os: Seq<Orientation>) -> Self {
        self.begin_contour(ps[0], ps[1]).add_points(ps.skip(2), os)
    }

    pub open spec fn triangle_count(self) -> int {
        self.indices.len() as int / 3
    }
}

/// A fan triangulation grows by one triangle for every point whose
/// candidate triangle is not collinear.
proof fn lemma_add_points_count(m: MeshView, ps: Seq<usize>, os: Seq<Orientation>)
    requires
        m.in_contour(),
        ps.len() == os.len(),
        forall|k: int| 0 <= k < os.len() ==> #[trigger] os[k] != Orientation::Linear,
    ensures
        m.add_points(ps, os).indices.len() == m.indices.len() + 3 * ps.len(),
        m.add_points(ps, os).vertices.len() == m.vertices.len() + ps.len(),
    decreases ps.len(),
{
    if ps.len() > 0 {
        let n = m.add_point(ps[0], os[0]);
        assert(os[0] != Orientation::Linear);
        assert forall|k: int| 0 <= k < os.drop_first().len() implies #[trigger] os.drop_first()[k]
            != Orientation::Linear by {
            assert(os.drop_first()[k] == os[k + 1]);
        }
        lemma_add_points_count(n, ps.drop_first(), os.drop_first());
    }
}

/// Fan triangulation of a contour of `n >= 3` points with no collinear
/// candidate triangle emits exactly `n - 2` triangles.
pub proof fn lemma_fan_triangle_count(m: MeshView, ps: Seq<usize>, os: Seq<Orientation>)
    requires
        ps.len() >= 3,
        os.len() == ps.len() - 2,
        forall|k: int| 0 <= k < os.len() ==> #[trigger] os[k] != Orientation::Linear,
    ensures
        m.fan(ps, os).indices.len() == m.indices.len() + 3 * (ps.len() - 2),
{
    let b = m.begin_contour(ps[0], ps[1]);
    lemma_add_points_count(b, ps.skip(2), os);
}

/// A triangle mesh built contour by contour, with the count of front- and
/// back-facing triangles.
pub struct FillMesh {
    vertices: Vec<usize>,
    indices: Vec<u32>,
    front_count: u32,
    back_count: u32,
    first: u32,
    prev: u32,
}

impl View for FillMesh {
    type V = MeshView;

    closed spec fn view(&self) -> MeshView {
        MeshView {
            vertices: self.vertices@,
            indices: self.indices@,
            front_count: self.front_count as int,
            back_count: self.back_count as int,
            first: self.first as int,
            prev: self.prev as int,
        }
    }
}

impl FillMesh {
    pub fn new() -> (r: Self)
        ensures
            r@.wf(),
            r@.vertices.len() == 0,
            r@.indices.len() == 0,
            r@.front_count == 0,
            r@.back_count == 0,
    {
        FillMesh {
            vertices: Vec::new(),
            indices: Vec::new(),
            front_count: 0,
            back_count: 0,
            first: 0,
            prev: 0,
        }
    }

    /// Starts a contour with its first two points.
    pub fn begin_contour(&mut self, p0: usize, p1: usize)
        requires
            old(self)@.wf(),
            old(self)@.vertices.len() + 2 <= u32::MAX,
        ensures
            final(self)@ == old(self)@.begin_contour(p0, p1),
            final(self)@.wf(),
            final(self)@.in_contour(),
    {
        let n = self.vertices.len() as u32;
        self.vertices.push(p0);
        self.vertices.push(p1);
        self.first = n;
        self.prev = n + 1;
    }

    /// The id of the first point of the current contour.
    pub fn first_point(&self) -> (r: usize)
        requires
            self@.in_contour(),
        ensures
            r == self@.vertices[self@.first],
    {
        self.vertices[self.first as usize]
    }

    /// The id of the pending previous point of the current contour.
    pub fn pending_point(&self) -> (r: usize)
        requires
            self@.in_contour(),
        ensures
            r == self@.vertices[self@.prev],
    {
        self.vertices[self.prev as usize]
    }

    /// Adds point `p`, where `o` is the orientation of the triangle from the
    /// first point through the pending point to `p`.
    pub fn add_point(&mut self, p: usize, o: Orientation)
        requires
            old(self)@.wf(),
            old(self)@.in_contour(),
            old(self)@.vertices.len() < u32::MAX,
        ensures
            final(self)@ == old(self)@.add_point(p, o),
            final(self)@.wf(),
            final(self)@.in_contour(),
    {
        match o {
            Orientation::Linear => {
                let prev = self.prev as usize;
                self.vertices.set(prev, p);
            },
            _ => {
                let n = self.vertices.len() as u32;
                if o == Orientation::CW {
                    self.front_count = self.front_count + 1;
                } else {
                    self.back_count = self.back_count + 1;
                }
                self.vertices.push(p);
                self.indices.push(self.first);
                self.indices.push(self.prev);
                self.indices.push(n);
                self.prev = n;
                proof {
                    let o_ = old(self)@;
                    assert forall|k: int| 0 <= k < self@.indices.len() implies #[trigger] self@.indices[k]
                        < self@.vertices.len() by {
                        if k < o_.indices.len() {
                            assert(self@.indices[k] == o_.indices[k]);
                        }
                    }
                }
            },
        }
        proof {
            assert(self@ =~= old(self)@.add_point(p, o));
        }
    }

    /// The classification of everything triangulated so far under `rule`:
    /// even-odd fills are always `EvenOddFill`; a non-zero fill is `Convex`
    /// when all its triangles face one way and `Complex` otherwise.
    pub fn classify(&self, rule: PathFillType) -> (r: VertexMode)
        ensures
            r == classify_spec(rule, self@.front_count, self@.back_count),
    {
        match rule {
            PathFillType::EvenOdd => VertexMode::EvenOddFill,
            PathFillType::Winding => if self.front_count == 0 || self.back_count == 0 {
                VertexMode::Convex
            } else {
                VertexMode::Complex
            },
        }
    }

    pub fn front_count(&self) -> (r: u32)
        ensures
            r == self@.front_count,
    {
        self.front_count
    }

    pub fn back_count(&self) -> (r: u32)
        ensures
            r == self@.back_count,
    {
        self.back_count
    }

    /// The number of triangles.
    pub fn triangle_count(&self) -> (r: usize)
        requires
            self@.wf(),
        ensures
            r == self@.triangle_count(),
    {
        self.indices.len() / 3
    }

    /// The point id held by each mesh vertex.
    pub fn vertex_points(&self) -> (r: &Vec<usize>)
        ensures
            r@ == self@.vertices,
    {
        &self.vertices
    }

    /// The triangle list.
    pub fn indices(&self) -> (r: &Vec<u32>)
        ensures
            r@ == self@.indices,
    {
        &self.indices
    }
}

} // verus!
