//! Index layout of stroke meshes.
//!
//! A stroke is expanded into quads along its segments, join geometry at
//! interior vertices and caps at open ends. The coordinates are computed by
//! the caller; this module decides which join is drawn and writes the
//! triangle indices for each piece, reserving its vertices in order, so that
//! every index names a vertex the caller pushes.
use vstd::prelude::*;

verus! {

/// The shape at the ends of an open stroked contour.
#[derive(Debug, Clone, Copy, PartialEq, Eq, Structural, Default)]
pub enum StrokeCap {
    /// Ends flat at the end point.
    #[default]
    Butt,
    /// A half circle around the end point.
    Round,
    /// Extends half the stroke width beyond the end point.
    Square,
}

/// The shape at the corners of a stroked contour.
#[derive(Debug, Clone, Copy, PartialEq, Eq, Structural, Default)]
pub enum StrokeJoin {
    /// Sharp corners, up to the miter limit.
    #[default]
    Miter,
    /// A circular arc around the corner.
    Round,
    /// The two offset corners joined by a straight edge.
    Bevel,
}

/// The geometry actually drawn at a corner.
#[derive(Debug, Clone, Copy, PartialEq, Eq, Structural)]
pub enum JoinGeometry {
    /// Two triangles reaching the offset intersection point.
    Miter,
    /// One triangle between the two offset points.
    Bevel,
    /// Triangle fans approximating the arc.
    Round,
}

/// Number of interpolation steps of a round fan.
pub const ROUND_STEPS: u32 = 8;

/// A miter join falls back to a bevel when its apex lies beyond the miter
/// limit.
pub open spec fn join_geometry_spec(join: StrokeJoin, miter_within_limit: bool) -> JoinGeometry {
    match join {
        StrokeJoin::Miter => if miter_within_limit {
            JoinGeometry::Miter
        } else {
            JoinGeometry::Bevel
        },
        StrokeJoin::Round => JoinGeometry::Round,
        StrokeJoin::Bevel => JoinGeometry::Bevel,
    }
}

/// The geometry drawn for `join`, where `miter_within_limit` tells whether
/// the apex of a miter lies closer to the vertex than the miter limit times
/// half the stroke width.
pub fn join_geometry(join: StrokeJoin, miter_within_limit: bool) -> (r: JoinGeometry)
    ensures
        r == join_geometry_spec(join, miter_within_limit),
{
    match join {
        StrokeJoin::Miter => if miter_within_limit {
            JoinGeometry::Miter
        } else {
            JoinGeometry::Bevel
        },
        StrokeJoin::Round => JoinGeometry::Round,
        StrokeJoin::Bevel => JoinGeometry::Bevel,
    }
}

/// The triangles of a quad `a, b, c, d` at `base`: `(a, b, c)` and
/// `(b, d, c)`.
pub open spec fn quad_indices(base: int) -> Seq<u32> {
    seq![base as u32, (base + 1) as u32, (base + 2) as u32, (base + 1) as u32, (base + 3) as u32, (base + 2) as u32]
}

/// A bevel with vertices `center, prev, next` at `base`: `(prev, center, next)`.
pub open spec fn bevel_indices(base: int) -> Seq<u32> {
    seq![(base + 1) as u32, base as u32, (base + 2) as u32]
}

/// A miter with vertices `center, apex, prev, next` at `base`:
/// `(apex, prev, center)` and `(apex, center, next)`.
pub open spec fn miter_indices(base: int) -> Seq<u32> {
    seq![(base + 1) as u32, (base + 2) as u32, base as u32, (base + 1) as u32, base as u32, (base + 3) as u32]
}

/// A fan with vertices `center, p0, p1, ..., p_steps` at `base`: the
/// triangles `(p_k, center, p_k+1)`.
pub open spec fn fan_indices(base: int, steps: int) -> Seq<u32>
    decreases steps,
{
    if steps <= 0 {
        Seq::empty()
    } else {
        fan_indices(base, steps - 1).push((base + steps) as u32).push(base as u32).push(
            (base + steps + 1) as u32,
        )
    }
}

/// Two fans sharing nothing, as drawn for a round join or one round cap:
/// `ROUND_STEPS` triangles each, the second fan starting right after the
/// vertices of the first.
pub open spec fn round_pair_indices(base: int) -> Seq<u32> {
    fan_indices(base, ROUND_STEPS as int) + fan_indices(base + ROUND_STEPS + 2, ROUND_STEPS as int)
}

/// The vertices reserved by a join of the given geometry.
pub open spec fn join_vertex_count(g: JoinGeometry) -> int {
    match g {
        JoinGeometry::Miter => 4,
        JoinGeometry::Bevel => 3,
        JoinGeometry::Round => 2 * (ROUND_STEPS + 2),
    }
}

/// The triangles of a join of the given geometry at `base`.
pub open spec fn join_indices(g: JoinGeometry, base: int) -> Seq<u32> {
    match g {
        JoinGeometry::Miter => miter_indices(base),
        JoinGeometry::Bevel => bevel_indices(base),
        JoinGeometry::Round => round_pair_indices(base),
    }
}

/// The vertices reserved by one end cap.
pub open spec fn cap_vertex_count(cap: StrokeCap) -> int {
    match cap {
        StrokeCap::Butt => 0,
        StrokeCap::Round => 2 * (ROUND_STEPS + 2),
        StrokeCap::Square => 4,
    }
}

/// The triangles of one end cap at `base`.
pub open spec fn cap_indices(cap: StrokeCap, base: int) -> Seq<u32> {
    match cap {
        StrokeCap::Butt => Seq::empty(),
        StrokeCap::Round => round_pair_indices(base),
        StrokeCap::Square => quad_indices(base),
    }
}

/// One segment of a stroked contour: from point `from` to point `to`, or,
/// where `to` is `None`, back to the first point that differs from `from`
/// (the closing segment). `join_with` is the point before `from` when a join
/// is drawn at `from`.
#[derive(Debug, Clone, Copy, PartialEq, Eq, Structural)]
pub struct SegmentStep {
    pub from: usize,
    pub to: Option<usize>,
    pub join_with: Option<usize>,
}

/// The number of segments of a contour of `n` points.
pub open spec fn segment_count(n: int, closed: bool) -> int {
    if n == 0 {
        0
    } else if closed {
        n
    } else {
        n - 1
    }
}

/// Segment `i` of a contour of `n` points: the last point of a closed
/// contour wraps around, and the first point of an open one has no join.
pub open spec fn segment_step(n: int, closed: bool, i: int) -> SegmentStep {
    SegmentStep {
        from: i as usize,
        to: if i == n - 1 {
            None
        } else {
            Some((i + 1) as usize)
        },
        join_with: if !closed && i == 0 {
            None
        } else if i == 0 {
            Some((n - 1) as usize)
        } else {
            Some((i - 1) as usize)
        },
    }
}

/// The segments of a contour of `n` points, in drawing order.
pub fn segment_steps(n: usize, closed: bool) -> (r: Vec<SegmentStep>)
    ensures
        r@.len() == segment_count(n as int, closed),
        forall|i: int| 0 <= i < r@.len() ==> #[trigger] r@[i] == segment_step(n as int, closed, i),
{
    let mut r: Vec<SegmentStep> = Vec::new();
    let mut i: usize = 0;
    while i < n
        invariant
            0 <= i <= n,
            !closed && n > 0 ==> i <= n - 1,
            r@.len() == i,
            forall|k: int| 0 <= k < i ==> #[trigger] r@[k] == segment_step(n as int, closed, k),
        ensures
            r@.len() == segment_count(n as int, closed),
            forall|k: int| 0 <= k < r@.len() ==> #[trigger] r@[k] == segment_step(n as int, closed, k),
        decreases n - i,
    {
        if !closed && i == n - 1 {
            break;
        }
        let to = if i == n - 1 {
            None
        } else {
            Some(i + 1)
        };
        let join_with = if !closed && i == 0 {
            None
        } else if i == 0 {
            Some(n - 1)
        } else {
            Some(i - 1)
        };
        r.push(SegmentStep { from: i, to, join_with });
        i = i + 1;
    }
    r
}

/// The abstract state of a stroke mesh.
pub struct StrokeView {
    pub vertex_count: int,
    pub indices: Seq<u32>,
}

impl StrokeView {
    pub open spec fn wf(self) -> bool {
        &&& 0 <= self.vertex_count <= u32::MAX
        &&& forall|k: int| 0 <= k < self.indices.len() ==> #[trigger] self.indices[k] < self.vertex_count
    }
}

/// Indices of a stroke mesh, with the number of vertices reserved so far.
pub struct StrokeMesh {
    vertex_count: u32,
    indices: Vec<u32>,
}

impl View for StrokeMesh {
    type V = StrokeView;

    closed spec fn view(&self) -> StrokeView {
        StrokeView { vertex_count: self.vertex_count as int, indices: self.indices@ }
    }
}

impl StrokeMesh {
    pub fn new() -> (r: Self)
        ensures
            r@.wf(),
            r@.vertex_count == 0,
            r@.indices.len() == 0,
    {
        StrokeMesh { vertex_count: 0, indices: Vec::new() }
    }

    pub fn vertex_count(&self) -> (r: u32)
        ensures
            r == self@.vertex_count,
    {
        self.vertex_count
    }

    pub fn indices(&self) -> (r: &Vec<u32>)
        ensures
            r@ == self@.indices,
    {
        &self.indices
    }

    /// Reserves `n` vertices and appends the triangles `tri` (given relative
    /// to the first of them).
    fn append(&mut self, n: u32, tri: &Vec<u32>) -> (base: u32)
        requires
            old(self)@.wf(),
            old(self)@.vertex_count + n <= u32::MAX,
            forall|k: int| 0 <= k < tri@.len() ==> #[trigger] tri@[k] < n,
        ensures
            base == old(self)@.vertex_count,
            final(self)@.vertex_count == old(self)@.vertex_count + n,
            final(self)@.indices == old(self)@.indices + tri@.map_values(|t: u32| (base + t) as u32),
            final(self)@.wf(),
    {
        let base = self.vertex_count;
        let ghost start = self.indices@;
        let mut k: usize = 0;
        while k < tri.len()
            invariant
                0 <= k <= tri@.len(),
                base == old(self)@.vertex_count,
                self.vertex_count == base,
                base + n <= u32::MAX,
                forall|j: int| 0 <= j < tri@.len() ==> #[trigger] tri@[j] < n,
                self.indices@ == start + tri@.take(k as int).map_values(|t: u32| (base + t) as u32),
                start == old(self)@.indices,
            decreases tri@.len() - k,
        {
            self.indices.push(base + tri[k]);
            proof {
                assert(tri@.take(k + 1) =~= tri@.take(k as int).push(tri@[k as int]));
                assert(tri@.take(k + 1).map_values(|t: u32| (base + t) as u32) =~= tri@.take(
                    k as int,
                ).map_values(|t: u32| (base + t) as u32).push((base + tri@[k as int]) as u32));
            }
            k = k + 1;
        }
        self.vertex_count = base + n;
        proof {
            assert(tri@.take(tri@.len() as int) =~= tri@);
            let s = self@.indices;
            assert forall|j: int| 0 <= j < s.len() implies #[trigger] s[j] < self@.vertex_count by {
                if j >= start.len() {
                    assert(s[j] == (base + tri@[j - start.len()]) as u32);
                }
            }
        }
        base
    }

    /// Reserves the four corners `a, b, c, d` of a segment quad (or a square
    /// cap) and appends its two triangles.
    pub fn add_quad(&mut self) -> (base: u32)
        requires
            old(self)@.wf(),
            old(self)@.vertex_count + 4 <= u32::MAX,
        ensures
            base == old(self)@.vertex_count,
            final(self)@.vertex_count == old(self)@.vertex_count + 4,
            final(self)@.indices == old(self)@.indices + quad_indices(base as int),
            final(self)@.wf(),
    {
        let tri = vec![0u32, 1, 2, 1, 3, 2];
        let base = self.append(4, &tri);
        assert(tri@.map_values(|t: u32| (base + t) as u32) =~= quad_indices(base as int));
        base
    }

    /// Reserves `center, prev, next` of a bevel join and appends its
    /// triangle.
    pub fn add_bevel(&mut self) -> (base: u32)
        requires
            old(self)@.wf(),
            old(self)@.vertex_count + 3 <= u32::MAX,
        ensures
            base == old(self)@.vertex_count,
            final(self)@.vertex_count == old(self)@.vertex_count + 3,
            final(self)@.indices == old(self)@.indices + bevel_indices(base as int),
            final(self)@.wf(),
    {
        let tri = vec![1u32, 0, 2];
        let base = self.append(3, &tri);
        assert(tri@.map_values(|t: u32| (base + t) as u32) =~= bevel_indices(base as int));
        base
    }

    /// Reserves `center, apex, prev, next` of a miter join and appends its
    /// two triangles.
    pub fn add_miter(&mut self) -> (base: u32)
        requires
            old(self)@.wf(),
            old(self)@.vertex_count + 4 <= u32::MAX,
        ensures
            base == old(self)@.vertex_count,
            final(self)@.vertex_count == old(self)@.vertex_count + 4,
            final(self)@.indices == old(self)@.indices + miter_indices(base as int),
            final(self)@.wf(),
    {
        let tri = vec![1u32, 2, 0, 1, 0, 3];
        let base = self.append(4, &tri);
        assert(tri@.map_values(|t: u32| (base + t) as u32) =~= miter_indices(base as int));
        base
    }

    /// Reserves `center` and the `steps + 1` arc points of a round fan and
    /// appends its `steps` triangles.
    pub fn add_fan(&mut self, steps: u32) -> (base: u32)
        requires
            old(self)@.wf(),
            old(self)@.vertex_count + steps + 2 <= u32::MAX,
        ensures
            base == old(self)@.vertex_count,
            final(self)@.vertex_count == old(self)@.vertex_count + steps + 2,
            final(self)@.indices == old(self)@.indices + fan_indices(base as int, steps as int),
            final(self)@.wf(),
    {
        let base = self.vertex_count;
        let ghost start = self.indices@;
        let mut k: u32 = 0;
        assert(fan_indices(base as int, 0) =~= Seq::<u32>::empty());
        assert(start + Seq::<u32>::empty() =~= start);
        while k < steps
            invariant
                0 <= k <= steps,
                base == old(self)@.vertex_count,
                self.vertex_count == base,
                base + steps + 2 <= u32::MAX,
                start == old(self)@.indices,
                self.indices@ == start + fan_indices(base as int, k as int),
            decreases steps - k,
        {
            self.indices.push(base + k + 1);
            self.indices.push(base);
            self.indices.push(base + k + 2);
            proof {
                let f = fan_indices(base as int, k as int);
                assert(fan_indices(base as int, k + 1) == f.push((base + k + 1) as u32).push(
                    base as u32,
                ).push((base + k + 2) as u32));
                assert(start + f.push((base + k + 1) as u32).push(base as u32).push(
                    (base + k + 2) as u32,
                ) =~= (start + f).push((base + k + 1) as u32).push(base as u32).push(
                    (base + k + 2) as u32,
                ));
            }
            k = k + 1;
        }
        self.vertex_count = base + steps + 2;
        proof {
            lemma_fan_bounds(base as int, steps as int);
            let s = self@.indices;
            assert forall|j: int| 0 <= j < s.len() implies #[trigger] s[j] < self@.vertex_count by {
                if j >= start.len() {
                    assert(s[j] == fan_indices(base as int, steps as int)[j - start.len()]);
                }
            }
        }
        base
    }

    /// Reserves the vertices of a join and appends its triangles: a miter
    /// is `center, apex, prev, next`, a bevel `center, prev, next`, and a
    /// round join two fans, each a center and `ROUND_STEPS + 1` arc points.
    pub fn add_join(&mut self, g: JoinGeometry) -> (base: u32)
        requires
            old(self)@.wf(),
            old(self)@.vertex_count + join_vertex_count(g) <= u32::MAX,
        ensures
            base == old(self)@.vertex_count,
            final(self)@.vertex_count == old(self)@.vertex_count + join_vertex_count(g),
            final(self)@.indices == old(self)@.indices + join_indices(g, base as int),
            final(self)@.wf(),
    {
        match g {
            JoinGeometry::Miter => self.add_miter(),
            JoinGeometry::Bevel => self.add_bevel(),
            JoinGeometry::Round => self.add_round_pair(),
        }
    }

    /// Reserves the vertices of one end cap and appends its triangles: none
    /// for a butt cap, two fans for a round cap, a quad for a square cap.
    pub fn add_cap(&mut self, cap: StrokeCap) -> (base: u32)
        requires
            old(self)@.wf(),
            old(self)@.vertex_count + cap_vertex_count(cap) <= u32::MAX,
        ensures
            base == old(self)@.vertex_count,
            final(self)@.vertex_count == old(self)@.vertex_count + cap_vertex_count(cap),
            final(self)@.indices == old(self)@.indices + cap_indices(cap, base as int),
            final(self)@.wf(),
    {
        match cap {
            StrokeCap::Butt => {
                assert(self@.indices + Seq::<u32>::empty() =~= self@.indices);
                self.vertex_count
            },
            StrokeCap::Round => self.add_round_pair(),
            StrokeCap::Square => self.add_quad(),
        }
    }

    fn add_round_pair(&mut self) -> (base: u32)
        requires
            old(self)@.wf(),
            old(self)@.vertex_count + 2 * (ROUND_STEPS + 2) <= u32::MAX,
        ensures
            base == old(self)@.vertex_count,
            final(self)@.vertex_count == old(self)@.vertex_count + 2 * (ROUND_STEPS + 2),
            final(self)@.indices == old(self)@.indices + round_pair_indices(base as int),
            final(self)@.wf(),
    {
        let ghost start = self@.indices;
        let base = self.add_fan(ROUND_STEPS);
        let ghost mid = self@.indices;
        self.add_fan(ROUND_STEPS);
        assert(start + fan_indices(base as int, ROUND_STEPS as int) + fan_indices(
            base + ROUND_STEPS + 2,
            ROUND_STEPS as int,
        ) =~= start + round_pair_indices(base as int));
        base
    }
}

proof fn lemma_fan_bounds(base: int, steps: int)
    requires
        0 <= base,
        0 <= steps,
        base + steps + 2 <= u32::MAX,
    ensures
        fan_indices(base, steps).len() == 3 * steps,
        forall|j: int|
            0 <= j < fan_indices(base, steps).len() ==> #[trigger] fan_indices(base, steps)[j] < base
                + steps + 2,
    decreases steps,
{
    if steps > 0 {
        lemma_fan_bounds(base, steps - 1);
        let f = fan_indices(base, steps - 1);
        assert forall|j: int|
            0 <= j < fan_indices(base, steps).len() implies #[trigger] fan_indices(base, steps)[j]
            < base + steps + 2 by {
            if j < f.len() {
                assert(fan_indices(base, steps)[j] == f[j]);
            }
        }
    }
}

} // verus!
