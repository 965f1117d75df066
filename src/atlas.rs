//! Skyline bin packing of rectangles into a fixed-size atlas.
//!
//! The skyline is a sequence of horizontal segments that together cover the
//! width of the bin exactly once, left to right. A rectangle is placed on the
//! lowest position where it fits; ties go to the narrower segment.
use vstd::prelude::*;

verus! {

/// An integer rectangle placed in the atlas.
#[derive(Debug, Clone, Copy, PartialEq, Eq, Structural)]
pub struct IRect {
    pub x: u32,
    pub y: u32,
    pub width: u32,
    pub height: u32,
}

/// One level line of the skyline: it starts at `x`, is `width` wide and lies
/// at height `y`.
#[derive(Debug, Clone, Copy, PartialEq, Eq, Structural)]
pub struct SkylineNode {
    pub x: u32,
    pub y: u32,
    pub width: u32,
}

pub struct SkylineBinPack {
    pub width: u32,
    pub height: u32,
    pub sky_line: Vec<SkylineNode>,
}

pub open spec fn node_end(n: SkylineNode) -> int {
    n.x + n.width
}

/// The segments cover `[0, width)` contiguously and none lies above `height`.
pub open spec fn skyline_wf(s: Seq<SkylineNode>, width: int, height: int) -> bool {
    &&& s.len() >= 1
    &&& s[0].x == 0
    &&& forall|k: int| 1 <= k < s.len() ==> #[trigger] s[k].x == node_end(s[k - 1])
    &&& node_end(s[s.len() - 1]) == width
    &&& forall|k: int| 0 <= k < s.len() ==> #[trigger] s[k].y <= height
}

/// The highest segment among those from `i` on that start before `x_end`.
pub open spec fn span_top(s: Seq<SkylineNode>, i: int, x_end: int) -> int
    decreases s.len() - i,
{
    if i < 0 || i >= s.len() || s[i].x >= x_end {
        0
    } else {
        let rest = span_top(s, i + 1, x_end);
        if s[i].y >= rest {
            s[i].y as int
        } else {
            rest
        }
    }
}

/// The height at which a rectangle `w` wide rests when its left edge is the
/// start of segment `i`.
pub open spec fn fit_top(s: Seq<SkylineNode>, i: int, w: int) -> int {
    let t = span_top(s, i, s[i].x + w);
    if s[i].y >= t {
        s[i].y as int
    } else {
        t
    }
}

/// Whether a `w` by `h` rectangle fits on segment `i` inside the bin.
pub open spec fn fits(s: Seq<SkylineNode>, i: int, w: int, h: int, bw: int, bh: int) -> bool {
    &&& s[i].x + w <= bw
    &&& fit_top(s, i, w) + h <= bh
}

/// Whether placing on segment `i` is strictly better than on segment `j`:
/// a lower top edge, or the same top edge on a narrower segment.
pub open spec fn better(s: Seq<SkylineNode>, i: int, j: int, w: int) -> bool {
    ||| fit_top(s, i, w) < fit_top(s, j, w)
    ||| (fit_top(s, i, w) == fit_top(s, j, w) && s[i].width < s[j].width)
}

/// The best segment among the first `n`: the first one that fits and that no
/// later one beats.
pub open spec fn best_fit(
    s: Seq<SkylineNode>,
    n: int,
    w: int,
    h: int,
    bw: int,
    bh: int,
) -> Option<int>
    decreases n,
{
    if n <= 0 {
        None
    } else {
        let b = best_fit(s, n - 1, w, h, bw, bh);
        if fits(s, n - 1, w, h, bw, bh) && (b is None || better(s, n - 1, b->0, w)) {
            Some(n - 1)
        } else {
            b
        }
    }
}

/// The rectangle placed on segment `i`.
pub open spec fn placed(s: Seq<SkylineNode>, i: int, w: u32, h: u32) -> IRect {
    IRect { x: s[i].x, y: fit_top(s, i, w as int) as u32, width: w, height: h }
}

proof fn lemma_ends_bounded(s: Seq<SkylineNode>, width: int, height: int)
    requires
        skyline_wf(s, width, height),
    ensures
        forall|k: int| 0 <= k < s.len() ==> #[trigger] node_end(s[k]) <= width,
{
    assert forall|k: int| 0 <= k < s.len() implies #[trigger] node_end(s[k]) <= width by {
        lemma_end_bounded(s, width, height, k);
    }
}

proof fn lemma_end_bounded(s: Seq<SkylineNode>, width: int, height: int, k: int)
    requires
        skyline_wf(s, width, height),
        0 <= k < s.len(),
    ensures
        node_end(s[k]) <= width,
    decreases s.len() - k,
{
    if k < s.len() - 1 {
        lemma_end_bounded(s, width, height, k + 1);
        assert(s[k + 1].x == node_end(s[k]));
    }
}

proof fn lemma_best_fit(s: Seq<SkylineNode>, n: int, w: int, h: int, bw: int, bh: int)
    requires
        0 <= n,
    ensures
        best_fit(s, n, w, h, bw, bh) is None <==> forall|i: int|
            0 <= i < n ==> !#[trigger] fits(s, i, w, h, bw, bh),
        best_fit(s, n, w, h, bw, bh) is Some ==> {
            let b = best_fit(s, n, w, h, bw, bh)->0;
            0 <= b < n && fits(s, b, w, h, bw, bh)
        },
    decreases n,
{
    if n > 0 {
        lemma_best_fit(s, n - 1, w, h, bw, bh);
        if best_fit(s, n, w, h, bw, bh) is None {
            assert forall|i: int| 0 <= i < n implies !#[trigger] fits(s, i, w, h, bw, bh) by {
                if i < n - 1 {
                    assert(!fits(s, i, w, h, bw, bh));
                }
            }
        }
    }
}

/// The height of the skyline at column `x`: the level of the first segment
/// from `i` on that ends after `x`.
pub open spec fn height_from(s: Seq<SkylineNode>, i: int, x: int) -> int
    decreases s.len() - i,
{
    if i < 0 || i >= s.len() {
        0
    } else if x < node_end(s[i]) {
        s[i].y as int
    } else {
        height_from(s, i + 1, x)
    }
}

/// The height of the skyline at column `x`.
pub open spec fn height_at(s: Seq<SkylineNode>, x: int) -> int {
    height_from(s, 0, x)
}

pub open spec fn covers(n: SkylineNode, x: int) -> bool {
    n.x <= x < node_end(n)
}

/// The height at `x` once rectangle `r` has been placed on skyline `s`.
pub open spec fn raised(s: Seq<SkylineNode>, r: IRect, x: int) -> int {
    if r.x <= x < r.x + r.width {
        r.y + r.height
    } else {
        height_at(s, x)
    }
}

/// `a` is what is left of segment `o` after its front was cut off.
pub open spec fn shrunk_from(a: SkylineNode, o: SkylineNode) -> bool {
    a.y == o.y && node_end(a) == node_end(o) && a.x >= o.x
}

proof fn lemma_start_monotone(s: Seq<SkylineNode>, width: int, height: int, j: int, k: int)
    requires
        skyline_wf(s, width, height),
        0 <= j <= k < s.len(),
    ensures
        s[j].x <= s[k].x,
        j < k ==> node_end(s[j]) <= s[k].x,
    decreases k - j,
{
    if j < k {
        lemma_start_monotone(s, width, height, j, k - 1);
        assert(s[k].x == node_end(s[k - 1]));
    }
}

/// In a well-formed skyline the height at `x` is the level of the segment
/// covering `x`.
proof fn lemma_height_covering(s: Seq<SkylineNode>, width: int, height: int, k: int, x: int)
    requires
        skyline_wf(s, width, height),
        0 <= k < s.len(),
        covers(s[k], x),
    ensures
        height_at(s, x) == s[k].y,
{
    lemma_height_from_covering(s, width, height, 0, k, x);
}

proof fn lemma_height_from_covering(
    s: Seq<SkylineNode>,
    width: int,
    height: int,
    i: int,
    k: int,
    x: int,
)
    requires
        skyline_wf(s, width, height),
        0 <= i <= k < s.len(),
        covers(s[k], x),
    ensures
        height_from(s, i, x) == s[k].y,
    decreases k - i,
{
    if i < k {
        lemma_start_monotone(s, width, height, i, k);
        lemma_height_from_covering(s, width, height, i + 1, k, x);
    }
}

/// Every column of the bin is covered by some segment.
proof fn lemma_cover(s: Seq<SkylineNode>, width: int, height: int, x: int) -> (k: int)
    requires
        skyline_wf(s, width, height),
        0 <= x < width,
    ensures
        0 <= k < s.len(),
        covers(s[k], x),
{
    lemma_cover_from(s, width, height, 0, x)
}

proof fn lemma_cover_from(s: Seq<SkylineNode>, width: int, height: int, i: int, x: int) -> (k: int)
    requires
        skyline_wf(s, width, height),
        0 <= i < s.len(),
        s[i].x <= x < width,
    ensures
        i <= k < s.len(),
        covers(s[k], x),
    decreases s.len() - i,
{
    if x < node_end(s[i]) {
        i
    } else {
        assert(i + 1 < s.len());
        assert(s[i + 1].x == node_end(s[i]));
        lemma_cover_from(s, width, height, i + 1, x)
    }
}

/// From `from` on, `t` is contiguous, lies no higher than `height` and, if
/// not empty there, ends at `width`.
pub open spec fn tail_ok(t: Seq<SkylineNode>, from: int, width: int, height: int) -> bool {
    &&& forall|k: int| from < k < t.len() ==> #[trigger] t[k].x == node_end(t[k - 1])
    &&& forall|k: int| from <= k < t.len() ==> #[trigger] t[k].y <= height
    &&& from < t.len() ==> node_end(t[t.len() - 1]) == width
}

/// The skyline after joining segments `i` and `i + 1`.
pub open spec fn merged_at(s: Seq<SkylineNode>, i: int) -> Seq<SkylineNode> {
    s.update(i, SkylineNode { x: s[i].x, y: s[i].y, width: (s[i].width + s[i + 1].width) as u32 }).remove(
        i + 1,
    )
}

proof fn lemma_merge_step(s: Seq<SkylineNode>, i: int, width: int, height: int)
    requires
        skyline_wf(s, width, height),
        0 <= i,
        i + 1 < s.len(),
        s[i].y == s[i + 1].y,
        s[i].width + s[i + 1].width <= u32::MAX,
    ensures
        skyline_wf(merged_at(s, i), width, height),
        forall|x: int| 0 <= x < width ==> #[trigger] height_at(merged_at(s, i), x) == height_at(s, x),
{
    let m = merged_at(s, i);
    assert(s[i + 1].x == node_end(s[i]));
    assert(node_end(m[i]) == node_end(s[i + 1]));
    assert forall|k: int| 1 <= k < m.len() implies #[trigger] m[k].x == node_end(m[k - 1]) by {
        if k < i {
            assert(m[k] == s[k] && m[k - 1] == s[k - 1]);
        } else if k == i {
            assert(m[k - 1] == s[k - 1]);
        } else if k == i + 1 {
            assert(m[k] == s[k + 1]);
            assert(s[k + 1].x == node_end(s[k]));
        } else {
            assert(m[k] == s[k + 1] && m[k - 1] == s[k]);
            assert(s[k + 1].x == node_end(s[k]));
        }
    }
    assert forall|k: int| 0 <= k < m.len() implies #[trigger] m[k].y <= height by {
        if k > i {
            assert(m[k] == s[k + 1]);
        } else if k < i {
            assert(m[k] == s[k]);
        }
    }
    if i + 1 < m.len() {
        assert(m[m.len() - 1] == s[s.len() - 1]);
    }
    assert forall|x: int| 0 <= x < width implies #[trigger] height_at(m, x) == height_at(s, x) by {
        let k = lemma_cover(s, width, height, x);
        lemma_height_covering(s, width, height, k, x);
        if k < i {
            assert(m[k] == s[k]);
            lemma_height_covering(m, width, height, k, x);
        } else if k <= i + 1 {
            lemma_height_covering(m, width, height, i, x);
        } else {
            assert(m[k - 1] == s[k]);
            lemma_height_covering(m, width, height, k - 1, x);
        }
    }
}

proof fn lemma_drop_covered(t: Seq<SkylineNode>, i: int, width: int, height: int)
    requires
        tail_ok(t, i, width, height),
        0 <= i < t.len(),
    ensures
        tail_ok(t.remove(i), i, width, height),
        i + 1 < t.len() ==> t.remove(i)[i].x == node_end(t[i]),
        i + 1 == t.len() ==> node_end(t[i]) == width,
{
    let u = t.remove(i);
    assert forall|k: int| i < k < u.len() implies #[trigger] u[k].x == node_end(u[k - 1]) by {
        assert(u[k] == t[k + 1] && u[k - 1] == t[k]);
    }
    assert forall|k: int| i <= k < u.len() implies #[trigger] u[k].y <= height by {
        assert(u[k] == t[k + 1]);
    }
    if i < u.len() {
        assert(u[u.len() - 1] == t[t.len() - 1]);
        assert(u[i] == t[i + 1]);
    }
}

proof fn lemma_trim_front(t: Seq<SkylineNode>, i: int, n: SkylineNode, width: int, height: int)
    requires
        tail_ok(t, i, width, height),
        0 <= i < t.len(),
        node_end(n) == node_end(t[i]),
        n.y == t[i].y,
    ensures
        tail_ok(t.update(i, n), i, width, height),
{
    let u = t.update(i, n);
    assert forall|k: int| i < k < u.len() implies #[trigger] u[k].x == node_end(u[k - 1]) by {
        assert(u[k] == t[k]);
        if k - 1 > i {
            assert(u[k - 1] == t[k - 1]);
        }
    }
    assert forall|k: int| i <= k < u.len() implies #[trigger] u[k].y <= height by {
        if k > i {
            assert(u[k] == t[k]);
        }
    }
    if i + 1 < u.len() {
        assert(u[u.len() - 1] == t[t.len() - 1]);
    }
}

/// A prefix of `s0`, then `n` at `index` starting where `s0[index]` did, then
/// a tail that starts where `n` ends is again a well-formed skyline.
proof fn lemma_splice(
    s0: Seq<SkylineNode>,
    t: Seq<SkylineNode>,
    index: int,
    n: SkylineNode,
    width: int,
    height: int,
)
    requires
        skyline_wf(s0, width, height),
        0 <= index < s0.len(),
        index < t.len(),
        t[index] == n,
        n.x == s0[index].x,
        n.y <= height,
        forall|k: int| 0 <= k < index ==> #[trigger] t[k] == s0[k],
        tail_ok(t, index + 1, width, height),
        index + 1 < t.len() ==> t[index + 1].x == node_end(n),
        index + 1 == t.len() ==> node_end(n) == width,
    ensures
        skyline_wf(t, width, height),
{
    assert forall|k: int| 1 <= k < t.len() implies #[trigger] t[k].x == node_end(t[k - 1]) by {
        if k < index {
            assert(t[k] == s0[k] && t[k - 1] == s0[k - 1]);
        } else if k == index {
            assert(t[k - 1] == s0[k - 1]);
            assert(s0[k].x == node_end(s0[k - 1]));
        }
    }
    assert forall|k: int| 0 <= k < t.len() implies #[trigger] t[k].y <= height by {
        if k < index {
            assert(t[k] == s0[k]);
        }
    }
    if index == 0 {
    } else {
        assert(t[0] == s0[0]);
    }
}

proof fn lemma_inserted_tail(
    s0: Seq<SkylineNode>,
    t: Seq<SkylineNode>,
    index: int,
    n: SkylineNode,
    width: int,
    height: int,
)
    requires
        skyline_wf(s0, width, height),
        0 <= index < s0.len(),
        t == s0.insert(index, n),
    ensures
        t[index] == n,
        t[index + 1] == s0[index],
        tail_ok(t, index + 1, width, height),
        forall|k: int| 0 <= k < index ==> #[trigger] t[k] == s0[k],
        forall|k: int| index + 1 <= k < t.len() ==> shrunk_from(#[trigger] t[k], s0[k - (index + 1) + index]),
{
    assert(t.len() == s0.len() + 1);
    assert forall|k: int| index + 1 <= k < t.len() implies #[trigger] t[k] == s0[k - 1] by {}
    assert forall|k: int| index + 1 < k < t.len() implies #[trigger] t[k].x == node_end(t[k - 1]) by {
        assert(t[k - 1] == s0[k - 2]);
        assert(s0[k - 1].x == node_end(s0[k - 2]));
    }
    assert forall|k: int| index + 1 <= k < t.len() implies #[trigger] t[k].y <= height by {
        assert(s0[k - 1].y <= height);
    }
    assert(t[t.len() - 1] == s0[s0.len() - 1]);
}

/// After the splice of `lemma_splice`, where every tail segment is what is
/// left of an old one, the heights are those of `s0` raised over `r`.
proof fn lemma_splice_heights(
    s0: Seq<SkylineNode>,
    t: Seq<SkylineNode>,
    index: int,
    m: int,
    r: IRect,
    width: int,
    height: int,
)
    requires
        skyline_wf(s0, width, height),
        skyline_wf(t, width, height),
        0 <= index < t.len(),
        index <= m <= s0.len(),
        t.len() - (index + 1) == s0.len() - m,
        t[index] == (SkylineNode { x: r.x, y: (r.y + r.height) as u32, width: r.width }),
        r.y + r.height <= u32::MAX,
        forall|k: int| 0 <= k < index ==> #[trigger] t[k] == s0[k],
        forall|k: int| index + 1 <= k < t.len() ==> shrunk_from(#[trigger] t[k], s0[k - (index + 1) + m]),
    ensures
        forall|x: int| 0 <= x < width ==> #[trigger] height_at(t, x) == raised(s0, r, x),
{
    assert forall|x: int| 0 <= x < width implies #[trigger] height_at(t, x) == raised(s0, r, x) by {
        let k = lemma_cover(t, width, height, x);
        lemma_height_covering(t, width, height, k, x);
        if k < index {
            assert(t[k] == s0[k]);
            lemma_height_covering(s0, width, height, k, x);
            lemma_start_monotone(t, width, height, k, index);
        } else if k > index {
            let o = k - (index + 1) + m;
            assert(shrunk_from(t[k], s0[o]));
            lemma_height_covering(s0, width, height, o, x);
            lemma_start_monotone(t, width, height, index, k);
        }
    }
}

proof fn lemma_span_top_ge(s: Seq<SkylineNode>, width: int, height: int, j: int, k: int, x_end: int)
    requires
        skyline_wf(s, width, height),
        0 <= j <= k < s.len(),
        s[k].x < x_end,
    ensures
        span_top(s, j, x_end) >= s[k].y,
    decreases k - j,
{
    lemma_start_monotone(s, width, height, j, k);
    if j < k {
        lemma_span_top_ge(s, width, height, j + 1, k, x_end);
    }
}

/// A rectangle placed on segment `i` rests at or above the skyline across
/// its whole width.
proof fn lemma_fit_top_above(s: Seq<SkylineNode>, width: int, height: int, i: int, w: int, x: int)
    requires
        skyline_wf(s, width, height),
        0 <= i < s.len(),
        s[i].x <= x < s[i].x + w,
        x < width,
    ensures
        height_at(s, x) <= fit_top(s, i, w),
{
    let k = lemma_cover(s, width, height, x);
    lemma_height_covering(s, width, height, k, x);
    if k < i {
        lemma_start_monotone(s, width, height, k, i);
    }
    lemma_span_top_ge(s, width, height, i, k, s[i].x + w);
}

/// The skyline is at or above the top edge of `r` across its width.
pub open spec fn under(s: Seq<SkylineNode>, r: IRect) -> bool {
    forall|x: int| r.x <= x < r.x + r.width ==> r.y + r.height <= #[trigger] height_at(s, x)
}

/// Two rectangles share some area.
pub open spec fn overlap(p: IRect, q: IRect) -> bool {
    &&& p.width > 0 && q.width > 0 && p.height > 0 && q.height > 0
    &&& p.x < q.x + q.width && q.x < p.x + p.width
    &&& p.y < q.y + q.height && q.y < p.y + p.height
}

/// Placing a rectangle on the skyline never overlaps a rectangle lying under
/// it, and afterwards both lie under the raised skyline `t`. So rectangles
/// handed out one after another never overlap.
pub proof fn lemma_placement_disjoint(
    s: Seq<SkylineNode>,
    t: Seq<SkylineNode>,
    i: int,
    w: u32,
    h: u32,
    width: int,
    height: int,
    q: IRect,
)
    requires
        skyline_wf(s, width, height),
        height <= u32::MAX,
        0 <= i < s.len(),
        fits(s, i, w as int, h as int, width, height),
        under(s, q),
        q.x + q.width <= width,
        forall|x: int|
            0 <= x < width ==> #[trigger] height_at(t, x) == raised(s, placed(s, i, w, h), x),
    ensures
        !overlap(placed(s, i, w, h), q),
        under(t, q),
        under(t, placed(s, i, w, h)),
{
    let p = placed(s, i, w, h);
    assert(p.y == fit_top(s, i, w as int));
    if overlap(p, q) {
        let x = if p.x >= q.x {
            p.x as int
        } else {
            q.x as int
        };
        lemma_fit_top_above(s, width, height, i, w as int, x);
        assert(q.y + q.height <= height_at(s, x));
    }
    assert forall|x: int| q.x <= x < q.x + q.width implies q.y + q.height <= #[trigger] height_at(
        t,
        x,
    ) by {
        assert(q.y + q.height <= height_at(s, x));
        if p.x <= x < p.x + p.width {
            lemma_fit_top_above(s, width, height, i, w as int, x);
        }
    }
    assert forall|x: int| p.x <= x < p.x + p.width implies p.y + p.height <= #[trigger] height_at(
        t,
        x,
    ) by {}
}

impl SkylineBinPack {
    pub open spec fn wf(&self) -> bool {
        skyline_wf(self.sky_line@, self.width as int, self.height as int)
    }

    /// An empty bin: one segment at height zero across the whole width.
    pub fn new(width: u32, height: u32) -> (r: Self)
        ensures
            r.wf(),
            r.width == width,
            r.height == height,
            r.sky_line@ == seq![SkylineNode { x: 0, y: 0, width }],
    {
        let r = Self { width, height, sky_line: vec![SkylineNode { x: 0, y: 0, width: width }] };
        assert(r.sky_line@ =~= seq![SkylineNode { x: 0, y: 0, width }]);
        r
    }

    /// Places a `width` by `height` rectangle at the best position, or
    /// returns `None` when it fits nowhere.
    pub fn insert(&mut self, width: u32, height: u32) -> (r: Option<IRect>)
        requires
            old(self).wf(),
        ensures
            final(self).wf(),
            final(self).width == old(self).width,
            final(self).height == old(self).height,
            ({
                let s = old(self).sky_line@;
                match best_fit(
                    s,
                    s.len() as int,
                    width as int,
                    height as int,
                    old(self).width as int,
                    old(self).height as int,
                ) {
                    None => r is None && final(self).sky_line@ == s,
                    Some(i) => r == Some(placed(s, i, width, height)) && 0 <= i < s.len() && fits(
                        s,
                        i,
                        width as int,
                        height as int,
                        old(self).width as int,
                        old(self).height as int,
                    ) && forall|x: int|
                        0 <= x < old(self).width ==> #[trigger] height_at(final(self).sky_line@, x)
                            == raised(s, placed(s, i, width, height), x),
                }
            }),
            r is None <==> forall|i: int|
                0 <= i < old(self).sky_line@.len() ==> !#[trigger] fits(
                    old(self).sky_line@,
                    i,
                    width as int,
                    height as int,
                    old(self).width as int,
                    old(self).height as int,
                ),
            r matches Some(rect) ==> rect.x + rect.width <= old(self).width && rect.y
                + rect.height <= old(self).height,
    {
        let (index, node) = self.find_position(width, height);
        let n = self.sky_line.len();
        proof {
            let s = self.sky_line@;
            lemma_best_fit(
                s,
                s.len() as int,
                width as int,
                height as int,
                self.width as int,
                self.height as int,
            );
        }
        match index {
            None => None,
            Some(i) => {
                proof {
                    let s = self.sky_line@;
                    let b = best_fit(
                        s,
                        s.len() as int,
                        width as int,
                        height as int,
                        self.width as int,
                        self.height as int,
                    );
                    assert(s.len() == n);
                    assert(b->0 == i as int);
                }
                assert(node == placed(self.sky_line@, i as int, width, height));
                self.add_skyline_level(i, &node);
                Some(node)
            },
        }
    }

    /// The best segment for a `width` by `height` rectangle, with the
    /// rectangle placed there.
    fn find_position(&self, width: u32, height: u32) -> (r: (Option<usize>, IRect))
        requires
            self.wf(),
        ensures
            ({
                let s = self.sky_line@;
                let b = best_fit(
                    s,
                    s.len() as int,
                    width as int,
                    height as int,
                    self.width as int,
                    self.height as int,
                );
                &&& r.0 == (match b {
                    Some(i) => Some(i as usize),
                    None => None,
                })
                &&& (b matches Some(i) ==> r.1 == placed(s, i, width, height))
            }),
    {
        let ghost s = self.sky_line@;
        let mut best_index: Option<usize> = None;
        let mut new_node = IRect { x: 0, y: 0, width: 0, height: 0 };
        let mut best_top: u32 = 0;
        let mut best_width: u32 = 0;
        let mut i: usize = 0;
        while i < self.sky_line.len()
            invariant
                self.wf(),
                s == self.sky_line@,
                0 <= i <= s.len(),
                ({
                    let b = best_fit(
                        s,
                        i as int,
                        width as int,
                        height as int,
                        self.width as int,
                        self.height as int,
                    );
                    &&& best_index == (match b {
                        Some(k) => Some(k as usize),
                        None => None,
                    })
                    &&& (b matches Some(k) ==> {
                        &&& 0 <= k < i
                        &&& new_node == placed(s, k, width, height)
                        &&& best_top == fit_top(s, k, width as int)
                        &&& best_width == s[k].width
                    })
                }),
            decreases s.len() - i,
        {
            proof {
                lemma_best_fit(
                    s,
                    i as int,
                    width as int,
                    height as int,
                    self.width as int,
                    self.height as int,
                );
            }
            let (fit, y) = self.rectangle_fits(i, width, height);
            if fit {
                let line = self.sky_line[i];
                let take = match best_index {
                    None => true,
                    Some(_) => y < best_top || (y == best_top && line.width < best_width),
                };
                if take {
                    best_index = Some(i);
                    best_top = y;
                    best_width = line.width;
                    new_node = IRect { x: line.x, y, width, height };
                }
            }
            i = i + 1;
        }
        (best_index, new_node)
    }

    /// Whether a `width` by `height` rectangle fits with its left edge at the
    /// start of segment `index`, and the height it then rests at.
    fn rectangle_fits(&self, index: usize, width: u32, height: u32) -> (r: (bool, u32))
        requires
            self.wf(),
            index < self.sky_line@.len(),
        ensures
            r.0 == fits(
                self.sky_line@,
                index as int,
                width as int,
                height as int,
                self.width as int,
                self.height as int,
            ),
            r.0 ==> r.1 == fit_top(self.sky_line@, index as int, width as int),
    {
        let ghost s = self.sky_line@;
        let ghost x_end = s[index as int].x + width;
        proof {
            lemma_ends_bounded(s, self.width as int, self.height as int);
        }
        let x = self.sky_line[index].x;
        if x as u64 + width as u64 > self.width as u64 {
            return (false, 0);
        }
        let mut y = self.sky_line[index].y;
        if y as u64 + height as u64 > self.height as u64 {
            return (false, 0);
        }
        let n = self.sky_line.len();
        assert(s.len() == n);
        let mut width_left: i64 = width as i64;
        let mut i: usize = index;
        while width_left > 0
            invariant
                self.wf(),
                s.len() <= usize::MAX,
                s == self.sky_line@,
                x_end == s[index as int].x + width,
                x_end <= self.width,
                forall|k: int| 0 <= k < s.len() ==> #[trigger] node_end(s[k]) <= self.width,
                index <= i <= s.len(),
                width_left == x_end - (if i < s.len() {
                    s[i as int].x as int
                } else {
                    self.width as int
                }),
                y >= s[index as int].y,
                y as int + height as int <= self.height,
                (if y >= span_top(s, i as int, x_end) {
                    y as int
                } else {
                    span_top(s, i as int, x_end)
                }) == fit_top(s, index as int, width as int),
            decreases s.len() - i,
        {
            assert(i < s.len());
            let node = self.sky_line[i];
            if node.y > y {
                y = node.y;
            }
            if y as u64 + height as u64 > self.height as u64 {
                return (false, 0);
            }
            assert(node_end(s[i as int]) <= self.width);
            width_left = width_left - node.width as i64;
            i = i + 1;
            proof {
                if i < s.len() {
                    assert(s[i as int].x == node_end(s[i - 1]));
                } else {
                    assert(node_end(s[s.len() - 1]) == self.width);
                }
            }
        }
        (true, y)
    }

    /// Raises the skyline under a rectangle just placed on segment `index`:
    /// the new segment replaces the part of the old ones that it covers.
    #[verifier::rlimit(100)]
    fn add_skyline_level(&mut self, index: usize, rect: &IRect)
        requires
            old(self).wf(),
            index < old(self).sky_line@.len(),
            rect.x == old(self).sky_line@[index as int].x,
            rect.x + rect.width <= old(self).width,
            rect.y + rect.height <= old(self).height,
        ensures
            final(self).wf(),
            final(self).width == old(self).width,
            final(self).height == old(self).height,
            forall|x: int|
                0 <= x < old(self).width ==> #[trigger] height_at(final(self).sky_line@, x) == raised(
                    old(self).sky_line@,
                    *rect,
                    x,
                ),
    {
        let ghost s0 = self.sky_line@;
        let ghost bw = self.width as int;
        let ghost bh = self.height as int;
        let new_node = SkylineNode { x: rect.x, y: rect.y + rect.height, width: rect.width };
        self.sky_line.insert(index, new_node);
        let len = self.sky_line.len();
        assert(index < len);
        let i = index + 1;
        proof {
            lemma_inserted_tail(s0, self.sky_line@, index as int, new_node, bw, bh);
        }
        let ghost mut m: int = index as int;
        while i < self.sky_line.len()
            invariant
                bw == self.width,
                bh == self.height,
                i == index + 1,
                i <= self.sky_line@.len(),
                self.sky_line@[index as int] == new_node,
                forall|k: int| 0 <= k < index ==> #[trigger] self.sky_line@[k] == s0[k],
                index < s0.len(),
                node_end(new_node) <= bw,
                tail_ok(self.sky_line@, i as int, bw, bh),
                i < self.sky_line@.len() ==> new_node.x <= self.sky_line@[i as int].x
                    <= node_end(new_node),
                i == self.sky_line@.len() ==> node_end(new_node) == bw,
                index <= m <= s0.len(),
                self.sky_line@.len() - i == s0.len() - m,
                forall|k: int|
                    i <= k < self.sky_line@.len() ==> shrunk_from(
                        #[trigger] self.sky_line@[k],
                        s0[k - i + m],
                    ),
            ensures
                i < self.sky_line@.len() ==> self.sky_line@[i as int].x == node_end(new_node),
                index <= m <= s0.len(),
                self.sky_line@.len() - i == s0.len() - m,
                forall|k: int|
                    i <= k < self.sky_line@.len() ==> shrunk_from(
                        #[trigger] self.sky_line@[k],
                        s0[k - i + m],
                    ),
            decreases self.sky_line@.len() - i,
        {
            let prev = self.sky_line[i - 1];
            let cur = self.sky_line[i];
            if (prev.x as u64) < cur.x as u64 + prev.width as u64 {
                let shrink = prev.x + prev.width - cur.x;
                let left: i64 = cur.width as i64 - shrink as i64;
                if left <= 0 {
                    let ghost before = self.sky_line@;
                    proof {
                        lemma_drop_covered(self.sky_line@, i as int, bw, bh);
                    }
                    self.sky_line.remove(i);
                    proof {
                        m = m + 1;
                        assert forall|k: int|
                            i <= k < self.sky_line@.len() implies shrunk_from(
                            #[trigger] self.sky_line@[k],
                            s0[k - i + m],
                        ) by {
                            assert(self.sky_line@[k] == before[k + 1]);
                        }
                    }
                } else {
                    let trimmed = SkylineNode { x: cur.x + shrink, y: cur.y, width: left as u32 };
                    proof {
                        lemma_trim_front(self.sky_line@, i as int, trimmed, bw, bh);
                    }
                    let ghost before = self.sky_line@;
                    self.sky_line[i] = trimmed;
                    proof {
                        assert forall|k: int|
                            i <= k < self.sky_line@.len() implies shrunk_from(
                            #[trigger] self.sky_line@[k],
                            s0[k - i + m],
                        ) by {
                            if k > i {
                                assert(self.sky_line@[k] == before[k]);
                            }
                        }
                    }
                    break;
                }
            } else {
                break;
            }
        }
        proof {
            lemma_splice(s0, self.sky_line@, index as int, new_node, bw, bh);
            lemma_splice_heights(s0, self.sky_line@, index as int, m, *rect, bw, bh);
        }
        self.merge_skyline();
    }

    /// Joins neighbouring segments that lie at the same height.
    fn merge_skyline(&mut self)
        requires
            old(self).wf(),
        ensures
            final(self).wf(),
            final(self).width == old(self).width,
            final(self).height == old(self).height,
            forall|x: int|
                0 <= x < old(self).width ==> #[trigger] height_at(final(self).sky_line@, x) == height_at(
                    old(self).sky_line@,
                    x,
                ),
    {
        let mut i: usize = 0;
        while i < self.sky_line.len() - 1
            invariant
                self.wf(),
                self.width == old(self).width,
                self.height == old(self).height,
                i <= self.sky_line@.len(),
                forall|x: int|
                    0 <= x < old(self).width ==> #[trigger] height_at(self.sky_line@, x) == height_at(
                        old(self).sky_line@,
                        x,
                    ),
            decreases self.sky_line@.len() - i,
        {
            proof {
                lemma_end_bounded(self.sky_line@, self.width as int, self.height as int, i + 1);
            }
            let a = self.sky_line[i];
            let b = self.sky_line[i + 1];
            if a.y == b.y {
                let ghost before = self.sky_line@;
                assert(b.x == node_end(a));
                self.sky_line[i] = SkylineNode { x: a.x, y: a.y, width: a.width + b.width };
                self.sky_line.remove(i + 1);
                proof {
                    lemma_merge_step(before, i as int, self.width as int, self.height as int);
                    assert(self.sky_line@ =~= merged_at(before, i as int));
                }
            }
            i = i + 1;
        }
    }
}

/// Allocates regions of a glyph atlas and keeps the area handed out.
pub struct AtlasAllocator {
    pub bin_pack: SkylineBinPack,
    /// Sum of the areas of all regions allocated, saturating.
    pub used_area: u64,
}

impl AtlasAllocator {
    pub open spec fn wf(&self) -> bool {
        self.bin_pack.wf()
    }

    pub fn new(width: u32, height: u32) -> (r: Self)
        ensures
            r.wf(),
            r.bin_pack.width == width,
            r.bin_pack.height == height,
            r.used_area == 0,
    {
        Self { bin_pack: SkylineBinPack::new(width, height), used_area: 0 }
    }

    /// Allocates a `width` by `height` region, or `None` when the atlas has no
    /// room for it.
    pub fn allocate(&mut self, width: u32, height: u32) -> (r: Option<IRect>)
        requires
            old(self).wf(),
        ensures
            final(self).wf(),
            final(self).bin_pack.width == old(self).bin_pack.width,
            final(self).bin_pack.height == old(self).bin_pack.height,
            ({
                let s = old(self).bin_pack.sky_line@;
                match best_fit(
                    s,
                    s.len() as int,
                    width as int,
                    height as int,
                    old(self).bin_pack.width as int,
                    old(self).bin_pack.height as int,
                ) {
                    None => r is None && final(self).used_area == old(self).used_area
                        && final(self).bin_pack.sky_line@ == s,
                    Some(i) => r == Some(placed(s, i, width, height)) && (forall|x: int|
                        0 <= x < old(self).bin_pack.width ==> #[trigger] height_at(
                            final(self).bin_pack.sky_line@,
                            x,
                        ) == raised(s, placed(s, i, width, height), x)) && final(self).used_area
                        == if old(self).used_area + width * height > u64::MAX {
                        u64::MAX as int
                    } else {
                        old(self).used_area + width * height
                    },
                }
            }),
    {
        let rect = self.bin_pack.insert(width, height);
        match rect {
            Some(rect) => {
                assert((width as int) * (height as int) <= 0xffff_ffffint * 0xffff_ffffint)
                    by (nonlinear_arith)
                    requires
                        width <= 0xffff_ffffint,
                        height <= 0xffff_ffffint,
                ;
                let area = (width as u64) * (height as u64);
                self.used_area = self.used_area.saturating_add(area);
                Some(rect)
            },
            None => None,
        }
    }

    pub fn get_used_area(&self) -> (r: u64)
        ensures
            r == self.used_area,
    {
        self.used_area
    }
}

} // verus!
