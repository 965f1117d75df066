//! Recording of draw and clip commands into a depth-ordered draw list.
//!
//! Every draw takes the next depth value as it is recorded. A clip is
//! recorded with the placeholder depth 0 and remembered in the innermost open
//! clip scope; when that scope closes (on `restore`, or when recording
//! finishes) its clips receive fresh depths, the most recent clip first. The
//! clips of a scope thus occupy one contiguous block of depths just below
//! whatever is drawn next.
//!
//! The recorder is generic over the payload `C` of a command (a path and its
//! paint, say) and the transform type `M`, which it only copies.
use vstd::prelude::*;
use crate::stencil::ClipOp;

verus! {

/// What a recorded entry does.
pub enum DrawCommand<C> {
    /// Draws the payload in painter's order.
    Paint(C),
    /// Clips the following draws of the current scope by the payload.
    Clip(C, ClipOp),
}

/// One recorded entry with its depth and the transform current when it was
/// recorded.
pub struct Draw<C, M> {
    pub depth: u32,
    pub command: DrawCommand<C>,
    pub transform: M,
}

/// The abstract state of a recorder.
pub struct RecorderView<C, M> {
    pub draws: Seq<Draw<C, M>>,
    /// The transform stack; its last element is the current transform.
    pub matrices: Seq<M>,
    /// For each open clip scope, the indices of the clips recorded in it.
    pub scopes: Seq<Seq<usize>>,
    /// The last depth handed out.
    pub depth: int,
    /// The transform that an emptied stack starts again from.
    pub identity: M,
}

pub open spec fn with_depth<C, M>(d: Draw<C, M>, depth: int) -> Draw<C, M> {
    Draw { depth: depth as u32, command: d.command, transform: d.transform }
}

/// Closes a clip scope: its last clip gets depth `d0 + 1`, the one before it
/// `d0 + 2`, and so on.
pub open spec fn close_scope<C, M>(draws: Seq<Draw<C, M>>, scope: Seq<usize>, d0: int) -> Seq<
    Draw<C, M>,
>
    decreases scope.len(),
{
    if scope.len() == 0 {
        draws
    } else {
        let j = scope.last() as int;
        close_scope(draws.update(j, with_depth(draws[j], d0 + 1)), scope.drop_last(), d0 + 1)
    }
}

/// Closes every open scope, innermost first.
pub open spec fn close_all<C, M>(draws: Seq<Draw<C, M>>, scopes: Seq<Seq<usize>>, d0: int) -> Seq<
    Draw<C, M>,
>
    decreases scopes.len(),
{
    if scopes.len() == 0 {
        draws
    } else {
        close_all(
            close_scope(draws, scopes.last(), d0),
            scopes.drop_last(),
            d0 + scopes.last().len(),
        )
    }
}

/// Whether entry `j` is a clip waiting in one of the scopes.
pub open spec fn is_pending(scopes: Seq<Seq<usize>>, j: int) -> bool {
    exists|s: int, k: int|
        0 <= s < scopes.len() && 0 <= k < scopes[s].len() && #[trigger] scopes[s][k] as int == j
}

/// The number of clips waiting for their depth.
pub open spec fn pending(scopes: Seq<Seq<usize>>) -> int
    decreases scopes.len(),
{
    if scopes.len() == 0 {
        0
    } else {
        pending(scopes.drop_last()) + scopes.last().len()
    }
}

impl<C, M> RecorderView<C, M> {
    pub open spec fn current_transform(self) -> M {
        self.matrices.last()
    }

    /// Every clip index names a recorded entry, and the scopes, read
    /// innermost last, list their clips in recording order.
    pub open spec fn ordered(self) -> bool {
        &&& forall|s: int, k: int|
            0 <= s < self.scopes.len() && 0 <= k < self.scopes[s].len() ==> #[trigger] self.scopes[s][k]
                < self.draws.len()
        &&& forall|s1: int, k1: int, s2: int, k2: int|
            #![trigger self.scopes[s1][k1], self.scopes[s2][k2]]
            0 <= s1 <= s2 < self.scopes.len() && 0 <= k1 < self.scopes[s1].len() && 0 <= k2
                < self.scopes[s2].len() && (s1 < s2 || k1 < k2) ==> self.scopes[s1][k1]
                < self.scopes[s2][k2]
    }

    /// Exactly the pending clips hold depth 0; every other entry holds its
    /// own depth, at most the last one handed out; and the depths handed out
    /// and still owed account for every entry.
    pub open spec fn depths_ok(self) -> bool {
        &&& 0 <= self.depth
        &&& self.draws.len() <= u32::MAX
        &&& self.depth + pending(self.scopes) == self.draws.len()
        &&& forall|j: int| 0 <= j < self.draws.len() ==> (#[trigger] self.draws[j]).depth <= self.depth
        &&& forall|j: int|
            0 <= j < self.draws.len() ==> ((#[trigger] self.draws[j]).depth == 0 <==> is_pending(
                self.scopes,
                j,
            ))
        &&& forall|i: int, j: int|
            0 <= i < j < self.draws.len() && (#[trigger] self.draws[i]).depth == (
            #[trigger] self.draws[j]).depth ==> self.draws[i].depth == 0
    }

    pub open spec fn wf(self) -> bool {
        &&& self.matrices.len() >= 1
        &&& self.scopes.len() >= 1
        &&& self.ordered()
        &&& self.depths_ok()
    }

    pub open spec fn draw(self, c: C) -> Self {
        RecorderView {
            draws: self.draws.push(
                Draw {
                    depth: (self.depth + 1) as u32,
                    command: DrawCommand::Paint(c),
                    transform: self.current_transform(),
                },
            ),
            depth: self.depth + 1,
            ..self
        }
    }

    pub open spec fn clip(self, c: C, op: ClipOp) -> Self {
        RecorderView {
            draws: self.draws.push(
                Draw { depth: 0, command: DrawCommand::Clip(c, op), transform: self.current_transform() },
            ),
            scopes: self.scopes.update(
                self.scopes.len() - 1,
                self.scopes.last().push(self.draws.len() as usize),
            ),
            ..self
        }
    }

    pub open spec fn save(self) -> Self {
        RecorderView {
            matrices: self.matrices.push(self.current_transform()),
            scopes: self.scopes.push(Seq::empty()),
            ..self
        }
    }

    pub open spec fn restore(self) -> Self {
        let scope = self.scopes.last();
        RecorderView {
            draws: close_scope(self.draws, scope, self.depth),
            matrices: if self.matrices.len() <= 1 {
                seq![self.identity]
            } else {
                self.matrices.drop_last()
            },
            scopes: if self.scopes.len() <= 1 {
                seq![Seq::empty()]
            } else {
                self.scopes.drop_last()
            },
            depth: self.depth + scope.len(),
            ..self
        }
    }

    pub open spec fn set_transform(self, m: M) -> Self {
        RecorderView { matrices: self.matrices.update(self.matrices.len() - 1, m), ..self }
    }

    pub open spec fn finish(self) -> Seq<Draw<C, M>> {
        close_all(self.draws, self.scopes, self.depth)
    }
}

proof fn lemma_close_scope_len<C, M>(draws: Seq<Draw<C, M>>, scope: Seq<usize>, d0: int)
    requires
        forall|k: int| 0 <= k < scope.len() ==> #[trigger] scope[k] < draws.len(),
    ensures
        close_scope(draws, scope, d0).len() == draws.len(),
    decreases scope.len(),
{
    if scope.len() > 0 {
        let j = scope.last() as int;
        let next = draws.update(j, with_depth(draws[j], d0 + 1));
        assert forall|k: int| 0 <= k < scope.drop_last().len() implies #[trigger] scope.drop_last()[k]
            < next.len() by {
            assert(scope.drop_last()[k] == scope[k]);
        }
        lemma_close_scope_len(next, scope.drop_last(), d0 + 1);
    }
}

proof fn lemma_pending_update_last(scopes: Seq<Seq<usize>>, s: Seq<usize>)
    requires
        scopes.len() >= 1,
    ensures
        pending(scopes.update(scopes.len() - 1, s)) == pending(scopes)
            - scopes.last().len() + s.len(),
{
    let u = scopes.update(scopes.len() - 1, s);
    assert(u.drop_last() =~= scopes.drop_last());
}

proof fn lemma_pending_push(scopes: Seq<Seq<usize>>, s: Seq<usize>)
    ensures
        pending(scopes.push(s)) == pending(scopes) + s.len(),
{
    assert(scopes.push(s).drop_last() =~= scopes);
}

proof fn lemma_pending_nonneg(scopes: Seq<Seq<usize>>)
    ensures
        pending(scopes) >= 0,
    decreases scopes.len(),
{
    if scopes.len() > 0 {
        lemma_pending_nonneg(scopes.drop_last());
    }
}

proof fn lemma_pending_single_empty()
    ensures
        pending(seq![Seq::<usize>::empty()]) == 0,
{
    let s = seq![Seq::<usize>::empty()];
    assert(s.drop_last() =~= Seq::<Seq<usize>>::empty());
    assert(s.last().len() == 0);
    assert(pending(s.drop_last()) == 0);
}

/// Closing a scope of distinct clip indices gives clip `k` of `n` the depth
/// `d0 + n - k` and leaves everything else as it was.
proof fn lemma_close_scope_depths<C, M>(draws: Seq<Draw<C, M>>, scope: Seq<usize>, d0: int)
    requires
        forall|k: int| 0 <= k < scope.len() ==> #[trigger] scope[k] < draws.len(),
        forall|j: int, k: int| 0 <= j < k < scope.len() ==> #[trigger] scope[j] < #[trigger] scope[k],
    ensures
        close_scope(draws, scope, d0).len() == draws.len(),
        forall|k: int|
            0 <= k < scope.len() ==> #[trigger] close_scope(draws, scope, d0)[scope[k] as int]
                == with_depth(draws[scope[k] as int], d0 + scope.len() - k),
        forall|j: int|
            0 <= j < draws.len() && !scope.contains(j as usize) ==> #[trigger] close_scope(
                draws,
                scope,
                d0,
            )[j] == draws[j],
    decreases scope.len(),
{
    lemma_close_scope_len(draws, scope, d0);
    if scope.len() > 0 {
        let n = scope.len() as int;
        let last = scope.last() as int;
        let next = draws.update(last, with_depth(draws[last], d0 + 1));
        let rest = scope.drop_last();
        assert forall|k: int| 0 <= k < rest.len() implies #[trigger] rest[k] < next.len() by {
            assert(rest[k] == scope[k]);
        }
        assert forall|j: int, k: int| 0 <= j < k < rest.len() implies #[trigger] rest[j]
            < #[trigger] rest[k] by {
            assert(rest[j] == scope[j] && rest[k] == scope[k]);
        }
        lemma_close_scope_depths(next, rest, d0 + 1);
        let r = close_scope(draws, scope, d0);
        assert(r == close_scope(next, rest, d0 + 1));
        assert(!rest.contains(last as usize)) by {
            if rest.contains(last as usize) {
                let i = choose|i: int| 0 <= i < rest.len() && rest[i] == last as usize;
                assert(scope[i] < scope[n - 1]);
            }
        }
        assert forall|k: int| 0 <= k < scope.len() implies #[trigger] r[scope[k] as int] == with_depth(
            draws[scope[k] as int],
            d0 + scope.len() - k,
        ) by {
            if k < n - 1 {
                assert(rest[k] == scope[k]);
                assert(scope[k] < scope[n - 1]);
                assert(next[scope[k] as int] == draws[scope[k] as int]);
            } else {
                assert(r[last] == next[last]);
            }
        }
        assert forall|j: int| 0 <= j < draws.len() && !scope.contains(j as usize) implies #[trigger] r[j]
            == draws[j] by {
            if rest.contains(j as usize) {
                let i = choose|i: int| 0 <= i < rest.len() && rest[i] == j as usize;
                assert(scope[i] == j as usize);
            }
            if j == last {
                assert(scope[n - 1] == j as usize);
            }
        }
    }
}

impl<C, M> RecorderView<C, M> {
    /// The state after the innermost scope closes and is dropped.
    pub open spec fn close_last(self) -> Self {
        RecorderView {
            draws: close_scope(self.draws, self.scopes.last(), self.depth),
            scopes: self.scopes.drop_last(),
            depth: self.depth + self.scopes.last().len(),
            ..self
        }
    }
}

proof fn lemma_draw_wf<C, M>(v: RecorderView<C, M>, c: C)
    requires
        v.wf(),
        v.draws.len() < u32::MAX,
    ensures
        v.draw(c).wf(),
{
    let n = v.draw(c);
    let len = v.draws.len() as int;
    lemma_pending_nonneg(v.scopes);
    assert(n.scopes == v.scopes);
    assert forall|j: int| 0 <= j < n.draws.len() implies ((#[trigger] n.draws[j]).depth == 0
        <==> is_pending(n.scopes, j)) by {
        if j < len {
            assert(n.draws[j] == v.draws[j]);
        } else if is_pending(v.scopes, j) {
            let (s, k) = choose|s: int, k: int|
                0 <= s < v.scopes.len() && 0 <= k < v.scopes[s].len() && #[trigger] v.scopes[s][k] as int
                    == j;
            assert(v.scopes[s][k] < len);
        }
    }
    assert forall|j: int| 0 <= j < n.draws.len() implies (#[trigger] n.draws[j]).depth <= n.depth by {
        if j < len {
            assert(n.draws[j] == v.draws[j]);
        }
    }
    assert forall|i: int, j: int|
        0 <= i < j < n.draws.len() && (#[trigger] n.draws[i]).depth == (#[trigger] n.draws[j]).depth
            implies n.draws[i].depth == 0 by {
        assert(n.draws[i] == v.draws[i]);
        if j < len {
            assert(n.draws[j] == v.draws[j]);
        } else {
            assert(v.draws[i].depth <= v.depth);
        }
    }
}

proof fn lemma_clip_wf<C, M>(v: RecorderView<C, M>, c: C, op: ClipOp)
    requires
        v.wf(),
        v.draws.len() < u32::MAX,
    ensures
        v.clip(c, op).wf(),
{
    let n = v.clip(c, op);
    let len = v.draws.len() as int;
    let l = v.scopes.len() - 1;
    let last = v.scopes[l];
    lemma_pending_update_last(v.scopes, last.push(len as usize));
    assert forall|s: int, k: int|
        0 <= s < n.scopes.len() && 0 <= k < n.scopes[s].len() implies n.scopes[s][k] as int == if s
        == l && k == last.len() {
        len
    } else {
        v.scopes[s][k] as int
    } by {
        if s == l {
            if k < last.len() {
                assert(n.scopes[s][k] == last[k]);
            }
        } else {
            assert(n.scopes[s] == v.scopes[s]);
        }
    }
    assert forall|s: int, k: int|
        0 <= s < n.scopes.len() && 0 <= k < n.scopes[s].len() implies #[trigger] n.scopes[s][k]
        < n.draws.len() by {
        if !(s == l && k == last.len()) {
            assert(v.scopes[s][k] < len);
        }
    }
    assert forall|s1: int, k1: int, s2: int, k2: int|
        0 <= s1 <= s2 < n.scopes.len() && 0 <= k1 < n.scopes[s1].len() && 0 <= k2
            < n.scopes[s2].len() && (s1 < s2 || k1 < k2) implies #[trigger] n.scopes[s1][k1]
        < #[trigger] n.scopes[s2][k2] by {
        assert(!(s1 == l && k1 == last.len()));
        assert(v.scopes[s1][k1] < len);
        if !(s2 == l && k2 == last.len()) {
            assert(v.scopes[s1][k1] < v.scopes[s2][k2]);
        }
    }
    assert forall|j: int| 0 <= j < n.draws.len() implies ((#[trigger] n.draws[j]).depth == 0
        <==> is_pending(n.scopes, j)) by {
        if j < len {
            assert(n.draws[j] == v.draws[j]);
            if is_pending(v.scopes, j) {
                let (s, k) = choose|s: int, k: int|
                    0 <= s < v.scopes.len() && 0 <= k < v.scopes[s].len() && #[trigger] v.scopes[s][k]
                        as int == j;
                assert(n.scopes[s][k] as int == j);
            }
            if is_pending(n.scopes, j) {
                let (s, k) = choose|s: int, k: int|
                    0 <= s < n.scopes.len() && 0 <= k < n.scopes[s].len() && #[trigger] n.scopes[s][k]
                        as int == j;
                assert(v.scopes[s][k] as int == j);
            }
        } else {
            assert(n.scopes[l][last.len() as int] as int == len);
        }
    }
    assert forall|j: int| 0 <= j < n.draws.len() implies (#[trigger] n.draws[j]).depth <= n.depth by {
        if j < len {
            assert(n.draws[j] == v.draws[j]);
        }
    }
    assert forall|i: int, j: int|
        0 <= i < j < n.draws.len() && (#[trigger] n.draws[i]).depth == (#[trigger] n.draws[j]).depth
            implies n.draws[i].depth == 0 by {
        assert(n.draws[i] == v.draws[i]);
        if j < len {
            assert(n.draws[j] == v.draws[j]);
        }
    }
}

proof fn lemma_save_wf<C, M>(v: RecorderView<C, M>)
    requires
        v.wf(),
    ensures
        v.save().wf(),
{
    let n = v.save();
    lemma_pending_push(v.scopes, Seq::empty());
    assert forall|s: int| 0 <= s < v.scopes.len() implies n.scopes[s] == v.scopes[s] by {}
    assert forall|j: int| 0 <= j < n.draws.len() implies ((#[trigger] n.draws[j]).depth == 0
        <==> is_pending(n.scopes, j)) by {
        if is_pending(v.scopes, j) {
            let (s, k) = choose|s: int, k: int|
                0 <= s < v.scopes.len() && 0 <= k < v.scopes[s].len() && #[trigger] v.scopes[s][k] as int
                    == j;
            assert(n.scopes[s][k] as int == j);
        }
        if is_pending(n.scopes, j) {
            let (s, k) = choose|s: int, k: int|
                0 <= s < n.scopes.len() && 0 <= k < n.scopes[s].len() && #[trigger] n.scopes[s][k] as int
                    == j;
            assert(v.scopes[s][k] as int == j);
        }
    }
    assert forall|s1: int, k1: int, s2: int, k2: int|
        0 <= s1 <= s2 < n.scopes.len() && 0 <= k1 < n.scopes[s1].len() && 0 <= k2
            < n.scopes[s2].len() && (s1 < s2 || k1 < k2) implies #[trigger] n.scopes[s1][k1]
        < #[trigger] n.scopes[s2][k2] by {
        assert(v.scopes[s1][k1] < v.scopes[s2][k2]);
    }
    assert forall|s: int, k: int|
        0 <= s < n.scopes.len() && 0 <= k < n.scopes[s].len() implies #[trigger] n.scopes[s][k]
        < n.draws.len() by {
        assert(n.scopes[s][k] == v.scopes[s][k]);
    }
}

proof fn lemma_close_last_ok<C, M>(v: RecorderView<C, M>)
    requires
        v.ordered(),
        v.depths_ok(),
        v.scopes.len() >= 1,
    ensures
        v.close_last().ordered(),
        v.close_last().depths_ok(),
        v.close_last().draws.len() == v.draws.len(),
{
    let r = v.close_last();
    let l = v.scopes.len() - 1;
    let sc = v.scopes.last();
    let n = sc.len() as int;
    let d = v.depth;
    let len = v.draws.len() as int;
    assert forall|k: int| 0 <= k < sc.len() implies #[trigger] sc[k] < v.draws.len() by {
        assert(sc[k] == v.scopes[l][k]);
    }
    assert forall|j: int, k: int| 0 <= j < k < sc.len() implies #[trigger] sc[j] < #[trigger] sc[k] by {
        assert(v.scopes[l][j] < v.scopes[l][k]);
    }
    lemma_close_scope_depths(v.draws, sc, d);
    lemma_pending_nonneg(v.scopes.drop_last());
    assert(pending(v.scopes) == pending(v.scopes.drop_last()) + n);
    assert forall|s: int| 0 <= s < r.scopes.len() implies r.scopes[s] == v.scopes[s] by {}
    // Pending in the closed state: pending before and not in the closed scope.
    assert forall|j: int| 0 <= j < len implies (is_pending(r.scopes, j) <==> (is_pending(v.scopes, j)
        && !sc.contains(j as usize))) by {
        if is_pending(r.scopes, j) {
            let (s, k) = choose|s: int, k: int|
                0 <= s < r.scopes.len() && 0 <= k < r.scopes[s].len() && #[trigger] r.scopes[s][k] as int
                    == j;
            assert(v.scopes[s][k] as int == j);
            if sc.contains(j as usize) {
                let k2 = choose|k2: int| 0 <= k2 < sc.len() && sc[k2] == j as usize;
                assert(v.scopes[s][k] < v.scopes[l][k2]);
            }
        }
        if is_pending(v.scopes, j) && !sc.contains(j as usize) {
            let (s, k) = choose|s: int, k: int|
                0 <= s < v.scopes.len() && 0 <= k < v.scopes[s].len() && #[trigger] v.scopes[s][k] as int
                    == j;
            if s == l {
                assert(sc[k] == j as usize);
            } else {
                assert(r.scopes[s][k] as int == j);
            }
        }
    }
    assert forall|j: int| 0 <= j < len && sc.contains(j as usize) implies is_pending(v.scopes, j) by {
        let k = choose|k: int| 0 <= k < sc.len() && sc[k] == j as usize;
        assert(v.scopes[l][k] as int == j);
    }
    assert forall|j: int| 0 <= j < r.draws.len() implies ((#[trigger] r.draws[j]).depth == 0
        <==> is_pending(r.scopes, j)) by {
        if sc.contains(j as usize) {
            let k = choose|k: int| 0 <= k < sc.len() && sc[k] == j as usize;
            assert(r.draws[sc[k] as int] == with_depth(v.draws[sc[k] as int], d + n - k));
        } else {
            assert(r.draws[j] == v.draws[j]);
        }
    }
    assert forall|j: int| 0 <= j < r.draws.len() implies (#[trigger] r.draws[j]).depth <= r.depth by {
        if sc.contains(j as usize) {
            let k = choose|k: int| 0 <= k < sc.len() && sc[k] == j as usize;
            assert(r.draws[sc[k] as int] == with_depth(v.draws[sc[k] as int], d + n - k));
        } else {
            assert(r.draws[j] == v.draws[j]);
            assert(v.draws[j].depth <= d);
        }
    }
    assert forall|i: int, j: int|
        0 <= i < j < r.draws.len() && (#[trigger] r.draws[i]).depth == (#[trigger] r.draws[j]).depth
            implies r.draws[i].depth == 0 by {
        let ci = sc.contains(i as usize);
        let cj = sc.contains(j as usize);
        if ci {
            let ki = choose|k: int| 0 <= k < sc.len() && sc[k] == i as usize;
            assert(r.draws[sc[ki] as int] == with_depth(v.draws[sc[ki] as int], d + n - ki));
            if cj {
                let kj = choose|k: int| 0 <= k < sc.len() && sc[k] == j as usize;
                assert(r.draws[sc[kj] as int] == with_depth(v.draws[sc[kj] as int], d + n - kj));
            } else {
                assert(r.draws[j] == v.draws[j]);
                assert(v.draws[j].depth <= d);
            }
        } else {
            assert(r.draws[i] == v.draws[i]);
            if cj {
                let kj = choose|k: int| 0 <= k < sc.len() && sc[k] == j as usize;
                assert(r.draws[sc[kj] as int] == with_depth(v.draws[sc[kj] as int], d + n - kj));
                assert(v.draws[i].depth <= d);
            } else {
                assert(r.draws[j] == v.draws[j]);
            }
        }
    }
    assert forall|s: int, k: int|
        0 <= s < r.scopes.len() && 0 <= k < r.scopes[s].len() implies #[trigger] r.scopes[s][k]
        < r.draws.len() by {
        assert(r.scopes[s][k] == v.scopes[s][k]);
    }
    assert forall|s1: int, k1: int, s2: int, k2: int|
        0 <= s1 <= s2 < r.scopes.len() && 0 <= k1 < r.scopes[s1].len() && 0 <= k2
            < r.scopes[s2].len() && (s1 < s2 || k1 < k2) implies #[trigger] r.scopes[s1][k1]
        < #[trigger] r.scopes[s2][k2] by {
        assert(v.scopes[s1][k1] < v.scopes[s2][k2]);
    }
}

proof fn lemma_restore_wf<C, M>(v: RecorderView<C, M>)
    requires
        v.wf(),
    ensures
        v.restore().wf(),
{
    lemma_close_last_ok(v);
    let r = v.restore();
    let c = v.close_last();
    assert(r.draws == c.draws && r.depth == c.depth);
    if v.scopes.len() > 1 {
        assert(r.scopes == c.scopes);
    } else {
        lemma_pending_single_empty();
        assert(c.scopes =~= Seq::<Seq<usize>>::empty());
        assert(r.scopes =~= seq![Seq::<usize>::empty()]);
        assert forall|j: int| 0 <= j < r.draws.len() implies !is_pending(r.scopes, j) by {
            if is_pending(r.scopes, j) {
                let (s, k) = choose|s: int, k: int|
                    0 <= s < r.scopes.len() && 0 <= k < r.scopes[s].len() && #[trigger] r.scopes[s][k]
                        as int == j;
                assert(r.scopes[s].len() == 0);
            }
        }
        assert forall|j: int| 0 <= j < c.draws.len() implies !is_pending(c.scopes, j) by {}
        assert forall|j: int| 0 <= j < r.draws.len() implies ((#[trigger] r.draws[j]).depth == 0
            <==> is_pending(r.scopes, j)) by {
            assert(r.draws[j] == c.draws[j]);
        }
    }
}

/// Every entry of a finished picture has its own depth between 1 and the
/// number of entries: no clip keeps the placeholder 0 and no two entries
/// share a depth.
pub proof fn lemma_finished_depths<C, M>(v: RecorderView<C, M>)
    requires
        v.ordered(),
        v.depths_ok(),
    ensures
        ({
            let f = v.finish();
            &&& f.len() == v.draws.len()
            &&& forall|j: int| 0 <= j < f.len() ==> 1 <= (#[trigger] f[j]).depth <= f.len()
            &&& forall|i: int, j: int|
                0 <= i < j < f.len() ==> (#[trigger] f[i]).depth != (#[trigger] f[j]).depth
        }),
    decreases v.scopes.len(),
{
    if v.scopes.len() == 0 {
        assert forall|j: int| 0 <= j < v.draws.len() implies !is_pending(v.scopes, j) by {}
        assert forall|j: int| 0 <= j < v.draws.len() implies 1 <= (#[trigger] v.draws[j]).depth
            <= v.draws.len() by {
            assert(v.draws[j].depth <= v.depth);
        }
        assert forall|i: int, j: int| 0 <= i < j < v.draws.len() implies (#[trigger] v.draws[i]).depth
            != (#[trigger] v.draws[j]).depth by {
            assert(v.draws[i].depth != 0);
        }
    } else {
        lemma_close_last_ok(v);
        assert(v.finish() == v.close_last().finish());
        lemma_finished_depths(v.close_last());
    }
}

/// Closing the innermost clip scope on `restore` gives its clips the depths
/// right after the last one handed out, in reverse order of recording (the
/// most recent clip lowest), keeps their commands and transforms, and leaves
/// every other entry as it was; the next draw then lies above all of them.
pub proof fn lemma_restore_depths<C, M>(v: RecorderView<C, M>, c: C)
    requires
        v.wf(),
        v.draws.len() < u32::MAX,
    ensures
        ({
            let r = v.restore();
            let s = v.scopes.last();
            let n = s.len() as int;
            &&& r.draws.len() == v.draws.len()
            &&& r.depth == v.depth + n
            &&& forall|k: int|
                0 <= k < n ==> (#[trigger] r.draws[s[k] as int]).depth == v.depth + n - k
                    && r.draws[s[k] as int].command == v.draws[s[k] as int].command
                    && r.draws[s[k] as int].transform == v.draws[s[k] as int].transform
            &&& forall|j: int|
                0 <= j < v.draws.len() && !s.contains(j as usize) ==> #[trigger] r.draws[j]
                    == v.draws[j]
            &&& r.draw(c).draws.last().depth == v.depth + n + 1
        }),
{
    let s = v.scopes.last();
    let last = v.scopes.len() - 1;
    lemma_pending_nonneg(v.scopes.drop_last());
    assert(pending(v.scopes) == pending(v.scopes.drop_last()) + s.len());
    assert forall|k: int| 0 <= k < s.len() implies #[trigger] s[k] < v.draws.len() by {
        assert(s[k] == v.scopes[last][k]);
    }
    assert forall|j: int, k: int| 0 <= j < k < s.len() implies #[trigger] s[j] < #[trigger] s[k] by {
        assert(s[j] == v.scopes[last][j] && s[k] == v.scopes[last][k]);
    }
    lemma_close_scope_depths(v.draws, s, v.depth);
    let r = v.restore();
    assert forall|k: int| 0 <= k < s.len() implies (#[trigger] r.draws[s[k] as int]).depth == v.depth
        + s.len() - k by {
        assert(r.draws[s[k] as int] == with_depth(v.draws[s[k] as int], v.depth + s.len() - k));
    }
    assert(r.draws.len() == v.draws.len());
    assert(r.depth == v.depth + s.len());
    assert(r.draw(c).draws.last().depth == v.depth + s.len() + 1);
}

/// Clips recorded between `save` and `restore` receive their depths when the
/// scope closes: both end up above the placeholder 0 and below the next draw,
/// and the later clip lies below the earlier one.
pub proof fn lemma_clip_scope_depths<C, M>(
    v: RecorderView<C, M>,
    a: C,
    op_a: ClipOp,
    b: C,
    op_b: ClipOp,
    c: C,
)
    requires
        v.wf(),
        v.draws.len() + 3 <= u32::MAX,
    ensures
        ({
            let r = v.save().clip(a, op_a).clip(b, op_b).restore().draw(c);
            let ia = v.draws.len() as int;
            &&& r.draws.len() == ia + 3
            &&& r.draws[ia].command == DrawCommand::<C>::Clip(a, op_a)
            &&& r.draws[ia + 1].command == DrawCommand::<C>::Clip(b, op_b)
            &&& r.draws[ia + 2].command == DrawCommand::<C>::Paint(c)
            &&& 0 < r.draws[ia + 1].depth
            &&& r.draws[ia + 1].depth < r.draws[ia].depth
            &&& r.draws[ia].depth < r.draws[ia + 2].depth
        }),
{
    lemma_pending_nonneg(v.scopes);
    let ia = v.draws.len() as int;
    let d = v.depth;
    let v1 = v.save();
    let v2 = v1.clip(a, op_a);
    let v3 = v2.clip(b, op_b);
    assert(v2.scopes.last() =~= seq![ia as usize]);
    assert(v3.scopes.last() =~= seq![ia as usize, (ia + 1) as usize]);
    let scope = v3.scopes.last();
    let d1 = v3.draws.update(ia + 1, with_depth(v3.draws[ia + 1], d + 1));
    let d2 = d1.update(ia, with_depth(d1[ia], d + 2));
    assert(scope.drop_last() =~= seq![ia as usize]);
    assert(scope.drop_last().drop_last() =~= Seq::<usize>::empty());
    assert(close_scope(v3.draws, scope, d) == close_scope(d1, scope.drop_last(), d + 1));
    assert(close_scope(d1, scope.drop_last(), d + 1) == close_scope(
        d2,
        scope.drop_last().drop_last(),
        d + 2,
    ));
    let v4 = v3.restore();
    assert(v4.draws == d2);
    assert(v4.depth == d + 2);
    let r = v4.draw(c);
    assert(r.draws[ia + 2].depth == (d + 3) as u32);
}

/// Records draw and clip commands; `finish_record` turns the recording into
/// a `Picture`.
pub struct PictureRecorder<C, M> {
    draws: Vec<Draw<C, M>>,
    matrix_stack: Vec<M>,
    clip_stack: Vec<Vec<usize>>,
    current_depth: u32,
    identity: M,
}

/// A finished recording: the entries in recorded order with all depths
/// resolved. It is only read from when it is replayed.
pub struct Picture<C, M> {
    pub draws: Vec<Draw<C, M>>,
}

impl<C, M: Copy> View for PictureRecorder<C, M> {
    type V = RecorderView<C, M>;

    closed spec fn view(&self) -> RecorderView<C, M> {
        RecorderView {
            draws: self.draws@,
            matrices: self.matrix_stack@,
            scopes: self.clip_stack@.map_values(|s: Vec<usize>| s@),
            depth: self.current_depth as int,
            identity: self.identity,
        }
    }
}

impl<C, M: Copy> PictureRecorder<C, M> {
    /// An empty recording whose transform is `identity`, with one open clip
    /// scope.
    pub fn new(identity: M) -> (r: Self)
        ensures
            r@.wf(),
            r@.draws.len() == 0,
            r@.matrices == seq![identity],
            r@.scopes == seq![Seq::<usize>::empty()],
            r@.depth == 0,
            r@.identity == identity,
    {
        let mut scopes: Vec<Vec<usize>> = Vec::new();
        scopes.push(Vec::new());
        let mut matrices: Vec<M> = Vec::new();
        matrices.push(identity);
        let r = Self {
            draws: Vec::new(),
            matrix_stack: matrices,
            clip_stack: scopes,
            current_depth: 0,
            identity,
        };
        proof {
            assert(r@.matrices =~= seq![identity]);
            assert(r@.scopes =~= seq![Seq::<usize>::empty()]);
            lemma_pending_single_empty();
        }
        r
    }

    /// The number of entries recorded so far.
    pub fn len(&self) -> (r: usize)
        ensures
            r == self@.draws.len(),
    {
        self.draws.len()
    }

    /// The last depth handed out.
    pub fn depth(&self) -> (r: u32)
        ensures
            r == self@.depth,
    {
        self.current_depth
    }

    /// The transform that new entries are recorded with.
    pub fn current_transform(&self) -> (r: M)
        requires
            self@.wf(),
        ensures
            r == self@.current_transform(),
    {
        self.matrix_stack[self.matrix_stack.len() - 1]
    }

    /// Replaces the current transform (after a translate, rotate or scale).
    pub fn set_transform(&mut self, m: M)
        requires
            old(self)@.wf(),
        ensures
            final(self)@ == old(self)@.set_transform(m),
            final(self)@.wf(),
    {
        let last = self.matrix_stack.len() - 1;
        self.matrix_stack[last] = m;
        proof {
            assert(self@.matrices =~= old(self)@.set_transform(m).matrices);
            assert(self@.scopes =~= old(self)@.scopes);
        }
    }

    /// Records a draw at the next depth.
    pub fn draw(&mut self, c: C)
        requires
            old(self)@.wf(),
            old(self)@.draws.len() < u32::MAX,
        ensures
            final(self)@ == old(self)@.draw(c),
            final(self)@.wf(),
    {
        proof {
            lemma_draw_wf(self@, c);
        }
        let transform = self.current_transform();
        proof {
            lemma_pending_nonneg(self@.scopes);
        }
        self.current_depth = self.current_depth + 1;
        self.draws.push(Draw { depth: self.current_depth, command: DrawCommand::Paint(c), transform });
        proof {
            assert(self@.scopes =~= old(self)@.scopes);
            assert(self@.draws =~= old(self)@.draw(c).draws);
        }
    }

    /// Records a clip with the placeholder depth 0 and remembers it in the
    /// innermost open scope.
    pub fn clip(&mut self, c: C, op: ClipOp)
        requires
            old(self)@.wf(),
            old(self)@.draws.len() < u32::MAX,
        ensures
            final(self)@ == old(self)@.clip(c, op),
            final(self)@.wf(),
    {
        proof {
            lemma_clip_wf(self@, c, op);
        }
        let transform = self.current_transform();
        let index = self.draws.len();
        self.draws.push(Draw { depth: 0, command: DrawCommand::Clip(c, op), transform });
        let last = self.clip_stack.len() - 1;
        self.clip_stack[last].push(index);
        proof {
            let o = old(self)@;
            let n = o.clip(c, op);
            assert(self@.scopes =~= n.scopes);
            assert(self@.draws =~= n.draws);
        }
    }

    /// Saves the current transform and opens a new clip scope.
    pub fn save(&mut self)
        requires
            old(self)@.wf(),
        ensures
            final(self)@ == old(self)@.save(),
            final(self)@.wf(),
    {
        proof {
            lemma_save_wf(self@);
        }
        let m = self.current_transform();
        self.matrix_stack.push(m);
        self.clip_stack.push(Vec::new());
        proof {
            let o = old(self)@;
            let n = o.save();
            assert(self@.scopes =~= n.scopes);
            assert(self@.matrices =~= n.matrices);
        }
    }

    /// Assigns the clips of `scope` their depths after the current one, the
    /// most recent clip first.
    fn close(&mut self, scope: &Vec<usize>)
        requires
            old(self)@.depth + scope@.len() <= u32::MAX,
            0 <= old(self)@.depth,
            forall|k: int| 0 <= k < scope@.len() ==> #[trigger] scope@[k] < old(self)@.draws.len(),
        ensures
            final(self)@ == (RecorderView {
                draws: close_scope(old(self)@.draws, scope@, old(self)@.depth),
                depth: old(self)@.depth + scope@.len(),
                ..old(self)@
            }),
    {
        let ghost d0 = self@.depth;
        let ghost draws0 = self@.draws;
        let mut k: usize = scope.len();
        assert(scope@.take(scope@.len() as int) =~= scope@);
        while k > 0
            invariant
                0 <= k <= scope@.len(),
                self@.depth == d0 + (scope@.len() - k),
                self@.draws.len() == draws0.len(),
                forall|i: int| 0 <= i < scope@.len() ==> #[trigger] scope@[i] < draws0.len(),
                d0 + scope@.len() <= u32::MAX,
                close_scope(draws0, scope@, d0) == close_scope(
                    self@.draws,
                    scope@.take(k as int),
                    self@.depth,
                ),
                self@.matrices == old(self)@.matrices,
                self@.scopes == old(self)@.scopes,
                self@.identity == old(self)@.identity,
            decreases k,
        {
            let j = scope[k - 1];
            self.current_depth = self.current_depth + 1;
            let ghost before = self@.draws;
            self.draws[j].depth = self.current_depth;
            proof {
                let t = scope@.take(k as int);
                assert(t.last() == scope@[k - 1]);
                assert(t.drop_last() =~= scope@.take(k - 1));
                assert(self@.draws =~= before.update(j as int, with_depth(before[j as int], self@.depth)));
            }
            k = k - 1;
        }
        assert(scope@.take(0) =~= Seq::<usize>::empty());
    }

    /// Restores the saved transform and closes the innermost clip scope.
    pub fn restore(&mut self)
        requires
            old(self)@.wf(),
        ensures
            final(self)@ == old(self)@.restore(),
            final(self)@.wf(),
    {
        proof {
            lemma_restore_wf(self@);
        }
        self.matrix_stack.pop();
        if self.matrix_stack.len() == 0 {
            self.matrix_stack.push(self.identity);
        }
        let scope = self.clip_stack.pop().unwrap();
        if self.clip_stack.len() == 0 {
            self.clip_stack.push(Vec::new());
        }
        proof {
            let o = old(self)@;
            lemma_pending_nonneg(o.scopes.drop_last());
            assert(scope@ == o.scopes.last());
            assert forall|k: int| 0 <= k < scope@.len() implies #[trigger] scope@[k]
                < o.draws.len() by {
                assert(scope@[k] == o.scopes[o.scopes.len() - 1][k]);
            }
        }
        self.close(&scope);
        proof {
            let o = old(self)@;
            let n = o.restore();
            assert(self@.matrices =~= n.matrices);
            assert(self@.scopes =~= n.scopes);
        }
    }

    /// Closes every clip scope still open, innermost first, and hands out
    /// the finished picture.
    pub fn finish_record(self) -> (r: Picture<C, M>)
        requires
            self@.wf(),
        ensures
            r.draws@ == self@.finish(),
            r.draws@.len() == self@.draws.len(),
            forall|j: int| 0 <= j < r.draws@.len() ==> 1 <= (#[trigger] r.draws@[j]).depth <= r.draws@.len(),
            forall|i: int, j: int|
                0 <= i < j < r.draws@.len() ==> (#[trigger] r.draws@[i]).depth != (
                #[trigger] r.draws@[j]).depth,
    {
        proof {
            lemma_finished_depths(self@);
        }
        let ghost v = self@;
        let mut rec = self;
        while rec.clip_stack.len() > 0
            invariant
                rec@.draws.len() == v.draws.len(),
                forall|s: int, k: int|
                    0 <= s < rec@.scopes.len() && 0 <= k < rec@.scopes[s].len()
                        ==> #[trigger] rec@.scopes[s][k] < rec@.draws.len(),
                0 <= rec@.depth,
                rec@.depth + pending(rec@.scopes) <= u32::MAX,
                close_all(rec@.draws, rec@.scopes, rec@.depth) == v.finish(),
            decreases rec@.scopes.len(),
        {
            let ghost before = rec@;
            let scope = rec.clip_stack.pop().unwrap();
            proof {
                lemma_pending_nonneg(before.scopes.drop_last());
                assert(scope@ == before.scopes.last());
                assert forall|k: int| 0 <= k < scope@.len() implies #[trigger] scope@[k]
                    < before.draws.len() by {
                    assert(scope@[k] == before.scopes[before.scopes.len() - 1][k]);
                }
                assert(rec@.scopes =~= before.scopes.drop_last());
            }
            rec.close(&scope);
            proof {
                lemma_close_scope_len(before.draws, scope@, before.depth);
                assert forall|s: int, k: int|
                    0 <= s < rec@.scopes.len() && 0 <= k < rec@.scopes[s].len()
                        implies #[trigger] rec@.scopes[s][k] < rec@.draws.len() by {
                    assert(rec@.scopes[s] == before.scopes[s]);
                }
            }
        }
        Picture { draws: rec.draws }
    }
}

} // verus!
