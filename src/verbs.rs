//! The verb structure of a path, apart from its coordinates.
//!
//! A path is a sequence of verbs. Before it is flattened into contours,
//! degenerate sequences are dropped: a move that starts nothing (it is the
//! last verb, or another move or a close follows it), and a close that closes
//! nothing.
use vstd::prelude::*;

verus! {

/// The kind of a path verb.
#[derive(Debug, Clone, Copy, PartialEq, Eq, Structural)]
pub enum VerbKind {
    Move,
    Line,
    Quad,
    Conic,
    Cubic,
    Close,
}

/// The direction in which a closed shape is added to a path.
#[derive(Debug, Clone, Copy, PartialEq, Eq, Structural, Default)]
pub enum PathDirection {
    #[default]
    Clockwise,
    CounterClockwise,
}

/// The state of the simplification after a prefix of the verbs.
pub struct SimplifyState {
    /// Whether the last move or drawing verb seen was a move.
    pub prev_is_move: bool,
    /// The indices of the verbs kept so far.
    pub kept: Seq<usize>,
}

/// Whether a close at this point would close nothing.
pub open spec fn close_is_empty(kinds: Seq<VerbKind>, st: SimplifyState) -> bool {
    st.prev_is_move || st.kept.len() == 0 || kinds[st.kept.last() as int] == VerbKind::Close
}

/// Handles verb `i`.
pub open spec fn simplify_step(kinds: Seq<VerbKind>, i: int, st: SimplifyState) -> SimplifyState {
    match kinds[i] {
        VerbKind::Move => if i == kinds.len() - 1 {
            st
        } else if kinds[i + 1] == VerbKind::Close || kinds[i + 1] == VerbKind::Move {
            SimplifyState { prev_is_move: true, ..st }
        } else {
            SimplifyState { prev_is_move: true, kept: st.kept.push(i as usize) }
        },
        VerbKind::Close => if close_is_empty(kinds, st) {
            st
        } else if kinds[st.kept.last() as int] == VerbKind::Move {
            SimplifyState { kept: st.kept.drop_last(), ..st }
        } else {
            SimplifyState { kept: st.kept.push(i as usize), ..st }
        },
        _ => SimplifyState { prev_is_move: false, kept: st.kept.push(i as usize) },
    }
}

/// The simplification of the first `n` verbs.
pub open spec fn simplify_prefix(kinds: Seq<VerbKind>, n: int) -> SimplifyState
    decreases n,
{
    if n <= 0 {
        SimplifyState { prev_is_move: false, kept: Seq::empty() }
    } else {
        simplify_step(kinds, n - 1, simplify_prefix(kinds, n - 1))
    }
}

/// The indices of the verbs that survive simplification, in order.
pub open spec fn simplified(kinds: Seq<VerbKind>) -> Seq<usize> {
    simplify_prefix(kinds, kinds.len() as int).kept
}

/// Whether a drawing verb appended now must first be preceded by a move to
/// the origin: the path is empty or no contour is open.
pub open spec fn needs_move_spec(verb_count: int, contour_open: bool) -> bool {
    verb_count == 0 || !contour_open
}

/// A verb that draws a segment.
pub open spec fn is_drawing(k: VerbKind) -> bool {
    k != VerbKind::Move && k != VerbKind::Close
}

/// What holds of the verbs kept from the first `n`.
pub open spec fn simplify_inv(kinds: Seq<VerbKind>, n: int) -> bool {
    let kept = simplify_prefix(kinds, n).kept;
    &&& forall|p: int| 0 <= p < kept.len() ==> #[trigger] kept[p] < n
    &&& forall|p: int, q: int| 0 <= p < q < kept.len() ==> #[trigger] kept[p] < #[trigger] kept[q]
    &&& forall|p: int|
        0 <= p < kept.len() - 1 && kinds[#[trigger] kept[p] as int] == VerbKind::Move ==> is_drawing(
            kinds[kept[p + 1] as int],
        )
    &&& (kept.len() > 0 && kinds[kept.last() as int] == VerbKind::Move) ==> (kept.last() == n - 1
        && n < kinds.len() && is_drawing(kinds[n]))
    &&& forall|p: int|
        0 <= p < kept.len() && kinds[#[trigger] kept[p] as int] == VerbKind::Close ==> p > 0
            && is_drawing(kinds[kept[p - 1] as int])
}

/// Appending verb `i` keeps the invariant when a move is followed by a
/// segment and a close follows one.
proof fn lemma_push_inv(kinds: Seq<VerbKind>, i: int)
    requires
        0 <= i < kinds.len(),
        kinds.len() <= usize::MAX,
        simplify_inv(kinds, i),
        simplify_prefix(kinds, i + 1).kept == simplify_prefix(kinds, i).kept.push(i as usize),
        kinds[i] == VerbKind::Move ==> i + 1 < kinds.len() && is_drawing(kinds[i + 1]),
        kinds[i] == VerbKind::Close ==> simplify_prefix(kinds, i).kept.len() > 0 && is_drawing(
            kinds[simplify_prefix(kinds, i).kept.last() as int],
        ),
        ({
            let o = simplify_prefix(kinds, i).kept;
            o.len() > 0 && kinds[o.last() as int] == VerbKind::Move ==> is_drawing(kinds[i])
        }),
    ensures
        simplify_inv(kinds, i + 1),
{
    let o = simplify_prefix(kinds, i).kept;
    let kept = simplify_prefix(kinds, i + 1).kept;
    assert forall|p: int| 0 <= p < kept.len() implies #[trigger] kept[p] < i + 1 by {
        if p < o.len() {
            assert(kept[p] == o[p]);
        }
    }
    assert forall|p: int, q: int| 0 <= p < q < kept.len() implies #[trigger] kept[p]
        < #[trigger] kept[q] by {
        assert(kept[p] == o[p]);
        assert(o[p] < i);
        if q < o.len() {
            assert(kept[q] == o[q]);
        } else {
            assert(kept[q] == i as usize);
        }
    }
    assert forall|p: int|
        0 <= p < kept.len() - 1 && kinds[#[trigger] kept[p] as int] == VerbKind::Move implies is_drawing(
        kinds[kept[p + 1] as int],
    ) by {
        assert(kept[p] == o[p]);
        if p + 1 < o.len() {
            assert(kept[p + 1] == o[p + 1]);
        } else {
            assert(o.last() == o[p]);
        }
    }
    assert forall|p: int|
        0 <= p < kept.len() && kinds[#[trigger] kept[p] as int] == VerbKind::Close implies p > 0
        && is_drawing(kinds[kept[p - 1] as int]) by {
        if p < o.len() {
            assert(kept[p] == o[p]);
            if p > 0 {
                assert(kept[p - 1] == o[p - 1]);
            }
        } else {
            assert(kept[p] == i as usize);
            assert(o.len() > 0);
            assert(kept[p - 1] == o[o.len() - 1]);
        }
    }
}

proof fn lemma_simplify_inv(kinds: Seq<VerbKind>, n: int)
    requires
        0 <= n <= kinds.len(),
        kinds.len() <= usize::MAX,
    ensures
        simplify_inv(kinds, n),
    decreases n,
{
    if n > 0 {
        let i = n - 1;
        lemma_simplify_inv(kinds, i);
        let st = simplify_prefix(kinds, i);
        let o = st.kept;
        assert(simplify_prefix(kinds, n) == simplify_step(kinds, i, st));
        assert(o.len() > 0 && kinds[o.last() as int] == VerbKind::Move ==> is_drawing(kinds[i]));
        match kinds[i] {
            VerbKind::Move => {
                if i == kinds.len() - 1 || kinds[i + 1] == VerbKind::Close || kinds[i + 1]
                    == VerbKind::Move {
                } else {
                    lemma_push_inv(kinds, i);
                }
            },
            VerbKind::Close => {
                if close_is_empty(kinds, st) {
                } else {
                    lemma_push_inv(kinds, i);
                }
            },
            _ => {
                lemma_push_inv(kinds, i);
            },
        }
    }
}

/// Simplification leaves no degenerate sequence: the kept verbs are in path
/// order, every kept move is directly followed by a segment, and every kept
/// close directly follows a segment.
pub proof fn lemma_simplified_shape(kinds: Seq<VerbKind>)
    requires
        kinds.len() <= usize::MAX,
    ensures
        ({
            let kept = simplified(kinds);
            &&& forall|p: int| 0 <= p < kept.len() ==> #[trigger] kept[p] < kinds.len()
            &&& forall|p: int, q: int| 0 <= p < q < kept.len() ==> #[trigger] kept[p] < #[trigger] kept[q]
            &&& forall|p: int|
                0 <= p < kept.len() && kinds[#[trigger] kept[p] as int] == VerbKind::Move ==> p + 1
                    < kept.len() && is_drawing(kinds[kept[p + 1] as int])
            &&& forall|p: int|
                0 <= p < kept.len() && kinds[#[trigger] kept[p] as int] == VerbKind::Close ==> p > 0
                    && is_drawing(kinds[kept[p - 1] as int])
        }),
{
    lemma_simplify_inv(kinds, kinds.len() as int);
    let kept = simplified(kinds);
    assert forall|p: int|
        0 <= p < kept.len() && kinds[#[trigger] kept[p] as int] == VerbKind::Move implies p + 1
        < kept.len() && is_drawing(kinds[kept[p + 1] as int]) by {
        if p == kept.len() - 1 {
            assert(kept.last() == kept[p]);
        }
    }
}

/// The indices of the verbs to flatten, in order, after dropping degenerate
/// moves and closes.
pub fn simplify_verbs(kinds: &Vec<VerbKind>) -> (r: Vec<usize>)
    ensures
        r@ == simplified(kinds@),
        forall|k: int| 0 <= k < r@.len() ==> #[trigger] r@[k] < kinds@.len(),
        forall|p: int, q: int| 0 <= p < q < r@.len() ==> #[trigger] r@[p] < #[trigger] r@[q],
        forall|p: int|
            0 <= p < r@.len() && kinds@[#[trigger] r@[p] as int] == VerbKind::Move ==> p + 1 < r@.len()
                && is_drawing(kinds@[r@[p + 1] as int]),
        forall|p: int|
            0 <= p < r@.len() && kinds@[#[trigger] r@[p] as int] == VerbKind::Close ==> p > 0
                && is_drawing(kinds@[r@[p - 1] as int]),
{
    let n = kinds.len();
    proof {
        lemma_simplified_shape(kinds@);
    }
    let mut kept: Vec<usize> = Vec::new();
    let mut prev_is_move = false;
    let mut i: usize = 0;
    while i < n
        invariant
            n == kinds@.len(),
            0 <= i <= n,
            simplify_prefix(kinds@, i as int) == (SimplifyState { prev_is_move, kept: kept@ }),
            forall|k: int| 0 <= k < kept@.len() ==> #[trigger] kept@[k] < i,
        decreases n - i,
    {
        let ghost before = kept@;
        match kinds[i] {
            VerbKind::Move => {
                if i != n - 1 {
                    prev_is_move = true;
                    let next = kinds[i + 1];
                    if next != VerbKind::Close && next != VerbKind::Move {
                        kept.push(i);
                    }
                }
            },
            VerbKind::Close => {
                if !prev_is_move && kept.len() > 0 {
                    let last = kinds[kept[kept.len() - 1]];
                    if last == VerbKind::Move {
                        kept.pop();
                    } else if last != VerbKind::Close {
                        kept.push(i);
                    }
                }
            },
            _ => {
                prev_is_move = false;
                kept.push(i);
            },
        }
        proof {
            assert forall|k: int| 0 <= k < kept@.len() implies #[trigger] kept@[k] < i + 1 by {
                if k < before.len() {
                    assert(kept@[k] == before[k]);
                }
            }
            if kept@.len() < before.len() {
                assert(kept@ =~= before.drop_last());
            }
        }
        i = i + 1;
    }
    kept
}

/// Whether a drawing verb must be preceded by an injected move to the
/// origin.
pub fn needs_move_to(verb_count: usize, contour_open: bool) -> (r: bool)
    ensures
        r == needs_move_spec(verb_count as int, contour_open),
{
    verb_count == 0 || !contour_open
}

/// A contour as a run `kept[start..end]` of the simplified verbs.
#[derive(Debug, Clone, Copy, PartialEq, Eq, Structural)]
pub struct ContourSpan {
    pub start: usize,
    pub end: usize,
    /// Whether a close ends the contour.
    pub closed: bool,
}

/// Adds the verb at position `p` of the simplified list: a move opens a
/// contour, a close marks the current one closed, any other verb extends the
/// current one (opening one at the origin if there is none).
pub open spec fn span_step(kind: VerbKind, p: int, spans: Seq<ContourSpan>) -> Seq<ContourSpan> {
    let fresh = ContourSpan { start: p as usize, end: (p + 1) as usize, closed: false };
    if kind == VerbKind::Move || (kind != VerbKind::Close && spans.len() == 0) {
        spans.push(fresh)
    } else if spans.len() == 0 {
        spans
    } else {
        let last = spans.last();
        spans.update(
            spans.len() - 1,
            ContourSpan {
                start: last.start,
                end: (p + 1) as usize,
                closed: last.closed || kind == VerbKind::Close,
            },
        )
    }
}

/// The contours of the first `n` simplified verbs.
pub open spec fn spans_prefix(kinds: Seq<VerbKind>, kept: Seq<usize>, n: int) -> Seq<ContourSpan>
    decreases n,
{
    if n <= 0 {
        Seq::empty()
    } else {
        span_step(kinds[kept[n - 1] as int], n - 1, spans_prefix(kinds, kept, n - 1))
    }
}

/// The contours of the first `n` kept verbs are consecutive non-empty runs
/// that together cover those verbs, each after the first opened by a move.
pub open spec fn spans_partition(kinds: Seq<VerbKind>, kept: Seq<usize>, n: int) -> bool {
    let spans = spans_prefix(kinds, kept, n);
    &&& n > 0 ==> spans.len() > 0 && spans[0].start == 0 && spans.last().end == n
    &&& forall|j: int| 0 <= j < spans.len() ==> (#[trigger] spans[j]).start < spans[j].end
    &&& forall|j: int|
        0 <= j < spans.len() - 1 ==> (#[trigger] spans[j]).end == spans[j + 1].start
    &&& forall|j: int|
        0 < j < spans.len() ==> kinds[kept[(#[trigger] spans[j]).start as int] as int] == VerbKind::Move
}

proof fn lemma_spans_partition(kinds: Seq<VerbKind>, kept: Seq<usize>, n: int)
    requires
        0 <= n <= kept.len(),
        kept.len() < usize::MAX,
        forall|k: int| 0 <= k < kept.len() ==> #[trigger] kept[k] < kinds.len(),
        kept.len() > 0 ==> kinds[kept[0] as int] != VerbKind::Close,
    ensures
        spans_partition(kinds, kept, n),
    decreases n,
{
    if n > 0 {
        lemma_spans_partition(kinds, kept, n - 1);
        let before = spans_prefix(kinds, kept, n - 1);
        let spans = spans_prefix(kinds, kept, n);
        let kind = kinds[kept[n - 1] as int];
        assert(spans == span_step(kind, n - 1, before));
        if kind == VerbKind::Move || (kind != VerbKind::Close && before.len() == 0) {
            assert(spans == before.push(ContourSpan { start: (n - 1) as usize, end: n as usize, closed: false }));
            assert forall|j: int| 0 <= j < spans.len() - 1 implies (#[trigger] spans[j]).end == spans[j
                + 1].start by {
                assert(spans[j] == before[j]);
                if j + 1 < before.len() {
                    assert(spans[j + 1] == before[j + 1]);
                }
            }
            assert forall|j: int| 0 < j < spans.len() implies kinds[kept[(#[trigger] spans[j]).start as int] as int]
                == VerbKind::Move by {
                if j < before.len() {
                    assert(spans[j] == before[j]);
                }
            }
            assert forall|j: int| 0 <= j < spans.len() implies (#[trigger] spans[j]).start
                < spans[j].end by {
                if j < before.len() {
                    assert(spans[j] == before[j]);
                }
            }
        } else {
            assert(before.len() > 0);
            let l = before.len() - 1;
            assert forall|j: int| 0 <= j < spans.len() implies (#[trigger] spans[j]).start
                < spans[j].end by {
                if j < l {
                    assert(spans[j] == before[j]);
                }
            }
            assert forall|j: int| 0 <= j < spans.len() - 1 implies (#[trigger] spans[j]).end == spans[j
                + 1].start by {
                assert(spans[j] == before[j]);
                assert(spans[j + 1].start == before[j + 1].start);
            }
            assert forall|j: int| 0 < j < spans.len() implies kinds[kept[(#[trigger] spans[j]).start as int] as int]
                == VerbKind::Move by {
                assert(spans[j].start == before[j].start);
            }
        }
    }
}

/// Splits the simplified verbs `kept` of a path into contours.
pub fn contour_spans(kinds: &Vec<VerbKind>, kept: &Vec<usize>) -> (r: Vec<ContourSpan>)
    requires
        forall|k: int| 0 <= k < kept@.len() ==> #[trigger] kept@[k] < kinds@.len(),
        kept@.len() < usize::MAX,
    ensures
        r@ == spans_prefix(kinds@, kept@, kept@.len() as int),
        kept@.len() > 0 && kinds@[kept@[0] as int] != VerbKind::Close ==> spans_partition(
            kinds@,
            kept@,
            kept@.len() as int,
        ),
{
    proof {
        if kept@.len() > 0 && kinds@[kept@[0] as int] != VerbKind::Close {
            lemma_spans_partition(kinds@, kept@, kept@.len() as int);
        }
    }
    let mut spans: Vec<ContourSpan> = Vec::new();
    let mut p: usize = 0;
    while p < kept.len()
        invariant
            0 <= p <= kept@.len(),
            kept@.len() < usize::MAX,
            forall|k: int| 0 <= k < kept@.len() ==> #[trigger] kept@[k] < kinds@.len(),
            spans@ == spans_prefix(kinds@, kept@, p as int),
        decreases kept@.len() - p,
    {
        let kind = kinds[kept[p]];
        let fresh = ContourSpan { start: p, end: p + 1, closed: false };
        let ghost before = spans@;
        if kind == VerbKind::Move || (kind != VerbKind::Close && spans.len() == 0) {
            spans.push(fresh);
        } else if spans.len() > 0 {
            let li = spans.len() - 1;
            let last = spans[li];
            spans.set(
                li,
                ContourSpan {
                    start: last.start,
                    end: p + 1,
                    closed: last.closed || kind == VerbKind::Close,
                },
            );
        }
        assert(spans@ =~= span_step(kind, p as int, before));
        p = p + 1;
    }
    spans
}

} // verus!
