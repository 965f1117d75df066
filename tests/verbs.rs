use mickey::verbs::{contour_spans, needs_move_to, simplify_verbs, ContourSpan, VerbKind};
use VerbKind::{Close, Cubic, Line, Move, Quad};

#[test]
fn plain_contour_is_kept() {
    assert_eq!(simplify_verbs(&vec![Move, Line, Quad, Close]), vec![0, 1, 2, 3]);
}

#[test]
fn move_followed_by_move_is_dropped() {
    assert_eq!(simplify_verbs(&vec![Move, Move, Line]), vec![1, 2]);
}

#[test]
fn move_then_close_is_dropped() {
    assert_eq!(simplify_verbs(&vec![Move, Close]), Vec::<usize>::new());
    assert_eq!(simplify_verbs(&vec![Move, Line, Move, Close]), vec![0, 1]);
}

#[test]
fn trailing_move_and_double_close_are_dropped() {
    assert_eq!(simplify_verbs(&vec![Move]), Vec::<usize>::new());
    assert_eq!(simplify_verbs(&vec![Move, Line, Close, Close]), vec![0, 1, 2]);
    assert_eq!(simplify_verbs(&vec![Move, Cubic, Move]), vec![0, 1]);
    assert_eq!(simplify_verbs(&vec![]), Vec::<usize>::new());
}

#[test]
fn contours_split_at_moves() {
    let kinds = vec![Move, Line, Close, Move, Line];
    let kept = simplify_verbs(&kinds);
    assert_eq!(
        contour_spans(&kinds, &kept),
        vec![
            ContourSpan { start: 0, end: 3, closed: true },
            ContourSpan { start: 3, end: 5, closed: false },
        ]
    );
}

#[test]
fn drawing_without_move_opens_a_contour() {
    let kinds = vec![Line, Line];
    let kept = simplify_verbs(&kinds);
    assert_eq!(contour_spans(&kinds, &kept), vec![ContourSpan { start: 0, end: 2, closed: false }]);
}

#[test]
fn move_injected_only_when_no_contour_is_open() {
    assert!(needs_move_to(0, false));
    assert!(needs_move_to(0, true));
    assert!(needs_move_to(3, false));
    assert!(!needs_move_to(3, true));
}

#[test]
fn kept_moves_start_segments_and_closes_end_them() {
    let kinds = vec![Close, Move, Move, Line, Close, Close, Move, Close, Move, Quad, Move];
    let kept = simplify_verbs(&kinds);
    assert_eq!(kept, vec![2, 3, 4, 8, 9]);
    for (p, &k) in kept.iter().enumerate() {
        match kinds[k] {
            Move => assert!(p + 1 < kept.len() && !matches!(kinds[kept[p + 1]], Move | Close)),
            Close => assert!(p > 0 && !matches!(kinds[kept[p - 1]], Move | Close)),
            _ => {}
        }
    }
}

#[test]
fn contours_partition_the_kept_verbs() {
    let kinds = vec![Move, Line, Line, Close, Move, Quad, Move, Cubic, Line, Close];
    let kept = simplify_verbs(&kinds);
    let spans = contour_spans(&kinds, &kept);
    assert_eq!(
        spans,
        vec![
            ContourSpan { start: 0, end: 4, closed: true },
            ContourSpan { start: 4, end: 6, closed: false },
            ContourSpan { start: 6, end: 10, closed: true },
        ]
    );
    assert_eq!(spans.last().unwrap().end, kept.len());
    for w in spans.windows(2) {
        assert_eq!(w[0].end, w[1].start);
        assert_eq!(kinds[kept[w[1].start]], Move);
    }
}
