use mickey::stroke::{join_geometry, JoinGeometry, StrokeJoin, StrokeMesh, ROUND_STEPS};

fn miter_apex_distance(half_width: f64) -> f64 {
    // Right angle at the origin between segments along -x and +y.
    let prev_join = (0.0, -half_width);
    let next_join = (half_width, 0.0);
    let out = (prev_join.0 + next_join.0, prev_join.1 + next_join.1);
    let k = 2.0 * half_width * half_width / (out.0 * out.0 + out.1 * out.1);
    ((out.0 * k).powi(2) + (out.1 * k).powi(2)).sqrt()
}

#[test]
fn right_angle_miter_within_limit() {
    let half = 1.0;
    let apex = miter_apex_distance(half);
    let expected = half / (std::f64::consts::FRAC_PI_4).cos();
    assert!((apex - expected).abs() < 1e-9);
    let limit = 1.5;
    assert_eq!(join_geometry(StrokeJoin::Miter, apex < limit * half), JoinGeometry::Miter);
}

#[test]
fn right_angle_miter_over_limit_falls_back_to_bevel() {
    let half = 1.0;
    let apex = miter_apex_distance(half);
    let limit = 1.2;
    assert_eq!(join_geometry(StrokeJoin::Miter, apex < limit * half), JoinGeometry::Bevel);
    let mut mesh = StrokeMesh::new();
    mesh.add_bevel();
    assert_eq!(mesh.indices().len(), 3);
}

#[test]
fn other_joins_ignore_the_limit() {
    assert_eq!(join_geometry(StrokeJoin::Round, false), JoinGeometry::Round);
    assert_eq!(join_geometry(StrokeJoin::Bevel, true), JoinGeometry::Bevel);
}

#[test]
fn pieces_reserve_consecutive_vertices() {
    let mut mesh = StrokeMesh::new();
    assert_eq!(mesh.add_quad(), 0);
    assert_eq!(mesh.add_bevel(), 4);
    assert_eq!(mesh.add_miter(), 7);
    assert_eq!(mesh.add_fan(2), 11);
    assert_eq!(mesh.vertex_count(), 15);
    assert_eq!(
        mesh.indices(),
        &vec![0, 1, 2, 1, 3, 2, 5, 4, 6, 8, 9, 7, 8, 7, 10, 12, 11, 13, 13, 11, 14]
    );
}

#[test]
fn round_fan_has_one_triangle_per_step() {
    let mut mesh = StrokeMesh::new();
    mesh.add_fan(ROUND_STEPS);
    assert_eq!(mesh.indices().len(), 3 * ROUND_STEPS as usize);
    assert_eq!(mesh.vertex_count(), ROUND_STEPS + 2);
    assert!(mesh.indices().iter().all(|&i| i < mesh.vertex_count()));
}

use mickey::stroke::{segment_steps, SegmentStep, StrokeCap};

#[test]
fn open_contour_segments_have_no_first_join() {
    assert_eq!(
        segment_steps(3, false),
        vec![
            SegmentStep { from: 0, to: Some(1), join_with: None },
            SegmentStep { from: 1, to: Some(2), join_with: Some(0) },
        ]
    );
}

#[test]
fn closed_contour_wraps_with_joins_everywhere() {
    assert_eq!(
        segment_steps(3, true),
        vec![
            SegmentStep { from: 0, to: Some(1), join_with: Some(2) },
            SegmentStep { from: 1, to: Some(2), join_with: Some(0) },
            SegmentStep { from: 2, to: None, join_with: Some(1) },
        ]
    );
}

#[test]
fn degenerate_contours_have_few_segments() {
    assert!(segment_steps(0, true).is_empty());
    assert!(segment_steps(1, false).is_empty());
    assert_eq!(segment_steps(1, true), vec![SegmentStep { from: 0, to: None, join_with: Some(0) }]);
}

#[test]
fn join_dispatch_matches_pieces() {
    let mut a = StrokeMesh::new();
    a.add_join(JoinGeometry::Bevel);
    let mut b = StrokeMesh::new();
    b.add_bevel();
    assert_eq!(a.indices(), b.indices());
    let mut round = StrokeMesh::new();
    assert_eq!(round.add_join(JoinGeometry::Round), 0);
    assert_eq!(round.vertex_count(), 2 * (ROUND_STEPS + 2));
    assert_eq!(round.indices().len(), 6 * ROUND_STEPS as usize);
    assert_eq!(&round.indices()[24..27], &[11, 10, 12]);
}

#[test]
fn caps() {
    let mut m = StrokeMesh::new();
    assert_eq!(m.add_cap(StrokeCap::Butt), 0);
    assert_eq!(m.vertex_count(), 0);
    assert!(m.indices().is_empty());
    assert_eq!(m.add_cap(StrokeCap::Square), 0);
    assert_eq!(m.indices(), &vec![0, 1, 2, 1, 3, 2]);
    assert_eq!(m.add_cap(StrokeCap::Round), 4);
    assert_eq!(m.vertex_count(), 4 + 2 * (ROUND_STEPS + 2));
}
