use mickey::fill::{FillMesh, Orientation};
use mickey::stencil::{PathFillType, VertexMode};

fn orientation(a: (f32, f32), b: (f32, f32), c: (f32, f32)) -> Orientation {
    let cross = (b.0 - a.0) * (c.1 - a.1) - (b.1 - a.1) * (c.0 - a.0);
    if cross > 0.0 {
        Orientation::CW
    } else if cross < 0.0 {
        Orientation::CCW
    } else {
        Orientation::Linear
    }
}

fn fan(points: &[(f32, f32)]) -> FillMesh {
    let mut mesh = FillMesh::new();
    mesh.begin_contour(0, 1);
    for i in 2..points.len() {
        let first = points[mesh.first_point()];
        let prev = points[mesh.pending_point()];
        mesh.add_point(i, orientation(first, prev, points[i]));
    }
    mesh
}

#[test]
fn rectangle_is_convex() {
    let mesh = fan(&[(0.0, 0.0), (10.0, 0.0), (10.0, 10.0), (0.0, 10.0)]);
    assert_eq!(mesh.classify(PathFillType::Winding), VertexMode::Convex);
    assert_eq!(mesh.front_count(), 2);
    assert_eq!(mesh.back_count(), 0);
    assert_eq!(mesh.indices(), &vec![0, 1, 2, 0, 2, 3]);
    assert_eq!(mesh.vertex_points(), &vec![0, 1, 2, 3]);
}

#[test]
fn figure_eight_is_complex() {
    let mesh = fan(&[(0.0, 0.0), (10.0, 10.0), (10.0, 0.0), (0.0, 10.0)]);
    assert_eq!(mesh.front_count(), 1);
    assert_eq!(mesh.back_count(), 1);
    assert_eq!(mesh.classify(PathFillType::Winding), VertexMode::Complex);
}

#[test]
fn even_odd_ignores_winding_counts() {
    let eight = fan(&[(0.0, 0.0), (10.0, 10.0), (10.0, 0.0), (0.0, 10.0)]);
    assert_eq!(eight.classify(PathFillType::EvenOdd), VertexMode::EvenOddFill);
    let rect = fan(&[(0.0, 0.0), (10.0, 0.0), (10.0, 10.0), (0.0, 10.0)]);
    assert_eq!(rect.classify(PathFillType::EvenOdd), VertexMode::EvenOddFill);
}

#[test]
fn convex_pentagon_has_three_triangles() {
    let mesh = fan(&[(0.0, 0.0), (4.0, 0.0), (6.0, 3.0), (2.0, 6.0), (-2.0, 3.0)]);
    assert_eq!(mesh.triangle_count(), 3);
    assert_eq!(mesh.indices().len(), 9);
    assert_eq!(mesh.classify(PathFillType::Winding), VertexMode::Convex);
}

#[test]
fn collinear_point_replaces_pending_vertex() {
    let mesh = fan(&[(0.0, 0.0), (5.0, 0.0), (10.0, 0.0), (10.0, 10.0)]);
    assert_eq!(mesh.triangle_count(), 1);
    assert_eq!(mesh.vertex_points(), &vec![0, 2, 3]);
    assert_eq!(mesh.indices(), &vec![0, 1, 2]);
}

#[test]
fn second_contour_fans_from_its_own_first_vertex() {
    let mut mesh = FillMesh::new();
    mesh.begin_contour(0, 1);
    mesh.add_point(2, Orientation::CW);
    mesh.begin_contour(3, 4);
    mesh.add_point(5, Orientation::CCW);
    assert_eq!(mesh.indices(), &vec![0, 1, 2, 3, 4, 5]);
    assert_eq!(mesh.classify(PathFillType::Winding), VertexMode::Complex);
}

#[test]
fn empty_mesh_is_convex() {
    let mesh = FillMesh::new();
    assert_eq!(mesh.triangle_count(), 0);
    assert_eq!(mesh.classify(PathFillType::Winding), VertexMode::Convex);
}
