use mickey::stencil::{
    clip_passes, clip_policy, cover_policy, depth_stencil_state, needs_stencil_pass, path_passes,
    state_for_clip_even_odd_difference, state_for_complex_even_odd, state_for_stencil_mask,
    ClipOp, CompareFunction, PassGeometry, PathFillType, RenderPass, StencilOperation,
    StencilPolicy, VertexMode,
};

#[test]
fn convex_and_stroke_skip_stencil_pass() {
    assert!(!needs_stencil_pass(VertexMode::Convex));
    assert!(!needs_stencil_pass(VertexMode::NonOverlap));
    assert_eq!(
        path_passes(VertexMode::Convex),
        vec![RenderPass { policy: StencilPolicy::ConvexFill, geometry: PassGeometry::Mesh, color: true }]
    );
    assert_eq!(path_passes(VertexMode::NonOverlap)[0].policy, StencilPolicy::NoOverlap);
}

#[test]
fn complex_fill_stencils_then_covers() {
    assert_eq!(
        path_passes(VertexMode::Complex),
        vec![
            RenderPass { policy: StencilPolicy::StencilMask, geometry: PassGeometry::Mesh, color: false },
            RenderPass { policy: StencilPolicy::ComplexWinding, geometry: PassGeometry::Mesh, color: true },
        ]
    );
    assert_eq!(cover_policy(VertexMode::EvenOddFill), StencilPolicy::ComplexEvenOdd);
}

#[test]
fn stencil_mask_counts_winding() {
    let s = state_for_stencil_mask();
    assert_eq!(s.front.pass_op, StencilOperation::IncrementWrap);
    assert_eq!(s.back.pass_op, StencilOperation::DecrementWrap);
    assert_eq!(s.front.compare, CompareFunction::Always);
    assert!(!s.depth_write_enabled);
    assert_eq!(s.depth_compare, CompareFunction::Greater);
}

#[test]
fn even_odd_reads_one_bit() {
    let s = state_for_complex_even_odd();
    assert_eq!(s.read_mask, 0x01);
    assert_eq!(s.write_mask, 0xff);
    assert_eq!(s.front.compare, CompareFunction::NotEqual);
    assert_eq!(depth_stencil_state(StencilPolicy::ComplexWinding).read_mask, 0xff);
}

#[test]
fn clip_policies_cover_all_combinations() {
    assert_eq!(clip_policy(ClipOp::Intersect, PathFillType::Winding), StencilPolicy::ClipIntersect);
    assert_eq!(clip_policy(ClipOp::Intersect, PathFillType::EvenOdd), StencilPolicy::ClipIntersectEvenOdd);
    assert_eq!(clip_policy(ClipOp::Difference, PathFillType::Winding), StencilPolicy::ClipDifference);
    assert_eq!(
        depth_stencil_state(clip_policy(ClipOp::Difference, PathFillType::EvenOdd)),
        state_for_clip_even_odd_difference()
    );
    assert_eq!(depth_stencil_state(StencilPolicy::ClipIntersect).front.compare, CompareFunction::Equal);
}

#[test]
fn intersect_clip_covers_viewport_difference_covers_path() {
    let i = clip_passes(ClipOp::Intersect, PathFillType::Winding);
    assert_eq!(i[0].policy, StencilPolicy::StencilMask);
    assert_eq!(i[1].geometry, PassGeometry::Viewport);
    let d = clip_passes(ClipOp::Difference, PathFillType::EvenOdd);
    assert_eq!(d[1].geometry, PassGeometry::Mesh);
    assert_eq!(d[1].policy, StencilPolicy::ClipDifferenceEvenOdd);
    assert!(!d[1].color);
}
