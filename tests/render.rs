use mickey::render::{
    fragment_for, gradient_is_usable, renderer_for, ColorSource, DrawKind, FragmentKind, RasterKind,
    RendererKind,
};
use mickey::stencil::ClipOp;

#[test]
fn gradient_with_one_color_degrades_to_black() {
    assert!(!gradient_is_usable(1, 0));
    assert_eq!(fragment_for(ColorSource::LinearGradient { colors: 1, stops: 0 }), FragmentKind::Black);
}

#[test]
fn gradient_with_mismatched_stops_degrades_to_black() {
    assert!(!gradient_is_usable(3, 2));
    assert_eq!(fragment_for(ColorSource::RadialGradient { colors: 3, stops: 2 }), FragmentKind::Black);
}

#[test]
fn usable_gradients_keep_their_kind() {
    assert_eq!(
        fragment_for(ColorSource::LinearGradient { colors: 2, stops: 0 }),
        FragmentKind::LinearGradient
    );
    assert_eq!(
        fragment_for(ColorSource::RadialGradient { colors: 3, stops: 3 }),
        FragmentKind::RadialGradient
    );
    assert_eq!(fragment_for(ColorSource::Solid), FragmentKind::SolidColor);
}

#[test]
fn renderer_per_entry_kind() {
    assert_eq!(
        renderer_for(DrawKind::Path { raster: RasterKind::Stroke, color: ColorSource::Solid }),
        RendererKind::Path { raster: RasterKind::Stroke, fragment: FragmentKind::SolidColor }
    );
    assert_eq!(
        renderer_for(DrawKind::Image),
        RendererKind::Path { raster: RasterKind::Fill, fragment: FragmentKind::Texture }
    );
    assert_eq!(renderer_for(DrawKind::Clip(ClipOp::Difference)), RendererKind::Clip(ClipOp::Difference));
}

use mickey::render::passes_for;
use mickey::stencil::{PassGeometry, PathFillType, StencilPolicy, VertexMode};

#[test]
fn empty_mesh_issues_no_passes() {
    let r = RendererKind::Path { raster: RasterKind::Fill, fragment: FragmentKind::SolidColor };
    assert!(passes_for(r, VertexMode::Complex, PathFillType::Winding, true).is_empty());
    assert!(passes_for(RendererKind::Clip(ClipOp::Intersect), VertexMode::Convex, PathFillType::Winding, true).is_empty());
}

#[test]
fn clip_renderer_uses_clip_passes() {
    let p = passes_for(RendererKind::Clip(ClipOp::Intersect), VertexMode::Convex, PathFillType::EvenOdd, false);
    assert_eq!(p.len(), 2);
    assert_eq!(p[0].policy, StencilPolicy::StencilMask);
    assert_eq!(p[1].policy, StencilPolicy::ClipIntersectEvenOdd);
    assert_eq!(p[1].geometry, PassGeometry::Viewport);
}

#[test]
fn draw_renderer_uses_mesh_classification() {
    let r = RendererKind::Path { raster: RasterKind::Stroke, fragment: FragmentKind::SolidColor };
    let p = passes_for(r, VertexMode::NonOverlap, PathFillType::Winding, false);
    assert_eq!(p.len(), 1);
    assert_eq!(p[0].policy, StencilPolicy::NoOverlap);
}
