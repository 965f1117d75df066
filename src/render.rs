//! Choice of rasterizer and shading for each recorded entry at replay.
//!
//! A draw is rasterized as a fill or as a stroke and shaded by a fragment
//! chosen from its color source; an image is a filled rectangle shaded by a
//! texture; a clip is a filled path that only writes the stencil mask. A
//! gradient that cannot be evaluated (fewer than two colors, or a stop list
//! whose length differs from the color list) degrades to opaque black so a
//! single bad paint never aborts a frame.
use vstd::prelude::*;
use crate::stencil::{
    clip_passes, clip_passes_spec, path_passes, path_passes_spec, ClipOp, PathFillType, RenderPass,
    VertexMode,
};

verus! {

/// Where a draw's color comes from, with the sizes that decide whether a
/// gradient is usable.
#[derive(Debug, Clone, Copy, PartialEq, Eq, Structural)]
pub enum ColorSource {
    Solid,
    LinearGradient { colors: usize, stops: usize },
    RadialGradient { colors: usize, stops: usize },
}

/// How a draw's geometry is turned into triangles.
#[derive(Debug, Clone, Copy, PartialEq, Eq, Structural)]
pub enum RasterKind {
    Fill,
    Stroke,
}

/// The shading strategy of a renderer.
#[derive(Debug, Clone, Copy, PartialEq, Eq, Structural)]
pub enum FragmentKind {
    /// The paint's own solid color.
    SolidColor,
    /// Opaque black, in place of an unusable gradient.
    Black,
    LinearGradient,
    RadialGradient,
    Texture,
}

/// What a recorded entry asks for.
#[derive(Debug, Clone, Copy, PartialEq, Eq, Structural)]
pub enum DrawKind {
    Path { raster: RasterKind, color: ColorSource },
    Image,
    Clip(ClipOp),
}

/// The renderer built for an entry.
#[derive(Debug, Clone, Copy, PartialEq, Eq, Structural)]
pub enum RendererKind {
    /// Rasterizes with `raster` and shades with `fragment`.
    Path { raster: RasterKind, fragment: FragmentKind },
    /// Fills the clip path into the stencil mask with `op`.
    Clip(ClipOp),
}

/// A gradient needs two colors, and either no stops or one per color.
pub open spec fn gradient_usable(colors: int, stops: int) -> bool {
    colors >= 2 && (stops == 0 || stops == colors)
}

pub open spec fn fragment_spec(c: ColorSource) -> FragmentKind {
    match c {
        ColorSource::Solid => FragmentKind::SolidColor,
        ColorSource::LinearGradient { colors, stops } => if gradient_usable(
            colors as int,
            stops as int,
        ) {
            FragmentKind::LinearGradient
        } else {
            FragmentKind::Black
        },
        ColorSource::RadialGradient { colors, stops } => if gradient_usable(
            colors as int,
            stops as int,
        ) {
            FragmentKind::RadialGradient
        } else {
            FragmentKind::Black
        },
    }
}

pub open spec fn renderer_spec(d: DrawKind) -> RendererKind {
    match d {
        DrawKind::Path { raster, color } => RendererKind::Path {
            raster,
            fragment: fragment_spec(color),
        },
        DrawKind::Image => RendererKind::Path {
            raster: RasterKind::Fill,
            fragment: FragmentKind::Texture,
        },
        DrawKind::Clip(op) => RendererKind::Clip(op),
    }
}

/// Whether a gradient with `colors` colors and `stops` stops can be drawn.
pub fn gradient_is_usable(colors: usize, stops: usize) -> (r: bool)
    ensures
        r == gradient_usable(colors as int, stops as int),
{
    colors >= 2 && (stops == 0 || stops == colors)
}

/// The fragment that shades a draw with color source `c`.
pub fn fragment_for(c: ColorSource) -> (r: FragmentKind)
    ensures
        r == fragment_spec(c),
{
    match c {
        ColorSource::Solid => FragmentKind::SolidColor,
        ColorSource::LinearGradient { colors, stops } => if gradient_is_usable(colors, stops) {
            FragmentKind::LinearGradient
        } else {
            FragmentKind::Black
        },
        ColorSource::RadialGradient { colors, stops } => if gradient_is_usable(colors, stops) {
            FragmentKind::RadialGradient
        } else {
            FragmentKind::Black
        },
    }
}

/// The renderer built for an entry of kind `d`.
pub fn renderer_for(d: DrawKind) -> (r: RendererKind)
    ensures
        r == renderer_spec(d),
{
    match d {
        DrawKind::Path { raster, color } => RendererKind::Path {
            raster,
            fragment: fragment_for(color),
        },
        DrawKind::Image => RendererKind::Path {
            raster: RasterKind::Fill,
            fragment: FragmentKind::Texture,
        },
        DrawKind::Clip(op) => RendererKind::Clip(op),
    }
}

/// The passes a renderer issues for its mesh: none for an empty mesh (an
/// empty rectangle, a degenerate path), the clip passes for a clip, and the
/// passes of the mesh's classification for a draw.
pub open spec fn passes_spec(
    renderer: RendererKind,
    mode: VertexMode,
    rule: PathFillType,
    mesh_empty: bool,
) -> Seq<RenderPass> {
    if mesh_empty {
        Seq::empty()
    } else {
        match renderer {
            RendererKind::Clip(op) => clip_passes_spec(op, rule),
            RendererKind::Path { .. } => path_passes_spec(mode),
        }
    }
}

/// The passes issued by `renderer` for a mesh classified `mode`, filled
/// under `rule`.
pub fn passes_for(
    renderer: RendererKind,
    mode: VertexMode,
    rule: PathFillType,
    mesh_empty: bool,
) -> (r: Vec<RenderPass>)
    ensures
        r@ == passes_spec(renderer, mode, rule, mesh_empty),
{
    if mesh_empty {
        let r: Vec<RenderPass> = Vec::new();
        assert(r@ =~= Seq::<RenderPass>::empty());
        r
    } else {
        match renderer {
            RendererKind::Clip(op) => clip_passes(op, rule),
            RendererKind::Path { .. } => path_passes(mode),
        }
    }
}

} // verus!
