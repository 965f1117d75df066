//! Depth-stencil configurations of the stencil-and-cover renderer.
//!
//! Every configuration is a named pure function of a small policy enum, so
//! that the mapping from a mesh classification or a clip operation to GPU
//! state is total and can be audited in one place.
use vstd::prelude::*;

verus! {

/// How a rasterized mesh may be drawn without double shading.
#[derive(Debug, Clone, Copy, PartialEq, Eq, Structural)]
pub enum VertexMode {
    /// A single winding direction: no triangle overlaps another.
    Convex,
    /// Both winding directions under the non-zero rule.
    Complex,
    /// Any mesh filled under the even-odd rule.
    EvenOddFill,
    /// Stroke geometry, which never overlaps itself.
    NonOverlap,
}

/// The rule that decides which points lie inside a path.
#[derive(Debug, Clone, Copy, PartialEq, Eq, Structural, Default)]
pub enum PathFillType {
    /// Non-zero winding rule.
    #[default]
    Winding,
    /// Even-odd parity rule.
    EvenOdd,
}

/// The operation a clip performs on the current clip region.
#[derive(Debug, Clone, Copy, PartialEq, Eq, Structural, Default)]
pub enum ClipOp {
    /// The new region is the intersection of the old one and the path.
    #[default]
    Intersect,
    /// The new region is the old one with the path carved out.
    Difference,
}

/// Comparison used by the depth and stencil tests.
#[derive(Debug, Clone, Copy, PartialEq, Eq, Structural)]
pub enum CompareFunction {
    Never,
    Less,
    Equal,
    LessEqual,
    Greater,
    NotEqual,
    GreaterEqual,
    Always,
}

/// What a stencil test does to the stored value.
#[derive(Debug, Clone, Copy, PartialEq, Eq, Structural)]
pub enum StencilOperation {
    Keep,
    Zero,
    Replace,
    Invert,
    IncrementClamp,
    DecrementClamp,
    IncrementWrap,
    DecrementWrap,
}

/// Stencil behaviour for one triangle facing.
#[derive(Debug, Clone, Copy, PartialEq, Eq, Structural)]
pub struct StencilFace {
    pub compare: CompareFunction,
    pub fail_op: StencilOperation,
    pub depth_fail_op: StencilOperation,
    pub pass_op: StencilOperation,
}

/// A complete depth-stencil configuration. The attachment always has an
/// 8-bit stencil aspect and depth is compared with `Greater`.
#[derive(Debug, Clone, Copy, PartialEq, Eq, Structural)]
pub struct DepthStencil {
    pub depth_write_enabled: bool,
    pub depth_compare: CompareFunction,
    pub front: StencilFace,
    pub back: StencilFace,
    pub read_mask: u32,
    pub write_mask: u32,
}

/// The named stencil policies used by path fills, strokes and clips.
#[derive(Debug, Clone, Copy, PartialEq, Eq, Structural)]
pub enum StencilPolicy {
    ConvexFill,
    ComplexWinding,
    ComplexEvenOdd,
    NoOverlap,
    StencilMask,
    ClipIntersect,
    ClipIntersectEvenOdd,
    ClipDifference,
    ClipDifferenceEvenOdd,
}

/// Which geometry a render pass draws.
#[derive(Debug, Clone, Copy, PartialEq, Eq, Structural)]
pub enum PassGeometry {
    /// The rasterized triangles of the path itself.
    Mesh,
    /// A quad covering the whole viewport.
    Viewport,
}

/// One GPU draw of a renderer: a state and the geometry drawn with it.
#[derive(Debug, Clone, Copy, PartialEq, Eq, Structural)]
pub struct RenderPass {
    pub policy: StencilPolicy,
    pub geometry: PassGeometry,
    /// Whether the pass writes color.
    pub color: bool,
}

pub open spec fn face(
    compare: CompareFunction,
    fail_op: StencilOperation,
    pass_op: StencilOperation,
) -> StencilFace {
    StencilFace { compare, fail_op, depth_fail_op: StencilOperation::Keep, pass_op }
}

pub open spec fn symmetric(depth_write: bool, f: StencilFace, read_mask: u32) -> DepthStencil {
    DepthStencil {
        depth_write_enabled: depth_write,
        depth_compare: CompareFunction::Greater,
        front: f,
        back: f,
        read_mask,
        write_mask: 0xff,
    }
}

/// The configuration that each policy stands for.
pub open spec fn policy_state(p: StencilPolicy) -> DepthStencil {
    match p {
        StencilPolicy::ConvexFill => symmetric(
            false,
            face(CompareFunction::Always, StencilOperation::Keep, StencilOperation::Keep),
            0xff,
        ),
        StencilPolicy::ComplexWinding => symmetric(
            false,
            face(CompareFunction::NotEqual, StencilOperation::Keep, StencilOperation::Replace),
            0xff,
        ),
        StencilPolicy::ComplexEvenOdd => symmetric(
            false,
            face(CompareFunction::NotEqual, StencilOperation::Replace, StencilOperation::Replace),
            0x01,
        ),
        StencilPolicy::NoOverlap => symmetric(
            true,
            face(CompareFunction::Always, StencilOperation::Keep, StencilOperation::Keep),
            0xff,
        ),
        StencilPolicy::StencilMask => DepthStencil {
            depth_write_enabled: false,
            depth_compare: CompareFunction::Greater,
            front: face(
                CompareFunction::Always,
                StencilOperation::Keep,
                StencilOperation::IncrementWrap,
            ),
            back: face(
                CompareFunction::Always,
                StencilOperation::Keep,
                StencilOperation::DecrementWrap,
            ),
            read_mask: 0xff,
            write_mask: 0xff,
        },
        StencilPolicy::ClipIntersect => symmetric(
            true,
            face(CompareFunction::Equal, StencilOperation::Replace, StencilOperation::Replace),
            0xff,
        ),
        StencilPolicy::ClipIntersectEvenOdd => symmetric(
            true,
            face(CompareFunction::Equal, StencilOperation::Replace, StencilOperation::Replace),
            0x01,
        ),
        StencilPolicy::ClipDifference => symmetric(
            true,
            face(CompareFunction::NotEqual, StencilOperation::Replace, StencilOperation::Replace),
            0xff,
        ),
        StencilPolicy::ClipDifferenceEvenOdd => symmetric(
            true,
            face(CompareFunction::NotEqual, StencilOperation::Replace, StencilOperation::Replace),
            0x01,
        ),
    }
}

/// The policy of the cover pass for a mesh of the given classification.
pub open spec fn cover_policy_spec(mode: VertexMode) -> StencilPolicy {
    match mode {
        VertexMode::Convex => StencilPolicy::ConvexFill,
        VertexMode::Complex => StencilPolicy::ComplexWinding,
        VertexMode::EvenOddFill => StencilPolicy::ComplexEvenOdd,
        VertexMode::NonOverlap => StencilPolicy::NoOverlap,
    }
}

/// Whether a mesh of the given classification needs a stencil pass first.
pub open spec fn needs_stencil_spec(mode: VertexMode) -> bool {
    mode == VertexMode::Complex || mode == VertexMode::EvenOddFill
}

/// The policy of the second pass of a clip.
pub open spec fn clip_policy_spec(op: ClipOp, rule: PathFillType) -> StencilPolicy {
    match (op, rule) {
        (ClipOp::Intersect, PathFillType::Winding) => StencilPolicy::ClipIntersect,
        (ClipOp::Intersect, PathFillType::EvenOdd) => StencilPolicy::ClipIntersectEvenOdd,
        (ClipOp::Difference, PathFillType::Winding) => StencilPolicy::ClipDifference,
        (ClipOp::Difference, PathFillType::EvenOdd) => StencilPolicy::ClipDifferenceEvenOdd,
    }
}

/// The passes that draw a path of the given classification.
pub open spec fn path_passes_spec(mode: VertexMode) -> Seq<RenderPass> {
    let cover = RenderPass {
        policy: cover_policy_spec(mode),
        geometry: PassGeometry::Mesh,
        color: true,
    };
    if needs_stencil_spec(mode) {
        seq![
            RenderPass {
                policy: StencilPolicy::StencilMask,
                geometry: PassGeometry::Mesh,
                color: false,
            },
            cover,
        ]
    } else {
        seq![cover]
    }
}

/// The passes that apply a clip: the mask of the path, then the clip policy
/// drawn over the viewport (intersect) or over the path itself (difference).
pub open spec fn clip_passes_spec(op: ClipOp, rule: PathFillType) -> Seq<RenderPass> {
    seq![
        RenderPass {
            policy: StencilPolicy::StencilMask,
            geometry: PassGeometry::Mesh,
            color: false,
        },
        RenderPass {
            policy: clip_policy_spec(op, rule),
            geometry: if op == ClipOp::Intersect {
                PassGeometry::Viewport
            } else {
                PassGeometry::Mesh
            },
            color: false,
        },
    ]
}

fn make_face(
    compare: CompareFunction,
    fail_op: StencilOperation,
    pass_op: StencilOperation,
) -> (r: StencilFace)
    ensures
        r == face(compare, fail_op, pass_op),
{
    StencilFace { compare, fail_op, depth_fail_op: StencilOperation::Keep, pass_op }
}

fn make_symmetric(depth_write: bool, f: StencilFace, read_mask: u32) -> (r: DepthStencil)
    ensures
        r == symmetric(depth_write, f, read_mask),
{
    DepthStencil {
        depth_write_enabled: depth_write,
        depth_compare: CompareFunction::Greater,
        front: f,
        back: f,
        read_mask,
        write_mask: 0xff,
    }
}

/// Configuration of a convex fill: a single pass with no stencil test.
pub fn state_for_convex_polygon() -> (r: DepthStencil)
    ensures
        r == policy_state(StencilPolicy::ConvexFill),
{
    let f = make_face(CompareFunction::Always, StencilOperation::Keep, StencilOperation::Keep);
    make_symmetric(false, f, 0xff)
}

/// Cover pass of a non-zero winding fill: passes where the winding count is
/// not zero and resets it.
pub fn state_for_complex_winding() -> (r: DepthStencil)
    ensures
        r == policy_state(StencilPolicy::ComplexWinding),
{
    let f = make_face(CompareFunction::NotEqual, StencilOperation::Keep, StencilOperation::Replace);
    make_symmetric(false, f, 0xff)
}

/// Cover pass of an even-odd fill: tests the lowest stencil bit only.
pub fn state_for_complex_even_odd() -> (r: DepthStencil)
    ensures
        r == policy_state(StencilPolicy::ComplexEvenOdd),
{
    let f = make_face(
        CompareFunction::NotEqual,
        StencilOperation::Replace,
        StencilOperation::Replace,
    );
    make_symmetric(false, f, 0x01)
}

/// Single pass of a stroke, which never overlaps itself.
pub fn state_for_no_overlap() -> (r: DepthStencil)
    ensures
        r == policy_state(StencilPolicy::NoOverlap),
{
    let f = make_face(CompareFunction::Always, StencilOperation::Keep, StencilOperation::Keep);
    make_symmetric(true, f, 0xff)
}

/// Stencil pass: front faces increment, back faces decrement, both wrapping.
pub fn state_for_stencil_mask() -> (r: DepthStencil)
    ensures
        r == policy_state(StencilPolicy::StencilMask),
{
    DepthStencil {
        depth_write_enabled: false,
        depth_compare: CompareFunction::Greater,
        front: make_face(
            CompareFunction::Always,
            StencilOperation::Keep,
            StencilOperation::IncrementWrap,
        ),
        back: make_face(
            CompareFunction::Always,
            StencilOperation::Keep,
            StencilOperation::DecrementWrap,
        ),
        read_mask: 0xff,
        write_mask: 0xff,
    }
}

/// Second pass of a non-zero intersect clip.
pub fn state_for_clip_intersect() -> (r: DepthStencil)
    ensures
        r == policy_state(StencilPolicy::ClipIntersect),
{
    let f = make_face(CompareFunction::Equal, StencilOperation::Replace, StencilOperation::Replace);
    make_symmetric(true, f, 0xff)
}

/// Second pass of an even-odd intersect clip.
pub fn state_for_clip_even_odd_intersect() -> (r: DepthStencil)
    ensures
        r == policy_state(StencilPolicy::ClipIntersectEvenOdd),
{
    let f = make_face(CompareFunction::Equal, StencilOperation::Replace, StencilOperation::Replace);
    make_symmetric(true, f, 0x01)
}

/// Second pass of a non-zero difference clip.
pub fn state_for_clip_difference() -> (r: DepthStencil)
    ensures
        r == policy_state(StencilPolicy::ClipDifference),
{
    let f = make_face(
        CompareFunction::NotEqual,
        StencilOperation::Replace,
        StencilOperation::Replace,
    );
    make_symmetric(true, f, 0xff)
}

/// Second pass of an even-odd difference clip.
pub fn state_for_clip_even_odd_difference() -> (r: DepthStencil)
    ensures
        r == policy_state(StencilPolicy::ClipDifferenceEvenOdd),
{
    let f = make_face(
        CompareFunction::NotEqual,
        StencilOperation::Replace,
        StencilOperation::Replace,
    );
    make_symmetric(true, f, 0x01)
}

/// The configuration of a policy.
pub fn depth_stencil_state(p: StencilPolicy) -> (r: DepthStencil)
    ensures
        r == policy_state(p),
{
    match p {
        StencilPolicy::ConvexFill => state_for_convex_polygon(),
        StencilPolicy::ComplexWinding => state_for_complex_winding(),
        StencilPolicy::ComplexEvenOdd => state_for_complex_even_odd(),
        StencilPolicy::NoOverlap => state_for_no_overlap(),
        StencilPolicy::StencilMask => state_for_stencil_mask(),
        StencilPolicy::ClipIntersect => state_for_clip_intersect(),
        StencilPolicy::ClipIntersectEvenOdd => state_for_clip_even_odd_intersect(),
        StencilPolicy::ClipDifference => state_for_clip_difference(),
        StencilPolicy::ClipDifferenceEvenOdd => state_for_clip_even_odd_difference(),
    }
}

/// The policy of the cover pass of a path with the given classification.
pub fn cover_policy(mode: VertexMode) -> (r: StencilPolicy)
    ensures
        r == cover_policy_spec(mode),
{
    match mode {
        VertexMode::Convex => StencilPolicy::ConvexFill,
        VertexMode::Complex => StencilPolicy::ComplexWinding,
        VertexMode::EvenOddFill => StencilPolicy::ComplexEvenOdd,
        VertexMode::NonOverlap => StencilPolicy::NoOverlap,
    }
}

/// Whether a stencil pass must precede the cover pass.
pub fn needs_stencil_pass(mode: VertexMode) -> (r: bool)
    ensures
        r == needs_stencil_spec(mode),
{
    match mode {
        VertexMode::Complex | VertexMode::EvenOddFill => true,
        _ => false,
    }
}

/// The policy of the second pass of a clip.
pub fn clip_policy(op: ClipOp, rule: PathFillType) -> (r: StencilPolicy)
    ensures
        r == clip_policy_spec(op, rule),
{
    match (op, rule) {
        (ClipOp::Intersect, PathFillType::Winding) => StencilPolicy::ClipIntersect,
        (ClipOp::Intersect, PathFillType::EvenOdd) => StencilPolicy::ClipIntersectEvenOdd,
        (ClipOp::Difference, PathFillType::Winding) => StencilPolicy::ClipDifference,
        (ClipOp::Difference, PathFillType::EvenOdd) => StencilPolicy::ClipDifferenceEvenOdd,
    }
}

/// The passes, in order, that draw a path mesh of the given classification.
pub fn path_passes(mode: VertexMode) -> (r: Vec<RenderPass>)
    ensures
        r@ == path_passes_spec(mode),
{
    let mut r: Vec<RenderPass> = Vec::new();
    if needs_stencil_pass(mode) {
        r.push(
            RenderPass {
                policy: StencilPolicy::StencilMask,
                geometry: PassGeometry::Mesh,
                color: false,
            },
        );
    }
    r.push(RenderPass { policy: cover_policy(mode), geometry: PassGeometry::Mesh, color: true });
    assert(r@ =~= path_passes_spec(mode));
    r
}

/// The passes, in order, that apply a clip path.
pub fn clip_passes(op: ClipOp, rule: PathFillType) -> (r: Vec<RenderPass>)
    ensures
        r@ == clip_passes_spec(op, rule),
{
    let mut r: Vec<RenderPass> = Vec::new();
    r.push(
        RenderPass { policy: StencilPolicy::StencilMask, geometry: PassGeometry::Mesh, color: false },
    );
    let geometry = match op {
        ClipOp::Intersect => PassGeometry::Viewport,
        ClipOp::Difference => PassGeometry::Mesh,
    };
    r.push(RenderPass { policy: clip_policy(op, rule), geometry, color: false });
    assert(r@ =~= clip_passes_spec(op, rule));
    r
}

} // verus!
