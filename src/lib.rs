//! A 2D vector-graphics engine that fills arbitrary paths with the
//! stencil-and-cover technique. This crate is its verified core: everything
//! that decides how meshes, clips and depths are laid out, independent of
//! floating-point geometry and of any GPU API.
//!
//! - `verbs`: dropping degenerate moves and closes, splitting into contours.
//! - `fill`: fan triangulation and the convex / complex / even-odd
//!   classification of a fill.
//! - `stroke`: join choice and the index layout of stroke meshes.
//! - `stencil`: the depth-stencil policies and the passes of each draw.
//! - `picture`: the depth-ordered draw list with lazily closed clip scopes.
//! - `render`, `replay`: the renderer chosen for each entry, and depths
//!   across replays.
//! - `stage`: the byte staging buffer of one upload.
//! - `atlas`: skyline packing of glyph atlas regions.
//! - `image`, `text`: bitmaps and font descriptions.
pub mod atlas;
pub mod fill;
pub mod image;
pub mod picture;
pub mod render;
pub mod replay;
pub mod stage;
pub mod stencil;
pub mod stroke;
pub mod text;
pub mod verbs;
