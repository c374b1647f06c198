//! What the grid shaders read.
use crate::util::vec2::Vec2;
use vstd::prelude::*;

verus! {

/// A glyph of the grid: its index in the glyph atlas and its highlight.
#[derive(Debug, Clone, Copy, Default, PartialEq, Eq)]
pub struct GlyphInfo {
    pub glyph_index: u32,
    pub highlight_index: u32,
}

/// The layout of the grid on the surface.
#[derive(Debug, Clone, Copy, Default, PartialEq, Eq)]
pub struct GridInfo {
    pub surface_size: Vec2<u32>,
    pub cell_size: Vec2<u32>,
    pub grid_width: u32,
    pub baseline: u32,
}

} // verus!
