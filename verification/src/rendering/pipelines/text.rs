//! The glyph pipelines.
use vstd::prelude::*;

verus! {

/// Which glyphs a text pipeline paints: single-channel masks tinted with the highlight
/// colors, or color emoji.
#[derive(Debug, Clone, Copy, PartialEq, Eq)]
pub enum Kind {
    Monochrome,
    Emoji,
}

} // verus!
