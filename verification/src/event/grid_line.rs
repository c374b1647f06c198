use vstd::prelude::*;

verus! {

/// One cell of a `grid_line` event: its text, the highlight it switches to, and how many
/// times it repeats.
#[derive(Debug, Clone, PartialEq, Eq)]
pub struct Cell {
    pub text: String,
    pub hl_id: Option<u64>,
    pub repeat: Option<u64>,
}

} // verus!
