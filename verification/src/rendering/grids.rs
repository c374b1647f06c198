//! What the renderer does with each grid of the UI on an update.
use vstd::prelude::*;

verus! {

/// How the rendered copy of a grid follows the UI's grid.
#[derive(Debug, Clone, Copy, PartialEq, Eq)]
pub enum GridRefresh {
    /// The contents did not change
    Keep,
    /// The contents changed by scrolling this many rows: animate the scroll to them
    Scroll(i64),
    /// The contents changed in place: show them as they are
    Replace,
}

/// How to follow a grid whose contents changed or not, and scrolled by `scroll_delta` rows.
pub fn grid_refresh(contents_changed: bool, scroll_delta: i64) -> (r: GridRefresh)
    ensures
        r == if !contents_changed {
            GridRefresh::Keep
        } else if scroll_delta != 0 {
            GridRefresh::Scroll(scroll_delta)
        } else {
            GridRefresh::Replace
        },
{
    if !contents_changed {
        GridRefresh::Keep
    } else if scroll_delta != 0 {
        GridRefresh::Scroll(scroll_delta)
    } else {
        GridRefresh::Replace
    }
}

} // verus!
