//! Where a grid's window is shown.
use crate::event::{Anchor, CellCoord};
use crate::util::vec2::Vec2;
use vstd::prelude::*;

verus! {

#[derive(Debug, Copy, Clone, PartialEq, Eq)]
pub enum Window {
    Unset,
    Normal(NormalWindow),
    Floating(FloatingWindow),
    Messages { row: u16 },
    External,
}

/// A window placed on the base grid.
#[derive(Debug, Copy, Clone, PartialEq, Eq)]
pub struct NormalWindow {
    /// Column and row of the top left cell.
    pub start_col: u64,
    pub start_row: u64,
    pub width: u64,
    pub height: u64,
}

/// A window placed relative to a cell of another grid.
#[derive(Debug, Copy, Clone, PartialEq, Eq)]
pub struct FloatingWindow {
    pub anchor: Anchor,
    pub anchor_grid: u64,
    pub anchor_col: CellCoord,
    pub anchor_row: CellCoord,
    pub focusable: bool,
}

/// Where a window's grid goes, in cells: at `(col, row)` less `shift`, relative to the
/// grid `anchor_grid` where there is one, else to the screen.
#[derive(Debug, Copy, Clone, PartialEq, Eq)]
pub struct WindowOffset {
    pub col: CellCoord,
    pub row: CellCoord,
    pub shift: Vec2<u64>,
    pub anchor_grid: Option<u64>,
}

/// The corner of a grid that an anchor names, as `(0 or 1, 0 or 1)` of its size.
pub open spec fn corner(anchor: Anchor) -> (u64, u64) {
    match anchor {
        Anchor::Nw => (0, 0),
        Anchor::Ne => (1, 0),
        Anchor::Sw => (0, 1),
        Anchor::Se => (1, 1),
    }
}

impl Window {
    /// Where the grid of this window goes, given the grid's size: a normal window at its
    /// start, the message window at its row, a floating window with its anchor corner at
    /// its anchor position on its anchor grid, and any other at the origin.
    pub fn offset(&self, grid_size: Vec2<u64>) -> (r: WindowOffset)
        ensures
            r == match *self {
                Window::Unset | Window::External => WindowOffset {
                    col: CellCoord::Whole(0),
                    row: CellCoord::Whole(0),
                    shift: Vec2 { x: 0, y: 0 },
                    anchor_grid: None,
                },
                Window::Messages { row } => WindowOffset {
                    col: CellCoord::Whole(0),
                    row: CellCoord::Whole(row as u64),
                    shift: Vec2 { x: 0, y: 0 },
                    anchor_grid: None,
                },
                Window::Normal(w) => WindowOffset {
                    col: CellCoord::Whole(w.start_col),
                    row: CellCoord::Whole(w.start_row),
                    shift: Vec2 { x: 0, y: 0 },
                    anchor_grid: None,
                },
                Window::Floating(w) => WindowOffset {
                    col: w.anchor_col,
                    row: w.anchor_row,
                    shift: Vec2 {
                        x: if corner(w.anchor).0 == 1 { grid_size.x } else { 0 },
                        y: if corner(w.anchor).1 == 1 { grid_size.y } else { 0 },
                    },
                    anchor_grid: Some(w.anchor_grid),
                },
            },
    {
        let origin = WindowOffset {
            col: CellCoord::Whole(0),
            row: CellCoord::Whole(0),
            shift: Vec2::new(0, 0),
            anchor_grid: None,
        };
        match self {
            Window::Unset => origin,
            Window::External => origin,
            Window::Messages { row } => WindowOffset {
                row: CellCoord::Whole(*row as u64),
                ..origin
            },
            Window::Normal(w) => WindowOffset {
                col: CellCoord::Whole(w.start_col),
                row: CellCoord::Whole(w.start_row),
                ..origin
            },
            Window::Floating(w) => {
                let shift = match w.anchor {
                    Anchor::Nw => Vec2::new(0, 0),
                    Anchor::Ne => Vec2::new(grid_size.x, 0),
                    Anchor::Sw => Vec2::new(0, grid_size.y),
                    Anchor::Se => Vec2::new(grid_size.x, grid_size.y),
                };
                WindowOffset {
                    col: w.anchor_col,
                    row: w.anchor_row,
                    shift,
                    anchor_grid: Some(w.anchor_grid),
                }
            },
        }
    }
}

} // verus!
