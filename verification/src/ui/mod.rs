//! The UI state that Neovim's UI events build up: its grids, the order they are drawn in,
//! highlights, modes, messages and the command line.
pub mod cmdline;
pub mod grid;
pub mod messages;
pub mod options;
pub mod packed_char;
pub mod print;
pub mod window;

use self::cmdline::Cmdline;
use self::grid::Grid;
use self::messages::Messages;
use self::window::Window;
use self::grid::GridContents;
use crate::event::grid_line::Cell as LineCell;
use self::window::{FloatingWindow, NormalWindow};
use crate::event::{
    default_hl_attr, Anchor, CellCoord, DefaultColorsSet, Event, HlAttrDefine, ModeInfo,
    PopupmenuShow, TablineUpdate,
};
use crate::util::vec2::Vec2;
use vstd::prelude::*;
use vstd::string::*;

verus! {

/// Where the cursor is and how it is shown.
#[derive(Debug, Copy, Clone, PartialEq, Eq)]
pub struct CursorInfo {
    /// The position of the cursor in grid cells
    pub pos: Vec2<u64>,
    /// The grid the cursor is on
    pub grid: u64,
    /// Whether the cursor should be rendered
    pub enabled: bool,
    /// Whether the UI should set the cursor style
    pub style_enabled: bool,
}

impl Default for CursorInfo {
    fn default() -> (r: CursorInfo)
        ensures
            r.pos == (Vec2::<u64> { x: 0, y: 0 }),
            r.grid == 1,
            r.enabled,
            !r.style_enabled,
    {
        CursorInfo { pos: Vec2::new(0, 0), grid: 1, enabled: true, style_enabled: false }
    }
}

/// The grid under the mouse cursor and the cell under it.
#[derive(Debug, Clone, Copy, PartialEq, Eq)]
pub struct GridUnderCursor {
    /// The ID of the grid
    pub grid: u64,
    /// The position of the cursor in grid cells relative to the grid
    pub position: Vec2<u64>,
}

/// The grid ids are strictly increasing.
pub open spec fn grids_sorted(g: Seq<Grid>) -> bool {
    forall|i: int, j: int| 0 <= i < j < g.len() ==> g[i].id < g[j].id
}

/// Some grid has the id.
pub open spec fn has_grid(g: Seq<Grid>, id: u64) -> bool {
    exists|i: int| 0 <= i < g.len() && g[i].id == id
}

/// The grid with the id.
pub open spec fn find_grid(g: Seq<Grid>, id: u64) -> Option<Grid> {
    if has_grid(g, id) {
        Some(g[choose|i: int| 0 <= i < g.len() && g[i].id == id])
    } else {
        None
    }
}

/// No two highlight groups share a name.
pub open spec fn group_names_unique(v: Seq<(String, u64)>) -> bool {
    forall|i: int, j: int| 0 <= i < j < v.len() ==> v[i].0@ != v[j].0@
}

/// `s` without `x`, where it holds it once.
pub open spec fn without(s: Seq<u64>, x: u64) -> Seq<u64> {
    if s.contains(x) {
        s.remove(choose|i: int| 0 <= i < s.len() && s[i] == x)
    } else {
        s
    }
}

/// Manages updates to the UI state from UI events
pub struct Ui {
    /// UI grids, ordered by ID
    pub grids: Vec<Grid>,
    /// Grids that have been deleted since the last flush
    pub deleted_grids: Vec<u64>,
    /// The order in which grids should be drawn, ordered from bottom to top
    pub draw_order: Vec<u64>,
    /// The index into self.draw_order at which floating windows begin
    pub float_windows_start: usize,
    /// Cursor information
    pub cursor: CursorInfo,
    /// Whether the mouse is enabled
    pub mouse: bool,
    /// UI highlights, indexed by their ID
    pub highlights: Vec<HlAttrDefine>,
    /// Highlight names with their highlight IDs, in the order they were first set
    pub highlight_groups: Vec<(String, u64)>,
    /// Whether the highlights changed since the last flush
    pub did_highlights_change: bool,
    /// The ID of the current mode
    pub current_mode: u64,
    /// Information about Vim modes, indexed by ID
    pub modes: Vec<ModeInfo>,
    /// Default highlight colors
    pub default_colors: DefaultColorsSet,
    /// Manages ext_messages events
    pub messages: Messages,
    /// Manages ext_cmdline events
    pub cmdline: Cmdline,
    /// Manages ext_popupmenu events
    pub popupmenu: Option<PopupmenuShow>,
    /// Manages ext_tabline events
    pub tabline: Option<TablineUpdate>,
}

impl Ui {
    /// The grids are sorted by id with consistent contents, the draw order names each grid at
    /// most once, and highlight group names are unique.
    pub open spec fn wf(&self) -> bool {
        &&& grids_sorted(self.grids@)
        &&& forall|i: int| 0 <= i < self.grids@.len() ==> grid::grid_ok_spec(#[trigger] self.grids@[i])
        &&& self.draw_order@.no_duplicates()
        &&& group_names_unique(self.highlight_groups@)
    }

    pub fn new() -> (r: Ui)
        ensures
            r.wf(),
            r.grids@.len() == 0,
            r.deleted_grids@.len() == 0,
            r.draw_order@ == seq![1u64],
            r.float_windows_start == 0,
            r.cursor.grid == 1 && r.cursor.enabled && !r.cursor.style_enabled,
            r.cursor.pos == (Vec2::<u64> { x: 0, y: 0 }),
            !r.mouse,
            r.highlights@.len() == 0,
            r.highlight_groups@.len() == 0,
            !r.did_highlights_change,
            r.current_mode == 0,
            r.modes@.len() == 0,
            r.default_colors == (DefaultColorsSet { rgb_fg: None, rgb_bg: None, rgb_sp: None }),
            r.messages.show@.len() == 0,
            r.messages.history@.len() == 0,
            r.cmdline.mode is None,
            r.popupmenu is None,
            r.tabline is None,
    {
        let mut draw_order = Vec::new();
        draw_order.push(1);
        Ui {
            grids: Vec::new(),
            deleted_grids: Vec::new(),
            draw_order,
            float_windows_start: 0,
            cursor: CursorInfo::default(),
            mouse: false,
            highlights: Vec::new(),
            highlight_groups: Vec::new(),
            did_highlights_change: false,
            current_mode: 0,
            modes: Vec::new(),
            default_colors: DefaultColorsSet { rgb_fg: None, rgb_bg: None, rgb_sp: None },
            messages: Messages::new(),
            cmdline: Cmdline::new(),
            popupmenu: None,
            tabline: None,
        }
    }

    /// Index of the grid with the given id, or else the index where the
    /// grid should be inserted
    pub fn grid_index(&self, id: u64) -> (r: Result<usize, usize>)
        requires
            grids_sorted(self.grids@),
        ensures
            r matches Ok(i) ==> i < self.grids@.len() && self.grids@[i as int].id == id,
            r matches Err(i) ==> i <= self.grids@.len() && (forall|j: int|
                0 <= j < i ==> #[trigger] self.grids@[j].id < id) && (forall|j: int|
                i <= j < self.grids@.len() ==> #[trigger] self.grids@[j].id > id),
            r is Ok <==> has_grid(self.grids@, id),
    {
        let mut lo: usize = 0;
        let mut hi: usize = self.grids.len();
        while lo < hi
            invariant
                grids_sorted(self.grids@),
                lo <= hi <= self.grids@.len(),
                forall|j: int| 0 <= j < lo ==> #[trigger] self.grids@[j].id < id,
                forall|j: int| hi <= j < self.grids@.len() ==> #[trigger] self.grids@[j].id > id,
            decreases hi - lo,
        {
            let mid = lo + (hi - lo) / 2;
            let mid_id = self.grids[mid].id;
            if mid_id < id {
                lo = mid + 1;
            } else if mid_id > id {
                hi = mid;
            } else {
                return Ok(mid);
            }
        }
        proof {
            if has_grid(self.grids@, id) {
                let i = choose|i: int| 0 <= i < self.grids@.len() && self.grids@[i].id == id;
                if i < lo {
                } else {
                }
            }
        }
        Err(lo)
    }

    /// The index of `grid` in the draw order.
    fn draw_position(&self, grid: u64) -> (r: Option<usize>)
        ensures
            r matches Some(i) ==> i < self.draw_order@.len() && self.draw_order@[i as int] == grid,
            r is None ==> !self.draw_order@.contains(grid),
    {
        let mut i: usize = 0;
        while i < self.draw_order.len()
            invariant
                i <= self.draw_order@.len(),
                forall|j: int| 0 <= j < i ==> #[trigger] self.draw_order@[j] != grid,
            decreases self.draw_order@.len() - i,
        {
            if self.draw_order[i] == grid {
                return Some(i);
            }
            i += 1;
        }
        None
    }

    /// Removes `grid` from the draw order.
    fn remove_from_draw_order(&mut self, grid: u64)
        requires
            old(self).draw_order@.no_duplicates(),
        ensures
            final(self).draw_order@ == without(old(self).draw_order@, grid),
            final(self).draw_order@.no_duplicates(),
            !final(self).draw_order@.contains(grid),
            *final(self) == (Ui { draw_order: final(self).draw_order, ..*old(self) }),
    {
        match self.draw_position(grid) {
            Some(i) => {
                let ghost before = self.draw_order@;
                self.draw_order.remove(i);
                proof {
                    let k = choose|k: int| 0 <= k < before.len() && before[k] == grid;
                    assert(k == i);
                    assert forall|a: int, b: int|
                        0 <= a < b < self.draw_order@.len() implies self.draw_order@[a]
                        != self.draw_order@[b] by {
                        let a2 = if a < i { a } else { a + 1 };
                        let b2 = if b < i { b } else { b + 1 };
                        assert(self.draw_order@[a] == before[a2]);
                        assert(self.draw_order@[b] == before[b2]);
                    }
                    if self.draw_order@.contains(grid) {
                        let j = choose|j: int| 0 <= j < self.draw_order@.len() && self.draw_order@[j] == grid;
                        let j2 = if j < i { j } else { j + 1 };
                        assert(before[j2] == grid);
                    }
                }
            },
            None => {},
        }
    }

    /// Move the given grid to the top of the draw order
    fn show(&mut self, grid: u64)
        requires
            old(self).draw_order@.no_duplicates(),
        ensures
            final(self).draw_order@ == without(old(self).draw_order@, grid).push(grid),
            final(self).draw_order@.no_duplicates(),
            *final(self) == (Ui { draw_order: final(self).draw_order, ..*old(self) }),
    {
        self.remove_from_draw_order(grid);
        let ghost before = self.draw_order@;
        self.draw_order.push(grid);
        proof {
            assert forall|a: int, b: int|
                0 <= a < b < self.draw_order@.len() implies self.draw_order@[a] != self.draw_order@[b] by {
                if b == before.len() {
                    assert(before.contains(self.draw_order@[a]) || self.draw_order@[a] != grid);
                }
            }
        }
    }

    /// Remove the given grid from the draw order
    fn hide_grid(&mut self, grid: u64)
        requires
            old(self).draw_order@.no_duplicates(),
        ensures
            final(self).draw_order@ == without(old(self).draw_order@, grid),
            final(self).draw_order@.no_duplicates(),
            !final(self).draw_order@.contains(grid),
            *final(self) == (Ui { draw_order: final(self).draw_order, ..*old(self) }),
    {
        self.remove_from_draw_order(grid);
    }

    /// Delete the given grid
    fn delete_grid(&mut self, grid: u64)
        requires
            old(self).wf(),
        ensures
            final(self).wf(),
            !has_grid(final(self).grids@, grid),
            forall|id: u64|
                id != grid ==> #[trigger] find_grid(final(self).grids@, id) == find_grid(
                    old(self).grids@,
                    id,
                ),
            final(self).draw_order@ == without(old(self).draw_order@, grid),
            final(self).deleted_grids@ == old(self).deleted_grids@.push(grid),
            *final(self) == (Ui {
                grids: final(self).grids,
                draw_order: final(self).draw_order,
                deleted_grids: final(self).deleted_grids,
                ..*old(self)
            }),
    {
        match self.grid_index(grid) {
            Ok(i) => {
                let ghost before = self.grids@;
                self.grids.remove(i);
                proof {
                    lemma_remove_grid(before, i as int);
                    assert forall|j: int| 0 <= j < self.grids@.len() implies grid::grid_ok_spec(
                        #[trigger] self.grids@[j],
                    ) by {
                        if j < i {
                            assert(self.grids@[j] == before[j]);
                        } else {
                            assert(self.grids@[j] == before[j + 1]);
                        }
                    }
                }
            },
            Err(_) => {},
        }
        self.remove_from_draw_order(grid);
        self.deleted_grids.push(grid);
    }

    /// The index of the grid with the given ID, which is created, empty and shown nowhere,
    /// where there is none.
    fn get_or_create_grid(&mut self, id: u64) -> (r: usize)
        requires
            old(self).wf(),
        ensures
            final(self).wf(),
            r < final(self).grids@.len(),
            final(self).grids@[r as int].id == id,
            has_grid(old(self).grids@, id) ==> final(self).grids@ == old(self).grids@,
            !has_grid(old(self).grids@, id) ==> Grid::is_new(final(self).grids@[r as int], id)
                && final(self).grids@ == old(self).grids@.insert(r as int, final(self).grids@[r as int]),
            find_grid(final(self).grids@, id) == Some(final(self).grids@[r as int]),
            forall|other: u64|
                other != id ==> #[trigger] find_grid(final(self).grids@, other) == find_grid(
                    old(self).grids@,
                    other,
                ),
            *final(self) == (Ui { grids: final(self).grids, ..*old(self) }),
    {
        match self.grid_index(id) {
            Ok(i) => {
                proof {
                    lemma_find_grid(self.grids@, id, i as int);
                }
                i
            },
            Err(i) => {
                let g = Grid::new(id);
                proof {
                    lemma_insert_grid(self.grids@, i as int, g);
                    crate::ui::grid::lemma_empty_grid_ok(g);
                }
                self.grids.insert(i, g);
                i
            },
        }
    }

    /// Reset dirty flags
    pub fn clear_dirty(&mut self)
        requires
            old(self).wf(),
        ensures
            final(self).wf(),
            !final(self).did_highlights_change,
            final(self).deleted_grids@.len() == 0,
            final(self).grids@.len() == old(self).grids@.len(),
            forall|i: int|
                0 <= i < final(self).grids@.len() ==> {
                    let g = #[trigger] final(self).grids@[i];
                    let o = old(self).grids@[i];
                    &&& g.id == o.id
                    &&& g.window == o.window
                    &&& g.contents == o.contents
                    &&& g.scroll_delta == 0
                    &&& !g.dirty.spec_contents()
                    &&& !g.dirty.spec_window()
                },
            final(self).draw_order == old(self).draw_order,
    {
        self.did_highlights_change = false;
        self.deleted_grids.clear();
        let n = self.grids.len();
        let mut i: usize = 0;
        while i < n
            invariant
                n == self.grids@.len(),
                n == old(self).grids@.len(),
                i <= n,
                self.wf(),
                !self.did_highlights_change,
                self.deleted_grids@.len() == 0,
                self.draw_order == old(self).draw_order,
                forall|j: int|
                    0 <= j < n ==> {
                        let g = #[trigger] self.grids@[j];
                        let o = old(self).grids@[j];
                        &&& g.id == o.id
                        &&& g.window == o.window
                        &&& g.contents == o.contents
                        &&& j < i ==> g.scroll_delta == 0 && !g.dirty.spec_contents()
                            && !g.dirty.spec_window()
                    },
            decreases n - i,
        {
            let ghost before = self.grids@;
            let mut g = self.grids.remove(i);
            g.clear_dirty();
            self.grids.insert(i, g);
            proof {
                assert(self.grids@ =~= before.update(i as int, g));
                lemma_replace_grid(before, i as int, g);
            }
            i += 1;
        }
    }

    /// Grid with the given ID
    pub fn grid(&self, id: u64) -> (r: Option<&Grid>)
        requires
            grids_sorted(self.grids@),
        ensures
            r matches Some(g) ==> find_grid(self.grids@, id) == Some(*g),
            r is None ==> find_grid(self.grids@, id) is None,
    {
        match self.grid_index(id) {
            Ok(i) => {
                proof {
                    lemma_find_grid(self.grids@, id, i as int);
                }
                Some(&self.grids[i])
            },
            Err(_) => None,
        }
    }
}

/// The highlight id of the group called `name`, where there is one.
pub open spec fn group_lookup(v: Seq<(String, u64)>, name: Seq<char>) -> Option<u64> {
    if exists|i: int| 0 <= i < v.len() && v[i].0@ == name {
        Some(v[choose|i: int| 0 <= i < v.len() && v[i].0@ == name].1)
    } else {
        None
    }
}

impl Ui {
    /// The highlight id of a highlight group, where it was set.
    pub fn highlight_group(&self, name: &String) -> (r: Option<u64>)
        requires
            group_names_unique(self.highlight_groups@),
        ensures
            r == group_lookup(self.highlight_groups@, name@),
    {
        let ghost v = self.highlight_groups@;
        let mut i: usize = 0;
        while i < self.highlight_groups.len()
            invariant
                v == self.highlight_groups@,
                group_names_unique(v),
                i <= v.len(),
                forall|j: int| 0 <= j < i ==> #[trigger] v[j].0@ != name@,
            decreases v.len() - i,
        {
            if self.highlight_groups[i].0 == *name {
                proof {
                    let k = choose|k: int| 0 <= k < v.len() && v[k].0@ == name@;
                    assert(v[i as int].0@ == name@);
                    if k != i as int {
                        assert(v[k].0@ == v[i as int].0@);
                    }
                }
                return Some(self.highlight_groups[i].1);
            }
            i += 1;
        }
        None
    }
}

/// The highlights once `e` is defined; they are indexed by their id. Where the id lies past
/// the end of the list, the list is first filled up to twice that id with empty highlights;
/// then `e` takes the entry at its id, or goes last where its id is the length of the list.
pub open spec fn highlights_after(old: Seq<HlAttrDefine>, e: HlAttrDefine) -> Seq<HlAttrDefine> {
    let i = (e.id as usize) as int;
    if i == old.len() {
        old.push(e)
    } else {
        let base = if i > old.len() {
            old + Seq::new((2 * i - old.len()) as nat, |_j: int| default_hl_attr())
        } else {
            old
        };
        base.update(i, e)
    }
}

/// The highlight groups once `name` is set to `hl_id`: the entry of that name changes, or a
/// new one goes last.
pub open spec fn groups_after(old: Seq<(String, u64)>, name: String, hl_id: u64) -> Seq<(String, u64)> {
    if exists|i: int| 0 <= i < old.len() && old[i].0@ == name@ {
        old.update(choose|i: int| 0 <= i < old.len() && old[i].0@ == name@, (name, hl_id))
    } else {
        old.push((name, hl_id))
    }
}

/// Every grid other than the one with id `id` is found as before, and that one is found.
pub open spec fn only_grid_changed(old: Seq<Grid>, new: Seq<Grid>, id: u64) -> bool {
    &&& has_grid(new, id)
    &&& forall|other: u64| other != id ==> #[trigger] find_grid(new, other) == find_grid(old, other)
}

/// `ng` is the grid that a `grid_resize` to `size` leaves of `og`, or of nothing where there
/// was no grid with that id.
pub open spec fn grid_resized(og: Option<Grid>, ng: Grid, id: u64, size: Vec2<u64>) -> bool {
    match og {
        Some(og) => Grid::contents_changed(og, ng) && GridContents::resized(
            og.contents,
            ng.contents,
            size,
        ),
        None => {
            &&& ng.id == id
            &&& ng.scroll_delta == 0
            &&& ng.window == Window::Unset
            &&& ng.dirty.spec_contents()
            &&& !ng.dirty.spec_window()
            &&& ng.contents.wf()
            &&& ng.contents.size == size
            &&& ng.contents.overflow@.len() == 0
            &&& forall|x: int, y: int|
                0 <= x < size.x && 0 <= y < size.y ==> #[trigger] ng.contents.cell(x, y)
                    == grid::default_cell()
        },
    }
}

impl Ui {
    /// What the state must hold for `event` to be processed: the grid that the event changes
    /// exists (where it is not created), and the event fits it.
    pub open spec fn can_process(&self, event: Event) -> bool {
        &&& self.wf()
        &&& match event {
            Event::HlAttrDefine(e) => (e.id as usize) > self.highlights@.len() ==> 2 * (e.id as usize)
                <= usize::MAX,
            Event::GridResize { grid, width, height } => width * height <= u64::MAX && width
                * height <= usize::MAX,
            Event::GridClear { grid } => has_grid(self.grids@, grid),
            Event::GridScroll { grid, top, bot, left, right, rows, cols: _ } => {
                &&& has_grid(self.grids@, grid)
                &&& {
                    let c = find_grid(self.grids@, grid).unwrap().contents;
                    &&& top <= c.size.y
                    &&& bot <= c.size.y
                    &&& right <= c.size.x
                    &&& c.size.y <= i64::MAX
                    &&& i64::MIN <= top - rows <= i64::MAX
                    &&& i64::MIN <= bot - rows <= i64::MAX
                }
            },
            Event::GridLine { grid, row, col_start, cells } => {
                &&& has_grid(self.grids@, grid)
                &&& {
                    let c = find_grid(self.grids@, grid).unwrap().contents;
                    &&& row < c.size.y
                    &&& col_start + grid::line_width(cells@, cells@.len() as int) <= c.size.x
                    &&& forall|k: int|
                        0 < k <= cells@.len() ==> #[trigger] grid::line_highlight(cells@, k)
                            <= u32::MAX
                    &&& grid::line_overflow(cells@, cells@.len() as int).len() > 0
                        ==> c.overflow@.len() + grid::line_overflow(
                        cells@,
                        cells@.len() as int,
                    ).len() <= 0x40_0000
                }
            },
            Event::WinPos { grid, .. } => has_grid(self.grids@, grid) && self.float_windows_start
                < usize::MAX,
            Event::WinFloatPos { grid, .. } => has_grid(self.grids@, grid),
            Event::WinExternalPos { grid, .. } => has_grid(self.grids@, grid),
            Event::WinClose { grid } => has_grid(self.grids@, grid),
            Event::WinViewport { grid, .. } => has_grid(self.grids@, grid),
            Event::CmdlineShow(e) => self.cmdline.mode matches Some(
                cmdline::Mode::Normal { levels },
            ) ==> (e.level as usize) > levels@.len() || (e.level as usize) >= 1,
            _ => true,
        }
    }

    /// `new` is `old` once `event` is processed.
    pub open spec fn processed(old: Ui, new: Ui, event: Event) -> bool {
        &&& new.wf()
        &&& match event {
            Event::DefaultColorsSet(e) => new == (Ui {
                did_highlights_change: true,
                default_colors: e,
                ..old
            }),
            Event::HlAttrDefine(e) => new == (Ui {
                did_highlights_change: true,
                highlights: new.highlights,
                ..old
            }) && new.highlights@ == highlights_after(old.highlights@, e),
            Event::HlGroupSet { name, hl_id } => new == (Ui {
                did_highlights_change: true,
                highlight_groups: new.highlight_groups,
                ..old
            }) && new.highlight_groups@ == groups_after(old.highlight_groups@, name, hl_id),
            Event::ModeChange { mode: _, mode_idx } => new == (Ui { current_mode: mode_idx, ..old }),
            Event::ModeInfoSet { cursor_style_enabled, mode_info } => new == (Ui {
                cursor: CursorInfo { style_enabled: cursor_style_enabled, ..old.cursor },
                modes: mode_info,
                ..old
            }),
            Event::GridResize { grid, width, height } => {
                &&& new == (Ui { grids: new.grids, ..old })
                &&& only_grid_changed(old.grids@, new.grids@, grid)
                &&& grid_resized(
                    find_grid(old.grids@, grid),
                    find_grid(new.grids@, grid).unwrap(),
                    grid,
                    Vec2 { x: width, y: height },
                )
            },
            Event::GridClear { grid } => {
                &&& new == (Ui { grids: new.grids, ..old })
                &&& only_grid_changed(old.grids@, new.grids@, grid)
                &&& Grid::contents_changed(
                    find_grid(old.grids@, grid).unwrap(),
                    find_grid(new.grids@, grid).unwrap(),
                )
                &&& GridContents::cleared(
                    find_grid(old.grids@, grid).unwrap().contents,
                    find_grid(new.grids@, grid).unwrap().contents,
                )
            },
            Event::GridDestroy { grid } => {
                &&& new == (Ui {
                    grids: new.grids,
                    draw_order: new.draw_order,
                    deleted_grids: new.deleted_grids,
                    ..old
                })
                &&& !has_grid(new.grids@, grid)
                &&& forall|other: u64|
                    other != grid ==> #[trigger] find_grid(new.grids@, other) == find_grid(
                        old.grids@,
                        other,
                    )
                &&& new.draw_order@ == without(old.draw_order@, grid)
                &&& new.deleted_grids@ == old.deleted_grids@.push(grid)
            },
            Event::GridCursorGoto { grid, row, column } => new == (Ui {
                cursor: CursorInfo { pos: Vec2 { x: column, y: row }, grid, ..old.cursor },
                ..old
            }),
            Event::GridScroll { grid, top, bot, left, right, rows, cols: _ } => {
                &&& new == (Ui { grids: new.grids, ..old })
                &&& only_grid_changed(old.grids@, new.grids@, grid)
                &&& Grid::contents_changed(
                    find_grid(old.grids@, grid).unwrap(),
                    find_grid(new.grids@, grid).unwrap(),
                )
                &&& GridContents::scrolled(
                    find_grid(old.grids@, grid).unwrap().contents,
                    find_grid(new.grids@, grid).unwrap().contents,
                    top,
                    bot,
                    left,
                    right,
                    rows,
                )
            },
            Event::GridLine { grid, row, col_start, cells } => {
                &&& new == (Ui { grids: new.grids, ..old })
                &&& only_grid_changed(old.grids@, new.grids@, grid)
                &&& Grid::contents_changed(
                    find_grid(old.grids@, grid).unwrap(),
                    find_grid(new.grids@, grid).unwrap(),
                )
                &&& GridContents::line_written(
                    find_grid(old.grids@, grid).unwrap().contents,
                    find_grid(new.grids@, grid).unwrap().contents,
                    row,
                    col_start,
                    cells@,
                )
            },
            Event::WinPos { grid, win: _, start_row, start_col, width, height } => {
                &&& new == (Ui {
                    grids: new.grids,
                    draw_order: new.draw_order,
                    float_windows_start: (old.float_windows_start + 1) as usize,
                    ..old
                })
                &&& new.draw_order@ == without(old.draw_order@, grid).push(grid)
                &&& only_grid_changed(old.grids@, new.grids@, grid)
                &&& Grid::window_changed(
                    find_grid(old.grids@, grid).unwrap(),
                    find_grid(new.grids@, grid).unwrap(),
                )
                &&& find_grid(new.grids@, grid).unwrap().window == Window::Normal(
                    NormalWindow { start_col, start_row, width, height },
                )
            },
            Event::WinFloatPos {
                grid,
                win: _,
                anchor,
                anchor_grid,
                anchor_row,
                anchor_col,
                focusable,
            } => {
                &&& new == (Ui { grids: new.grids, draw_order: new.draw_order, ..old })
                &&& new.draw_order@ == without(old.draw_order@, grid).push(grid)
                &&& only_grid_changed(old.grids@, new.grids@, grid)
                &&& Grid::window_changed(
                    find_grid(old.grids@, grid).unwrap(),
                    find_grid(new.grids@, grid).unwrap(),
                )
                &&& find_grid(new.grids@, grid).unwrap().window == Window::Floating(
                    FloatingWindow { anchor, anchor_grid, anchor_col, anchor_row, focusable },
                )
            },
            Event::WinExternalPos { grid, win: _ } => {
                &&& new == (Ui { grids: new.grids, ..old })
                &&& only_grid_changed(old.grids@, new.grids@, grid)
                &&& Grid::window_changed(
                    find_grid(old.grids@, grid).unwrap(),
                    find_grid(new.grids@, grid).unwrap(),
                )
                &&& find_grid(new.grids@, grid).unwrap().window == Window::External
            },
            Event::WinHide { grid } => new == (Ui { draw_order: new.draw_order, ..old })
                && new.draw_order@ == without(old.draw_order@, grid),
            Event::WinClose { grid } => {
                &&& new == (Ui { grids: new.grids, draw_order: new.draw_order, ..old })
                &&& new.draw_order@ == without(old.draw_order@, grid)
                &&& only_grid_changed(old.grids@, new.grids@, grid)
                &&& Grid::window_changed(
                    find_grid(old.grids@, grid).unwrap(),
                    find_grid(new.grids@, grid).unwrap(),
                )
                &&& find_grid(new.grids@, grid).unwrap().window == Window::Unset
            },
            Event::WinViewport { grid, scroll_delta, .. } => {
                &&& new == (Ui { grids: new.grids, ..old })
                &&& only_grid_changed(old.grids@, new.grids@, grid)
                &&& find_grid(new.grids@, grid).unwrap() == (Grid {
                    scroll_delta,
                    ..find_grid(old.grids@, grid).unwrap()
                })
            },
            Event::PopupmenuShow(e) => new == (Ui { popupmenu: Some(e), ..old }),
            Event::PopupmenuSelect { selected } => new == (Ui {
                popupmenu: match old.popupmenu {
                    Some(menu) => Some(PopupmenuShow { selected, ..menu }),
                    None => None,
                },
                ..old
            }),
            Event::PopupmenuHide => new == (Ui { popupmenu: None, ..old }),
            Event::CmdlineShow(e) => new == (Ui { cmdline: new.cmdline, ..old })
                && Cmdline::showed(old.cmdline, new.cmdline, e),
            Event::CmdlinePos(e) => new == (Ui { cmdline: new.cmdline, ..old })
                && Cmdline::cursor_set(old.cmdline, new.cmdline, e.pos),
            Event::CmdlineSpecialChar(e) => new == (Ui { cmdline: new.cmdline, ..old })
                && Cmdline::special_set(old.cmdline, new.cmdline, e),
            Event::CmdlineHide => new == (Ui { cmdline: new.cmdline, ..old }) && Cmdline::prompt_hidden(
                old.cmdline,
                new.cmdline,
            ),
            Event::CmdlineBlockShow(e) => new == (Ui { cmdline: new.cmdline, ..old })
                && Cmdline::block_shown(old.cmdline, new.cmdline, e.lines),
            Event::CmdlineBlockAppend(e) => new == (Ui { cmdline: new.cmdline, ..old })
                && Cmdline::block_appended(old.cmdline, new.cmdline, e.line),
            Event::CmdlineBlockHide => new == (Ui { cmdline: Cmdline { mode: None }, ..old }),
            Event::MsgShow(e) => new == (Ui { messages: new.messages, ..old }) && Messages::shown(
                old.messages,
                new.messages,
                e,
            ),
            Event::MsgClear => new == (Ui { messages: new.messages, ..old }) && new.messages
                == (Messages { show: new.messages.show, ..old.messages })
                && new.messages.show@.len() == 0,
            Event::MsgShowmode { content } => new == (Ui {
                messages: Messages { showmode: content, ..old.messages },
                ..old
            }),
            Event::MsgShowcmd { content } => new == (Ui {
                messages: Messages { showcmd: content, ..old.messages },
                ..old
            }),
            Event::MsgRuler { content } => new == (Ui {
                messages: Messages { ruler: content, ..old.messages },
                ..old
            }),
            Event::MsgHistoryShow { entries } => new == (Ui {
                messages: Messages { history: entries, ..old.messages },
                ..old
            }),
            Event::MsgHistoryClear => new == (Ui { messages: new.messages, ..old }) && new.messages
                == (Messages { history: new.messages.history, ..old.messages })
                && new.messages.history@.len() == 0,
            Event::MsgSetPos { grid, row, scrolled: _, sep_char: _ } => {
                &&& new == (Ui { grids: new.grids, draw_order: new.draw_order, ..old })
                &&& new.draw_order@ == without(old.draw_order@, grid).push(grid)
                &&& only_grid_changed(old.grids@, new.grids@, grid)
                &&& {
                    let ng = find_grid(new.grids@, grid).unwrap();
                    &&& ng.window == Window::Floating(
                        FloatingWindow {
                            anchor: Anchor::Nw,
                            anchor_grid: 1,
                            anchor_col: CellCoord::Whole(0),
                            anchor_row: CellCoord::Whole(row),
                            focusable: false,
                        },
                    )
                    &&& ng.dirty.spec_window()
                    &&& match find_grid(old.grids@, grid) {
                        Some(og) => Grid::window_changed(og, ng),
                        None => {
                            &&& ng.id == grid
                            &&& ng.scroll_delta == 0
                            &&& !ng.dirty.spec_contents()
                            &&& ng.contents.size == (Vec2::<u64> { x: 0, y: 0 })
                            &&& ng.contents.buffer@.len() == 0
                            &&& ng.contents.overflow@.len() == 0
                        },
                    }
                }
            },
            Event::TablineUpdate(e) => new == (Ui { tabline: Some(e), ..old }),
            Event::MouseOn => new == (Ui { mouse: true, ..old }),
            Event::MouseOff => new == (Ui { mouse: false, ..old }),
            Event::BusyStart => new == (Ui { cursor: CursorInfo { enabled: false, ..old.cursor }, ..old }),
            Event::BusyStop => new == (Ui { cursor: CursorInfo { enabled: true, ..old.cursor }, ..old }),
            _ => new == old,
        }
    }
}

/// Whether the cells of a `grid_line` event fit a grid of `width` columns from column
/// `col_start` on.
fn line_fits(cells: &Vec<LineCell>, col_start: u64, width: u64) -> (r: bool)
    ensures
        r == (col_start + grid::line_width(cells@, cells@.len() as int) <= width),
{
    let mut end: u128 = col_start as u128;
    let mut i: usize = 0;
    while i < cells.len()
        invariant
            i <= cells@.len(),
            end == col_start + grid::line_width(cells@, i as int),
            end <= width || i == 0,
            end <= u64::MAX,
        decreases cells@.len() - i,
    {
        if end > width as u128 {
            proof {
                grid::lemma_line_width_mono(cells@, i as int, cells@.len() as int);
            }
            return false;
        }
        let repeat: u128 = match cells[i].repeat {
            Some(r) => r as u128,
            None => 1,
        };
        end = end + repeat;
        i += 1;
        if end > width as u128 {
            proof {
                grid::lemma_line_width_mono(cells@, i as int, cells@.len() as int);
            }
            return false;
        }
    }
    end <= width as u128
}

/// Whether the highlight in effect stays within a `u32` all along the cells.
fn highlights_fit(cells: &Vec<LineCell>) -> (r: bool)
    ensures
        r == (forall|k: int|
            0 < k <= cells@.len() ==> #[trigger] grid::line_highlight(cells@, k) <= u32::MAX),
{
    let mut i: usize = 0;
    while i < cells.len()
        invariant
            i <= cells@.len(),
            forall|k: int| 0 < k <= i ==> #[trigger] grid::line_highlight(cells@, k) <= u32::MAX,
        decreases cells@.len() - i,
    {
        match cells[i].hl_id {
            Some(h) => {
                if h > 0xffff_ffff {
                    assert(grid::line_highlight(cells@, i + 1) > u32::MAX);
                    return false;
                }
            },
            None => {
                assert(grid::line_highlight(cells@, i + 1) == grid::line_highlight(cells@, i as int));
                if i == 0 {
                    assert(grid::line_highlight(cells@, 0) == 0);
                }
            },
        }
        i += 1;
    }
    true
}

/// The number of cells of more than one char.
fn overflow_count(cells: &Vec<LineCell>) -> (r: usize)
    ensures
        r == grid::line_overflow(cells@, cells@.len() as int).len(),
{
    let mut n: usize = 0;
    let mut i: usize = 0;
    while i < cells.len()
        invariant
            i <= cells@.len(),
            n == grid::line_overflow(cells@, i as int).len(),
            n <= i,
        decreases cells@.len() - i,
    {
        if cells[i].text.as_str().unicode_len() >= 2 {
            n += 1;
        }
        i += 1;
    }
    n
}

impl Ui {
    /// Whether `event` can be processed: the grid that it changes exists (where it is not
    /// created) and the event fits it.
    pub fn event_fits(&self, event: &Event) -> (r: bool)
        requires
            self.wf(),
        ensures
            r == self.can_process(*event),
    {
        match event {
            Event::HlAttrDefine(e) => {
                let i = e.id as usize;
                i <= self.highlights.len() || i <= usize::MAX / 2
            },
            Event::GridResize { grid: _, width, height } => {
                match width.checked_mul(*height) {
                    Some(area) => area as u128 <= usize::MAX as u128,
                    None => false,
                }
            },
            Event::GridClear { grid }
            | Event::WinFloatPos { grid, .. }
            | Event::WinExternalPos { grid, .. }
            | Event::WinClose { grid }
            | Event::WinViewport { grid, .. } => self.grid_index(*grid).is_ok(),
            Event::WinPos { grid, .. } => {
                self.grid_index(*grid).is_ok() && self.float_windows_start < usize::MAX
            },
            Event::GridScroll { grid, top, bot, left: _, right, rows, cols: _ } => {
                match self.grid_index(*grid) {
                    Ok(i) => {
                        proof {
                            lemma_find_grid(self.grids@, *grid, i as int);
                        }
                        let size = self.grids[i].contents.size;
                        let top_moved = *top as i128 - *rows as i128;
                        let bot_moved = *bot as i128 - *rows as i128;
                        *top <= size.y && *bot <= size.y && *right <= size.x && size.y
                            <= 0x7fff_ffff_ffff_ffff && -0x8000_0000_0000_0000 <= top_moved
                            && top_moved <= 0x7fff_ffff_ffff_ffff && -0x8000_0000_0000_0000
                            <= bot_moved && bot_moved <= 0x7fff_ffff_ffff_ffff
                    },
                    Err(_) => false,
                }
            },
            Event::GridLine { grid, row, col_start, cells } => {
                match self.grid_index(*grid) {
                    Ok(i) => {
                        proof {
                            lemma_find_grid(self.grids@, *grid, i as int);
                        }
                        let contents = &self.grids[i].contents;
                        let extra = overflow_count(cells);
                        *row < contents.size.y && line_fits(cells, *col_start, contents.size.x)
                            && highlights_fit(cells) && (extra == 0 || contents.overflow.len()
                            as u128 + extra as u128 <= 0x40_0000)
                    },
                    Err(_) => false,
                }
            },
            Event::CmdlineShow(e) => {
                match &self.cmdline.mode {
                    Some(cmdline::Mode::Normal { levels }) => {
                        let level = e.level as usize;
                        level > levels.len() || level >= 1
                    },
                    _ => true,
                }
            },
            _ => true,
        }
    }
}

/// Replacing a grid of sorted, consistent grids by a consistent grid with the same id keeps
/// them sorted and consistent, and changes what that id finds only.
proof fn lemma_grid_replaced(g: Seq<Grid>, i: int, ng: Grid)
    requires
        grids_sorted(g),
        forall|j: int| 0 <= j < g.len() ==> grid::grid_ok_spec(#[trigger] g[j]),
        0 <= i < g.len(),
        ng.id == g[i].id,
        grid::grid_ok_spec(ng),
    ensures
        grids_sorted(g.update(i, ng)),
        forall|j: int| 0 <= j < g.len() ==> grid::grid_ok_spec(#[trigger] g.update(i, ng)[j]),
        only_grid_changed(g, g.update(i, ng), ng.id),
        find_grid(g.update(i, ng), ng.id) == Some(ng),
        find_grid(g, ng.id) == Some(g[i]),
{
    lemma_replace_grid(g, i, ng);
}

impl Ui {
    /// The index of the grid with the given id, which exists.
    fn existing_grid_index(&self, id: u64) -> (r: usize)
        requires
            grids_sorted(self.grids@),
            has_grid(self.grids@, id),
        ensures
            r < self.grids@.len(),
            self.grids@[r as int].id == id,
            find_grid(self.grids@, id) == Some(self.grids@[r as int]),
    {
        match self.grid_index(id) {
            Ok(i) => {
                proof {
                    lemma_find_grid(self.grids@, id, i as int);
                }
                i
            },
            // `grid_index` finds every grid there is.
            Err(_) => 0,
        }
    }

    /// Empties the cells of a grid.
    fn clear_grid(&mut self, grid: u64)
        requires
            old(self).can_process(Event::GridClear { grid }),
        ensures
            Ui::processed(*old(self), *final(self), Event::GridClear { grid }),
    {
        let i = self.existing_grid_index(grid);
        let ghost before = self.grids@;
        let mut g = self.grids.remove(i);
        g.contents_mut().clear();
        self.grids.insert(i, g);
        proof {
            assert(self.grids@ =~= before.update(i as int, g));
            lemma_grid_replaced(before, i as int, g);
        }
    }

    /// Moves the cells of part of a grid.
    fn scroll_grid(&mut self, grid: u64, top: u64, bot: u64, left: u64, right: u64, rows: i64)
        requires
            old(self).can_process(Event::GridScroll { grid, top, bot, left, right, rows, cols: 0 }),
        ensures
            Ui::processed(
                *old(self),
                *final(self),
                Event::GridScroll { grid, top, bot, left, right, rows, cols: 0 },
            ),
    {
        let i = self.existing_grid_index(grid);
        let ghost before = self.grids@;
        let mut g = self.grids.remove(i);
        g.contents_mut().scroll(top, bot, left, right, rows);
        self.grids.insert(i, g);
        proof {
            assert(self.grids@ =~= before.update(i as int, g));
            lemma_grid_replaced(before, i as int, g);
        }
    }

    /// Writes the cells of a `grid_line` event into a grid.
    fn write_grid_line(&mut self, grid: u64, row: u64, col_start: u64, cells: Vec<LineCell>)
        requires
            old(self).can_process(Event::GridLine { grid, row, col_start, cells }),
        ensures
            Ui::processed(*old(self), *final(self), Event::GridLine { grid, row, col_start, cells }),
    {
        let i = self.existing_grid_index(grid);
        let ghost before = self.grids@;
        let ghost cs = cells;
        let mut g = self.grids.remove(i);
        g.contents_mut().grid_line(row, col_start, cells);
        self.grids.insert(i, g);
        proof {
            assert(self.grids@ =~= before.update(i as int, g));
            lemma_grid_replaced(before, i as int, g);
        }
    }

    /// Resizes a grid, creating it where there is none.
    fn resize_grid(&mut self, grid: u64, width: u64, height: u64)
        requires
            old(self).can_process(Event::GridResize { grid, width, height }),
        ensures
            Ui::processed(*old(self), *final(self), Event::GridResize { grid, width, height }),
    {
        let i = self.get_or_create_grid(grid);
        let ghost before = self.grids@;
        let mut g = self.grids.remove(i);
        g.contents_mut().resize(Vec2::new(width, height));
        self.grids.insert(i, g);
        proof {
            assert(self.grids@ =~= before.update(i as int, g));
            lemma_grid_replaced(before, i as int, g);
        }
    }

    /// Gives a grid that exists another window.
    fn set_grid_window(&mut self, grid: u64, window: Window)
        requires
            old(self).wf(),
            has_grid(old(self).grids@, grid),
        ensures
            final(self).wf(),
            *final(self) == (Ui { grids: final(self).grids, ..*old(self) }),
            only_grid_changed(old(self).grids@, final(self).grids@, grid),
            Grid::window_changed(
                find_grid(old(self).grids@, grid).unwrap(),
                find_grid(final(self).grids@, grid).unwrap(),
            ),
            find_grid(final(self).grids@, grid).unwrap().window == window,
    {
        let i = self.existing_grid_index(grid);
        let ghost before = self.grids@;
        let mut g = self.grids.remove(i);
        *g.window_mut() = window;
        self.grids.insert(i, g);
        proof {
            assert(self.grids@ =~= before.update(i as int, g));
            lemma_grid_replaced(before, i as int, g);
        }
    }

    /// Sets how far a grid scrolled since the last flush.
    fn set_scroll_delta(&mut self, grid: u64, scroll_delta: i64)
        requires
            old(self).wf(),
            has_grid(old(self).grids@, grid),
        ensures
            final(self).wf(),
            *final(self) == (Ui { grids: final(self).grids, ..*old(self) }),
            only_grid_changed(old(self).grids@, final(self).grids@, grid),
            find_grid(final(self).grids@, grid).unwrap() == (Grid {
                scroll_delta,
                ..find_grid(old(self).grids@, grid).unwrap()
            }),
    {
        let i = self.existing_grid_index(grid);
        let ghost before = self.grids@;
        let mut g = self.grids.remove(i);
        g.scroll_delta = scroll_delta;
        self.grids.insert(i, g);
        proof {
            assert(self.grids@ =~= before.update(i as int, g));
            lemma_grid_replaced(before, i as int, g);
        }
    }

    /// Places the message grid at a row of the base grid, on top of the others, creating it
    /// where there is none; whether the messages scrolled and the separator do not matter.
    fn set_message_position(&mut self, grid: u64, row: u64, scrolled: bool, sep_char: String)
        requires
            old(self).wf(),
        ensures
            Ui::processed(
                *old(self),
                *final(self),
                Event::MsgSetPos { grid, row, scrolled, sep_char },
            ),
    {
        self.show(grid);
        let i = self.get_or_create_grid(grid);
        let ghost before = self.grids@;
        let mut g = self.grids.remove(i);
        *g.window_mut() = Window::Floating(
            FloatingWindow {
                anchor: Anchor::Nw,
                anchor_grid: 1,
                anchor_col: CellCoord::Whole(0),
                anchor_row: CellCoord::Whole(row),
                focusable: false,
            },
        );
        self.grids.insert(i, g);
        proof {
            assert(self.grids@ =~= before.update(i as int, g));
            lemma_grid_replaced(before, i as int, g);
        }
    }

    /// Defines a highlight: where its id lies beyond the list, the list is first filled up
    /// to twice that id with empty highlights; then it takes the entry at its id.
    fn define_highlight(&mut self, e: HlAttrDefine)
        requires
            (e.id as usize) > old(self).highlights@.len() ==> 2 * (e.id as usize) <= usize::MAX,
        ensures
            final(self).highlights@ == highlights_after(old(self).highlights@, e),
            *final(self) == (Ui { highlights: final(self).highlights, ..*old(self) }),
    {
        let i = e.id as usize;
        if i > self.highlights.len() {
            let n = i * 2;
            while self.highlights.len() < n
                invariant
                    n == 2 * i,
                    i > old(self).highlights@.len(),
                    old(self).highlights@.len() <= self.highlights@.len() <= n,
                    self.highlights@ == old(self).highlights@ + Seq::new(
                        (self.highlights@.len() - old(self).highlights@.len()) as nat,
                        |_j: int| default_hl_attr(),
                    ),
                    *self == (Ui { highlights: self.highlights, ..*old(self) }),
                decreases n - self.highlights@.len(),
            {
                let ghost before = self.highlights@;
                self.highlights.push(HlAttrDefine::new());
                proof {
                    let m = (before.len() - old(self).highlights@.len()) as nat;
                    assert(self.highlights@ =~= old(self).highlights@ + Seq::new(
                        (m + 1) as nat,
                        |_j: int| default_hl_attr(),
                    ));
                }
            }
        }
        if i == self.highlights.len() {
            self.highlights.push(e);
        } else {
            self.highlights.set(i, e);
        }
    }

    /// Sets the highlight id of a highlight group.
    fn set_highlight_group(&mut self, name: String, hl_id: u64)
        requires
            group_names_unique(old(self).highlight_groups@),
        ensures
            final(self).highlight_groups@ == groups_after(old(self).highlight_groups@, name, hl_id),
            group_names_unique(final(self).highlight_groups@),
            *final(self) == (Ui { highlight_groups: final(self).highlight_groups, ..*old(self) }),
    {
        let ghost groups = self.highlight_groups@;
        let mut i: usize = 0;
        while i < self.highlight_groups.len()
            invariant
                self.highlight_groups@ == groups,
                groups == old(self).highlight_groups@,
                group_names_unique(groups),
                *self == *old(self),
                i <= groups.len(),
                forall|j: int| 0 <= j < i ==> #[trigger] groups[j].0@ != name@,
            decreases groups.len() - i,
        {
            if self.highlight_groups[i].0 == name {
                let ghost entry = (name, hl_id);
                self.highlight_groups.set(i, (name, hl_id));
                proof {
                    assert(groups[i as int].0@ == entry.0@);
                    let k = choose|k: int| 0 <= k < groups.len() && groups[k].0@ == entry.0@;
                    if k != i as int {
                        assert(groups[k].0@ == groups[i as int].0@);
                    }
                    assert(self.highlight_groups@ == groups.update(i as int, entry));
                    assert forall|a: int, b: int|
                        0 <= a < b < self.highlight_groups@.len() implies self.highlight_groups@[a].0@
                        != self.highlight_groups@[b].0@ by {
                        if a == i as int {
                            assert(groups[b].0@ != groups[a].0@);
                        } else if b == i as int {
                            assert(groups[b].0@ != groups[a].0@);
                        }
                    }
                }
                return;
            }
            i += 1;
        }
        self.highlight_groups.push((name, hl_id));
        proof {
            assert forall|a: int, b: int|
                0 <= a < b < self.highlight_groups@.len() implies self.highlight_groups@[a].0@
                != self.highlight_groups@[b].0@ by {
                if b == groups.len() {
                    assert(groups[a].0@ != name@);
                }
            }
        }
    }
    /// Updates the UI with the given event.
    pub fn process(&mut self, event: Event)
        requires
            old(self).can_process(event),
        ensures
            Ui::processed(*old(self), *final(self), event),
    {
        match event {
            Event::DefaultColorsSet(e) => {
                self.did_highlights_change = true;
                self.default_colors = e;
            },
            Event::HlAttrDefine(e) => {
                self.did_highlights_change = true;
                self.define_highlight(e);
            },
            Event::HlGroupSet { name, hl_id } => {
                self.did_highlights_change = true;
                self.set_highlight_group(name, hl_id);
            },
            Event::ModeChange { mode: _, mode_idx } => self.current_mode = mode_idx,
            Event::ModeInfoSet { cursor_style_enabled, mode_info } => {
                self.cursor.style_enabled = cursor_style_enabled;
                self.modes = mode_info;
            },
            Event::GridResize { grid, width, height } => self.resize_grid(grid, width, height),
            Event::GridClear { grid } => self.clear_grid(grid),
            Event::GridDestroy { grid } => self.delete_grid(grid),
            Event::GridCursorGoto { grid, row, column } => {
                self.cursor.pos = Vec2::new(column, row);
                self.cursor.grid = grid;
            },
            Event::GridScroll { grid, top, bot, left, right, rows, cols: _ } => {
                self.scroll_grid(grid, top, bot, left, right, rows)
            },
            Event::GridLine { grid, row, col_start, cells } => {
                self.write_grid_line(grid, row, col_start, cells)
            },
            Event::WinPos { grid, win: _, start_row, start_col, width, height } => {
                self.show(grid);
                self.float_windows_start += 1;
                self.set_grid_window(
                    grid,
                    Window::Normal(NormalWindow { start_col, start_row, width, height }),
                );
            },
            Event::WinFloatPos {
                grid,
                win: _,
                anchor,
                anchor_grid,
                anchor_row,
                anchor_col,
                focusable,
            } => {
                self.show(grid);
                self.set_grid_window(
                    grid,
                    Window::Floating(
                        FloatingWindow { anchor, anchor_grid, anchor_col, anchor_row, focusable },
                    ),
                );
            },
            Event::WinExternalPos { grid, win: _ } => self.set_grid_window(grid, Window::External),
            Event::WinHide { grid } => self.hide_grid(grid),
            Event::WinClose { grid } => {
                self.hide_grid(grid);
                self.set_grid_window(grid, Window::Unset);
            },
            Event::WinViewport { grid, scroll_delta, .. } => self.set_scroll_delta(
                grid,
                scroll_delta,
            ),
            Event::WinExtmark => {},
            Event::PopupmenuShow(e) => self.popupmenu = Some(e),
            Event::PopupmenuSelect { selected } => {
                if let Some(menu) = &mut self.popupmenu {
                    menu.selected = selected;
                }
            },
            Event::PopupmenuHide => self.popupmenu = None,
            Event::CmdlineShow(e) => self.cmdline.show(e),
            Event::CmdlinePos(e) => self.cmdline.set_cursor_pos(e.pos),
            Event::CmdlineBlockShow(e) => self.cmdline.show_block(e.lines),
            Event::CmdlineBlockAppend(e) => self.cmdline.append_block(e.line),
            Event::CmdlineSpecialChar(e) => self.cmdline.special(e),
            Event::CmdlineHide => self.cmdline.hide_prompt(),
            Event::CmdlineBlockHide => self.cmdline.hide_block(),
            Event::MsgHistoryShow { entries } => self.messages.history = entries,
            Event::MsgRuler { content } => self.messages.ruler = content,
            Event::MsgSetPos { grid, row, scrolled, sep_char } => self.set_message_position(
                grid,
                row,
                scrolled,
                sep_char,
            ),
            Event::MsgShow(e) => self.messages.show(e),
            Event::MsgShowmode { content } => self.messages.showmode = content,
            Event::MsgShowcmd { content } => self.messages.showcmd = content,
            Event::MsgClear => self.messages.show.clear(),
            Event::MsgHistoryClear => self.messages.history.clear(),
            Event::TablineUpdate(e) => self.tabline = Some(e),
            Event::MouseOn => self.mouse = true,
            Event::MouseOff => self.mouse = false,
            Event::BusyStart => self.cursor.enabled = false,
            Event::BusyStop => self.cursor.enabled = true,
            Event::Flush => {},
            Event::Suspend
            | Event::SetTitle(_)
            | Event::SetIcon(_)
            | Event::UpdateMenu
            | Event::Bell
            | Event::VisualBell => {},
        }
    }

}

/// Putting a grid with the same id in place of another keeps the grids sorted, finds the new
/// grid by that id and leaves every other id finding what it found.
pub proof fn lemma_replace_grid(g: Seq<Grid>, i: int, ng: Grid)
    requires
        grids_sorted(g),
        0 <= i < g.len(),
        ng.id == g[i].id,
    ensures
        grids_sorted(g.update(i, ng)),
        find_grid(g.update(i, ng), ng.id) == Some(ng),
        find_grid(g, ng.id) == Some(g[i]),
        forall|id: u64| id != ng.id ==> #[trigger] find_grid(g.update(i, ng), id) == find_grid(g, id),
{
    let h = g.update(i, ng);
    lemma_find_grid(h, ng.id, i);
    lemma_find_grid(g, ng.id, i);
    assert forall|id: u64| id != ng.id implies #[trigger] find_grid(h, id) == find_grid(g, id) by {
        if has_grid(g, id) {
            let k = choose|k: int| 0 <= k < g.len() && g[k].id == id;
            assert(h[k].id == id);
            lemma_find_grid(g, id, k);
            lemma_find_grid(h, id, k);
        } else if has_grid(h, id) {
            let k = choose|k: int| 0 <= k < h.len() && h[k].id == id;
            assert(g[k].id == id);
        }
    }
}

/// Putting a grid in its sorted place keeps the grids sorted, finds it by its id and leaves
/// every other id finding what it found.
pub proof fn lemma_insert_grid(g: Seq<Grid>, i: int, ng: Grid)
    requires
        grids_sorted(g),
        0 <= i <= g.len(),
        forall|j: int| 0 <= j < i ==> #[trigger] g[j].id < ng.id,
        forall|j: int| i <= j < g.len() ==> #[trigger] g[j].id > ng.id,
    ensures
        grids_sorted(g.insert(i, ng)),
        find_grid(g.insert(i, ng), ng.id) == Some(ng),
        !has_grid(g, ng.id),
        forall|id: u64| id != ng.id ==> #[trigger] find_grid(g.insert(i, ng), id) == find_grid(g, id),
{
    let h = g.insert(i, ng);
    assert(grids_sorted(h)) by {
        assert forall|a: int, b: int| 0 <= a < b < h.len() implies h[a].id < h[b].id by {
            if a < i && b < i {
            } else if a < i && b == i {
            } else if a < i {
                assert(h[b] == g[b - 1]);
            } else if a == i {
                assert(h[b] == g[b - 1]);
            } else {
                assert(h[a] == g[a - 1]);
                assert(h[b] == g[b - 1]);
            }
        }
    }
    lemma_find_grid(h, ng.id, i);
    assert forall|id: u64| id != ng.id implies #[trigger] find_grid(h, id) == find_grid(g, id) by {
        if has_grid(g, id) {
            let k = choose|k: int| 0 <= k < g.len() && g[k].id == id;
            lemma_find_grid(g, id, k);
            if k < i {
                assert(h[k] == g[k]);
                lemma_find_grid(h, id, k);
            } else {
                assert(h[k + 1] == g[k]);
                lemma_find_grid(h, id, k + 1);
            }
        } else if has_grid(h, id) {
            let k = choose|k: int| 0 <= k < h.len() && h[k].id == id;
            if k < i {
                assert(g[k].id == id);
            } else if k > i {
                assert(g[k - 1].id == id);
            }
        }
    }
}

/// Taking a grid out keeps the grids sorted, finds nothing by its id and leaves every other
/// id finding what it found.
pub proof fn lemma_remove_grid(g: Seq<Grid>, i: int)
    requires
        grids_sorted(g),
        0 <= i < g.len(),
    ensures
        grids_sorted(g.remove(i)),
        !has_grid(g.remove(i), g[i].id),
        forall|id: u64| id != g[i].id ==> #[trigger] find_grid(g.remove(i), id) == find_grid(g, id),
{
    let h = g.remove(i);
    assert(grids_sorted(h)) by {
        assert forall|a: int, b: int| 0 <= a < b < h.len() implies h[a].id < h[b].id by {
            if b < i {
            } else if a < i {
                assert(h[b] == g[b + 1]);
            } else {
                assert(h[a] == g[a + 1]);
                assert(h[b] == g[b + 1]);
            }
        }
    }
    if has_grid(h, g[i].id) {
        let k = choose|k: int| 0 <= k < h.len() && h[k].id == g[i].id;
        if k < i {
            assert(h[k] == g[k]);
        } else {
            assert(h[k] == g[k + 1]);
        }
    }
    assert forall|id: u64| id != g[i].id implies #[trigger] find_grid(h, id) == find_grid(g, id) by {
        if has_grid(g, id) {
            let k = choose|k: int| 0 <= k < g.len() && g[k].id == id;
            lemma_find_grid(g, id, k);
            if k < i {
                assert(h[k] == g[k]);
                lemma_find_grid(h, id, k);
            } else {
                assert(k != i);
                assert(h[k - 1] == g[k]);
                lemma_find_grid(h, id, k - 1);
            }
        } else if has_grid(h, id) {
            let k = choose|k: int| 0 <= k < h.len() && h[k].id == id;
            if k < i {
                assert(g[k].id == id);
            } else {
                assert(g[k + 1].id == id);
            }
        }
    }
}

/// In sorted grids, the grid found by id is the one at its index.
pub proof fn lemma_find_grid(g: Seq<Grid>, id: u64, i: int)
    requires
        grids_sorted(g),
        0 <= i < g.len(),
        g[i].id == id,
    ensures
        find_grid(g, id) == Some(g[i]),
{
    let k = choose|k: int| 0 <= k < g.len() && g[k].id == id;
    if k < i {
    } else if i < k {
    }
}

/// The grid that an event shows on top of the others, where it shows one.
pub open spec fn shown_grid(e: Event) -> Option<u64> {
    match e {
        Event::WinPos { grid, .. } => Some(grid),
        Event::WinFloatPos { grid, .. } => Some(grid),
        Event::MsgSetPos { grid, .. } => Some(grid),
        _ => None,
    }
}

/// Without a grid, a draw order that names each grid once does not name it, and still
/// names each grid once.
pub proof fn lemma_without(d: Seq<u64>, g: u64)
    requires
        d.no_duplicates(),
    ensures
        !without(d, g).contains(g),
        without(d, g).no_duplicates(),
        forall|x: u64| x != g ==> (#[trigger] without(d, g).contains(x) == d.contains(x)),
{
    if d.contains(g) {
        let k = choose|i: int| 0 <= i < d.len() && d[i] == g;
        let w = d.remove(k);
        assert forall|i: int| 0 <= i < w.len() implies w[i] != g by {
            if i < k {
                assert(w[i] == d[i]);
            } else {
                assert(w[i] == d[i + 1]);
            }
        }
        assert forall|a: int, b: int| 0 <= a < b < w.len() implies w[a] != w[b] by {
            let a2 = if a < k { a } else { a + 1 };
            let b2 = if b < k { b } else { b + 1 };
            assert(w[a] == d[a2]);
            assert(w[b] == d[b2]);
        }
        assert forall|x: u64| x != g implies (#[trigger] w.contains(x) == d.contains(x)) by {
            if d.contains(x) {
                let j = choose|i: int| 0 <= i < d.len() && d[i] == x;
                if j < k {
                    assert(w[j] == x);
                } else {
                    assert(j != k);
                    assert(w[j - 1] == x);
                }
            }
            if w.contains(x) {
                let j = choose|i: int| 0 <= i < w.len() && w[i] == x;
                if j < k {
                    assert(d[j] == x);
                } else {
                    assert(d[j + 1] == x);
                }
            }
        }
    }
}

/// Taking a grid off the top of a draw order that names it nowhere else gives that order
/// back.
pub proof fn lemma_without_pushed(s: Seq<u64>, g: u64)
    requires
        !s.contains(g),
    ensures
        without(s.push(g), g) == s,
{
    let t = s.push(g);
    assert(t[s.len() as int] == g);
    let k = choose|i: int| 0 <= i < t.len() && t[i] == g;
    if k < s.len() {
        assert(s[k] == g);
    }
    assert(t.remove(k) =~= s);
}

/// A grid that an event shows is drawn last, on top of the others; hiding it right after
/// leaves the draw order as hiding it alone would have left it.
pub proof fn shown_grid_is_on_top_until_hidden(a: Ui, b: Ui, c: Ui, e: Event, grid: u64)
    requires
        a.wf(),
        Ui::processed(a, b, e),
        shown_grid(e) == Some(grid),
        Ui::processed(b, c, Event::WinHide { grid }),
    ensures
        b.draw_order@.len() > 0,
        b.draw_order@.last() == grid,
        c.draw_order@ == without(a.draw_order@, grid),
{
    lemma_without(a.draw_order@, grid);
    lemma_without_pushed(without(a.draw_order@, grid), grid);
}

/// After a `grid_line` event, each column that one of its cells covers shows that cell's
/// text (a space for an empty one) with the highlight in effect at that cell.
pub proof fn processed_grid_line_reads_back(
    a: Ui,
    b: Ui,
    grid: u64,
    row: u64,
    col_start: u64,
    cells: Vec<LineCell>,
    k: int,
    x: int,
)
    requires
        a.can_process(Event::GridLine { grid, row, col_start, cells }),
        Ui::processed(a, b, Event::GridLine { grid, row, col_start, cells }),
        0 <= k < cells@.len(),
        col_start + grid::line_width(cells@, k) <= x < col_start + grid::line_width(cells@, k + 1),
    ensures
        ({
            let g = find_grid(b.grids@, grid).unwrap();
            &&& grid::cell_text(g.contents.overflow@, g.contents.cell(x, row as int))
                == grid::shown_text(cells@[k].text@)
            &&& g.contents.cell(x, row as int).highlight == grid::line_highlight(cells@, k + 1) as u32
        }),
{
    let og = find_grid(a.grids@, grid).unwrap();
    let ng = find_grid(b.grids@, grid).unwrap();
    assert(ng.contents.cell(x, row as int) == grid::line_cell(
        cells@,
        k,
        og.contents.overflow@.len() as int,
    ));
    grid::grid_line_reads_back(og.contents.overflow@, ng.contents.overflow@, cells@, k);
}

/// A defined highlight is found at its id, and every other highlight keeps its entry.
pub proof fn defined_highlight_at_its_id(old: Seq<HlAttrDefine>, e: HlAttrDefine)
    ensures
        ({
            let i = (e.id as usize) as int;
            let new = highlights_after(old, e);
            &&& new.len() > i
            &&& new[i] == e
            &&& forall|j: int| 0 <= j < old.len() && j != i ==> #[trigger] new[j] == old[j]
        }),
{
}

/// Once a highlight group is set, looking it up gives the id it was set to, and every other
/// group gives what it gave before.
pub proof fn group_set_reads_back(old: Seq<(String, u64)>, name: String, hl_id: u64, other: Seq<char>)
    requires
        group_names_unique(old),
    ensures
        group_lookup(groups_after(old, name, hl_id), name@) == Some(hl_id),
        other != name@ ==> group_lookup(groups_after(old, name, hl_id), other) == group_lookup(
            old,
            other,
        ),
{
    let new = groups_after(old, name, hl_id);
    if exists|i: int| 0 <= i < old.len() && old[i].0@ == name@ {
        let k = choose|i: int| 0 <= i < old.len() && old[i].0@ == name@;
        assert(new[k].0@ == name@);
        let c = choose|i: int| 0 <= i < new.len() && new[i].0@ == name@;
        if c != k {
            assert(old[c].0@ == name@);
            if c < k {
                assert(old[c].0@ != old[k].0@);
            } else {
                assert(old[k].0@ != old[c].0@);
            }
        }
        if other != name@ {
            if exists|i: int| 0 <= i < old.len() && old[i].0@ == other {
                let a = choose|i: int| 0 <= i < old.len() && old[i].0@ == other;
                assert(new[a] == old[a]);
                let b = choose|i: int| 0 <= i < new.len() && new[i].0@ == other;
                assert(new[b] == old[b]);
                if a != b {
                    if a < b {
                        assert(old[a].0@ != old[b].0@);
                    } else {
                        assert(old[b].0@ != old[a].0@);
                    }
                }
            } else {
                assert forall|i: int| 0 <= i < new.len() implies new[i].0@ != other by {
                    if i != k {
                        assert(new[i] == old[i]);
                    }
                }
            }
        }
    } else {
        let n = old.len() as int;
        assert(new[n].0@ == name@);
        let c = choose|i: int| 0 <= i < new.len() && new[i].0@ == name@;
        if c != n {
            assert(new[c] == old[c]);
        }
        if other != name@ {
            if exists|i: int| 0 <= i < old.len() && old[i].0@ == other {
                let a = choose|i: int| 0 <= i < old.len() && old[i].0@ == other;
                assert(new[a] == old[a]);
                let b = choose|i: int| 0 <= i < new.len() && new[i].0@ == other;
                assert(new[b] == old[b]);
                if a != b {
                    if a < b {
                        assert(old[a].0@ != old[b].0@);
                    } else {
                        assert(old[b].0@ != old[a].0@);
                    }
                }
            } else {
                assert forall|i: int| 0 <= i < new.len() implies new[i].0@ != other by {
                    if i < n {
                        assert(new[i] == old[i]);
                    }
                }
            }
        }
    }
}

} // verus!
