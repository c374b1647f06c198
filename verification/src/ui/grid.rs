//! The contents of a Neovim grid: a row-major buffer of packed cells, with the text of cells
//! that hold more than one char kept aside in `overflow`.
use super::packed_char::{PackedChar, PackedCharContents, U22};
use crate::event::grid_line::Cell as LineCell;
use super::window::Window;
use crate::util::vec2::Vec2;
use vstd::prelude::*;
use vstd::string::*;

verus! {

/// Which parts of a grid changed since the last flush.
#[derive(Debug, Default, Clone, Copy, PartialEq, Eq)]
pub struct DirtyFlags {
    contents: bool,
    window: bool,
}

impl DirtyFlags {
    pub fn new() -> (r: DirtyFlags)
        ensures
            !r.spec_contents(),
            !r.spec_window(),
    {
        DirtyFlags { contents: false, window: false }
    }

    pub closed spec fn spec_contents(self) -> bool {
        self.contents
    }

    pub closed spec fn spec_window(self) -> bool {
        self.window
    }

    pub fn contents(&self) -> (r: bool)
        ensures
            r == self.spec_contents(),
    {
        self.contents
    }

    pub fn window(&self) -> (r: bool)
        ensures
            r == self.spec_window(),
    {
        self.window
    }

    pub fn set_contents(&mut self, value: bool)
        ensures
            final(self).spec_contents() == value,
            final(self).spec_window() == old(self).spec_window(),
    {
        self.contents = value;
    }

    pub fn set_window(&mut self, value: bool)
        ensures
            final(self).spec_window() == value,
            final(self).spec_contents() == old(self).spec_contents(),
    {
        self.window = value;
    }
}

/// One grid cell: a char, or the index of its text in the overflow list, and a highlight.
#[derive(Debug, Clone, Copy, PartialEq, Eq)]
pub struct Cell {
    pub text: PackedChar,
    pub highlight: u32,
}

/// The empty cell: a NUL char with highlight 0.
pub open spec fn default_cell() -> Cell {
    Cell { text: PackedChar::spec_from_char('\0'), highlight: 0 }
}

impl Default for Cell {
    fn default() -> (r: Cell)
        ensures
            r == default_cell(),
    {
        Cell { text: PackedChar::default(), highlight: 0 }
    }
}

/// The cell at column `x` of row `y` in a row-major buffer of width `w`.
pub open spec fn cell_at(cells: Seq<Cell>, w: int, x: int, y: int) -> Cell {
    cells[y * w + x]
}

/// The text of each overflow entry.
pub open spec fn texts(v: Seq<String>) -> Seq<Seq<char>> {
    v.map_values(|s: String| s@)
}

/// Row-major indices of distinct cells of a grid are distinct and in bounds.
pub proof fn lemma_index(w: int, h: int, x: int, y: int)
    requires
        0 <= x < w,
        0 <= y < h,
    ensures
        0 <= y * w + x < w * h,
        y * w <= y * w + x,
        y * w + x < (y + 1) * w,
        (y + 1) * w <= w * h,
{
    assert(0 <= y * w) by (nonlinear_arith)
        requires
            0 <= y,
            0 < w,
    ;
    assert((y + 1) * w == y * w + w) by (nonlinear_arith);
    assert((y + 1) * w <= h * w) by (nonlinear_arith)
        requires
            y + 1 <= h,
            0 < w,
    ;
    assert(h * w == w * h) by (nonlinear_arith);
}

/// Every index of a row-major buffer is the index of some cell.
pub proof fn lemma_index_split(w: int, h: int, i: int)
    requires
        0 < w,
        0 <= i < w * h,
    ensures
        0 <= i % w < w,
        0 <= i / w < h,
        (i / w) * w + i % w == i,
{
    vstd::arithmetic::div_mod::lemma_fundamental_div_mod(i, w);
    assert(0 <= i % w < w) by (nonlinear_arith)
        requires
            0 < w,
    ;
    assert((i / w) * w == w * (i / w)) by (nonlinear_arith);
    assert(0 <= i / w) by (nonlinear_arith)
        requires
            0 < w,
            0 <= i,
    ;
    assert(i / w < h) by (nonlinear_arith)
        requires
            0 < w,
            i < w * h,
            i == w * (i / w) + i % w,
            0 <= i % w,
    ;
}

/// Two cells of a row-major buffer share an index only when they are the same cell.
pub proof fn lemma_index_unique(w: int, x1: int, y1: int, x2: int, y2: int)
    requires
        0 <= x1 < w,
        0 <= x2 < w,
        0 <= y1,
        0 <= y2,
        y1 * w + x1 == y2 * w + x2,
    ensures
        x1 == x2,
        y1 == y2,
{
    if y1 < y2 {
        assert(y1 * w + w <= y2 * w) by (nonlinear_arith)
            requires
                y1 + 1 <= y2,
                0 < w,
        ;
    } else if y2 < y1 {
        assert(y2 * w + w <= y1 * w) by (nonlinear_arith)
            requires
                y2 + 1 <= y1,
                0 < w,
        ;
    }
}


/// How many columns a `grid_line` cell fills.
pub open spec fn repeat_of(c: LineCell) -> int {
    match c.repeat {
        Some(r) => r as int,
        None => 1,
    }
}

/// How many columns the first `n` cells of a `grid_line` event fill.
pub open spec fn line_width(cells: Seq<LineCell>, n: int) -> int
    decreases n,
{
    if n <= 0 {
        0
    } else {
        line_width(cells, n - 1) + repeat_of(cells[n - 1])
    }
}

/// The highlight in effect once the first `n` cells of a `grid_line` event are read: the last
/// one given, or 0.
pub open spec fn line_highlight(cells: Seq<LineCell>, n: int) -> u64
    decreases n,
{
    if n <= 0 {
        0
    } else {
        match cells[n - 1].hl_id {
            Some(h) => h,
            None => line_highlight(cells, n - 1),
        }
    }
}

/// The texts of more than one char among the first `n` cells of a `grid_line` event.
pub open spec fn line_overflow(cells: Seq<LineCell>, n: int) -> Seq<Seq<char>>
    decreases n,
{
    if n <= 0 {
        Seq::empty()
    } else if cells[n - 1].text@.len() >= 2 {
        line_overflow(cells, n - 1).push(cells[n - 1].text@)
    } else {
        line_overflow(cells, n - 1)
    }
}

/// What cell `k` of a `grid_line` event holds: a space for empty text, its char for text of one
/// char, and otherwise the index its text gets in the overflow list, which held `base` texts
/// before the event.
pub open spec fn line_packed(cells: Seq<LineCell>, k: int, base: int) -> PackedChar {
    let t = cells[k].text@;
    if t.len() == 0 {
        PackedChar::spec_from_char(' ')
    } else if t.len() == 1 {
        PackedChar::spec_from_char(t[0])
    } else {
        PackedChar::spec_from_index((base + line_overflow(cells, k).len()) as u32)
    }
}

/// The grid cell that cell `k` of a `grid_line` event writes.
pub open spec fn line_cell(cells: Seq<LineCell>, k: int, base: int) -> Cell {
    Cell { text: line_packed(cells, k, base), highlight: line_highlight(cells, k + 1) as u32 }
}

pub(crate) proof fn lemma_line_width_mono(cells: Seq<LineCell>, j: int, k: int)
    requires
        0 <= j <= k,
    ensures
        line_width(cells, j) <= line_width(cells, k),
    decreases k - j,
{
    if j < k {
        lemma_line_width_mono(cells, j, k - 1);
    }
}

pub(crate) proof fn lemma_line_overflow_mono(cells: Seq<LineCell>, j: int, k: int)
    requires
        0 <= j <= k,
    ensures
        line_overflow(cells, j).len() <= line_overflow(cells, k).len(),
    decreases k - j,
{
    if j < k {
        lemma_line_overflow_mono(cells, j, k - 1);
    }
}

/// The first destination row of a scroll of the rows `[top, bot)` by `rows`.
pub open spec fn scroll_lo(top: int, rows: int, h: int) -> int {
    if rows > 0 {
        if top - rows > 0 {
            top - rows
        } else {
            0
        }
    } else if top - rows < h {
        top - rows
    } else {
        h
    }
}

/// One past the last destination row of a scroll of the rows `[top, bot)` by `rows`.
pub open spec fn scroll_hi(bot: int, rows: int, h: int) -> int {
    scroll_lo(bot, rows, h)
}

/// The cell at `(x, y)` once the rows `[lo, hi)` have taken, between columns `left` and
/// `right`, the cells `rows` rows below them (above them where `rows` is negative); the cells
/// moved out of rows that were not refilled are left empty.
pub open spec fn scrolled_cell(
    old: Seq<Cell>,
    w: int,
    left: int,
    right: int,
    rows: int,
    lo: int,
    hi: int,
    x: int,
    y: int,
) -> Cell {
    if left <= x < right && lo <= y < hi {
        cell_at(old, w, x, y + rows)
    } else if left <= x < right && lo <= y - rows < hi {
        default_cell()
    } else {
        cell_at(old, w, x, y)
    }
}

/// True when row `y` is among the rows `[a, b)` done, or column `x` of row `pr` is done.
spec fn scroll_done(a: int, b: int, pr: int, px: int, x: int, y: int) -> bool {
    (a <= y < b) || (y == pr && x < px)
}

/// The cell at `(x, y)` part way through a scroll.
spec fn scrolling_cell(
    old: Seq<Cell>,
    w: int,
    left: int,
    right: int,
    rows: int,
    a: int,
    b: int,
    pr: int,
    px: int,
    x: int,
    y: int,
) -> Cell {
    if left <= x < right && scroll_done(a, b, pr, px, x, y) {
        cell_at(old, w, x, y + rows)
    } else if left <= x < right && scroll_done(a, b, pr, px, x, y - rows) {
        default_cell()
    } else {
        cell_at(old, w, x, y)
    }
}

/// Before a cell moves in a scroll step, its source still holds its old cell.
proof fn lemma_scroll_pre(
    old: Seq<Cell>,
    cur: Seq<Cell>,
    w: int,
    h: int,
    left: int,
    right: int,
    rows: int,
    a: int,
    b: int,
    pr: int,
    x: int,
)
    requires
        cur.len() == w * h,
        0 <= left <= x < right <= w,
        0 <= pr < h,
        0 <= pr + rows < h,
        !(a <= pr < b),
        !(a <= pr + rows < b),
        forall|xx: int, yy: int|
            0 <= xx < w && 0 <= yy < h ==> #[trigger] cell_at(cur, w, xx, yy) == scrolling_cell(
                old,
                w,
                left,
                right,
                rows,
                a,
                b,
                pr,
                x,
                xx,
                yy,
            ),
    ensures
        0 <= (pr + rows) * w + x < cur.len(),
        0 <= pr * w + x < cur.len(),
        cell_at(cur, w, x, pr + rows) == cell_at(old, w, x, pr + rows),
{
    lemma_index(w, h, x, pr + rows);
    lemma_index(w, h, x, pr);
    assert(cell_at(cur, w, x, pr + rows) == scrolling_cell(old, w, left, right, rows, a, b, pr, x, x, pr + rows));
}

/// After a cell moves in a scroll step, the grid is one column further along.
proof fn lemma_scroll_post(
    old: Seq<Cell>,
    cur: Seq<Cell>,
    new: Seq<Cell>,
    w: int,
    h: int,
    left: int,
    right: int,
    rows: int,
    a: int,
    b: int,
    pr: int,
    x: int,
)
    requires
        cur.len() == w * h,
        0 <= left <= x < right <= w,
        0 <= pr < h,
        0 <= pr + rows < h,
        !(a <= pr < b),
        !(a <= pr + rows < b),
        cell_at(cur, w, x, pr + rows) == cell_at(old, w, x, pr + rows),
        new == cur.update((pr + rows) * w + x, default_cell()).update(
            pr * w + x,
            cell_at(cur, w, x, pr + rows),
        ),
        forall|xx: int, yy: int|
            0 <= xx < w && 0 <= yy < h ==> #[trigger] cell_at(cur, w, xx, yy) == scrolling_cell(
                old,
                w,
                left,
                right,
                rows,
                a,
                b,
                pr,
                x,
                xx,
                yy,
            ),
    ensures
        new.len() == w * h,
        forall|xx: int, yy: int|
            0 <= xx < w && 0 <= yy < h ==> #[trigger] cell_at(new, w, xx, yy) == scrolling_cell(
                old,
                w,
                left,
                right,
                rows,
                a,
                b,
                pr,
                x + 1,
                xx,
                yy,
            ),
{
    lemma_index(w, h, x, pr + rows);
    lemma_index(w, h, x, pr);
    assert forall|xx: int, yy: int| 0 <= xx < w && 0 <= yy < h implies #[trigger] cell_at(
        new,
        w,
        xx,
        yy,
    ) == scrolling_cell(old, w, left, right, rows, a, b, pr, x + 1, xx, yy) by {
        lemma_index(w, h, xx, yy);
        if yy * w + xx == pr * w + x {
            lemma_index_unique(w, xx, yy, x, pr);
        } else if yy * w + xx == (pr + rows) * w + x {
            lemma_index_unique(w, xx, yy, x, pr + rows);
        } else {
            assert(cell_at(new, w, xx, yy) == cell_at(cur, w, xx, yy));
            if xx == x && yy == pr {
            } else if xx == x && yy == pr + rows {
            }
        }
    }
}

/// The text of a cell: one char, or the text kept in the overflow list.
#[derive(Debug, Clone, PartialEq, Eq)]
pub enum OnceOrChars {
    Char(char),
    Chars(String),
}

impl OnceOrChars {
    pub open spec fn chars(&self) -> Seq<char> {
        match self {
            OnceOrChars::Char(c) => seq![*c],
            OnceOrChars::Chars(s) => s@,
        }
    }
}

/// A cell with its text read out.
#[derive(Debug, Clone, PartialEq, Eq)]
pub struct CellContents {
    pub highlight: u32,
    pub text: OnceOrChars,
}

/// The text a cell shows, given the overflow list of its grid.
pub open spec fn cell_text(overflow: Seq<String>, c: Cell) -> Seq<char> {
    match c.text.spec_contents() {
        PackedCharContents::Char(ch) => seq![ch],
        PackedCharContents::U22(u) => overflow[u@ as int]@,
    }
}

/// The cell refers to no overflow entry, or to one of the first `n`.
pub open spec fn cell_ref_ok(c: Cell, n: int) -> bool {
    match c.text.spec_contents() {
        PackedCharContents::Char(_) => true,
        PackedCharContents::U22(u) => u@ < n,
    }
}

/// Every cell that refers to the overflow list refers to an entry it holds.
pub open spec fn overflow_refs_valid(buffer: Seq<Cell>, overflow: Seq<String>) -> bool {
    forall|i: int| 0 <= i < buffer.len() ==> cell_ref_ok(#[trigger] buffer[i], overflow.len() as int)
}

/// The empty cell refers to no overflow entry.
pub proof fn lemma_default_cell_ref(n: int)
    ensures
        cell_ref_ok(default_cell(), n),
{
    crate::ui::packed_char::char_pack_roundtrip('\0');
}

/// Where every cell of a grid refers to one of the first `n` overflow entries, so does every
/// index of its buffer.
pub proof fn lemma_refs_by_cells(buf: Seq<Cell>, w: int, h: int, n: int)
    requires
        buf.len() == w * h,
        0 <= w,
        0 <= h,
        forall|x: int, y: int|
            0 <= x < w && 0 <= y < h ==> cell_ref_ok(#[trigger] cell_at(buf, w, x, y), n),
    ensures
        forall|i: int| 0 <= i < buf.len() ==> cell_ref_ok(#[trigger] buf[i], n),
{
    assert forall|i: int| 0 <= i < buf.len() implies cell_ref_ok(#[trigger] buf[i], n) by {
        if w == 0 {
            assert(w * h == 0) by (nonlinear_arith)
                requires
                    w == 0,
            ;
        } else {
            lemma_index_split(w, h, i);
            assert(cell_at(buf, w, i % w, i / w) == buf[i]);
        }
    }
}

/// The length of row `m` when `len` cells are split into rows of `w`.
pub open spec fn chunk_len(m: int, w: int, len: int) -> int {
    if (m + 1) * w <= len {
        w
    } else {
        len - m * w
    }
}

/// `k` rows of width `w` are the fewest that hold `len` cells when `k - 1` rows hold fewer.
proof fn lemma_row_count(len: int, w: int, k: int)
    requires
        w > 0,
        0 <= len <= k * w,
        k > 0 ==> (k - 1) * w < len,
        k >= 0,
    ensures
        k == (len + w - 1) / w,
{
    if k == 0 {
        assert(len == 0) by (nonlinear_arith)
            requires
                len <= k * w,
                k == 0,
                len >= 0,
        ;
        assert((w - 1) / w == 0) by (nonlinear_arith)
            requires
                w > 0,
        ;
    } else {
        assert((len + w - 1) / w == k) by (nonlinear_arith)
            requires
                w > 0,
                len <= k * w,
                (k - 1) * w < len,
                k > 0,
        ;
    }
}

impl GridContents {
    /// `new` is `old` resized to `size`: the cells where both overlap kept, the rest empty.
    pub open spec fn resized(old: GridContents, new: GridContents, size: Vec2<u64>) -> bool {
        &&& new.wf()
        &&& new.size == size
        &&& new.overflow == old.overflow
        &&& forall|x: int, y: int|
            0 <= x < size.x && 0 <= y < size.y ==> #[trigger] new.cell(x, y) == (if x < old.size.x
                && y < old.size.y {
                old.cell(x, y)
            } else {
                default_cell()
            })
    }

    /// `new` is `old` with every cell empty.
    pub open spec fn cleared(old: GridContents, new: GridContents) -> bool {
        &&& new.size == old.size
        &&& new.overflow == old.overflow
        &&& new.buffer@.len() == old.buffer@.len()
        &&& forall|i: int| 0 <= i < new.buffer@.len() ==> #[trigger] new.buffer@[i] == default_cell()
    }

    /// `new` is `old` after the scroll of a `grid_scroll` event.
    pub open spec fn scrolled(
        old: GridContents,
        new: GridContents,
        top: u64,
        bot: u64,
        left: u64,
        right: u64,
        rows: i64,
    ) -> bool {
        &&& new.wf()
        &&& new.size == old.size
        &&& new.overflow == old.overflow
        &&& forall|x: int, y: int|
            0 <= x < old.size.x && 0 <= y < old.size.y ==> #[trigger] new.cell(x, y)
                == scrolled_cell(
                old.buffer@,
                old.size.x as int,
                left as int,
                right as int,
                rows as int,
                scroll_lo(top as int, rows as int, old.size.y as int),
                scroll_hi(bot as int, rows as int, old.size.y as int),
                x,
                y,
            )
    }

    /// `new` is `old` after a `grid_line` event wrote `cells` into row `row` from column
    /// `col_start` on.
    pub open spec fn line_written(
        old: GridContents,
        new: GridContents,
        row: u64,
        col_start: u64,
        cells: Seq<LineCell>,
    ) -> bool {
        &&& new.wf()
        &&& new.size == old.size
        &&& texts(new.overflow@) == texts(old.overflow@) + line_overflow(cells, cells.len() as int)
        &&& forall|k: int, x: int|
            #![trigger new.cell(x, row as int), line_cell(cells, k, old.overflow@.len() as int)]
            0 <= k < cells.len() && col_start + line_width(cells, k) <= x < col_start + line_width(
                cells,
                k + 1,
            ) ==> new.cell(x, row as int) == line_cell(cells, k, old.overflow@.len() as int)
        &&& forall|x: int, y: int|
            0 <= x < old.size.x && 0 <= y < old.size.y && !(y == row && col_start <= x < col_start
                + line_width(cells, cells.len() as int)) ==> #[trigger] new.cell(x, y) == old.cell(x, y)
    }
}

/// A Neovim grid: its id, what changed since the last flush, its window and its contents.
#[derive(Debug)]
pub struct Grid {
    pub id: u64,
    pub scroll_delta: i64,
    pub dirty: DirtyFlags,
    pub window: Window,
    pub contents: GridContents,
}

impl Grid {
    /// `ng` is `og` with other contents, marked dirty.
    pub open spec fn contents_changed(og: Grid, ng: Grid) -> bool {
        &&& ng.id == og.id
        &&& ng.scroll_delta == og.scroll_delta
        &&& ng.window == og.window
        &&& ng.dirty.spec_contents()
        &&& ng.dirty.spec_window() == og.dirty.spec_window()
    }

    /// `ng` is `og` with another window, marked dirty.
    pub open spec fn window_changed(og: Grid, ng: Grid) -> bool {
        &&& ng.id == og.id
        &&& ng.scroll_delta == og.scroll_delta
        &&& ng.contents == og.contents
        &&& ng.dirty.spec_window()
        &&& ng.dirty.spec_contents() == og.dirty.spec_contents()
    }

    /// `g` is a new grid with id `id` and no cells, shown nowhere.
    pub open spec fn is_new(g: Grid, id: u64) -> bool {
        &&& g.id == id
        &&& g.scroll_delta == 0
        &&& !g.dirty.spec_contents()
        &&& !g.dirty.spec_window()
        &&& g.window == Window::Unset
        &&& g.contents.size == (Vec2::<u64> { x: 0, y: 0 })
        &&& g.contents.buffer@.len() == 0
        &&& g.contents.overflow@.len() == 0
    }

    /// An empty grid with id `id`, shown nowhere.
    pub fn new(id: u64) -> (r: Grid)
        ensures
            r.id == id,
            r.scroll_delta == 0,
            !r.dirty.spec_contents(),
            !r.dirty.spec_window(),
            r.window == Window::Unset,
            r.contents.size == (Vec2::<u64> { x: 0, y: 0 }),
            r.contents.buffer@.len() == 0,
            r.contents.overflow@.len() == 0,
    {
        Grid {
            id,
            scroll_delta: 0,
            dirty: DirtyFlags::new(),
            window: Window::Unset,
            contents: GridContents::new(),
        }
    }

    pub fn contents(&self) -> (r: &GridContents)
        ensures
            *r == self.contents,
    {
        &self.contents
    }

    /// The contents, to change; they are marked dirty.
    pub fn contents_mut(&mut self) -> (r: &mut GridContents)
        ensures
            *r == old(self).contents,
            final(self).contents == *final(r),
            final(self).dirty.spec_contents(),
            final(self).dirty.spec_window() == old(self).dirty.spec_window(),
            final(self).id == old(self).id,
            final(self).scroll_delta == old(self).scroll_delta,
            final(self).window == old(self).window,
    {
        self.dirty.set_contents(true);
        &mut self.contents
    }

    pub fn window(&self) -> (r: &Window)
        ensures
            *r == self.window,
    {
        &self.window
    }

    /// The window, to change; it is marked dirty.
    pub fn window_mut(&mut self) -> (r: &mut Window)
        ensures
            *r == old(self).window,
            final(self).window == *final(r),
            final(self).dirty.spec_window(),
            final(self).dirty.spec_contents() == old(self).dirty.spec_contents(),
            final(self).id == old(self).id,
            final(self).scroll_delta == old(self).scroll_delta,
            final(self).contents == old(self).contents,
    {
        self.dirty.set_window(true);
        &mut self.window
    }

    /// Clears the dirty flags and the scroll delta.
    pub fn clear_dirty(&mut self)
        ensures
            !final(self).dirty.spec_contents(),
            !final(self).dirty.spec_window(),
            final(self).scroll_delta == 0,
            final(self).id == old(self).id,
            final(self).window == old(self).window,
            final(self).contents == old(self).contents,
    {
        self.dirty.set_window(false);
        self.dirty.set_contents(false);
        self.scroll_delta = 0;
    }
}

#[derive(Debug)]
pub struct GridContents {
    pub size: Vec2<u64>,
    pub buffer: Vec<Cell>,
    pub overflow: Vec<String>,
}

impl Clone for GridContents {
    fn clone(&self) -> (r: GridContents)
        ensures
            r.size == self.size,
            r.buffer@ == self.buffer@,
            texts(r.overflow@) == texts(self.overflow@),
    {
        let buffer = self.buffer.clone();
        let overflow = self.overflow.clone();
        proof {
            assert(buffer@ =~= self.buffer@) by {
                assert forall|i: int| 0 <= i < buffer@.len() implies buffer@[i] == self.buffer@[i] by {
                    assert(vstd::pervasive::cloned(self.buffer@[i], buffer@[i]));
                }
            }
            assert(texts(overflow@) =~= texts(self.overflow@)) by {
                assert forall|i: int| 0 <= i < overflow@.len() implies overflow@[i]@ == self.overflow@[i]@ by {
                    assert(vstd::pervasive::cloned(self.overflow@[i], overflow@[i]));
                }
            }
        }
        GridContents { size: self.size, buffer, overflow }
    }
}

impl GridContents {
    /// The buffer holds exactly one cell per column of each row.
    pub open spec fn wf(&self) -> bool {
        &&& self.buffer@.len() == self.size.x * self.size.y
        &&& self.size.x * self.size.y <= usize::MAX
    }

    /// The cell at column `x` of row `y`.
    pub open spec fn cell(&self, x: int, y: int) -> Cell {
        cell_at(self.buffer@, self.size.x as int, x, y)
    }

    /// An empty grid of size 0 by 0.
    pub fn new() -> (r: GridContents)
        ensures
            r.size == (Vec2::<u64> { x: 0, y: 0 }),
            r.buffer@.len() == 0,
            r.overflow@.len() == 0,
            r.wf(),
    {
        GridContents { size: Vec2::new(0, 0), buffer: Vec::new(), overflow: Vec::new() }
    }

    /// The buffer index of a position: `y * width + x`.
    pub fn index_for(&self, position: Vec2<u64>) -> (r: usize)
        requires
            position.y * self.size.x + position.x <= u64::MAX,
        ensures
            r == (position.y * self.size.x + position.x) as usize,
    {
        proof {
            assert(0 <= position.y * self.size.x) by (nonlinear_arith);
        }
        (position.y * self.size.x + position.x) as usize
    }

    pub fn get(&self, position: Vec2<u64>) -> (r: &Cell)
        requires
            position.y * self.size.x + position.x < self.buffer@.len(),
        ensures
            *r == self.buffer@[position.y * self.size.x + position.x],
    {
        let _ = self.buffer.len();
        let i = self.index_for(position);
        &self.buffer[i]
    }

    /// Takes the cell at a position, leaving the empty cell there.
    pub fn take(&mut self, position: Vec2<u64>) -> (r: Cell)
        requires
            position.y * old(self).size.x + position.x < old(self).buffer@.len(),
        ensures
            r == old(self).buffer@[position.y * old(self).size.x + position.x],
            final(self).buffer@ == old(self).buffer@.update(
                position.y * old(self).size.x + position.x,
                default_cell(),
            ),
            final(self).size == old(self).size,
            final(self).overflow == old(self).overflow,
    {
        let _ = self.buffer.len();
        let i = self.index_for(position);
        let r = self.buffer[i];
        self.buffer.set(i, Cell::default());
        r
    }

    pub fn set(&mut self, position: Vec2<u64>, value: Cell)
        requires
            position.y * old(self).size.x + position.x < old(self).buffer@.len(),
        ensures
            final(self).buffer@ == old(self).buffer@.update(
                position.y * old(self).size.x + position.x,
                value,
            ),
            final(self).size == old(self).size,
            final(self).overflow == old(self).overflow,
    {
        let _ = self.buffer.len();
        let i = self.index_for(position);
        self.buffer.set(i, value);
    }

    /// Empties every cell.
    pub fn clear(&mut self)
        ensures
            final(self).buffer@.len() == old(self).buffer@.len(),
            forall|i: int|
                0 <= i < final(self).buffer@.len() ==> #[trigger] final(self).buffer@[i]
                    == default_cell(),
            final(self).size == old(self).size,
            final(self).overflow == old(self).overflow,
            overflow_refs_valid(final(self).buffer@, final(self).overflow@),
            GridContents::cleared(*old(self), *final(self)),
    {
        proof {
            lemma_default_cell_ref(self.overflow@.len() as int);
        }
        let n = self.buffer.len();
        let mut i: usize = 0;
        while i < n
            invariant
                n == self.buffer@.len(),
                n == old(self).buffer@.len(),
                i <= n,
                forall|j: int| 0 <= j < i ==> #[trigger] self.buffer@[j] == default_cell(),
                self.size == old(self).size,
                self.overflow == old(self).overflow,
            decreases n - i,
        {
            self.buffer.set(i, Cell::default());
            i += 1;
        }
    }

    /// Takes the size and cells of `other`, and the overflow entries it has beyond the ones
    /// this grid already holds.
    pub fn copy_from(&mut self, other: &GridContents)
        requires
            old(self).overflow@.len() <= other.overflow@.len(),
        ensures
            final(self).size == other.size,
            final(self).buffer@ == other.buffer@,
            texts(final(self).overflow@) == texts(old(self).overflow@) + texts(
                other.overflow@.subrange(old(self).overflow@.len() as int, other.overflow@.len() as int),
            ),
            final(self).overflow@.len() == other.overflow@.len(),
            overflow_refs_valid(other.buffer@, other.overflow@) ==> overflow_refs_valid(
                final(self).buffer@,
                final(self).overflow@,
            ),
    {
        self.size = other.size;
        let start = self.overflow.len();
        let mut i = start;
        while i < other.overflow.len()
            invariant
                self.size == other.size,
                start == old(self).overflow@.len(),
                start <= i <= other.overflow@.len(),
                texts(self.overflow@) == texts(old(self).overflow@) + texts(
                    other.overflow@.subrange(start as int, i as int),
                ),
            decreases other.overflow@.len() - i,
        {
            let s = other.overflow[i].clone();
            let ghost before = self.overflow@;
            self.overflow.push(s);
            proof {
                assert(other.overflow@.subrange(start as int, i + 1) =~= other.overflow@.subrange(
                    start as int,
                    i as int,
                ).push(other.overflow@[i as int]));
                assert(texts(self.overflow@) =~= texts(before).push(s@));
                assert(texts(other.overflow@.subrange(start as int, i + 1)) =~= texts(
                    other.overflow@.subrange(start as int, i as int),
                ).push(other.overflow@[i as int]@));
            }
            i += 1;
        }
        let mut buffer: Vec<Cell> = Vec::new();
        let mut j: usize = 0;
        while j < other.buffer.len()
            invariant
                self.size == other.size,
                j <= other.buffer@.len(),
                buffer@ == other.buffer@.subrange(0, j as int),
            decreases other.buffer@.len() - j,
        {
            buffer.push(other.buffer[j]);
            proof {
                assert(other.buffer@.subrange(0, j + 1) =~= other.buffer@.subrange(0, j as int).push(
                    other.buffer@[j as int],
                ));
            }
            j += 1;
        }
        proof {
            assert(other.buffer@.subrange(0, j as int) =~= other.buffer@);
            assert(texts(self.overflow@).len() == self.overflow@.len());
            assert(texts(old(self).overflow@).len() == old(self).overflow@.len());
            assert(texts(other.overflow@.subrange(start as int, i as int)).len() == i - start);
        }
        self.buffer = buffer;
    }

    /// Moves the cells of the rows `[top, bot)` between the columns `left` and `right` up by
    /// `rows` rows (down where `rows` is negative), leaving empty the cells they moved out of.
    pub fn scroll(&mut self, top: u64, bot: u64, left: u64, right: u64, rows: i64)
        requires
            old(self).wf(),
            top <= old(self).size.y,
            bot <= old(self).size.y,
            right <= old(self).size.x,
            old(self).size.y <= i64::MAX,
            i64::MIN <= top - rows <= i64::MAX,
            i64::MIN <= bot - rows <= i64::MAX,
        ensures
            GridContents::scrolled(*old(self), *final(self), top, bot, left, right, rows),
            final(self).wf(),
            final(self).size == old(self).size,
            final(self).overflow == old(self).overflow,
            overflow_refs_valid(old(self).buffer@, old(self).overflow@) ==> overflow_refs_valid(
                final(self).buffer@,
                final(self).overflow@,
            ),
            forall|x: int, y: int|
                0 <= x < old(self).size.x && 0 <= y < old(self).size.y
                    ==> #[trigger] final(self).cell(x, y) == scrolled_cell(
                    old(self).buffer@,
                    old(self).size.x as int,
                    left as int,
                    right as int,
                    rows as int,
                    scroll_lo(top as int, rows as int, old(self).size.y as int),
                    scroll_hi(bot as int, rows as int, old(self).size.y as int),
                    x,
                    y,
                ),
    {
        let ghost old_buf = self.buffer@;
        let ghost w = self.size.x as int;
        let ghost h = self.size.y as int;
        let height = self.size.y;
        let dst_top = top as i64 - rows;
        let dst_bot = bot as i64 - rows;
        let ghost lo = scroll_lo(top as int, rows as int, h);
        let ghost hi = scroll_hi(bot as int, rows as int, h);
        if rows > 0 {
            let lo_e = if dst_top > 0 {
                dst_top
            } else {
                0
            };
            let hi_e = if dst_bot > 0 {
                dst_bot
            } else {
                0
            };
            let mut d = lo_e;
            while d < hi_e
                invariant
                    self.wf(),
                    self.size == old(self).size,
                    self.overflow == old(self).overflow,
                    w == self.size.x,
                    h == self.size.y,
                    lo == lo_e,
                    hi == hi_e,
                    rows > 0,
                    lo_e >= 0,
                    hi_e > 0 ==> hi_e == bot - rows,
                    h <= i64::MAX,
                    bot <= h,
                    right <= w,
                    lo_e <= d <= hi_e || hi_e < lo_e,
                    d >= lo_e,
                    hi_e < lo_e ==> d == lo_e,
                    forall|x: int, y: int|
                        0 <= x < w && 0 <= y < h ==> #[trigger] cell_at(self.buffer@, w, x, y) == scrolling_cell(
                            old_buf,
                            w,
                            left as int,
                            right as int,
                            rows as int,
                            lo,
                            d as int,
                            d as int,
                            left as int,
                            x,
                            y,
                        ),
                decreases hi_e - d,
            {
                let y = d + rows;
                let mut x = left;
                while x < right
                    invariant
                        self.wf(),
                        self.size == old(self).size,
                        self.overflow == old(self).overflow,
                        w == self.size.x,
                        h == self.size.y,
                        rows > 0,
                        0 <= lo <= d < hi_e <= bot - rows,
                        h <= i64::MAX,
                        bot <= h,
                        right <= w,
                        y == d + rows,
                        left <= x,
                        left <= right ==> x <= right,
                        forall|xx: int, yy: int|
                            0 <= xx < w && 0 <= yy < h ==> #[trigger] cell_at(self.buffer@, w, xx, yy)
                                == scrolling_cell(
                                old_buf,
                                w,
                                left as int,
                                right as int,
                                rows as int,
                                lo,
                                d as int,
                                d as int,
                                x as int,
                                xx,
                                yy,
                            ),
                    decreases right - x,
                {
                    let ghost cur = self.buffer@;
                    proof {
                        lemma_scroll_pre(old_buf, cur, w, h, left as int, right as int, rows as int,
                            lo, d as int, d as int, x as int);
                    }
                    let t = self.take(Vec2::new(x, y as u64));
                    self.set(Vec2::new(x, d as u64), t);
                    proof {
                        lemma_scroll_post(old_buf, cur, self.buffer@, w, h, left as int, right as int,
                            rows as int, lo, d as int, d as int, x as int);
                    }
                    x += 1;
                }
                proof {
                    assert forall|xx: int, yy: int|
                        0 <= xx < w && 0 <= yy < h implies #[trigger] cell_at(self.buffer@, w, xx, yy)
                        == scrolling_cell(
                        old_buf,
                        w,
                        left as int,
                        right as int,
                        rows as int,
                        lo,
                        d + 1,
                        d + 1,
                        left as int,
                        xx,
                        yy,
                    ) by {
                        assert(cell_at(self.buffer@, w, xx, yy) == scrolling_cell(
                            old_buf,
                            w,
                            left as int,
                            right as int,
                            rows as int,
                            lo,
                            d as int,
                            d as int,
                            right as int,
                            xx,
                            yy,
                        ));
                    }
                }
                d += 1;
            }

            proof {
                assert forall|x: int, y: int|
                    0 <= x < w && 0 <= y < h implies #[trigger] self.cell(x, y) == scrolled_cell(
                    old_buf,
                    w,
                    left as int,
                    right as int,
                    rows as int,
                    lo,
                    hi,
                    x,
                    y,
                ) by {
                    assert(cell_at(self.buffer@, w, x, y) == scrolling_cell(
                        old_buf,
                        w,
                        left as int,
                        right as int,
                        rows as int,
                        lo,
                        d as int,
                        d as int,
                        left as int,
                        x,
                        y,
                    ));
                }
            }
        } else {
            let lo_e = if dst_top < height as i64 {
                dst_top
            } else {
                height as i64
            };
            let hi_e = if dst_bot < height as i64 {
                dst_bot
            } else {
                height as i64
            };
            let mut d = hi_e;
            while d > lo_e
                invariant
                    self.wf(),
                    self.size == old(self).size,
                    self.overflow == old(self).overflow,
                    w == self.size.x,
                    h == self.size.y,
                    lo == lo_e,
                    hi == hi_e,
                    rows <= 0,
                    hi_e <= h,
                    lo_e <= h,
                    lo_e < h ==> lo_e == top - rows,
                    right <= w,
                    d <= hi_e,
                    lo_e <= d || hi_e < lo_e,
                    hi_e < lo_e ==> d == hi_e,
                    forall|x: int, y: int|
                        0 <= x < w && 0 <= y < h ==> #[trigger] cell_at(self.buffer@, w, x, y) == scrolling_cell(
                            old_buf,
                            w,
                            left as int,
                            right as int,
                            rows as int,
                            d as int,
                            hi,
                            d - 1,
                            left as int,
                            x,
                            y,
                        ),
                decreases d - lo_e,
            {
                let e = d - 1;
                let y = e + rows;
                let mut x = left;
                while x < right
                    invariant
                        self.wf(),
                        self.size == old(self).size,
                        self.overflow == old(self).overflow,
                        w == self.size.x,
                        h == self.size.y,
                        rows <= 0,
                        lo_e <= e < d <= hi_e <= h,
                        e == d - 1,
                        0 <= top <= e + rows,
                        right <= w,
                        y == e + rows,
                        left <= x,
                        left <= right ==> x <= right,
                        forall|xx: int, yy: int|
                            0 <= xx < w && 0 <= yy < h ==> #[trigger] cell_at(self.buffer@, w, xx, yy)
                                == scrolling_cell(
                                old_buf,
                                w,
                                left as int,
                                right as int,
                                rows as int,
                                d as int,
                                hi,
                                e as int,
                                x as int,
                                xx,
                                yy,
                            ),
                    decreases right - x,
                {
                    let ghost cur = self.buffer@;
                    proof {
                        lemma_scroll_pre(old_buf, cur, w, h, left as int, right as int, rows as int,
                            d as int, hi, e as int, x as int);
                    }
                    let t = self.take(Vec2::new(x, y as u64));
                    self.set(Vec2::new(x, e as u64), t);
                    proof {
                        lemma_scroll_post(old_buf, cur, self.buffer@, w, h, left as int, right as int,
                            rows as int, d as int, hi, e as int, x as int);
                    }
                    x += 1;
                }
                proof {
                    assert forall|xx: int, yy: int|
                        0 <= xx < w && 0 <= yy < h implies #[trigger] cell_at(self.buffer@, w, xx, yy)
                        == scrolling_cell(
                        old_buf,
                        w,
                        left as int,
                        right as int,
                        rows as int,
                        e as int,
                        hi,
                        e - 1,
                        left as int,
                        xx,
                        yy,
                    ) by {
                        assert(cell_at(self.buffer@, w, xx, yy) == scrolling_cell(
                            old_buf,
                            w,
                            left as int,
                            right as int,
                            rows as int,
                            d as int,
                            hi,
                            e as int,
                            right as int,
                            xx,
                            yy,
                        ));
                    }
                }
                d = e;
            }

            proof {
                assert forall|x: int, y: int|
                    0 <= x < w && 0 <= y < h implies #[trigger] self.cell(x, y) == scrolled_cell(
                    old_buf,
                    w,
                    left as int,
                    right as int,
                    rows as int,
                    lo,
                    hi,
                    x,
                    y,
                ) by {
                    assert(cell_at(self.buffer@, w, x, y) == scrolling_cell(
                        old_buf,
                        w,
                        left as int,
                        right as int,
                        rows as int,
                        d as int,
                        hi,
                        d - 1,
                        left as int,
                        x,
                        y,
                    ));
                }
            }
        }
        proof {
            if overflow_refs_valid(old(self).buffer@, old(self).overflow@) {
                let n = self.overflow@.len() as int;
                assert forall|x: int, y: int|
                    0 <= x < w && 0 <= y < h implies cell_ref_ok(
                    #[trigger] cell_at(self.buffer@, w, x, y),
                    n,
                ) by {
                    lemma_default_cell_ref(n);
                    assert(self.cell(x, y) == cell_at(self.buffer@, w, x, y));
                    if left <= x < right && lo <= y < hi {
                        lemma_index(w, h, x, y + rows);
                    } else {
                        lemma_index(w, h, x, y);
                    }
                }
                lemma_refs_by_cells(self.buffer@, w, h, n);
            }
        }
    }

    /// Writes the cells of a `grid_line` event into row `row`, from column `col_start` on.
    pub fn grid_line(&mut self, row: u64, col_start: u64, cells: Vec<LineCell>)
        requires
            old(self).wf(),
            row < old(self).size.y,
            col_start + line_width(cells@, cells@.len() as int) <= old(self).size.x,
            forall|k: int|
                0 < k <= cells@.len() ==> #[trigger] line_highlight(cells@, k) <= u32::MAX,
            line_overflow(cells@, cells@.len() as int).len() > 0 ==> old(self).overflow@.len()
                + line_overflow(cells@, cells@.len() as int).len() <= 0x40_0000,
        ensures
            GridContents::line_written(*old(self), *final(self), row, col_start, cells@),
            final(self).wf(),
            final(self).size == old(self).size,
            overflow_refs_valid(old(self).buffer@, old(self).overflow@) ==> overflow_refs_valid(
                final(self).buffer@,
                final(self).overflow@,
            ),
            texts(final(self).overflow@) == texts(old(self).overflow@) + line_overflow(
                cells@,
                cells@.len() as int,
            ),
            forall|k: int, x: int|
                #![trigger final(self).cell(x, row as int), line_cell(cells@, k, old(self).overflow@.len() as int)]
                0 <= k < cells@.len() && col_start + line_width(cells@, k) <= x < col_start
                    + line_width(cells@, k + 1) ==> final(self).cell(x, row as int) == line_cell(
                    cells@,
                    k,
                    old(self).overflow@.len() as int,
                ),
            forall|x: int, y: int|
                0 <= x < old(self).size.x && 0 <= y < old(self).size.y && !(y == row && col_start
                    <= x < col_start + line_width(cells@, cells@.len() as int))
                    ==> #[trigger] final(self).cell(x, y) == old(self).cell(x, y),
    {
        let ghost old_buf = self.buffer@;
        let ghost base = self.overflow@.len() as int;
        let ghost w = self.size.x as int;
        let ghost h = self.size.y as int;
        let ghost cs = cells@;
        let ghost refs0 = overflow_refs_valid(old(self).buffer@, old(self).overflow@);
        let ghost n = cells@.len() as int;
        proof {
            assert(row * w <= w * h) by (nonlinear_arith)
                requires
                    row < h,
                    0 <= w,
            ;
        }
        let width = self.size.x;
        let start = row * width;
        let mut col = col_start;
        let mut highlight: u64 = 0;
        let mut i: usize = 0;
        while i < cells.len()
            invariant
                self.wf(),
                self.size == old(self).size,
                w == self.size.x,
                h == self.size.y,
                width == w,
                row < h,
                start == row * w,
                cs == cells@,
                n == cs.len(),
                base == old(self).overflow@.len(),
                refs0 == overflow_refs_valid(old(self).buffer@, old(self).overflow@),
                refs0 ==> forall|j: int|
                    0 <= j < self.buffer@.len() ==> cell_ref_ok(
                        #[trigger] self.buffer@[j],
                        self.overflow@.len() as int,
                    ),
                col_start + line_width(cs, n) <= w,
                forall|k: int| 0 < k <= n ==> #[trigger] line_highlight(cs, k) <= u32::MAX,
                line_overflow(cs, n).len() > 0 ==> base + line_overflow(cs, n).len() <= 0x40_0000,
                i <= n,
                col == col_start + line_width(cs, i as int),
                highlight == line_highlight(cs, i as int),
                texts(self.overflow@) == texts(old(self).overflow@) + line_overflow(cs, i as int),
                forall|k: int, x: int|
                    #![trigger cell_at(self.buffer@, w, x, row as int), line_cell(cs, k, base)]
                    0 <= k < i && col_start + line_width(cs, k) <= x < col_start + line_width(
                        cs,
                        k + 1,
                    ) ==> cell_at(self.buffer@, w, x, row as int) == line_cell(cs, k, base),
                forall|x: int, y: int|
                    0 <= x < w && 0 <= y < h && !(y == row && col_start <= x < col)
                        ==> #[trigger] cell_at(self.buffer@, w, x, y) == cell_at(old_buf, w, x, y),
            decreases n - i,
        {
            proof {
                lemma_line_width_mono(cs, 0, i as int);
                lemma_line_width_mono(cs, i + 1, n);
                lemma_line_overflow_mono(cs, i + 1, n);
                lemma_line_overflow_mono(cs, i as int, i + 1);
            }
            match cells[i].hl_id {
                Some(hl_id) => {
                    highlight = hl_id;
                },
                None => {},
            }
            let repeat = match cells[i].repeat {
                Some(r) => r,
                None => 1,
            };
            let len = cells[i].text.as_str().unicode_len();
            let packed = if len == 0 {
                PackedChar::from_char(' ')
            } else if len == 1 {
                PackedChar::from_char(cells[i].text.as_str().get_char(0))
            } else {
                let index = self.overflow.len();
                let ghost before = self.overflow@;
                proof {
                    assert(texts(before).len() == before.len());
                }
                let u22 = match U22::from_u32(index as u32) {
                    Ok(u22) => u22,
                    Err(_) => {
                        proof {
                            assert(false);
                        }
                        U22::max()
                    },
                };
                self.overflow.push(cells[i].text.clone());
                proof {
                    assert(texts(self.overflow@) =~= texts(before).push(cells@[i as int].text@));
                    assert(texts(old(self).overflow@) + line_overflow(cs, i + 1) =~= (texts(
                        old(self).overflow@,
                    ) + line_overflow(cs, i as int)).push(cells@[i as int].text@));
                }
                PackedChar::from_u22(u22)
            };
            let cell = Cell { text: packed, highlight: highlight as u32 };
            proof {
                if len < 2 {
                    crate::ui::packed_char::char_pack_roundtrip(' ');
                    if len == 1 {
                        crate::ui::packed_char::char_pack_roundtrip(cs[i as int].text@[0]);
                    }
                }
            }
            assert(cell == line_cell(cs, i as int, base));
            let ghost ov = self.overflow@;
            let mut r: u64 = 0;
            while r < repeat
                invariant
                    self.overflow@ == ov,
                    self.wf(),
                    cell_ref_ok(cell, self.overflow@.len() as int),
                    refs0 ==> forall|j: int|
                        0 <= j < self.buffer@.len() ==> cell_ref_ok(
                            #[trigger] self.buffer@[j],
                            self.overflow@.len() as int,
                        ),

                    self.size == old(self).size,
                    w == self.size.x,
                    h == self.size.y,
                    width == w,
                    row < h,
                    start == row * w,
                    cs == cells@,
                    n == cs.len(),
                    i < n,
                    base == old(self).overflow@.len(),
                    repeat == repeat_of(cs[i as int]),
                    col == col_start + line_width(cs, i as int),
                    col + repeat <= w,
                    col_start <= col,
                    cell == line_cell(cs, i as int, base),
                    r <= repeat,
                    forall|k: int, x: int|
                        #![trigger cell_at(self.buffer@, w, x, row as int), line_cell(cs, k, base)]
                        0 <= k < i && col_start + line_width(cs, k) <= x < col_start + line_width(
                            cs,
                            k + 1,
                        ) ==> cell_at(self.buffer@, w, x, row as int) == line_cell(cs, k, base),
                    forall|x: int|
                        col <= x < col + r ==> #[trigger] cell_at(self.buffer@, w, x, row as int)
                            == cell,
                    forall|x: int, y: int|
                        0 <= x < w && 0 <= y < h && !(y == row && col_start <= x < col + r)
                            ==> #[trigger] cell_at(self.buffer@, w, x, y) == cell_at(
                            old_buf,
                            w,
                            x,
                            y,
                        ),
                decreases repeat - r,
            {
                proof {
                    lemma_index(w, h, (col + r) as int, row as int);
                }
                let ghost before = self.buffer@;
                let at = (start + col + r) as usize;
                self.buffer.set(at, cell);
                proof {
                    assert forall|x: int, y: int| 0 <= x < w && 0 <= y < h implies #[trigger] cell_at(
                        self.buffer@,
                        w,
                        x,
                        y,
                    ) == if y == row && x == col + r {
                        cell
                    } else {
                        cell_at(before, w, x, y)
                    } by {
                        lemma_index(w, h, x, y);
                        if y * w + x == at {
                            lemma_index_unique(w, x, y, (col + r) as int, row as int);
                        }
                    }
                    assert forall|k: int, x: int|
                        #![trigger cell_at(self.buffer@, w, x, row as int), line_cell(cs, k, base)]
                        0 <= k < i && col_start + line_width(cs, k) <= x < col_start + line_width(
                            cs,
                            k + 1,
                        ) implies cell_at(self.buffer@, w, x, row as int) == line_cell(cs, k, base) by {
                        lemma_line_width_mono(cs, k + 1, i as int);
                        lemma_line_width_mono(cs, 0, k);
                        assert(cell_at(before, w, x, row as int) == line_cell(cs, k, base));
                    }
                    assert forall|x: int, y: int|
                        0 <= x < w && 0 <= y < h && !(y == row && col_start <= x < col + r + 1)
                            implies #[trigger] cell_at(self.buffer@, w, x, y) == cell_at(
                            old_buf,
                            w,
                            x,
                            y,
                        ) by {
                        assert(cell_at(self.buffer@, w, x, y) == cell_at(before, w, x, y));
                    }
                }
                r += 1;
            }
            proof {
                if len < 2 {
                    assert(cs[i as int].text@.len() < 2);
                    assert(line_overflow(cs, i + 1) == line_overflow(cs, i as int));
                }
            }
            col = col + repeat;
            i += 1;
        }
        proof {
            assert forall|x: int, y: int|
                0 <= x < w && 0 <= y < h && !(y == row && col_start <= x < col_start + line_width(
                    cs,
                    n,
                )) implies #[trigger] self.cell(x, y) == old(self).cell(x, y) by {
                assert(cell_at(self.buffer@, w, x, y) == cell_at(old_buf, w, x, y));
            }
            assert forall|k: int, x: int|
                #![trigger self.cell(x, row as int), line_cell(cells@, k, base)]
                0 <= k < n && col_start + line_width(cs, k) <= x < col_start + line_width(
                    cs,
                    k + 1,
                ) implies self.cell(x, row as int) == line_cell(cs, k, base) by {
                assert(cell_at(self.buffer@, w, x, row as int) == line_cell(cs, k, base));
            }
        }
    }

    /// The contents of a cell, with the text of overflow cells read from the overflow list.
    fn cell_contents(&self, cell: Cell) -> (r: CellContents)
        requires
            match cell.text.spec_contents() {
                PackedCharContents::Char(_) => true,
                PackedCharContents::U22(u) => u@ < self.overflow@.len(),
            },
        ensures
            r.highlight == cell.highlight,
            r.text.chars() == cell_text(self.overflow@, cell),
    {
        let text = match cell.text.contents() {
            PackedCharContents::Char(c) => OnceOrChars::Char(c),
            PackedCharContents::U22(u22) => OnceOrChars::Chars(
                self.overflow[u22.as_u32() as usize].clone(),
            ),
        };
        CellContents { text, highlight: cell.highlight }
    }

    /// The cells, read out and split into rows of `size.x` cells (the last row holds what is
    /// left where the buffer does not divide evenly).
    pub fn rows(&self) -> (r: Vec<Vec<CellContents>>)
        requires
            self.size.x > 0,
            self.size.x <= usize::MAX,
            overflow_refs_valid(self.buffer@, self.overflow@),
        ensures
            r@.len() == (self.buffer@.len() + self.size.x - 1) / (self.size.x as int),
            forall|k: int|
                #![trigger r@[k]@.len()]
                0 <= k < r@.len() ==> (k * self.size.x < self.buffer@.len() && r@[k]@.len()
                    == chunk_len(k, self.size.x as int, self.buffer@.len() as int)),
            forall|k: int, j: int|
                0 <= k < r@.len() && 0 <= j < r@[k]@.len() ==> {
                    &&& (#[trigger] r@[k]@[j]).highlight == self.buffer@[k * self.size.x + j].highlight
                    &&& r@[k]@[j].text.chars() == cell_text(
                        self.overflow@,
                        self.buffer@[k * self.size.x + j],
                    )
                },
    {
        let len = self.buffer.len();
        let w = self.size.x as usize;
        let ghost wi = self.size.x as int;
        let mut rows: Vec<Vec<CellContents>> = Vec::new();
        let mut start: usize = 0;
        let ghost mut k: int = 0;
        while start < len
            invariant
                len == self.buffer@.len(),
                w == wi,
                wi == self.size.x,
                wi > 0,
                overflow_refs_valid(self.buffer@, self.overflow@),
                k == rows@.len(),
                start <= len,
                start == k * wi || (start == len && len <= k * wi),
                forall|m: int|
                    0 <= m < rows@.len() ==> #[trigger] rows@[m]@.len() == chunk_len(
                        m,
                        wi,
                        len as int,
                    ),
                forall|m: int| 0 <= m < rows@.len() ==> #[trigger] (m * wi) < len,
                forall|m: int, j: int|
                    0 <= m < rows@.len() && 0 <= j < rows@[m]@.len() ==> {
                        &&& (#[trigger] rows@[m]@[j]).highlight == self.buffer@[m * wi + j].highlight
                        &&& rows@[m]@[j].text.chars() == cell_text(
                            self.overflow@,
                            self.buffer@[m * wi + j],
                        )
                    },
                k > 0 ==> (k - 1) * wi < len,
            decreases len - start,
        {
            let end = if len - start > w {
                start + w
            } else {
                len
            };
            let mut row: Vec<CellContents> = Vec::new();
            let mut i = start;
            while i < end
                invariant
                    start <= i <= end <= len,
                    len == self.buffer@.len(),
                    overflow_refs_valid(self.buffer@, self.overflow@),
                    row@.len() == i - start,
                    forall|j: int|
                        0 <= j < row@.len() ==> {
                            &&& (#[trigger] row@[j]).highlight == self.buffer@[start + j].highlight
                            &&& row@[j].text.chars() == cell_text(
                                self.overflow@,
                                self.buffer@[start + j],
                            )
                        },
                decreases end - i,
            {
                let cell = self.buffer[i];
                proof {
                    assert(match self.buffer@[i as int].text.spec_contents() {
                        PackedCharContents::Char(_) => true,
                        PackedCharContents::U22(u) => u@ < self.overflow@.len(),
                    });
                }
                row.push(self.cell_contents(cell));
                i += 1;
            }
            let ghost prev = rows@;
            rows.push(row);
            proof {
                assert((k + 1) * wi == k * wi + wi) by (nonlinear_arith);
                assert(start == k * wi);
                assert forall|m: int|
                    #![trigger rows@[m]@.len()]
                    0 <= m < rows@.len() implies (m * wi < len && rows@[m]@.len() == chunk_len(
                        m,
                        wi,
                        len as int,
                    )) by {
                    if m < k {
                        assert(rows@[m] == prev[m]);
                        assert(prev[m]@.len() == chunk_len(m, wi, len as int));
                        assert(m * wi < len);
                    } else {
                        assert(m == k);
                        assert(rows@[m] == row);
                        assert(row@.len() == end - start);
                        assert(m * wi == start);
                        assert((m + 1) * wi == start + wi);
                        assert(m * wi < len);
                        assert(rows@[m]@.len() == chunk_len(m, wi, len as int));
                    }
                }
                assert forall|m: int, j: int|
                    0 <= m < rows@.len() && 0 <= j < rows@[m]@.len() implies {
                        &&& (#[trigger] rows@[m]@[j]).highlight == self.buffer@[m * wi + j].highlight
                        &&& rows@[m]@[j].text.chars() == cell_text(
                            self.overflow@,
                            self.buffer@[m * wi + j],
                        )
                    } by {
                    if m == k {
                        assert(rows@[m] == row);
                    }
                }
                k = k + 1;
            }
            start = end;
        }
        proof {
            lemma_row_count(len as int, wi, k);
        }
        rows
    }

    /// Changes the size, keeping the cells where the old and new grids overlap and filling
    /// the rest with empty cells.
    pub fn resize(&mut self, size: Vec2<u64>)
        requires
            old(self).wf(),
            size.x * size.y <= u64::MAX,
            size.x * size.y <= usize::MAX,
        ensures
            final(self).wf(),
            final(self).size == size,
            final(self).overflow == old(self).overflow,
            GridContents::resized(*old(self), *final(self), size),
            overflow_refs_valid(old(self).buffer@, old(self).overflow@) ==> overflow_refs_valid(
                final(self).buffer@,
                final(self).overflow@,
            ),
            forall|x: int, y: int|
                0 <= x < size.x && 0 <= y < size.y ==> #[trigger] final(self).cell(x, y) == (
                if x < old(self).size.x && y < old(self).size.y {
                    old(self).cell(x, y)
                } else {
                    default_cell()
                }),
    {
        let ghost old_buffer = self.buffer@;
        let ghost ow = self.size.x as int;
        let nw = size.x;
        let area = size.area() as usize;
        let mut buffer: Vec<Cell> = Vec::new();
        let mut k: usize = 0;
        while k < area
            invariant
                k <= area,
                buffer@.len() == k,
                forall|i: int| 0 <= i < k ==> #[trigger] buffer@[i] == default_cell(),
            decreases area - k,
        {
            buffer.push(Cell::default());
            k += 1;
        }
        let min_x = if self.size.x < size.x {
            self.size.x
        } else {
            size.x
        };
        let min_y = if self.size.y < size.y {
            self.size.y
        } else {
            size.y
        };
        proof {
            assert forall|x: int, yy: int|
                0 <= x < size.x && 0 <= yy < size.y implies #[trigger] cell_at(
                buffer@,
                nw as int,
                x,
                yy,
            ) == default_cell() by {
                lemma_index(nw as int, size.y as int, x, yy);
            }
        }
        let mut y: u64 = 0;
        while y < min_y
            invariant
                self.wf(),
                self.buffer@ == old_buffer,
                ow == self.size.x,
                self.size == old(self).size,
                self.overflow == old(self).overflow,
                nw == size.x,
                area == size.x * size.y,
                size.x * size.y <= usize::MAX,
                min_x <= self.size.x,
                min_x <= size.x,
                min_y <= self.size.y,
                min_y <= size.y,
                min_x == self.size.x || min_x == size.x,
                y <= min_y,
                buffer@.len() == area,
                forall|x: int, yy: int|
                    0 <= x < size.x && 0 <= yy < size.y ==> #[trigger] cell_at(
                        buffer@,
                        nw as int,
                        x,
                        yy,
                    ) == (if x < min_x && yy < y {
                        cell_at(old_buffer, ow, x, yy)
                    } else {
                        default_cell()
                    }),
            decreases min_y - y,
        {
            let mut x: u64 = 0;
            while x < min_x
                invariant
                    self.wf(),
                    self.buffer@ == old_buffer,
                    ow == self.size.x,
                    nw == size.x,
                    area == size.x * size.y,
                    size.x * size.y <= usize::MAX,
                    min_x <= self.size.x,
                    min_x <= size.x,
                    min_y <= self.size.y,
                    min_y <= size.y,
                    y < min_y,
                    x <= min_x,
                    buffer@.len() == area,
                    forall|xx: int, yy: int|
                        0 <= xx < size.x && 0 <= yy < size.y ==> #[trigger] cell_at(
                            buffer@,
                            nw as int,
                            xx,
                            yy,
                        ) == (if (xx < min_x && yy < y) || (xx < x && yy == y) {
                            cell_at(old_buffer, ow, xx, yy)
                        } else {
                            default_cell()
                        }),
                decreases min_x - x,
            {
                proof {
                    lemma_index(nw as int, size.y as int, x as int, y as int);
                    lemma_index(ow, self.size.y as int, x as int, y as int);
                }
                let src = (y * self.size.x + x) as usize;
                let dst = (y * nw + x) as usize;
                let cell = self.buffer[src];
                let ghost before = buffer@;
                buffer.set(dst, cell);
                proof {
                    assert forall|xx: int, yy: int|
                        0 <= xx < size.x && 0 <= yy < size.y implies #[trigger] cell_at(
                        buffer@,
                        nw as int,
                        xx,
                        yy,
                    ) == (if (xx < min_x && yy < y) || (xx < x + 1 && yy == y) {
                        cell_at(old_buffer, ow, xx, yy)
                    } else {
                        default_cell()
                    }) by {
                        lemma_index(nw as int, size.y as int, xx, yy);
                        if yy * nw + xx == dst {
                            lemma_index_unique(nw as int, xx, yy, x as int, y as int);
                        } else {
                            assert(cell_at(buffer@, nw as int, xx, yy) == cell_at(
                                before,
                                nw as int,
                                xx,
                                yy,
                            ));
                        }
                    }
                }
                x += 1;
            }
            y += 1;
        }
        self.buffer = buffer;
        self.size = size;
        proof {
            assert forall|x: int, yy: int|
                0 <= x < size.x && 0 <= yy < size.y implies #[trigger] self.cell(x, yy) == (
            if x < old(self).size.x && yy < old(self).size.y {
                old(self).cell(x, yy)
            } else {
                default_cell()
            }) by {
                assert(self.cell(x, yy) == cell_at(self.buffer@, nw as int, x, yy));
            }
            if overflow_refs_valid(old(self).buffer@, old(self).overflow@) {
                let n = self.overflow@.len() as int;
                assert forall|x: int, yy: int|
                    0 <= x < size.x && 0 <= yy < size.y implies cell_ref_ok(
                    #[trigger] cell_at(self.buffer@, size.x as int, x, yy),
                    n,
                ) by {
                    lemma_default_cell_ref(n);
                    if x < old(self).size.x && yy < old(self).size.y {
                        lemma_index(ow, old(self).size.y as int, x, yy);
                    }
                    assert(self.cell(x, yy) == cell_at(self.buffer@, size.x as int, x, yy));
                }
                lemma_refs_by_cells(self.buffer@, size.x as int, size.y as int, n);
            }
        }
    }
}


/// The text a `grid_line` cell shows: its own, or a space where it is empty.
pub open spec fn shown_text(t: Seq<char>) -> Seq<char> {
    if t.len() == 0 {
        seq![' ']
    } else {
        t
    }
}

proof fn lemma_line_overflow_entry(cells: Seq<LineCell>, k: int, n: int)
    requires
        0 <= k < n <= cells.len(),
        cells[k].text@.len() >= 2,
    ensures
        line_overflow(cells, k).len() < line_overflow(cells, n).len(),
        line_overflow(cells, n)[line_overflow(cells, k).len() as int] == cells[k].text@,
    decreases n - k,
{
    if n == k + 1 {
    } else {
        lemma_line_overflow_entry(cells, k, n - 1);
        lemma_line_overflow_mono(cells, k + 1, n - 1);
    }
}

/// The grid's contents are consistent: one cell per position, and every reference to the
/// overflow list in range.
pub open spec fn grid_ok_spec(g: Grid) -> bool {
    g.contents.wf() && overflow_refs_valid(g.contents.buffer@, g.contents.overflow@)
}

/// A new grid is consistent.
pub proof fn lemma_empty_grid_ok(g: Grid)
    requires
        g.contents.size == (Vec2::<u64> { x: 0, y: 0 }),
        g.contents.buffer@.len() == 0,
    ensures
        grid_ok_spec(g),
{
}

/// Reading back a cell that a `grid_line` event wrote gives the text of the event's cell (a
/// space for an empty one), whether it was packed in the cell or kept in the overflow list.
pub proof fn grid_line_reads_back(
    old_overflow: Seq<String>,
    new_overflow: Seq<String>,
    cells: Seq<LineCell>,
    k: int,
)
    requires
        0 <= k < cells.len(),
        texts(new_overflow) == texts(old_overflow) + line_overflow(cells, cells.len() as int),
        line_overflow(cells, cells.len() as int).len() > 0 ==> old_overflow.len() + line_overflow(
            cells,
            cells.len() as int,
        ).len() <= 0x40_0000,
    ensures
        cell_text(new_overflow, line_cell(cells, k, old_overflow.len() as int)) == shown_text(
            cells[k].text@,
        ),
{
    let t = cells[k].text@;
    let n = cells.len() as int;
    if t.len() == 0 {
        crate::ui::packed_char::char_pack_roundtrip(' ');
    } else if t.len() == 1 {
        crate::ui::packed_char::char_pack_roundtrip(t[0]);
    } else {
        lemma_line_overflow_entry(cells, k, n);
        let i: int = (old_overflow.len() + line_overflow(cells, k).len()) as int;
        crate::ui::packed_char::packed_index_contents(i as u32);
        assert(texts(new_overflow).len() == new_overflow.len());
        assert(texts(old_overflow).len() == old_overflow.len());
        assert(texts(new_overflow)[i] == new_overflow[i]@);
        assert(texts(new_overflow)[i] == line_overflow(cells, n)[line_overflow(cells, k).len() as int]);
    }
}

/// Scrolling by zero rows leaves every cell as it was.
pub proof fn scroll_by_zero_keeps_cells(
    old: Seq<Cell>,
    w: int,
    h: int,
    top: int,
    bot: int,
    left: int,
    right: int,
    x: int,
    y: int,
)
    requires
        0 <= top <= h,
        0 <= bot <= h,
    ensures
        scrolled_cell(old, w, left, right, 0, scroll_lo(top, 0, h), scroll_hi(bot, 0, h), x, y)
            == cell_at(old, w, x, y),
{
}

} // verus!
