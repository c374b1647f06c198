use neophyte::event::grid_line::Cell as LineCell;
use neophyte::ui::grid::{Cell, CellContents, Grid, GridContents, OnceOrChars};
use neophyte::ui::packed_char::{PackedChar, PackedCharContents};
use neophyte::ui::window::Window;
use neophyte::util::vec2::Vec2;

fn line_cell(text: &str, hl_id: Option<u64>, repeat: Option<u64>) -> LineCell {
    LineCell {
        text: text.to_string(),
        hl_id,
        repeat,
    }
}

fn text_at(grid: &GridContents, x: u64, y: u64) -> String {
    let cell = grid.get(Vec2::new(x, y));
    match cell.text.contents() {
        PackedCharContents::Char(c) => c.to_string(),
        PackedCharContents::U22(u) => grid.overflow[u.as_u32() as usize].clone(),
    }
}

fn row_text(grid: &GridContents, y: u64) -> String {
    (0..grid.size.x).map(|x| text_at(grid, x, y)).collect()
}

#[test]
fn new_grid_contents_are_empty() {
    let g = GridContents::new();
    assert_eq!(g.size, Vec2::new(0, 0));
    assert!(g.buffer.is_empty());
    assert!(g.overflow.is_empty());
}

#[test]
fn resize_fills_with_empty_cells() {
    let mut g = GridContents::new();
    g.resize(Vec2::new(3, 2));
    assert_eq!(g.size, Vec2::new(3, 2));
    assert_eq!(g.buffer.len(), 6);
    assert!(g.buffer.iter().all(|c| *c == Cell::default()));
    assert_eq!(Cell::default().text.contents(), PackedCharContents::Char('\0'));
    assert_eq!(Cell::default().highlight, 0);
}

#[test]
fn resize_keeps_overlapping_cells() {
    let mut g = GridContents::new();
    g.resize(Vec2::new(3, 2));
    g.grid_line(0, 0, vec![line_cell("a", Some(1), None), line_cell("b", None, None), line_cell("c", None, None)]);
    g.grid_line(1, 0, vec![line_cell("d", Some(2), Some(3))]);
    g.resize(Vec2::new(2, 3));
    assert_eq!(g.size, Vec2::new(2, 3));
    assert_eq!(text_at(&g, 0, 0), "a");
    assert_eq!(text_at(&g, 1, 0), "b");
    assert_eq!(text_at(&g, 0, 1), "d");
    assert_eq!(text_at(&g, 1, 1), "d");
    assert_eq!(*g.get(Vec2::new(0, 2)), Cell::default());
    assert_eq!(g.get(Vec2::new(1, 1)).highlight, 2);
}

#[test]
fn index_for_is_row_major() {
    let mut g = GridContents::new();
    g.resize(Vec2::new(4, 3));
    assert_eq!(g.index_for(Vec2::new(0, 0)), 0);
    assert_eq!(g.index_for(Vec2::new(3, 0)), 3);
    assert_eq!(g.index_for(Vec2::new(1, 2)), 9);
}

#[test]
fn set_get_and_take() {
    let mut g = GridContents::new();
    g.resize(Vec2::new(2, 2));
    let c = Cell {
        text: PackedChar::from_char('x'),
        highlight: 7,
    };
    g.set(Vec2::new(1, 1), c);
    assert_eq!(*g.get(Vec2::new(1, 1)), c);
    assert_eq!(g.take(Vec2::new(1, 1)), c);
    assert_eq!(*g.get(Vec2::new(1, 1)), Cell::default());
}

#[test]
fn grid_line_writes_repeats_highlights_and_overflow() {
    let mut g = GridContents::new();
    g.resize(Vec2::new(6, 1));
    g.grid_line(
        0,
        1,
        vec![
            line_cell("x", Some(3), Some(2)),
            line_cell("", None, None),
            line_cell("🏳️‍🌈", Some(4), None),
            line_cell("y", None, None),
        ],
    );
    assert_eq!(*g.get(Vec2::new(0, 0)), Cell::default());
    assert_eq!(text_at(&g, 1, 0), "x");
    assert_eq!(text_at(&g, 2, 0), "x");
    assert_eq!(g.get(Vec2::new(2, 0)).highlight, 3);
    assert_eq!(text_at(&g, 3, 0), " ");
    assert_eq!(g.get(Vec2::new(3, 0)).highlight, 3);
    assert_eq!(text_at(&g, 4, 0), "🏳️‍🌈");
    assert_eq!(g.get(Vec2::new(4, 0)).highlight, 4);
    assert_eq!(text_at(&g, 5, 0), "y");
    assert_eq!(g.get(Vec2::new(5, 0)).highlight, 4);
    assert_eq!(g.overflow, vec!["🏳️‍🌈".to_string()]);
}

#[test]
fn clear_empties_every_cell_and_keeps_size() {
    let mut g = GridContents::new();
    g.resize(Vec2::new(2, 2));
    g.grid_line(1, 0, vec![line_cell("z", Some(1), Some(2))]);
    g.clear();
    assert_eq!(g.size, Vec2::new(2, 2));
    assert!(g.buffer.iter().all(|c| *c == Cell::default()));
}

fn numbered(rows: u64) -> GridContents {
    let mut g = GridContents::new();
    g.resize(Vec2::new(2, rows));
    for y in 0..rows {
        let t = char::from_digit(y as u32, 10).unwrap().to_string();
        g.grid_line(y, 0, vec![line_cell(&t, None, Some(2))]);
    }
    g
}

#[test]
fn scroll_up_moves_rows_up() {
    let mut g = numbered(5);
    g.scroll(1, 4, 0, 2, 1);
    assert_eq!(row_text(&g, 0), "11");
    assert_eq!(row_text(&g, 1), "22");
    assert_eq!(row_text(&g, 2), "33");
    assert_eq!(row_text(&g, 3), "\0\0");
    assert_eq!(row_text(&g, 4), "44");
}

#[test]
fn scroll_down_moves_rows_down() {
    let mut g = numbered(5);
    g.scroll(0, 5, 0, 2, -2);
    assert_eq!(row_text(&g, 0), "\0\0");
    assert_eq!(row_text(&g, 1), "\0\0");
    assert_eq!(row_text(&g, 2), "00");
    assert_eq!(row_text(&g, 3), "11");
    assert_eq!(row_text(&g, 4), "22");
}

#[test]
fn scroll_by_zero_changes_nothing() {
    let mut g = numbered(4);
    let before: Vec<String> = (0..4).map(|y| row_text(&g, y)).collect();
    g.scroll(0, 4, 0, 2, 0);
    let after: Vec<String> = (0..4).map(|y| row_text(&g, y)).collect();
    assert_eq!(before, after);
}

#[test]
fn scroll_only_moves_the_columns_in_range() {
    let mut g = numbered(3);
    g.scroll(0, 3, 0, 1, 1);
    assert_eq!(text_at(&g, 0, 0), "1");
    assert_eq!(text_at(&g, 1, 0), "0");
}

#[test]
fn rows_read_out_cells() {
    let mut g = GridContents::new();
    g.resize(Vec2::new(2, 2));
    g.grid_line(0, 0, vec![line_cell("a", Some(5), None), line_cell("ab", None, None)]);
    let rows = g.rows();
    assert_eq!(rows.len(), 2);
    assert_eq!(
        rows[0][0],
        CellContents {
            highlight: 5,
            text: OnceOrChars::Char('a')
        }
    );
    assert_eq!(
        rows[0][1],
        CellContents {
            highlight: 5,
            text: OnceOrChars::Chars("ab".to_string())
        }
    );
    assert_eq!(rows[1].len(), 2);
}

#[test]
fn copy_from_takes_size_cells_and_new_overflow() {
    let mut a = GridContents::new();
    a.resize(Vec2::new(2, 1));
    a.grid_line(0, 0, vec![line_cell("ab", None, None), line_cell("cd", None, None)]);
    let mut b = GridContents::new();
    b.copy_from(&a);
    assert_eq!(b.size, a.size);
    assert_eq!(b.buffer, a.buffer);
    assert_eq!(b.overflow, a.overflow);
}

#[test]
fn grid_marks_changes_dirty() {
    let mut grid = Grid::new(4);
    assert_eq!(grid.id, 4);
    assert!(!grid.dirty.contents());
    assert!(!grid.dirty.window());
    grid.contents_mut().resize(Vec2::new(1, 1));
    assert!(grid.dirty.contents());
    *grid.window_mut() = Window::External;
    assert!(grid.dirty.window());
    assert_eq!(*grid.window(), Window::External);
    grid.scroll_delta = 3;
    grid.clear_dirty();
    assert!(!grid.dirty.contents());
    assert!(!grid.dirty.window());
    assert_eq!(grid.scroll_delta, 0);
    assert_eq!(grid.contents().size, Vec2::new(1, 1));
}
