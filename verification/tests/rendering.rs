use neophyte::event::grid_line::Cell as LineCell;
use neophyte::event::{Attributes, Chunk, Content, DefaultColorsSet, HlAttrDefine, ModeInfo, MsgHistoryEntry, CmdlineShow};
use neophyte::rendering::cmdline_grid::{cmdline_lines, iter_line};
use neophyte::rendering::grid::range::Range as GridRange;
use neophyte::rendering::grid::{
    buffer_layout, glyph_cell, glyph_position, grown_capacity, scissor_rect, underline, BestFont,
    BestFontSearch, Cell, font_runs, FontRun, GridBuffers, Line, Phase, ShapedCluster, ShapedGlyph,
    Status,
};
use neophyte::rendering::grids::{grid_refresh, GridRefresh};
use neophyte::rendering::highlights::{HighlightInfo, Highlights};
use neophyte::rendering::message_grids::{lines, message_column, message_layout, MessageGrids};
use neophyte::rendering::pipelines::cursor::{
    cmdline_cursor_cell, cursor_cells, BlinkPhase, BlinkRate, CursorGlyph,
};
use neophyte::rendering::scrolling_grids::range::Range;
use neophyte::rendering::scrolling_grids::{GridPart, ScrollParts};
use neophyte::rendering::Motion;
use neophyte::text::cache::{CacheValue, GlyphInfo, GlyphKind};
use neophyte::text::font::MetricsPixels;
use neophyte::text::fonts::FontStyle;
use neophyte::ui::cmdline::{Cmdline, Mode, Prompt};
use neophyte::ui::grid::{CellContents, GridContents, OnceOrChars};
use neophyte::ui::messages::Messages;
use neophyte::util::vec2::Vec2;
use std::time::Duration;

fn content(parts: &[(&str, u32)]) -> Content {
    Content {
        chunks: parts
            .iter()
            .map(|(t, a)| Chunk {
                attr_id: *a,
                text_chunk: t.to_string(),
            })
            .collect(),
    }
}

fn cell(c: char, highlight: u32) -> CellContents {
    CellContents {
        highlight,
        text: OnceOrChars::Char(c),
    }
}

fn text_of(line: &[CellContents]) -> String {
    line.iter()
        .map(|c| match &c.text {
            OnceOrChars::Char(c) => c.to_string(),
            OnceOrChars::Chars(s) => s.clone(),
        })
        .collect()
}

#[test]
fn soonest_motion() {
    let short = Motion::Delay(Duration::from_millis(5));
    let long = Motion::Delay(Duration::from_millis(50));
    assert_eq!(Motion::Still.soonest(Motion::Still), Motion::Still);
    assert_eq!(Motion::Still.soonest(short), short);
    assert_eq!(long.soonest(Motion::Still), long);
    assert_eq!(long.soonest(short), short);
    assert_eq!(short.soonest(long), short);
    assert_eq!(short.soonest(Motion::Animating), Motion::Animating);
    assert_eq!(Motion::Animating.soonest(Motion::Still), Motion::Animating);
    assert_eq!(Motion::default(), Motion::Still);
}

#[test]
fn soonest_groups_either_way() {
    let a = Motion::Delay(Duration::from_millis(30));
    let b = Motion::Delay(Duration::from_millis(7));
    let c = Motion::Delay(Duration::from_millis(12));
    assert_eq!(a.soonest(b).soonest(c), a.soonest(b.soonest(c)));
    assert_eq!(a.soonest(b).soonest(c), b);
    let same = Motion::Delay(Duration::from_millis(7));
    assert_eq!(b.soonest(same), same.soonest(b));
    assert_eq!(Motion::Still.soonest(a).soonest(Motion::Animating), Motion::Animating);
}

fn mode(on: Option<u32>, off: Option<u32>, wait: Option<u32>) -> ModeInfo {
    ModeInfo {
        name: "n".to_string(),
        blinkon: on,
        blinkoff: off,
        blinkwait: wait,
    }
}

#[test]
fn blink_rate_needs_all_three_times() {
    assert_eq!(
        BlinkRate::from_mode_info(&mode(Some(400), Some(250), Some(700))),
        Some(BlinkRate {
            on: 400,
            off: 250,
            wait: 700
        })
    );
    assert_eq!(BlinkRate::from_mode_info(&mode(Some(400), Some(0), Some(700))), None);
    assert_eq!(BlinkRate::from_mode_info(&mode(None, Some(250), Some(700))), None);
}

#[test]
fn blink_phases() {
    let rate = BlinkRate {
        on: 400,
        off: 250,
        wait: 700,
    };
    let ms = 1_000_000u128;
    assert_eq!(
        rate.phase(100 * ms + 5),
        BlinkPhase::Waiting {
            remaining_nanos: 600 * 1_000_000 - 5
        }
    );
    assert_eq!(rate.phase(700 * ms), BlinkPhase::On { until_off_millis: 400 });
    assert_eq!(rate.phase(1200 * ms + 999_999), BlinkPhase::Off { until_on_millis: 150 });
    assert_eq!(rate.phase(1350 * ms), BlinkPhase::On { until_off_millis: 400 });
}

#[test]
fn glyph_placement() {
    let p = glyph_position(Vec2::new(1, -2), 3, 2, Vec2::new(10, 20));
    assert_eq!(p, Vec2::new(31, 38));
    let m = MetricsPixels {
        scale_factor: 1,
        width: 10,
        em: 16,
        descent: 4,
        ascent: 12,
        leading: 0,
        cap_height: 0,
        x_height: 0,
        underline_offset: 2,
        strikeout_offset: 0,
        stroke_size: 3,
    };
    assert_eq!(
        underline(p, &m, 7),
        Line {
            position: Vec2::new(31, 52),
            size: Vec2::new(10, 1),
            highlight_index: 7,
            padding: 0
        }
    );
    assert_eq!(
        glyph_cell(GlyphKind::Monochrome, p, 4, 7, 16),
        Cell {
            position: Vec2::new(31, 54),
            glyph_index: 4,
            highlight_index: 7
        }
    );
    assert_eq!(glyph_cell(GlyphKind::Emoji, p, 4, 7, 16).highlight_index, 0);
}

#[test]
fn buffer_layout_pads_each_array() {
    let l = buffer_layout(10, 16, 0, 5, 16);
    assert_eq!(l.emoji_offset, 16);
    assert_eq!(l.cell_fill_offset, 48);
    assert_eq!(l.lines_offset, 64);
    assert_eq!(l.total_length, 69);
    assert_eq!(grown_capacity(69, 64), Some(138));
    assert_eq!(grown_capacity(64, 64), None);
}

#[test]
fn scissor_clamps_to_the_target() {
    let (o, s) = scissor_rect(Vec2::new(-5, 10), Vec2::new(4, 4), Vec2::new(10, 10), Vec2::new(30, 30));
    assert_eq!(o, Vec2::new(0, 10));
    assert_eq!(s, Vec2::new(30, 20));
}

#[test]
fn best_font_search_order() {
    let mut hl = Attributes::new();
    hl.bold = Some(true);
    let mut search = BestFontSearch::new(Some(&hl), vec![(false, true), (true, true)]);
    assert_eq!(search.style, FontStyle::Bold);
    assert_eq!(search.next_query(), Some(BestFont::new(0, FontStyle::Regular)));
    search.feed(Status::Keep);
    assert_eq!(search.best, Some(BestFont::new(0, FontStyle::Regular)));
    assert_eq!(search.next_query(), Some(BestFont::new(1, FontStyle::Bold)));
    search.feed(Status::Discard);
    assert_eq!(search.phase, Phase::Regular);
    assert_eq!(search.next_query(), Some(BestFont::new(1, FontStyle::Regular)));
    search.feed(Status::Complete);
    assert!(search.done);
    assert_eq!(search.next_query(), None);
    assert_eq!(search.best, Some(BestFont::new(1, FontStyle::Regular)));
    let mut plain = BestFontSearch::new(None, vec![(true, true)]);
    assert_eq!(plain.next_query(), Some(BestFont::new(0, FontStyle::Regular)));
    plain.feed(Status::Discard);
    assert_eq!(plain.next_query(), None);
    assert_eq!(plain.best, None);
}

#[test]
fn grid_refresh_follows_dirty_and_scroll() {
    assert_eq!(grid_refresh(false, 3), GridRefresh::Keep);
    assert_eq!(grid_refresh(true, 3), GridRefresh::Scroll(3));
    assert_eq!(grid_refresh(true, 0), GridRefresh::Replace);
}

#[test]
fn highlight_colors() {
    let mut h = Highlights::new();
    assert_eq!(h.clear_color(), 0);
    let mut a = HlAttrDefine::new();
    a.rgb_attr.foreground = Some(0x112233);
    let mut b = HlAttrDefine::new();
    b.rgb_attr.background = Some(0x445566);
    let defaults = DefaultColorsSet {
        rgb_fg: None,
        rgb_bg: Some(0x000010),
        rgb_sp: None,
    };
    assert!(!h.update(false, &vec![a], defaults));
    assert!(h.entries_slice().is_empty());
    assert!(h.update(true, &vec![a, b], defaults));
    assert_eq!(h.clear_color(), 0x10);
    assert_eq!(
        h.entries_slice(),
        &[HighlightInfo::new(0x112233, 0x10), HighlightInfo::new(0xffffff, 0x445566)]
    );
    assert!(h.update(true, &vec![], defaults));
    assert_eq!(h.entries_slice(), &[HighlightInfo::new(0x112233, 0x10)]);
}

#[test]
fn content_cells_and_lines() {
    let c = content(&[("ab\nc", 1), ("d", 2)]);
    let cells = iter_line(&c);
    assert_eq!(cells.len(), 5);
    assert_eq!(cells[4], cell('d', 2));
    let ls = lines(&c);
    assert_eq!(ls.len(), 2);
    assert_eq!(ls[0], vec![cell('a', 1), cell('b', 1)]);
    assert_eq!(ls[1], vec![cell('c', 1), cell('d', 2)]);
    let stops = lines(&content(&[("x\n\ny\n", 0)]));
    assert_eq!(stops.len(), 1);
    assert!(lines(&content(&[])).is_empty());
}

fn entry(text: &str) -> MsgHistoryEntry {
    MsgHistoryEntry {
        kind: String::new(),
        content: content(&[(text, 0)]),
    }
}

#[test]
fn messages_stack_up_from_the_bottom() {
    let mut m = Messages::new();
    m.show = vec![entry("old"), entry("new\nest")];
    let layout = message_layout(&m, Vec2::new(80, 24));
    assert_eq!(layout.len(), 2);
    assert_eq!(text_of(&layout[0].lines[0]), "new");
    assert_eq!(layout[0].offset, 2);
    assert_eq!(layout[1].offset, 3);
    assert!(layout[0].size.is_none());
    assert!(!layout[0].from_history);
    m.history = vec![entry("h")];
    let layout = message_layout(&m, Vec2::new(80, 24));
    assert_eq!(layout.len(), 1);
    assert_eq!(layout[0].size, Some(Vec2::new(80, 1)));
    assert!(layout[0].from_history);
    assert_eq!(message_column(80, 30, false), 50);
    assert_eq!(message_column(80, 90, false), 0);
    assert_eq!(message_column(80, 30, true), 0);
}

#[test]
fn message_grids_redo_on_change() {
    let mut g: MessageGrids<u8> = MessageGrids::new();
    assert!(g.begin_update(Vec2::new(10, 5), false));
    g.push_text(1);
    assert!(!g.begin_update(Vec2::new(10, 5), false));
    assert_eq!(g.texts(), &[1]);
    assert!(g.begin_update(Vec2::new(10, 5), true));
    assert!(g.texts().is_empty());
}

#[test]
fn cmdline_shows_the_top_prompt() {
    assert!(cmdline_lines(&Cmdline::new()).is_none());
    let mut c = Cmdline::new();
    c.show(CmdlineShow {
        content: content(&[("e f", 3)]),
        pos: 0,
        firstc: ":".to_string(),
        prompt: "p>".to_string(),
        indent: 0,
        level: 1,
    });
    let lines = cmdline_lines(&c).unwrap();
    assert_eq!(lines.len(), 1);
    assert_eq!(text_of(&lines[0]), ":p>e f");
    assert_eq!(lines[0][0].highlight, 0);
    assert_eq!(lines[0][3].highlight, 3);
}

#[test]
fn ranges() {
    let r = GridRange::new(2, 8);
    assert_eq!(r.len(), 6);
    assert_eq!(GridRange::until(4), GridRange::new(0, 4));
    assert_eq!(r.union(GridRange::new(-1, 3)), GridRange::new(-1, 8));
    assert_eq!(r + 2, GridRange::new(4, 10));
    assert_eq!(r - 2, GridRange::new(0, 6));
    let a = Range::new(0, 10);
    assert_eq!(a.cover(Range::new(20, 30)), Some(a));
    assert_eq!(a.cover(Range::new(5, 30)), Some(Range::new(0, 5)));
    assert_eq!(a.cover(Range::new(-5, 4)), Some(Range::new(4, 10)));
    assert_eq!(a.cover(Range::new(0, 10)), None);
    assert_eq!(a.cover(Range::new(-1, 11)), None);
    assert_eq!(Range::until(3).union(Range::new(5, 6)), Range::new(0, 6));
    assert_eq!(Range { start: 5, end: 2 }.cover(Range::new(0, 10)), None);
    assert_eq!(Range { start: 30, end: 25 }.cover(Range::new(0, 10)), Some(Range { start: 30, end: 25 }));
    assert_eq!(GridRange { start: 5, end: 2 }.cover(GridRange::new(0, 10)), GridRange::new(5, 5));
}

fn contents(height: u64) -> GridContents {
    let mut g = GridContents::new();
    g.resize(Vec2::new(1, height));
    g
}

#[test]
fn scroll_parts_cover_older_grids() {
    let part = GridPart::new(contents(4));
    assert_eq!((part.offset, part.start, part.end), (0, 0, 4));
    assert!(!part.is_empty());
    let mut parts = ScrollParts::new(contents(4));
    assert_eq!(parts.push(contents(4), 1), 1);
    assert_eq!(parts.parts.len(), 2);
    assert_eq!(parts.parts[1].offset, -1);
    assert_eq!((parts.parts[1].start, parts.parts[1].end), (0, 1));
    assert_eq!(parts.push(contents(4), 10), 4);
    assert_eq!(parts.parts.len(), 3);
    assert_eq!(parts.parts[1].offset, -4);
    assert_eq!((parts.parts[1].start, parts.parts[1].end), (0, 4));
    assert_eq!(parts.parts[2].offset, -5);
    assert_eq!((parts.parts[2].start, parts.parts[2].end), (0, 1));
    assert_eq!(parts.size(), Vec2::new(1, 4));
    parts.finish_scroll();
    assert_eq!(parts.parts.len(), 1);
    parts.replace(contents(2));
    assert_eq!(parts.parts[0].end, 2);
    assert_eq!(parts.push(contents(4), 0), 0);
    assert_eq!(parts.parts.len(), 1);
}

#[test]
fn scroll_rows_oldest_first() {
    let mut old = GridContents::new();
    old.resize(Vec2::new(1, 3));
    for (y, t) in ["a", "b", "c"].iter().enumerate() {
        old.grid_line(
            y as u64,
            0,
            vec![LineCell {
                text: t.to_string(),
                hl_id: None,
                repeat: None,
            }],
        );
    }
    let mut new = GridContents::new();
    new.resize(Vec2::new(1, 3));
    new.grid_line(
        2,
        0,
        vec![LineCell {
            text: "d".to_string(),
            hl_id: Some(1),
            repeat: None,
        }],
    );
    let mut parts = ScrollParts::new(old);
    parts.push(new, 2);
    let rows = parts.rows();
    let numbered: Vec<(i32, String)> = rows.iter().map(|(n, cells)| (*n, text_of(cells))).collect();
    assert_eq!(numbered[0], (-2, "a".to_string()));
    assert_eq!(numbered[1], (-1, "b".to_string()));
    assert_eq!(numbered.len(), 5);
    assert_eq!(numbered[4], (2, "d".to_string()));
    assert_eq!(rows[4].1[0].highlight, 1);
}

#[test]
fn clusters_lay_out_glyphs_emoji_underlines_and_fills() {
    let m = MetricsPixels {
        scale_factor: 1,
        width: 10,
        em: 16,
        descent: 4,
        ascent: 12,
        leading: 0,
        cap_height: 0,
        x_height: 0,
        underline_offset: 2,
        strikeout_offset: 0,
        stroke_size: 3,
    };
    let mut plain = Attributes::new();
    plain.bold = Some(true);
    let mut under = Attributes::new();
    under.underline = Some(true);
    let highlights = vec![Attributes::new(), plain, under];
    let cluster = ShapedCluster {
        data: 2,
        source_start: 3,
        glyphs: vec![
            ShapedGlyph {
                offset: Vec2::new(1, -2),
                value: Some(CacheValue { index: 5, kind: GlyphKind::Monochrome }),
                highlight: 2,
            },
            ShapedGlyph { offset: Vec2::new(0, 0), value: None, highlight: 2 },
            ShapedGlyph {
                offset: Vec2::new(4, 0),
                value: Some(CacheValue { index: 9, kind: GlyphKind::Emoji }),
                highlight: 1,
            },
        ],
    };
    let cell_size = Vec2::new(10, 20);
    let mut b = GridBuffers::new();
    b.lay_out_cluster(&cluster, 2, cell_size, &m, &highlights);
    assert_eq!(b.cell_fill, vec![2]);
    assert_eq!(
        b.monochrome,
        vec![Cell { position: Vec2::new(31, 54), glyph_index: 5, highlight_index: 2 }]
    );
    assert_eq!(
        b.emoji,
        vec![Cell { position: Vec2::new(34, 56), glyph_index: 9, highlight_index: 0 }]
    );
    assert_eq!(
        b.lines,
        vec![Line {
            position: Vec2::new(31, 52),
            size: Vec2::new(10, 1),
            highlight_index: 2,
            padding: 0
        }]
    );
    b.fill_unshaped(4, 7, 1);
    b.fill_unshaped(7, 7, 9);
    assert_eq!(b.cell_fill, vec![2, 1, 1, 1]);
    b.clear();
    assert!(b.monochrome.is_empty() && b.emoji.is_empty() && b.cell_fill.is_empty());
    assert!(b.lines.is_empty());
}

fn prompt_with(lines: &[&str], cursor_pos: u32, prompt: &str) -> Cmdline {
    let content_lines = lines
        .iter()
        .map(|l| Content { chunks: vec![Chunk { attr_id: 0, text_chunk: l.to_string() }] })
        .collect();
    Cmdline {
        mode: Some(Mode::Normal {
            levels: vec![Prompt {
                content_lines,
                cursor_pos,
                first_char: Some(':'),
                prompt: prompt.to_string(),
                special: None,
                indent: 0,
            }],
        }),
    }
}

#[test]
fn cmdline_cursor_follows_wrapped_lines_and_prompt() {
    assert_eq!(cmdline_cursor_cell(&Cmdline { mode: None }, 10), None);
    assert_eq!(cmdline_cursor_cell(&prompt_with(&["abc"], 2, ""), 10), Some((3, 9)));
    assert_eq!(cmdline_cursor_cell(&prompt_with(&["abc"], 2, "Name: "), 10), Some((9, 9)));
    assert_eq!(cmdline_cursor_cell(&prompt_with(&["abcd", "ef"], 5, ""), 10), Some((2, 9)));
    assert_eq!(cmdline_cursor_cell(&prompt_with(&["abcd", "ef"], 3, ""), 10), Some((4, 8)));
    assert_eq!(cmdline_cursor_cell(&prompt_with(&["\u{e9}x", "y"], 4, ""), 5), Some((2, 4)));
}

#[test]
fn cursor_draws_up_to_four_monochrome_glyphs() {
    let info = vec![
        GlyphInfo { size: Vec2::new(5, 5), offset: Vec2::new(1, 10), origin: Vec2::new(0, 0) },
        GlyphInfo { size: Vec2::new(5, 5), offset: Vec2::new(-2, 3), origin: Vec2::new(5, 0) },
    ];
    let mono = |index: usize, x: i32| CursorGlyph {
        value: Some(CacheValue { index, kind: GlyphKind::Monochrome }),
        pen: Vec2::new(x, 16),
    };
    let glyphs = vec![
        mono(0, 0),
        CursorGlyph { value: None, pen: Vec2::new(0, 16) },
        CursorGlyph {
            value: Some(CacheValue { index: 0, kind: GlyphKind::Emoji }),
            pen: Vec2::new(0, 16),
        },
        mono(1, 2),
        mono(0, 4),
        mono(1, 6),
        mono(0, 8),
    ];
    let cells = cursor_cells(&glyphs, &info);
    assert_eq!(cells.len(), 4);
    assert_eq!(cells[0], Cell { position: Vec2::new(1, 6), glyph_index: 0, highlight_index: 0 });
    assert_eq!(cells[1], Cell { position: Vec2::new(0, 13), glyph_index: 1, highlight_index: 0 });
    assert_eq!(cells[3].position, Vec2::new(4, 13));
    assert!(cursor_cells(&vec![], &info).is_empty());
}

#[test]
fn clusters_group_into_font_runs() {
    let a = Some(BestFont::new(0, FontStyle::Regular));
    let b = Some(BestFont::new(0, FontStyle::Bold));
    let fonts = vec![None, a, a, None, None, a, b, b, a];
    assert_eq!(
        font_runs(&fonts),
        vec![
            FontRun { start: 0, end: 1, font: None },
            FontRun { start: 1, end: 3, font: a },
            FontRun { start: 3, end: 4, font: None },
            FontRun { start: 4, end: 5, font: None },
            FontRun { start: 5, end: 6, font: a },
            FontRun { start: 6, end: 8, font: b },
            FontRun { start: 8, end: 9, font: a },
        ]
    );
    assert!(font_runs(&vec![]).is_empty());
}
