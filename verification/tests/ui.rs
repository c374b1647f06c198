use neophyte::event::grid_line::Cell as LineCell;
use neophyte::event::{
    Anchor, Attributes, CellCoord, Chunk, CmdlineBlockAppend, CmdlineBlockShow, CmdlinePos,
    CmdlineShow, CmdlineSpecialChar, Content, DefaultColorsSet, Event, HlAttrDefine, ModeInfo,
    MsgShow, PopupmenuShow, ReplaceLast,
};
use neophyte::ui::cmdline::{Cmdline, Mode, Prompt, Special};
use neophyte::ui::messages::Messages;
use neophyte::ui::packed_char::PackedCharContents;
use neophyte::ui::window::{FloatingWindow, NormalWindow, Window, WindowOffset};
use neophyte::ui::{CursorInfo, Ui};
use neophyte::util::vec2::Vec2;

fn content(text: &str, attr_id: u32) -> Content {
    Content {
        chunks: vec![Chunk {
            attr_id,
            text_chunk: text.to_string(),
        }],
    }
}

fn show_event(text: &str, level: u64) -> CmdlineShow {
    CmdlineShow {
        content: content(text, 0),
        pos: 0,
        firstc: ":".to_string(),
        prompt: String::new(),
        indent: 0,
        level,
    }
}

fn levels(cmdline: &Cmdline) -> Vec<String> {
    match &cmdline.mode {
        Some(Mode::Normal { levels }) => levels
            .iter()
            .map(|p| p.content_lines[0].chunks[0].text_chunk.clone())
            .collect(),
        _ => panic!("not a stack of prompts"),
    }
}

#[test]
fn cmdline_show_starts_a_stack_and_hide_closes_it() {
    let mut c = Cmdline::new();
    assert!(c.mode.is_none());
    c.show(show_event("ls", 1));
    assert_eq!(levels(&c), vec!["ls"]);
    match &c.mode {
        Some(Mode::Normal { levels }) => {
            assert_eq!(levels[0].first_char, Some(':'));
            assert!(levels[0].special.is_none());
        }
        _ => panic!(),
    }
    c.hide_prompt();
    assert!(c.mode.is_none());
}

#[test]
fn cmdline_show_at_a_new_level_nests_and_hide_unnests() {
    let mut c = Cmdline::new();
    c.show(show_event("outer", 1));
    c.show(show_event("inner", 2));
    assert_eq!(levels(&c), vec!["outer", "inner"]);
    c.show(show_event("outer2", 1));
    assert_eq!(levels(&c), vec!["outer2", "inner"]);
    c.hide_prompt();
    assert_eq!(levels(&c), vec!["outer2"]);
}

#[test]
fn cmdline_cursor_and_special_char_go_to_the_top_prompt() {
    let mut c = Cmdline::new();
    c.show(show_event("a", 1));
    c.show(show_event("b", 2));
    c.set_cursor_pos(5);
    c.special(CmdlineSpecialChar {
        c: '^',
        shift: true,
        level: 2,
    });
    match &c.mode {
        Some(Mode::Normal { levels }) => {
            assert_eq!(levels[0].cursor_pos, 0);
            assert_eq!(levels[1].cursor_pos, 5);
            assert_eq!(levels[1].special, Some(Special::new('^', true)));
            assert!(levels[0].special.is_none());
        }
        _ => panic!(),
    }
}

#[test]
fn cmdline_blocks() {
    let mut c = Cmdline::new();
    c.show_block(vec![content("function! F()", 0)]);
    c.append_block(content("  return 1", 0));
    c.show(show_event("endfunction", 1));
    match &c.mode {
        Some(Mode::Block {
            previous_lines,
            current_line,
        }) => {
            assert_eq!(previous_lines.len(), 2);
            assert_eq!(current_line.content_lines[0].chunks[0].text_chunk, "endfunction");
        }
        _ => panic!(),
    }
    c.hide_prompt();
    assert!(matches!(c.mode, Some(Mode::Block { .. })));
    c.hide_block();
    assert!(c.mode.is_none());
}

#[test]
fn prompt_from_show_takes_the_event() {
    let p = Prompt::from_show(CmdlineShow {
        content: content("x", 3),
        pos: 2,
        firstc: String::new(),
        prompt: "Name: ".to_string(),
        indent: 4,
        level: 1,
    });
    assert_eq!(p.cursor_pos, 2);
    assert_eq!(p.first_char, None);
    assert_eq!(p.prompt, "Name: ");
    assert_eq!(p.indent, 4);
    assert_eq!(p.content_lines.len(), 1);
    let d = Prompt::default();
    assert!(d.content_lines.is_empty() && d.prompt.is_empty() && d.first_char.is_none());
}

fn msg(text: &str, replace_last: ReplaceLast) -> MsgShow {
    MsgShow {
        kind: "echo".to_string(),
        content: content(text, 0),
        replace_last,
    }
}

#[test]
fn messages_show_and_replace() {
    let mut m = Messages::new();
    m.show(msg("one", ReplaceLast::Keep));
    m.show(msg("two", ReplaceLast::Keep));
    m.show(msg("three", ReplaceLast::Replace));
    let texts: Vec<&str> = m
        .show
        .iter()
        .map(|e| e.content.chunks[0].text_chunk.as_str())
        .collect();
    assert_eq!(texts, vec!["one", "three"]);
    let mut empty = Messages::new();
    empty.show(msg("only", ReplaceLast::Replace));
    assert_eq!(empty.show.len(), 1);
}

fn attrs() -> Attributes {
    Attributes::new()
}

fn resize(ui: &mut Ui, grid: u64, width: u64, height: u64) {
    ui.process(Event::GridResize {
        grid,
        width,
        height,
    });
}

#[test]
fn new_ui_state() {
    let ui = Ui::new();
    assert!(ui.grids.is_empty());
    assert_eq!(ui.draw_order, vec![1]);
    assert_eq!(ui.cursor.grid, 1);
    assert!(ui.cursor.enabled);
    let c = CursorInfo::default();
    assert_eq!(c.pos, Vec2::new(0, 0));
    assert!(!c.style_enabled);
}

#[test]
fn grid_resize_creates_grids_in_id_order() {
    let mut ui = Ui::new();
    resize(&mut ui, 3, 2, 2);
    resize(&mut ui, 1, 4, 1);
    resize(&mut ui, 2, 1, 1);
    let ids: Vec<u64> = ui.grids.iter().map(|g| g.id).collect();
    assert_eq!(ids, vec![1, 2, 3]);
    assert_eq!(ui.grid_index(2), Ok(1));
    assert_eq!(ui.grid_index(5), Err(3));
    assert_eq!(ui.grid_index(0), Err(0));
    assert!(ui.grid(3).unwrap().dirty.contents());
    assert_eq!(ui.grid(1).unwrap().contents().size, Vec2::new(4, 1));
    assert!(ui.grid(9).is_none());
}

#[test]
fn grid_line_then_read_back() {
    let mut ui = Ui::new();
    resize(&mut ui, 1, 3, 1);
    ui.process(Event::GridLine {
        grid: 1,
        row: 0,
        col_start: 0,
        cells: vec![LineCell {
            text: "é".to_string(),
            hl_id: Some(2),
            repeat: Some(3),
        }],
    });
    let g = ui.grid(1).unwrap();
    for x in 0..3 {
        let cell = g.contents().get(Vec2::new(x, 0));
        assert_eq!(cell.text.contents(), PackedCharContents::Char('é'));
        assert_eq!(cell.highlight, 2);
    }
}

#[test]
fn windows_and_draw_order() {
    let mut ui = Ui::new();
    resize(&mut ui, 1, 10, 10);
    resize(&mut ui, 2, 5, 5);
    ui.process(Event::WinPos {
        grid: 2,
        win: 1000,
        start_row: 1,
        start_col: 2,
        width: 5,
        height: 5,
    });
    assert_eq!(ui.draw_order, vec![1, 2]);
    assert_eq!(ui.float_windows_start, 1);
    assert_eq!(
        *ui.grid(2).unwrap().window(),
        Window::Normal(NormalWindow {
            start_col: 2,
            start_row: 1,
            width: 5,
            height: 5
        })
    );
    ui.process(Event::WinFloatPos {
        grid: 1,
        win: 1001,
        anchor: Anchor::Se,
        anchor_grid: 2,
        anchor_row: CellCoord::Whole(3),
        anchor_col: CellCoord::Whole(4),
        focusable: true,
    });
    assert_eq!(ui.draw_order, vec![2, 1]);
    ui.process(Event::WinHide { grid: 1 });
    assert_eq!(ui.draw_order, vec![2]);
    ui.process(Event::WinClose { grid: 2 });
    assert!(ui.draw_order.is_empty());
    assert_eq!(*ui.grid(2).unwrap().window(), Window::Unset);
    ui.process(Event::WinExternalPos { grid: 1, win: 1001 });
    assert_eq!(*ui.grid(1).unwrap().window(), Window::External);
}

#[test]
fn grid_destroy_removes_the_grid() {
    let mut ui = Ui::new();
    resize(&mut ui, 1, 1, 1);
    resize(&mut ui, 2, 1, 1);
    ui.process(Event::WinPos {
        grid: 2,
        win: 1,
        start_row: 0,
        start_col: 0,
        width: 1,
        height: 1,
    });
    ui.process(Event::GridDestroy { grid: 2 });
    assert!(ui.grid(2).is_none());
    assert_eq!(ui.draw_order, vec![1]);
    assert_eq!(ui.deleted_grids, vec![2]);
    ui.clear_dirty();
    assert!(ui.deleted_grids.is_empty());
    assert!(!ui.grid(1).unwrap().dirty.contents());
}

#[test]
fn message_position_creates_the_message_grid() {
    let mut ui = Ui::new();
    resize(&mut ui, 1, 10, 10);
    ui.process(Event::MsgSetPos {
        grid: 7,
        row: 8,
        scrolled: false,
        sep_char: String::new(),
    });
    assert_eq!(ui.draw_order, vec![1, 7]);
    assert_eq!(
        *ui.grid(7).unwrap().window(),
        Window::Floating(FloatingWindow {
            anchor: Anchor::Nw,
            anchor_grid: 1,
            anchor_col: CellCoord::Whole(0),
            anchor_row: CellCoord::Whole(8),
            focusable: false,
        })
    );
}

#[test]
fn highlights_and_groups() {
    let mut ui = Ui::new();
    let mut hl = HlAttrDefine::new();
    hl.id = 3;
    hl.rgb_attr.foreground = Some(0xff0000);
    ui.process(Event::HlAttrDefine(hl));
    assert!(ui.did_highlights_change);
    assert_eq!(ui.highlights.len(), 6);
    assert_eq!(ui.highlights[3].rgb_attr.foreground, Some(0xff0000));
    assert_eq!(ui.highlights[0], HlAttrDefine::new());
    let mut hl1 = HlAttrDefine::new();
    hl1.id = 1;
    ui.process(Event::HlAttrDefine(hl1));
    assert_eq!(ui.highlights.len(), 6);
    assert_eq!(ui.highlights[1].id, 1);
    assert_eq!(ui.highlights[3].id, 3);
    let mut redefined = HlAttrDefine::new();
    redefined.id = 3;
    redefined.rgb_attr.bold = Some(true);
    ui.process(Event::HlAttrDefine(redefined));
    assert_eq!(ui.highlights.len(), 6);
    assert_eq!(ui.highlights[3], redefined);
    assert_eq!(ui.highlights[1].id, 1);
    let mut appended = HlAttrDefine::new();
    appended.id = 6;
    ui.process(Event::HlAttrDefine(appended));
    assert_eq!(ui.highlights.len(), 7);
    assert_eq!(ui.highlights[6].id, 6);
    ui.process(Event::HlGroupSet {
        name: "Normal".to_string(),
        hl_id: 3,
    });
    ui.process(Event::HlGroupSet {
        name: "Error".to_string(),
        hl_id: 4,
    });
    ui.process(Event::HlGroupSet {
        name: "Normal".to_string(),
        hl_id: 5,
    });
    assert_eq!(
        ui.highlight_groups,
        vec![("Normal".to_string(), 5), ("Error".to_string(), 4)]
    );
    assert_eq!(ui.highlight_group(&"Normal".to_string()), Some(5));
    assert_eq!(ui.highlight_group(&"Error".to_string()), Some(4));
    assert_eq!(ui.highlight_group(&"Cursor".to_string()), None);
    ui.process(Event::DefaultColorsSet(DefaultColorsSet {
        rgb_fg: Some(1),
        rgb_bg: Some(2),
        rgb_sp: None,
    }));
    assert_eq!(ui.default_colors.rgb_bg, Some(2));
    let _ = attrs();
}

#[test]
fn cursor_mode_mouse_busy_and_popupmenu() {
    let mut ui = Ui::new();
    ui.process(Event::GridCursorGoto {
        grid: 4,
        row: 2,
        column: 9,
    });
    assert_eq!(ui.cursor.pos, Vec2::new(9, 2));
    assert_eq!(ui.cursor.grid, 4);
    ui.process(Event::ModeChange {
        mode: "insert".to_string(),
        mode_idx: 2,
    });
    assert_eq!(ui.current_mode, 2);
    ui.process(Event::ModeInfoSet {
        cursor_style_enabled: true,
        mode_info: vec![ModeInfo {
            name: "normal".to_string(),
            blinkon: None,
            blinkoff: None,
            blinkwait: None,
        }],
    });
    assert!(ui.cursor.style_enabled);
    assert_eq!(ui.modes.len(), 1);
    ui.process(Event::MouseOn);
    assert!(ui.mouse);
    ui.process(Event::MouseOff);
    assert!(!ui.mouse);
    ui.process(Event::BusyStart);
    assert!(!ui.cursor.enabled);
    ui.process(Event::BusyStop);
    assert!(ui.cursor.enabled);
    ui.process(Event::PopupmenuSelect { selected: 1 });
    assert!(ui.popupmenu.is_none());
    ui.process(Event::PopupmenuShow(PopupmenuShow {
        items: vec![],
        selected: -1,
        row: 0,
        col: 0,
        grid: 1,
    }));
    ui.process(Event::PopupmenuSelect { selected: 2 });
    assert_eq!(ui.popupmenu.as_ref().unwrap().selected, 2);
    ui.process(Event::PopupmenuHide);
    assert!(ui.popupmenu.is_none());
}

#[test]
fn cmdline_and_message_events() {
    let mut ui = Ui::new();
    ui.process(Event::CmdlineShow(show_event("w", 1)));
    ui.process(Event::CmdlinePos(CmdlinePos { pos: 1, level: 1 }));
    assert_eq!(levels(&ui.cmdline), vec!["w"]);
    ui.process(Event::CmdlineHide);
    assert!(ui.cmdline.mode.is_none());
    ui.process(Event::CmdlineBlockShow(CmdlineBlockShow {
        lines: vec![content("a", 0)],
    }));
    ui.process(Event::CmdlineBlockAppend(CmdlineBlockAppend {
        line: content("b", 0),
    }));
    ui.process(Event::CmdlineBlockHide);
    assert!(ui.cmdline.mode.is_none());
    ui.process(Event::MsgShow(msg("hi", ReplaceLast::Keep)));
    assert_eq!(ui.messages.show.len(), 1);
    ui.process(Event::MsgClear);
    assert!(ui.messages.show.is_empty());
    ui.process(Event::MsgShowmode {
        content: content("-- INSERT --", 1),
    });
    assert_eq!(ui.messages.showmode.chunks[0].text_chunk, "-- INSERT --");
}

#[test]
fn window_offsets() {
    let size = Vec2::new(10, 4);
    let origin = WindowOffset {
        col: CellCoord::Whole(0),
        row: CellCoord::Whole(0),
        shift: Vec2::new(0, 0),
        anchor_grid: None,
    };
    assert_eq!(Window::Unset.offset(size), origin);
    assert_eq!(Window::External.offset(size), origin);
    assert_eq!(
        Window::Messages { row: 3 }.offset(size),
        WindowOffset {
            row: CellCoord::Whole(3),
            ..origin
        }
    );
    let float = Window::Floating(FloatingWindow {
        anchor: Anchor::Sw,
        anchor_grid: 2,
        anchor_col: CellCoord::Whole(5),
        anchor_row: CellCoord::Whole(6),
        focusable: true,
    });
    assert_eq!(
        float.offset(size),
        WindowOffset {
            col: CellCoord::Whole(5),
            row: CellCoord::Whole(6),
            shift: Vec2::new(0, 4),
            anchor_grid: Some(2),
        }
    );
}

#[test]
fn events_that_fit_the_ui() {
    let mut ui = Ui::new();
    assert!(!ui.event_fits(&Event::GridClear { grid: 1 }));
    assert!(ui.event_fits(&Event::GridResize {
        grid: 1,
        width: 3,
        height: 2
    }));
    assert!(!ui.event_fits(&Event::GridResize {
        grid: 1,
        width: u64::MAX,
        height: 2
    }));
    resize(&mut ui, 1, 3, 2);
    assert!(ui.event_fits(&Event::GridClear { grid: 1 }));
    let line = |cells: Vec<LineCell>| Event::GridLine {
        grid: 1,
        row: 1,
        col_start: 1,
        cells,
    };
    let c = |text: &str, hl_id: Option<u64>, repeat: Option<u64>| LineCell {
        text: text.to_string(),
        hl_id,
        repeat,
    };
    assert!(ui.event_fits(&line(vec![c("a", None, Some(2))])));
    assert!(!ui.event_fits(&line(vec![c("a", None, Some(3))])));
    assert!(!ui.event_fits(&line(vec![c("a", Some(1 << 40), None)])));
    assert!(!ui.event_fits(&Event::GridLine {
        grid: 1,
        row: 2,
        col_start: 0,
        cells: vec![],
    }));
    assert!(ui.event_fits(&Event::GridScroll {
        grid: 1,
        top: 0,
        bot: 2,
        left: 0,
        right: 3,
        rows: 1,
        cols: 0
    }));
    assert!(!ui.event_fits(&Event::GridScroll {
        grid: 1,
        top: 0,
        bot: 3,
        left: 0,
        right: 3,
        rows: 1,
        cols: 0
    }));
    assert!(ui.event_fits(&Event::Bell));
}
