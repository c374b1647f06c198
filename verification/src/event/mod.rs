//! The Neovim UI events that the UI state reads, as plain values.
pub mod grid_line;

use vstd::prelude::*;

verus! {

/// A piece of highlighted text.
#[derive(Debug, Clone, PartialEq, Eq)]
pub struct Chunk {
    pub attr_id: u32,
    pub text_chunk: String,
}

/// Highlighted text made of chunks.
#[derive(Debug, Clone, PartialEq, Eq)]
pub struct Content {
    pub chunks: Vec<Chunk>,
}

impl Content {
    /// Text with no chunks.
    pub fn new() -> (r: Content)
        ensures
            r.chunks@.len() == 0,
    {
        Content { chunks: Vec::new() }
    }
}

/// `cmdline_show`: the command line at `level` shows `content` after the prompt.
#[derive(Debug, Clone, PartialEq, Eq)]
pub struct CmdlineShow {
    pub content: Content,
    pub pos: u32,
    pub firstc: String,
    pub prompt: String,
    pub indent: u32,
    pub level: u64,
}

/// `cmdline_pos`: the cursor moved to `pos`.
#[derive(Debug, Clone, Copy, PartialEq, Eq)]
pub struct CmdlinePos {
    pub pos: u32,
    pub level: u64,
}

/// `cmdline_special_char`: a special char is shown at the cursor.
#[derive(Debug, Clone, Copy, PartialEq, Eq)]
pub struct CmdlineSpecialChar {
    pub c: char,
    pub shift: bool,
    pub level: u64,
}

/// `cmdline_block_show`: a block of lines is shown above the command line.
#[derive(Debug, Clone, PartialEq, Eq)]
pub struct CmdlineBlockShow {
    pub lines: Vec<Content>,
}

/// `cmdline_block_append`: a line is added to the block.
#[derive(Debug, Clone, PartialEq, Eq)]
pub struct CmdlineBlockAppend {
    pub line: Content,
}

/// Whether a message replaces the last one shown.
#[derive(Debug, Clone, Copy, PartialEq, Eq)]
pub enum ReplaceLast {
    Replace,
    Keep,
}

/// `msg_show`: a message to show.
#[derive(Debug, Clone, PartialEq, Eq)]
pub struct MsgShow {
    pub kind: String,
    pub content: Content,
    pub replace_last: ReplaceLast,
}

/// An entry of the message history.
#[derive(Debug, Clone, PartialEq, Eq)]
pub struct MsgHistoryEntry {
    pub kind: String,
    pub content: Content,
}

/// The cursor settings of a Vim mode, as far as they are read here.
#[derive(Debug, Clone, PartialEq, Eq)]
pub struct ModeInfo {
    pub name: String,
    pub blinkon: Option<u32>,
    pub blinkoff: Option<u32>,
    pub blinkwait: Option<u32>,
}


/// A coordinate in grid cells as Neovim sends it: a whole number of cells, or the bits of an
/// `f64` number of cells (read by whoever turns it into a position).
#[derive(Debug, Clone, Copy, PartialEq, Eq)]
pub enum CellCoord {
    Whole(u64),
    F64Bits(u64),
}

/// The corner of a floating window that its anchor position gives.
#[derive(Debug, Clone, Copy, PartialEq, Eq)]
pub enum Anchor {
    Nw,
    Ne,
    Sw,
    Se,
}

/// Highlight attributes.
#[derive(Debug, Clone, Copy, PartialEq, Eq)]
pub struct Attributes {
    pub foreground: Option<u32>,
    pub background: Option<u32>,
    pub special: Option<u32>,
    pub reverse: Option<bool>,
    pub italic: Option<bool>,
    pub bold: Option<bool>,
    pub strikethrough: Option<bool>,
    pub underline: Option<bool>,
    pub undercurl: Option<bool>,
    pub blend: Option<u32>,
}

/// Attributes with nothing set.
pub open spec fn no_attributes() -> Attributes {
    Attributes {
        foreground: None,
        background: None,
        special: None,
        reverse: None,
        italic: None,
        bold: None,
        strikethrough: None,
        underline: None,
        undercurl: None,
        blend: None,
    }
}

/// Highlight 0 with no attribute set.
pub open spec fn default_hl_attr() -> HlAttrDefine {
    HlAttrDefine { id: 0, rgb_attr: no_attributes(), cterm_attr: no_attributes() }
}

impl Attributes {
    /// No attribute set.
    pub fn new() -> (r: Attributes)
        ensures
            r == no_attributes(),
    {
        Attributes {
            foreground: None,
            background: None,
            special: None,
            reverse: None,
            italic: None,
            bold: None,
            strikethrough: None,
            underline: None,
            undercurl: None,
            blend: None,
        }
    }
}

/// `hl_attr_define`: the attributes of highlight `id`.
#[derive(Debug, Clone, Copy, PartialEq, Eq)]
pub struct HlAttrDefine {
    pub id: u64,
    pub rgb_attr: Attributes,
    pub cterm_attr: Attributes,
}

impl HlAttrDefine {
    /// Highlight 0 with no attribute set.
    pub fn new() -> (r: HlAttrDefine)
        ensures
            r == default_hl_attr(),
    {
        HlAttrDefine { id: 0, rgb_attr: Attributes::new(), cterm_attr: Attributes::new() }
    }
}

/// `default_colors_set`: the default colors.
#[derive(Debug, Clone, Copy, PartialEq, Eq)]
pub struct DefaultColorsSet {
    pub rgb_fg: Option<u32>,
    pub rgb_bg: Option<u32>,
    pub rgb_sp: Option<u32>,
}

/// An item of the popup menu.
#[derive(Debug, Clone, PartialEq, Eq)]
pub struct PopupmenuItem {
    pub word: String,
    pub kind: String,
    pub menu: String,
    pub info: String,
}

/// `popupmenu_show`.
#[derive(Debug, Clone, PartialEq, Eq)]
pub struct PopupmenuShow {
    pub items: Vec<PopupmenuItem>,
    pub selected: i64,
    pub row: u64,
    pub col: u64,
    pub grid: i64,
}

/// A tab of the tab line.
#[derive(Debug, Clone, PartialEq, Eq)]
pub struct Tab {
    pub tab: u64,
    pub name: String,
}

/// `tabline_update`.
#[derive(Debug, Clone, PartialEq, Eq)]
pub struct TablineUpdate {
    pub current: u64,
    pub tabs: Vec<Tab>,
}

/// The UI events of a `redraw` notification.
#[derive(Debug, Clone)]
pub enum Event {
    DefaultColorsSet(DefaultColorsSet),
    HlAttrDefine(HlAttrDefine),
    HlGroupSet { name: String, hl_id: u64 },
    ModeChange { mode: String, mode_idx: u64 },
    ModeInfoSet { cursor_style_enabled: bool, mode_info: Vec<ModeInfo> },
    GridResize { grid: u64, width: u64, height: u64 },
    GridClear { grid: u64 },
    GridDestroy { grid: u64 },
    GridCursorGoto { grid: u64, row: u64, column: u64 },
    GridScroll { grid: u64, top: u64, bot: u64, left: u64, right: u64, rows: i64, cols: i64 },
    GridLine { grid: u64, row: u64, col_start: u64, cells: Vec<grid_line::Cell> },
    WinPos { grid: u64, win: u64, start_row: u64, start_col: u64, width: u64, height: u64 },
    WinFloatPos {
        grid: u64,
        win: u64,
        anchor: Anchor,
        anchor_grid: u64,
        anchor_row: CellCoord,
        anchor_col: CellCoord,
        focusable: bool,
    },
    WinExternalPos { grid: u64, win: u64 },
    WinHide { grid: u64 },
    WinClose { grid: u64 },
    WinViewport {
        grid: u64,
        win: u64,
        topline: u64,
        botline: u64,
        curline: u64,
        curcol: u64,
        line_count: u64,
        scroll_delta: i64,
    },
    WinExtmark,
    PopupmenuShow(PopupmenuShow),
    PopupmenuSelect { selected: i64 },
    PopupmenuHide,
    CmdlineShow(CmdlineShow),
    CmdlinePos(CmdlinePos),
    CmdlineSpecialChar(CmdlineSpecialChar),
    CmdlineHide,
    CmdlineBlockShow(CmdlineBlockShow),
    CmdlineBlockAppend(CmdlineBlockAppend),
    CmdlineBlockHide,
    MsgShow(MsgShow),
    MsgClear,
    MsgShowmode { content: Content },
    MsgShowcmd { content: Content },
    MsgRuler { content: Content },
    MsgHistoryShow { entries: Vec<MsgHistoryEntry> },
    MsgHistoryClear,
    MsgSetPos { grid: u64, row: u64, scrolled: bool, sep_char: String },
    TablineUpdate(TablineUpdate),
    MouseOn,
    MouseOff,
    BusyStart,
    BusyStop,
    Flush,
    Suspend,
    SetTitle(String),
    SetIcon(String),
    UpdateMenu,
    Bell,
    VisualBell,
}

} // verus!
