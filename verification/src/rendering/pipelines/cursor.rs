//! When the cursor blinks, and where the command line's cursor is.
use crate::event::{Chunk, Content, ModeInfo};
use crate::rendering::grid::Cell;
use crate::text::cache::{CacheValue, GlyphInfo, GlyphKind};
use crate::util::vec2::Vec2;
use crate::ui::cmdline::{Cmdline, Mode, Prompt};
use vstd::prelude::*;
use vstd::utf8::encode_utf8;

verus! {

/// Which cursor is drawn: the grid's or the command line's.
#[derive(Debug, Clone, Copy, PartialEq, Eq)]
pub enum CursorKind {
    Normal,
    Cmdline,
}

/// How the cursor blinks, in milliseconds: how long it waits before blinking, then how long
/// it is shown and hidden in each cycle.
#[derive(Debug, Clone, Copy, PartialEq, Eq)]
pub struct BlinkRate {
    pub on: u32,
    pub off: u32,
    pub wait: u32,
}

/// Where the cursor is in its blinking, and when that changes.
#[derive(Debug, Clone, Copy, PartialEq, Eq)]
pub enum BlinkPhase {
    /// Shown, before the first blink, which comes after this many nanoseconds
    Waiting { remaining_nanos: u64 },
    /// Shown, and hidden after this many milliseconds
    On { until_off_millis: u64 },
    /// Hidden, and shown after this many milliseconds
    Off { until_on_millis: u64 },
}

/// Nanoseconds in a millisecond.
pub const NANOS_PER_MILLI: u128 = 1_000_000;

impl BlinkRate {
    /// The blink rate of a mode, where all three times are given and none is zero.
    pub fn from_mode_info(mode: &ModeInfo) -> (r: Option<BlinkRate>)
        ensures
            r == (match (mode.blinkon, mode.blinkoff, mode.blinkwait) {
                (Some(on), Some(off), Some(wait)) => if on > 0 && off > 0 && wait > 0 {
                    Some(BlinkRate { on, off, wait })
                } else {
                    None
                },
                _ => None,
            }),
    {
        match (mode.blinkon, mode.blinkoff, mode.blinkwait) {
            (Some(on), Some(off), Some(wait)) => {
                if on > 0 && off > 0 && wait > 0 {
                    Some(BlinkRate { on, off, wait })
                } else {
                    None
                }
            },
            _ => None,
        }
    }

    /// Where the cursor is in its blinking `elapsed_nanos` after it came to rest: it waits,
    /// then each cycle of whole milliseconds since the wait shows it for `on` and hides it
    /// for `off`.
    pub fn phase(&self, elapsed_nanos: u128) -> (r: BlinkPhase)
        requires
            self.on + self.off > 0,
        ensures
            r == ({
                let wait = self.wait * NANOS_PER_MILLI;
                if elapsed_nanos < wait {
                    BlinkPhase::Waiting { remaining_nanos: (wait - elapsed_nanos) as u64 }
                } else {
                    let since_wait = (elapsed_nanos - wait) / NANOS_PER_MILLI as int;
                    let cycle_time = since_wait % (self.on + self.off);
                    if cycle_time < self.on {
                        BlinkPhase::On { until_off_millis: (self.on - cycle_time) as u64 }
                    } else {
                        BlinkPhase::Off {
                            until_on_millis: (self.off - (cycle_time - self.on)) as u64,
                        }
                    }
                }
            }),
    {
        let wait = (self.wait as u128) * NANOS_PER_MILLI;
        if elapsed_nanos < wait {
            proof {
                assert(wait <= 0xffff_ffff * 1_000_000);
            }
            BlinkPhase::Waiting { remaining_nanos: (wait - elapsed_nanos) as u64 }
        } else {
            let since_wait = (elapsed_nanos - wait) / NANOS_PER_MILLI;
            let on = self.on as u128;
            let off = self.off as u128;
            let cycle_duration = on + off;
            let cycle_time = since_wait % cycle_duration;
            if cycle_time < on {
                BlinkPhase::On { until_off_millis: (on - cycle_time) as u64 }
            } else {
                let off_time = cycle_time - on;
                BlinkPhase::Off { until_on_millis: (off - off_time) as u64 }
            }
        }
    }
}

/// The length of a text in bytes, as UTF-8.
pub open spec fn byte_len(s: Seq<char>) -> int {
    encode_utf8(s).len() as int
}

/// The length of chunks of text in bytes.
pub open spec fn chunks_byte_len(cs: Seq<Chunk>) -> int
    decreases cs.len(),
{
    if cs.len() == 0 {
        0
    } else {
        chunks_byte_len(cs.drop_last()) + byte_len(cs.last().text_chunk@)
    }
}

/// The cursor at byte `x` of the text that starts on row `y`, as the lines `lines` wrap it:
/// each line that is shorter than what is left moves the cursor to the next row and back by
/// its length; the first that is not holds the cursor.
pub open spec fn cursor_walk(lines: Seq<Content>, x: int, y: int) -> (int, int)
    decreases lines.len(),
{
    if lines.len() == 0 {
        (x, y)
    } else if chunks_byte_len(lines[0].chunks@) < x {
        cursor_walk(
            lines.subrange(1, lines.len() as int),
            x - chunks_byte_len(lines[0].chunks@),
            y + 1,
        )
    } else {
        (x, y + 1)
    }
}

/// The cell of the command line's cursor in prompt `p`, with the command line on the last
/// row of a grid of `grid_height` rows: its lines end on that row, and the prompt and the
/// first char come before the text.
pub open spec fn cmdline_cursor_spec(p: Prompt, grid_height: u64) -> (int, int) {
    let w = cursor_walk(p.content_lines@, p.cursor_pos as int, -(p.content_lines@.len() as int));
    (w.0 + byte_len(p.prompt@) + 1, w.1 + grid_height - 1)
}

/// The bytes of a prefix of chunks are no more than those of all of them.
proof fn lemma_prefix_bytes(cs: Seq<Chunk>, k: int)
    requires
        0 <= k <= cs.len(),
    ensures
        0 <= chunks_byte_len(cs.take(k)) <= chunks_byte_len(cs),
    decreases cs.len(),
{
    if k == cs.len() {
        assert(cs.take(k) =~= cs);
        if cs.len() > 0 {
            lemma_prefix_bytes(cs.drop_last(), k - 1);
            assert(cs.drop_last().take(k - 1) =~= cs.drop_last());
        }
    } else {
        lemma_prefix_bytes(cs.drop_last(), k);
        assert(cs.drop_last().take(k) =~= cs.take(k));
    }
}

/// Where the cursor walk ends: no further right than it started, and no lower than one row
/// per line.
proof fn lemma_walk_bounds(lines: Seq<Content>, x: int, y: int)
    requires
        x >= 0,
    ensures
        0 <= cursor_walk(lines, x, y).0 <= x,
        y <= cursor_walk(lines, x, y).1 <= y + lines.len(),
    decreases lines.len(),
{
    if lines.len() > 0 {
        lemma_prefix_bytes(lines[0].chunks@, 0);
        assert(lines[0].chunks@.take(0) =~= Seq::<Chunk>::empty());
        if chunks_byte_len(lines[0].chunks@) < x {
            lemma_walk_bounds(
                lines.subrange(1, lines.len() as int),
                x - chunks_byte_len(lines[0].chunks@),
                y + 1,
            );
        }
    }
}

/// The length of a text in bytes.
fn text_byte_len(s: &String) -> (r: usize)
    ensures
        r == byte_len(s@),
{
    s.as_str().as_bytes().len()
}

/// The length of `line` in bytes where it is less than `x`; `None` where it is not.
fn line_shorter_than(line: &Content, x: u64) -> (r: Option<u64>)
    ensures
        match r {
            Some(l) => l == chunks_byte_len(line.chunks@) && l < x,
            None => chunks_byte_len(line.chunks@) >= x,
        },
{
    let n = line.chunks.len();
    if x == 0 {
        proof {
            lemma_prefix_bytes(line.chunks@, 0);
            assert(line.chunks@.take(0) =~= Seq::<Chunk>::empty());
        }
        return None;
    }
    let mut acc: u64 = 0;
    let mut i: usize = 0;
    proof {
        assert(line.chunks@.take(0) =~= Seq::<Chunk>::empty());
    }
    while i < n
        invariant
            n == line.chunks.len(),
            i <= n,
            acc == chunks_byte_len(line.chunks@.take(i as int)),
            acc < x,
        decreases n - i,
    {
        let l = text_byte_len(&line.chunks[i].text_chunk) as u64;
        proof {
            assert(line.chunks@.take(i + 1).drop_last() =~= line.chunks@.take(i as int));
        }
        if l >= x - acc {
            proof {
                lemma_prefix_bytes(line.chunks@, i + 1);
            }
            return None;
        }
        acc = acc + l;
        i += 1;
    }
    proof {
        assert(line.chunks@.take(n as int) =~= line.chunks@);
    }
    Some(acc)
}

/// The cell of the command line's cursor: `None` where the command line is hidden; for a
/// stack of prompts, in the top one, at its cursor position after its prompt and first
/// char, on the row of the line that holds it, the last line being on the last row of a
/// grid of `grid_height` rows.
pub fn cmdline_cursor_cell(cmdline: &Cmdline, grid_height: u64) -> (r: Option<(i64, i64)>)
    requires
        cmdline.mode matches Some(m) ==> m matches Mode::Normal { levels } && levels@.len() > 0
            && byte_len(levels@.last().prompt@) + levels@.last().cursor_pos + 1 <= i64::MAX
            && levels@.last().content_lines@.len() <= i64::MAX,
        grid_height <= i64::MAX,
    ensures
        cmdline.mode is None ==> r is None,
        cmdline.mode matches Some(Mode::Normal { levels }) ==> r matches Some(c) && (
        c.0 as int,
        c.1 as int,
        ) == cmdline_cursor_spec(levels@.last(), grid_height),
{
    match &cmdline.mode {
        None => None,
        Some(Mode::Block { .. }) => None,
        Some(Mode::Normal { levels }) => {
            let p = &levels[levels.len() - 1];
            let lines = &p.content_lines;
            let n = lines.len();
            let ghost x0 = p.cursor_pos as int;
            let ghost y0 = -(n as int);
            let mut x: i64 = p.cursor_pos as i64;
            let mut y: i64 = -(n as i64);
            let mut j: usize = 0;
            let mut stopped = false;
            proof {
                assert(lines@.subrange(0, n as int) =~= lines@);
            }
            while j < n && !stopped
                invariant
                    n == lines.len(),
                    n <= i64::MAX,
                    j <= n,
                    0 <= x <= x0,
                    x0 == p.cursor_pos,
                    y0 == -(n as int),
                    y0 <= y <= 0,
                    !stopped ==> y == y0 + j && cursor_walk(lines@, x0, y0) == cursor_walk(
                        lines@.subrange(j as int, n as int),
                        x as int,
                        y as int,
                    ),
                    stopped ==> cursor_walk(lines@, x0, y0) == (x as int, y as int),
                decreases n - j,
            {
                let ghost rest = lines@.subrange(j as int, n as int);
                proof {
                    assert(rest[0] == lines@[j as int]);
                    assert(rest.subrange(1, rest.len() as int) =~= lines@.subrange(
                        j + 1,
                        n as int,
                    ));
                }
                y = y + 1;
                match line_shorter_than(&lines[j], x as u64) {
                    Some(l) => {
                        x = x - l as i64;
                    },
                    None => {
                        stopped = true;
                    },
                }
                j += 1;
            }
            proof {
                if !stopped {
                    assert(lines@.subrange(n as int, n as int) =~= Seq::<Content>::empty());
                }
                lemma_walk_bounds(lines@, x0, y0);
            }
            let prompt_len = text_byte_len(&p.prompt) as i64;
            Some((x + prompt_len + 1, y + grid_height as i64 - 1))
        },
    }
}

/// A glyph shaped for the text under the cursor: its entry in the glyph cache, and its pen
/// position in whole pixels, from the top of the cell.
#[derive(Debug, Clone, Copy, PartialEq, Eq)]
pub struct CursorGlyph {
    pub value: Option<CacheValue>,
    pub pen: Vec2<i32>,
}

/// The most glyphs the cursor draws over its cell: a char and its diacritics.
pub const MAX_CURSOR_GLYPHS: usize = 4;

/// The glyph to draw for monochrome glyph `index` with atlas entry `info` at pen position
/// `pen`: moved by the glyph's own offset, upwards for its vertical part, with no highlight.
pub open spec fn cursor_cell_spec(info: GlyphInfo, index: usize, pen: Vec2<i32>) -> Cell {
    Cell {
        position: Vec2 { x: (info.offset.x + pen.x) as i32, y: (pen.y - info.offset.y) as i32 },
        glyph_index: index as u32,
        highlight_index: 0,
    }
}

/// The glyphs the cursor draws over its cell for the shaped glyphs `gs`: the monochrome ones
/// the cache has, in order, up to the limit; emoji and glyphs the cache lacks are skipped.
pub open spec fn cursor_cells_spec(gs: Seq<CursorGlyph>, info: Seq<GlyphInfo>) -> Seq<Cell>
    decreases gs.len(),
{
    if gs.len() == 0 {
        Seq::empty()
    } else {
        let prev = cursor_cells_spec(gs.drop_last(), info);
        let g = gs.last();
        if prev.len() >= MAX_CURSOR_GLYPHS {
            prev
        } else {
            match g.value {
                Some(v) => match v.kind {
                    GlyphKind::Monochrome => prev.push(cursor_cell_spec(info[v.index as int], v.index, g.pen)),
                    GlyphKind::Emoji => prev,
                },
                None => prev,
            }
        }
    }
}

/// The glyph arithmetic for `g` fits: its cache entry exists and its position is an `i32`.
pub open spec fn cursor_glyph_fits(g: CursorGlyph, info: Seq<GlyphInfo>) -> bool {
    match g.value {
        Some(v) => v.kind == GlyphKind::Monochrome ==> {
            &&& v.index < info.len()
            &&& i32::MIN <= info[v.index as int].offset.x + g.pen.x <= i32::MAX
            &&& i32::MIN <= g.pen.y - info[v.index as int].offset.y <= i32::MAX
        },
        None => true,
    }
}

/// The glyphs the cursor draws over its cell, from the glyphs shaped for the text under it
/// and the entries of the monochrome atlas.
pub fn cursor_cells(glyphs: &Vec<CursorGlyph>, info: &Vec<GlyphInfo>) -> (r: Vec<Cell>)
    requires
        forall|i: int| 0 <= i < glyphs.len() ==> cursor_glyph_fits(#[trigger] glyphs[i], info@),
    ensures
        r@ == cursor_cells_spec(glyphs@, info@),
        r@.len() <= MAX_CURSOR_GLYPHS,
{
    let mut cells: Vec<Cell> = Vec::new();
    let n = glyphs.len();
    let mut i: usize = 0;
    proof {
        assert(glyphs@.take(0) =~= Seq::<CursorGlyph>::empty());
    }
    while i < n
        invariant
            n == glyphs.len(),
            i <= n,
            forall|j: int| 0 <= j < glyphs.len() ==> cursor_glyph_fits(#[trigger] glyphs[j], info@),
            cells@ == cursor_cells_spec(glyphs@.take(i as int), info@),
            cells@.len() <= MAX_CURSOR_GLYPHS,
        decreases n - i,
    {
        let g = glyphs[i];
        proof {
            assert(glyphs@.take(i + 1).drop_last() =~= glyphs@.take(i as int));
            assert(cursor_glyph_fits(glyphs[i as int], info@));
        }
        if cells.len() < MAX_CURSOR_GLYPHS {
            match g.value {
                Some(v) => match v.kind {
                    GlyphKind::Monochrome => {
                        let o = info[v.index].offset;
                        cells.push(
                            Cell {
                                position: Vec2::new(o.x + g.pen.x, g.pen.y - o.y),
                                glyph_index: v.index as u32,
                                highlight_index: 0,
                            },
                        );
                    },
                    GlyphKind::Emoji => {},
                },
                None => {},
            }
        }
        i += 1;
    }
    proof {
        assert(glyphs@.take(n as int) =~= glyphs@);
    }
    cells
}

} // verus!
