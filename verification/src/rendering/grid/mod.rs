//! Where the glyphs, underlines and cell fills of a grid go, and how the buffer that holds
//! them for the GPU is laid out.
pub mod range;

use crate::event::Attributes;
use crate::text::cache::{CacheValue, GlyphKind};
use crate::text::fonts::FontStyle;
use crate::text::font::MetricsPixels;
use crate::util::vec2::Vec2;
use vstd::prelude::*;

verus! {

/// The font that covers a cluster of chars: its index in the font list and its style.
#[derive(Debug, Clone, Copy, PartialEq, Eq, Structural)]
pub struct BestFont {
    pub index: usize,
    pub style: FontStyle,
}

impl BestFont {
    pub fn new(index: usize, style: FontStyle) -> (r: BestFont)
        ensures
            r == (BestFont { index, style }),
    {
        BestFont { index, style }
    }
}

/// A glyph to draw: where its top left pixel goes, its index in the atlas and its highlight.
#[derive(Debug, Clone, Copy, Default, PartialEq, Eq)]
pub struct Cell {
    pub position: Vec2<i32>,
    pub glyph_index: u32,
    pub highlight_index: u32,
}

/// An underline to draw.
#[derive(Debug, Clone, Copy, Default, PartialEq, Eq)]
pub struct Line {
    pub position: Vec2<i32>,
    pub size: Vec2<u32>,
    pub highlight_index: u32,
    pub padding: u32,
}

/// The pen position of a glyph in pixels: its shaped offset, already scaled and rounded,
/// plus the start of the cell its cluster comes from in line `line`.
pub fn glyph_position(offset: Vec2<i32>, source_start: u32, line: i32, cell_size: Vec2<u32>) -> (r: Vec2<i32>)
    requires
        source_start * cell_size.x <= i32::MAX,
        cell_size.y <= i32::MAX,
        i32::MIN <= line * cell_size.y <= i32::MAX,
        i32::MIN <= offset.x + source_start * cell_size.x <= i32::MAX,
        i32::MIN <= offset.y + line * cell_size.y <= i32::MAX,
    ensures
        r.x == offset.x + source_start * cell_size.x,
        r.y == offset.y + line * cell_size.y,
{
    let x = source_start * cell_size.x;
    let y = line * (cell_size.y as i32);
    Vec2::new(offset.x + x as i32, offset.y + y)
}

/// The underline of a glyph at `position`.
pub open spec fn underline_spec(position: Vec2<i32>, metrics: MetricsPixels, highlight_index: u32) -> Line {
    Line {
        position: Vec2 {
            x: position.x,
            y: (position.y + metrics.ascent + metrics.underline_offset) as i32,
        },
        size: Vec2 {
            x: metrics.width,
            y: if metrics.stroke_size <= 1 { metrics.stroke_size } else { 1 },
        },
        highlight_index,
        padding: 0,
    }
}

/// The glyph to draw at pen position `position`.
pub open spec fn glyph_cell_spec(kind: GlyphKind, position: Vec2<i32>, glyph_index: u32, highlight: u32, em: u32) -> Cell {
    Cell {
        position: Vec2 { x: position.x, y: (position.y + em) as i32 },
        glyph_index,
        highlight_index: match kind {
            GlyphKind::Monochrome => highlight,
            GlyphKind::Emoji => 0,
        },
    }
}

/// The underline of a glyph at `position`: a cell wide, below the baseline by the font's
/// underline offset, and at most one pixel thick.
pub fn underline(position: Vec2<i32>, metrics: &MetricsPixels, highlight_index: u32) -> (r: Line)
    requires
        metrics.ascent + metrics.underline_offset <= i32::MAX,
        position.y + metrics.ascent + metrics.underline_offset <= i32::MAX,
    ensures
        r.position.x == position.x,
        r.position.y == position.y + metrics.ascent + metrics.underline_offset,
        r.size.x == metrics.width,
        r.size.y == if metrics.stroke_size <= 1 { metrics.stroke_size } else { 1 },
        r.highlight_index == highlight_index,
        r.padding == 0,
        r == underline_spec(position, *metrics, highlight_index),
{
    let drop = (metrics.ascent + metrics.underline_offset) as i32;
    Line {
        position: Vec2::new(position.x, position.y + drop),
        size: Vec2::new(
            metrics.width,
            if metrics.stroke_size <= 1 { metrics.stroke_size } else { 1 },
        ),
        highlight_index,
        padding: 0,
    }
}

/// The glyph to draw at `position`, moved down by the em height to the top of the glyph's
/// box. Emoji keep their own colors and take no highlight.
pub fn glyph_cell(kind: GlyphKind, position: Vec2<i32>, glyph_index: u32, highlight: u32, em: u32) -> (r: Cell)
    requires
        em <= i32::MAX,
        position.y + em <= i32::MAX,
    ensures
        r.position.x == position.x,
        r.position.y == position.y + em,
        r.glyph_index == glyph_index,
        r.highlight_index == match kind {
            GlyphKind::Monochrome => highlight,
            GlyphKind::Emoji => 0,
        },
        r == glyph_cell_spec(kind, position, glyph_index, highlight, em),
{
    let position = Vec2::new(position.x, position.y + em as i32);
    match kind {
        GlyphKind::Monochrome => Cell { position, glyph_index, highlight_index: highlight },
        GlyphKind::Emoji => Cell { position, glyph_index, highlight_index: 0 },
    }
}

/// Where the four arrays of a grid go in its GPU buffer: glyphs, emoji, cell fills and
/// underlines, each but the last followed by padding up to the buffer offset alignment.
#[derive(Debug, Clone, Copy, PartialEq, Eq)]
pub struct BufferLayout {
    pub emoji_offset: u64,
    pub cell_fill_offset: u64,
    pub lines_offset: u64,
    pub total_length: u64,
}

/// The padding after an array of `len` bytes: what brings it to the next multiple of the
/// alignment, and a whole alignment where it is one already.
pub open spec fn padding(len: int, alignment: int) -> int {
    alignment - len % alignment
}

/// Lays out arrays of the given byte lengths.
pub fn buffer_layout(glyphs_len: u64, emoji_len: u64, bg_len: u64, lines_len: u64, alignment: u64) -> (r: BufferLayout)
    requires
        alignment > 0,
        glyphs_len + emoji_len + bg_len + lines_len + 3 * alignment <= u64::MAX,
    ensures
        r.emoji_offset == glyphs_len + padding(glyphs_len as int, alignment as int),
        r.cell_fill_offset == r.emoji_offset + emoji_len + padding(emoji_len as int, alignment as int),
        r.lines_offset == r.cell_fill_offset + bg_len + padding(bg_len as int, alignment as int),
        r.total_length == r.lines_offset + lines_len,
{
    let glyphs_padding = alignment - glyphs_len % alignment;
    let emoji_padding = alignment - emoji_len % alignment;
    let bg_padding = alignment - bg_len % alignment;
    let emoji_offset = glyphs_len + glyphs_padding;
    let cell_fill_offset = emoji_offset + emoji_len + emoji_padding;
    let lines_offset = cell_fill_offset + bg_len + bg_padding;
    BufferLayout { emoji_offset, cell_fill_offset, lines_offset, total_length: lines_offset + lines_len }
}

/// The capacity of the buffer once `total_length` bytes must fit: twice that where the
/// buffer is too small, which means a new buffer; `None` where it is large enough.
pub fn grown_capacity(total_length: u64, capacity: u64) -> (r: Option<u64>)
    requires
        total_length > capacity ==> 2 * total_length <= u64::MAX,
    ensures
        r == if total_length > capacity {
            Some((2 * total_length) as u64)
        } else {
            None
        },
{
    if total_length > capacity {
        Some(total_length * 2)
    } else {
        None
    }
}

/// `v` clamped to `[0, max]`.
pub open spec fn clamp_spec(v: int, max: int) -> int {
    if v > max {
        if max > 0 { max } else { 0 }
    } else if v > 0 {
        v
    } else {
        0
    }
}

fn clamp_to(v: i32, max: i32) -> (r: i32)
    ensures
        r == clamp_spec(v as int, max as int),
{
    let m = if v < max { v } else { max };
    if m > 0 { m } else { 0 }
}

/// The scissor rectangle of a grid at `offset` (in pixels) of `grid_size` cells: the part of
/// the grid on the target, as its top left corner and its size.
pub fn scissor_rect(
    offset: Vec2<i32>,
    grid_size: Vec2<u32>,
    cell_size: Vec2<u32>,
    target_size: Vec2<u32>,
) -> (r: (Vec2<u32>, Vec2<u32>))
    requires
        target_size.x <= i32::MAX,
        target_size.y <= i32::MAX,
        cell_size.x * grid_size.x <= i32::MAX,
        cell_size.y * grid_size.y <= i32::MAX,
        offset.x + cell_size.x * grid_size.x <= i32::MAX,
        offset.y + cell_size.y * grid_size.y <= i32::MAX,
        offset.x + i32::MAX >= target_size.x,
        offset.y + i32::MAX >= target_size.y,
    ensures
        r.0.x == clamp_spec(offset.x as int, target_size.x as int),
        r.0.y == clamp_spec(offset.y as int, target_size.y as int),
        r.1.x == clamp_spec(
            clamp_spec(offset.x + cell_size.x * grid_size.x, target_size.x as int) - offset.x,
            target_size.x as int,
        ),
        r.1.y == clamp_spec(
            clamp_spec(offset.y + cell_size.y * grid_size.y, target_size.y as int) - offset.y,
            target_size.y as int,
        ),
{
    let tx = target_size.x as i32;
    let ty = target_size.y as i32;
    let wx = (cell_size.x * grid_size.x) as i32;
    let wy = (cell_size.y * grid_size.y) as i32;
    let ex = clamp_to(offset.x + wx, tx);
    let ey = clamp_to(offset.y + wy, ty);
    let sx = clamp_to(ex - offset.x, tx);
    let sy = clamp_to(ey - offset.y, ty);
    let ox = clamp_to(offset.x, tx);
    let oy = clamp_to(offset.y, ty);
    (Vec2::new(ox as u32, oy as u32), Vec2::new(sx as u32, sy as u32))
}

/// How well a font covers a cluster of chars.
#[derive(Debug, Clone, Copy, PartialEq, Eq)]
pub enum Status {
    /// It lacks some char
    Discard,
    /// It has every char, some of them only by fallback
    Keep,
    /// It has every char
    Complete,
}

/// Which variant of the current font the search asks about.
#[derive(Debug, Clone, Copy, PartialEq, Eq)]
pub enum Phase {
    /// The variant in the cluster's style
    Styled,
    /// The regular variant, in place of the styled one
    Regular,
}

/// The search for the font that covers a cluster: the fonts are tried in order, each in the
/// cluster's style and then, where that is not regular and the styled variant does not keep
/// the cluster, in its regular variant. The last font that keeps the cluster wins, and the
/// first that completes it ends the search.
pub struct BestFontSearch {
    pub style: FontStyle,
    /// For each font, whether it has a variant in the style, and whether it has a regular one
    pub fonts: Vec<(bool, bool)>,
    pub index: usize,
    pub phase: Phase,
    pub best: Option<BestFont>,
    pub done: bool,
}

/// The style of a cluster with the given highlight: regular where it has none.
pub open spec fn style_of(highlight: Option<Attributes>) -> FontStyle {
    match highlight {
        Some(h) => {
            let bold = h.bold == Some(true);
            let italic = h.italic == Some(true);
            if bold && italic {
                FontStyle::BoldItalic
            } else if bold {
                FontStyle::Bold
            } else if italic {
                FontStyle::Italic
            } else {
                FontStyle::Regular
            }
        },
        None => FontStyle::Regular,
    }
}

/// The variant the search asks about next from `index` and `phase` on: the first that the
/// fonts have, skipping the regular variant where the style is regular.
pub open spec fn next_query_spec(
    style: FontStyle,
    fonts: Seq<(bool, bool)>,
    index: int,
    phase: Phase,
) -> Option<(int, Phase)>
    decreases fonts.len() - index, if phase == Phase::Styled { 1int } else { 0int },
{
    if index < 0 || index >= fonts.len() {
        None
    } else if phase == Phase::Styled {
        if fonts[index].0 {
            Some((index, Phase::Styled))
        } else {
            next_query_spec(style, fonts, index, Phase::Regular)
        }
    } else if style != FontStyle::Regular && fonts[index].1 {
        Some((index, Phase::Regular))
    } else {
        next_query_spec(style, fonts, index + 1, Phase::Styled)
    }
}

impl BestFontSearch {
    /// A search over fonts with the given variants, for a cluster with the given highlight.
    pub fn new(highlight: Option<&Attributes>, fonts: Vec<(bool, bool)>) -> (r: BestFontSearch)
        ensures
            r.style == style_of(
                match highlight {
                    Some(h) => Some(*h),
                    None => None,
                },
            ),
            r.fonts == fonts,
            r.index == 0,
            r.phase == Phase::Styled,
            r.best is None,
            !r.done,
    {
        let style = match highlight {
            Some(h) => FontStyle::new(h.bold == Some(true), h.italic == Some(true)),
            None => FontStyle::Regular,
        };
        BestFontSearch { style, fonts, index: 0, phase: Phase::Styled, best: None, done: false }
    }

    /// The font variant to map the cluster with next, or `None` where the search is over.
    /// It moves past the variants the fonts lack.
    pub fn next_query(&mut self) -> (r: Option<BestFont>)
        ensures
            final(self).style == old(self).style,
            final(self).fonts == old(self).fonts,
            final(self).best == old(self).best,
            final(self).done == old(self).done,
            old(self).done ==> r is None && *final(self) == *old(self),
            !old(self).done ==> match next_query_spec(
                old(self).style,
                old(self).fonts@,
                old(self).index as int,
                old(self).phase,
            ) {
                Some((i, phase)) => {
                    &&& final(self).index == i
                    &&& final(self).phase == phase
                    &&& r == Some(
                        BestFont {
                            index: i as usize,
                            style: if phase == Phase::Styled {
                                old(self).style
                            } else {
                                FontStyle::Regular
                            },
                        },
                    )
                },
                None => r is None && final(self).index >= final(self).fonts@.len(),
            },
    {
        if self.done {
            return None;
        }
        while self.index < self.fonts.len()
            invariant
                self.fonts == old(self).fonts,
                self.style == old(self).style,
                self.best == old(self).best,
                self.done == old(self).done,
                !self.done,
                next_query_spec(self.style, self.fonts@, self.index as int, self.phase)
                    == next_query_spec(
                    old(self).style,
                    old(self).fonts@,
                    old(self).index as int,
                    old(self).phase,
                ),
            decreases self.fonts@.len() - self.index, if self.phase == Phase::Styled { 1int } else { 0int },
        {
            let (has_styled, has_regular) = self.fonts[self.index];
            match self.phase {
                Phase::Styled => {
                    if has_styled {
                        return Some(BestFont::new(self.index, self.style));
                    }
                    self.phase = Phase::Regular;
                },
                Phase::Regular => {
                    if self.style != FontStyle::Regular && has_regular {
                        return Some(BestFont::new(self.index, FontStyle::Regular));
                    }
                    self.index += 1;
                    self.phase = Phase::Styled;
                },
            }
        }
        None
    }

    /// Takes how the variant that `next_query` gave covers the cluster: a variant that
    /// keeps it becomes the best so far, one that completes it ends the search; a styled
    /// variant that lacks a char leaves the regular one to try, and a styled variant that
    /// keeps the cluster moves on to the next font.
    pub fn feed(&mut self, status: Status)
        requires
            old(self).index < old(self).fonts@.len(),
            !old(self).done,
        ensures
            final(self).style == old(self).style,
            final(self).fonts == old(self).fonts,
            ({
                let found = BestFont {
                    index: old(self).index,
                    style: if old(self).phase == Phase::Styled {
                        old(self).style
                    } else {
                        FontStyle::Regular
                    },
                };
                match status {
                    Status::Complete => final(self).best == Some(found) && final(self).done
                        && final(self).index == old(self).index && final(self).phase
                        == old(self).phase,
                    Status::Keep => final(self).best == Some(found) && !final(self).done
                        && final(self).index == old(self).index + 1 && final(self).phase
                        == Phase::Styled,
                    Status::Discard => final(self).best == old(self).best && !final(self).done
                        && if old(self).phase == Phase::Styled {
                        final(self).index == old(self).index && final(self).phase == Phase::Regular
                    } else {
                        final(self).index == old(self).index + 1 && final(self).phase
                            == Phase::Styled
                    },
                }
            }),
    {
        let n = self.fonts.len();
        assert(self.index < n);
        let found = BestFont::new(
            self.index,
            match self.phase {
                Phase::Styled => self.style,
                Phase::Regular => FontStyle::Regular,
            },
        );
        match status {
            Status::Complete => {
                self.best = Some(found);
                self.done = true;
            },
            Status::Keep => {
                self.best = Some(found);
                self.index += 1;
                self.phase = Phase::Styled;
            },
            Status::Discard => {
                match self.phase {
                    Phase::Styled => {
                        self.phase = Phase::Regular;
                    },
                    Phase::Regular => {
                        self.index += 1;
                        self.phase = Phase::Styled;
                    },
                }
            },
        }
    }
}

/// A glyph that shaping produced: its offset from the pen position in whole pixels, its
/// entry in the glyph cache (`None` where the cache has nothing to draw for it), and the
/// highlight of the char it comes from.
#[derive(Debug, Clone, Copy, PartialEq, Eq)]
pub struct ShapedGlyph {
    pub offset: Vec2<i32>,
    pub value: Option<CacheValue>,
    pub highlight: u32,
}

/// A cluster that shaping produced: the highlight of its char, the cell it starts in, and
/// its glyphs.
#[derive(Debug, Clone)]
pub struct ShapedCluster {
    pub data: u32,
    pub source_start: u32,
    pub glyphs: Vec<ShapedGlyph>,
}

/// What a grid draws: glyphs in the text color, emoji, the fill highlight of each cell, and
/// underlines.
#[derive(Debug, Clone)]
pub struct GridBuffers {
    pub monochrome: Vec<Cell>,
    pub emoji: Vec<Cell>,
    pub cell_fill: Vec<u32>,
    pub lines: Vec<Line>,
}

/// Highlight `h` exists and is underlined.
pub open spec fn is_underlined(highlights: Seq<Attributes>, h: u32) -> bool {
    h < highlights.len() && highlights[h as int].underline == Some(true)
}

/// The pen position of glyph `g` of a cluster that starts in cell `source_start` of line
/// `line`.
pub open spec fn pen_position(g: ShapedGlyph, source_start: u32, line: i32, cell_size: Vec2<u32>) -> Vec2<i32> {
    Vec2 {
        x: (g.offset.x + source_start * cell_size.x) as i32,
        y: (g.offset.y + line * cell_size.y) as i32,
    }
}

/// The pixel arithmetic for glyph `g` stays within an `i32`: its pen position, and the
/// underline and glyph box below it.
pub open spec fn glyph_fits(
    g: ShapedGlyph,
    source_start: u32,
    line: i32,
    cell_size: Vec2<u32>,
    metrics: MetricsPixels,
) -> bool {
    g.value is Some ==> {
        let p = pen_position(g, source_start, line, cell_size);
        &&& source_start * cell_size.x <= i32::MAX
        &&& cell_size.y <= i32::MAX
        &&& i32::MIN <= line * cell_size.y <= i32::MAX
        &&& i32::MIN <= g.offset.x + source_start * cell_size.x <= i32::MAX
        &&& i32::MIN <= g.offset.y + line * cell_size.y <= i32::MAX
        &&& metrics.ascent + metrics.underline_offset <= i32::MAX
        &&& p.y + metrics.ascent + metrics.underline_offset <= i32::MAX
        &&& metrics.em <= i32::MAX
        &&& p.y + metrics.em <= i32::MAX
    }
}

/// The glyphs, emoji and underlines that glyphs `gs` of a cluster add, in order: a glyph
/// with no cache entry adds nothing, one with a highlight that underlines adds an
/// underline, and each goes to the glyphs or the emoji by its kind.
pub open spec fn laid_out(
    gs: Seq<ShapedGlyph>,
    source_start: u32,
    line: i32,
    cell_size: Vec2<u32>,
    metrics: MetricsPixels,
    highlights: Seq<Attributes>,
) -> (Seq<Cell>, Seq<Cell>, Seq<Line>)
    decreases gs.len(),
{
    if gs.len() == 0 {
        (Seq::empty(), Seq::empty(), Seq::empty())
    } else {
        let prev = laid_out(gs.drop_last(), source_start, line, cell_size, metrics, highlights);
        let g = gs.last();
        match g.value {
            None => prev,
            Some(v) => {
                let p = pen_position(g, source_start, line, cell_size);
                let lines = if is_underlined(highlights, g.highlight) {
                    prev.2.push(underline_spec(p, metrics, g.highlight))
                } else {
                    prev.2
                };
                let cell = glyph_cell_spec(v.kind, p, v.index as u32, g.highlight, metrics.em);
                match v.kind {
                    GlyphKind::Monochrome => (prev.0.push(cell), prev.1, lines),
                    GlyphKind::Emoji => (prev.0, prev.1.push(cell), lines),
                }
            },
        }
    }
}

impl GridBuffers {
    /// Nothing to draw.
    pub fn new() -> (r: GridBuffers)
        ensures
            r.monochrome@ == Seq::<Cell>::empty(),
            r.emoji@ == Seq::<Cell>::empty(),
            r.cell_fill@ == Seq::<u32>::empty(),
            r.lines@ == Seq::<Line>::empty(),
    {
        GridBuffers { monochrome: Vec::new(), emoji: Vec::new(), cell_fill: Vec::new(), lines: Vec::new() }
    }

    /// Drops everything, before the rows are laid out again.
    pub fn clear(&mut self)
        ensures
            final(self).monochrome@ == Seq::<Cell>::empty(),
            final(self).emoji@ == Seq::<Cell>::empty(),
            final(self).cell_fill@ == Seq::<u32>::empty(),
            final(self).lines@ == Seq::<Line>::empty(),
    {
        self.monochrome.clear();
        self.emoji.clear();
        self.cell_fill.clear();
        self.lines.clear();
    }

    /// Lays out a shaped cluster of line `line`: one cell fill with the cluster's highlight,
    /// then for each glyph that the cache has, its underline where its highlight underlines,
    /// and the glyph itself among the glyphs or the emoji.
    pub fn lay_out_cluster(
        &mut self,
        cluster: &ShapedCluster,
        line: i32,
        cell_size: Vec2<u32>,
        metrics: &MetricsPixels,
        highlights: &[Attributes],
    )
        requires
            forall|i: int|
                0 <= i < cluster.glyphs.len() ==> glyph_fits(
                    #[trigger] cluster.glyphs[i],
                    cluster.source_start,
                    line,
                    cell_size,
                    *metrics,
                ),
        ensures
            ({
                let added = laid_out(
                    cluster.glyphs@,
                    cluster.source_start,
                    line,
                    cell_size,
                    *metrics,
                    highlights@,
                );
                &&& final(self).cell_fill@ == old(self).cell_fill@.push(cluster.data)
                &&& final(self).monochrome@ == old(self).monochrome@ + added.0
                &&& final(self).emoji@ == old(self).emoji@ + added.1
                &&& final(self).lines@ == old(self).lines@ + added.2
            }),
    {
        self.cell_fill.push(cluster.data);
        let n = cluster.glyphs.len();
        let mut i: usize = 0;
        proof {
            assert(cluster.glyphs@.take(0) =~= Seq::<ShapedGlyph>::empty());
        }
        while i < n
            invariant
                n == cluster.glyphs.len(),
                i <= n,
                forall|j: int|
                    0 <= j < cluster.glyphs.len() ==> glyph_fits(
                        #[trigger] cluster.glyphs[j],
                        cluster.source_start,
                        line,
                        cell_size,
                        *metrics,
                    ),
                self.cell_fill@ == old(self).cell_fill@.push(cluster.data),
                ({
                    let added = laid_out(
                        cluster.glyphs@.take(i as int),
                        cluster.source_start,
                        line,
                        cell_size,
                        *metrics,
                        highlights@,
                    );
                    &&& self.monochrome@ == old(self).monochrome@ + added.0
                    &&& self.emoji@ == old(self).emoji@ + added.1
                    &&& self.lines@ == old(self).lines@ + added.2
                }),
            decreases n - i,
        {
            let g = cluster.glyphs[i];
            let ghost before = cluster.glyphs@.take(i as int);
            proof {
                assert(cluster.glyphs@.take(i + 1).drop_last() =~= before);
                assert(glyph_fits(cluster.glyphs[i as int], cluster.source_start, line, cell_size, *metrics));
            }
            match g.value {
                Some(v) => {
                    let p = glyph_position(g.offset, cluster.source_start, line, cell_size);
                    let h = g.highlight as usize;
                    if h < highlights.len() && highlights[h].underline == Some(true) {
                        self.lines.push(underline(p, metrics, g.highlight));
                    }
                    let cell = glyph_cell(v.kind, p, v.index as u32, g.highlight, metrics.em);
                    match v.kind {
                        GlyphKind::Monochrome => self.monochrome.push(cell),
                        GlyphKind::Emoji => self.emoji.push(cell),
                    }
                },
                None => {},
            }
            proof {
                assert(self.monochrome@ =~= old(self).monochrome@ + laid_out(cluster.glyphs@.take(i + 1), cluster.source_start, line, cell_size, *metrics, highlights@).0);
                assert(self.emoji@ =~= old(self).emoji@ + laid_out(cluster.glyphs@.take(i + 1), cluster.source_start, line, cell_size, *metrics, highlights@).1);
                assert(self.lines@ =~= old(self).lines@ + laid_out(cluster.glyphs@.take(i + 1), cluster.source_start, line, cell_size, *metrics, highlights@).2);
            }
            i += 1;
        }
        proof {
            assert(cluster.glyphs@.take(n as int) =~= cluster.glyphs@);
        }
    }

    /// The cell fills of a cluster that no font draws: its highlight once for each cell from
    /// `start` up to `end`.
    pub fn fill_unshaped(&mut self, start: u32, end: u32, data: u32)
        ensures
            final(self).cell_fill@ == old(self).cell_fill@ + Seq::new(
                if start < end { (end - start) as nat } else { 0 },
                |_j: int| data,
            ),
            final(self).monochrome@ == old(self).monochrome@,
            final(self).emoji@ == old(self).emoji@,
            final(self).lines@ == old(self).lines@,
    {
        let mut k: u32 = start;
        while k < end
            invariant
                k == start || (start < k && k <= end),
                self.monochrome@ == old(self).monochrome@,
                self.emoji@ == old(self).emoji@,
                self.lines@ == old(self).lines@,
                self.cell_fill@ == old(self).cell_fill@ + Seq::new(
                    if start < k { (k - start) as nat } else { 0 },
                    |_j: int| data,
                ),
            decreases end - k,
        {
            self.cell_fill.push(data);
            proof {
                assert(self.cell_fill@ =~= old(self).cell_fill@ + Seq::new(
                    (k + 1 - start) as nat,
                    |_j: int| data,
                ));
            }
            k += 1;
        }
        proof {
            assert(self.cell_fill@ =~= old(self).cell_fill@ + Seq::new(
                if start < end { (end - start) as nat } else { 0 },
                |_j: int| data,
            ));
        }
    }
}

/// A run of consecutive clusters of a row that are drawn alike: shaped together with one
/// font, or, where no font covers them, given their cell fills alone.
#[derive(Debug, Clone, Copy, PartialEq, Eq)]
pub struct FontRun {
    pub start: usize,
    pub end: usize,
    pub font: Option<BestFont>,
}

/// The runs of clusters whose best fonts are `fs`, in order: a cluster joins the run before
/// it where both have the same font; a cluster no font covers is a run of its own.
pub open spec fn runs_spec(fs: Seq<Option<BestFont>>) -> Seq<FontRun>
    decreases fs.len(),
{
    if fs.len() == 0 {
        Seq::empty()
    } else {
        let prev = runs_spec(fs.drop_last());
        let f = fs.last();
        let i = fs.len() - 1;
        if f is Some && prev.len() > 0 && prev.last().font == f {
            prev.update(
                prev.len() - 1,
                FontRun { start: prev.last().start, end: (i + 1) as usize, font: f },
            )
        } else {
            prev.push(FontRun { start: i as usize, end: (i + 1) as usize, font: f })
        }
    }
}

/// The runs cut the clusters `0..n` into consecutive pieces that are not empty, every
/// cluster of a run has the run's font, a run with no font has one cluster, and two runs
/// next to each other never share a font.
pub open spec fn runs_partition(fs: Seq<Option<BestFont>>, runs: Seq<FontRun>) -> bool {
    &&& (fs.len() == 0 <==> runs.len() == 0)
    &&& runs.len() > 0 ==> runs[0].start == 0 && runs.last().end == fs.len()
    &&& forall|k: int, l: int|
        #![trigger runs[k], runs[l]]
        0 <= k && l == k + 1 && l < runs.len() ==> runs[k].end == runs[l].start
    &&& forall|k: int| 0 <= k < runs.len() ==> #[trigger] runs[k].start < runs[k].end <= fs.len()
    &&& forall|k: int, j: int|
        #![trigger runs[k], fs[j]]
        0 <= k < runs.len() && runs[k].start <= j < runs[k].end ==> fs[j] == runs[k].font
    &&& forall|k: int| 0 <= k < runs.len() && #[trigger] runs[k].font is None ==> runs[k].end == runs[k].start + 1
    &&& forall|k: int, l: int|
        #![trigger runs[k], runs[l]]
        0 <= k && l == k + 1 && l < runs.len() && runs[k].font is Some ==> runs[k].font
            != runs[l].font
}

/// A cluster that joins the last run keeps the runs a partition.
proof fn lemma_runs_join(fs: Seq<Option<BestFont>>, prev: Seq<FontRun>)
    requires
        fs.len() > 0,
        fs.len() <= usize::MAX,
        runs_partition(fs.drop_last(), prev),
        fs.last() is Some,
        prev.len() > 0,
        prev.last().font == fs.last(),
    ensures
        runs_partition(
            fs,
            prev.update(
                prev.len() - 1,
                FontRun { start: prev.last().start, end: fs.len() as usize, font: fs.last() },
            ),
        ),
{
    let p = fs.drop_last();
    let i = fs.len() - 1;
    let m = prev.len() - 1;
    let runs = prev.update(m, FontRun { start: prev.last().start, end: fs.len() as usize, font: fs.last() });
    assert forall|k: int, j: int|
        #![trigger runs[k], fs[j]]
        0 <= k < runs.len() && runs[k].start <= j < runs[k].end implies fs[j] == runs[k].font by {
        if k < m {
            assert(runs[k] == prev[k]);
            assert(fs[j] == p[j]);
        } else if j < i {
            assert(fs[j] == p[j]);
            assert(p[j] == prev[m].font);
        }
    }
    assert forall|k: int, l: int|
        #![trigger runs[k], runs[l]]
        0 <= k && l == k + 1 && l < runs.len() implies runs[k].end == runs[l].start && (
        runs[k].font is Some ==> runs[k].font != runs[l].font) by {
        assert(runs[k] == prev[k]);
        if l < m {
            assert(runs[l] == prev[l]);
        } else {
            assert(runs[l].start == prev[l].start && runs[l].font == prev[l].font);
        }
    }
    assert forall|k: int| 0 <= k < runs.len() implies #[trigger] runs[k].start < runs[k].end <= fs.len() by {
        if k < m {
            assert(runs[k] == prev[k]);
        }
    }
}

/// A cluster that starts a run of its own keeps the runs a partition.
proof fn lemma_runs_push(fs: Seq<Option<BestFont>>, prev: Seq<FontRun>)
    requires
        fs.len() > 0,
        fs.len() <= usize::MAX,
        runs_partition(fs.drop_last(), prev),
        !(fs.last() is Some && prev.len() > 0 && prev.last().font == fs.last()),
    ensures
        runs_partition(
            fs,
            prev.push(FontRun { start: (fs.len() - 1) as usize, end: fs.len() as usize, font: fs.last() }),
        ),
{
    let p = fs.drop_last();
    let i = fs.len() - 1;
    let m = prev.len() as int;
    let runs = prev.push(FontRun { start: (fs.len() - 1) as usize, end: fs.len() as usize, font: fs.last() });
    assert forall|k: int, j: int|
        #![trigger runs[k], fs[j]]
        0 <= k < runs.len() && runs[k].start <= j < runs[k].end implies fs[j] == runs[k].font by {
        if k < m {
            assert(runs[k] == prev[k]);
            assert(fs[j] == p[j]);
        }
    }
    assert forall|k: int, l: int|
        #![trigger runs[k], runs[l]]
        0 <= k && l == k + 1 && l < runs.len() implies runs[k].end == runs[l].start && (
        runs[k].font is Some ==> runs[k].font != runs[l].font) by {
        assert(runs[k] == prev[k]);
        if l < prev.len() {
            assert(runs[l] == prev[l]);
        }
    }
    assert forall|k: int| 0 <= k < runs.len() && #[trigger] runs[k].font is None implies runs[k].end
        == runs[k].start + 1 by {
        if k < m {
            assert(runs[k] == prev[k]);
        }
    }
    assert forall|k: int| 0 <= k < runs.len() implies #[trigger] runs[k].start < runs[k].end <= fs.len() by {
        if k < m {
            assert(runs[k] == prev[k]);
        }
    }
}

/// Grouping clusters into runs cuts them into maximal pieces of one font.
pub proof fn runs_cut_clusters(fs: Seq<Option<BestFont>>)
    requires
        fs.len() <= usize::MAX,
    ensures
        runs_partition(fs, runs_spec(fs)),
    decreases fs.len(),
{
    if fs.len() > 0 {
        runs_cut_clusters(fs.drop_last());
        let prev = runs_spec(fs.drop_last());
        if fs.last() is Some && prev.len() > 0 && prev.last().font == fs.last() {
            lemma_runs_join(fs, prev);
        } else {
            lemma_runs_push(fs, prev);
        }
    }
}

/// Groups the clusters of a row, whose best fonts are `fonts`, into the runs that are
/// shaped or filled together.
pub fn font_runs(fonts: &Vec<Option<BestFont>>) -> (r: Vec<FontRun>)
    ensures
        r@ == runs_spec(fonts@),
        runs_partition(fonts@, r@),
{
    let mut runs: Vec<FontRun> = Vec::new();
    let n = fonts.len();
    proof {
        runs_cut_clusters(fonts@);
    }
    let mut i: usize = 0;
    proof {
        assert(fonts@.take(0) =~= Seq::<Option<BestFont>>::empty());
    }
    while i < n
        invariant
            n == fonts.len(),
            i <= n,
            runs@ == runs_spec(fonts@.take(i as int)),
        decreases n - i,
    {
        let f = fonts[i];
        proof {
            assert(fonts@.take(i + 1).drop_last() =~= fonts@.take(i as int));
            assert(fonts@.take(i + 1).last() == f);
        }
        let k = runs.len();
        let joins = match f {
            Some(b) => k > 0 && match runs[k - 1].font {
                Some(c) => b == c,
                None => false,
            },
            None => false,
        };
        if joins {
            let start = runs[k - 1].start;
            runs.set(k - 1, FontRun { start, end: i + 1, font: f });
        } else {
            runs.push(FontRun { start: i, end: i + 1, font: f });
        }
        i += 1;
    }
    proof {
        assert(fonts@.take(n as int) =~= fonts@);
    }
    runs
}

} // verus!
