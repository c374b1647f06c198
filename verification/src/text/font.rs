//! Font data and font metrics in whole pixels.
use crate::ui::options::FontSize;
use crate::util::vec2::Vec2;
use swash::FontRef;
use vstd::prelude::*;

verus! {

/// The big-endian `u32` at byte `o` of `data`, where the four bytes are there.
pub open spec fn read_u32_be(data: Seq<u8>, o: int) -> Option<u32> {
    if 0 <= o && o + 4 <= data.len() {
        Some(
            (data[o] * 0x100_0000int + data[o + 1] * 0x1_0000int + data[o + 2] * 0x100int + data[o
                + 3]) as u32,
        )
    } else {
        None
    }
}

/// A font's table directory starts at byte `o`: its tag is `0x00010000`, "OTTO" or "true".
pub open spec fn is_font_at(data: Seq<u8>, o: int) -> bool {
    let tag = read_u32_be(data, o);
    tag == Some(0x0001_0000u32) || tag == Some(0x4F54_544Fu32) || tag == Some(0x7472_7565u32)
}

/// The file is a font collection: it starts with the tag "ttcf".
pub open spec fn is_collection(data: Seq<u8>) -> bool {
    read_u32_be(data, 0) == Some(0x7474_6366u32)
}

/// The number of fonts in the file: the count of a collection, read at byte 8, one for a
/// single font, and none for anything else.
pub open spec fn font_count(data: Seq<u8>) -> int {
    if is_collection(data) {
        match read_u32_be(data, 8) {
            Some(n) => n as int,
            None => 0,
        }
    } else if is_font_at(data, 0) {
        1
    } else {
        0
    }
}

/// The offset of the table directory of font number `index` in the font file `data`, as
/// swash finds it (it takes the index as a `u32`): 0 for the one font of a single-font file,
/// the entry at byte `12 + 4 * index` of a collection's offset table; `None` where the data
/// is no font file, the index is out of range, or no table directory starts there.
pub open spec fn font_offset(data: Seq<u8>, index: usize) -> Option<u32> {
    let i = (index as u32) as int;
    if !is_font_at(data, 0) && !is_collection(data) {
        None
    } else if i >= font_count(data) {
        None
    } else {
        let o = if is_font_at(data, 0) {
            Some(0u32)
        } else {
            read_u32_be(data, 12 + 4 * i)
        };
        match o {
            Some(o) => if is_font_at(data, o as int) {
                Some(o)
            } else {
                None
            },
            None => None,
        }
    }
}

/// `swash::FontRef::from_index`: reads the font file and finds font number `index` in it,
/// reading big-endian tags, the collection's count and its offset table. The cache key it
/// also makes comes from a global counter and is not kept.
#[verifier::external_body]
fn font_offset_of(data: &Vec<u8>, index: usize) -> (r: Option<u32>)
    requires
        12 + 4 * (index as u32) <= usize::MAX,
    ensures
        r == font_offset(data@, index),
{
    FontRef::from_index(data, index).map(|font| font.offset)
}

/// A font: the bytes of its file, where its table directory starts in them, and the size
/// it is measured at.
#[derive(Debug, Clone)]
pub struct Font {
    pub data: Vec<u8>,
    pub offset: u32,
    pub size: FontSize,
}

impl Font {
    /// Create a font from the given TTF or OTF font data: font number `index` of the file,
    /// measured at `size`; `None` where the file holds no such font.
    pub fn from_bytes(data: Vec<u8>, index: usize, size: FontSize) -> (r: Option<Font>)
        requires
            12 + 4 * (index as u32) <= usize::MAX,
        ensures
            (r is Some) == (font_offset(data@, index) is Some),
            r matches Some(f) ==> f.data@ == data@ && Some(f.offset) == font_offset(data@, index)
                && f.size == size,
    {
        match font_offset_of(&data, index) {
            Some(offset) => Some(Font { data, offset, size }),
            None => None,
        }
    }

    /// Measures the font at another size.
    pub fn resize(&mut self, size: FontSize)
        ensures
            final(self).size == size,
            final(self).data@ == old(self).data@,
            final(self).offset == old(self).offset,
    {
        self.size = size;
    }
}

/// Swash metrics in pixel units
#[derive(Debug, Clone, Copy, PartialEq, Eq)]
pub struct MetricsPixels {
    /// Multiplier from units per em to pixels
    pub scale_factor: u32,
    /// The width of a cell
    pub width: u32,
    /// The height of a cell
    pub em: u32,
    /// Distance from the baseline to the bottom of the alignment box.
    pub descent: u32,
    /// Distance from the baseline to the top of the alignment box.
    pub ascent: u32,
    /// Recommended additional spacing between lines.
    pub leading: u32,
    /// Distance from the baseline to the top of a typical English capital.
    pub cap_height: u32,
    /// Distance from the baseline to the top of the lowercase "x" or
    /// similar character.
    pub x_height: u32,
    /// Recommended distance from the baseline to the top of an underline
    /// stroke.
    pub underline_offset: u32,
    /// Recommended distance from the baseline to the top of a strikeout
    /// stroke.
    pub strikeout_offset: u32,
    /// Recommended thickness of an underline or strikeout stroke.
    pub stroke_size: u32,
}

impl MetricsPixels {
    /// The dimensions of a grid cell with this font: the width, and the em height plus the
    /// descent.
    pub fn cell_size(&self) -> (r: Vec2<u32>)
        requires
            self.em + self.descent <= u32::MAX,
        ensures
            r == (Vec2::<u32> { x: self.width, y: (self.em + self.descent) as u32 }),
    {
        Vec2::new(self.width, self.em + self.descent)
    }
}

} // verus!
