//! The colors of each highlight as the shaders read them.
use crate::event::{DefaultColorsSet, HlAttrDefine};
use vstd::prelude::*;

verus! {

/// The foreground and background of a highlight, as `0xRRGGBB`.
#[derive(Debug, Clone, Copy, PartialEq, Eq)]
pub struct HighlightInfo {
    pub fg: u32,
    pub bg: u32,
}

impl HighlightInfo {
    pub fn new(fg: u32, bg: u32) -> (r: HighlightInfo)
        ensures
            r == (HighlightInfo { fg, bg }),
    {
        HighlightInfo { fg, bg }
    }
}

/// White.
pub const WHITE: u32 = 0xff_ffff;

/// Black.
pub const BLACK: u32 = 0;

/// The colors of the highlights, and the color the screen is cleared with.
pub struct Highlights {
    highlights: Vec<HighlightInfo>,
    clear_color: u32,
}

/// The value of an option, or `default` where it is unset.
pub open spec fn or_default(o: Option<u32>, default: u32) -> u32 {
    match o {
        Some(v) => v,
        None => default,
    }
}

/// The colors of highlight `i` after an update: where the highlight sets a color, that one;
/// else what the entry held, or the default colors for an entry that is new.
pub open spec fn updated_entry(
    old: Seq<HighlightInfo>,
    hl: Seq<HlAttrDefine>,
    fg: u32,
    bg: u32,
    i: int,
) -> HighlightInfo {
    let base = if i < old.len() {
        old[i]
    } else {
        HighlightInfo { fg, bg }
    };
    if i < hl.len() {
        HighlightInfo {
            fg: or_default(hl[i].rgb_attr.foreground, base.fg),
            bg: or_default(hl[i].rgb_attr.background, base.bg),
        }
    } else {
        base
    }
}

impl Highlights {
    pub closed spec fn entries(&self) -> Seq<HighlightInfo> {
        self.highlights@
    }

    pub closed spec fn spec_clear_color(&self) -> u32 {
        self.clear_color
    }

    /// No highlights, and a black screen.
    pub fn new() -> (r: Highlights)
        ensures
            r.entries().len() == 0,
            r.spec_clear_color() == BLACK,
    {
        Highlights { highlights: Vec::new(), clear_color: BLACK }
    }

    /// Where the highlights changed, takes the UI's highlights: one entry per highlight (at
    /// least one), each with the colors its highlight sets, and the screen cleared with the
    /// default background. It returns whether anything was done.
    pub fn update(
        &mut self,
        did_highlights_change: bool,
        highlights: &Vec<HlAttrDefine>,
        default_colors: DefaultColorsSet,
    ) -> (r: bool)
        ensures
            r == did_highlights_change,
            !r ==> final(self).entries() == old(self).entries() && final(self).spec_clear_color()
                == old(self).spec_clear_color(),
            r ==> {
                let fg = or_default(default_colors.rgb_fg, WHITE);
                let bg = or_default(default_colors.rgb_bg, BLACK);
                let n = if highlights@.len() >= 1 { highlights@.len() } else { 1 };
                &&& final(self).spec_clear_color() == bg
                &&& final(self).entries().len() == n
                &&& forall|i: int|
                    0 <= i < n ==> #[trigger] final(self).entries()[i] == updated_entry(
                        old(self).entries(),
                        highlights@,
                        fg,
                        bg,
                        i,
                    )
            },
    {
        if !did_highlights_change {
            return false;
        }
        let fg = match default_colors.rgb_fg {
            Some(c) => c,
            None => WHITE,
        };
        let bg = match default_colors.rgb_bg {
            Some(c) => c,
            None => BLACK,
        };
        self.clear_color = bg;
        let n = if highlights.len() >= 1 { highlights.len() } else { 1 };
        let ghost before = self.highlights@;
        self.highlights.truncate(n);
        while self.highlights.len() < n
            invariant
                n >= 1,
                self.clear_color == bg,
                self.highlights@.len() <= n,
                self.highlights@.len() < n ==> self.highlights@.len() >= before.len(),
                forall|i: int|
                    0 <= i < self.highlights@.len() ==> #[trigger] self.highlights@[i] == if i
                        < before.len() {
                        before[i]
                    } else {
                        HighlightInfo { fg, bg }
                    },
            decreases n - self.highlights@.len(),
        {
            self.highlights.push(HighlightInfo::new(fg, bg));
        }
        let mut i: usize = 0;
        while i < highlights.len()
            invariant
                n == if highlights@.len() >= 1 { highlights@.len() } else { 1 },
                self.clear_color == bg,
                self.highlights@.len() == n,
                i <= highlights@.len(),
                forall|j: int|
                    0 <= j < n ==> #[trigger] self.highlights@[j] == if j < i {
                        updated_entry(before, highlights@, fg, bg, j)
                    } else if j < before.len() {
                        before[j]
                    } else {
                        HighlightInfo { fg, bg }
                    },
            decreases highlights@.len() - i,
        {
            let mut entry = self.highlights[i];
            if let Some(c) = highlights[i].rgb_attr.foreground {
                entry.fg = c;
            }
            if let Some(c) = highlights[i].rgb_attr.background {
                entry.bg = c;
            }
            self.highlights.set(i, entry);
            i += 1;
        }
        true
    }

    /// The colors of each highlight.
    pub fn entries_slice(&self) -> (r: &[HighlightInfo])
        ensures
            r@ == self.entries(),
    {
        self.highlights.as_slice()
    }

    /// The color the screen is cleared with.
    pub fn clear_color(&self) -> (r: u32)
        ensures
            r == self.spec_clear_color(),
    {
        self.clear_color
    }
}

} // verus!
