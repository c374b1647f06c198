//! The terminal colors and styles that print highlighted text the way Neovim shows it.
use crate::event::HlAttrDefine;
use vstd::prelude::*;

verus! {

/// A 24-bit color.
#[derive(Debug, Clone, Copy, PartialEq, Eq)]
pub struct RgbColor {
    pub r: u8,
    pub g: u8,
    pub b: u8,
}

/// The colors and styles to print text with: what a terminal color spec sets.
#[derive(Debug, Clone, Copy, PartialEq, Eq)]
pub struct ColorSettings {
    pub fg: Option<RgbColor>,
    pub bg: Option<RgbColor>,
    pub italic: bool,
    pub bold: bool,
    pub strikethrough: bool,
    pub underline: bool,
}

/// The color of a `0xRRGGBB` number; bits above are ignored.
pub open spec fn color_of(n: u64) -> RgbColor {
    RgbColor { r: ((n / 0x1_0000) % 0x100) as u8, g: ((n / 0x100) % 0x100) as u8, b: (n % 0x100) as u8 }
}

/// The color of a `0xRRGGBB` number; bits above are ignored.
pub fn u64_to_color(n: u64) -> (r: RgbColor)
    ensures
        r == color_of(n),
{
    let r = (n >> 16) as u8;
    let g = (n >> 8) as u8;
    let b = n as u8;
    assert((n >> 16) as u8 == ((n / 0x1_0000) % 0x100) as u8) by (bit_vector);
    assert((n >> 8) as u8 == ((n / 0x100) % 0x100) as u8) by (bit_vector);
    assert(n as u8 == (n % 0x100) as u8) by (bit_vector);
    RgbColor { r, g, b }
}

/// The terminal settings of a highlight's RGB attributes: its colors, swapped where it is
/// reversed, and its styles, off where they are unset.
pub fn hl_attr_to_colorspec(hl: &HlAttrDefine) -> (r: ColorSettings)
    ensures
        ({
            let a = hl.rgb_attr;
            let reverse = a.reverse == Some(true);
            let fg = match a.foreground {
                Some(c) => Some(color_of(c as u64)),
                None => None,
            };
            let bg = match a.background {
                Some(c) => Some(color_of(c as u64)),
                None => None,
            };
            &&& r.fg == if reverse {
                bg
            } else {
                fg
            }
            &&& r.bg == if reverse {
                fg
            } else {
                bg
            }
            &&& r.italic == (a.italic == Some(true))
            &&& r.bold == (a.bold == Some(true))
            &&& r.strikethrough == (a.strikethrough == Some(true))
            &&& r.underline == (a.underline == Some(true))
        }),
{
    let a = &hl.rgb_attr;
    let reverse = match a.reverse {
        Some(b) => b,
        None => false,
    };
    let mut fg: Option<RgbColor> = None;
    let mut bg: Option<RgbColor> = None;
    if let Some(foreground) = a.foreground {
        let color = Some(u64_to_color(foreground as u64));
        if reverse {
            bg = color;
        } else {
            fg = color;
        }
    }
    if let Some(background) = a.background {
        let color = Some(u64_to_color(background as u64));
        if reverse {
            fg = color;
        } else {
            bg = color;
        }
    }
    ColorSettings {
        fg,
        bg,
        italic: match a.italic {
            Some(b) => b,
            None => false,
        },
        bold: match a.bold {
            Some(b) => b,
            None => false,
        },
        strikethrough: match a.strikethrough {
            Some(b) => b,
            None => false,
        },
        underline: match a.underline {
            Some(b) => b,
            None => false,
        },
    }
}

} // verus!
