//! Font styles.
use vstd::prelude::*;

verus! {

/// The four styles a font family may have.
#[derive(Debug, Clone, Copy, PartialEq, Eq, Structural, Hash, Default)]
pub enum FontStyle {
    #[default]
    Regular,
    Bold,
    Italic,
    BoldItalic,
}

impl FontStyle {
    /// The style of text that is `bold` and `italic` or not.
    pub fn new(bold: bool, italic: bool) -> (r: FontStyle)
        ensures
            r == (if bold && italic {
                FontStyle::BoldItalic
            } else if bold {
                FontStyle::Bold
            } else if italic {
                FontStyle::Italic
            } else {
                FontStyle::Regular
            }),
    {
        match (bold, italic) {
            (true, true) => FontStyle::BoldItalic,
            (true, false) => FontStyle::Bold,
            (false, true) => FontStyle::Italic,
            (false, false) => FontStyle::Regular,
        }
    }
}

} // verus!
