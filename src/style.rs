//! Styles that configure layout, and the font metrics it measures text by.
use vstd::prelude::*;
use crate::geom::{Margins, Size};

verus! {

/// How text is set.
#[derive(Debug, Clone, Copy, PartialEq, Eq, Structural)]
pub struct TextStyle {
    /// The extent of a line along the secondary axis.
    pub line_height: u64,
    /// The gap between two words of a line.
    pub word_spacing: u64,
    /// The gap added between two paragraphs.
    pub paragraph_spacing: u64,
}

/// The size of a page and its margins.
#[derive(Debug, Clone, Copy, PartialEq, Eq, Structural)]
pub struct PageStyle {
    pub size: Size,
    pub margins: Margins,
}

/// The styles of a layout call.
#[derive(Debug, Clone, Copy, PartialEq, Eq, Structural)]
pub struct LayoutStyle {
    pub text: TextStyle,
    pub page: PageStyle,
}

impl TextStyle {
    pub fn standard() -> (r: TextStyle)
        ensures
            r == (TextStyle { line_height: 12, word_spacing: 3, paragraph_spacing: 6 }),
    {
        TextStyle { line_height: 12, word_spacing: 3, paragraph_spacing: 6 }
    }
}

impl PageStyle {
    /// An A4 page in points, with margins of one inch.
    pub fn standard() -> (r: PageStyle)
        ensures
            r == (PageStyle {
                size: Size { x: 595, y: 842 },
                margins: Margins { left: 72, top: 72, right: 72, bottom: 72 },
            }),
    {
        PageStyle { size: Size::new(595, 842), margins: Margins::uniform(72) }
    }
}

impl LayoutStyle {
    pub fn standard() -> (r: LayoutStyle)
        ensures
            r.text == TextStyle::standard_spec(),
            r.page == PageStyle::standard_spec(),
    {
        LayoutStyle { text: TextStyle::standard(), page: PageStyle::standard() }
    }
}

impl TextStyle {
    pub open spec fn standard_spec() -> TextStyle {
        TextStyle { line_height: 12, word_spacing: 3, paragraph_spacing: 6 }
    }
}

impl PageStyle {
    pub open spec fn standard_spec() -> PageStyle {
        PageStyle {
            size: Size { x: 595, y: 842 },
            margins: Margins { left: 72, top: 72, right: 72, bottom: 72 },
        }
    }
}

/// Metrics of the loaded font, shared by every layout call.
#[derive(Debug, Clone, Copy, PartialEq, Eq, Structural)]
pub struct FontLoader {
    /// The advance of one character along the primary axis.
    pub advance: u64,
}

impl FontLoader {
    pub fn new(advance: u64) -> (r: FontLoader)
        ensures
            r.advance == advance,
    {
        FontLoader { advance }
    }

    pub open spec fn text_extent_spec(self, chars: u64) -> u64 {
        if chars * self.advance <= u64::MAX {
            (chars * self.advance) as u64
        } else {
            u64::MAX
        }
    }

    /// The extent of a word of `chars` characters, at most `u64::MAX`.
    pub fn text_extent(&self, chars: u64) -> (r: u64)
        ensures
            r == self.text_extent_spec(chars),
    {
        match chars.checked_mul(self.advance) {
            Some(w) => w,
            None => u64::MAX,
        }
    }
}

} // verus!
