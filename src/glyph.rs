use vstd::prelude::*;

verus! {

/// One styled character: the character, the style token (a colour pair in
/// a terminal) and whether it is drawn with emphasis.
#[derive(Clone, Copy, Debug, PartialEq, Eq, Structural)]
pub struct StyledGlyph {
    pub ch: char,
    pub style: u32,
    pub bold: bool,
}

/// The blank glyph drawn with `style`.
pub open spec fn blank_glyph(style: u32) -> StyledGlyph {
    StyledGlyph { ch: ' ', style, bold: false }
}

/// `n` blank rows of a streak's buffer (none when `n` is not positive).
pub open spec fn blanks(n: int) -> Seq<StyledGlyph> {
    Seq::new(if n > 0 { n as nat } else { 0 }, |i: int| blank_glyph(0))
}

impl StyledGlyph {
    /// The blank glyph drawn with `style`.
    pub fn blank(style: u32) -> (g: StyledGlyph)
        ensures
            g == blank_glyph(style),
    {
        StyledGlyph { ch: ' ', style, bold: false }
    }
}

/// A glyph placed at a row and column of the screen.
#[derive(Clone, Copy, Debug, PartialEq, Eq, Structural)]
pub struct Cell {
    pub row: i32,
    pub col: i32,
    pub glyph: StyledGlyph,
}

} // verus!
