//! Colours, border kinds and styles of text on a terminal, held as plain
//! values.
use vstd::prelude::*;

verus! {

/// A terminal colour.
#[derive(Clone, Copy, Debug, PartialEq, Eq, Structural)]
pub enum Color {
    Reset,
    Black,
    Red,
    Green,
    Yellow,
    Blue,
    Magenta,
    Cyan,
    Gray,
    DarkGray,
    LightRed,
    LightGreen,
    LightYellow,
    LightBlue,
    LightMagenta,
    LightCyan,
    White,
    Rgb(u8, u8, u8),
    Indexed(u8),
}

/// How the border of a block is drawn.
#[derive(Clone, Copy, Debug, PartialEq, Eq, Structural)]
pub enum BorderType {
    Plain,
    Rounded,
    Double,
    Thick,
}

pub const BOLD: u16 = 0b0000_0000_0001;
pub const DIM: u16 = 0b0000_0000_0010;
pub const ITALIC: u16 = 0b0000_0000_0100;
pub const UNDERLINED: u16 = 0b0000_0000_1000;
pub const CROSSED_OUT: u16 = 0b0001_0000_0000;

/// A change of how text looks: colours to set, and the modifier bits to add
/// and to remove.
#[derive(Clone, Copy, Debug, PartialEq, Eq, Structural)]
pub struct Style {
    pub fg: Option<Color>,
    pub bg: Option<Color>,
    pub add_modifier: u16,
    pub sub_modifier: u16,
}

impl Style {
    /// The style that changes nothing.
    pub open spec fn plain() -> Style {
        Style { fg: None, bg: None, add_modifier: 0, sub_modifier: 0 }
    }

    /// The style that changes nothing.
    pub fn new() -> (s: Style)
        ensures
            s == Style::plain(),
    {
        Style { fg: None, bg: None, add_modifier: 0, sub_modifier: 0 }
    }

    pub open spec fn with_fg(self, c: Color) -> Style {
        Style { fg: Some(c), ..self }
    }

    /// This style with `c` as foreground colour.
    pub fn fg(self, c: Color) -> (s: Style)
        ensures
            s == self.with_fg(c),
    {
        Style { fg: Some(c), ..self }
    }

    pub open spec fn with_bg(self, c: Color) -> Style {
        Style { bg: Some(c), ..self }
    }

    /// This style with `c` as background colour.
    pub fn bg(self, c: Color) -> (s: Style)
        ensures
            s == self.with_bg(c),
    {
        Style { bg: Some(c), ..self }
    }

    pub open spec fn with_modifier(self, m: u16) -> Style {
        Style { add_modifier: self.add_modifier | m, sub_modifier: self.sub_modifier & !m, ..self }
    }

    /// This style with the modifier bits `m` added.
    pub fn add_modifier(self, m: u16) -> (s: Style)
        ensures
            s == self.with_modifier(m),
    {
        Style { add_modifier: self.add_modifier | m, sub_modifier: self.sub_modifier & !m, ..self }
    }
}

/// One character of text with its style.
#[derive(Clone, Copy, Debug, PartialEq, Eq, Structural)]
pub struct StyledChar {
    pub content: char,
    pub style: Style,
}

} // verus!
