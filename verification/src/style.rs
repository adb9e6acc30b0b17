//! Text styles: foreground and background colours and emphasis modifiers,
//! with the same fields and the same update rules as a terminal UI style.

use vstd::prelude::*;

verus! {

/// A terminal colour.
#[derive(Clone, Copy, Debug, PartialEq, Eq, Structural)]
pub enum Color {
    Reset,
    Black,
    Red,
    Green,
    Yellow,
    Blue,
    Magenta,
    Cyan,
    Gray,
    DarkGray,
    LightRed,
    LightGreen,
    LightYellow,
    LightBlue,
    LightMagenta,
    LightCyan,
    White,
    Rgb(u8, u8, u8),
    Indexed(u8),
}

/// Bold text.
pub const BOLD: u16 = 0b0000_0000_0001;

/// Faint text.
pub const DIM: u16 = 0b0000_0000_0010;

/// Italic text.
pub const ITALIC: u16 = 0b0000_0000_0100;

/// Underlined text.
pub const UNDERLINED: u16 = 0b0000_0000_1000;

/// Slowly blinking text.
pub const SLOW_BLINK: u16 = 0b0000_0001_0000;

/// Rapidly blinking text.
pub const RAPID_BLINK: u16 = 0b0000_0010_0000;

/// Foreground and background swapped.
pub const REVERSED: u16 = 0b0000_0100_0000;

/// Hidden text.
pub const HIDDEN: u16 = 0b0000_1000_0000;

/// Struck-through text.
pub const CROSSED_OUT: u16 = 0b0001_0000_0000;

/// A style: the colours it sets (`None` leaves the colour as it was) and two sets of
/// modifier bits, those it adds and those it removes.
#[derive(Clone, Copy, Debug, PartialEq, Eq, Structural)]
pub struct Style {
    pub fg: Option<Color>,
    pub bg: Option<Color>,
    pub add_modifier: u16,
    pub sub_modifier: u16,
}

/// The style that sets nothing.
pub open spec fn plain_style() -> Style {
    Style { fg: None, bg: None, add_modifier: 0, sub_modifier: 0 }
}

impl Style {
    /// The style that sets nothing.
    pub fn new() -> (r: Style)
        ensures
            r == plain_style(),
    {
        Style { fg: None, bg: None, add_modifier: 0, sub_modifier: 0 }
    }

    /// The same style with foreground `color`.
    pub fn fg(self, color: Color) -> (r: Style)
        ensures
            r == (Style { fg: Some(color), ..self }),
    {
        Style { fg: Some(color), ..self }
    }

    /// The same style with background `color`.
    pub fn bg(self, color: Color) -> (r: Style)
        ensures
            r == (Style { bg: Some(color), ..self }),
    {
        Style { bg: Some(color), ..self }
    }

    /// The same style with the modifiers `m` added (and no longer removed).
    pub fn add_modifier(self, m: u16) -> (r: Style)
        ensures
            r == (Style { add_modifier: self.add_modifier | m, sub_modifier: self.sub_modifier & !m, ..self }),
    {
        Style { add_modifier: self.add_modifier | m, sub_modifier: self.sub_modifier & !m, ..self }
    }

    /// The same style with the modifiers `m` removed (and no longer added).
    pub fn remove_modifier(self, m: u16) -> (r: Style)
        ensures
            r == (Style { add_modifier: self.add_modifier & !m, sub_modifier: self.sub_modifier | m, ..self }),
    {
        Style { add_modifier: self.add_modifier & !m, sub_modifier: self.sub_modifier | m, ..self }
    }
}

impl Default for Style {
    fn default() -> (r: Style)
        ensures
            r == plain_style(),
    {
        Style::new()
    }
}

} // verus!
