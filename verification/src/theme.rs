//! The colours a screen is drawn in.
use vstd::prelude::*;

verus! {

/// A terminal colour, named as ratatui names them: the sixteen ANSI
/// colours, the terminal's default, a 24-bit colour or a palette index.
#[derive(Debug, Clone, Copy, PartialEq, Eq, Structural)]
pub enum Color {
    Reset,
    Black,
    Red,
    Green,
    Yellow,
    Blue,
    Magenta,
    Cyan,
    Gray,
    DarkGray,
    LightRed,
    LightGreen,
    LightYellow,
    LightBlue,
    LightMagenta,
    LightCyan,
    White,
    Rgb(u8, u8, u8),
    Indexed(u8),
}

/// The palette the header and the logo draw with.
#[derive(Debug, Clone, Copy, PartialEq, Eq, Structural)]
pub struct Theme {
    /// Ordinary text.
    pub fg: Color,
    /// Secondary text.
    pub dim: Color,
    /// Highlights, and the logo's stem.
    pub accent: Color,
    /// `@context` tags.
    pub context: Color,
    /// Panel backgrounds.
    pub panel: Color,
    /// Priority A, and the logo's bloom.
    pub pri_a: Color,
}

} // verus!
