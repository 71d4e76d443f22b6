//! Terminal colors.
use vstd::prelude::*;

verus! {

/// Color options for printing to the terminal.
#[derive(Debug, Clone, Copy, PartialEq, Eq, Structural)]
pub enum Color {
    Red,
    Green,
    Blue,
    Yellow,
    Magenta,
    Cyan,
    White,
}

/// The ANSI sequence that starts text in the given color.
pub open spec fn color_code(c: Color) -> Seq<char> {
    match c {
        Color::Red => "\x1b[1;31m"@,
        Color::Green => "\x1b[1;32m"@,
        Color::Blue => "\x1b[1;34m"@,
        Color::Yellow => "\x1b[1;33m"@,
        Color::Magenta => "\x1b[1;35m"@,
        Color::Cyan => "\x1b[1;36m"@,
        Color::White => "\x1b[1;37m"@,
    }
}

/// The ANSI sequence that ends colored text.
pub open spec fn reset_code() -> Seq<char> {
    "\x1b[0m"@
}

/// `text` wrapped in the codes of color `c`.
pub open spec fn colored(c: Color, text: Seq<char>) -> Seq<char> {
    color_code(c) + text + reset_code()
}

impl Color {
    /// Gets the ANSI code for the color.
    pub fn code(&self) -> (r: &'static str)
        ensures
            r@ == color_code(*self),
    {
        match self {
            Color::Red => "\x1b[1;31m",
            Color::Green => "\x1b[1;32m",
            Color::Blue => "\x1b[1;34m",
            Color::Yellow => "\x1b[1;33m",
            Color::Magenta => "\x1b[1;35m",
            Color::Cyan => "\x1b[1;36m",
            Color::White => "\x1b[1;37m",
        }
    }
}

/// Returns `text` wrapped in ANSI codes, so that a terminal shows it in `color`.
pub fn color_println_fmt(color: Color, text: &str) -> (r: String)
    ensures
        r@ == colored(color, text@),
{
    let s = String::from_str(color.code());
    let s = s.concat(text);
    s.concat("\x1b[0m")
}

} // verus!
