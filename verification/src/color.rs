//! ANSI colors for terminal output.
use vstd::prelude::*;
use crate::text::concat3;

verus! {

/// ANSI color codes
pub enum Color {
    Red,
    Green,
    Yellow,
    Cyan,
    Gray,
    BrightRed,
    BrightGreen,
    BrightYellow,
    Bold,
}

impl Color {
    /// The escape sequence that switches to this color.
    pub open spec fn code_text(&self) -> Seq<char> {
        match self {
            Color::Red => "\x1b[31m"@,
            Color::Green => "\x1b[32m"@,
            Color::Yellow => "\x1b[33m"@,
            Color::Cyan => "\x1b[36m"@,
            Color::Gray => "\x1b[90m"@,
            Color::BrightRed => "\x1b[91m"@,
            Color::BrightGreen => "\x1b[92m"@,
            Color::BrightYellow => "\x1b[93m"@,
            Color::Bold => "\x1b[1m"@,
        }
    }

    /// Returns the ANSI escape code prefix
    pub fn code(&self) -> (r: &'static str)
        ensures
            r@ == self.code_text(),
    {
        match self {
            Color::Red => "\x1b[31m",
            Color::Green => "\x1b[32m",
            Color::Yellow => "\x1b[33m",
            Color::Cyan => "\x1b[36m",
            Color::Gray => "\x1b[90m",
            Color::BrightRed => "\x1b[91m",
            Color::BrightGreen => "\x1b[92m",
            Color::BrightYellow => "\x1b[93m",
            Color::Bold => "\x1b[1m",
        }
    }

    /// The escape sequence that ends colored text.
    pub open spec fn reset_text() -> Seq<char> {
        "\x1b[0m"@
    }

    /// Reset ANSI formatting
    pub fn reset() -> (r: &'static str)
        ensures
            r@ == Self::reset_text(),
    {
        "\x1b[0m"
    }
}

/// `text` wrapped in the escape sequences of `color`.
pub open spec fn colored(color: Color, text: Seq<char>) -> Seq<char> {
    color.code_text() + text + Color::reset_text()
}

/// Wrap text with a single color
pub fn c(color: Color, text: &str) -> (r: String)
    ensures
        r@ == colored(color, text@),
{
    concat3(color.code(), text, Color::reset())
}

} // verus!
