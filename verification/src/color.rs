//! The colors that the chat gives to users, as they travel in messages.
use vstd::prelude::*;

verus! {

/// A terminal color: one of the sixteen named colors, an RGB triple or an
/// 8-bit ANSI value.
#[derive(Debug, Clone, Copy, PartialEq, Eq, Hash, Structural)]
pub enum SerdeColor {
    Red,
    DarkRed,
    Green,
    DarkGreen,
    Blue,
    DarkBlue,
    White,
    Black,
    Yellow,
    DarkYellow,
    Cyan,
    DarkCyan,
    Magenta,
    DarkMagenta,
    Grey,
    DarkGrey,
    Custom(u8, u8, u8),
    AnsiValue(u8),
}

/// The color carried by a message, red when it carries none.
pub open spec fn color_or_red_spec(c: Option<SerdeColor>) -> SerdeColor {
    match c {
        Some(c) => c,
        None => SerdeColor::Red,
    }
}

/// The color carried by a message, red when it carries none.
pub fn color_or_red(c: Option<SerdeColor>) -> (res: SerdeColor)
    ensures
        res == color_or_red_spec(c),
{
    match c {
        Some(c) => c,
        None => SerdeColor::Red,
    }
}

} // verus!
