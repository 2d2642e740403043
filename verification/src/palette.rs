//! The colours in which cells and captions are shown.

use vstd::prelude::*;

verus! {

/// The cell value under which the landing preview is shown.
pub const SHADOW: usize = 7;

/// The colour of a cell on the screen.
#[derive(Clone, Copy, Debug, PartialEq, Eq, Structural)]
pub enum Tint {
    White,
    Blue,
    Red,
    Green,
    Purple,
    Cyan,
    BrightBlue,
    DarkGrey,
}

/// The look of a caption on the screen.
#[derive(Clone, Copy, Debug, PartialEq, Eq, Structural)]
pub enum Lettering {
    WhiteOnBlue,
    BlackOnWhite,
    BoldWhiteOnBlue,
    White,
}

/// The colour in which a cell value is shown: white for an empty cell, blue
/// for the backdrop, one colour for each shape, dark grey for the landing
/// preview, and white for any other value.
pub open spec fn tint_of(cell: usize) -> Tint {
    if cell == 3 {
        Tint::Blue
    } else if cell == 1 {
        Tint::Red
    } else if cell == 2 {
        Tint::Green
    } else if cell == 4 {
        Tint::Purple
    } else if cell == 5 {
        Tint::Cyan
    } else if cell == 6 {
        Tint::BrightBlue
    } else if cell == SHADOW {
        Tint::DarkGrey
    } else {
        Tint::White
    }
}

/// The look of a caption by its code: `0` for the frame, `1` for the
/// score, `2` for the title and the corners, plain white for any other.
pub open spec fn lettering_of(code: usize) -> Lettering {
    if code == 0 {
        Lettering::WhiteOnBlue
    } else if code == 1 {
        Lettering::BlackOnWhite
    } else if code == 2 {
        Lettering::BoldWhiteOnBlue
    } else {
        Lettering::White
    }
}

/// The colour in which a cell value is shown.
pub fn get_cell(cell: usize) -> (tint: Tint)
    ensures
        tint == tint_of(cell),
{
    match cell {
        0 => Tint::White,
        3 => Tint::Blue,
        1 => Tint::Red,
        2 => Tint::Green,
        4 => Tint::Purple,
        5 => Tint::Cyan,
        6 => Tint::BrightBlue,
        7 => Tint::DarkGrey,
        _ => Tint::White,
    }
}

/// The look of a caption by its code.
pub fn get_text(code: usize) -> (lettering: Lettering)
    ensures
        lettering == lettering_of(code),
{
    match code {
        0 => Lettering::WhiteOnBlue,
        1 => Lettering::BlackOnWhite,
        2 => Lettering::BoldWhiteOnBlue,
        _ => Lettering::White,
    }
}

} // verus!
