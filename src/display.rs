use vstd::prelude::*;

verus! {

/// The colour a cell is drawn in.
#[derive(Clone, Copy, Debug, PartialEq, Eq, Structural)]
pub enum Tint {
    White,
    Cyan,
    Blue,
    Yellow,
    Magenta,
    Red,
}

/// The colour band of a cell value: white for an empty cell, then cyan,
/// blue, yellow and magenta for each pair of tile values from 2 to 256, and
/// red for everything else.
pub open spec fn tint_spec(value: u64) -> Tint {
    if value == 0 {
        Tint::White
    } else if 2 <= value <= 4 {
        Tint::Cyan
    } else if 8 <= value <= 16 {
        Tint::Blue
    } else if 32 <= value <= 64 {
        Tint::Yellow
    } else if 128 <= value <= 256 {
        Tint::Magenta
    } else {
        Tint::Red
    }
}

/// The colour to draw a cell holding `value` in.
pub fn tint_of(value: u64) -> (r: Tint)
    ensures
        r == tint_spec(value),
{
    if value == 0 {
        Tint::White
    } else if 2 <= value && value <= 4 {
        Tint::Cyan
    } else if 8 <= value && value <= 16 {
        Tint::Blue
    } else if 32 <= value && value <= 64 {
        Tint::Yellow
    } else if 128 <= value && value <= 256 {
        Tint::Magenta
    } else {
        Tint::Red
    }
}

} // verus!
