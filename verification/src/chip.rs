//! The chip taxonomy: every chip is a (color, denomination) pair with a
//! fixed value between 1 and 4.

use vstd::prelude::*;

verus! {

/// The eight chip colors of the game.
#[derive(Clone, Copy, Debug, PartialEq, Eq, Structural)]
pub enum Color {
    White,
    Orange,
    Green,
    Blue,
    Red,
    Yellow,
    Purple,
    Black,
}

/// A chip: one variant per (color, denomination) combination in play.
/// Chips are plain values with no identity; they are cheap to copy.
#[derive(Clone, Copy, Debug, PartialEq, Eq, PartialOrd, Ord, Structural)]
pub enum Chip {
    White1,
    White2,
    White3,
    Orange1,
    Green1,
    Green2,
    Green4,
    Blue1,
    Blue2,
    Blue4,
    Red1,
    Red2,
    Red4,
    Yellow1,
    Yellow2,
    Yellow4,
    Purple1,
    Black1,
}

impl Chip {
    /// The denomination of the chip, as a mathematical value.
    pub open spec fn spec_value(self) -> int {
        match self {
            Chip::White1 | Chip::Orange1 | Chip::Green1 | Chip::Blue1 | Chip::Red1
            | Chip::Black1 | Chip::Yellow1 | Chip::Purple1 => 1,
            Chip::White2 | Chip::Green2 | Chip::Blue2 | Chip::Red2 | Chip::Yellow2 => 2,
            Chip::White3 => 3,
            Chip::Green4 | Chip::Blue4 | Chip::Red4 | Chip::Yellow4 => 4,
        }
    }

    /// The color of the chip, as a specification-level function.
    pub open spec fn spec_color(self) -> Color {
        match self {
            Chip::White1 | Chip::White2 | Chip::White3 => Color::White,
            Chip::Orange1 => Color::Orange,
            Chip::Green1 | Chip::Green2 | Chip::Green4 => Color::Green,
            Chip::Blue1 | Chip::Blue2 | Chip::Blue4 => Color::Blue,
            Chip::Red1 | Chip::Red2 | Chip::Red4 => Color::Red,
            Chip::Yellow1 | Chip::Yellow2 | Chip::Yellow4 => Color::Yellow,
            Chip::Purple1 => Color::Purple,
            Chip::Black1 => Color::Black,
        }
    }

    /// The denomination printed on the chip (1 to 4).
    pub fn value(&self) -> (v: u8)
        ensures
            v == self.spec_value(),
            1 <= v <= 4,
    {
        match self {
            Chip::White1 | Chip::Orange1 | Chip::Green1 | Chip::Blue1 | Chip::Red1
            | Chip::Black1 | Chip::Yellow1 | Chip::Purple1 => 1,
            Chip::White2 | Chip::Green2 | Chip::Blue2 | Chip::Red2 | Chip::Yellow2 => 2,
            Chip::White3 => 3,
            Chip::Green4 | Chip::Blue4 | Chip::Red4 | Chip::Yellow4 => 4,
        }
    }

    /// The color of the chip.
    pub fn color(&self) -> (c: Color)
        ensures
            c == self.spec_color(),
    {
        match self {
            Chip::White1 | Chip::White2 | Chip::White3 => Color::White,
            Chip::Orange1 => Color::Orange,
            Chip::Green1 | Chip::Green2 | Chip::Green4 => Color::Green,
            Chip::Blue1 | Chip::Blue2 | Chip::Blue4 => Color::Blue,
            Chip::Red1 | Chip::Red2 | Chip::Red4 => Color::Red,
            Chip::Yellow1 | Chip::Yellow2 | Chip::Yellow4 => Color::Yellow,
            Chip::Purple1 => Color::Purple,
            Chip::Black1 => Color::Black,
        }
    }
}

} // verus!
