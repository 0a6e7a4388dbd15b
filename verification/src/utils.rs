//! Plain colour values used by the renderer.

use vstd::prelude::*;

verus! {

/// RGB format for colours.
#[derive(Clone, Copy, Debug, PartialEq, Eq, Structural)]
pub struct Colour {
    pub r: u8,
    pub g: u8,
    pub b: u8,
}

impl Colour {
    pub fn new_u8(r: u8, b: u8, g: u8) -> (c: Colour)
        ensures
            c == (Colour { r, g, b }),
    {
        Colour { r, g, b }
    }

    pub fn to_array(&self) -> (a: [u8; 3])
        ensures
            a@ == seq![self.r, self.g, self.b],
    {
        [self.r, self.g, self.b]
    }

    /// Builds a colour from an `(r, g, b)` triple.
    pub fn from_rgb(value: (u8, u8, u8)) -> (c: Colour)
        ensures
            c == (Colour { r: value.0, g: value.1, b: value.2 }),
    {
        Colour { r: value.0, g: value.1, b: value.2 }
    }
}

impl Default for Colour {
    /// The default is the black colour.
    fn default() -> (c: Colour)
        ensures
            c == (Colour { r: 0, g: 0, b: 0 }),
    {
        DefinedColours::Black.colour()
    }
}

/// A small palette of named colours.
#[derive(Clone, Copy, Debug, PartialEq, Eq, Structural)]
pub enum DefinedColours {
    Red,
    Blue,
    Green,
    White,
    Black,
}

/// The RGB triple each named colour stands for.
pub open spec fn defined_colour_rgb(d: DefinedColours) -> Colour {
    match d {
        DefinedColours::Red => Colour { r: 255, g: 0, b: 0 },
        DefinedColours::Blue => Colour { r: 0, g: 255, b: 0 },
        DefinedColours::Green => Colour { r: 0, g: 0, b: 255 },
        DefinedColours::White => Colour { r: 255, g: 255, b: 255 },
        DefinedColours::Black => Colour { r: 0, g: 0, b: 0 },
    }
}

impl DefinedColours {
    /// Fetches the [`Colour`] struct value of that DefinedColour.
    pub fn colour(&self) -> (c: Colour)
        ensures
            c == defined_colour_rgb(*self),
    {
        match self {
            DefinedColours::Red => Colour::from_rgb((255, 0, 0)),
            DefinedColours::Blue => Colour::from_rgb((0, 255, 0)),
            DefinedColours::Green => Colour::from_rgb((0, 0, 255)),
            DefinedColours::White => Colour::from_rgb((255, 255, 255)),
            DefinedColours::Black => Colour::from_rgb((0, 0, 0)),
        }
    }
}

} // verus!
