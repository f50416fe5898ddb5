use vstd::prelude::*;

verus! {

/// A pixel color: one of the two monochrome extremes or an explicit RGB triple.
#[derive(Debug, Clone, Copy, PartialEq, Eq, Structural)]
pub enum Color {
    Black,
    White,
    Rgb(u8, u8, u8),
}

/// Packs 8-bit channels into the panel's 5-6-5 native pixel value.
pub open spec fn rgb565(r: int, g: int, b: int) -> int {
    (r / 8) * 2048 + (g / 4) * 32 + b / 8
}

impl Color {
    pub open spec fn spec_rgb8(self) -> (u8, u8, u8) {
        match self {
            Color::Black => (0, 0, 0),
            Color::White => (255, 255, 255),
            Color::Rgb(r, g, b) => (r, g, b),
        }
    }

    pub open spec fn spec_native(self) -> int {
        let (r, g, b) = self.spec_rgb8();
        rgb565(r as int, g as int, b as int)
    }

    /// The color as an 8-bit-per-channel RGB triple.
    pub fn to_rgb8(&self) -> (r: (u8, u8, u8))
        ensures
            r == self.spec_rgb8(),
    {
        match *self {
            Color::Black => (0, 0, 0),
            Color::White => (255, 255, 255),
            Color::Rgb(r, g, b) => (r, g, b),
        }
    }

    /// The color as the panel's native 16-bit pixel value.
    pub fn to_native(&self) -> (v: u16)
        ensures
            v as int == self.spec_native(),
    {
        let (r, g, b) = self.to_rgb8();
        (r as u16 / 8) * 2048 + (g as u16 / 4) * 32 + b as u16 / 8
    }
}

} // verus!
