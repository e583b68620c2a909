//! A packed RGBA color, one byte per channel, stored as `0xRRGGBBAA`.

use vstd::prelude::*;

verus! {

/// A color as one packed `0xRRGGBBAA` value, the byte layout the rest of
/// the crate uses for pixel data.
#[derive(Clone, Copy)]
pub struct Color {
    rgba: u32,
}

impl Color {
    /// The packed `0xRRGGBBAA` value.
    pub closed spec fn spec_rgba(&self) -> u32 {
        self.rgba
    }
}

impl From<u32> for Color {
    fn from(rgba: u32) -> (r: Self) {
        Color { rgba }
    }
}

impl vstd::std_specs::convert::FromSpecImpl<u32> for Color {
    open spec fn obeys_from_spec() -> bool {
        true
    }

    closed spec fn from_spec(t: u32) -> Self {
        Color { rgba: t }
    }
}

impl From<Color> for u32 {
    fn from(color: Color) -> (r: Self) {
        color.rgba
    }
}

impl vstd::std_specs::convert::FromSpecImpl<Color> for u32 {
    open spec fn obeys_from_spec() -> bool {
        true
    }

    closed spec fn from_spec(t: Color) -> Self {
        t.spec_rgba()
    }
}

} // verus!
