//! Display colours. The simulation only carries them along with glyphs and
//! log entries; what they look like is up to the renderer.

use vstd::prelude::*;

verus! {

/// An RGB colour.
#[derive(Clone, Copy, Debug, PartialEq, Eq, Structural)]
pub struct Color {
    pub r: u8,
    pub g: u8,
    pub b: u8,
}

#[verifier::allow_in_spec]
pub fn black() -> Color
    returns
        (Color { r: 0, g: 0, b: 0 }),
{
    Color { r: 0, g: 0, b: 0 }
}

#[verifier::allow_in_spec]
pub fn white() -> Color
    returns
        (Color { r: 255, g: 255, b: 255 }),
{
    Color { r: 255, g: 255, b: 255 }
}

#[verifier::allow_in_spec]
pub fn light_grey() -> Color
    returns
        (Color { r: 159, g: 159, b: 159 }),
{
    Color { r: 159, g: 159, b: 159 }
}

#[verifier::allow_in_spec]
pub fn red() -> Color
    returns
        (Color { r: 255, g: 0, b: 0 }),
{
    Color { r: 255, g: 0, b: 0 }
}

#[verifier::allow_in_spec]
pub fn light_red() -> Color
    returns
        (Color { r: 255, g: 63, b: 63 }),
{
    Color { r: 255, g: 63, b: 63 }
}

#[verifier::allow_in_spec]
pub fn dark_red() -> Color
    returns
        (Color { r: 191, g: 0, b: 0 }),
{
    Color { r: 191, g: 0, b: 0 }
}

#[verifier::allow_in_spec]
pub fn darker_red() -> Color
    returns
        (Color { r: 127, g: 0, b: 0 }),
{
    Color { r: 127, g: 0, b: 0 }
}

#[verifier::allow_in_spec]
pub fn orange() -> Color
    returns
        (Color { r: 255, g: 127, b: 0 }),
{
    Color { r: 255, g: 127, b: 0 }
}

#[verifier::allow_in_spec]
pub fn yellow() -> Color
    returns
        (Color { r: 255, g: 255, b: 0 }),
{
    Color { r: 255, g: 255, b: 0 }
}

#[verifier::allow_in_spec]
pub fn light_yellow() -> Color
    returns
        (Color { r: 255, g: 255, b: 63 }),
{
    Color { r: 255, g: 255, b: 63 }
}

#[verifier::allow_in_spec]
pub fn green() -> Color
    returns
        (Color { r: 0, g: 255, b: 0 }),
{
    Color { r: 0, g: 255, b: 0 }
}

#[verifier::allow_in_spec]
pub fn light_green() -> Color
    returns
        (Color { r: 63, g: 255, b: 63 }),
{
    Color { r: 63, g: 255, b: 63 }
}

#[verifier::allow_in_spec]
pub fn desaturated_green() -> Color
    returns
        (Color { r: 63, g: 127, b: 63 }),
{
    Color { r: 63, g: 127, b: 63 }
}

#[verifier::allow_in_spec]
pub fn darker_green() -> Color
    returns
        (Color { r: 0, g: 127, b: 0 }),
{
    Color { r: 0, g: 127, b: 0 }
}

#[verifier::allow_in_spec]
pub fn light_cyan() -> Color
    returns
        (Color { r: 63, g: 255, b: 255 }),
{
    Color { r: 63, g: 255, b: 255 }
}

#[verifier::allow_in_spec]
pub fn light_blue() -> Color
    returns
        (Color { r: 63, g: 63, b: 255 }),
{
    Color { r: 63, g: 63, b: 255 }
}

#[verifier::allow_in_spec]
pub fn violet() -> Color
    returns
        (Color { r: 127, g: 0, b: 255 }),
{
    Color { r: 127, g: 0, b: 255 }
}

#[verifier::allow_in_spec]
pub fn light_violet() -> Color
    returns
        (Color { r: 159, g: 63, b: 255 }),
{
    Color { r: 159, g: 63, b: 255 }
}

#[verifier::allow_in_spec]
pub fn sky() -> Color
    returns
        (Color { r: 0, g: 191, b: 255 }),
{
    Color { r: 0, g: 191, b: 255 }
}

#[verifier::allow_in_spec]
pub fn darker_orange() -> Color
    returns
        (Color { r: 127, g: 63, b: 0 }),
{
    Color { r: 127, g: 63, b: 0 }
}

/// Unlit wall.
#[verifier::allow_in_spec]
pub fn dark_wall() -> Color
    returns
        (Color { r: 0, g: 0, b: 100 }),
{
    Color { r: 0, g: 0, b: 100 }
}

/// Lit wall.
#[verifier::allow_in_spec]
pub fn light_wall() -> Color
    returns
        (Color { r: 130, g: 110, b: 50 }),
{
    Color { r: 130, g: 110, b: 50 }
}

/// Unlit floor.
#[verifier::allow_in_spec]
pub fn dark_ground() -> Color
    returns
        (Color { r: 50, g: 50, b: 150 }),
{
    Color { r: 50, g: 50, b: 150 }
}

/// Lit floor.
#[verifier::allow_in_spec]
pub fn light_ground() -> Color
    returns
        (Color { r: 200, g: 180, b: 50 }),
{
    Color { r: 200, g: 180, b: 50 }
}

} // verus!
