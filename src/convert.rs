//! Rendering colors in the output notations.

use crate::color::{hsl_lightness_of, hsl_saturation_of, hue_of, rgb_to_hsl, Color, Hsl, Hsv, Rgb};
use crate::command::Format;
use crate::text::{decimal, hex_byte, push_decimal, push_hex_byte, push_str};
use vstd::prelude::*;

verus! {

/// `name(a, b, c)` with the three numbers in decimal.
pub open spec fn call_text(name: Seq<char>, a: int, b: int, c: int) -> Seq<char> {
    name + "("@ + decimal(a as nat) + ", "@ + decimal(b as nat) + ", "@ + decimal(c as nat)
        + ")"@
}

/// Six lowercase hexadecimal digits, two per channel.
pub open spec fn hex_text(r: u8, g: u8, b: u8) -> Seq<char> {
    hex_byte(r) + hex_byte(g) + hex_byte(b)
}

fn call_string(name: &str, a: u16, b: u16, c: u16) -> (r: String)
    ensures
        r@ == call_text(name@, a as int, b as int, c as int),
{
    let mut out = String::new();
    push_str(&mut out, name);
    push_str(&mut out, "(");
    push_decimal(&mut out, a);
    push_str(&mut out, ", ");
    push_decimal(&mut out, b);
    push_str(&mut out, ", ");
    push_decimal(&mut out, c);
    push_str(&mut out, ")");
    proof {
        reveal_strlit("");
        assert(out@ =~= call_text(name@, a as int, b as int, c as int));
    }
    out
}

impl Rgb {
    /// `rgb(R, G, B)`.
    pub fn to_rgb(self) -> (r: String)
        ensures
            r@ == call_text("rgb"@, self.red as int, self.green as int, self.blue as int),
    {
        call_string("rgb", self.red as u16, self.green as u16, self.blue as u16)
    }

    /// Six lowercase hexadecimal digits.
    pub fn to_hex(self) -> (r: String)
        ensures
            r@ == hex_text(self.red, self.green, self.blue),
    {
        let mut out = String::new();
        push_hex_byte(&mut out, self.red);
        push_hex_byte(&mut out, self.green);
        push_hex_byte(&mut out, self.blue);
        proof {
            assert(out@ =~= hex_text(self.red, self.green, self.blue));
        }
        out
    }
}

impl Hsl {
    /// `hsl(H, S, L)`.
    pub fn to_string(self) -> (r: String)
        ensures
            r@ == call_text(
                "hsl"@,
                self.hue as int,
                self.saturation as int,
                self.lightness as int,
            ),
    {
        call_string("hsl", self.hue, self.saturation as u16, self.lightness as u16)
    }
}

impl Hsv {
    /// `hsv(H, S, V)`.
    pub fn to_string(self) -> (r: String)
        ensures
            r@ == call_text("hsv"@, self.hue as int, self.saturation as int, self.value as int),
    {
        call_string("hsv", self.hue, self.saturation as u16, self.value as u16)
    }
}

/// A notation that the library does not produce yet.
#[derive(Clone, Copy, Debug, PartialEq, Eq, Structural)]
pub struct Unsupported {
    pub format: Format,
}

/// The text of a color in a notation; `None` for one that is not produced yet.
pub open spec fn color_text(c: Color, fmt: Format) -> Option<Seq<char>> {
    let (r, g, b) = (c.red as int, c.green as int, c.blue as int);
    match fmt {
        Format::Hex => Some(hex_text(c.red, c.green, c.blue)),
        Format::Rgb => Some(call_text("rgb"@, r, g, b)),
        Format::Hsl => Some(
            call_text(
                "hsl"@,
                hue_of(r, g, b),
                hsl_saturation_of(r, g, b),
                hsl_lightness_of(r, g, b),
            ),
        ),
        _ => None,
    }
}

impl Color {
    /// The color in the notation `fmt`. HSV and CMYK are not produced yet and
    /// give `Unsupported`.
    pub fn convert(&self, fmt: Format) -> (r: Result<String, Unsupported>)
        ensures
            match r {
                Ok(t) => color_text(*self, fmt) == Some(t@),
                Err(u) => color_text(*self, fmt) is None && u.format == fmt,
            },
    {
        match fmt {
            Format::Hex => Ok(self.convert_to_hex()),
            Format::Rgb => Ok(self.convert_to_rgb()),
            Format::Hsl => Ok(self.convert_to_hsl()),
            Format::Hsv => Err(Unsupported { format: fmt }),
            Format::Cmyk => Err(Unsupported { format: fmt }),
        }
    }

    fn convert_to_hex(self) -> (r: String)
        ensures
            r@ == hex_text(self.red, self.green, self.blue),
    {
        Rgb::from_color(self).to_hex()
    }

    fn convert_to_rgb(self) -> (r: String)
        ensures
            r@ == call_text("rgb"@, self.red as int, self.green as int, self.blue as int),
    {
        Rgb::from_color(self).to_rgb()
    }

    fn convert_to_hsl(self) -> (r: String)
        ensures
            r@ == call_text(
                "hsl"@,
                hue_of(self.red as int, self.green as int, self.blue as int),
                hsl_saturation_of(self.red as int, self.green as int, self.blue as int),
                hsl_lightness_of(self.red as int, self.green as int, self.blue as int),
            ),
    {
        rgb_to_hsl(Rgb::from_color(self)).to_string()
    }
}

} // verus!
