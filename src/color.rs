//! Color values and exact integer color-space conversions.
//!
//! All conversions work on exact rational values: each fractional quantity is
//! kept as a numerator over a fixed denominator and rounded to the nearest
//! integer (halves upward) only once, at the end.

use vstd::prelude::*;

verus! {

/// Rounds the non-negative rational `n / d` to the nearest integer, halves upward.
pub open spec fn round_div(n: int, d: int) -> int {
    (2 * n + d) / (2 * d)
}

pub open spec fn max3(a: int, b: int, c: int) -> int {
    if a >= b && a >= c { a } else if b >= c { b } else { c }
}

pub open spec fn min3(a: int, b: int, c: int) -> int {
    if a <= b && a <= c { a } else if b <= c { b } else { c }
}

pub open spec fn abs(x: int) -> int {
    if x < 0 { -x } else { x }
}

/// Hue in degrees times the chroma, before rounding: the channel that holds the
/// maximum picks one of the three pieces; a negative result is moved into [0, 360).
pub open spec fn hue_scaled(r: int, g: int, b: int) -> int {
    let mx = max3(r, g, b);
    let d = mx - min3(r, g, b);
    let raw = if mx == r {
        60 * (g - b)
    } else if mx == g {
        120 * d + 60 * (b - r)
    } else {
        240 * d + 60 * (r - g)
    };
    if raw < 0 { raw + 360 * d } else { raw }
}

/// The hue shared by HSL and HSV, rounded to whole degrees and kept below 360.
pub open spec fn hue_of(r: int, g: int, b: int) -> int {
    let d = max3(r, g, b) - min3(r, g, b);
    if d == 0 { 0 } else { round_div(hue_scaled(r, g, b), d) % 360 }
}

/// HSL lightness in percent: `(max + min) / 2` over 255.
pub open spec fn hsl_lightness_of(r: int, g: int, b: int) -> int {
    round_div(100 * (max3(r, g, b) + min3(r, g, b)), 510)
}

/// HSL saturation in percent: `delta / (1 - |2 * lightness - 1|)`.
pub open spec fn hsl_saturation_of(r: int, g: int, b: int) -> int {
    let mx = max3(r, g, b);
    let mn = min3(r, g, b);
    if mx == mn { 0 } else { round_div(100 * (mx - mn), 255 - abs(mx + mn - 255)) }
}

/// HSV value in percent: the maximum channel over 255.
pub open spec fn hsv_value_of(r: int, g: int, b: int) -> int {
    round_div(100 * max3(r, g, b), 255)
}

/// HSV saturation in percent: `delta / max`.
pub open spec fn hsv_saturation_of(r: int, g: int, b: int) -> int {
    let mx = max3(r, g, b);
    let mn = min3(r, g, b);
    if mx == mn { 0 } else { round_div(100 * (mx - mn), mx) }
}

/// Chroma of an HSL triple, in units of 1/10000.
pub open spec fn hsl_chroma(s: int, l: int) -> int {
    (100 - abs(2 * l - 100)) * s
}

/// The middle component `x` of an HSL triple, in units of 1/600000.
pub open spec fn hsl_second(h: int, s: int, l: int) -> int {
    hsl_chroma(s, l) * (60 - abs(h % 120 - 60))
}

/// The offset `m = l - c / 2` of an HSL triple, in units of 1/600000.
pub open spec fn hsl_offset(s: int, l: int) -> int {
    6000 * l - 30 * hsl_chroma(s, l)
}

/// The `(r1, g1, b1)` components of the sextant that `h` falls in, in units of 1/600000.
pub open spec fn hsl_components(h: int, s: int, l: int) -> (int, int, int) {
    let c = 60 * hsl_chroma(s, l);
    let x = hsl_second(h, s, l);
    let sextant = h / 60;
    if sextant == 0 {
        (c, x, 0)
    } else if sextant == 1 {
        (x, c, 0)
    } else if sextant == 2 {
        (0, c, x)
    } else if sextant == 3 {
        (0, x, c)
    } else if sextant == 4 {
        (x, 0, c)
    } else {
        (c, 0, x)
    }
}

/// One 8-bit channel from a component and the offset: `round((v + m) * 255)`.
pub open spec fn hsl_channel(v: int, s: int, l: int) -> int {
    round_div(255 * (v + hsl_offset(s, l)), 600000)
}

/// The red, green and blue channels of an HSL triple.
pub open spec fn hsl_to_rgb_spec(h: int, s: int, l: int) -> (int, int, int) {
    let (r1, g1, b1) = hsl_components(h, s, l);
    (hsl_channel(r1, s, l), hsl_channel(g1, s, l), hsl_channel(b1, s, l))
}

/// Chroma of an HSV triple, in units of 1/10000.
pub open spec fn hsv_chroma(s: int, v: int) -> int {
    v * s
}

/// The red, green and blue channels of an HSV triple: chroma `c = v * s`,
/// second component as for HSL, offset `m = v - c`.
pub open spec fn hsv_to_rgb_spec(h: int, s: int, v: int) -> (int, int, int) {
    let c = 60 * hsv_chroma(s, v);
    let x = hsv_chroma(s, v) * (60 - abs(h % 120 - 60));
    let m = 6000 * v - c;
    let sextant = h / 60;
    let (r1, g1, b1) = if sextant == 0 {
        (c, x, 0)
    } else if sextant == 1 {
        (x, c, 0)
    } else if sextant == 2 {
        (0, c, x)
    } else if sextant == 3 {
        (0, x, c)
    } else if sextant == 4 {
        (x, 0, c)
    } else {
        (c, 0, x)
    };
    (
        round_div(255 * (r1 + m), 600000),
        round_div(255 * (g1 + m), 600000),
        round_div(255 * (b1 + m), 600000),
    )
}

/// The canonical color: three 8-bit channels.
#[derive(Debug, Clone, Copy, PartialEq, Eq, PartialOrd, Ord, Structural)]
pub struct Color {
    pub red: u8,
    pub green: u8,
    pub blue: u8,
}

/// A color as its red, green and blue channels.
#[derive(Debug, Clone, Copy, PartialEq, Eq, PartialOrd, Ord, Structural)]
pub struct Rgb {
    pub red: u8,
    pub green: u8,
    pub blue: u8,
}

/// A color as hue (degrees), saturation and lightness (percent).
#[derive(Debug, Clone, Copy, PartialEq, Eq, PartialOrd, Ord, Structural)]
pub struct Hsl {
    pub hue: u16,
    pub saturation: u8,
    pub lightness: u8,
}

/// A color as hue (degrees), saturation and value (percent).
#[derive(Debug, Clone, Copy, PartialEq, Eq, PartialOrd, Ord, Structural)]
pub struct Hsv {
    pub hue: u16,
    pub saturation: u8,
    pub value: u8,
}

impl Hsl {
    /// Hue below 360, saturation and lightness at most 100.
    pub open spec fn wf(self) -> bool {
        self.hue < 360 && self.saturation <= 100 && self.lightness <= 100
    }

    pub fn into_tuple(self) -> (r: (u16, u8, u8))
        ensures
            r == (self.hue, self.saturation, self.lightness),
    {
        (self.hue, self.saturation, self.lightness)
    }
}

/// The component of an HSL or HSV color that is out of its range.
#[derive(Clone, Copy, Debug, PartialEq, Eq, Structural)]
pub enum OutOfRange {
    Saturation,
    Lightness,
    Value,
}

/// The message for a component that is out of its range.
pub open spec fn out_of_range_message(c: OutOfRange) -> Seq<char> {
    match c {
        OutOfRange::Saturation => "Saturation must be in range 0..100"@,
        OutOfRange::Lightness => "Lightness must be in range 0..100"@,
        OutOfRange::Value => "Value must be in range 0..100"@,
    }
}

impl OutOfRange {
    pub fn message(self) -> (r: String)
        ensures
            r@ == out_of_range_message(self),
    {
        match self {
            OutOfRange::Saturation => String::from_str("Saturation must be in range 0..100"),
            OutOfRange::Lightness => String::from_str("Lightness must be in range 0..100"),
            OutOfRange::Value => String::from_str("Value must be in range 0..100"),
        }
    }
}

impl Hsl {
    /// An HSL color from hue, saturation and lightness: the hue is taken modulo
    /// 360; a saturation, then a lightness, above 100 is named in the error.
    pub fn from_parts(hue: u16, saturation: u16, lightness: u16) -> (r: Result<Hsl, OutOfRange>)
        ensures
            r == (if saturation > 100 {
                Err(OutOfRange::Saturation)
            } else if lightness > 100 {
                Err(OutOfRange::Lightness)
            } else {
                Ok(Hsl { hue: hue % 360, saturation: saturation as u8, lightness: lightness as u8 })
            }),
            r matches Ok(h) ==> h.wf(),
    {
        if saturation > 100 {
            Err(OutOfRange::Saturation)
        } else if lightness > 100 {
            Err(OutOfRange::Lightness)
        } else {
            Ok(Hsl { hue: hue % 360, saturation: saturation as u8, lightness: lightness as u8 })
        }
    }
}

impl Hsv {
    /// An HSV color from hue, saturation and value: the hue is taken modulo
    /// 360; a saturation, then a value, above 100 is named in the error.
    pub fn from_parts(hue: u16, saturation: u16, value: u16) -> (r: Result<Hsv, OutOfRange>)
        ensures
            r == (if saturation > 100 {
                Err(OutOfRange::Saturation)
            } else if value > 100 {
                Err(OutOfRange::Value)
            } else {
                Ok(Hsv { hue: hue % 360, saturation: saturation as u8, value: value as u8 })
            }),
            r matches Ok(h) ==> h.wf(),
    {
        if saturation > 100 {
            Err(OutOfRange::Saturation)
        } else if value > 100 {
            Err(OutOfRange::Value)
        } else {
            Ok(Hsv { hue: hue % 360, saturation: saturation as u8, value: value as u8 })
        }
    }

    /// Hue below 360, saturation and value at most 100.
    pub open spec fn wf(self) -> bool {
        self.hue < 360 && self.saturation <= 100 && self.value <= 100
    }

    pub fn into_tuple(self) -> (r: (u16, u8, u8))
        ensures
            r == (self.hue, self.saturation, self.value),
    {
        (self.hue, self.saturation, self.value)
    }
}

impl Rgb {
    pub fn into_tuple(self) -> (r: (u8, u8, u8))
        ensures
            r == (self.red, self.green, self.blue),
    {
        (self.red, self.green, self.blue)
    }

    pub fn from_color(c: Color) -> (r: Rgb)
        ensures
            r.red == c.red && r.green == c.green && r.blue == c.blue,
    {
        Rgb { red: c.red, green: c.green, blue: c.blue }
    }

    pub fn to_color(self) -> (r: Color)
        ensures
            r.red == self.red && r.green == self.green && r.blue == self.blue,
    {
        Color { red: self.red, green: self.green, blue: self.blue }
    }
}

proof fn lemma_round_div_bound(n: int, d: int, k: int)
    requires
        d > 0,
        0 <= n <= k * d,
    ensures
        0 <= round_div(n, d) <= k,
{
    let q = round_div(n, d);
    vstd::arithmetic::div_mod::lemma_fundamental_div_mod(2 * n + d, 2 * d);
    let m = (2 * n + d) % (2 * d);
    assert(0 <= m < 2 * d) by {
        vstd::arithmetic::div_mod::lemma_mod_pos_bound(2 * n + d, 2 * d);
    }
    assert(2 * n + d == 2 * d * q + m);
    assert(q <= k) by (nonlinear_arith)
        requires
            2 * n + d == 2 * d * q + m,
            0 <= m,
            n <= k * d,
            d > 0,
    ;
    assert(q >= 0) by (nonlinear_arith)
        requires
            2 * n + d == 2 * d * q + m,
            m < 2 * d,
            n >= 0,
            d > 0,
    ;
}

/// `round_div` computed on machine integers.
fn round_div_exec(n: u64, d: u64) -> (r: u64)
    requires
        d > 0,
        n <= 1_000_000_000,
        d <= 1_000_000_000,
    ensures
        r == round_div(n as int, d as int),
{
    (2 * n + d) / (2 * d)
}

/// Converts RGB to HSL: lightness from the mean of the extreme channels,
/// saturation from the chroma, hue from the channel that holds the maximum.
pub fn rgb_to_hsl(rgb: Rgb) -> (r: Hsl)
    ensures
        r.wf(),
        r.hue == hue_of(rgb.red as int, rgb.green as int, rgb.blue as int),
        r.saturation == hsl_saturation_of(rgb.red as int, rgb.green as int, rgb.blue as int),
        r.lightness == hsl_lightness_of(rgb.red as int, rgb.green as int, rgb.blue as int),
{
    let (red, green, blue) = rgb.into_tuple();
    let (mx, mn) = extremes(red, green, blue);
    let hue = hue_degrees(red, green, blue);
    let sum: u64 = mx as u64 + mn as u64;
    proof {
        lemma_round_div_bound(100 * sum as int, 510, 100);
    }
    let lightness = round_div_exec(100 * sum, 510);
    let saturation: u64 = if mx == mn {
        0
    } else {
        let den: u64 = if sum >= 255 { 510 - sum } else { sum };
        proof {
            lemma_round_div_bound(100 * (mx - mn) as int, den as int, 100);
        }
        round_div_exec(100 * (mx - mn) as u64, den)
    };
    Hsl { hue, saturation: saturation as u8, lightness: lightness as u8 }
}

/// Converts RGB to HSV: value from the maximum channel, saturation as
/// chroma over the maximum, hue as for HSL.
pub fn rgb_to_hsv(rgb: Rgb) -> (r: Hsv)
    ensures
        r.wf(),
        r.hue == hue_of(rgb.red as int, rgb.green as int, rgb.blue as int),
        r.saturation == hsv_saturation_of(rgb.red as int, rgb.green as int, rgb.blue as int),
        r.value == hsv_value_of(rgb.red as int, rgb.green as int, rgb.blue as int),
{
    let (red, green, blue) = rgb.into_tuple();
    let (mx, mn) = extremes(red, green, blue);
    let hue = hue_degrees(red, green, blue);
    proof {
        lemma_round_div_bound(100 * mx as int, 255, 100);
    }
    let value = round_div_exec(100 * mx as u64, 255);
    let saturation: u64 = if mx == mn {
        0
    } else {
        proof {
            lemma_round_div_bound(100 * (mx - mn) as int, mx as int, 100);
        }
        round_div_exec(100 * (mx - mn) as u64, mx as u64)
    };
    Hsv { hue, saturation: saturation as u8, value: value as u8 }
}

fn extremes(r: u8, g: u8, b: u8) -> (res: (u8, u8))
    ensures
        res.0 == max3(r as int, g as int, b as int),
        res.1 == min3(r as int, g as int, b as int),
{
    let mx = if r >= g && r >= b { r } else if g >= b { g } else { b };
    let mn = if r <= g && r <= b { r } else if g <= b { g } else { b };
    (mx, mn)
}

fn hue_degrees(r: u8, g: u8, b: u8) -> (h: u16)
    ensures
        h == hue_of(r as int, g as int, b as int),
        h < 360,
{
    let (mx, mn) = extremes(r, g, b);
    if mx == mn {
        return 0;
    }
    let d: i64 = mx as i64 - mn as i64;
    let raw: i64 = if mx == r {
        60 * (g as i64 - b as i64)
    } else if mx == g {
        120 * d + 60 * (b as i64 - r as i64)
    } else {
        240 * d + 60 * (r as i64 - g as i64)
    };
    let scaled: i64 = if raw < 0 { raw + 360 * d } else { raw };
    assert(scaled == hue_scaled(r as int, g as int, b as int));
    assert(0 <= scaled <= 420 * d);
    let h = round_div_exec(scaled as u64, d as u64) % 360;
    h as u16
}

/// Converts HSL to RGB: chroma `c`, second component `x` and offset `m`;
/// the hue's sextant places `c` and `x` among the channels.
pub fn hsl_to_rgb(hsl: Hsl) -> (r: Rgb)
    requires
        hsl.wf(),
    ensures
        (r.red as int, r.green as int, r.blue as int) == hsl_to_rgb_spec(
            hsl.hue as int,
            hsl.saturation as int,
            hsl.lightness as int,
        ),
{
    let h = hsl.hue as u64;
    let s = hsl.saturation as u64;
    let l = hsl.lightness as u64;
    let span: u64 = if l >= 50 { 200 - 2 * l } else { 2 * l };
    assert(span == 100 - abs(2 * l - 100));
    assert(span * s <= 20000) by (nonlinear_arith)
        requires span <= 200, s <= 100;
    let c: u64 = span * s;
    proof {
        assert(c <= span * 100) by (nonlinear_arith)
            requires c == span * s, s <= 100;
        assert(c <= 200 * l && c + 200 * l <= 20000) by (nonlinear_arith)
            requires c <= span * 100, span == (if l >= 50 { 200 - 2 * l } else { 2 * l }), l <= 100;
    }
    let hm: u64 = h % 120;
    let tri: u64 = if hm >= 60 { 120 - hm } else { hm };
    assert(tri == 60 - abs(h % 120 - 60));
    assert(c * tri <= 1_200_000) by (nonlinear_arith)
        requires c <= 20000, tri <= 60;
    let x: u64 = c * tri;
    proof {
        assert(x <= c * 60) by (nonlinear_arith)
            requires x == c * tri, tri <= 60;
    }
    let m: u64 = 6000 * l - 30 * c;
    let cc: u64 = 60 * c;
    let (r1, g1, b1) = if h < 60 {
        (cc, x, 0)
    } else if h < 120 {
        (x, cc, 0)
    } else if h < 180 {
        (0, cc, x)
    } else if h < 240 {
        (0, x, cc)
    } else if h < 300 {
        (x, 0, cc)
    } else {
        (cc, 0, x)
    };
    proof {
        lemma_round_div_bound(255 * (r1 + m), 600000, 255);
        lemma_round_div_bound(255 * (g1 + m), 600000, 255);
        lemma_round_div_bound(255 * (b1 + m), 600000, 255);
    }
    let red = round_div_exec(255 * (r1 + m), 600000);
    let green = round_div_exec(255 * (g1 + m), 600000);
    let blue = round_div_exec(255 * (b1 + m), 600000);
    Rgb { red: red as u8, green: green as u8, blue: blue as u8 }
}

/// Converts HSV to RGB: chroma `c = v * s`, second component `x` and offset
/// `m = v - c`; the hue's sextant places `c` and `x` among the channels.
pub fn hsv_to_rgb(hsv: Hsv) -> (r: Rgb)
    requires
        hsv.wf(),
    ensures
        (r.red as int, r.green as int, r.blue as int) == hsv_to_rgb_spec(
            hsv.hue as int,
            hsv.saturation as int,
            hsv.value as int,
        ),
{
    let h = hsv.hue as u64;
    let s = hsv.saturation as u64;
    let v = hsv.value as u64;
    assert(v * s <= 100 * v) by (nonlinear_arith)
        requires s <= 100;
    let c: u64 = v * s;
    let hm: u64 = h % 120;
    let tri: u64 = if hm >= 60 { 120 - hm } else { hm };
    assert(tri == 60 - abs(h % 120 - 60));
    assert(c * tri <= c * 60) by (nonlinear_arith)
        requires tri <= 60;
    let x: u64 = c * tri;
    let cc: u64 = 60 * c;
    let m: u64 = 6000 * v - cc;
    let (r1, g1, b1) = if h < 60 {
        (cc, x, 0)
    } else if h < 120 {
        (x, cc, 0)
    } else if h < 180 {
        (0, cc, x)
    } else if h < 240 {
        (0, x, cc)
    } else if h < 300 {
        (x, 0, cc)
    } else {
        (cc, 0, x)
    };
    proof {
        lemma_round_div_bound(255 * (r1 + m), 600000, 255);
        lemma_round_div_bound(255 * (g1 + m), 600000, 255);
        lemma_round_div_bound(255 * (b1 + m), 600000, 255);
    }
    let red = round_div_exec(255 * (r1 + m), 600000);
    let green = round_div_exec(255 * (g1 + m), 600000);
    let blue = round_div_exec(255 * (b1 + m), 600000);
    Rgb { red: red as u8, green: green as u8, blue: blue as u8 }
}

} // verus!
