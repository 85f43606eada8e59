//! Laws that relate the parser and the renderings.

use crate::color::Color;
use crate::convert::hex_text;
use crate::grammar::{all_hex, color_of, hex_color};
use crate::text::{ascii_lower, digit_char, hex_value, is_hex_digit};
use vstd::prelude::*;

verus! {

proof fn lemma_digit_of_value(c: char)
    requires
        is_hex_digit(c),
    ensures
        0 <= hex_value(c) < 16,
        digit_char(hex_value(c)) == ascii_lower(c),
{
}

proof fn lemma_byte_digits(a: int, b: int)
    requires
        0 <= a < 16,
        0 <= b < 16,
    ensures
        (16 * a + b) / 16 == a,
        (16 * a + b) % 16 == b,
        0 <= 16 * a + b < 256,
{
}

/// Six hexadecimal digits parse to a color whose hex rendering is the same
/// digits in lower case.
pub proof fn lemma_hex_round_trip(s: Seq<char>)
    requires
        s.len() == 6,
        all_hex(s),
    ensures
        color_of(s) is Some,
        hex_text(color_of(s)->0.red, color_of(s)->0.green, color_of(s)->0.blue) == s.map_values(
            |c: char| ascii_lower(c),
        ),
{
    let c = color_of(s)->0;
    assert(hex_color(s) is Some);
    assert forall|i: int| 0 <= i < 6 implies digit_char(hex_value(s[i])) == ascii_lower(
        #[trigger] s[i],
    ) && 0 <= hex_value(s[i]) < 16 by {
        lemma_digit_of_value(s[i]);
    }
    lemma_byte_digits(hex_value(s[0]), hex_value(s[1]));
    lemma_byte_digits(hex_value(s[2]), hex_value(s[3]));
    lemma_byte_digits(hex_value(s[4]), hex_value(s[5]));
    assert(hex_text(c.red, c.green, c.blue) =~= s.map_values(|c: char| ascii_lower(c)));
}

/// Three hexadecimal digits denote the same color as the six digits that
/// repeat each of them.
pub proof fn lemma_shorthand(s: Seq<char>)
    requires
        s.len() == 3,
        all_hex(s),
    ensures
        color_of(s) is Some,
        color_of(s) == color_of(seq![s[0], s[0], s[1], s[1], s[2], s[2]]),
{
    let t = seq![s[0], s[0], s[1], s[1], s[2], s[2]];
    assert(is_hex_digit(s[0]) && is_hex_digit(s[1]) && is_hex_digit(s[2]));
    assert(all_hex(t));
    assert(hex_color(s) is Some);
    assert(hex_color(t) is Some);
}

} // verus!
