//! The grammar of color notations, on the characters of the input:
//!
//! ```text
//! color    := hex | rgb_call | hsl_call
//! hex      := hexdigit{6} | hexdigit{3}
//! rgb_call := "rgb" "(" num{1,3} "," ws* num{1,3} "," ws* num{1,3} ")"
//! hsl_call := "hsl" "(" num{1,3} "," ws* num{1,3} "," ws* num{1,3} ")"
//! ```
//!
//! The prefix letters match in either case; numbers are decimal.

use crate::color::{hsl_to_rgb, hsl_to_rgb_spec, out_of_range_message, Color, Hsl, OutOfRange};
use crate::error::{lemma_unique_contains, strs, unique_seq, CustomError};
use crate::text::{
    decimal, hex_value, hex_value_exec, is_dec_digit, is_hex_digit, is_radix_digit,
    is_radix_digit_exec,
    is_hex_digit_exec, is_space, is_space_exec, push_decimal, ascii_lower, same_letter_ci,
};
use vstd::prelude::*;

verus! {

/// What a grammar rule expected where it stopped.
#[derive(Debug, Clone, Copy, PartialEq, Eq, Structural)]
pub enum Expect {
    /// The call's name and its opening parenthesis.
    Prefix,
    /// A decimal digit.
    Digit,
    /// The separator between two numbers.
    Separator,
    /// The closing parenthesis.
    Close,
    /// The end of the input.
    End,
}

/// The shape of one number field: one to `width` digits in `radix`.
#[derive(Clone, Copy, Debug, PartialEq, Eq, Structural)]
pub struct FieldShape {
    pub width: usize,
    pub radix: u32,
}

impl FieldShape {
    /// A width of at least one digit and a radix from 2 to 36.
    pub open spec fn wf(self) -> bool {
        self.width >= 1 && 2 <= self.radix <= 36
    }
}

/// The fields of a call: one to three decimal digits.
pub open spec fn number_field() -> FieldShape {
    FieldShape { width: 3, radix: 10 }
}

// ---------------------------------------------------------------------------
// The grammar as spec functions
// ---------------------------------------------------------------------------

/// How many digits in `radix`, at most `max`, stand from `i` on.
pub open spec fn digit_run(s: Seq<char>, i: int, max: int, radix: int) -> int
    decreases max,
{
    if max <= 0 || i < 0 || i >= s.len() || !is_radix_digit(s[i], radix) {
        0
    } else {
        1 + digit_run(s, i + 1, max - 1, radix)
    }
}

/// How many whitespace characters stand from `i` on.
pub open spec fn space_run(s: Seq<char>, i: int) -> int
    decreases s.len() - i,
{
    if 0 <= i < s.len() && is_space(s[i]) {
        1 + space_run(s, i + 1)
    } else {
        0
    }
}

/// The value of a run of decimal digits.
pub open spec fn dec_value(t: Seq<char>) -> int
    decreases t.len(),
{
    if t.len() == 0 {
        0
    } else {
        10 * dec_value(t.drop_last()) + hex_value(t.last())
    }
}

/// Where the `k`-th number of a separated list that begins at `p0` begins.
pub open spec fn field_start(s: Seq<char>, p0: int, f: FieldShape, k: nat) -> int
    decreases k, 0int,
{
    if k == 0 {
        p0
    } else {
        let e = field_end(s, p0, f, (k - 1) as nat);
        e + 1 + space_run(s, e + 1)
    }
}

/// Where the `k`-th number of a separated list that begins at `p0` ends.
pub open spec fn field_end(s: Seq<char>, p0: int, f: FieldShape, k: nat) -> int
    decreases k, 1int,
{
    let st = field_start(s, p0, f, k);
    st + digit_run(s, st, f.width as int, f.radix as int)
}

/// The digits of the `k`-th number of a separated list.
pub open spec fn field_text(s: Seq<char>, p0: int, f: FieldShape, k: nat) -> Seq<char> {
    s.subrange(field_start(s, p0, f, k), field_end(s, p0, f, k))
}

/// Where a list of `count` numbers separated by `sep` stops matching, from its
/// `k`-th number on; `None` if it matches.
pub open spec fn fields_stuck(
    s: Seq<char>,
    p0: int,
    f: FieldShape,
    count: nat,
    sep: char,
    k: nat,
) -> Option<
    (int, Expect),
>
    decreases count - k,
{
    if k >= count {
        None
    } else {
        let st = field_start(s, p0, f, k);
        let e = field_end(s, p0, f, k);
        if e == st {
            Some((st, Expect::Digit))
        } else if k + 1 < count {
            if e < s.len() && s[e] == sep {
                fields_stuck(s, p0, f, count, sep, k + 1)
            } else {
                Some((e, Expect::Separator))
            }
        } else {
            None
        }
    }
}

/// The input begins with the letters of `lit` in either case and then `(`.
pub open spec fn prefix_ok(s: Seq<char>, lit: Seq<char>) -> bool {
    &&& s.len() > lit.len()
    &&& forall|i: int| 0 <= i < lit.len() ==> ascii_lower(#[trigger] s[i]) == lit[i]
    &&& s[lit.len() as int] == '('
}

/// Where a call of `lit` with three numbers stops matching; `None` if it matches.
pub open spec fn call_stuck(s: Seq<char>, lit: Seq<char>) -> Option<(int, Expect)> {
    if !prefix_ok(s, lit) {
        Some((0, Expect::Prefix))
    } else {
        let p0 = lit.len() + 1int;
        match fields_stuck(s, p0, number_field(), 3, ',', 0) {
            Some(x) => Some(x),
            None => {
                let e = field_end(s, p0, number_field(), 2);
                if !(e < s.len() && s[e] == ')') {
                    Some((e, Expect::Close))
                } else if e + 1 != s.len() {
                    Some((e + 1, Expect::End))
                } else {
                    None
                }
            },
        }
    }
}

/// The `k`-th number of a call of `lit`.
pub open spec fn call_value(s: Seq<char>, lit: Seq<char>, k: nat) -> int {
    dec_value(field_text(s, lit.len() + 1int, number_field(), k))
}

pub open spec fn rgb_lit() -> Seq<char> {
    seq!['r', 'g', 'b']
}

pub open spec fn hsl_lit() -> Seq<char> {
    seq!['h', 's', 'l']
}

pub open spec fn all_hex(s: Seq<char>) -> bool {
    forall|i: int| 0 <= i < s.len() ==> is_hex_digit(#[trigger] s[i])
}

/// The first position, at most 6, from which the hex rule cannot go on.
pub open spec fn hex_run(s: Seq<char>, i: int) -> int
    decreases 6 - i,
{
    if 0 <= i < 6 && i < s.len() && is_hex_digit(s[i]) {
        hex_run(s, i + 1)
    } else {
        i
    }
}

/// The color of a hex notation: two digits per channel, or one digit per
/// channel that stands for itself twice.
pub open spec fn hex_color(s: Seq<char>) -> Option<Color> {
    if all_hex(s) && s.len() == 6 {
        Some(
            Color {
                red: (16 * hex_value(s[0]) + hex_value(s[1])) as u8,
                green: (16 * hex_value(s[2]) + hex_value(s[3])) as u8,
                blue: (16 * hex_value(s[4]) + hex_value(s[5])) as u8,
            },
        )
    } else if all_hex(s) && s.len() == 3 {
        Some(
            Color {
                red: (17 * hex_value(s[0])) as u8,
                green: (17 * hex_value(s[1])) as u8,
                blue: (17 * hex_value(s[2])) as u8,
            },
        )
    } else {
        None
    }
}

/// The three numbers of an `rgb(...)` call are channels.
pub open spec fn rgb_in_range(s: Seq<char>) -> bool {
    call_value(s, rgb_lit(), 0) <= 255 && call_value(s, rgb_lit(), 1) <= 255 && call_value(
        s,
        rgb_lit(),
        2,
    ) <= 255
}

/// Saturation and lightness of an `hsl(...)` call are percentages.
pub open spec fn hsl_in_range(s: Seq<char>) -> bool {
    call_value(s, hsl_lit(), 1) <= 100 && call_value(s, hsl_lit(), 2) <= 100
}

pub open spec fn rgb_color(s: Seq<char>) -> Option<Color> {
    if call_stuck(s, rgb_lit()) is None && rgb_in_range(s) {
        Some(
            Color {
                red: call_value(s, rgb_lit(), 0) as u8,
                green: call_value(s, rgb_lit(), 1) as u8,
                blue: call_value(s, rgb_lit(), 2) as u8,
            },
        )
    } else {
        None
    }
}

/// The color of an `hsl(...)` call; the hue is taken modulo 360.
pub open spec fn hsl_color(s: Seq<char>) -> Option<Color> {
    if call_stuck(s, hsl_lit()) is None && hsl_in_range(s) {
        let rgb = hsl_to_rgb_spec(
            call_value(s, hsl_lit(), 0) % 360,
            call_value(s, hsl_lit(), 1),
            call_value(s, hsl_lit(), 2),
        );
        Some(Color { red: rgb.0 as u8, green: rgb.1 as u8, blue: rgb.2 as u8 })
    } else {
        None
    }
}

/// The color that an input denotes: hex first, then `rgb(...)`, then `hsl(...)`.
pub open spec fn color_of(s: Seq<char>) -> Option<Color> {
    if hex_color(s) is Some {
        hex_color(s)
    } else if rgb_color(s) is Some {
        rgb_color(s)
    } else {
        hsl_color(s)
    }
}

/// A call that is well formed but whose numbers are out of range.
pub open spec fn rgb_out_of_range(s: Seq<char>) -> bool {
    call_stuck(s, rgb_lit()) is None && !rgb_in_range(s)
}

pub open spec fn hsl_out_of_range(s: Seq<char>) -> bool {
    call_stuck(s, hsl_lit()) is None && !hsl_in_range(s)
}

// ---------------------------------------------------------------------------
// Diagnostics as spec functions
// ---------------------------------------------------------------------------

pub open spec fn hex_label() -> Seq<char> {
    "Hex digit"@
}

pub open spec fn rgb_range_label() -> Seq<char> {
    "Value in range 0-255"@
}

/// What the range diagnostic of an `hsl(...)` call expects: the first of
/// saturation and lightness that exceeds 100 is named.
pub open spec fn hsl_range_label(s: Seq<char>) -> Seq<char> {
    if call_value(s, hsl_lit(), 1) > 100 {
        out_of_range_message(OutOfRange::Saturation)
    } else {
        out_of_range_message(OutOfRange::Lightness)
    }
}

/// What a digit in `radix` is called in a diagnostic.
pub open spec fn digit_label(radix: int) -> Seq<char> {
    "a digit in radix "@ + decimal(radix as nat)
}

/// What a rule expected where it stopped.
pub open spec fn expect_label(kind: Expect, lit: Seq<char>, sep: char, radix: int) -> Seq<char> {
    match kind {
        Expect::Prefix => lit.push('('),
        Expect::Digit => digit_label(radix),
        Expect::Separator => seq![sep],
        Expect::Close => ")"@,
        Expect::End => "end of input"@,
    }
}

/// What the diagnostic of a failed call of `lit` expects.
pub open spec fn call_label(s: Seq<char>, lit: Seq<char>, range_label: Seq<char>) -> Seq<char> {
    match call_stuck(s, lit) {
        Some((_, kind)) => expect_label(kind, lit, ',', 10),
        None => range_label,
    }
}

/// A syntax diagnostic at `pos`: the character there, or nothing at the end.
pub open spec fn is_syntax_error(e: CustomError, s: Seq<char>, pos: int, label: Seq<char>) -> bool {
    &&& e.msg@ == "Unexpected input. Expected"@
    &&& e.span.start == pos
    &&& e.span.end == if pos < s.len() { pos + 1 } else { pos }
    &&& strs(e.expected@) == seq![label]
    &&& strs(e.found@) == if pos < s.len() { seq![seq![s[pos]]] } else { Seq::empty() }
}

/// What stands where a prefix `lit` should: the characters in place of its
/// letters as one token, then the character in place of `(`, if any.
pub open spec fn prefix_found(s: Seq<char>, lit: Seq<char>) -> Seq<Seq<char>> {
    if s.len() <= lit.len() {
        seq![s]
    } else {
        seq![s.subrange(0, lit.len() as int), seq![s[lit.len() as int]]]
    }
}

/// A diagnostic of a prefix that does not match: it covers the characters that
/// stand where the prefix should.
pub open spec fn is_prefix_error(e: CustomError, s: Seq<char>, lit: Seq<char>) -> bool {
    let end = if s.len() < lit.len() + 1 { s.len() as int } else { lit.len() + 1int };
    &&& e.msg@ == "Unexpected input. Expected"@
    &&& e.span.start == 0
    &&& e.span.end == end
    &&& strs(e.expected@) == seq![lit.push('(')]
    &&& strs(e.found@) == prefix_found(s, lit)
}

// ---------------------------------------------------------------------------
// Lemmas
// ---------------------------------------------------------------------------

proof fn lemma_digit_run(s: Seq<char>, i: int, max: int, radix: int, n: int)
    requires
        0 <= i,
        0 <= n <= max,
        i + n <= s.len(),
        forall|j: int| i <= j < i + n ==> is_radix_digit(#[trigger] s[j], radix),
        n == max || i + n == s.len() || !is_radix_digit(s[i + n], radix),
    ensures
        digit_run(s, i, max, radix) == n,
    decreases n,
{
    if n > 0 {
        lemma_digit_run(s, i + 1, max - 1, radix, n - 1);
    }
}

proof fn lemma_space_run(s: Seq<char>, i: int, n: int)
    requires
        0 <= i,
        0 <= n,
        i + n <= s.len(),
        forall|j: int| i <= j < i + n ==> is_space(#[trigger] s[j]),
        i + n == s.len() || !is_space(s[i + n]),
    ensures
        space_run(s, i) == n,
    decreases n,
{
    if n > 0 {
        lemma_space_run(s, i + 1, n - 1);
    }
}

proof fn lemma_hex_run(s: Seq<char>, i: int, n: int)
    requires
        0 <= i <= n <= 6,
        n <= s.len(),
        forall|j: int| i <= j < n ==> is_hex_digit(#[trigger] s[j]),
        n == 6 || n == s.len() || !is_hex_digit(s[n]),
    ensures
        hex_run(s, i) == n,
    decreases n - i,
{
    if i < n {
        lemma_hex_run(s, i + 1, n);
    }
}

proof fn lemma_fields_stuck_kind(
    s: Seq<char>,
    p0: int,
    f: FieldShape,
    count: nat,
    sep: char,
    k: nat,
)
    ensures
        match fields_stuck(s, p0, f, count, sep, k) {
            Some((_, kind)) => kind == Expect::Digit || kind == Expect::Separator,
            None => true,
        },
    decreases count - k,
{
    if k < count {
        lemma_fields_stuck_kind(s, p0, f, count, sep, k + 1);
    }
}

proof fn lemma_fields_stuck_step(
    s: Seq<char>,
    p0: int,
    f: FieldShape,
    count: nat,
    sep: char,
    k: nat,
)
    requires
        k < count,
        field_end(s, p0, f, k) > field_start(s, p0, f, k),
        k + 1 < count,
        field_end(s, p0, f, k) < s.len(),
        s[field_end(s, p0, f, k)] == sep,
    ensures
        fields_stuck(s, p0, f, count, sep, k) == fields_stuck(s, p0, f, count, sep, k + 1),
{
}

// ---------------------------------------------------------------------------
// Primitives
// ---------------------------------------------------------------------------

/// The characters of a string.
pub fn chars_of(input: &str) -> (r: Vec<char>)
    ensures
        r@ == input@,
{
    let n = input.unicode_len();
    let mut r: Vec<char> = Vec::new();
    let mut i: usize = 0;
    while i < n
        invariant
            n == input@.len(),
            i <= n,
            r@ == input@.subrange(0, i as int),
        decreases n - i,
    {
        r.push(input.get_char(i));
        i = i + 1;
        assert(r@ =~= input@.subrange(0, i as int));
    }
    assert(input@.subrange(0, n as int) =~= input@);
    r
}

fn char_string(c: char) -> (r: String)
    ensures
        r@ == seq![c],
{
    let mut r = String::new();
    r.push(c);
    assert(r@ =~= seq![c]);
    r
}

fn text_of(s: &[char], from: usize, to: usize) -> (r: String)
    requires
        from <= to <= s@.len(),
    ensures
        r@ == s@.subrange(from as int, to as int),
{
    let mut r = String::new();
    let mut i = from;
    while i < to
        invariant
            from <= i <= to <= s@.len(),
            r@ == s@.subrange(from as int, i as int),
        decreases to - i,
    {
        r.push(s[i]);
        i = i + 1;
        assert(r@ =~= s@.subrange(from as int, i as int));
    }
    r
}

/// A syntax diagnostic at `pos`, with the character found there, if any.
fn syntax_error(s: &[char], pos: usize, label: String) -> (e: CustomError)
    requires
        pos <= s@.len(),
    ensures
        is_syntax_error(e, s@, pos as int, label@),
{
    let mut found: Vec<String> = Vec::new();
    let end = if pos < s.len() {
        found.push(char_string(s[pos]));
        pos + 1
    } else {
        pos
    };
    let e = CustomError::expected_input_found(pos..end, label, found);
    proof {
        if pos < s@.len() {
            assert(strs(e.found@) =~= seq![seq![s@[pos as int]]]);
        } else {
            assert(strs(e.found@) =~= Seq::<Seq<char>>::empty());
        }
    }
    e
}

/// The name of a digit in `radix`, for diagnostics.
fn digit_label_exec(radix: u32) -> (r: String)
    requires
        radix <= 36,
    ensures
        r@ == digit_label(radix as int),
{
    let mut r = String::from_str("a digit in radix ");
    push_decimal(&mut r, radix as u16);
    r
}

/// One digit in `radix` (2 to 36) at `pos`.
pub fn digit(s: &[char], pos: usize, radix: u32) -> (r: Result<char, CustomError>)
    requires
        pos <= s@.len(),
        2 <= radix <= 36,
    ensures
        match r {
            Ok(c) => pos < s@.len() && c == s@[pos as int] && is_radix_digit(c, radix as int),
            Err(e) => is_syntax_error(e, s@, pos as int, digit_label(radix as int)) && !(pos
                < s@.len() && is_radix_digit(s@[pos as int], radix as int)),
        },
{
    if pos < s.len() {
        let c = s[pos];
        if is_radix_digit_exec(c, radix) {
            return Ok(c);
        }
    }
    Err(syntax_error(s, pos, digit_label_exec(radix)))
}

/// One to `max` digits in `radix` from `pos`, as many as stand there; returns
/// them and where they end.
pub fn n_digits(s: &[char], pos: usize, max: usize, radix: u32) -> (r: Result<
    (String, usize),
    CustomError,
>)
    requires
        pos <= s@.len(),
        max >= 1,
        2 <= radix <= 36,
    ensures
        match r {
            Ok((t, end)) => {
                &&& end == pos + digit_run(s@, pos as int, max as int, radix as int)
                &&& end > pos
                &&& end - pos <= max
                &&& end <= s@.len()
                &&& t@ == s@.subrange(pos as int, end as int)
                &&& forall|j: int| pos <= j < end ==> is_radix_digit(#[trigger] s@[j], radix as int)
            },
            Err(e) => digit_run(s@, pos as int, max as int, radix as int) == 0 && is_syntax_error(
                e,
                s@,
                pos as int,
                digit_label(radix as int),
            ),
        },
{
    let len = s.len();
    match digit(s, pos, radix) {
        Err(e) => {
            return Err(e);
        },
        Ok(_) => {},
    }
    let mut end = pos + 1;
    while end < len && end - pos < max && is_radix_digit_exec(s[end], radix)
        invariant
            len == s@.len(),
            pos < end <= len,
            end - pos <= max,
            2 <= radix <= 36,
            forall|j: int| pos <= j < end ==> is_radix_digit(#[trigger] s@[j], radix as int),
        decreases len - end,
    {
        end = end + 1;
    }
    proof {
        lemma_digit_run(s@, pos as int, max as int, radix as int, (end - pos) as int);
    }
    Ok((text_of(s, pos, end), end))
}

/// Whitespace from `pos` on; returns where it ends.
fn skip_space(s: &[char], pos: usize) -> (end: usize)
    requires
        pos <= s@.len(),
    ensures
        end == pos + space_run(s@, pos as int),
        end <= s@.len(),
{
    let mut end = pos;
    while end < s.len() && is_space_exec(s[end])
        invariant
            pos <= end <= s@.len(),
            forall|j: int| pos <= j < end ==> is_space(#[trigger] s@[j]),
        decreases s@.len() - end,
    {
        end = end + 1;
    }
    proof {
        lemma_space_run(s@, pos as int, (end - pos) as int);
    }
    end
}

/// The letters of `lit` in either case, then `(`. Returns the letters as found.
/// The letters of `lit` in either case, then `(`. Returns the letters as found.
pub fn prefix(s: &[char], lit: &str) -> (r: Result<String, CustomError>)
    requires
        forall|i: int| 0 <= i < lit@.len() ==> 'a' <= #[trigger] lit@[i] <= 'z',
    ensures
        match r {
            Ok(t) => prefix_ok(s@, lit@) && t@ == s@.subrange(0, lit@.len() as int),
            Err(e) => !prefix_ok(s@, lit@) && is_prefix_error(e, s@, lit@),
        },
{
    let n = lit.unicode_len();
    let len = s.len();
    if len <= n {
        let mut found: Vec<String> = Vec::new();
        found.push(text_of(s, 0, len));
        proof {
            assert(s@.subrange(0, len as int) =~= s@);
            assert(strs(found@) =~= prefix_found(s@, lit@));
        }
        return Err(prefix_error(s, lit, len, found));
    }
    let mut ok = true;
    let mut i: usize = 0;
    while ok && i < n
        invariant
            n == lit@.len(),
            len == s@.len() > n,
            i <= n,
            forall|j: int| 0 <= j < lit@.len() ==> 'a' <= #[trigger] lit@[j] <= 'z',
            ok ==> forall|j: int| 0 <= j < i ==> ascii_lower(#[trigger] s@[j]) == lit@[j],
            !ok ==> !prefix_ok(s@, lit@),
        decreases n - i + (if ok { 1int } else { 0 }),
    {
        if !same_letter_ci(s[i], lit.get_char(i)) {
            ok = false;
        } else {
            i = i + 1;
        }
    }
    if ok && s[n] == '(' {
        return Ok(text_of(s, 0, n));
    }
    let mut found: Vec<String> = Vec::new();
    found.push(text_of(s, 0, n));
    found.push(char_string(s[n]));
    proof {
        assert(strs(found@) =~= prefix_found(s@, lit@));
    }
    Err(prefix_error(s, lit, n + 1, found))
}

fn prefix_error(s: &[char], lit: &str, end: usize, found: Vec<String>) -> (e: CustomError)
    requires
        end == (if s@.len() < lit@.len() + 1 { s@.len() as int } else { lit@.len() + 1int }),
        strs(found@) == prefix_found(s@, lit@),
    ensures
        is_prefix_error(e, s@, lit@),
{
    let mut expected_text = String::from_str(lit);
    expected_text.push('(');
    let mut expected: Vec<String> = Vec::new();
    expected.push(expected_text);
    let e = CustomError {
        msg: String::from_str("Unexpected input. Expected"),
        span: 0..end,
        expected,
        found,
    };
    proof {
        assert(strs(e.expected@) =~= seq![lit@.push('(')]);
    }
    e
}

/// A token of at most three decimal digits.
pub open spec fn is_number_token(t: Seq<char>) -> bool {
    t.len() <= 3 && forall|i: int| 0 <= i < t.len() ==> is_dec_digit(#[trigger] t[i])
}

/// A token of one field of shape `f`.
pub open spec fn is_field_token(t: Seq<char>, f: FieldShape) -> bool {
    t.len() <= f.width && forall|i: int|
        0 <= i < t.len() ==> is_radix_digit(#[trigger] t[i], f.radix as int)
}

/// `count` fields of shape `f` from `pos`, each but the last followed by `sep`
/// and optional whitespace. Returns the fields' digits and where the last one
/// ends.
pub fn numbers_separated_by(
    s: &[char],
    pos: usize,
    f: FieldShape,
    count: usize,
    sep: char,
) -> (r: Result<(Vec<String>, usize), CustomError>)
    requires
        pos <= s@.len(),
        count >= 1,
        f.wf(),
    ensures
        match r {
            Ok((toks, end)) => {
                &&& fields_stuck(s@, pos as int, f, count as nat, sep, 0) is None
                &&& toks@.len() == count
                &&& forall|k: int|
                    0 <= k < count ==> #[trigger] strs(toks@)[k] == field_text(
                        s@,
                        pos as int,
                        f,
                        k as nat,
                    ) && is_field_token(strs(toks@)[k], f)
                &&& end == field_end(s@, pos as int, f, (count - 1) as nat)
                &&& end <= s@.len()
            },
            Err(e) => match fields_stuck(s@, pos as int, f, count as nat, sep, 0) {
                Some((p, kind)) => 0 <= p <= s@.len() && is_syntax_error(
                    e,
                    s@,
                    p,
                    expect_label(kind, Seq::empty(), sep, f.radix as int),
                ),
                None => false,
            },
        },
{
    let len = s.len();
    let mut toks: Vec<String> = Vec::new();
    let mut at = pos;
    let mut k: usize = 0;
    loop
        invariant
            len == s@.len(),
            f.wf(),
            k < count,
            at == field_start(s@, pos as int, f, k as nat),
            at <= len,
            toks@.len() == k,
            forall|j: int|
                0 <= j < k ==> #[trigger] strs(toks@)[j] == field_text(s@, pos as int, f, j as nat)
                    && is_field_token(strs(toks@)[j], f),
            fields_stuck(s@, pos as int, f, count as nat, sep, 0) == fields_stuck(
                s@,
                pos as int,
                f,
                count as nat,
                sep,
                k as nat,
            ),
        decreases count - k,
    {
        let run = n_digits(s, at, f.width, f.radix);
        match run {
            Err(e) => {
                return Err(e);
            },
            Ok((t, end)) => {
                let ghost toks0 = toks@;
                let ghost tv = t@;
                toks.push(t);
                proof {
                    assert(strs(toks@) =~= strs(toks0).push(tv));
                    assert(tv == s@.subrange(at as int, end as int));
                    assert forall|i: int| 0 <= i < tv.len() implies is_radix_digit(
                        #[trigger] tv[i],
                        f.radix as int,
                    ) by {
                        assert(tv[i] == s@[at + i]);
                    }
                    assert(tv == field_text(s@, pos as int, f, k as nat));
                    assert(strs(toks@)[k as int] == tv);
                }
                if k + 1 == count {
                    assert(fields_stuck(s@, pos as int, f, count as nat, sep, k as nat) is None);
                    return Ok((toks, end));
                }
                if end < len && s[end] == sep {
                    proof {
                        lemma_fields_stuck_step(s@, pos as int, f, count as nat, sep, k as nat);
                    }
                    at = skip_space(s, end + 1);
                    k = k + 1;
                } else {
                    let e = syntax_error(s, end, char_string(sep));
                    return Err(e);
                }
            },
        }
    }
}

/// The value of a token of decimal digits.
pub fn token_value(t: &String) -> (v: u16)
    requires
        is_number_token(t@),
    ensures
        v == dec_value(t@),
        v <= 999,
{
    let ts = t.as_str();
    let n = ts.unicode_len();
    let mut v: u16 = 0;
    let mut i: usize = 0;
    while i < n
        invariant
            n == t@.len() <= 3,
            ts@ == t@,
            is_number_token(t@),
            i <= n,
            v == dec_value(t@.subrange(0, i as int)),
            i == 0 ==> v == 0,
            i == 1 ==> v <= 9,
            i == 2 ==> v <= 99,
            i == 3 ==> v <= 999,
        decreases n - i,
    {
        let c = ts.get_char(i);
        let d = hex_value_exec(c);
        proof {
            assert(t@.subrange(0, i + 1).drop_last() =~= t@.subrange(0, i as int));
        }
        v = 10 * v + d as u16;
        i = i + 1;
    }
    assert(t@.subrange(0, n as int) =~= t@);
    v
}

/// What a call of `lit` with a number list answers.
pub open spec fn is_call_syntax_error(e: CustomError, s: Seq<char>, lit: Seq<char>) -> bool {
    match call_stuck(s, lit) {
        Some((p, kind)) => 0 <= p <= s.len() && if kind == Expect::Prefix {
            is_prefix_error(e, s, lit)
        } else {
            is_syntax_error(e, s, p, expect_label(kind, lit, ',', 10))
        },
        None => false,
    }
}

/// A call: the letters of `lit` in either case, `(`, three numbers separated
/// by commas and optional whitespace, `)`, and the end of the input.
fn parse_call(s: &[char], lit: &str) -> (r: Result<(u16, u16, u16), CustomError>)
    requires
        lit@.len() == 3,
        forall|i: int| 0 <= i < lit@.len() ==> 'a' <= #[trigger] lit@[i] <= 'z',
    ensures
        match r {
            Ok(v) => {
                &&& call_stuck(s@, lit@) is None
                &&& v.0 == call_value(s@, lit@, 0)
                &&& v.1 == call_value(s@, lit@, 1)
                &&& v.2 == call_value(s@, lit@, 2)
            },
            Err(e) => is_call_syntax_error(e, s@, lit@),
        },
{
    let len = s.len();
    let head = prefix(s, lit);
    match head {
        Err(e) => {
            return Err(e);
        },
        Ok(_) => {},
    }
    let field = FieldShape { width: 3, radix: 10 };
    let list = numbers_separated_by(s, 4, field, 3, ',');
    proof {
        lemma_fields_stuck_kind(s@, 4, field, 3, ',', 0);
        assert(lit@.len() + 1int == 4);
    }
    match list {
        Err(e) => Err(e),
        Ok((toks, end)) => {
            if !(end < len && s[end] == ')') {
                proof {
                    reveal_strlit(")");
                }
                return Err(syntax_error(s, end, String::from_str(")")));
            }
            if end + 1 != len {
                proof {
                    reveal_strlit("end of input");
                }
                return Err(syntax_error(s, end + 1, String::from_str("end of input")));
            }
            proof {
                assert forall|k: int| 0 <= k < 3 implies is_number_token(#[trigger] strs(toks@)[k])
                    by {
                    let t = strs(toks@)[k];
                    assert(is_field_token(t, field));
                    assert forall|i: int| 0 <= i < t.len() implies is_dec_digit(#[trigger] t[i]) by {
                        assert(is_radix_digit(t[i], 10));
                    }
                }
                assert(strs(toks@)[0] == toks@[0]@);
                assert(strs(toks@)[1] == toks@[1]@);
                assert(strs(toks@)[2] == toks@[2]@);
                assert(call_stuck(s@, lit@) is None);
            }
            let v0 = token_value(&toks[0]);
            let v1 = token_value(&toks[1]);
            let v2 = token_value(&toks[2]);
            Ok((v0, v1, v2))
        },
    }
}

/// The first of the numbers of a call, from the `from`-th on, that exceeds `limit`.
pub open spec fn culprit(s: Seq<char>, lit: Seq<char>, from: int, limit: int) -> int {
    if from <= 0 && call_value(s, lit, 0) > limit {
        call_value(s, lit, 0)
    } else if call_value(s, lit, 1) > limit {
        call_value(s, lit, 1)
    } else {
        call_value(s, lit, 2)
    }
}

/// A range diagnostic: it covers the whole input and shows the number found.
pub open spec fn is_range_error(
    e: CustomError,
    s: Seq<char>,
    msg: Seq<char>,
    label: Seq<char>,
    v: int,
) -> bool {
    &&& e.msg@ == msg
    &&& e.span.start == 0
    &&& e.span.end == s.len()
    &&& strs(e.expected@) == seq![label]
    &&& strs(e.found@) == seq![decimal(v as nat)]
}

fn range_error(s: &[char], msg: &str, label: String, v: u16) -> (e: CustomError)
    ensures
        is_range_error(e, s@, msg@, label@, v as int),
{
    let mut shown = String::new();
    push_decimal(&mut shown, v);
    proof {
        assert(shown@ =~= decimal(v as nat));
    }
    let mut found: Vec<String> = Vec::new();
    found.push(shown);
    let mut expected: Vec<String> = Vec::new();
    expected.push(label);
    let e = CustomError { msg: String::from_str(msg), span: 0..s.len(), expected, found };
    proof {
        assert(strs(e.expected@) =~= seq![label@]);
        assert(strs(e.found@) =~= seq![decimal(v as nat)]);
    }
    e
}

/// Three or six hexadecimal digits and nothing else.
pub fn parse_hex(s: &[char]) -> (r: Result<Color, CustomError>)
    ensures
        match r {
            Ok(c) => hex_color(s@) == Some(c),
            Err(e) => hex_color(s@) is None && hex_run(s@, 0) <= s@.len() && is_syntax_error(
                e,
                s@,
                hex_run(s@, 0),
                hex_label(),
            ),
        },
{
    let len = s.len();
    let mut i: usize = 0;
    while i < 6 && i < len && is_hex_digit_exec(s[i])
        invariant
            len == s@.len(),
            i <= 6,
            i <= len,
            forall|j: int| 0 <= j < i ==> is_hex_digit(#[trigger] s@[j]),
        decreases 6 - i,
    {
        i = i + 1;
    }
    proof {
        lemma_hex_run(s@, 0, i as int);
    }
    if i == len && len == 6 {
        let red = 16 * hex_value_exec(s[0]) + hex_value_exec(s[1]);
        let green = 16 * hex_value_exec(s[2]) + hex_value_exec(s[3]);
        let blue = 16 * hex_value_exec(s[4]) + hex_value_exec(s[5]);
        Ok(Color { red, green, blue })
    } else if i == len && len == 3 {
        let red = 17 * hex_value_exec(s[0]);
        let green = 17 * hex_value_exec(s[1]);
        let blue = 17 * hex_value_exec(s[2]);
        Ok(Color { red, green, blue })
    } else {
        proof {
            reveal_strlit("Hex digit");
            if all_hex(s@) && (len == 6 || len == 3) {
                if i < len {
                    assert(is_hex_digit(s@[i as int]));
                }
            }
        }
        Err(syntax_error(s, i, String::from_str("Hex digit")))
    }
}

/// How a call of `lit` failed: where its syntax stopped, or which number was
/// out of range.
pub open spec fn is_call_error(
    e: CustomError,
    s: Seq<char>,
    lit: Seq<char>,
    msg: Seq<char>,
    label: Seq<char>,
    v: int,
) -> bool {
    if call_stuck(s, lit) is None {
        is_range_error(e, s, msg, label, v)
    } else {
        is_call_syntax_error(e, s, lit)
    }
}

/// `rgb(r, g, b)` with three channels of at most 255.
pub fn parse_rgb(s: &[char]) -> (r: Result<Color, CustomError>)
    ensures
        match r {
            Ok(c) => rgb_color(s@) == Some(c),
            Err(e) => rgb_color(s@) is None && is_call_error(
                e,
                s@,
                rgb_lit(),
                "Invalid RGB value. Expected"@,
                rgb_range_label(),
                culprit(s@, rgb_lit(), 0, 255),
            ),
        },
{
    proof {
        reveal_strlit("rgb");
        assert("rgb"@ =~= rgb_lit());
    }
    let call = parse_call(s, "rgb");
    match call {
        Err(e) => Err(e),
        Ok((red, green, blue)) => {
            if red <= 255 && green <= 255 && blue <= 255 {
                Ok(Color { red: red as u8, green: green as u8, blue: blue as u8 })
            } else {
                let v = if red > 255 {
                    red
                } else if green > 255 {
                    green
                } else {
                    blue
                };
                let label = String::from_str("Value in range 0-255");
                Err(range_error(s, "Invalid RGB value. Expected", label, v))
            }
        },
    }
}

/// `hsl(h, s, l)`: the hue is taken modulo 360, saturation and lightness are
/// percentages of at most 100.
pub fn parse_hsl(s: &[char]) -> (r: Result<Color, CustomError>)
    ensures
        match r {
            Ok(c) => hsl_color(s@) == Some(c),
            Err(e) => hsl_color(s@) is None && is_call_error(
                e,
                s@,
                hsl_lit(),
                "Invalid HSL value. Expected"@,
                hsl_range_label(s@),
                culprit(s@, hsl_lit(), 1, 100),
            ),
        },
{
    proof {
        reveal_strlit("hsl");
        assert("hsl"@ =~= hsl_lit());
    }
    let call = parse_call(s, "hsl");
    match call {
        Err(e) => Err(e),
        Ok((hue, saturation, lightness)) => {
            match Hsl::from_parts(hue, saturation, lightness) {
                Ok(hsl) => Ok(hsl_to_rgb(hsl).to_color()),
                Err(part) => {
                    let v = if saturation > 100 {
                        saturation
                    } else {
                        lightness
                    };
                    Err(range_error(s, "Invalid HSL value. Expected", part.message(), v))
                },
            }
        },
    }
}

/// Of three diagnostics, the one that reaches furthest; the earlier one on a tie.
pub open spec fn furthest(a: CustomError, b: CustomError, c: CustomError) -> CustomError {
    let ab = if b.span.end > a.span.end { b } else { a };
    if c.span.end > ab.span.end { c } else { ab }
}

/// Every token that any of three diagnostics expects.
pub open spec fn expects_all(r: CustomError, a: CustomError, b: CustomError, c: CustomError) -> bool {
    forall|x: Seq<char>|
        #![trigger strs(r.expected@).contains(x)]
        strs(r.expected@).contains(x) <==> strs(a.expected@).contains(x) || strs(
            b.expected@,
        ).contains(x) || strs(c.expected@).contains(x)
}

/// Every token that any of three diagnostics found.
pub open spec fn founds_all(r: CustomError, a: CustomError, b: CustomError, c: CustomError) -> bool {
    forall|x: Seq<char>|
        #![trigger strs(r.found@).contains(x)]
        strs(r.found@).contains(x) <==> strs(a.found@).contains(x) || strs(b.found@).contains(x)
            || strs(c.found@).contains(x)
}

proof fn lemma_union3(
    r: Seq<Seq<char>>,
    xy: Seq<Seq<char>>,
    x: Seq<Seq<char>>,
    y: Seq<Seq<char>>,
    z: Seq<Seq<char>>,
)
    requires
        xy == unique_seq(x + y),
        r == unique_seq(xy + z),
    ensures
        forall|t: Seq<char>| #[trigger] r.contains(t) <==> x.contains(t) || y.contains(t) || z.contains(t),
{
    assert forall|t: Seq<char>| #[trigger] r.contains(t) <==> x.contains(t) || y.contains(t) || z.contains(t) by {
        lemma_unique_contains(xy + z, t);
        lemma_unique_contains(x + y, t);
        lemma_concat_contains(xy, z, t);
        lemma_concat_contains(x, y, t);
    }
}

proof fn lemma_merge_expects(
    r: CustomError,
    x: CustomError,
    y: CustomError,
    z: CustomError,
    xy: CustomError,
)
    requires
        strs(xy.expected@) == unique_seq(strs(x.expected@) + strs(y.expected@)),
        strs(r.expected@) == unique_seq(strs(xy.expected@) + strs(z.expected@)),
        strs(xy.found@) == unique_seq(strs(x.found@) + strs(y.found@)),
        strs(r.found@) == unique_seq(strs(xy.found@) + strs(z.found@)),
    ensures
        expects_all(r, x, y, z),
        founds_all(r, x, y, z),
{
    lemma_union3(strs(r.expected@), strs(xy.expected@), strs(x.expected@), strs(y.expected@), strs(z.expected@));
    lemma_union3(strs(r.found@), strs(xy.found@), strs(x.found@), strs(y.found@), strs(z.found@));
}

proof fn lemma_concat_contains(a: Seq<Seq<char>>, b: Seq<Seq<char>>, t: Seq<char>)
    ensures
        (a + b).contains(t) <==> a.contains(t) || b.contains(t),
{
    if a.contains(t) {
        let i = choose|i: int| 0 <= i < a.len() && a[i] == t;
        assert((a + b)[i] == t);
    }
    if b.contains(t) {
        let i = choose|i: int| 0 <= i < b.len() && b[i] == t;
        assert((a + b)[a.len() + i] == t);
    }
    if (a + b).contains(t) {
        let i = choose|i: int| 0 <= i < (a + b).len() && (a + b)[i] == t;
        if i < a.len() {
            assert(a[i] == t);
        } else {
            assert(b[i - a.len()] == t);
        }
    }
}

/// Merges the diagnostics of three failed alternatives: the one that reaches
/// furthest comes last, so that its message is kept; every expected token of
/// all three stays.
pub fn merge_alternatives(a: CustomError, b: CustomError, c: CustomError) -> (r: CustomError)
    ensures
        r.msg == furthest(a, b, c).msg,
        r.span.end == furthest(a, b, c).span.end,
        r.span.end >= a.span.end && r.span.end >= b.span.end && r.span.end >= c.span.end,
        r.span.start == if b.span.end <= a.span.end && c.span.end <= a.span.end {
            b.span.start
        } else {
            a.span.start
        },
        expects_all(r, a, b, c),
        founds_all(r, a, b, c),
{
    let ghost (ga, gb, gc) = (a, b, c);
    let best_is_b = b.span.end > a.span.end;
    let ab_end = if best_is_b { b.span.end } else { a.span.end };
    if c.span.end > ab_end {
        let ab = a.merge(b);
        let r = ab.merge(c);
        proof {
            lemma_merge_expects(r, ga, gb, gc, ab);
        }
        r
    } else if best_is_b {
        let ac = a.merge(c);
        let r = ac.merge(b);
        proof {
            lemma_merge_expects(r, ga, gc, gb, ac);
        }
        r
    } else {
        let bc = b.merge(c);
        let r = bc.merge(a);
        proof {
            lemma_merge_expects(r, gb, gc, ga, bc);
        }
        r
    }
}

proof fn lemma_runs_nonneg(s: Seq<char>, i: int, max: int, radix: int)
    ensures
        0 <= digit_run(s, i, max, radix),
        0 <= space_run(s, i),
{
    lemma_digit_run_nonneg(s, i, max, radix);
    lemma_space_run_nonneg(s, i);
}

proof fn lemma_digit_run_nonneg(s: Seq<char>, i: int, max: int, radix: int)
    ensures
        0 <= digit_run(s, i, max, radix),
    decreases max,
{
    if !(max <= 0 || i < 0 || i >= s.len() || !is_radix_digit(s[i], radix)) {
        lemma_digit_run_nonneg(s, i + 1, max - 1, radix);
    }
}

proof fn lemma_space_run_nonneg(s: Seq<char>, i: int)
    ensures
        0 <= space_run(s, i),
    decreases s.len() - i,
{
    if 0 <= i < s.len() && is_space(s[i]) {
        lemma_space_run_nonneg(s, i + 1);
    }
}

/// A well-formed call is at least ten characters long.
proof fn lemma_call_len(s: Seq<char>, lit: Seq<char>)
    requires
        lit.len() == 3,
        call_stuck(s, lit) is None,
    ensures
        prefix_ok(s, lit),
        s.len() >= 10,
{
    let p0 = 4int;
    let f = number_field();
    lemma_runs_nonneg(s, field_start(s, p0, f, 0), 3, 10);
    lemma_runs_nonneg(s, field_end(s, p0, f, 0) + 1, 3, 10);
    assert(fields_stuck(s, p0, f, 3, ',', 0) is None);
    assert(field_end(s, p0, f, 0) > field_start(s, p0, f, 0));
    assert(fields_stuck(s, p0, f, 3, ',', 1) is None);
    lemma_runs_nonneg(s, field_start(s, p0, f, 1), 3, 10);
    lemma_runs_nonneg(s, field_end(s, p0, f, 1) + 1, 3, 10);
    assert(field_end(s, p0, f, 1) > field_start(s, p0, f, 1));
    assert(fields_stuck(s, p0, f, 3, ',', 2) is None);
    lemma_runs_nonneg(s, field_start(s, p0, f, 2), 3, 10);
    assert(field_end(s, p0, f, 2) > field_start(s, p0, f, 2));
}

/// The message of the diagnostic of an input that no notation accepts.
pub open spec fn failure_message(s: Seq<char>) -> Seq<char> {
    if rgb_out_of_range(s) {
        "Invalid RGB value. Expected"@
    } else if hsl_out_of_range(s) {
        "Invalid HSL value. Expected"@
    } else {
        "Unexpected input. Expected"@
    }
}

/// The span of a syntax diagnostic at `pos`.
pub open spec fn syntax_span(s: Seq<char>, pos: int) -> (int, int) {
    (pos, if pos < s.len() { pos + 1 } else { pos })
}

/// What a syntax diagnostic at `pos` found.
pub open spec fn syntax_found(s: Seq<char>, pos: int) -> Seq<Seq<char>> {
    if pos < s.len() { seq![seq![s[pos]]] } else { Seq::empty() }
}

/// The span of the diagnostic of a failed call of `lit`.
pub open spec fn call_span(s: Seq<char>, lit: Seq<char>) -> (int, int) {
    match call_stuck(s, lit) {
        Some((p, kind)) => if kind == Expect::Prefix {
            (0, if s.len() < lit.len() + 1 { s.len() as int } else { lit.len() + 1int })
        } else {
            syntax_span(s, p)
        },
        None => (0, s.len() as int),
    }
}

/// What the diagnostic of a failed call of `lit` found; `v` is the number
/// shown when the call is out of range.
pub open spec fn call_found(s: Seq<char>, lit: Seq<char>, v: int) -> Seq<Seq<char>> {
    match call_stuck(s, lit) {
        Some((p, kind)) => if kind == Expect::Prefix {
            prefix_found(s, lit)
        } else {
            syntax_found(s, p)
        },
        None => seq![decimal(v as nat)],
    }
}

/// The span of the merged diagnostic: it ends where the furthest of the three
/// ends, and starts where the hex diagnostic starts, or where the `rgb(...)`
/// one does when the hex one reaches furthest.
pub open spec fn failure_span(s: Seq<char>) -> (int, int) {
    let h = syntax_span(s, hex_run(s, 0));
    let r = call_span(s, rgb_lit());
    let l = call_span(s, hsl_lit());
    let hr = if r.1 > h.1 { r.1 } else { h.1 };
    let end = if l.1 > hr { l.1 } else { hr };
    let start = if r.1 <= h.1 && l.1 <= h.1 { r.0 } else { h.0 };
    (start, end)
}

/// Parses a color in hex, `rgb(...)` or `hsl(...)` notation, tried in this
/// order. On failure, the diagnostics of the three merge into one.
pub fn parse_color(input: &str) -> (r: Result<Color, Vec<CustomError>>)
    ensures
        match r {
            Ok(c) => color_of(input@) == Some(c),
            Err(es) => {
                &&& color_of(input@) is None
                &&& es@.len() == 1
                &&& es@[0].span.start <= es@[0].span.end <= input@.len()
                &&& es@[0].msg@ == failure_message(input@)
                &&& (es@[0].span.start as int, es@[0].span.end as int) == failure_span(input@)
                &&& forall|x: Seq<char>|
                    #[trigger] strs(es@[0].expected@).contains(x) <==> x == hex_label() || x
                        == call_label(input@, rgb_lit(), rgb_range_label()) || x == call_label(
                        input@,
                        hsl_lit(),
                        hsl_range_label(input@),
                    )
                &&& forall|x: Seq<char>|
                    #[trigger] strs(es@[0].found@).contains(x) <==> syntax_found(
                        input@,
                        hex_run(input@, 0),
                    ).contains(x) || call_found(
                        input@,
                        rgb_lit(),
                        culprit(input@, rgb_lit(), 0, 255),
                    ).contains(x) || call_found(
                        input@,
                        hsl_lit(),
                        culprit(input@, hsl_lit(), 1, 100),
                    ).contains(x)
            },
        },
{
    let chars = chars_of(input);
    let s = chars.as_slice();
    let hex = parse_hex(s);
    let eh = match hex {
        Ok(c) => {
            return Ok(c);
        },
        Err(e) => e,
    };
    let rgb = parse_rgb(s);
    let er = match rgb {
        Ok(c) => {
            return Ok(c);
        },
        Err(e) => e,
    };
    let hsl = parse_hsl(s);
    let el = match hsl {
        Ok(c) => {
            return Ok(c);
        },
        Err(e) => e,
    };
    let ghost (gh, gr, gl) = (eh, er, el);
    proof {
        let sv = s@;
        assert(sv == input@);
        assert(strs(gh.expected@)[0] == hex_label());
        assert(strs(gh.expected@).contains(hex_label()));
        let lr = call_label(sv, rgb_lit(), rgb_range_label());
        let ll = call_label(sv, hsl_lit(), hsl_range_label(sv));
        assert(strs(gr.expected@)[0] == lr);
        assert(strs(gr.expected@).contains(lr));
        assert(strs(gl.expected@)[0] == ll);
        assert(strs(gl.expected@).contains(ll));
        assert(strs(gh.expected@) =~= seq![hex_label()]);
        assert(strs(gr.expected@) =~= seq![lr]);
        assert(strs(gl.expected@) =~= seq![ll]);
        assert(strs(gh.found@) == syntax_found(sv, hex_run(sv, 0)));
        assert(strs(gr.found@) == call_found(sv, rgb_lit(), culprit(sv, rgb_lit(), 0, 255)));
        assert(strs(gl.found@) == call_found(sv, hsl_lit(), culprit(sv, hsl_lit(), 1, 100)));
        assert((gh.span.start as int, gh.span.end as int) == syntax_span(sv, hex_run(sv, 0)));
        assert((gr.span.start as int, gr.span.end as int) == call_span(sv, rgb_lit()));
        assert((gl.span.start as int, gl.span.end as int) == call_span(sv, hsl_lit()));
        if rgb_out_of_range(sv) {
            lemma_call_len(sv, rgb_lit());
            assert(ascii_lower(sv[0]) == 'r');
            assert(!prefix_ok(sv, hsl_lit()));
        }
        if hsl_out_of_range(sv) {
            lemma_call_len(sv, hsl_lit());
            assert(ascii_lower(sv[0]) == 'h');
            assert(!prefix_ok(sv, rgb_lit()));
        }
    }
    let merged = merge_alternatives(eh, er, el);
    let mut es: Vec<CustomError> = Vec::new();
    es.push(merged);
    Err(es)
}

} // verus!
