use boja::grammar::{
    digit, n_digits, numbers_separated_by, parse_hex, parse_hsl, parse_rgb, prefix, FieldShape,
};
use boja::{parse_color, Color, CustomError};

fn chars(s: &str) -> Vec<char> {
    s.chars().collect()
}

fn color(red: u8, green: u8, blue: u8) -> Color {
    Color { red, green, blue }
}

fn single_error(input: &str) -> CustomError {
    let mut errs = parse_color(input).unwrap_err();
    assert_eq!(errs.len(), 1);
    errs.pop().unwrap()
}

#[test]
fn six_hex_digits() {
    assert_eq!(parse_color("ff00aa"), Ok(color(255, 0, 170)));
    assert_eq!(parse_color("FF00AA"), Ok(color(255, 0, 170)));
    assert_eq!(parse_color("123456"), Ok(color(0x12, 0x34, 0x56)));
}

#[test]
fn shorthand_hex_expands() {
    assert_eq!(parse_color("f0a"), parse_color("ff00aa"));
    assert_eq!(parse_color("f0a"), Ok(color(255, 0, 170)));
}

#[test]
fn hex_of_wrong_length_fails() {
    for input in ["", "f", "ff", "ffff", "fffff", "fffffff"] {
        let e = single_error(input);
        assert_eq!(e.msg, "Unexpected input. Expected");
        assert!(e.expected.contains(&String::from("Hex digit")));
    }
}

#[test]
fn hex_error_points_at_the_bad_digit() {
    let e = parse_hex(&chars("ffgfff")).unwrap_err();
    assert_eq!(e.span, 2..3);
    assert_eq!(e.expected, vec![String::from("Hex digit")]);
    assert_eq!(e.found, vec![String::from("g")]);
    let e = parse_hex(&chars("ffff")).unwrap_err();
    assert_eq!(e.span, 4..4);
    assert!(e.found.is_empty());
}

#[test]
fn rgb_calls() {
    assert_eq!(parse_color("rgb(255, 0, 0)"), Ok(color(255, 0, 0)));
    assert_eq!(parse_color("rgb(1,2,3)"), Ok(color(1, 2, 3)));
    assert_eq!(parse_color("RGB(10,\t20,  30)"), Ok(color(10, 20, 30)));
    assert_eq!(parse_color("rgb(0,0,0)"), Ok(color(0, 0, 0)));
}

#[test]
fn rgb_out_of_range_is_a_range_error() {
    let e = single_error("rgb(256,0,0)");
    assert_eq!(e.msg, "Invalid RGB value. Expected");
    assert_eq!(e.span, 0..12);
    assert!(e.expected.contains(&String::from("Value in range 0-255")));
    assert!(e.found.contains(&String::from("256")));
    let e = parse_rgb(&chars("rgb(1,2,999)")).unwrap_err();
    assert_eq!(e.found, vec![String::from("999")]);
}

#[test]
fn hsl_out_of_range_is_a_range_error() {
    let e = single_error("hsl(0,101,0)");
    assert_eq!(e.msg, "Invalid HSL value. Expected");
    assert_eq!(e.span, 0..12);
    assert!(e.expected.contains(&String::from("Saturation must be in range 0..100")));
    let e = parse_hsl(&chars("hsl(0,0,101)")).unwrap_err();
    assert_eq!(e.expected, vec![String::from("Lightness must be in range 0..100")]);
    assert_eq!(e.found, vec![String::from("101")]);
}

#[test]
fn hsl_boundaries() {
    assert_eq!(parse_color("hsl(0,0,0)"), Ok(color(0, 0, 0)));
    assert_eq!(parse_color("hsl(0,0,100)"), Ok(color(255, 255, 255)));
    assert_eq!(parse_color("hsl(0,100,50)"), Ok(color(255, 0, 0)));
    assert_eq!(parse_color("hsl(60,100,25)"), Ok(color(128, 128, 0)));
}

#[test]
fn hue_wraps_around() {
    assert!(parse_color("hsl(360,50,50)").is_ok());
    assert_eq!(parse_color("hsl(360,50,50)"), parse_color("hsl(0,50,50)"));
    assert_eq!(parse_color("hsl(420, 100, 50)"), parse_color("hsl(60, 100, 50)"));
}

#[test]
fn calls_are_not_hex() {
    assert_eq!(parse_color("rgb(0,0,0)"), Ok(color(0, 0, 0)));
    assert!(parse_hex(&chars("rgb(0,0,0)")).is_err());
}

#[test]
fn failure_names_every_alternative() {
    let e = single_error("xyz");
    assert_eq!(e.msg, "Unexpected input. Expected");
    assert!(e.expected.contains(&String::from("Hex digit")));
    assert!(e.expected.contains(&String::from("rgb(")));
    assert!(e.expected.contains(&String::from("hsl(")));
    assert!(e.span.start <= e.span.end && e.span.end <= 3);
}

#[test]
fn failure_inside_a_call() {
    let e = single_error("rgb(1;2,3)");
    assert_eq!(e.msg, "Unexpected input. Expected");
    assert!(e.expected.contains(&String::from(",")));
    assert!(e.expected.contains(&String::from("hsl(")));
    assert!(e.expected.contains(&String::from("Hex digit")));
    let e = single_error("rgb(1,2,3");
    assert!(e.expected.contains(&String::from(")")));
    let e = single_error("rgb(1,2,3)x");
    assert!(e.expected.contains(&String::from("end of input")));
    let e = single_error("hsl(,2,3)");
    assert!(e.expected.contains(&String::from("a digit in radix 10")));
    let e = single_error("rgb(1234,2,3)");
    assert!(e.expected.contains(&String::from(",")));
}

#[test]
fn primitives() {
    let s = chars("a7,  12)");
    assert_eq!(digit(&s, 0, 16), Ok('a'));
    assert!(digit(&s, 0, 10).is_err());
    assert_eq!(digit(&s, 0, 10).unwrap_err().expected, vec![String::from("a digit in radix 10")]);
    assert_eq!(n_digits(&s, 1, 3, 10), Ok((String::from("7"), 2)));
    assert_eq!(n_digits(&chars("12345"), 0, 3, 10), Ok((String::from("123"), 3)));
    assert!(n_digits(&s, 2, 3, 10).is_err());
    assert_eq!(n_digits(&s, 0, 3, 16), Ok((String::from("a7"), 2)));
    assert_eq!(n_digits(&chars("1012"), 0, 4, 2), Ok((String::from("101"), 3)));
    assert_eq!(digit(&chars("z"), 0, 36), Ok('z'));
    assert_eq!(digit(&chars("8"), 0, 8).unwrap_err().expected, vec![String::from("a digit in radix 8")]);
    let decimal = FieldShape { width: 3, radix: 10 };
    let list = numbers_separated_by(&chars("1, 22,333)"), 0, decimal, 3, ',');
    assert_eq!(list, Ok((vec![String::from("1"), String::from("22"), String::from("333")], 9)));
    let hex = FieldShape { width: 2, radix: 16 };
    let list = numbers_separated_by(&chars("ff; 0A;7"), 0, hex, 3, ';');
    assert_eq!(list, Ok((vec![String::from("ff"), String::from("0A"), String::from("7")], 8)));
    let e = numbers_separated_by(&chars("1;2"), 0, decimal, 2, ',').unwrap_err();
    assert_eq!(e.span, 1..2);
    assert_eq!(e.expected, vec![String::from(",")]);
    assert_eq!(e.found, vec![String::from(";")]);
}

#[test]
fn prefix_matches_either_case() {
    assert_eq!(prefix(&chars("RgB(1"), "rgb"), Ok(String::from("RgB")));
    let e = prefix(&chars("hsl(1"), "rgb").unwrap_err();
    assert_eq!(e.span, 0..4);
    assert_eq!(e.expected, vec![String::from("rgb(")]);
    assert_eq!(e.found, vec![String::from("hsl"), String::from("(")]);
    let e = prefix(&chars("rgbx"), "rgb").unwrap_err();
    assert_eq!(e.found, vec![String::from("rgb"), String::from("x")]);
    let e = prefix(&chars("rg"), "rgb").unwrap_err();
    assert_eq!(e.span, 0..2);
    assert_eq!(e.found, vec![String::from("rg")]);
    assert_eq!(prefix(&chars("Hello(x"), "hello"), Ok(String::from("Hello")));
}

#[test]
fn merged_failure_is_exact() {
    // hex stops at 0, the rgb call at its separator, the hsl call at its prefix
    let e = single_error("rgb(1;2,3)");
    assert_eq!(e.span, 0..6);
    let mut expected = e.expected.clone();
    expected.sort();
    assert_eq!(expected, vec![String::from(","), String::from("Hex digit"), String::from("hsl(")]);
    let mut found = e.found.clone();
    found.sort();
    assert_eq!(found, vec![String::from("("), String::from(";"), String::from("r"), String::from("rgb")]);
}
