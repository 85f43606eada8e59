use boja::{parse_color, Color, Command, CustomError, Format, Hsl, Rgb, Unsupported};

#[test]
fn hex_round_trip() {
    for input in ["ffffff", "000000", "a1B2c3", "FF00AA", "0f0f0f"] {
        let c = parse_color(input).unwrap();
        assert_eq!(c.convert(Format::Hex).unwrap(), input.to_lowercase());
    }
}

#[test]
fn end_to_end() {
    let c = parse_color("ffffff").unwrap();
    assert_eq!(c.convert(Format::Hex).unwrap(), "ffffff");
    let c = parse_color("rgb(255, 0, 0)").unwrap();
    assert_eq!(c.convert(Format::Hsl).unwrap(), "hsl(0, 100, 50)");
    let c = parse_color("ffffff").unwrap();
    assert_eq!(c.convert(Format::Rgb).unwrap(), "rgb(255, 255, 255)");
    assert_eq!(c.convert(Format::Hsl).unwrap(), "hsl(0, 0, 100)");
}

#[test]
fn unimplemented_formats_fail() {
    let c = Color { red: 1, green: 2, blue: 3 };
    assert_eq!(c.convert(Format::Hsv), Err(Unsupported { format: Format::Hsv }));
    assert_eq!(c.convert(Format::Cmyk), Err(Unsupported { format: Format::Cmyk }));
}

#[test]
fn renderings() {
    let rgb = Rgb { red: 8, green: 160, blue: 255 };
    assert_eq!(rgb.to_hex(), "08a0ff");
    assert_eq!(rgb.to_rgb(), "rgb(8, 160, 255)");
    assert_eq!(Hsl { hue: 359, saturation: 7, lightness: 100 }.to_string(), "hsl(359, 7, 100)");
}

fn diag(msg: &str, start: usize, end: usize, expected: &[&str], found: &[&str]) -> CustomError {
    CustomError {
        msg: String::from(msg),
        span: start..end,
        expected: expected.iter().map(|s| String::from(*s)).collect(),
        found: found.iter().map(|s| String::from(*s)).collect(),
    }
}

#[test]
fn merge_keeps_second_message_and_unites_tokens() {
    let a = diag("first", 1, 3, &["x", "y"], &["a"]);
    let b = diag("second", 2, 5, &["y", "z", "x"], &["b", "a"]);
    let m = a.merge(b);
    assert_eq!(m, diag("second", 1, 5, &["x", "y", "z"], &["a", "b"]));
}

#[test]
fn merge_removes_duplicates_within_one_side() {
    let a = diag("first", 0, 1, &["x", "x"], &[]);
    let b = diag("second", 0, 1, &[], &[]);
    assert_eq!(a.merge(b).expected, vec![String::from("x")]);
}

#[test]
fn render_diagnostic() {
    let d = diag("Unexpected input. Expected", 0, 1, &["a", "b"], &["c", "d"]);
    assert_eq!(d.render(), "Unexpected input. Expected: a, b but found cd");
    let d = diag("m", 0, 0, &[], &[]);
    assert_eq!(d.render(), "m:  but found ");
}

#[test]
fn command_joins_input() {
    let cmd = Command::new(
        Format::Rgb,
        vec![String::from("rgb(1,"), String::from("2,"), String::from("3)")],
    );
    assert_eq!(cmd.input(), "rgb(1,2,3)");
    assert_eq!(cmd.fmt(), Format::Rgb);
    assert_eq!(Command::new(Format::Hex, vec![]).input(), "");
}

#[test]
fn with_label_replaces_message() {
    let d = diag("old", 0, 1, &["a"], &[]).with_label(String::from("new"));
    assert_eq!(d, diag("new", 0, 1, &["a"], &[]));
    let e = CustomError::expected_input_found(2..3, String::from(")"), vec![String::from("x")]);
    assert_eq!(e, diag("Unexpected input. Expected", 2, 3, &[")"], &["x"]));
}
