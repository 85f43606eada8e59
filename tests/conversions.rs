use boja::color::{hsl_to_rgb, hsv_to_rgb, rgb_to_hsl, rgb_to_hsv};
use boja::color::OutOfRange;
use boja::{Hsl, Hsv, Rgb};

fn rgb(red: u8, green: u8, blue: u8) -> Rgb {
    Rgb { red, green, blue }
}

#[test]
fn hsl_black_from_rgb() {
    let hsl = rgb_to_hsl(rgb(0, 0, 0));
    assert_eq!(hsl, Hsl { hue: 0, saturation: 0, lightness: 0 });
}

#[test]
fn hsl_white_from_rgb() {
    let hsl = rgb_to_hsl(rgb(255, 255, 255));
    assert_eq!(hsl, Hsl { hue: 0, saturation: 0, lightness: 100 });
}

#[test]
fn hsl_red_from_rgb() {
    let hsl = rgb_to_hsl(rgb(255, 0, 0));
    assert_eq!(hsl, Hsl { hue: 0, saturation: 100, lightness: 50 });
}

#[test]
fn hsl_olive_from_rgb() {
    let hsl = rgb_to_hsl(rgb(128, 128, 0));
    assert_eq!(hsl, Hsl { hue: 60, saturation: 100, lightness: 25 });
}

#[test]
fn hsv_black_from_rgb() {
    let hsv = rgb_to_hsv(rgb(0, 0, 0));
    assert_eq!(hsv, Hsv { hue: 0, saturation: 0, value: 0 });
}

#[test]
fn hsv_white_from_rgb() {
    let hsv = rgb_to_hsv(rgb(255, 255, 255));
    assert_eq!(hsv, Hsv { hue: 0, saturation: 0, value: 100 });
}

#[test]
fn hsv_red_from_rgb() {
    let hsv = rgb_to_hsv(rgb(255, 0, 0));
    assert_eq!(hsv, Hsv { hue: 0, saturation: 100, value: 100 });
}

#[test]
fn hsv_olive_from_rgb() {
    let hsv = rgb_to_hsv(rgb(128, 128, 0));
    assert_eq!(hsv, Hsv { hue: 60, saturation: 100, value: 50 });
}

#[test]
fn black_from_hsl() {
    let out = hsl_to_rgb(Hsl { hue: 0, saturation: 0, lightness: 0 });
    assert_eq!(out, rgb(0, 0, 0));
}

#[test]
fn white_from_hsl() {
    let out = hsl_to_rgb(Hsl { hue: 0, saturation: 0, lightness: 100 });
    assert_eq!(out, rgb(255, 255, 255));
}

#[test]
fn red_from_hsl() {
    let out = hsl_to_rgb(Hsl { hue: 0, saturation: 100, lightness: 50 });
    assert_eq!(out, rgb(255, 0, 0));
}

#[test]
fn olive_from_hsl() {
    let out = hsl_to_rgb(Hsl { hue: 60, saturation: 100, lightness: 25 });
    assert_eq!(out, rgb(128, 128, 0));
}

#[test]
fn round_trip_of_documented_vectors() {
    for (r, g, b) in [(0, 0, 0), (255, 255, 255), (255, 0, 0), (128, 128, 0)] {
        let back = hsl_to_rgb(rgb_to_hsl(rgb(r, g, b)));
        assert_eq!(back, rgb(r, g, b));
    }
}

#[test]
fn negative_hue_moves_into_range() {
    // red is the maximum and blue exceeds green: the raw hue is just below zero
    let hsl = rgb_to_hsl(rgb(255, 0, 10));
    assert_eq!(hsl.hue, 358);
    let hsl = rgb_to_hsl(rgb(255, 0, 1));
    assert_eq!(hsl.hue, 0);
}

#[test]
fn hue_of_each_sextant() {
    assert_eq!(rgb_to_hsl(rgb(0, 255, 0)).hue, 120);
    assert_eq!(rgb_to_hsl(rgb(0, 0, 255)).hue, 240);
    assert_eq!(rgb_to_hsl(rgb(0, 255, 255)).hue, 180);
    assert_eq!(rgb_to_hsl(rgb(255, 0, 255)).hue, 300);
    assert_eq!(hsl_to_rgb(Hsl { hue: 180, saturation: 100, lightness: 50 }), rgb(0, 255, 255));
    assert_eq!(hsl_to_rgb(Hsl { hue: 300, saturation: 100, lightness: 50 }), rgb(255, 0, 255));
    assert_eq!(hsl_to_rgb(Hsl { hue: 240, saturation: 100, lightness: 50 }), rgb(0, 0, 255));
}

#[test]
fn saturation_of_a_pale_color() {
    // max 200, min 100: lightness 300/510 = 58.8%, saturation 100/(510-300) = 47.6%
    let hsl = rgb_to_hsl(rgb(200, 150, 100));
    assert_eq!(hsl, Hsl { hue: 30, saturation: 48, lightness: 59 });
    let hsv = rgb_to_hsv(rgb(200, 150, 100));
    assert_eq!(hsv, Hsv { hue: 30, saturation: 50, value: 78 });
}

#[test]
fn tuples_and_constructors() {
    assert_eq!(rgb(1, 2, 3).into_tuple(), (1, 2, 3));
    assert_eq!(Hsl { hue: 10, saturation: 20, lightness: 30 }.into_tuple(), (10, 20, 30));
    assert_eq!(Hsv { hue: 10, saturation: 20, value: 30 }.into_tuple(), (10, 20, 30));
    assert_eq!(Hsl::from_parts(370, 50, 50), Ok(Hsl { hue: 10, saturation: 50, lightness: 50 }));
    assert_eq!(Hsl::from_parts(0, 101, 0), Err(OutOfRange::Saturation));
    assert_eq!(Hsl::from_parts(0, 0, 101), Err(OutOfRange::Lightness));
    assert_eq!(OutOfRange::Saturation.message(), "Saturation must be in range 0..100");
}

#[test]
fn rgb_from_hsv() {
    assert_eq!(hsv_to_rgb(Hsv { hue: 0, saturation: 0, value: 0 }), rgb(0, 0, 0));
    assert_eq!(hsv_to_rgb(Hsv { hue: 0, saturation: 0, value: 100 }), rgb(255, 255, 255));
    assert_eq!(hsv_to_rgb(Hsv { hue: 0, saturation: 100, value: 100 }), rgb(255, 0, 0));
    assert_eq!(hsv_to_rgb(Hsv { hue: 60, saturation: 100, value: 50 }), rgb(128, 128, 0));
    assert_eq!(hsv_to_rgb(Hsv { hue: 240, saturation: 100, value: 100 }), rgb(0, 0, 255));
}

#[test]
fn hsv_parts_and_text() {
    assert_eq!(Hsv::from_parts(400, 10, 20), Ok(Hsv { hue: 40, saturation: 10, value: 20 }));
    assert_eq!(Hsv::from_parts(0, 10, 101), Err(OutOfRange::Value));
    assert_eq!(OutOfRange::Value.message(), "Value must be in range 0..100");
    assert_eq!(Hsv { hue: 60, saturation: 100, value: 50 }.to_string(), "hsv(60, 100, 50)");
}
