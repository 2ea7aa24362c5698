use rust_ocr::contrast::{apply_contrast, parse_contrast, stretch_pixel_u8, Contrast};
use rust_ocr::options::ArgError;

#[test]
fn parse_default_value() {
    assert_eq!(parse_contrast("30.0").unwrap().milli, 30000);
}

#[test]
fn parse_whole_and_fractional_forms() {
    assert_eq!(parse_contrast("20.0").unwrap().milli, 20000);
    assert_eq!(parse_contrast("20").unwrap().milli, 20000);
    assert_eq!(parse_contrast("5.").unwrap().milli, 5000);
    assert_eq!(parse_contrast(".5").unwrap().milli, 500);
    assert_eq!(parse_contrast("0.125").unwrap().milli, 125);
}

#[test]
fn parse_signs() {
    assert_eq!(parse_contrast("-5.25").unwrap().milli, -5250);
    assert_eq!(parse_contrast("+5.25").unwrap().milli, 5250);
    assert_eq!(parse_contrast("-0").unwrap().milli, 0);
}

#[test]
fn parse_truncates_past_third_fractional_digit() {
    assert_eq!(parse_contrast("1.2345").unwrap().milli, 1234);
    assert_eq!(parse_contrast("0.9999").unwrap().milli, 999);
}

#[test]
fn parse_saturates_at_curve_domain() {
    assert_eq!(parse_contrast("300").unwrap().milli, 255000);
    assert_eq!(parse_contrast("-300").unwrap().milli, -255000);
    assert_eq!(parse_contrast("255.001").unwrap().milli, 255000);
    assert_eq!(parse_contrast("99999999999999999999").unwrap().milli, 255000);
}

#[test]
fn parse_rejects_malformed() {
    assert_eq!(parse_contrast(""), Err(ArgError::InvalidNumber));
    assert_eq!(parse_contrast("."), Err(ArgError::InvalidNumber));
    assert_eq!(parse_contrast("-"), Err(ArgError::InvalidNumber));
    assert_eq!(parse_contrast("abc"), Err(ArgError::InvalidNumber));
    assert_eq!(parse_contrast("1.2.3"), Err(ArgError::InvalidNumber));
    assert_eq!(parse_contrast("1e3"), Err(ArgError::InvalidNumber));
    assert_eq!(parse_contrast("1 "), Err(ArgError::InvalidNumber));
}

#[test]
fn stretch_at_zero_is_identity() {
    let c = Contrast { milli: 0 };
    for p in [0u8, 1, 64, 127, 128, 129, 200, 254, 255] {
        assert_eq!(stretch_pixel_u8(p, &c), p);
    }
}

#[test]
fn stretch_at_domain_edge_is_extreme() {
    let c = Contrast { milli: 255000 };
    assert_eq!(stretch_pixel_u8(129, &c), 255);
    assert_eq!(stretch_pixel_u8(127, &c), 0);
    assert_eq!(stretch_pixel_u8(128, &c), 128);
}

#[test]
fn stretch_exact_value() {
    // At a setting of 30 whole units the slope is 73815000 / 58395000, so
    // pixel 200 maps to 128 + (72 * 73815000) / 58395000 = 128 + 91 = 219.
    let c = Contrast { milli: 30000 };
    assert_eq!(stretch_pixel_u8(200, &c), 219);
}

#[test]
fn stretch_negative_setting_compresses() {
    // At -100 whole units the slope is 259*155000 / 255*359000, so pixel
    // 255 maps to 128 + (127 * 40145000) / 91545000 = 128 + 55 = 183.
    let c = Contrast { milli: -100000 };
    assert_eq!(stretch_pixel_u8(255, &c), 183);
    // Below mid-gray the distance is 128: (128 * 40145000) / 91545000 = 56.
    assert_eq!(stretch_pixel_u8(0, &c), 128 - 56);
}

#[test]
fn apply_contrast_maps_each_pixel() {
    let c = Contrast { milli: 30000 };
    let pixels = vec![0u8, 128, 200, 255];
    let out = apply_contrast(&pixels, &c);
    assert_eq!(out.len(), 4);
    assert_eq!(out[1], 128);
    assert_eq!(out[2], 219);
    for (i, p) in pixels.iter().enumerate() {
        assert_eq!(out[i], stretch_pixel_u8(*p, &c));
    }
}
