use rust_ocr::contrast::Contrast;
use rust_ocr::pipeline::{preprocess_image, ImageFailure};
use std::io::Cursor;

fn sample_png(w: u32, h: u32) -> Vec<u8> {
    let img = image::RgbImage::from_fn(w, h, |x, y| {
        image::Rgb([(x * 37 % 256) as u8, (y * 53 % 256) as u8, ((x + y) * 11 % 256) as u8])
    });
    let mut out: Vec<u8> = Vec::new();
    image::DynamicImage::ImageRgb8(img)
        .write_to(&mut Cursor::new(&mut out), image::ImageOutputFormat::Png)
        .unwrap();
    out
}

#[test]
fn preprocess_produces_readable_gray_of_requested_size() {
    let png = sample_png(8, 6);
    let c = Contrast { milli: 20000 };
    let jpeg = preprocess_image(&png, 20, 10, &c).unwrap();
    let back = image::load_from_memory(&jpeg).unwrap();
    assert_eq!(back.width(), 20);
    assert_eq!(back.height(), 10);
    assert_eq!(back.color(), image::ColorType::L8);
}

#[test]
fn preprocess_twice_is_byte_identical() {
    let png = sample_png(9, 7);
    let c = Contrast { milli: 30000 };
    let first = preprocess_image(&png, 16, 12, &c).unwrap();
    let second = preprocess_image(&png, 16, 12, &c).unwrap();
    assert_eq!(first, second);
}

#[test]
fn preprocess_rejects_undecodable_bytes() {
    let garbage = vec![0u8, 1, 2, 3, 4, 5, 6, 7, 8, 9];
    let c = Contrast { milli: 30000 };
    let r = preprocess_image(&garbage, 10, 10, &c);
    assert!(matches!(r, Err(ImageFailure::Decode(_))));
}

#[test]
fn preprocess_rejects_unencodable_dimensions() {
    let png = sample_png(4, 4);
    let c = Contrast { milli: 30000 };
    let r = preprocess_image(&png, 70000, 1, &c);
    assert!(matches!(r, Err(ImageFailure::Encode(_))));
}

#[test]
fn scenario_scan_to_preprocessed_file() {
    // The front half of a run on `scan.png --resize 1000x1400 --contrast
    // 20.0 --lang eng --oem 1 --psm 3`: options validate, the derived
    // side-effect file name is fixed, and preprocessing yields a
    // 1000 by 1400 gray image.
    let o = rust_ocr::options::RunOptions::new(
        String::from("scan.png"),
        None,
        String::from("eng"),
        "1000x1400",
        "20.0",
        "1",
        "3",
    )
    .unwrap();
    assert_eq!(
        rust_ocr::options::preprocessed_path(&o.input),
        "scan.png_preprocessed.jpg"
    );
    let png = sample_png(32, 24);
    let jpeg = preprocess_image(&png, o.width, o.height, &o.contrast).unwrap();
    let back = image::load_from_memory(&jpeg).unwrap();
    assert_eq!((back.width(), back.height()), (1000, 1400));
    assert_eq!(back.color(), image::ColorType::L8);
}

#[test]
fn failure_message_is_surfaced() {
    let garbage = vec![255u8; 16];
    let c = Contrast { milli: 0 };
    match preprocess_image(&garbage, 10, 10, &c) {
        Err(e) => assert!(!e.message().is_empty()),
        Ok(_) => panic!("garbage bytes must not decode"),
    }
}
