use rust_ocr::options::{
    parse_dimensions, parse_oem, parse_psm, preprocessed_path, ArgError, EngineMode, RunOptions,
    SegMode,
};

#[test]
fn dimensions_default_pair() {
    assert_eq!(parse_dimensions("3000x3000"), Ok((3000, 3000)));
}

#[test]
fn dimensions_distinct_pair() {
    assert_eq!(parse_dimensions("1000x1400"), Ok((1000, 1400)));
}

#[test]
fn dimensions_zero_parts_parse() {
    assert_eq!(parse_dimensions("0x5"), Ok((0, 5)));
}

#[test]
fn dimensions_largest_value() {
    assert_eq!(parse_dimensions("4294967295x1"), Ok((4294967295, 1)));
}

#[test]
fn dimensions_value_too_large() {
    assert_eq!(parse_dimensions("4294967296x1"), Err(ArgError::InvalidDimensions));
}

#[test]
fn dimensions_no_separator() {
    assert_eq!(parse_dimensions("3000"), Err(ArgError::InvalidDimensions));
}

#[test]
fn dimensions_two_separators() {
    assert_eq!(parse_dimensions("1x2x3"), Err(ArgError::InvalidDimensions));
}

#[test]
fn dimensions_non_integer_part() {
    assert_eq!(parse_dimensions("ax5"), Err(ArgError::InvalidDimensions));
    assert_eq!(parse_dimensions("5xb"), Err(ArgError::InvalidDimensions));
    assert_eq!(parse_dimensions(" 3x4"), Err(ArgError::InvalidDimensions));
}

#[test]
fn dimensions_empty_parts() {
    assert_eq!(parse_dimensions(""), Err(ArgError::InvalidDimensions));
    assert_eq!(parse_dimensions("x"), Err(ArgError::InvalidDimensions));
    assert_eq!(parse_dimensions("5x"), Err(ArgError::InvalidDimensions));
    assert_eq!(parse_dimensions("x5"), Err(ArgError::InvalidDimensions));
}

#[test]
fn oem_four_variants_in_order() {
    assert_eq!(parse_oem("0"), Ok(EngineMode::TesseractOnly));
    assert_eq!(parse_oem("1"), Ok(EngineMode::LstmOnly));
    assert_eq!(parse_oem("2"), Ok(EngineMode::TesseractLstmCombined));
    assert_eq!(parse_oem("3"), Ok(EngineMode::EngineDefault));
}

#[test]
fn oem_out_of_range() {
    assert_eq!(parse_oem("9"), Err(ArgError::InvalidEngineMode));
    assert_eq!(parse_oem("4"), Err(ArgError::InvalidEngineMode));
    assert_eq!(parse_oem("-1"), Err(ArgError::InvalidEngineMode));
}

#[test]
fn oem_non_integer() {
    assert_eq!(parse_oem("abc"), Err(ArgError::InvalidNumber));
    assert_eq!(parse_oem(""), Err(ArgError::InvalidNumber));
    assert_eq!(parse_oem("1.5"), Err(ArgError::InvalidNumber));
}

#[test]
fn oem_with_plus_sign() {
    assert_eq!(parse_oem("+2"), Ok(EngineMode::TesseractLstmCombined));
}

#[test]
fn oem_codes_round_trip() {
    assert_eq!(parse_oem("0").unwrap().code(), 0);
    assert_eq!(parse_oem("1").unwrap().code(), 1);
    assert_eq!(parse_oem("2").unwrap().code(), 2);
    assert_eq!(parse_oem("3").unwrap().code(), 3);
}

#[test]
fn psm_all_codes_distinct() {
    let mut seen: Vec<SegMode> = Vec::new();
    let codes = vec![
        "0", "1", "2", "3", "4", "5", "6", "7", "8", "9", "10", "11", "12", "13",
    ];
    for (i, c) in codes.iter().enumerate() {
        let m = parse_psm(c).unwrap();
        assert_eq!(m.code() as usize, i);
        assert!(!seen.contains(&m));
        seen.push(m);
    }
}

#[test]
fn psm_known_variants() {
    assert_eq!(parse_psm("0"), Ok(SegMode::OsdOnly));
    assert_eq!(parse_psm("3"), Ok(SegMode::Auto));
    assert_eq!(parse_psm("6"), Ok(SegMode::SingleBlock));
    assert_eq!(parse_psm("13"), Ok(SegMode::RawLine));
}

#[test]
fn psm_out_of_range() {
    assert_eq!(parse_psm("14"), Err(ArgError::InvalidSegmentationMode));
    assert_eq!(parse_psm("-1"), Err(ArgError::InvalidSegmentationMode));
}

#[test]
fn psm_non_integer() {
    assert_eq!(parse_psm("auto"), Err(ArgError::InvalidNumber));
}

#[test]
fn preprocessed_path_appends_suffix() {
    assert_eq!(preprocessed_path("scan.png"), "scan.png_preprocessed.jpg");
    assert_eq!(preprocessed_path("dir/in.tif"), "dir/in.tif_preprocessed.jpg");
}

#[test]
fn run_options_valid() {
    let o = RunOptions::new(
        String::from("scan.png"),
        None,
        String::from("eng"),
        "1000x1400",
        "20.0",
        "1",
        "3",
    )
    .unwrap();
    assert_eq!(o.input, "scan.png");
    assert_eq!(o.output, None);
    assert_eq!(o.lang, "eng");
    assert_eq!(o.width, 1000);
    assert_eq!(o.height, 1400);
    assert_eq!(o.contrast.milli, 20000);
    assert_eq!(o.oem, EngineMode::LstmOnly);
    assert_eq!(o.psm, SegMode::Auto);
}

#[test]
fn run_options_rejects_bad_engine_mode() {
    let r = RunOptions::new(
        String::from("scan.png"),
        None,
        String::from("eng"),
        "3000x3000",
        "30.0",
        "9",
        "3",
    );
    assert_eq!(r.unwrap_err(), ArgError::InvalidEngineMode);
}

#[test]
fn run_options_rejects_bad_contrast_first() {
    let r = RunOptions::new(
        String::from("a"),
        None,
        String::from("eng"),
        "bad",
        "oops",
        "9",
        "99",
    );
    assert_eq!(r.unwrap_err(), ArgError::InvalidNumber);
}

#[test]
fn run_options_rejects_zero_dimension() {
    let r = RunOptions::new(
        String::from("a"),
        None,
        String::from("eng"),
        "0x100",
        "30.0",
        "1",
        "3",
    );
    assert_eq!(r.unwrap_err(), ArgError::InvalidDimensions);
}

#[test]
fn run_options_error_messages() {
    assert_eq!(
        ArgError::InvalidDimensions.message(),
        "Invalid dimensions format. Use WIDTHxHEIGHT."
    );
    assert_eq!(ArgError::InvalidEngineMode.message(), "Invalid OCR Engine Mode (OEM)");
    assert_eq!(
        ArgError::InvalidSegmentationMode.message(),
        "Invalid Page Segmentation Mode (PSM)"
    );
}
