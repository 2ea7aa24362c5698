//! Run options: the error taxonomy for argument validation, the engine and
//! page-segmentation mode enums with their integer codes, the dimension,
//! mode and options parsers, and the preprocessed-file naming rule.

use vstd::prelude::*;

use crate::contrast::{contrast_milli, parse_contrast, valid_contrast, Contrast};
use crate::digits::{
    all_digits, count_byte, dec_val, dec_value, first_byte, scan_byte, sign_of, strip_sign,
};
use vstd::string::StringExecFns;
use vstd::string::StringSliceAdditionalSpecFns;

verus! {

/// A malformed or out-of-range command-line value.
#[derive(Clone, Copy, Debug, PartialEq, Eq, Structural)]
pub enum ArgError {
    /// The resize string does not name exactly two in-range whole numbers.
    InvalidDimensions,
    /// A numeric value could not be read.
    InvalidNumber,
    /// The engine mode is not one of 0, 1, 2, 3.
    InvalidEngineMode,
    /// The segmentation mode is not in 0 ..= 13.
    InvalidSegmentationMode,
}

impl ArgError {
    pub open spec fn spec_message(self) -> Seq<char> {
        match self {
            ArgError::InvalidDimensions => "Invalid dimensions format. Use WIDTHxHEIGHT."@,
            ArgError::InvalidNumber => "Invalid numeric value"@,
            ArgError::InvalidEngineMode => "Invalid OCR Engine Mode (OEM)"@,
            ArgError::InvalidSegmentationMode => "Invalid Page Segmentation Mode (PSM)"@,
        }
    }

    /// A diagnostic line describing the error.
    pub fn message(&self) -> (r: &'static str)
        ensures
            r@ == self.spec_message(),
    {
        match self {
            ArgError::InvalidDimensions => "Invalid dimensions format. Use WIDTHxHEIGHT.",
            ArgError::InvalidNumber => "Invalid numeric value",
            ArgError::InvalidEngineMode => "Invalid OCR Engine Mode (OEM)",
            ArgError::InvalidSegmentationMode => "Invalid Page Segmentation Mode (PSM)",
        }
    }
}

/// Which recognition algorithm family the engine runs.
#[derive(Clone, Copy, Debug, PartialEq, Eq, Structural)]
pub enum EngineMode {
    /// Legacy pattern-matching engine only.
    TesseractOnly,
    /// Neural-net LSTM engine only.
    LstmOnly,
    /// Legacy and LSTM combined.
    TesseractLstmCombined,
    /// Whatever the engine's configuration selects.
    EngineDefault,
}

/// How the engine partitions the page into text regions.
#[derive(Clone, Copy, Debug, PartialEq, Eq, Structural)]
pub enum SegMode {
    OsdOnly,
    AutoOsd,
    AutoOnly,
    Auto,
    SingleColumn,
    SingleBlockVertText,
    SingleBlock,
    SingleLine,
    SingleWord,
    CircleWord,
    SingleChar,
    SparseText,
    SparseTextOsd,
    RawLine,
}

/// The engine mode a code in 0 ..= 3 selects.
pub open spec fn oem_of(n: int) -> EngineMode {
    if n == 0 {
        EngineMode::TesseractOnly
    } else if n == 1 {
        EngineMode::LstmOnly
    } else if n == 2 {
        EngineMode::TesseractLstmCombined
    } else {
        EngineMode::EngineDefault
    }
}

pub open spec fn oem_code(m: EngineMode) -> int {
    match m {
        EngineMode::TesseractOnly => 0,
        EngineMode::LstmOnly => 1,
        EngineMode::TesseractLstmCombined => 2,
        EngineMode::EngineDefault => 3,
    }
}

/// The segmentation mode a code in 0 ..= 13 selects.
pub open spec fn seg_of(n: int) -> SegMode {
    if n == 0 {
        SegMode::OsdOnly
    } else if n == 1 {
        SegMode::AutoOsd
    } else if n == 2 {
        SegMode::AutoOnly
    } else if n == 3 {
        SegMode::Auto
    } else if n == 4 {
        SegMode::SingleColumn
    } else if n == 5 {
        SegMode::SingleBlockVertText
    } else if n == 6 {
        SegMode::SingleBlock
    } else if n == 7 {
        SegMode::SingleLine
    } else if n == 8 {
        SegMode::SingleWord
    } else if n == 9 {
        SegMode::CircleWord
    } else if n == 10 {
        SegMode::SingleChar
    } else if n == 11 {
        SegMode::SparseText
    } else if n == 12 {
        SegMode::SparseTextOsd
    } else {
        SegMode::RawLine
    }
}

pub open spec fn seg_code(m: SegMode) -> int {
    match m {
        SegMode::OsdOnly => 0,
        SegMode::AutoOsd => 1,
        SegMode::AutoOnly => 2,
        SegMode::Auto => 3,
        SegMode::SingleColumn => 4,
        SegMode::SingleBlockVertText => 5,
        SegMode::SingleBlock => 6,
        SegMode::SingleLine => 7,
        SegMode::SingleWord => 8,
        SegMode::CircleWord => 9,
        SegMode::SingleChar => 10,
        SegMode::SparseText => 11,
        SegMode::SparseTextOsd => 12,
        SegMode::RawLine => 13,
    }
}

impl EngineMode {
    /// The engine's integer code for this mode.
    pub fn code(&self) -> (r: i32)
        ensures
            r as int == oem_code(*self),
    {
        match self {
            EngineMode::TesseractOnly => 0,
            EngineMode::LstmOnly => 1,
            EngineMode::TesseractLstmCombined => 2,
            EngineMode::EngineDefault => 3,
        }
    }
}

impl SegMode {
    /// The engine's integer code for this mode.
    pub fn code(&self) -> (r: i32)
        ensures
            r as int == seg_code(*self),
    {
        match self {
            SegMode::OsdOnly => 0,
            SegMode::AutoOsd => 1,
            SegMode::AutoOnly => 2,
            SegMode::Auto => 3,
            SegMode::SingleColumn => 4,
            SegMode::SingleBlockVertText => 5,
            SegMode::SingleBlock => 6,
            SegMode::SingleLine => 7,
            SegMode::SingleWord => 8,
            SegMode::CircleWord => 9,
            SegMode::SingleChar => 10,
            SegMode::SparseText => 11,
            SegMode::SparseTextOsd => 12,
            SegMode::RawLine => 13,
        }
    }
}

/// Selecting by code and reading the code back are inverse on 0 ..= 3.
pub proof fn lemma_oem_round_trip(n: int)
    requires
        0 <= n <= 3,
    ensures
        oem_code(oem_of(n)) == n,
{
}

/// Distinct engine codes select distinct engine modes.
pub proof fn lemma_oem_distinct(a: int, b: int)
    requires
        0 <= a <= 3,
        0 <= b <= 3,
        a != b,
    ensures
        oem_of(a) != oem_of(b),
{
    lemma_oem_round_trip(a);
    lemma_oem_round_trip(b);
}

/// Selecting by code and reading the code back are inverse on 0 ..= 13.
pub proof fn lemma_seg_round_trip(n: int)
    requires
        0 <= n <= 13,
    ensures
        seg_code(seg_of(n)) == n,
{
}

/// Distinct segmentation codes select distinct segmentation modes.
pub proof fn lemma_seg_distinct(a: int, b: int)
    requires
        0 <= a <= 13,
        0 <= b <= 13,
        a != b,
    ensures
        seg_of(a) != seg_of(b),
{
    lemma_seg_round_trip(a);
    lemma_seg_round_trip(b);
}

/// A written (signed, 32-bit) whole number: optional sign, then digits.
pub open spec fn is_int_str(s: Seq<u8>) -> bool {
    &&& strip_sign(s).len() >= 1
    &&& all_digits(strip_sign(s))
    &&& (if sign_of(s) == -1 {
        dec_val(strip_sign(s)) <= 0x8000_0000
    } else {
        dec_val(strip_sign(s)) <= 0x7FFF_FFFF
    })
}

/// The value a written whole number denotes.
pub open spec fn int_val(s: Seq<u8>) -> int {
    sign_of(s) * dec_val(strip_sign(s))
}

/// Read a signed whole number within the 32-bit range.
fn parse_int(s: &[u8]) -> (r: Option<i64>)
    ensures
        r is Some <==> is_int_str(s@),
        r is Some ==> r->Some_0 as int == int_val(s@),
{
    let n: usize = s.len();
    let mut neg: bool = false;
    let mut start: usize = 0;
    if n >= 1 && (s[0] == 43 || s[0] == 45) {
        neg = s[0] == 45;
        start = 1;
    }
    let body: &[u8] = &s[start..n];
    proof {
        assert(body@ =~= strip_sign(s@));
        assert(neg <==> sign_of(s@) == -1);
    }
    let cap: u64 = if neg {
        0x8000_0000
    } else {
        0x7FFF_FFFF
    };
    match dec_value(body, cap) {
        Some(v) => {
            if neg {
                Some(-(v as i64))
            } else {
                Some(v as i64)
            }
        },
        None => None,
    }
}

/// Read an engine mode: a whole number in 0 ..= 3.
pub fn parse_oem(s: &str) -> (r: Result<EngineMode, ArgError>)
    ensures
        r is Ok <==> is_int_str(s.spec_bytes()) && 0 <= int_val(s.spec_bytes()) <= 3,
        r is Ok ==> r->Ok_0 == oem_of(int_val(s.spec_bytes())),
        !is_int_str(s.spec_bytes()) ==> r == Err::<EngineMode, ArgError>(ArgError::InvalidNumber),
        is_int_str(s.spec_bytes()) && !(0 <= int_val(s.spec_bytes()) <= 3) ==> r == Err::<
            EngineMode,
            ArgError,
        >(ArgError::InvalidEngineMode),
{
    match parse_int(s.as_bytes()) {
        Some(v) => {
            if v == 0 {
                Ok(EngineMode::TesseractOnly)
            } else if v == 1 {
                Ok(EngineMode::LstmOnly)
            } else if v == 2 {
                Ok(EngineMode::TesseractLstmCombined)
            } else if v == 3 {
                Ok(EngineMode::EngineDefault)
            } else {
                Err(ArgError::InvalidEngineMode)
            }
        },
        None => Err(ArgError::InvalidNumber),
    }
}

/// Read a segmentation mode: a whole number in 0 ..= 13.
pub fn parse_psm(s: &str) -> (r: Result<SegMode, ArgError>)
    ensures
        r is Ok <==> is_int_str(s.spec_bytes()) && 0 <= int_val(s.spec_bytes()) <= 13,
        r is Ok ==> r->Ok_0 == seg_of(int_val(s.spec_bytes())),
        !is_int_str(s.spec_bytes()) ==> r == Err::<SegMode, ArgError>(ArgError::InvalidNumber),
        is_int_str(s.spec_bytes()) && !(0 <= int_val(s.spec_bytes()) <= 13) ==> r == Err::<
            SegMode,
            ArgError,
        >(ArgError::InvalidSegmentationMode),
{
    match parse_int(s.as_bytes()) {
        Some(v) => {
            if 0 <= v && v <= 13 {
                let c: i32 = v as i32;
                Ok(seg_from_code(c))
            } else {
                Err(ArgError::InvalidSegmentationMode)
            }
        },
        None => Err(ArgError::InvalidNumber),
    }
}

/// The segmentation mode for a code already known to be in 0 ..= 13.
fn seg_from_code(c: i32) -> (r: SegMode)
    requires
        0 <= c <= 13,
    ensures
        r == seg_of(c as int),
{
    if c == 0 {
        SegMode::OsdOnly
    } else if c == 1 {
        SegMode::AutoOsd
    } else if c == 2 {
        SegMode::AutoOnly
    } else if c == 3 {
        SegMode::Auto
    } else if c == 4 {
        SegMode::SingleColumn
    } else if c == 5 {
        SegMode::SingleBlockVertText
    } else if c == 6 {
        SegMode::SingleBlock
    } else if c == 7 {
        SegMode::SingleLine
    } else if c == 8 {
        SegMode::SingleWord
    } else if c == 9 {
        SegMode::CircleWord
    } else if c == 10 {
        SegMode::SingleChar
    } else if c == 11 {
        SegMode::SparseText
    } else if c == 12 {
        SegMode::SparseTextOsd
    } else {
        SegMode::RawLine
    }
}

/// The digits before the dimension separator `x`.
pub open spec fn dims_left(s: Seq<u8>) -> Seq<u8> {
    s.subrange(0, first_byte(s, 120))
}

/// The bytes after the dimension separator `x`; empty when there is none.
pub open spec fn dims_right(s: Seq<u8>) -> Seq<u8> {
    if first_byte(s, 120) == s.len() {
        Seq::empty()
    } else {
        s.subrange(first_byte(s, 120) + 1, s.len() as int)
    }
}

/// A whole number that fits a `u32`.
pub open spec fn u32_str(p: Seq<u8>) -> bool {
    p.len() >= 1 && all_digits(p) && dec_val(p) <= 0xFFFF_FFFF
}

/// A `WIDTHxHEIGHT` string: exactly one `x`, an in-range whole number on
/// either side.
pub open spec fn valid_dims(s: Seq<u8>) -> bool {
    count_byte(s, 120) == 1 && u32_str(dims_left(s)) && u32_str(dims_right(s))
}

pub open spec fn width_of(s: Seq<u8>) -> int {
    dec_val(dims_left(s))
}

pub open spec fn height_of(s: Seq<u8>) -> int {
    dec_val(dims_right(s))
}

/// No non-digit byte occurs in a digit string.
proof fn lemma_no_byte_in_digits(s: Seq<u8>, b: u8)
    requires
        all_digits(s),
        !crate::digits::is_digit(b),
    ensures
        count_byte(s, b) == 0,
    decreases s.len(),
{
    if s.len() > 0 {
        assert(crate::digits::is_digit(s[s.len() - 1]));
        assert(s.last() == s[s.len() - 1]);
        assert(all_digits(s.drop_last()));
        lemma_no_byte_in_digits(s.drop_last(), b);
    }
}

/// A well-formed dimension string parses to exactly its two parts: when a
/// string is a digit string `ws`, then `x`, then a digit string `hs`, with
/// both values fitting a `u32`, it is a valid resize string whose width is
/// the value of `ws` and whose height is the value of `hs`.
pub proof fn lemma_dimensions_of_parts(ws: Seq<u8>, hs: Seq<u8>)
    requires
        u32_str(ws),
        u32_str(hs),
    ensures
        valid_dims(ws + seq![120u8] + hs),
        width_of(ws + seq![120u8] + hs) == dec_val(ws),
        height_of(ws + seq![120u8] + hs) == dec_val(hs),
{
    let x = seq![120u8];
    let s = (ws + x) + hs;
    assert(count_byte(x, 120) == 1) by {
        assert(x.len() == 1);
        assert(x.drop_last() =~= Seq::<u8>::empty());
        assert(count_byte(Seq::<u8>::empty(), 120) == 0);
        assert(x.last() == 120u8);
        assert(count_byte(x, 120) == count_byte(x.drop_last(), 120) + 1);
    }
    crate::digits::lemma_count_byte_concat(ws + x, hs, 120);
    crate::digits::lemma_count_byte_concat(ws, x, 120);
    lemma_no_byte_in_digits(ws, 120);
    lemma_no_byte_in_digits(hs, 120);
    assert(count_byte(s, 120) == 1);
    assert(s[ws.len() as int] == 120u8);
    assert forall|j: int| 0 <= j < ws.len() implies s[j] != 120u8 by {
        assert(s[j] == ws[j]);
        assert(crate::digits::is_digit(ws[j]));
    }
    crate::digits::lemma_first_byte_at(s, 120, ws.len() as int);
    assert(dims_left(s) =~= ws);
    assert(dims_right(s) =~= hs);
    assert(ws + seq![120u8] + hs =~= s);
}

/// Read a `WIDTHxHEIGHT` resize string into its two dimensions.
pub fn parse_dimensions(dimensions: &str) -> (r: Result<(u32, u32), ArgError>)
    ensures
        r is Ok <==> valid_dims(dimensions.spec_bytes()),
        r is Ok ==> r->Ok_0.0 as int == width_of(dimensions.spec_bytes()) && r->Ok_0.1 as int
            == height_of(dimensions.spec_bytes()),
        r is Err ==> r->Err_0 == ArgError::InvalidDimensions,
{
    let b: &[u8] = dimensions.as_bytes();
    let n: usize = b.len();
    let (x, seps) = scan_byte(b, 120);
    if seps != 1 {
        return Err(ArgError::InvalidDimensions);
    }
    let left: &[u8] = &b[0..x];
    let right: &[u8] = &b[x + 1..n];
    proof {
        assert(left@ =~= dims_left(b@));
        assert(right@ =~= dims_right(b@));
    }
    let w: u64 = match dec_value(left, 0xFFFF_FFFF) {
        Some(v) => v,
        None => {
            return Err(ArgError::InvalidDimensions);
        },
    };
    let h: u64 = match dec_value(right, 0xFFFF_FFFF) {
        Some(v) => v,
        None => {
            return Err(ArgError::InvalidDimensions);
        },
    };
    Ok((w as u32, h as u32))
}

/// The fixed name of the preprocessed image, derived from the input path.
pub fn preprocessed_path(input: &str) -> (r: String)
    ensures
        r@ == input@ + "_preprocessed.jpg"@,
{
    let mut out: String = input.to_owned();
    out.append("_preprocessed.jpg");
    out
}

/// The validated configuration of one run.
#[derive(Debug)]
pub struct RunOptions {
    /// Source image path.
    pub input: String,
    /// Destination for the recognized text; standard output when absent.
    pub output: Option<String>,
    /// OCR language code, passed through uninterpreted.
    pub lang: String,
    /// Forced resize width, at least 1.
    pub width: u32,
    /// Forced resize height, at least 1.
    pub height: u32,
    /// Contrast adjustment setting.
    pub contrast: Contrast,
    /// OCR engine mode.
    pub oem: EngineMode,
    /// Page segmentation mode.
    pub psm: SegMode,
}

impl RunOptions {
    /// The construction invariant: positive dimensions, in-domain contrast.
    pub open spec fn wf(self) -> bool {
        self.width >= 1 && self.height >= 1 && self.contrast.wf()
    }
}

/// All raw option values are acceptable: contrast, engine mode and
/// segmentation mode are well formed and in range, and the resize string
/// names two positive dimensions.
pub open spec fn options_ok(rs: Seq<u8>, cs: Seq<u8>, os: Seq<u8>, ps: Seq<u8>) -> bool {
    &&& valid_contrast(cs)
    &&& is_int_str(os) && 0 <= int_val(os) <= 3
    &&& is_int_str(ps) && 0 <= int_val(ps) <= 13
    &&& valid_dims(rs)
    &&& width_of(rs) >= 1
    &&& height_of(rs) >= 1
}

/// The error construction reports, checking the contrast value, engine
/// mode, segmentation mode and dimensions in that order.
pub open spec fn options_error(rs: Seq<u8>, cs: Seq<u8>, os: Seq<u8>, ps: Seq<u8>) -> ArgError {
    if !valid_contrast(cs) {
        ArgError::InvalidNumber
    } else if !is_int_str(os) {
        ArgError::InvalidNumber
    } else if !(0 <= int_val(os) <= 3) {
        ArgError::InvalidEngineMode
    } else if !is_int_str(ps) {
        ArgError::InvalidNumber
    } else if !(0 <= int_val(ps) <= 13) {
        ArgError::InvalidSegmentationMode
    } else {
        ArgError::InvalidDimensions
    }
}

impl RunOptions {
    /// Build the validated configuration from raw option values, checking
    /// the contrast value, engine mode, segmentation mode and dimensions
    /// in that order and failing on the first bad one.
    pub fn new(
        input: String,
        output: Option<String>,
        lang: String,
        resize: &str,
        contrast: &str,
        oem: &str,
        psm: &str,
    ) -> (r: Result<RunOptions, ArgError>)
        ensures
            r is Ok <==> options_ok(
                resize.spec_bytes(),
                contrast.spec_bytes(),
                oem.spec_bytes(),
                psm.spec_bytes(),
            ),
            r is Ok ==> {
                let o = r->Ok_0;
                &&& o.input == input
                &&& o.output == output
                &&& o.lang == lang
                &&& o.width as int == width_of(resize.spec_bytes())
                &&& o.height as int == height_of(resize.spec_bytes())
                &&& o.contrast.milli as int == contrast_milli(contrast.spec_bytes())
                &&& o.oem == oem_of(int_val(oem.spec_bytes()))
                &&& o.psm == seg_of(int_val(psm.spec_bytes()))
                &&& o.wf()
            },
            r is Err ==> r->Err_0 == options_error(
                resize.spec_bytes(),
                contrast.spec_bytes(),
                oem.spec_bytes(),
                psm.spec_bytes(),
            ),
    {
        let c: Contrast = match parse_contrast(contrast) {
            Ok(c) => c,
            Err(e) => {
                return Err(e);
            },
        };
        let oem_mode: EngineMode = match parse_oem(oem) {
            Ok(m) => m,
            Err(e) => {
                return Err(e);
            },
        };
        let psm_mode: SegMode = match parse_psm(psm) {
            Ok(m) => m,
            Err(e) => {
                return Err(e);
            },
        };
        let (width, height) = match parse_dimensions(resize) {
            Ok(wh) => wh,
            Err(e) => {
                return Err(e);
            },
        };
        if width == 0 || height == 0 {
            return Err(ArgError::InvalidDimensions);
        }
        Ok(
            RunOptions {
                input,
                output,
                lang,
                width,
                height,
                contrast: c,
                oem: oem_mode,
                psm: psm_mode,
            },
        )
    }
}

} // verus!
