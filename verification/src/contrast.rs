//! Contrast: a fixed-point contrast setting parsed from a decimal string,
//! and a verified symmetric contrast-stretch curve on 8-bit gray pixels.
//!
//! The setting is held in thousandths. The accepted written form is an
//! optional sign, then digits with at most one decimal point and at least
//! one digit in all (exponent and non-finite forms are not accepted).
//! Fractional digits past the third are dropped, and the magnitude
//! saturates at 255.000, the domain of the stretch curve.

use vstd::prelude::*;

use crate::digits::{
    all_digits, count_byte, dec_val, dec_value_sat, first_byte, lemma_dec_val_nonneg, scan_byte,
    sign_of, strip_sign,
};
use crate::options::ArgError;
use vstd::math::max;
use vstd::math::min;
use vstd::string::StringSliceAdditionalSpecFns;

verus! {

/// A contrast adjustment setting, in thousandths of the written value.
#[derive(Clone, Copy, Debug, PartialEq, Eq, Structural)]
pub struct Contrast {
    pub milli: i64,
}

impl Contrast {
    /// The setting lies in the curve's domain.
    pub open spec fn wf(self) -> bool {
        -255000 <= self.milli <= 255000
    }
}

/// Digits before the decimal point (the whole body when there is none).
pub open spec fn int_part(t: Seq<u8>) -> Seq<u8> {
    t.subrange(0, first_byte(t, 46))
}

/// Digits after the decimal point; empty when there is none.
pub open spec fn frac_part(t: Seq<u8>) -> Seq<u8> {
    if first_byte(t, 46) == t.len() {
        Seq::empty()
    } else {
        t.subrange(first_byte(t, 46) + 1, t.len() as int)
    }
}

/// An unsigned setting body: at most one decimal point, digits on both
/// sides of it, and at least one digit in all.
pub open spec fn valid_contrast_body(t: Seq<u8>) -> bool {
    &&& count_byte(t, 46) <= 1
    &&& all_digits(int_part(t))
    &&& all_digits(frac_part(t))
    &&& int_part(t).len() + frac_part(t).len() >= 1
}

/// A written contrast setting: optional sign, then a valid body.
pub open spec fn valid_contrast(s: Seq<u8>) -> bool {
    valid_contrast_body(strip_sign(s))
}

/// Value of the leading three fractional digits, in thousandths.
pub open spec fn frac_milli(f: Seq<u8>) -> int {
    if f.len() >= 3 {
        dec_val(f.subrange(0, 3))
    } else if f.len() == 2 {
        dec_val(f) * 10
    } else if f.len() == 1 {
        dec_val(f) * 100
    } else {
        0
    }
}

/// The setting a written form denotes, in thousandths: truncated past the
/// third fractional digit and saturated at the curve's domain bound.
pub open spec fn contrast_milli(s: Seq<u8>) -> int {
    sign_of(s) * min(
        dec_val(int_part(strip_sign(s))) * 1000 + frac_milli(frac_part(strip_sign(s))),
        255000,
    )
}

/// Parse a written contrast setting.
pub fn parse_contrast(s: &str) -> (r: Result<Contrast, ArgError>)
    ensures
        r is Ok <==> valid_contrast(s.spec_bytes()),
        r is Ok ==> r->Ok_0.milli as int == contrast_milli(s.spec_bytes()),
        r is Ok ==> r->Ok_0.wf(),
        r is Err ==> r->Err_0 == ArgError::InvalidNumber,
{
    let b: &[u8] = s.as_bytes();
    let n: usize = b.len();
    let mut neg: bool = false;
    let mut start: usize = 0;
    if n >= 1 && (b[0] == 43 || b[0] == 45) {
        neg = b[0] == 45;
        start = 1;
    }
    let body: &[u8] = &b[start..n];
    proof {
        assert(body@ =~= strip_sign(s.spec_bytes()));
        assert(neg <==> sign_of(s.spec_bytes()) == -1);
    }
    let (dot, dots) = scan_byte(body, 46);
    if dots > 1 {
        return Err(ArgError::InvalidNumber);
    }
    let ip: &[u8] = &body[0..dot];
    proof {
        assert(ip@ =~= int_part(body@));
    }
    let ip_val: u64 = match dec_value_sat(ip, 1000) {
        Some(v) => v,
        None => {
            return Err(ArgError::InvalidNumber);
        },
    };
    let fp: &[u8] = if dot < body.len() {
        &body[dot + 1..body.len()]
    } else {
        &body[body.len()..body.len()]
    };
    proof {
        assert(fp@ =~= frac_part(body@));
    }
    if ip.len() == 0 && fp.len() == 0 {
        return Err(ArgError::InvalidNumber);
    }
    let f_m: u64 = match frac_milli_value(fp) {
        Some(v) => v,
        None => {
            return Err(ArgError::InvalidNumber);
        },
    };
    proof {
        lemma_dec_val_nonneg(ip@);
        lemma_frac_milli_nonneg(fp@);
        assert(ip_val as int == min(dec_val(ip@), 1000));
        if dec_val(ip@) >= 1000 {
            assert(ip_val as int * 1000 + f_m as int >= 1000000);
            assert(dec_val(ip@) * 1000 + frac_milli(fp@) >= 1000000);
        }
        assert(min(ip_val as int * 1000 + f_m as int, 255000) == min(
            dec_val(ip@) * 1000 + frac_milli(fp@),
            255000,
        ));
    }
    let mut m: u64 = ip_val * 1000 + f_m;
    if m > 255000 {
        m = 255000;
    }
    let milli: i64 = if neg {
        -(m as i64)
    } else {
        m as i64
    };
    Ok(Contrast { milli })
}

/// The thousandths value of a fractional-digit string is in `[0, 999]`.
proof fn lemma_frac_milli_nonneg(f: Seq<u8>)
    requires
        all_digits(f),
    ensures
        0 <= frac_milli(f) <= 999,
{
    if f.len() >= 3 {
        let g = f.subrange(0, 3);
        assert(all_digits(g));
        lemma_dec_val_nonneg(g);
        lemma_dec_val_le_999(g);
    } else if f.len() == 2 {
        lemma_dec_val_nonneg(f);
        lemma_dec_val_le_99(f);
    } else if f.len() == 1 {
        lemma_dec_val_nonneg(f);
        lemma_dec_val_le_9(f);
    }
}

/// A single digit has value at most 9.
proof fn lemma_dec_val_le_9(s: Seq<u8>)
    requires
        all_digits(s),
        s.len() <= 1,
    ensures
        dec_val(s) <= 9,
{
    if s.len() == 1 {
        assert(crate::digits::is_digit(s[0]));
        assert(s.last() == s[0]);
        assert(s.drop_last().len() == 0);
        assert(dec_val(s.drop_last()) == 0);
        assert(dec_val(s) == dec_val(s.drop_last()) * 10 + (s.last() - 48));
    }
}

proof fn lemma_dec_val_le_99(s: Seq<u8>)
    requires
        all_digits(s),
        s.len() <= 2,
    ensures
        dec_val(s) <= 99,
{
    if s.len() >= 1 {
        assert(crate::digits::is_digit(s[s.len() - 1]));
        assert(s.last() == s[s.len() - 1]);
        assert(all_digits(s.drop_last()));
        lemma_dec_val_le_9(s.drop_last());
    }
}

/// A digit string of at most three digits has value at most 999.
proof fn lemma_dec_val_le_999(s: Seq<u8>)
    requires
        all_digits(s),
        s.len() <= 3,
    ensures
        dec_val(s) <= 999,
{
    if s.len() >= 1 {
        assert(crate::digits::is_digit(s[s.len() - 1]));
        assert(s.last() == s[s.len() - 1]);
        assert(all_digits(s.drop_last()));
        lemma_dec_val_le_99(s.drop_last());
    }
}

/// Thousandths value of the fractional digits: the first three digits,
/// right-padded with zeros. `None` when a byte is not a digit.
fn frac_milli_value(f: &[u8]) -> (r: Option<u64>)
    ensures
        r is Some <==> all_digits(f@),
        r is Some ==> r->Some_0 as int == frac_milli(f@),
        r is Some ==> r->Some_0 <= 999,
{
    let n: usize = f.len();
    if n >= 3 {
        let lead: &[u8] = &f[0..3];
        proof {
            assert(lead@ =~= f@.subrange(0, 3));
        }
        match crate::digits::dec_value(lead, 999) {
            Some(v) => {
                if !tail_digits(f, 3) {
                    return None;
                }
                proof {
                    assert forall|i: int| 0 <= i < f@.len() implies crate::digits::is_digit(
                        #[trigger] f@[i],
                    ) by {
                        if i < 3 {
                            assert(f@[i] == lead@[i]);
                        }
                    }
                }
                Some(v)
            },
            None => {
                proof {
                    if all_digits(f@) {
                        assert(all_digits(lead@));
                        lemma_dec_val_le_999(f@.subrange(0, 3));
                    }
                }
                None
            },
        }
    } else if n == 2 {
        match crate::digits::dec_value(f, 99) {
            Some(v) => Some(v * 10),
            None => {
                proof {
                    if all_digits(f@) {
                        lemma_dec_val_le_99(f@);
                    }
                }
                None
            },
        }
    } else if n == 1 {
        match crate::digits::dec_value(f, 9) {
            Some(v) => Some(v * 100),
            None => {
                proof {
                    if all_digits(f@) {
                        lemma_dec_val_le_9(f@);
                    }
                }
                None
            },
        }
    } else {
        Some(0)
    }
}

/// Bytes of `s` from `k` on are all digits.
pub open spec fn is_digit_tail(s: Seq<u8>, k: int) -> bool {
    forall|i: int| k <= i < s.len() ==> crate::digits::is_digit(#[trigger] s[i])
}

/// Check that every byte from index `k` on is a digit.
fn tail_digits(f: &[u8], k: usize) -> (r: bool)
    requires
        k <= f@.len(),
    ensures
        r <==> is_digit_tail(f@, k as int),
{
    let n: usize = f.len();
    let mut i: usize = k;
    while i < n
        invariant
            k <= i <= n,
            n == f@.len(),
            forall|j: int| k <= j < i ==> crate::digits::is_digit(#[trigger] f@[j]),
        decreases n - i,
    {
        let c: u8 = f[i];
        if c < 48 || c > 57 {
            return false;
        }
        i = i + 1;
    }
    true
}

/// Scaled slope numerator of the stretch curve for setting `m`
/// (thousandths); nonnegative on the domain.
pub open spec fn stretch_num(m: int) -> int {
    259 * (m + 255000)
}

/// Scaled slope denominator of the stretch curve; positive on the domain.
pub open spec fn stretch_den(m: int) -> int {
    255 * (259000 - m)
}

/// One pixel through the symmetric contrast-stretch curve: the distance
/// from mid-gray 128 is scaled by 259(C + 255) / (255(259 - C)), with C
/// the setting in whole units, and the result is clamped to 0 ..= 255.
pub open spec fn stretch_pixel(p: int, m: int) -> int {
    if p >= 128 {
        min(128 + (p - 128) * stretch_num(m) / stretch_den(m), 255)
    } else {
        max(128 - (128 - p) * stretch_num(m) / stretch_den(m), 0)
    }
}

/// A row of pixels through the stretch curve.
pub open spec fn stretch_seq(s: Seq<u8>, m: int) -> Seq<u8> {
    Seq::new(s.len(), |i: int| stretch_pixel(s[i] as int, m) as u8)
}

/// The curve sends a pixel to 0 ..= 255.
pub proof fn lemma_stretch_pixel_in_range(p: int, m: int)
    requires
        0 <= p <= 255,
        -255000 <= m <= 255000,
    ensures
        0 <= stretch_pixel(p, m) <= 255,
{
    let num = stretch_num(m);
    let den = stretch_den(m);
    assert(num >= 0);
    assert(den >= 255 * 4000);
    if p >= 128 {
        vstd::arithmetic::div_mod::lemma_div_is_ordered_by_denominator(
            (p - 128) * num,
            1,
            den,
        );
        assert((p - 128) * num / den >= 0) by {
            vstd::arithmetic::div_mod::lemma_div_basics((p - 128) * num);
            vstd::arithmetic::div_mod::lemma_div_pos_is_pos((p - 128) * num, den);
        }
    } else {
        assert((128 - p) * num / den >= 0) by {
            vstd::arithmetic::div_mod::lemma_div_pos_is_pos((128 - p) * num, den);
        }
    }
}

/// One pixel through the stretch curve, in machine arithmetic.
pub fn stretch_pixel_u8(p: u8, c: &Contrast) -> (r: u8)
    requires
        c.wf(),
    ensures
        r as int == stretch_pixel(p as int, c.milli as int),
{
    let m: i64 = c.milli;
    let num: u64 = (259 * (m + 255000)) as u64;
    let den: u64 = (255 * (259000 - m)) as u64;
    proof {
        assert(num as int == stretch_num(m as int));
        assert(den as int == stretch_den(m as int));
        assert(num <= 132090000);
        assert(den >= 1020000);
    }
    if p >= 128 {
        let diff: u64 = (p - 128) as u64;
        proof {
            vstd::arithmetic::mul::lemma_mul_upper_bound(
                diff as int,
                127,
                num as int,
                132090000,
            );
        }
        let q: u64 = diff * num / den;
        if q >= 127 {
            255
        } else {
            (128 + q) as u8
        }
    } else {
        let diff: u64 = (128 - p) as u64;
        proof {
            vstd::arithmetic::mul::lemma_mul_upper_bound(
                diff as int,
                128,
                num as int,
                132090000,
            );
        }
        let q: u64 = diff * num / den;
        if q >= 128 {
            0
        } else {
            (128 - q) as u8
        }
    }
}

/// Stretch every pixel of an 8-bit gray buffer by the setting `c`.
pub fn apply_contrast(pixels: &Vec<u8>, c: &Contrast) -> (r: Vec<u8>)
    requires
        c.wf(),
    ensures
        r@ == stretch_seq(pixels@, c.milli as int),
{
    let n: usize = pixels.len();
    let mut out: Vec<u8> = Vec::new();
    let mut i: usize = 0;
    while i < n
        invariant
            0 <= i <= n,
            n == pixels@.len(),
            c.wf(),
            out@.len() == i as int,
            forall|j: int|
                0 <= j < i ==> out@[j] == stretch_pixel(pixels@[j] as int, c.milli as int) as u8,
        decreases n - i,
    {
        let v: u8 = stretch_pixel_u8(pixels[i], c);
        out.push(v);
        i = i + 1;
    }
    proof {
        assert(out@ =~= stretch_seq(pixels@, c.milli as int));
    }
    out
}

} // verus!
