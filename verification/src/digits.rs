//! ASCII-decimal scanning: specs for digit strings and their values, and
//! verified helpers to locate a separator byte and read a decimal value.

use vstd::prelude::*;

verus! {

/// ASCII decimal digit.
pub open spec fn is_digit(b: u8) -> bool {
    48 <= b && b <= 57
}

/// Every byte of `s` is an ASCII decimal digit.
pub open spec fn all_digits(s: Seq<u8>) -> bool {
    forall|i: int| 0 <= i < s.len() ==> is_digit(#[trigger] s[i])
}

/// Value of an ASCII digit string, most significant digit first.
/// The empty string has value 0.
pub open spec fn dec_val(s: Seq<u8>) -> int
    decreases s.len(),
{
    if s.len() == 0 {
        0
    } else {
        dec_val(s.drop_last()) * 10 + (s.last() - 48)
    }
}

/// Number of occurrences of byte `b` in `s`.
pub open spec fn count_byte(s: Seq<u8>, b: u8) -> int
    decreases s.len(),
{
    if s.len() == 0 {
        0
    } else {
        count_byte(s.drop_last(), b) + if s.last() == b {
            1int
        } else {
            0int
        }
    }
}

pub open spec fn first_byte_from(s: Seq<u8>, b: u8, i: int) -> int
    decreases s.len() - i when 0 <= i <= s.len()
{
    if i >= s.len() {
        s.len() as int
    } else if s[i] == b {
        i
    } else {
        first_byte_from(s, b, i + 1)
    }
}

/// Index of the first occurrence of `b` in `s`; `s.len()` when `b` is absent.
pub open spec fn first_byte(s: Seq<u8>, b: u8) -> int {
    first_byte_from(s, b, 0)
}

/// Sign a leading `+` or `-` denotes: `-1` for `-`, else `1`.
pub open spec fn sign_of(s: Seq<u8>) -> int {
    if s.len() >= 1 && s[0] == 45 {
        -1int
    } else {
        1int
    }
}

/// `s` with any leading `+` or `-` removed.
pub open spec fn strip_sign(s: Seq<u8>) -> Seq<u8> {
    if s.len() >= 1 && (s[0] == 43 || s[0] == 45) {
        s.drop_first()
    } else {
        s
    }
}

/// A digit string's value is never negative.
pub proof fn lemma_dec_val_nonneg(s: Seq<u8>)
    requires
        all_digits(s),
    ensures
        dec_val(s) >= 0,
    decreases s.len(),
{
    if s.len() > 0 {
        assert(all_digits(s.drop_last()));
        lemma_dec_val_nonneg(s.drop_last());
    }
}

/// The value of a prefix of a digit string never exceeds the whole value.
pub proof fn lemma_dec_val_prefix_le(s: Seq<u8>, i: int)
    requires
        all_digits(s),
        0 <= i <= s.len(),
    ensures
        dec_val(s.subrange(0, i)) <= dec_val(s),
    decreases s.len() - i,
{
    if i == s.len() {
        assert(s.subrange(0, i) =~= s);
    } else {
        lemma_dec_val_prefix_le(s, i + 1);
        assert(s.subrange(0, i + 1).drop_last() =~= s.subrange(0, i));
        assert(all_digits(s.subrange(0, i)));
        lemma_dec_val_nonneg(s.subrange(0, i));
        assert(dec_val(s.subrange(0, i + 1)) == dec_val(s.subrange(0, i)) * 10 + (s[i] - 48));
    }
}

/// Occurrence counts add up over concatenation.
pub proof fn lemma_count_byte_concat(a: Seq<u8>, c: Seq<u8>, b: u8)
    ensures
        count_byte(a + c, b) == count_byte(a, b) + count_byte(c, b),
    decreases c.len(),
{
    if c.len() == 0 {
        assert(a + c =~= a);
    } else {
        lemma_count_byte_concat(a, c.drop_last(), b);
        assert((a + c).drop_last() =~= a + c.drop_last());
        assert((a + c).last() == c.last());
    }
}

proof fn lemma_first_byte_from_at(s: Seq<u8>, b: u8, i: int, k: int)
    requires
        0 <= i <= k < s.len(),
        s[k] == b,
        forall|j: int| i <= j < k ==> s[j] != b,
    ensures
        first_byte_from(s, b, i) == k,
    decreases k - i,
{
    if i < k {
        lemma_first_byte_from_at(s, b, i + 1, k);
    }
}

/// The first occurrence is at `k` when `s[k] == b` and no earlier byte is `b`.
pub proof fn lemma_first_byte_at(s: Seq<u8>, b: u8, k: int)
    requires
        0 <= k < s.len(),
        s[k] == b,
        forall|j: int| 0 <= j < k ==> s[j] != b,
    ensures
        first_byte(s, b) == k,
{
    lemma_first_byte_from_at(s, b, 0, k);
}

proof fn lemma_first_byte_from_none(s: Seq<u8>, b: u8, i: int)
    requires
        0 <= i <= s.len(),
        forall|j: int| i <= j < s.len() ==> s[j] != b,
    ensures
        first_byte_from(s, b, i) == s.len(),
    decreases s.len() - i,
{
    if i < s.len() {
        lemma_first_byte_from_none(s, b, i + 1);
    }
}

/// When `b` does not occur, the first occurrence index is `s.len()`.
pub proof fn lemma_first_byte_none(s: Seq<u8>, b: u8)
    requires
        forall|j: int| 0 <= j < s.len() ==> s[j] != b,
    ensures
        first_byte(s, b) == s.len(),
{
    lemma_first_byte_from_none(s, b, 0);
}

/// Locate byte `b` in `s`: the index of its first occurrence (or `s.len()`
/// when absent) together with the total number of occurrences.
pub fn scan_byte(s: &[u8], b: u8) -> (r: (usize, usize))
    ensures
        r.0 as int == first_byte(s@, b),
        r.1 as int == count_byte(s@, b),
        r.1 > 0 ==> r.0 < s@.len() && s@[r.0 as int] == b,
        r.1 == 0 ==> r.0 == s@.len(),
{
    let n: usize = s.len();
    let mut first: usize = n;
    let mut count: usize = 0;
    let mut i: usize = 0;
    while i < n
        invariant
            n == s@.len(),
            0 <= i <= n,
            count as int == count_byte(s@.subrange(0, i as int), b),
            count <= i,
            count > 0 ==> first < i && s@[first as int] == b && (forall|j: int|
                0 <= j < first ==> s@[j] != b),
            count == 0 ==> first == n && (forall|j: int| 0 <= j < i ==> s@[j] != b),
        decreases n - i,
    {
        proof {
            assert(s@.subrange(0, i + 1).drop_last() =~= s@.subrange(0, i as int));
        }
        if s[i] == b {
            if count == 0 {
                first = i;
            }
            count = count + 1;
        }
        i = i + 1;
    }
    proof {
        assert(s@.subrange(0, n as int) =~= s@);
        if count > 0 {
            lemma_first_byte_at(s@, b, first as int);
        } else {
            lemma_first_byte_none(s@, b);
        }
    }
    (first, count)
}

/// Read the decimal value of `s`. `None` when `s` is empty, holds a
/// non-digit byte, or its value exceeds `cap`.
pub fn dec_value(s: &[u8], cap: u64) -> (r: Option<u64>)
    requires
        cap <= 0xFFFF_FFFF,
    ensures
        r is Some <==> (s@.len() >= 1 && all_digits(s@) && dec_val(s@) <= cap),
        r is Some ==> r->Some_0 as int == dec_val(s@),
{
    let n: usize = s.len();
    if n == 0 {
        return None;
    }
    let mut acc: u64 = 0;
    let mut i: usize = 0;
    while i < n
        invariant
            n == s@.len(),
            0 <= i <= n,
            cap <= 0xFFFF_FFFF,
            all_digits(s@.subrange(0, i as int)),
            acc as int == dec_val(s@.subrange(0, i as int)),
            acc <= cap,
        decreases n - i,
    {
        proof {
            assert(s@.subrange(0, i + 1).drop_last() =~= s@.subrange(0, i as int));
        }
        let c: u8 = s[i];
        if c < 48 || c > 57 {
            return None;
        }
        let d: u64 = (c - 48) as u64;
        let next: u64 = acc * 10 + d;
        if next > cap {
            proof {
                if all_digits(s@) {
                    lemma_dec_val_prefix_le(s@, i + 1);
                }
            }
            return None;
        }
        acc = next;
        i = i + 1;
    }
    proof {
        assert(s@.subrange(0, n as int) =~= s@);
    }
    Some(acc)
}

/// Read the decimal value of `s`, saturating at `lim`. `None` exactly when
/// some byte of `s` is not a digit; the empty string reads as 0.
pub fn dec_value_sat(s: &[u8], lim: u64) -> (r: Option<u64>)
    requires
        1 <= lim <= 0xFFFF_FFFF,
    ensures
        r is Some <==> all_digits(s@),
        r is Some ==> r->Some_0 as int == vstd::math::min(dec_val(s@), lim as int),
{
    let n: usize = s.len();
    let mut acc: u64 = 0;
    let mut i: usize = 0;
    while i < n
        invariant
            n == s@.len(),
            0 <= i <= n,
            1 <= lim <= 0xFFFF_FFFF,
            all_digits(s@.subrange(0, i as int)),
            acc as int == vstd::math::min(dec_val(s@.subrange(0, i as int)), lim as int),
            acc <= lim,
        decreases n - i,
    {
        proof {
            assert(s@.subrange(0, i + 1).drop_last() =~= s@.subrange(0, i as int));
            assert(all_digits(s@.subrange(0, i as int)));
            lemma_dec_val_nonneg(s@.subrange(0, i as int));
        }
        let c: u8 = s[i];
        if c < 48 || c > 57 {
            return None;
        }
        let d: u64 = (c - 48) as u64;
        let next: u64 = acc * 10 + d;
        if next > lim {
            acc = lim;
        } else {
            acc = next;
        }
        i = i + 1;
    }
    proof {
        assert(s@.subrange(0, n as int) =~= s@);
    }
    Some(acc)
}

} // verus!
