//! The round-trip validator: whether the digits written in a literal are the
//! digits of the value that is stored for it.
//!
//! The stored value is found by the platform's float parser, and its minimal
//! decimal text by the platform's formatter, outside this library. This module
//! prepares the text for the parser and judges the text that comes back.
use vstd::prelude::*;
use crate::scan::{
    digit_run, find_mantissa_len, is_digit, is_digit_byte, mantissa_len, significant_digits,
    LOWER_EXP, POINT, SEPARATOR, SUFFIX_MARK, UPPER_EXP, ZERO,
};
use crate::suffix::{append_range, find_suffix_start, unsuffixed};

verus! {

/// The sign `+`.
pub const PLUS: u8 = 43;

/// The sign `-`.
pub const MINUS: u8 = 45;

/// The bytes of `part` that are no separators, in order.
pub open spec fn without_separators(part: Seq<u8>) -> Seq<u8>
    decreases part.len(),
{
    if part.len() == 0 {
        Seq::empty()
    } else if part.last() == SEPARATOR {
        without_separators(part.drop_last())
    } else {
        without_separators(part.drop_last()).push(part.last())
    }
}

/// The text to hand to a float parser: the literal without its width suffix
/// and without separators.
pub open spec fn numeric_text(text: Seq<u8>) -> Seq<u8> {
    without_separators(unsuffixed(text))
}

/// Whether the mantissa is followed by an exponent.
pub open spec fn has_exponent(text: Seq<u8>) -> bool {
    let end = mantissa_len(text);
    end < text.len() && text[end] != SUFFIX_MARK
}

/// A byte of a plain decimal number: a digit, the point, a sign or an
/// exponent marker.
pub open spec fn is_decimal_byte(b: u8) -> bool {
    is_digit(b) || b == POINT || b == PLUS || b == MINUS || b == LOWER_EXP || b == UPPER_EXP
}

/// Whether `text` reads as a plain decimal number: it holds a digit, and
/// nothing but digits, points, signs and exponent markers. The texts that a
/// formatter gives for an infinity or for a value that is no number are not
/// of this form.
pub open spec fn is_decimal_text(text: Seq<u8>) -> bool {
    &&& exists|i: int| 0 <= i < text.len() && is_digit(#[trigger] text[i])
    &&& forall|i: int| 0 <= i < text.len() ==> is_decimal_byte(#[trigger] text[i])
}

/// The digit characters of a run, without their offsets.
pub open spec fn digit_values(run: Seq<(usize, u8)>) -> Seq<u8> {
    Seq::new(run.len(), |k: int| run[k].1)
}

/// `digits` without the zeros at its end.
pub open spec fn trim_zeros(digits: Seq<u8>) -> Seq<u8>
    decreases digits.len(),
{
    if digits.len() > 0 && digits.last() == ZERO {
        trim_zeros(digits.drop_last())
    } else {
        digits
    }
}

/// The digits that a literal's text denotes: its significant digits without
/// padding zeros at the end.
pub open spec fn written_digits(text: Seq<u8>) -> Seq<u8> {
    trim_zeros(digit_values(digit_run(text)))
}

/// Whether two texts denote the same digit sequence, whatever their
/// separators, suffixes, exponents, leading zeros and padding zeros.
pub open spec fn same_digits(a: Seq<u8>, b: Seq<u8>) -> bool {
    written_digits(a) == written_digits(b)
}

/// What the validator answers for a literal and the minimal round-trip text
/// of its stored value: nothing where both denote the same digits, else the
/// minimal text.
pub open spec fn validated(text: Seq<u8>, minimal: Seq<u8>) -> Option<Seq<u8>> {
    if same_digits(text, minimal) {
        None
    } else {
        Some(minimal)
    }
}

/// Prepares a literal for the float parser: drops the width suffix and every
/// separator.
pub fn strip_for_parsing(text: &[u8]) -> (out: Vec<u8>)
    ensures
        out@ == numeric_text(text@),
{
    let end: usize = find_suffix_start(text);
    let mut out: Vec<u8> = Vec::new();
    let mut i: usize = 0;
    while i < end
        invariant
            i <= end <= text@.len(),
            out@ == without_separators(text@.take(i as int)),
        decreases end - i,
    {
        proof {
            assert(text@.take(i + 1).drop_last() =~= text@.take(i as int));
        }
        if text[i] != SEPARATOR {
            out.push(text[i]);
        }
        i += 1;
    }
    out
}

/// Tests whether the mantissa of a literal is followed by an exponent.
pub fn literal_has_exponent(text: &[u8]) -> (r: bool)
    ensures
        r == has_exponent(text@),
{
    let end: usize = find_mantissa_len(text);
    end < text.len() && text[end] != SUFFIX_MARK
}

/// Tests whether a text reads as a plain decimal number.
pub fn is_decimal(text: &[u8]) -> (r: bool)
    ensures
        r == is_decimal_text(text@),
{
    let mut seen_digit: bool = false;
    let mut i: usize = 0;
    while i < text.len()
        invariant
            i <= text@.len(),
            seen_digit == (exists|j: int| 0 <= j < i && is_digit(#[trigger] text@[j])),
            forall|j: int| 0 <= j < i ==> is_decimal_byte(#[trigger] text@[j]),
        decreases text@.len() - i,
    {
        let b: u8 = text[i];
        if is_digit_byte(b) {
            seen_digit = true;
        } else if !(b == POINT || b == PLUS || b == MINUS || b == LOWER_EXP || b == UPPER_EXP) {
            return false;
        }
        i += 1;
    }
    seen_digit
}

/// The length of a run once the zeros at its end are dropped.
fn trimmed_len(run: &Vec<(usize, u8)>) -> (n: usize)
    ensures
        n <= run@.len(),
        digit_values(run@).take(n as int) == trim_zeros(digit_values(run@)),
{
    let mut n: usize = run.len();
    proof {
        assert(digit_values(run@).take(n as int) =~= digit_values(run@));
    }
    while n > 0 && run[n - 1].1 == ZERO
        invariant
            n <= run@.len(),
            trim_zeros(digit_values(run@)) == trim_zeros(digit_values(run@).take(n as int)),
        decreases n,
    {
        proof {
            assert(digit_values(run@).take(n as int).drop_last() =~= digit_values(run@).take(
                n - 1,
            ));
        }
        n -= 1;
    }
    n
}

/// Tests whether two texts denote the same digit sequence.
pub fn denote_same_digits(a: &[u8], b: &[u8]) -> (r: bool)
    ensures
        r == same_digits(a@, b@),
{
    let run_a = significant_digits(a);
    let run_b = significant_digits(b);
    let n: usize = trimmed_len(&run_a);
    let m: usize = trimmed_len(&run_b);
    let ghost da = digit_values(run_a@);
    let ghost db = digit_values(run_b@);
    if n != m {
        proof {
            assert(da.take(n as int).len() == n);
            assert(db.take(m as int).len() == m);
        }
        return false;
    }
    let mut k: usize = 0;
    while k < n
        invariant
            k <= n <= run_a@.len(),
            n <= run_b@.len(),
            da == digit_values(run_a@),
            db == digit_values(run_b@),
            da.take(n as int) == written_digits(a@),
            db.take(n as int) == written_digits(b@),
            forall|j: int| 0 <= j < k ==> da[j] == db[j],
        decreases n - k,
    {
        if run_a[k].1 != run_b[k].1 {
            proof {
                assert(da.take(n as int)[k as int] != db.take(n as int)[k as int]);
            }
            return false;
        }
        k += 1;
    }
    proof {
        assert(da.take(n as int) =~= db.take(n as int));
    }
    true
}

/// Judges a literal against the minimal round-trip text of the value stored
/// for it. Where the two denote the same digits, what the literal holds
/// beyond them is cosmetic and nothing is returned; where they differ, the
/// literal holds digits that are not stored, and the minimal text is
/// returned.
pub fn validate(text: &[u8], minimal: &[u8]) -> (r: Option<Vec<u8>>)
    ensures
        match r {
            Some(s) => validated(text@, minimal@) == Some(s@),
            None => validated(text@, minimal@) is None,
        },
{
    if denote_same_digits(text, minimal) {
        None
    } else {
        let mut kept: Vec<u8> = Vec::new();
        append_range(&mut kept, minimal, 0, minimal.len());
        proof {
            assert(minimal@.subrange(0, minimal@.len() as int) =~= minimal@);
        }
        Some(kept)
    }
}

} // verus!
