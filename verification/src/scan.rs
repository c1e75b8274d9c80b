//! The digit scanner: which bytes of a literal's text are significant
//! decimal digits, and where they stand.
use vstd::prelude::*;

verus! {

/// The digit-group separator `_`.
pub const SEPARATOR: u8 = 95;

/// The decimal point `.`.
pub const POINT: u8 = 46;

/// The digit `0`.
pub const ZERO: u8 = 48;

/// The digit `9`.
pub const NINE: u8 = 57;

/// The exponent marker `e`.
pub const LOWER_EXP: u8 = 101;

/// The exponent marker `E`.
pub const UPPER_EXP: u8 = 69;

/// The first byte of a width suffix, `f`.
pub const SUFFIX_MARK: u8 = 102;

/// An ASCII decimal digit.
pub open spec fn is_digit(b: u8) -> bool {
    ZERO <= b <= NINE
}

/// A byte that ends the mantissa: an exponent marker or the start of a
/// width suffix.
pub open spec fn ends_mantissa(b: u8) -> bool {
    b == LOWER_EXP || b == UPPER_EXP || b == SUFFIX_MARK
}

/// The first index at or after `from` that holds a byte ending the mantissa,
/// or the length of the text when there is none.
pub open spec fn mantissa_end(text: Seq<u8>, from: int) -> int
    decreases text.len() - from,
{
    if from < 0 || from >= text.len() || ends_mantissa(text[from]) {
        from
    } else {
        mantissa_end(text, from + 1)
    }
}

/// The length of the mantissa: the part of the text before any exponent and
/// any width suffix.
pub open spec fn mantissa_len(text: Seq<u8>) -> int {
    mantissa_end(text, 0)
}

/// The mantissa of a literal.
pub open spec fn mantissa(text: Seq<u8>) -> Seq<u8> {
    text.take(mantissa_len(text))
}

/// The digits of `part` from its first nonzero digit on, each with its
/// offset. Zeros before the first nonzero digit are left out on either side
/// of the decimal point; after it every digit counts. Bytes that are no
/// digits (sign, separator, point) are passed over.
pub open spec fn significant(part: Seq<u8>) -> Seq<(usize, u8)>
    decreases part.len(),
{
    if part.len() == 0 {
        Seq::empty()
    } else {
        let before = significant(part.drop_last());
        let b = part.last();
        if is_digit(b) && (b != ZERO || before.len() > 0) {
            before.push(((part.len() - 1) as usize, b))
        } else {
            before
        }
    }
}

/// The offset of the first digit of `part`, if it has one.
pub open spec fn first_digit(part: Seq<u8>) -> Option<usize>
    decreases part.len(),
{
    if part.len() == 0 {
        None
    } else {
        match first_digit(part.drop_last()) {
            Some(at) => Some(at),
            None => if is_digit(part.last()) {
                Some((part.len() - 1) as usize)
            } else {
                None
            },
        }
    }
}

/// The significant digits of a literal, in the order written, each with its
/// byte offset in the text.
///
/// Only the mantissa is read. Where it holds a nonzero digit, the run starts
/// at the first such digit. Where it holds only zeros, the value is zero and
/// is counted as one digit: the first zero written.
pub open spec fn digit_run(text: Seq<u8>) -> Seq<(usize, u8)> {
    let run = significant(mantissa(text));
    if run.len() > 0 {
        run
    } else {
        match first_digit(mantissa(text)) {
            Some(at) => seq![(at, ZERO)],
            None => Seq::empty(),
        }
    }
}

/// Where a literal is cut so that its head keeps the significant digits up to
/// and including the one with index `n`: the offset of the digit after that
/// one, or the length of the text where no digit follows.
pub open spec fn cut_after_digit(text: Seq<u8>, n: nat) -> int {
    if n + 1 < digit_run(text).len() {
        digit_run(text)[n as int + 1].0 as int
    } else {
        text.len() as int
    }
}

/// The number of ASCII digits among the bytes of `text`.
pub open spec fn ascii_digit_count(text: Seq<u8>) -> nat
    decreases text.len(),
{
    if text.len() == 0 {
        0
    } else {
        ascii_digit_count(text.drop_last()) + if is_digit(text.last()) {
            1nat
        } else {
            0nat
        }
    }
}

/// The mantissa ends within the text, holds no ending byte, and is followed
/// by one unless it runs to the end of the text.
pub proof fn lemma_mantissa_end(text: Seq<u8>, from: int)
    requires
        0 <= from <= text.len(),
    ensures
        from <= mantissa_end(text, from) <= text.len(),
        forall|j: int| from <= j < mantissa_end(text, from) ==> !ends_mantissa(#[trigger] text[j]),
        mantissa_end(text, from) < text.len() ==> ends_mantissa(text[mantissa_end(text, from)]),
    decreases text.len() - from,
{
    if from < text.len() && !ends_mantissa(text[from]) {
        lemma_mantissa_end(text, from + 1);
    }
}

/// An index with no ending byte before it, and with one at it or the end of
/// the text there, is where the mantissa ends.
pub proof fn lemma_mantissa_end_unique(text: Seq<u8>, from: int, end: int)
    requires
        0 <= from <= end <= text.len(),
        forall|j: int| from <= j < end ==> !ends_mantissa(#[trigger] text[j]),
        end < text.len() ==> ends_mantissa(text[end]),
    ensures
        mantissa_end(text, from) == end,
    decreases end - from,
{
    if from < end {
        lemma_mantissa_end_unique(text, from + 1, end);
    }
}

/// No more digits are significant in `part` than it holds ASCII digits.
pub proof fn lemma_significant_count(part: Seq<u8>)
    ensures
        significant(part).len() <= ascii_digit_count(part),
    decreases part.len(),
{
    if part.len() > 0 {
        lemma_significant_count(part.drop_last());
    }
}

/// Each significant digit of `part` is the ASCII digit that stands at its
/// offset, the offsets rise strictly, and the first digit is no zero.
pub proof fn lemma_significant_ordered(part: Seq<u8>)
    requires
        part.len() <= usize::MAX,
    ensures
        forall|k: int|
            0 <= k < significant(part).len() ==> {
                let d = #[trigger] significant(part)[k];
                &&& (d.0 as int) < part.len()
                &&& part[d.0 as int] == d.1
                &&& is_digit(d.1)
            },
        forall|j: int, k: int|
            0 <= j < k < significant(part).len() ==> (#[trigger] significant(part)[j]).0 < (
            #[trigger] significant(part)[k]).0,
        significant(part).len() > 0 ==> significant(part)[0].1 != ZERO,
    decreases part.len(),
{
    if part.len() > 0 {
        lemma_significant_ordered(part.drop_last());
    }
}

/// The first digit of `part`, where there is one, is an ASCII digit of it,
/// and it is a zero where no digit of `part` is significant.
pub proof fn lemma_first_digit(part: Seq<u8>)
    ensures
        first_digit(part) is Some ==> ascii_digit_count(part) >= 1,
        first_digit(part) is Some && part.len() <= usize::MAX ==> {
            let at = first_digit(part)->0 as int;
            &&& at < part.len()
            &&& is_digit(part[at])
            &&& significant(part).len() == 0 ==> part[at] == ZERO
        },
    decreases part.len(),
{
    if part.len() > 0 {
        lemma_first_digit(part.drop_last());
    }
}

/// A prefix of a text holds no more ASCII digits than the text.
pub proof fn lemma_digit_count_of_prefix(text: Seq<u8>, n: int)
    requires
        0 <= n <= text.len(),
    ensures
        ascii_digit_count(text.take(n)) <= ascii_digit_count(text),
    decreases text.len(),
{
    if n == text.len() {
        assert(text.take(n) =~= text);
    } else {
        assert(text.drop_last().take(n) =~= text.take(n));
        lemma_digit_count_of_prefix(text.drop_last(), n);
    }
}

/// A text holds no more ASCII digits than bytes.
pub proof fn lemma_digit_count_le_len(text: Seq<u8>)
    ensures
        ascii_digit_count(text) <= text.len(),
    decreases text.len(),
{
    if text.len() > 0 {
        lemma_digit_count_le_len(text.drop_last());
    }
}

/// The scanner never counts more digits than the text holds ASCII digits,
/// whatever the text is.
pub proof fn lemma_digit_run_bounded(text: Seq<u8>)
    ensures
        digit_run(text).len() <= ascii_digit_count(text),
        digit_run(text).len() <= text.len(),
{
    lemma_mantissa_end(text, 0);
    lemma_significant_count(mantissa(text));
    lemma_first_digit(mantissa(text));
    lemma_digit_count_of_prefix(text, mantissa_len(text));
    lemma_digit_count_le_len(text);
}

/// Every entry of the digit run is an ASCII digit of the mantissa, paired
/// with the offset at which it stands, and the offsets rise strictly.
pub proof fn lemma_digit_run_ordered(text: Seq<u8>)
    requires
        text.len() <= usize::MAX,
    ensures
        forall|k: int|
            0 <= k < digit_run(text).len() ==> {
                let d = #[trigger] digit_run(text)[k];
                &&& (d.0 as int) < mantissa_len(text)
                &&& text[d.0 as int] == d.1
                &&& is_digit(d.1)
            },
        forall|j: int, k: int|
            0 <= j < k < digit_run(text).len() ==> (#[trigger] digit_run(text)[j]).0 < (
            #[trigger] digit_run(text)[k]).0,
{
    lemma_mantissa_end(text, 0);
    lemma_significant_ordered(mantissa(text));
    lemma_first_digit(mantissa(text));
}

/// Tests whether a byte is an ASCII decimal digit.
pub fn is_digit_byte(b: u8) -> (r: bool)
    ensures
        r == is_digit(b),
{
    ZERO <= b && b <= NINE
}

/// Tests whether a byte ends the mantissa.
pub fn is_mantissa_end(b: u8) -> (r: bool)
    ensures
        r == ends_mantissa(b),
{
    b == LOWER_EXP || b == UPPER_EXP || b == SUFFIX_MARK
}

/// Finds where the mantissa of a literal ends.
pub fn find_mantissa_len(text: &[u8]) -> (end: usize)
    ensures
        end as int == mantissa_len(text@),
        end <= text@.len() <= usize::MAX,
{
    let mut i: usize = 0;
    while i < text.len() && !is_mantissa_end(text[i])
        invariant
            i <= text@.len(),
            mantissa_end(text@, 0) == mantissa_end(text@, i as int),
        decreases text@.len() - i,
    {
        i += 1;
    }
    i
}

/// Scans the significant digits of a literal. The scan reads the text only:
/// it can be made again at any time and gives the same run.
pub fn significant_digits(text: &[u8]) -> (run: Vec<(usize, u8)>)
    ensures
        run@ == digit_run(text@),
        run@.len() <= ascii_digit_count(text@),
        run@.len() <= text@.len(),
        forall|k: int|
            0 <= k < run@.len() ==> (#[trigger] run@[k]).0 < text@.len() && text@[run@[k].0 as int]
                == run@[k].1,
        forall|j: int, k: int|
            0 <= j < k < run@.len() ==> (#[trigger] run@[j]).0 < (#[trigger] run@[k]).0,
{
    let end: usize = find_mantissa_len(text);
    proof {
        lemma_digit_run_bounded(text@);
        lemma_digit_run_ordered(text@);
        lemma_mantissa_end(text@, 0);
    }
    let mut run: Vec<(usize, u8)> = Vec::new();
    let mut first: Option<usize> = None;
    let mut i: usize = 0;
    while i < end
        invariant
            i <= end <= text@.len(),
            run@ == significant(text@.take(i as int)),
            first == first_digit(text@.take(i as int)),
        decreases end - i,
    {
        let b: u8 = text[i];
        proof {
            assert(text@.take(i + 1).drop_last() =~= text@.take(i as int));
        }
        if is_digit_byte(b) {
            if b != ZERO || run.len() > 0 {
                run.push((i, b));
            }
            if first.is_none() {
                first = Some(i);
            }
        }
        i += 1;
    }
    proof {
        assert(text@.take(end as int) == mantissa(text@));
    }
    if run.len() == 0 {
        if let Some(at) = first {
            run.push((at, ZERO));
        }
    }
    run
}

/// Counts the significant digits of a literal.
pub fn significant_count(text: &[u8]) -> (count: usize)
    ensures
        count == digit_run(text@).len(),
{
    significant_digits(text).len()
}

/// Splits a literal behind its significant digit with index `n`. The tail
/// starts with the next significant digit; what stands between the two
/// (separators, the point) stays with the head. A literal with no further
/// digit is returned whole, with an empty tail.
pub fn split_at_digit(text: &[u8], n: u32) -> (parts: (&[u8], &[u8]))
    ensures
        parts.0@ == text@.take(cut_after_digit(text@, n as nat)),
        parts.1@ == text@.skip(cut_after_digit(text@, n as nat)),
        0 <= cut_after_digit(text@, n as nat) <= text@.len(),
{
    let run = significant_digits(text);
    let len: usize = text.len();
    proof {
        lemma_digit_run_ordered(text@);
        lemma_mantissa_end(text@, 0);
    }
    let cut: usize = if (n as usize) < run.len() && n as usize + 1 < run.len() {
        run[n as usize + 1].0
    } else {
        len
    };
    text.split_at(cut)
}

} // verus!
