//! What holds of every verdict.
use vstd::prelude::*;
use crate::roundtrip::{
    digit_values, is_decimal_byte, is_decimal_text, numeric_text, same_digits,
    without_separators,
};
use crate::scan::{
    digit_run, ends_mantissa, first_digit, lemma_mantissa_end, lemma_mantissa_end_unique,
    mantissa, mantissa_len, significant, SEPARATOR, SUFFIX_MARK,
};
use crate::suffix::{
    lemma_suffix_from, lemma_suffix_from_unique, suffix_start, suggestion_for, unsuffixed,
    width_suffix,
};
use crate::verdict::{exceeds_capacity, verdict_for};
use crate::width::FloatWidth;

verus! {

/// What follows the mantissa has no part in the digit run: a text and the
/// same text with a width suffix behind it have the same run.
pub proof fn lemma_digit_run_ignores_suffix(text: Seq<u8>, tail: Seq<u8>)
    requires
        tail.len() == 0 || tail[0] == SUFFIX_MARK,
    ensures
        digit_run(text + tail) == digit_run(text),
{
    let end = mantissa_len(text);
    let whole = text + tail;
    lemma_mantissa_end(text, 0);
    assert forall|j: int| 0 <= j < end implies !ends_mantissa(#[trigger] whole[j]) by {
        assert(whole[j] == text[j]);
    }
    if end < text.len() {
        assert(whole[end] == text[end]);
    } else if tail.len() > 0 {
        assert(whole[end] == tail[0]);
    }
    lemma_mantissa_end_unique(whole, 0, end);
    assert(mantissa(whole) =~= mantissa(text));
}

/// A suggestion built on a text without a suffix of its own has the suffix
/// of the literal it replaces, and is the text apart from that.
pub proof fn lemma_suggestion_parts(text: Seq<u8>, minimal: Seq<u8>)
    requires
        width_suffix(minimal).len() == 0,
    ensures
        width_suffix(suggestion_for(text, minimal)) == width_suffix(text),
        unsuffixed(suggestion_for(text, minimal)) == minimal,
{
    let tail = width_suffix(text);
    let whole = minimal + tail;
    lemma_suffix_from(minimal, 0);
    lemma_suffix_from(text, 0);
    assert forall|j: int| 0 <= j < minimal.len() implies #[trigger] whole[j] != SUFFIX_MARK by {
        assert(whole[j] == minimal[j]);
    }
    if tail.len() > 0 {
        assert(whole[minimal.len() as int] == tail[0]);
        assert(tail[0] == text[suffix_start(text)]);
    }
    lemma_suffix_from_unique(whole, 0, minimal.len() as int);
    assert(whole.skip(minimal.len() as int) =~= tail);
    assert(whole.take(minimal.len() as int) =~= minimal);
}

/// Dropping the separators of two parts in a row is dropping them from each.
pub proof fn lemma_without_separators_concat(a: Seq<u8>, b: Seq<u8>)
    ensures
        without_separators(a + b) == without_separators(a) + without_separators(b),
    decreases b.len(),
{
    if b.len() == 0 {
        assert(a + b =~= a);
        assert(without_separators(a) + without_separators(b) =~= without_separators(a));
    } else {
        assert((a + b).drop_last() =~= a + b.drop_last());
        lemma_without_separators_concat(a, b.drop_last());
        assert(without_separators(a + b) =~= without_separators(a) + without_separators(b));
    }
}

/// Dropping separators brings no byte that ends the mantissa into a part that
/// holds none.
pub proof fn lemma_without_separators_keeps_mantissa(part: Seq<u8>)
    requires
        forall|i: int| 0 <= i < part.len() ==> !ends_mantissa(#[trigger] part[i]),
    ensures
        forall|j: int|
            0 <= j < without_separators(part).len() ==> !ends_mantissa(
                #[trigger] without_separators(part)[j],
            ),
    decreases part.len(),
{
    if part.len() > 0 {
        assert forall|i: int| 0 <= i < part.drop_last().len() implies !ends_mantissa(
            #[trigger] part.drop_last()[i],
        ) by {
            assert(part.drop_last()[i] == part[i]);
        }
        lemma_without_separators_keeps_mantissa(part.drop_last());
        assert(!ends_mantissa(part[part.len() - 1]));
        let bare = without_separators(part);
        let before = without_separators(part.drop_last());
        assert forall|j: int| 0 <= j < bare.len() implies !ends_mantissa(#[trigger] bare[j]) by {
            if j < before.len() {
                assert(bare[j] == before[j]);
            }
        }
    }
}

/// A part that starts with a byte that is no separator still starts with it
/// once its separators are dropped.
pub proof fn lemma_without_separators_head(part: Seq<u8>)
    requires
        part.len() > 0,
        part[0] != SEPARATOR,
    ensures
        without_separators(part).len() > 0,
        without_separators(part)[0] == part[0],
    decreases part.len(),
{
    if part.len() > 1 {
        assert(part.drop_last()[0] == part[0]);
        lemma_without_separators_head(part.drop_last());
    } else {
        assert(without_separators(part.drop_last()) =~= Seq::<u8>::empty());
    }
}

/// Separators have no part in which digits are significant.
pub proof fn lemma_significant_without_separators(part: Seq<u8>)
    ensures
        digit_values(significant(without_separators(part))) == digit_values(significant(part)),
        first_digit(without_separators(part)) is Some <==> first_digit(part) is Some,
    decreases part.len(),
{
    if part.len() > 0 {
        let rest = part.drop_last();
        let last = part.last();
        lemma_significant_without_separators(rest);
        if last != SEPARATOR {
            let bare = without_separators(rest);
            assert(without_separators(part).drop_last() =~= bare);
            let kept = significant(bare);
            let seen = significant(rest);
            assert(digit_values(kept).len() == digit_values(seen).len());
            assert forall|k: int| 0 <= k < kept.len() implies kept[k].1 == seen[k].1 by {
                assert(digit_values(kept)[k] == digit_values(seen)[k]);
            }
            assert(digit_values(significant(without_separators(part))) =~= digit_values(
                significant(part),
            ));
        }
    }
}

/// The text handed to the float parser has the significant digits of the
/// literal: separators and the width suffix take no part in them.
pub proof fn lemma_numeric_text_keeps_digits(text: Seq<u8>)
    ensures
        digit_values(digit_run(numeric_text(text))) == digit_values(digit_run(text)),
        same_digits(numeric_text(text), text),
{
    let end = mantissa_len(text);
    let start = suffix_start(text);
    lemma_mantissa_end(text, 0);
    lemma_suffix_from(text, 0);
    if start < end {
        assert(ends_mantissa(text[start]));
    }
    let head = text.take(end);
    let rest = text.subrange(end, start);
    assert(unsuffixed(text) =~= head + rest);
    lemma_without_separators_concat(head, rest);
    let bare_head = without_separators(head);
    let bare_rest = without_separators(rest);
    let whole = bare_head + bare_rest;
    assert forall|i: int| 0 <= i < head.len() implies !ends_mantissa(#[trigger] head[i]) by {
        assert(head[i] == text[i]);
    }
    lemma_without_separators_keeps_mantissa(head);
    assert forall|j: int| 0 <= j < bare_head.len() implies !ends_mantissa(#[trigger] whole[j]) by {
        assert(whole[j] == bare_head[j]);
    }
    if rest.len() > 0 {
        assert(rest[0] == text[end]);
        lemma_without_separators_head(rest);
        assert(whole[bare_head.len() as int] == bare_rest[0]);
    }
    lemma_mantissa_end_unique(whole, 0, bare_head.len() as int);
    assert(mantissa(whole) =~= bare_head);
    lemma_significant_without_separators(head);
    assert(digit_values(digit_run(numeric_text(text))) =~= digit_values(digit_run(text)));
}

/// A plain decimal number has no width suffix.
pub proof fn lemma_decimal_text_has_no_suffix(text: Seq<u8>)
    requires
        is_decimal_text(text),
    ensures
        width_suffix(text).len() == 0,
{
    lemma_suffix_from(text, 0);
    if suffix_start(text) < text.len() {
        assert(is_decimal_byte(text[suffix_start(text)]));
    }
}

/// A literal with no more significant digits than its width can hold is not
/// excessive, whatever its stored value.
pub proof fn lemma_within_capacity_is_not_excessive(
    text: Seq<u8>,
    width: FloatWidth,
    round_trip: Option<Seq<u8>>,
)
    requires
        !exceeds_capacity(text, width),
    ensures
        verdict_for(text, width, round_trip) is None,
{
}

/// A literal whose significant digits are those of the minimal round-trip
/// text of its value is not excessive, however many digits it has.
pub proof fn lemma_round_trip_digits_are_not_excessive(
    text: Seq<u8>,
    width: FloatWidth,
    minimal: Seq<u8>,
)
    requires
        digit_values(digit_run(text)) == digit_values(digit_run(minimal)),
    ensures
        verdict_for(text, width, Some(minimal)) is None,
{
}

/// A literal whose stored value reads, in its minimal text, as the literal
/// itself without separators and suffix is not excessive.
pub proof fn lemma_literal_that_round_trips_is_not_excessive(text: Seq<u8>, width: FloatWidth)
    ensures
        verdict_for(text, width, Some(numeric_text(text))) is None,
{
    lemma_numeric_text_keeps_digits(text);
}

/// A suggested replacement is final: checked in its turn, against any
/// round-trip text with the digits of the one it was made from, it is not
/// excessive.
pub proof fn lemma_suggestion_is_not_excessive(
    text: Seq<u8>,
    width: FloatWidth,
    minimal: Seq<u8>,
    again: Seq<u8>,
)
    requires
        verdict_for(text, width, Some(minimal)) is Some,
        same_digits(again, minimal),
    ensures
        verdict_for(verdict_for(text, width, Some(minimal))->0, width, Some(again)) is None,
{
    lemma_suffix_from(text, 0);
    lemma_digit_run_ignores_suffix(minimal, width_suffix(text));
}

/// A suggested replacement has the width suffix of the literal it replaces,
/// and none where that literal has none; before the suffix it is the
/// round-trip text.
pub proof fn lemma_suggestion_keeps_suffix(text: Seq<u8>, width: FloatWidth, minimal: Seq<u8>)
    requires
        verdict_for(text, width, Some(minimal)) is Some,
    ensures
        width_suffix(verdict_for(text, width, Some(minimal))->0) == width_suffix(text),
        unsuffixed(verdict_for(text, width, Some(minimal))->0) == minimal,
{
    lemma_decimal_text_has_no_suffix(minimal);
    lemma_suggestion_parts(text, minimal);
}

} // verus!
