//! The precision classifier: the verdict on one literal.
use vstd::prelude::*;
use crate::roundtrip::{is_decimal, is_decimal_text, validate, validated};
use crate::scan::{digit_run, significant_count};
use crate::suffix::{render_suggestion, suggestion_for};
use crate::width::{capacity_of, max_digits, FloatWidth};

verus! {

/// The outcome of checking one literal.
#[derive(Debug, PartialEq, Eq)]
pub enum PrecisionVerdict {
    /// The literal holds no digits that its width drops.
    NotExcessive,
    /// The literal holds digits that are not stored; the text is the literal
    /// to write in its place.
    ExcessiveConfirmed(Vec<u8>),
}

impl View for PrecisionVerdict {
    type V = Option<Seq<u8>>;

    /// The suggested replacement, if the verdict holds one.
    open spec fn view(&self) -> Option<Seq<u8>> {
        match self {
            PrecisionVerdict::NotExcessive => None,
            PrecisionVerdict::ExcessiveConfirmed(text) => Some(text@),
        }
    }
}

/// Whether a literal is written with more significant digits than every value
/// of the width can hold.
pub open spec fn exceeds_capacity(text: Seq<u8>, width: FloatWidth) -> bool {
    digit_run(text).len() > capacity_of(width)
}

/// The verdict on a literal of the given width, as the replacement it
/// suggests, if any. `round_trip` is the minimal decimal text of the value
/// stored for the literal, absent where the literal could not be parsed.
///
/// A replacement is suggested only where the literal exceeds the capacity of
/// its width, the round-trip text is a plain decimal number, and the two
/// denote different digits. It is the round-trip text with the literal's own
/// width suffix.
pub open spec fn verdict_for(text: Seq<u8>, width: FloatWidth, round_trip: Option<Seq<u8>>) -> Option<
    Seq<u8>,
> {
    if !exceeds_capacity(text, width) {
        None
    } else {
        match round_trip {
            None => None,
            Some(minimal) => if !is_decimal_text(minimal) {
                None
            } else {
                match validated(text, minimal) {
                    None => None,
                    Some(kept) => Some(suggestion_for(text, kept)),
                }
            },
        }
    }
}

/// The bytes of an optional text.
pub open spec fn text_of(round_trip: Option<&[u8]>) -> Option<Seq<u8>> {
    match round_trip {
        Some(minimal) => Some(minimal@),
        None => None,
    }
}

/// Tests whether a literal exceeds the capacity of its width, that is,
/// whether its stored value has to be looked at before a verdict.
pub fn needs_round_trip(text: &[u8], width: FloatWidth) -> (r: bool)
    ensures
        r == exceeds_capacity(text@, width),
{
    let max: u32 = max_digits(width);
    significant_count(text) > max as usize
}

/// Gives the verdict on one literal.
///
/// `round_trip` is the minimal decimal text of the value that the literal is
/// stored as, or `None` where the literal could not be parsed. A literal
/// within the capacity of its width is never excessive, whatever
/// `round_trip` holds.
pub fn classify(text: &[u8], width: FloatWidth, round_trip: Option<&[u8]>) -> (verdict:
    PrecisionVerdict)
    ensures
        verdict@ == verdict_for(text@, width, text_of(round_trip)),
        !exceeds_capacity(text@, width) ==> verdict@ is None,
{
    if !needs_round_trip(text, width) {
        return PrecisionVerdict::NotExcessive;
    }
    match round_trip {
        None => PrecisionVerdict::NotExcessive,
        Some(minimal) => {
            if !is_decimal(minimal) {
                return PrecisionVerdict::NotExcessive;
            }
            match validate(text, minimal) {
                None => PrecisionVerdict::NotExcessive,
                Some(kept) => PrecisionVerdict::ExcessiveConfirmed(
                    render_suggestion(text, kept.as_slice()),
                ),
            }
        },
    }
}

/// What the check answers for a literal whose width may be unknown. Without
/// a width there is nothing to hold the literal against, and nothing is
/// suggested; with one, the answer is the verdict for that width.
pub open spec fn checked(text: Seq<u8>, width: Option<FloatWidth>, round_trip: Option<Seq<u8>>) -> Option<
    Seq<u8>,
> {
    match width {
        None => None,
        Some(known) => verdict_for(text, known, round_trip),
    }
}

/// The check for float literals of excessive precision.
#[derive(Clone, Copy, Debug)]
pub struct ExcessivePrecision;

impl ExcessivePrecision {
    /// Checks one literal and returns the literal to write in its place, if
    /// it holds digits that its width drops. A literal whose width is not
    /// known is passed over.
    pub fn check(
        &self,
        text: &[u8],
        width: Option<FloatWidth>,
        round_trip: Option<&[u8]>,
    ) -> (sugg: Option<Vec<u8>>)
        ensures
            match sugg {
                Some(s) => checked(text@, width, text_of(round_trip)) == Some(s@),
                None => checked(text@, width, text_of(round_trip)) is None,
            },
    {
        match width {
            None => None,
            Some(known) => match classify(text, known, round_trip) {
                PrecisionVerdict::NotExcessive => None,
                PrecisionVerdict::ExcessiveConfirmed(s) => Some(s),
            },
        }
    }
}

} // verus!
