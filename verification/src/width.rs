//! Floating-point storage widths and the decimal digits each can hold.
use vstd::prelude::*;

verus! {

/// The storage width of a float literal.
#[derive(Clone, Copy, Debug, PartialEq, Eq, Structural)]
pub enum FloatWidth {
    /// Single precision, 32 bits.
    Single,
    /// Double precision, 64 bits.
    Double,
}

/// The number of significant decimal digits that every value of the width
/// can hold exactly.
pub open spec fn capacity_of(width: FloatWidth) -> nat {
    match width {
        FloatWidth::Single => 6,
        FloatWidth::Double => 15,
    }
}

/// Looks up the digit capacity of a width.
pub fn max_digits(width: FloatWidth) -> (max: u32)
    ensures
        max as nat == capacity_of(width),
{
    match width {
        FloatWidth::Single => 6,
        FloatWidth::Double => 15,
    }
}

} // verus!
