//! The rounding direction for a literal that is cut short.
use vstd::prelude::*;
use crate::scan::{is_digit, is_digit_byte, POINT, SEPARATOR};

verus! {

/// The digit `5`.
pub const FIVE: u8 = 53;

/// A byte of a cut-off tail that leaves the direction open: a five, a
/// separator or the point.
pub open spec fn leaves_open(b: u8) -> bool {
    b == FIVE || b == SEPARATOR || b == POINT
}

/// Whether the tail from `from` on calls for rounding up.
pub open spec fn rounds_up_from(tail: Seq<u8>, from: int) -> bool
    decreases tail.len() - from,
{
    if from < 0 || from >= tail.len() {
        false
    } else if leaves_open(tail[from]) {
        rounds_up_from(tail, from + 1)
    } else {
        is_digit(tail[from]) && tail[from] > FIVE
    }
}

/// Whether the tail cut off a literal calls for rounding the kept digits up.
/// The first byte that is no five, separator or point decides: up if it is a
/// digit above five, down for a smaller digit and for anything that is no
/// digit, such as a width suffix. A tail that never decides rounds down.
pub open spec fn rounds_up(tail: Seq<u8>) -> bool {
    rounds_up_from(tail, 0)
}

/// Decides from the tail cut off a literal whether the kept digits are to be
/// rounded up.
pub fn should_round_up(tail: &[u8]) -> (up: bool)
    ensures
        up == rounds_up(tail@),
{
    let mut i: usize = 0;
    while i < tail.len()
        invariant
            i <= tail@.len(),
            rounds_up(tail@) == rounds_up_from(tail@, i as int),
        decreases tail@.len() - i,
    {
        let b: u8 = tail[i];
        if !(b == FIVE || b == SEPARATOR || b == POINT) {
            return is_digit_byte(b) && b > FIVE;
        }
        i += 1;
    }
    false
}

} // verus!
