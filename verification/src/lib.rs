//! Detection of float literals that are written with more significant digits
//! than their storage width can hold.
//!
//! A literal is handed over as the bytes of its source text, together with
//! its width. The scanner finds its significant digits; the classifier holds
//! their number against the capacity of the width; the validator compares the
//! digits with the minimal decimal text of the stored value; and the
//! suggestion puts the literal's own width suffix behind that text.
//!
//! No float is computed in this crate. The caller parses what
//! `roundtrip::strip_for_parsing` returns, formats the value in the shortest
//! form that reads back as the same value, and asks for the verdict.
pub mod laws;
pub mod rounding;
pub mod roundtrip;
pub mod scan;
pub mod suffix;
pub mod verdict;
pub mod width;
