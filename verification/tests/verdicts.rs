use excessive_precision::roundtrip::{literal_has_exponent, strip_for_parsing};
use excessive_precision::scan::significant_count;
use excessive_precision::suffix::{find_suffix_start, has_width_suffix};
use excessive_precision::verdict::{classify, needs_round_trip, ExcessivePrecision, PrecisionVerdict};
use excessive_precision::width::FloatWidth;

fn round_trip(text: &str, width: FloatWidth) -> Option<String> {
    let numeric = String::from_utf8(strip_for_parsing(text.as_bytes())).ok()?;
    let exponent = literal_has_exponent(text.as_bytes());
    match width {
        FloatWidth::Single => {
            let value: f32 = numeric.parse().ok()?;
            Some(if exponent { format!("{:e}", value) } else { format!("{}", value) })
        }
        FloatWidth::Double => {
            let value: f64 = numeric.parse().ok()?;
            Some(if exponent { format!("{:e}", value) } else { format!("{}", value) })
        }
    }
}

fn verdict(text: &str, width: FloatWidth) -> PrecisionVerdict {
    let minimal = round_trip(text, width);
    classify(text.as_bytes(), width, minimal.as_ref().map(|s| s.as_bytes()))
}

fn excessive(text: &str) -> PrecisionVerdict {
    PrecisionVerdict::ExcessiveConfirmed(text.as_bytes().to_vec())
}

#[test]
fn six_digits_fit_single() {
    assert_eq!(significant_count(b"0.123_456"), 6);
    assert_eq!(verdict("0.123_456", FloatWidth::Single), PrecisionVerdict::NotExcessive);
}

#[test]
fn ten_digits_exceed_single() {
    assert_eq!(significant_count(b"1.123_456_789"), 10);
    assert_eq!(verdict("1.123_456_789", FloatWidth::Single), excessive("1.1234568"));
}

#[test]
fn twelve_digits_fit_double() {
    assert_eq!(significant_count(b"0.123_456_789_012"), 12);
    assert_eq!(verdict("0.123_456_789_012", FloatWidth::Double), PrecisionVerdict::NotExcessive);
}

#[test]
fn seventeen_digits_exceed_double() {
    assert_eq!(
        verdict("0.123_456_789_012_345_67", FloatWidth::Double),
        excessive("0.12345678901234566")
    );
}

#[test]
fn exponent_is_not_counted_for_single() {
    assert_eq!(significant_count(b"1e-10"), 1);
    assert_eq!(verdict("1e-10", FloatWidth::Single), PrecisionVerdict::NotExcessive);
    assert_eq!(verdict("1E-10", FloatWidth::Single), PrecisionVerdict::NotExcessive);
}

#[test]
fn exponent_form_is_kept_in_suggestion() {
    assert_eq!(significant_count(b"1.123456789e-10"), 10);
    assert_eq!(verdict("1.123456789e-10", FloatWidth::Single), excessive("1.1234568e-10"));
    assert_eq!(verdict("1.123_456_788_888e-10", FloatWidth::Single), excessive("1.1234568e-10"));
    assert_eq!(verdict("1.123_456_788_888E-10", FloatWidth::Single), excessive("1.1234568e-10"));
}

#[test]
fn suffixed_literals_within_capacity() {
    assert_eq!(verdict("0.123_456_f32", FloatWidth::Single), PrecisionVerdict::NotExcessive);
    assert_eq!(verdict("0.123_456_789_012f64", FloatWidth::Double), PrecisionVerdict::NotExcessive);
}

#[test]
fn suffixed_literals_keep_their_suffix() {
    assert_eq!(verdict("0.123_456_789_f32", FloatWidth::Single), excessive("0.12345679f32"));
    assert_eq!(verdict("1.123_456_789_f32", FloatWidth::Single), excessive("1.1234568f32"));
    assert_eq!(
        verdict("0.123_456_789_012_345_67f64", FloatWidth::Double),
        excessive("0.12345678901234566f64")
    );
}

#[test]
fn unsuffixed_literals_get_no_suffix() {
    assert_eq!(verdict("0.123_456_789", FloatWidth::Single), excessive("0.12345679"));
    assert_eq!(verdict("1.123_456_789", FloatWidth::Single), excessive("1.1234568"));
    assert_eq!(
        verdict("8.888_888_888_888_888_888_888", FloatWidth::Double),
        excessive("8.88888888888889")
    );
}

#[test]
fn suffix_of_suggestion_is_that_of_literal() {
    for (text, width) in [
        ("0.123_456_789_f32", FloatWidth::Single),
        ("0.123_456_789", FloatWidth::Single),
        ("0.123_456_789_012_345_67f64", FloatWidth::Double),
        ("1.123456789e-10", FloatWidth::Single),
        ("1.123456789e-10f32", FloatWidth::Single),
    ] {
        match verdict(text, width) {
            PrecisionVerdict::ExcessiveConfirmed(sugg) => {
                let from = find_suffix_start(text.as_bytes());
                let at = find_suffix_start(&sugg);
                assert_eq!(&sugg[at..], &text.as_bytes()[from..]);
                assert_eq!(has_width_suffix(&sugg), has_width_suffix(text.as_bytes()));
            }
            PrecisionVerdict::NotExcessive => panic!("{} should be excessive", text),
        }
    }
}

#[test]
fn suggestion_is_not_excessive_itself() {
    for (text, width) in [
        ("0.123_456_789_f32", FloatWidth::Single),
        ("1.123_456_789", FloatWidth::Single),
        ("0.123_456_789_012_345_67", FloatWidth::Double),
        ("0.123_456_789_012_345_67f64", FloatWidth::Double),
        ("8.888_888_888_888_888_888_888", FloatWidth::Double),
        ("1.123_456_788_888E-10", FloatWidth::Single),
        ("16777217.0", FloatWidth::Single),
    ] {
        match verdict(text, width) {
            PrecisionVerdict::ExcessiveConfirmed(sugg) => {
                let again = String::from_utf8(sugg).unwrap();
                assert_eq!(verdict(&again, width), PrecisionVerdict::NotExcessive);
            }
            PrecisionVerdict::NotExcessive => panic!("{} should be excessive", text),
        }
    }
}

#[test]
fn padding_zeros_are_not_excessive() {
    assert_eq!(significant_count(b"1.5000000"), 8);
    assert_eq!(verdict("1.5000000", FloatWidth::Single), PrecisionVerdict::NotExcessive);
    assert_eq!(verdict("100000000.0", FloatWidth::Single), PrecisionVerdict::NotExcessive);
    assert_eq!(verdict("0.500_000_000_000_000_000_0", FloatWidth::Double), PrecisionVerdict::NotExcessive);
    assert_eq!(verdict("1.5000000e10", FloatWidth::Single), PrecisionVerdict::NotExcessive);
}

#[test]
fn many_digits_that_round_trip_are_not_excessive() {
    assert_eq!(significant_count(b"16777216.0"), 9);
    assert_eq!(verdict("16777216.0", FloatWidth::Single), PrecisionVerdict::NotExcessive);
    assert_eq!(verdict("1.1234568", FloatWidth::Single), PrecisionVerdict::NotExcessive);
    assert_eq!(verdict("0.12345678901234566", FloatWidth::Double), PrecisionVerdict::NotExcessive);
}

#[test]
fn overflow_to_infinity_is_not_excessive() {
    assert_eq!(round_trip("1.2345678e40", FloatWidth::Single), Some("inf".to_string()));
    assert_eq!(verdict("1.2345678e40", FloatWidth::Single), PrecisionVerdict::NotExcessive);
    assert_eq!(
        classify(b"1.2345678e40", FloatWidth::Single, Some(b"inf")),
        PrecisionVerdict::NotExcessive
    );
    assert_eq!(
        classify(b"1.2345678", FloatWidth::Single, Some(b"NaN")),
        PrecisionVerdict::NotExcessive
    );
}

#[test]
fn failed_parse_is_not_excessive() {
    assert_eq!(classify(b"1.123_456_789", FloatWidth::Single, None), PrecisionVerdict::NotExcessive);
    assert_eq!(classify(b"1.123_456_789", FloatWidth::Single, Some(b"")), PrecisionVerdict::NotExcessive);
}

#[test]
fn within_capacity_whatever_the_round_trip() {
    assert_eq!(classify(b"0.123_456", FloatWidth::Single, Some(b"7.5")), PrecisionVerdict::NotExcessive);
    assert_eq!(classify(b"0.123_456", FloatWidth::Single, None), PrecisionVerdict::NotExcessive);
    assert_eq!(
        classify(b"0.123_456_789_012_345", FloatWidth::Double, Some(b"0.1")),
        PrecisionVerdict::NotExcessive
    );
}

#[test]
fn capacity_is_the_edge() {
    assert!(!needs_round_trip(b"0.123_456", FloatWidth::Single));
    assert!(needs_round_trip(b"0.123_456_7", FloatWidth::Single));
    assert!(!needs_round_trip(b"0.123_456_7", FloatWidth::Double));
    assert!(!needs_round_trip(b"0.123_456_789_012_345", FloatWidth::Double));
    assert!(needs_round_trip(b"0.123_456_789_012_345_6", FloatWidth::Double));
    assert!(!needs_round_trip(b"0.000_000_123_456", FloatWidth::Single));
}

#[test]
fn same_literal_differs_by_width() {
    assert_eq!(verdict("0.123_456_789", FloatWidth::Single), excessive("0.12345679"));
    assert_eq!(verdict("0.123_456_789", FloatWidth::Double), PrecisionVerdict::NotExcessive);
}

#[test]
fn check_returns_the_suggestion() {
    let lint = ExcessivePrecision;
    assert_eq!(
        lint.check(b"1.123_456_789_f32", Some(FloatWidth::Single), Some(b"1.1234568")),
        Some(b"1.1234568f32".to_vec())
    );
    assert_eq!(lint.check(b"0.123_456_f32", Some(FloatWidth::Single), Some(b"0.123456")), None);
    assert_eq!(lint.check(b"1.5000000", Some(FloatWidth::Single), Some(b"1.5")), None);
    assert_eq!(lint.check(b"1.123_456_789", Some(FloatWidth::Single), None), None);
}

#[test]
fn check_passes_over_unknown_width() {
    let lint = ExcessivePrecision;
    assert_eq!(lint.check(b"1.123_456_789_f32", None, Some(b"1.1234568")), None);
    assert_eq!(lint.check(b"0.123_456_789_012_345_67", None, Some(b"0.12345678901234566")), None);
    assert_eq!(lint.check(b"1.5", None, None), None);
}
