//! The arbitrary-precision integer type: parsing, printing, arithmetic and
//! the wrapping stack-index conversion.

use compose_core::integer::Integer;

#[test]
fn parsing_accepts_signs_and_separators() {
    assert_eq!(Integer::from_string("0").unwrap().to_string(), "0");
    assert_eq!(Integer::from_string("42").unwrap().to_string(), "42");
    assert_eq!(Integer::from_string("-42").unwrap().to_string(), "-42");
    assert_eq!(Integer::from_string("+42").unwrap().to_string(), "42");
    assert_eq!(Integer::from_string("007").unwrap().to_string(), "7");
    // An underscore may separate digits after the first.
    assert_eq!(Integer::from_string("1_000").unwrap().to_string(), "1000");
}

#[test]
fn parsing_rejects_malformed_text() {
    assert!(Integer::from_string("").is_none());
    assert!(Integer::from_string("-").is_none());
    assert!(Integer::from_string("+").is_none());
    assert!(Integer::from_string("abc").is_none());
    assert!(Integer::from_string("12a").is_none());
    assert!(Integer::from_string("_1").is_none());
    assert!(Integer::from_string("--4").is_none());
    assert!(Integer::from_string("4 2").is_none());
}

#[test]
fn arbitrary_precision_arithmetic() {
    let big = Integer::from_string("123456789012345678901234567890").unwrap();
    let one = Integer::from_usize(1);
    assert_eq!(
        big.add(&one).to_string(),
        "123456789012345678901234567891"
    );
    assert_eq!(
        big.mul(&Integer::from_usize(2)).to_string(),
        "246913578024691357802469135780"
    );
    assert_eq!(big.sub(&big).to_string(), "0");
}

#[test]
fn division_truncates_toward_zero_and_remainder_follows_dividend() {
    let a = Integer::from_string("-7").unwrap();
    let b = Integer::from_usize(2);
    assert_eq!(a.div(&b).to_string(), "-3");
    assert_eq!(a.rem(&b).to_string(), "-1");
    let c = Integer::from_usize(7);
    let d = Integer::from_string("-2").unwrap();
    assert_eq!(c.div(&d).to_string(), "-3");
    assert_eq!(c.rem(&d).to_string(), "1");
}

#[test]
fn comparisons_and_equality() {
    let two = Integer::from_usize(2);
    let three = Integer::from_usize(3);
    assert!(two.less_than(&three));
    assert!(three.greater_than(&two));
    assert!(!two.equals(&three));
    assert!(two.equals(&Integer::from_string("2").unwrap()));
    assert!(two.is_zero() == false);
    assert!(Integer::from_usize(0).is_zero());
}

#[test]
fn wrapping_index_wraps_into_range() {
    // For n > 0 the result is ((i mod n) + n) mod n, in [0, n).
    assert_eq!(Integer::from_usize(0).as_wrapping_index(3), 0);
    assert_eq!(Integer::from_usize(1).as_wrapping_index(3), 1);
    assert_eq!(Integer::from_usize(5).as_wrapping_index(3), 2);
    assert_eq!(Integer::from_string("-1").unwrap().as_wrapping_index(3), 2);
    assert_eq!(Integer::from_string("-3").unwrap().as_wrapping_index(3), 0);
    assert_eq!(Integer::from_string("-7").unwrap().as_wrapping_index(5), 3);
}

#[test]
fn wrapping_index_of_empty_space_is_the_sentinel() {
    assert_eq!(Integer::from_usize(4).as_wrapping_index(0), usize::MAX);
    assert_eq!(
        Integer::from_string("-10").unwrap().as_wrapping_index(0),
        usize::MAX
    );
}

#[test]
fn copies_are_equal_in_value() {
    let a = Integer::from_string("-98765432109876543210").unwrap();
    let b = a.duplicate();
    assert!(a.equals(&b));
    assert_eq!(b.to_string(), "-98765432109876543210");
}
