use strompy::bsn::{Bsn, BsnError};

#[test]
fn validates_known_numbers() {
    assert!(Bsn::validate("999996356"));
    assert!(Bsn::validate("999998493"));
    assert!(Bsn::validate("111222333"));
    assert!(!Bsn::validate("999996357"));
    assert!(!Bsn::validate("123456789"));
}

#[test]
fn weighs_the_ninth_digit_negatively() {
    // 9*1 + 8*0 + ... + 2*0 - 9 = 0
    assert!(Bsn::validate("100000009"));
    // 9*1 + 2*1 = 11 without a ninth digit
    assert!(Bsn::validate("10000001"));
    // With the ninth digit weighed by +1 this would be 9 + 2 = 11.
    assert!(!Bsn::validate("100000002"));
}

#[test]
fn accepts_eight_and_nine_digits_only() {
    assert!(Bsn::validate("00000000"));
    assert!(Bsn::validate("000000000"));
    assert!(!Bsn::validate(""));
    assert!(!Bsn::validate("0000000"));
    assert!(!Bsn::validate("0000000000"));
}

#[test]
fn rejects_what_is_no_digit() {
    assert!(!Bsn::validate("00000000a"));
    assert!(!Bsn::validate("0000 0000"));
    assert!(!Bsn::validate("-00000000"));
    // Nine bytes, eight characters.
    assert!(!Bsn::validate("0000000\u{e9}"));
    // Digits of another script.
    assert!(!Bsn::validate("\u{661}\u{661}\u{661}\u{661}"));
}

#[test]
fn try_new_keeps_the_digits() {
    let bsn = Bsn::try_new("999996356").unwrap();
    assert_eq!(bsn.as_str(), "999996356");
    assert_eq!(bsn.clone(), bsn);
    assert_eq!(Bsn::try_new("12345678a"), Err(BsnError::InvalidBsn));
    assert_eq!(Bsn::try_new("999996357"), Err(BsnError::InvalidBsn));
}

#[test]
fn try_new_boxed_agrees_with_try_new() {
    let boxed = Bsn::try_new_boxed("999998493").unwrap();
    assert_eq!(boxed.as_str(), "999998493");
    assert_eq!(*boxed, Bsn::try_new("999998493").unwrap());
    assert_eq!(Bsn::try_new_boxed("99999849"), Err(BsnError::InvalidBsn));
}

#[test]
fn error_has_its_message() {
    assert_eq!(BsnError::InvalidBsn.fmt_display(), "Invalid BSN number");
}
