use dotted_version::{ParseError, Version};
use std::str::FromStr;

#[test]
fn display_impl() {
    assert_eq!("2.33.5.14", Version::new(2, 33, 5, 14).to_string().as_str())
}

#[test]
fn from_str_impl() {
    assert_eq!(Version::from_str("2.33.5.14").unwrap(), Version::new(2, 33, 5, 14))
}

#[test]
#[should_panic]
fn empty_str() {
    Version::from_str("").unwrap();
}

#[test]
#[should_panic]
fn short_str() {
    Version::from_str("2.33.5").unwrap();
}

#[test]
#[should_panic]
fn ends_early() {
    Version::from_str("2.33.5..").unwrap();
}

#[test]
fn equal() {
    assert_eq!(Version::new(2, 33, 5, 14), Version::new(2, 33, 5, 14),)
}

#[test]
fn greater_patch() {
    assert!(Version::new(2, 33, 5, 15) > Version::new(2, 33, 5, 14))
}

#[test]
fn less_patch() {
    assert!(Version::new(2, 33, 5, 13) < Version::new(2, 33, 5, 14))
}

#[test]
fn greater_than_zero() {
    assert!(Version::new(0, 0, 0, 0) < Version::new(2, 33, 5, 14))
}

#[test]
fn random() {
    assert!(Version::new(2, 32, u16::MAX, u16::MAX) < Version::new(2, 33, 5, 14))
}
