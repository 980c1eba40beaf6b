use dotted_version::{ParseError, Version};
use std::str::FromStr;

#[test]
fn formats_four_decimal_fields() {
    assert_eq!(Version::new(0, 0, 0, 0).to_string(), "0.0.0.0");
    assert_eq!(Version::new(65535, 10, 100, 7).to_string(), "65535.10.100.7");
}

#[test]
fn parses_four_decimal_fields() {
    assert_eq!(Version::parse("2.33.5.14"), Ok(Version::new(2, 33, 5, 14)));
    assert_eq!(Version::parse("0.0.0.0"), Ok(Version::new(0, 0, 0, 0)));
    assert_eq!(
        Version::parse("65535.65535.65535.65535"),
        Ok(Version::new(65535, 65535, 65535, 65535))
    );
    assert_eq!(Version::parse("02.033.0005.14"), Ok(Version::new(2, 33, 5, 14)));
}

#[test]
fn refuses_malformed_text() {
    let bad = [
        "",
        "2.33.5",
        "2.33.5..",
        "2.33.5.14.1",
        "2.33.5.14.",
        ".2.33.5",
        "2.33.5.65536",
        "2.33.5.x",
        "2.33.-5.14",
        "+2.33.5.14",
        " 2.33.5.14",
        "2.33.5.14 ",
        "2.33.5.١",
        "2,33,5,14",
        "2.33.5.99999999999999999999",
    ];
    for s in bad {
        assert_eq!(Version::parse(s), Err(ParseError::InvalidFormat), "{s}");
        assert!(!Version::is_valid(s), "{s}");
    }
}

#[test]
fn is_valid_agrees_with_parse() {
    for s in ["2.33.5.14", "0.0.0.0", "65535.0.1.2", "007.1.1.1"] {
        assert!(Version::is_valid(s), "{s}");
        assert!(Version::parse(s).is_ok(), "{s}");
    }
}

#[test]
fn parse_after_format_gives_the_version() {
    for v in [
        Version::new(2, 33, 5, 14),
        Version::new(0, 0, 0, 0),
        Version::new(65535, 65535, 65535, 65535),
        Version::new(10, 0, 100, 9),
    ] {
        assert_eq!(Version::parse(&v.to_string()), Ok(v));
    }
}

#[test]
fn from_str_reads_as_parse_does() {
    assert_eq!(Version::from_str("65535.0.0.65535"), Ok(Version::new(65535, 0, 0, 65535)));
    assert_eq!(Version::from_str("0.0.0.0"), Ok(Version::new(0, 0, 0, 0)));
    for s in ["", "2.33.5", "2.33.5..", "2.33.5.65536", "2.33.-1.14", "2.x.5.14", " 2.33.5.14", "2,33,5,14"] {
        assert_eq!(Version::from_str(s), Err(ParseError::InvalidFormat), "{s}");
    }
    let v = Version::new(2, 33, 5, 14);
    assert_eq!(Version::from_str(&v.to_string()), Ok(v));
}
