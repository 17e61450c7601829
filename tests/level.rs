use std::cmp::Ordering;

use k8s_version::level::{Level, ParseLevelError};
use k8s_version::util::ConsumeError;

#[test]
fn partial_ord_level() {
    let cases = [
        (Level::Beta(1), Level::Alpha(1), Ordering::Greater),
        (Level::Alpha(1), Level::Beta(1), Ordering::Less),
        (Level::Alpha(2), Level::Alpha(1), Ordering::Greater),
        (Level::Alpha(2), Level::Alpha(2), Ordering::Equal),
        (Level::Alpha(1), Level::Alpha(2), Ordering::Less),
        (Level::Beta(2), Level::Beta(1), Ordering::Greater),
        (Level::Beta(2), Level::Beta(2), Ordering::Equal),
        (Level::Beta(1), Level::Beta(2), Ordering::Less),
    ];
    for (input, other, expected) in cases {
        assert_eq!(input.partial_cmp(&other), Some(expected));
    }
}

#[test]
fn beta_above_alpha_whatever_the_numbers() {
    assert!(Level::Beta(0) > Level::Alpha(u64::MAX));
    assert!(Level::Beta(1) > Level::Alpha(100));
    assert!(Level::Alpha(1) < Level::Alpha(2));
    let beta = Level::Beta(2);
    assert_eq!(beta.partial_cmp(&Level::Beta(2)), Some(Ordering::Equal));
    assert!(!(beta < Level::Beta(2)));
    assert!(!(beta > Level::Beta(2)));
}

#[test]
fn parse_level() {
    assert_eq!(Level::from_str("beta1"), Ok(Level::Beta(1)));
    assert_eq!(Level::from_str("alpha12"), Ok(Level::Alpha(12)));
    assert_eq!(Level::from_str("beta"), Err(ParseLevelError::InvalidFormat));
    assert_eq!(Level::from_str("alpha3b"), Err(ParseLevelError::InvalidFormat));
    assert_eq!(
        Level::from_str("beta0"),
        Err(ParseLevelError::ParseVersion { source: ConsumeError::LeadingZero })
    );
    assert_eq!(
        Level::from_str("gamma2"),
        Err(ParseLevelError::UnknownIdentifier { identifier: "gamma".to_string() })
    );
    assert_eq!(
        Level::from_str(""),
        Err(ParseLevelError::UnknownIdentifier { identifier: String::new() })
    );
    assert_eq!(
        Level::from_str("12"),
        Err(ParseLevelError::UnknownIdentifier { identifier: String::new() })
    );
}

#[test]
fn format_level() {
    assert_eq!(Level::Beta(1).to_string(), "beta1");
    assert_eq!(Level::Alpha(1234567890).to_string(), "alpha1234567890");
    assert_eq!(Level::Beta(0).to_string(), "beta0");
}

#[test]
fn levels_sort_by_stability_then_number() {
    let mut levels = vec![Level::Beta(2), Level::Alpha(10), Level::Beta(1), Level::Alpha(1)];
    levels.sort();
    assert_eq!(
        levels,
        vec![Level::Alpha(1), Level::Alpha(10), Level::Beta(1), Level::Beta(2)]
    );
    assert_eq!(Level::Beta(1).cmp(&Level::Alpha(9)), Ordering::Greater);
}

#[test]
fn level_through_str_parse() {
    assert_eq!("alpha3".parse::<Level>(), Ok(Level::Alpha(3)));
    assert_eq!("beta".parse::<Level>(), Err(ParseLevelError::InvalidFormat));
}

#[test]
fn level_error_messages() {
    assert_eq!(
        ParseLevelError::InvalidFormat.to_string(),
        "invalid level format, expected beta<VERSION>/alpha<VERSION>"
    );
    assert_eq!(
        ParseLevelError::UnknownIdentifier { identifier: "gamma".to_string() }.to_string(),
        r#"unexpected minor identifier "gamma", expected "beta" or "alpha""#
    );
    assert_eq!(
        Level::from_str("").unwrap_err().to_string(),
        r#"unexpected minor identifier "", expected "beta" or "alpha""#
    );
    assert_eq!(
        ParseLevelError::UnknownIdentifier { identifier: "a\"b".to_string() }.to_string(),
        r#"unexpected minor identifier "a\"b", expected "beta" or "alpha""#
    );
    assert_eq!(
        ParseLevelError::ParseVersion { source: ConsumeError::LeadingZero }.to_string(),
        "failed to parse level version"
    );
}
