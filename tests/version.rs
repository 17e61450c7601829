use k8s_version::level::{Level, ParseLevelError};
use k8s_version::util::ConsumeError;
use k8s_version::version::{Version, VersionParseError};

fn level_error(input: &str) -> ParseLevelError {
    match Version::from_str(input) {
        Err(VersionParseError::ParseLevel { source }) => source,
        other => panic!("expected a level error for {input:?}, got {other:?}"),
    }
}

fn major_error(input: &str) -> ConsumeError {
    match Version::from_str(input) {
        Err(VersionParseError::ParseMajorVersion { source }) => source,
        other => panic!("expected a major version error for {input:?}, got {other:?}"),
    }
}

#[test]
fn valid_version() {
    for input in ["v1alpha12", "v1alpha1", "v1beta1", "v1"] {
        let version = Version::from_str(input).unwrap();
        assert_eq!(version.to_string(), input);
    }
}

#[test]
fn valid_forms_parse_to_their_parts() {
    assert_eq!(Version::from_str("v1"), Ok(Version::new(1, None)));
    assert_eq!(Version::from_str("v1beta1"), Ok(Version::new(1, Some(Level::Beta(1)))));
    assert_eq!(Version::from_str("v2alpha12"), Ok(Version::new(2, Some(Level::Alpha(12)))));
    assert_eq!(Version::from_str("v2alpha12").unwrap().to_string(), "v2alpha12");
}

#[test]
fn leading_zero_is_rejected() {
    assert_eq!(major_error("v0"), ConsumeError::LeadingZero);
    assert_eq!(major_error("v01"), ConsumeError::LeadingZero);
    assert_eq!(
        level_error("v1beta0"),
        ParseLevelError::ParseVersion { source: ConsumeError::LeadingZero }
    );
    assert_eq!(
        level_error("v1alpha01"),
        ParseLevelError::ParseVersion { source: ConsumeError::LeadingZero }
    );
}

#[test]
fn major_overflow() {
    assert_eq!(major_error("v18446744073709551616"), ConsumeError::IntegerOverflow);
    let version = Version::from_str("v18446744073709551615").unwrap();
    assert_eq!(version.major, 18446744073709551615);
    assert_eq!(version.level, None);
    assert_eq!(version.to_string(), "v18446744073709551615");
}

#[test]
fn level_overflow() {
    assert_eq!(
        level_error("v1beta18446744073709551616"),
        ParseLevelError::ParseVersion { source: ConsumeError::IntegerOverflow }
    );
    assert_eq!(
        Version::from_str("v1beta18446744073709551615"),
        Ok(Version::new(1, Some(Level::Beta(18446744073709551615))))
    );
}

#[test]
fn unknown_level_identifier() {
    assert_eq!(
        level_error("v1gamma2"),
        ParseLevelError::UnknownIdentifier { identifier: "gamma".to_string() }
    );
    assert_eq!(
        level_error("v1gamma12"),
        ParseLevelError::UnknownIdentifier { identifier: "gamma".to_string() }
    );
    assert_eq!(
        level_error("v1-beta1"),
        ParseLevelError::UnknownIdentifier { identifier: String::new() }
    );
}

#[test]
fn level_without_number_or_with_trailing_text() {
    assert_eq!(level_error("v1beta"), ParseLevelError::InvalidFormat);
    assert_eq!(level_error("v1beta1x"), ParseLevelError::InvalidFormat);
    assert_eq!(level_error("v1alpha2-3"), ParseLevelError::InvalidFormat);
}

#[test]
fn missing_prefix() {
    assert_eq!(
        major_error("1beta1"),
        ConsumeError::UnexpectedCharacter { character: '1' }
    );
    assert_eq!(major_error("x1"), ConsumeError::UnexpectedCharacter { character: 'x' });
}

#[test]
fn empty_input() {
    assert_eq!(Version::from_str(""), Err(VersionParseError::Empty));
}

#[test]
fn too_long_input() {
    let input = format!("v1{}", "a".repeat(62));
    assert_eq!(input.len(), 64);
    assert_eq!(Version::from_str(&input), Err(VersionParseError::IllegalLength { length: 64 }));
    let longest = format!("v1{}", "a".repeat(61));
    assert_eq!(longest.len(), 63);
    assert_eq!(
        level_error(&longest),
        ParseLevelError::UnknownIdentifier { identifier: "a".repeat(61) }
    );
}

#[test]
fn length_counts_bytes() {
    let input = "ä".repeat(32);
    assert_eq!(Version::from_str(&input), Err(VersionParseError::IllegalLength { length: 64 }));
}

#[test]
fn non_ascii_input() {
    assert_eq!(Version::from_str("v1betä1"), Err(VersionParseError::NonAscii));
}

#[test]
fn not_a_dns_label() {
    assert_eq!(Version::from_str("V1"), Err(VersionParseError::InvalidFormat));
    assert_eq!(Version::from_str("-v1"), Err(VersionParseError::InvalidFormat));
    assert_eq!(Version::from_str("v1-"), Err(VersionParseError::InvalidFormat));
    assert_eq!(Version::from_str("v1.2"), Err(VersionParseError::InvalidFormat));
    assert_eq!(Version::from_str("v1_beta1"), Err(VersionParseError::InvalidFormat));
}

#[test]
fn missing_major_number() {
    assert_eq!(Version::from_str("v"), Err(VersionParseError::InvalidFormat));
    assert_eq!(Version::from_str("vbeta1"), Err(VersionParseError::InvalidFormat));
}

#[test]
fn round_trip_of_formatted_versions() {
    for (major, level) in [
        (1, None),
        (7, Some(Level::Alpha(3))),
        (10, Some(Level::Beta(200))),
        (u64::MAX, Some(Level::Alpha(u64::MAX))),
    ] {
        let version = Version::new(major, level);
        let text = version.to_string();
        assert_eq!(Version::from_str(&text), Ok(version));
    }
}

#[test]
fn version_through_str_parse() {
    assert_eq!("v3beta2".parse::<Version>(), Ok(Version::new(3, Some(Level::Beta(2)))));
    assert_eq!("".parse::<Version>(), Err(VersionParseError::Empty));
}

#[test]
fn version_error_messages() {
    assert_eq!(
        VersionParseError::Empty.to_string(),
        "empty string, expected a Kubernetes resource version"
    );
    assert_eq!(
        VersionParseError::IllegalLength { length: 64 }.to_string(),
        "expected a string with 63 characters or less, got 64"
    );
    assert_eq!(VersionParseError::NonAscii.to_string(), "unexpected non-ascii character");
    assert_eq!(
        VersionParseError::ParseMajorVersion { source: ConsumeError::IntegerOverflow }.to_string(),
        "failed to parse major version"
    );
    assert_eq!(
        VersionParseError::ParseLevel { source: ParseLevelError::InvalidFormat }.to_string(),
        "failed to parse version level"
    );
    assert!(VersionParseError::InvalidFormat.to_string().starts_with("invalid version format"));
    assert_eq!(ConsumeError::IntegerOverflow.to_string(), "integer overflow");
    assert_eq!(
        ConsumeError::LeadingZero.to_string(),
        "version number cannot start with a leading zero"
    );
    assert_eq!(
        ConsumeError::UnexpectedCharacter { character: 'x' }.to_string(),
        "unexpected character 'x' at index 0"
    );
    assert_eq!(
        major_error("1beta1").to_string(),
        "unexpected character '1' at index 0"
    );
    assert_eq!(
        ConsumeError::UnexpectedCharacter { character: '\'' }.to_string(),
        "unexpected character '\\'' at index 0"
    );
}
