use k8s_version::api_version::{ApiVersion, ApiVersionParseError};
use k8s_version::level::Level;
use k8s_version::version::{Version, VersionParseError};

#[test]
fn group_is_split_off() {
    let api = ApiVersion::from_str("certificates.k8s.io/v1beta1").unwrap();
    assert_eq!(api.group, Some("certificates.k8s.io".to_string()));
    assert_eq!(Ok(api.version), Version::from_str("v1beta1"));
    assert_eq!(api.version, Version::new(1, Some(Level::Beta(1))));
    assert_eq!(api.to_string(), "certificates.k8s.io/v1beta1");
}

#[test]
fn no_group() {
    let api = ApiVersion::from_str("v1").unwrap();
    assert_eq!(api.group, None);
    assert_eq!(api.version, Version::new(1, None));
    assert_eq!(api.to_string(), "v1");
}

#[test]
fn split_at_first_slash() {
    let api = ApiVersion::from_str("/v2alpha1").unwrap();
    assert_eq!(api.group, Some(String::new()));
    assert_eq!(api.to_string(), "/v2alpha1");
    assert_eq!(
        ApiVersion::from_str("apps/extra/v1"),
        Err(ApiVersionParseError::ParseVersion { source: VersionParseError::InvalidFormat })
    );
}

#[test]
fn version_errors_are_wrapped() {
    assert_eq!(
        ApiVersion::from_str("extensions/"),
        Err(ApiVersionParseError::ParseVersion { source: VersionParseError::Empty })
    );
    assert_eq!(
        ApiVersion::from_str(""),
        Err(ApiVersionParseError::ParseVersion { source: VersionParseError::Empty })
    );
}

#[test]
fn api_version_through_str_parse() {
    let api = "apps/v1".parse::<ApiVersion>().unwrap();
    assert_eq!(api.group, Some("apps".to_string()));
    assert_eq!(api.version, Version::new(1, None));
    let err = "apps/v0".parse::<ApiVersion>().unwrap_err();
    assert_eq!(err.to_string(), "failed to parse version");
}
