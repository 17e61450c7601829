//! A Kubernetes API version, `(<GROUP>/)<VERSION>`.
use vstd::prelude::*;

use crate::util::{lemma_run_len, lemma_run_len_bounds, run_len};
use crate::version::{version_outcome, version_text, Version, VersionParseError};

verus! {

/// Why a string is not an API version.
#[derive(Clone, Debug, PartialEq, Eq)]
pub enum ApiVersionParseError {
    /// The part after the group, or the whole string without one, is not a
    /// version.
    ParseVersion { source: VersionParseError },
}

/// A Kubernetes API version with the `(<GROUP>/)<VERSION>` format, for example
/// `certificates.k8s.io/v1beta1`, `extensions/v1beta1` or `v1`. The group is
/// kept as it was written.
#[derive(Clone, Debug, PartialEq, Eq)]
pub struct ApiVersion {
    pub group: Option<String>,
    pub version: Version,
}

/// The position of the first `/` in `s`, or its length where it has none.
pub open spec fn slash_index(s: Seq<char>) -> nat {
    run_len(s, |c: char| c != '/')
}

/// The canonical text of an API version: the group and a `/` where there is
/// a group, then the version.
pub open spec fn api_version_text(a: ApiVersion) -> Seq<char> {
    match a.group {
        Some(g) => g@ + seq!['/'] + version_text(a.version),
        None => version_text(a.version),
    }
}

/// What parsing `s` as an API version gives: with a `/`, the text before the
/// first one is the group and the rest must be a version; without one, the
/// whole string must be a version.
pub open spec fn api_version_outcome(s: Seq<char>, r: Result<ApiVersion, ApiVersionParseError>) -> bool {
    let p = slash_index(s);
    let rest = if p < s.len() {
        s.skip(p + 1 as int)
    } else {
        s
    };
    match r {
        Ok(a) => {
            &&& version_outcome(rest, Ok(a.version))
            &&& if p < s.len() {
                a.group matches Some(g) && g@ == s.take(p as int)
            } else {
                a.group is None
            }
        },
        Err(ApiVersionParseError::ParseVersion { source }) => version_outcome(rest, Err(source)),
    }
}

impl ApiVersionParseError {
    /// A message for people.
    pub fn to_string(&self) -> (r: String)
        ensures
            r@ == "failed to parse version"@,
    {
        String::from_str("failed to parse version")
    }
}

impl core::str::FromStr for ApiVersion {
    type Err = ApiVersionParseError;

    fn from_str(input: &str) -> Result<ApiVersion, ApiVersionParseError> {
        ApiVersion::from_str(input)
    }
}

impl ApiVersion {
    /// Parses `<GROUP>/<VERSION>` or `<VERSION>`, splitting at the first `/`.
    pub fn from_str(input: &str) -> (r: Result<ApiVersion, ApiVersionParseError>)
        ensures
            api_version_outcome(input@, r),
            r matches Ok(a) ==> api_version_text(a) == input@,
    {
        let ghost s = input@;
        let len = input.unicode_len();
        let mut i: usize = 0;
        loop
            invariant
                s == input@,
                len == s.len(),
                0 <= i <= len,
                forall|j: int| 0 <= j < i ==> #[trigger] s[j] != '/',
            ensures
                0 <= i <= len,
                forall|j: int| 0 <= j < i ==> #[trigger] s[j] != '/',
                i == len || s[i as int] == '/',
            decreases len - i,
        {
            if i == len || input.get_char(i) == '/' {
                break;
            }
            i = i + 1;
        }
        proof {
            lemma_run_len(s, |c: char| c != '/', i as int);
        }
        if i < len {
            let group = input.substring_char(0, i).to_owned();
            let rest = input.substring_char(i + 1, len);
            match Version::from_str(rest) {
                Ok(version) => {
                    let a = ApiVersion { group: Some(group), version };
                    proof {
                        assert(s =~= s.take(i as int) + seq!['/'] + s.skip(i + 1));
                    }
                    Ok(a)
                },
                Err(e) => Err(ApiVersionParseError::ParseVersion { source: e }),
            }
        } else {
            match Version::from_str(input) {
                Ok(version) => Ok(ApiVersion { group: None, version }),
                Err(e) => Err(ApiVersionParseError::ParseVersion { source: e }),
            }
        }
    }

    /// The canonical text of the API version: `<GROUP>/<VERSION>`, or just
    /// `<VERSION>` without a group.
    pub fn to_string(&self) -> (r: String)
        ensures
            r@ == api_version_text(*self),
    {
        proof {
            reveal_strlit("/");
        }
        let version = self.version.to_string();
        match &self.group {
            Some(group) => {
                let r = group.clone().concat("/").concat(version.as_str());
                assert(r@ =~= api_version_text(*self));
                r
            },
            None => version,
        }
    }
}

} // verus!
