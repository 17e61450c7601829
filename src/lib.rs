//! Parsing, canonical formatting and ordering of Kubernetes-style API
//! version identifiers such as `v1`, `v2beta1` or `apps/v1alpha3`.
//!
//! A version is `v<MAJOR>` with an optional level `beta<N>` or `alpha<N>`;
//! an API version may put a group and a `/` in front of it. Parsing accepts
//! exactly the canonical texts of versions whose numbers are positive, so
//! formatting what was parsed gives the input back.
pub mod api_version;
pub mod level;
pub mod number;
pub mod util;
pub mod version;

pub use api_version::{ApiVersion, ApiVersionParseError};
pub use level::{Level, ParseLevelError};
pub use util::ConsumeError;
pub use version::{Version, VersionParseError};
