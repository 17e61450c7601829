//! A Kubernetes resource version, `v<MAJOR>` with an optional level.
use vstd::prelude::*;

use vstd::utf8::{encode_utf8, is_ascii_chars, is_ascii_chars_encode_utf8};

use crate::level::{
    is_level_text, lemma_level_text_injective, level_number, level_outcome, level_text,
    level_word_of, Level, ParseLevelError,
};
use crate::number::{
    decimal, decimal_string, is_digit, lemma_decimal_len_u64, lemma_decimal_of_value,
    lemma_decimal_shape,
};
use crate::util::{
    consume_digits, consume_start, digit_run_len, is_lower, lemma_run_len_bounds,
    lemma_scan_decimal, scan_digits, ConsumeError,
};

verus! {

/// The longest version string accepted, in bytes.
pub const MAX_LENGTH: usize = 63;

/// A pattern for a DNS label: lowercase letters, digits and `-`, neither
/// first nor last a `-`.
pub const DNS_LABEL_PATTERN: &'static str = "^[a-z0-9]([a-z0-9-]*[a-z0-9])?$";

/// Why a string is not a version.
#[derive(Clone, Debug, PartialEq, Eq)]
pub enum VersionParseError {
    /// The string is empty.
    Empty,
    /// The string is longer than the limit, in bytes.
    IllegalLength { length: usize },
    /// The string holds a character that is not ASCII.
    NonAscii,
    /// The string is not a DNS label, or no major number follows the `v`.
    InvalidFormat,
    /// The `v` or the major number cannot be read.
    ParseMajorVersion { source: ConsumeError },
    /// What follows the major number is not a level.
    ParseLevel { source: ParseLevelError },
}

/// A Kubernetes resource version with the `v<MAJOR>(beta/alpha<LEVEL>)`
/// format, for example `v1`, `v2beta1` or `v1alpha2`.
#[derive(Clone, Copy, Debug, PartialEq, Eq, Structural)]
pub struct Version {
    pub major: u64,
    pub level: Option<Level>,
}

/// A DNS label: one or more lowercase letters, digits and `-`, neither first
/// nor last a `-`.
pub open spec fn is_dns_label(s: Seq<char>) -> bool {
    &&& s.len() >= 1
    &&& forall|i: int| 0 <= i < s.len() ==> is_lower(#[trigger] s[i]) || is_digit(s[i]) || s[i] == '-'
    &&& s[0] != '-'
    &&& s.last() != '-'
}

/// A version that a string can name: its numbers are positive.
pub open spec fn version_valid(v: Version) -> bool {
    &&& v.major > 0
    &&& v.level matches Some(l) ==> level_number(l) > 0
}

/// The canonical text of a version: `v`, the major number, then the level.
pub open spec fn version_text(v: Version) -> Seq<char> {
    seq!['v'] + decimal(v.major as nat) + match v.level {
        Some(l) => level_text(l),
        None => Seq::<char>::empty(),
    }
}

/// A string that is the canonical text of a valid version: exactly the
/// strings that parse as a version.
pub open spec fn is_version_text(s: Seq<char>) -> bool {
    exists|v: Version| version_valid(v) && #[trigger] version_text(v) == s
}

/// The length of a string in bytes, as `str::len` gives it.
pub open spec fn byte_len(s: Seq<char>) -> usize {
    encode_utf8(s).len() as usize
}

/// Not empty, not too long and ASCII: the checks before the shape.
pub open spec fn passes_length_and_charset(s: Seq<char>) -> bool {
    s.len() > 0 && byte_len(s) <= 63 && is_ascii_chars(s)
}

/// What parsing `s` as a version gives, success or each error, with the
/// inputs on which it comes.
pub open spec fn version_outcome(s: Seq<char>, r: Result<Version, VersionParseError>) -> bool {
    &&& (r is Ok <==> is_version_text(s))
    &&& forall|v: Version| version_valid(v) && #[trigger] version_text(v) == s ==> r == Ok::<
        Version,
        VersionParseError,
    >(v)
    &&& match r {
        Ok(v) => version_valid(v) && version_text(v) == s,
        Err(VersionParseError::Empty) => s.len() == 0,
        Err(VersionParseError::IllegalLength { length }) => {
            s.len() > 0 && byte_len(s) > 63 && length == byte_len(s)
        },
        Err(VersionParseError::NonAscii) => {
            s.len() > 0 && byte_len(s) <= 63 && !is_ascii_chars(s)
        },
        Err(VersionParseError::InvalidFormat) => {
            &&& passes_length_and_charset(s)
            &&& (!is_dns_label(s) || (s[0] == 'v' && digit_run_len(s.drop_first()) == 0))
        },
        Err(VersionParseError::ParseMajorVersion { source }) => {
            &&& passes_length_and_charset(s)
            &&& is_dns_label(s)
            &&& if s[0] != 'v' {
                source == ConsumeError::UnexpectedCharacter { character: s[0] }
            } else {
                scan_digits(s.drop_first()) == Err::<(nat, nat), ConsumeError>(source)
            }
        },
        Err(VersionParseError::ParseLevel { source }) => {
            &&& passes_length_and_charset(s)
            &&& is_dns_label(s)
            &&& s[0] == 'v'
            &&& scan_digits(s.drop_first()) matches Ok((_, k))
            &&& 0 < k < s.drop_first().len()
            &&& level_outcome(s.drop_first().skip(k as int), Err(source))
        },
    }
}

/// The text of a valid version passes every check, and its major number and
/// level sit where parsing looks for them.
pub proof fn lemma_version_text_facts(v: Version)
    requires
        version_valid(v),
    ensures
        passes_length_and_charset(version_text(v)),
        is_dns_label(version_text(v)),
        version_text(v)[0] == 'v',
        scan_digits(version_text(v).drop_first()) == Ok::<(nat, nat), ConsumeError>(
            (v.major as nat, decimal(v.major as nat).len()),
        ),
        version_text(v).drop_first().skip(decimal(v.major as nat).len() as int) == match v.level {
            Some(l) => level_text(l),
            None => Seq::<char>::empty(),
        },
        v.level matches Some(l) ==> is_level_text(level_text(l)),
{
    let s = version_text(v);
    let d = decimal(v.major as nat);
    let tail = match v.level {
        Some(l) => level_text(l),
        None => Seq::<char>::empty(),
    };
    lemma_decimal_shape(v.major as nat);
    lemma_decimal_len_u64(v.major as nat);
    match v.level {
        Some(l) => {
            lemma_decimal_shape(level_number(l));
            lemma_decimal_len_u64(level_number(l));
            assert(is_level_text(level_text(l)));
            assert(level_word_of(l).len() <= 5);
            assert(!is_digit(tail[0]));
        },
        None => {},
    }
    assert(s.drop_first() =~= d + tail);
    lemma_scan_decimal(v.major as nat, tail);
    assert forall|i: int| 0 <= i < s.len() implies ('\0' <= #[trigger] s[i] <= '\u{7f}' && (
    is_lower(s[i]) || is_digit(s[i]))) by {
        if i == 0 {
        } else if i < 1 + d.len() {
            assert(s[i] == d[i - 1]);
        } else {
            assert(s[i] == tail[i - 1 - d.len()]);
            match v.level {
                Some(l) => {
                    let w = level_word_of(l);
                    let ld = decimal(level_number(l));
                    if i - 1 - d.len() < w.len() {
                        assert(tail[i - 1 - d.len()] == w[i - 1 - d.len()]);
                    } else {
                        assert(tail[i - 1 - d.len()] == ld[i - 1 - d.len() - w.len()]);
                    }
                },
                None => {},
            }
        }
    }
    assert(is_ascii_chars(s));
    is_ascii_chars_encode_utf8(s);
}

/// Formatting what a string parsed to gives the string back.
pub proof fn lemma_format_parse(s: Seq<char>, v: Version)
    requires
        version_outcome(s, Ok(v)),
    ensures
        version_text(v) == s,
{
}

/// A canonical version text passes every check before the major number,
/// its major number scans, and after it comes nothing or a level text.
pub proof fn lemma_version_text_checks(s: Seq<char>)
    ensures
        is_version_text(s) ==> {
            &&& passes_length_and_charset(s)
            &&& is_dns_label(s)
            &&& s[0] == 'v'
            &&& scan_digits(s.drop_first()) matches Ok((_, k))
            &&& 0 < k
            &&& (k == s.drop_first().len() || is_level_text(s.drop_first().skip(k as int)))
        },
{
    if is_version_text(s) {
        let v = choose|v: Version| version_valid(v) && #[trigger] version_text(v) == s;
        lemma_version_text_facts(v);
        lemma_decimal_shape(v.major as nat);
        lemma_decimal_len_u64(v.major as nat);
    }
}

/// Two valid versions with the same text are the same version.
pub proof fn lemma_version_text_injective(v: Version, w: Version)
    requires
        version_valid(v),
        version_valid(w),
        version_text(v) == version_text(w),
    ensures
        v == w,
{
    lemma_version_text_facts(v);
    lemma_version_text_facts(w);
    let t = version_text(v);
    assert(v.major == w.major);
    let k = decimal(v.major as nat).len() as int;
    match (v.level, w.level) {
        (Some(a), Some(b)) => {
            lemma_level_text_injective(a, b);
        },
        (Some(a), None) => {
            lemma_decimal_shape(level_number(a));
            assert(t.drop_first().skip(k).len() == 0);
        },
        (None, Some(b)) => {
            lemma_decimal_shape(level_number(b));
            assert(t.drop_first().skip(k).len() == 0);
        },
        (None, None) => {},
    }
}

/// Parsing the text of a valid version gives that version back.
pub proof fn lemma_parse_format(v: Version, r: Result<Version, VersionParseError>)
    requires
        version_valid(v),
        version_outcome(version_text(v), r),
    ensures
        r == Ok::<Version, VersionParseError>(v),
{
}

/// Relies on `regex::Regex::new` and `regex::Regex::is_match`. The DNS label
/// pattern is valid, so compiling it does not fail. `^` and `$` anchor it at
/// both ends of the text; its first class rules out a leading `-`, and the
/// optional group, which ends in a letter or digit, a trailing one. So it
/// matches exactly the DNS labels.
#[verifier::external_body]
fn matches_pattern(pattern: &str, text: &str) -> (r: bool)
    requires
        pattern@ == DNS_LABEL_PATTERN@,
    ensures
        r == is_dns_label(text@),
{
    regex::Regex::new(pattern).unwrap().is_match(text)
}

impl VersionParseError {
    /// A message for people.
    pub fn to_string(&self) -> (r: String)
        ensures
            r@ == match *self {
                VersionParseError::Empty => "empty string, expected a Kubernetes resource version"@,
                VersionParseError::IllegalLength { length } => "expected a string with 63 characters or less, got "@
                    + decimal(length as nat),
                VersionParseError::NonAscii => "unexpected non-ascii character"@,
                VersionParseError::InvalidFormat => "invalid version format, expected a DNS label v<MAJOR> with an optional beta<LEVEL> or alpha<LEVEL>"@,
                VersionParseError::ParseMajorVersion { .. } => "failed to parse major version"@,
                VersionParseError::ParseLevel { .. } => "failed to parse version level"@,
            },
    {
        match self {
            VersionParseError::Empty => String::from_str(
                "empty string, expected a Kubernetes resource version",
            ),
            VersionParseError::IllegalLength { length } => String::from_str(
                "expected a string with 63 characters or less, got ",
            ).concat(decimal_string(*length as u64).as_str()),
            VersionParseError::NonAscii => String::from_str("unexpected non-ascii character"),
            VersionParseError::InvalidFormat => String::from_str(
                "invalid version format, expected a DNS label v<MAJOR> with an optional beta<LEVEL> or alpha<LEVEL>",
            ),
            VersionParseError::ParseMajorVersion { .. } => String::from_str(
                "failed to parse major version",
            ),
            VersionParseError::ParseLevel { .. } => String::from_str("failed to parse version level"),
        }
    }
}

impl core::str::FromStr for Version {
    type Err = VersionParseError;

    fn from_str(input: &str) -> Result<Version, VersionParseError> {
        Version::from_str(input)
    }
}

impl Version {
    /// A version with the given major number and level.
    pub fn new(major: u64, minor: Option<Level>) -> (r: Version)
        ensures
            r.major == major,
            r.level == minor,
    {
        Version { major, level: minor }
    }

    /// Parses a whole version string `v<MAJOR>` or `v<MAJOR><LEVEL>`. The
    /// checks run in order and the first that fails gives the error: empty,
    /// over 63 bytes, not ASCII, not a DNS label, no leading `v`, then the
    /// major number and the level.
    pub fn from_str(input: &str) -> (r: Result<Version, VersionParseError>)
        ensures
            version_outcome(input@, r),
    {
        let ghost s = input@;
        proof {
            lemma_version_text_checks(s);
        }
        if input.is_empty() {
            return Err(VersionParseError::Empty);
        }
        let length = input.len();
        if length > MAX_LENGTH {
            return Err(VersionParseError::IllegalLength { length });
        }
        if !input.is_ascii() {
            return Err(VersionParseError::NonAscii);
        }
        if !matches_pattern(DNS_LABEL_PATTERN, input) {
            return Err(VersionParseError::InvalidFormat);
        }
        let rest = match consume_start(input) {
            Ok(rest) => rest,
            Err(e) => {
                return Err(VersionParseError::ParseMajorVersion { source: e });
            },
        };
        let (major, tail) = match consume_digits(rest) {
            Ok(p) => p,
            Err(e) => {
                return Err(VersionParseError::ParseMajorVersion { source: e });
            },
        };
        let ghost k = digit_run_len(rest@);
        proof {
            lemma_run_len_bounds(rest@, |c: char| is_digit(c));
            assert(s =~= seq!['v'] + rest@);
            assert(rest@ =~= rest@.take(k as int) + tail@);
        }
        let tail_len = tail.unicode_len();
        if tail_len == rest.unicode_len() {
            return Err(VersionParseError::InvalidFormat);
        }
        proof {
            lemma_decimal_of_value(rest@.take(k as int));
        }
        if tail_len == 0 {
            let v = Version { major, level: None };
            proof {
                assert(version_text(v) =~= s);
                assert forall|w: Version| version_valid(w) && #[trigger] version_text(w) == s implies w
                    == v by {
                    lemma_version_text_injective(w, v);
                }
            }
            return Ok(v);
        }
        match Level::from_str(tail) {
            Ok(level) => {
                let v = Version { major, level: Some(level) };
                proof {
                    assert(version_text(v) =~= s);
                    assert forall|w: Version| version_valid(w) && #[trigger] version_text(w) == s implies w
                        == v by {
                        lemma_version_text_injective(w, v);
                    }
                }
                Ok(v)
            },
            Err(e) => {
                Err(VersionParseError::ParseLevel { source: e })
            },
        }
    }

    /// The canonical text of the version: `v<MAJOR>` followed by the level,
    /// if any.
    pub fn to_string(&self) -> (r: String)
        ensures
            r@ == version_text(*self),
    {
        proof {
            reveal_strlit("v");
        }
        let head = String::from_str("v").concat(decimal_string(self.major).as_str());
        match &self.level {
            Some(level) => head.concat(level.to_string().as_str()),
            None => {
                assert(head@ =~= version_text(*self));
                head
            },
        }
    }
}

} // verus!
