//! The stability level of a version, `beta<N>` or `alpha<N>`, and its order.
use vstd::prelude::*;

use core::cmp::Ordering;

use crate::number::{
    decimal, decimal_string, is_digit, lemma_decimal_of_value, lemma_decimal_shape,
    lemma_value_of_decimal,
};
use crate::util::{
    debug_str, is_plain_ascii, str_debug, consume_chars, consume_digits, digit_run_len, is_lower, lemma_run_len, lemma_run_len_bounds,
    lemma_scan_decimal, lower_run_len, scan_digits, ConsumeError,
};

verus! {

/// Why a string is not a level.
#[derive(Clone, Debug, PartialEq, Eq)]
pub enum ParseLevelError {
    /// The word is `beta` or `alpha`, but no number follows it, or something
    /// follows the number.
    InvalidFormat,
    /// The number after the word cannot be read.
    ParseVersion { source: ConsumeError },
    /// The word in front is neither `beta` nor `alpha`.
    UnknownIdentifier { identifier: String },
}

/// The stability level of a Kubernetes resource version, with the
/// `beta<VERSION>` or `alpha<VERSION>` format.
#[derive(Clone, Copy, Debug, PartialEq, Eq, Structural, Ord)]
pub enum Level {
    Alpha(u64),
    Beta(u64),
}

impl ParseLevelError {
    /// A message for people. An unknown identifier is named as debug
    /// formatting writes it.
    pub fn to_string(&self) -> (r: String)
        ensures
            r@ == match *self {
                ParseLevelError::InvalidFormat => "invalid level format, expected beta<VERSION>/alpha<VERSION>"@,
                ParseLevelError::ParseVersion { .. } => "failed to parse level version"@,
                ParseLevelError::UnknownIdentifier { identifier } => "unexpected minor identifier "@
                    + debug_str(identifier@) + ", expected \"beta\" or \"alpha\""@,
            },
            match *self {
                ParseLevelError::UnknownIdentifier { identifier } => (forall|i: int|
                    0 <= i < identifier@.len() ==> is_plain_ascii(#[trigger] identifier@[i])) ==> r@
                    == "unexpected minor identifier \""@ + identifier@
                    + "\", expected \"beta\" or \"alpha\""@,
                _ => true,
            },
    {
        match self {
            ParseLevelError::InvalidFormat => String::from_str(
                "invalid level format, expected beta<VERSION>/alpha<VERSION>",
            ),
            ParseLevelError::ParseVersion { .. } => String::from_str("failed to parse level version"),
            ParseLevelError::UnknownIdentifier { identifier } => {
                proof {
                    reveal_strlit("unexpected minor identifier ");
                    reveal_strlit(", expected \"beta\" or \"alpha\"");
                    reveal_strlit("unexpected minor identifier \"");
                    reveal_strlit("\", expected \"beta\" or \"alpha\"");
                }
                let r = String::from_str("unexpected minor identifier ").concat(
                    str_debug(identifier.as_str()).as_str(),
                ).concat(", expected \"beta\" or \"alpha\"");
                assert((forall|i: int|
                    0 <= i < identifier@.len() ==> is_plain_ascii(#[trigger] identifier@[i])) ==> r@
                    =~= "unexpected minor identifier \""@ + identifier@
                    + "\", expected \"beta\" or \"alpha\""@);
                r
            },
        }
    }
}

/// The word `beta`.
pub open spec fn beta_word() -> Seq<char> {
    seq!['b', 'e', 't', 'a']
}

/// The word `alpha`.
pub open spec fn alpha_word() -> Seq<char> {
    seq!['a', 'l', 'p', 'h', 'a']
}

/// The word that a level is written with.
pub open spec fn level_word_of(l: Level) -> Seq<char> {
    match l {
        Level::Beta(_) => beta_word(),
        Level::Alpha(_) => alpha_word(),
    }
}

/// The number that a level carries.
pub open spec fn level_number(l: Level) -> nat {
    match l {
        Level::Beta(n) => n as nat,
        Level::Alpha(n) => n as nat,
    }
}

/// The canonical text of a level: its word, then its number in decimal.
pub open spec fn level_text(l: Level) -> Seq<char> {
    level_word_of(l) + decimal(level_number(l))
}

/// A string that is the canonical text of a level whose number is positive:
/// exactly the strings that parse as a level.
pub open spec fn is_level_text(s: Seq<char>) -> bool {
    exists|l: Level| level_number(l) > 0 && #[trigger] level_text(l) == s
}

/// The run of lowercase letters that a level string starts with.
pub open spec fn leading_word(s: Seq<char>) -> Seq<char> {
    s.take(lower_run_len(s) as int)
}

/// What follows the leading word.
pub open spec fn after_word(s: Seq<char>) -> Seq<char> {
    s.skip(lower_run_len(s) as int)
}

/// One of the two words that a level may start with.
pub open spec fn is_level_word(w: Seq<char>) -> bool {
    w == beta_word() || w == alpha_word()
}

/// What parsing `s` as a level gives, success or each error, with the
/// inputs on which it comes.
pub open spec fn level_outcome(s: Seq<char>, r: Result<Level, ParseLevelError>) -> bool {
    &&& (r is Ok <==> is_level_text(s))
    &&& forall|l: Level| level_number(l) > 0 && #[trigger] level_text(l) == s ==> r == Ok::<
        Level,
        ParseLevelError,
    >(l)
    &&& match r {
        Ok(l) => level_number(l) > 0 && level_text(l) == s,
        Err(ParseLevelError::UnknownIdentifier { identifier }) => {
            !is_level_word(leading_word(s)) && identifier@ == leading_word(s)
        },
        Err(ParseLevelError::ParseVersion { source }) => {
            is_level_word(leading_word(s)) && scan_digits(after_word(s)) == Err::<
                (nat, nat),
                ConsumeError,
            >(source)
        },
        Err(ParseLevelError::InvalidFormat) => {
            &&& is_level_word(leading_word(s))
            &&& scan_digits(after_word(s)) matches Ok((_, k))
            &&& (k == 0 || k < after_word(s).len())
        },
    }
}

/// The order of levels: every beta above every alpha, and within one kind
/// the larger number above.
pub open spec fn level_cmp(a: Level, b: Level) -> Ordering {
    match (a, b) {
        (Level::Beta(_), Level::Alpha(_)) => Ordering::Greater,
        (Level::Alpha(_), Level::Beta(_)) => Ordering::Less,
        _ => if level_number(a) < level_number(b) {
            Ordering::Less
        } else if level_number(a) == level_number(b) {
            Ordering::Equal
        } else {
            Ordering::Greater
        },
    }
}

/// Every beta level orders above every alpha level, whatever their numbers.
pub proof fn lemma_beta_above_alpha(n: u64, m: u64)
    ensures
        level_cmp(Level::Beta(n), Level::Alpha(m)) == Ordering::Greater,
        level_cmp(Level::Alpha(m), Level::Beta(n)) == Ordering::Less,
{
}

/// The order of levels is total: each level equals itself and nothing else,
/// swapping the two sides reverses the result, and it is transitive.
pub proof fn lemma_level_order_total(a: Level, b: Level, c: Level)
    ensures
        level_cmp(a, a) == Ordering::Equal,
        (level_cmp(a, b) == Ordering::Equal) <==> a == b,
        (level_cmp(a, b) == Ordering::Less) <==> (level_cmp(b, a) == Ordering::Greater),
        level_cmp(a, b) == Ordering::Less && level_cmp(b, c) == Ordering::Less ==> level_cmp(a, c)
            == Ordering::Less,
        level_cmp(a, b) != Ordering::Greater && level_cmp(b, c) != Ordering::Greater ==> level_cmp(
            a,
            c,
        ) != Ordering::Greater,
{
}

/// Two levels with the same text are the same level.
pub proof fn lemma_level_text_injective(a: Level, b: Level)
    requires
        level_text(a) == level_text(b),
    ensures
        a == b,
{
    lemma_level_text_parts(a);
    lemma_level_text_parts(b);
    lemma_value_of_decimal(level_number(a));
    lemma_value_of_decimal(level_number(b));
    assert(level_word_of(a).len() == level_word_of(b).len());
}

/// The canonical text of a level splits into its word and its number.
pub proof fn lemma_level_text_parts(l: Level)
    ensures
        leading_word(level_text(l)) == level_word_of(l),
        after_word(level_text(l)) == decimal(level_number(l)),
{
    let w = level_word_of(l);
    let d = decimal(level_number(l));
    let s = level_text(l);
    lemma_decimal_shape(level_number(l));
    assert forall|j: int| 0 <= j < w.len() implies is_lower(#[trigger] s[j]) by {
        assert(s[j] == w[j]);
    }
    assert(s[w.len() as int] == d[0]);
    lemma_run_len(s, |c: char| is_lower(c), w.len() as int);
    assert(s.take(w.len() as int) =~= w);
    assert(s.skip(w.len() as int) =~= d);
}

/// The text of a level with a positive number passes every check that
/// parsing makes.
proof fn lemma_level_text_scans(l: Level)
    requires
        level_number(l) > 0,
    ensures
        leading_word(level_text(l)) == level_word_of(l),
        after_word(level_text(l)).len() > 0,
        scan_digits(after_word(level_text(l))) == Ok::<(nat, nat), ConsumeError>(
            (level_number(l), after_word(level_text(l)).len()),
        ),
{
    let d = decimal(level_number(l));
    lemma_level_text_parts(l);
    lemma_decimal_shape(level_number(l));
    assert(d + Seq::<char>::empty() =~= d);
    lemma_scan_decimal(level_number(l), Seq::<char>::empty());
}

/// A canonical level text starts with a level word, and what follows it is
/// one whole run of digits that scans.
proof fn lemma_level_text_checks(s: Seq<char>)
    ensures
        is_level_text(s) ==> {
            &&& is_level_word(leading_word(s))
            &&& scan_digits(after_word(s)) matches Ok((_, k))
            &&& 0 < k
            &&& k == after_word(s).len()
        },
{
    if is_level_text(s) {
        let l = choose|l: Level| level_number(l) > 0 && #[trigger] level_text(l) == s;
        lemma_level_text_scans(l);
    }
}

fn word_matches(ident: &String, word: &str) -> (r: bool)
    ensures
        r == (ident@ == word@),
{
    *ident == String::from_str(word)
}

impl Level {
    /// Parses a whole string of the form `beta<N>` or `alpha<N>`, where `N`
    /// is a positive number without leading zeros that fits in 64 bits.
    pub fn from_str(input: &str) -> (r: Result<Level, ParseLevelError>)
        ensures
            level_outcome(input@, r),
    {
        let ghost s = input@;
        proof {
            lemma_level_text_checks(s);
        }
        let (ident, rest) = consume_chars(input);
        proof {
            reveal_strlit("beta");
            reveal_strlit("alpha");
            assert("beta"@ =~= beta_word());
            assert("alpha"@ =~= alpha_word());
            lemma_run_len_bounds(s, |c: char| is_lower(c));
            assert(s =~= leading_word(s) + after_word(s));
        }
        let is_beta = word_matches(&ident, "beta");
        let is_alpha = word_matches(&ident, "alpha");
        assert(is_beta == (ident@ == beta_word()));
        assert(is_alpha == (ident@ == alpha_word()));
        if !is_beta && !is_alpha {
            return Err(ParseLevelError::UnknownIdentifier { identifier: ident });
        }
        match consume_digits(rest) {
            Err(e) => {
                Err(ParseLevelError::ParseVersion { source: e })
            },
            Ok((n, tail)) => {
                let tail_len = tail.unicode_len();
                proof {
                    lemma_run_len_bounds(after_word(s), |c: char| is_digit(c));
                }
                if tail_len == rest.unicode_len() || tail_len != 0 {
                    return Err(ParseLevelError::InvalidFormat);
                }
                let level = if is_beta {
                    Level::Beta(n)
                } else {
                    Level::Alpha(n)
                };
                proof {
                    let d = after_word(s);
                    let k = digit_run_len(d);
                    lemma_run_len_bounds(d, |c: char| is_digit(c));
                    assert(d.take(k as int) =~= d);
                    lemma_decimal_of_value(d);
                    assert(level_text(level) =~= s);
                    assert forall|l: Level| level_number(l) > 0 && #[trigger] level_text(l)
                        == s implies l == level by {
                        lemma_level_text_injective(l, level);
                    }
                }
                Ok(level)
            },
        }
    }

    /// The canonical text of the level: `beta<N>` or `alpha<N>`.
    pub fn to_string(&self) -> (r: String)
        ensures
            r@ == level_text(*self),
    {
        proof {
            reveal_strlit("beta");
            reveal_strlit("alpha");
        }
        match self {
            Level::Beta(n) => String::from_str("beta").concat(decimal_string(*n).as_str()),
            Level::Alpha(n) => String::from_str("alpha").concat(decimal_string(*n).as_str()),
        }
    }
}

impl core::str::FromStr for Level {
    type Err = ParseLevelError;

    fn from_str(input: &str) -> Result<Level, ParseLevelError> {
        Level::from_str(input)
    }
}

impl PartialOrd for Level {
    fn partial_cmp(&self, other: &Level) -> (r: Option<Ordering>)
        ensures
            r == Some(level_cmp(*self, *other)),
    {
        match (self, other) {
            (Level::Beta(_), Level::Alpha(_)) => Some(Ordering::Greater),
            (Level::Alpha(_), Level::Beta(_)) => Some(Ordering::Less),
            (Level::Beta(a), Level::Beta(b)) | (Level::Alpha(a), Level::Alpha(b)) => {
                if *a < *b {
                    Some(Ordering::Less)
                } else if *a == *b {
                    Some(Ordering::Equal)
                } else {
                    Some(Ordering::Greater)
                }
            },
        }
    }
}

impl vstd::std_specs::cmp::PartialOrdSpecImpl for Level {
    open spec fn obeys_partial_cmp_spec() -> bool {
        true
    }

    open spec fn partial_cmp_spec(&self, other: &Level) -> Option<Ordering> {
        Some(level_cmp(*self, *other))
    }
}

} // verus!
