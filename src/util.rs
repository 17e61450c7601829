//! The scanner: consumes a run of one character class from the front of a
//! string.
use vstd::prelude::*;

use crate::number::{
    decimal, is_digit, lemma_decimal_shape, lemma_value_of_decimal, lemma_value_of_grows, value_of,
};

verus! {

/// What can go wrong while consuming a piece of a version string.
#[derive(Clone, Copy, Debug, PartialEq, Eq, Structural)]
pub enum ConsumeError {
    /// The string does not start with the expected character.
    UnexpectedCharacter { character: char },
    /// A number starts with the digit `0`.
    LeadingZero,
    /// A number does not fit in 64 bits.
    IntegerOverflow,
}

/// An ASCII letter, an ASCII digit or `-`: a character that debug formatting
/// writes as it is.
pub open spec fn is_plain_ascii(c: char) -> bool {
    ('a' <= c && c <= 'z') || ('A' <= c && c <= 'Z') || ('0' <= c && c <= '9') || c == '-'
}

/// What debug formatting (`{:?}`) writes for a character.
pub uninterp spec fn debug_char(c: char) -> Seq<char>;

/// What debug formatting (`{:?}`) writes for a string.
pub uninterp spec fn debug_str(s: Seq<char>) -> Seq<char>;

/// Relies on std's `Debug` for `char`: the character between single quotes,
/// escaped where it needs it; a plain ASCII character needs no escape.
#[verifier::external_body]
pub(crate) fn char_debug(c: char) -> (r: String)
    ensures
        r@ == debug_char(c),
        is_plain_ascii(c) ==> r@ == seq!['\'', c, '\''],
{
    format!("{:?}", c)
}

/// Relies on std's `Debug` for `str`: the text between double quotes, each
/// character escaped where it needs it; plain ASCII characters need no
/// escape.
#[verifier::external_body]
pub(crate) fn str_debug(s: &str) -> (r: String)
    ensures
        r@ == debug_str(s@),
        (forall|i: int| 0 <= i < s@.len() ==> is_plain_ascii(#[trigger] s@[i])) ==> r@ == seq!['"']
            + s@ + seq!['"'],
{
    format!("{:?}", s)
}

impl ConsumeError {
    /// A message for people. An unexpected character is named as debug
    /// formatting writes it.
    pub fn to_string(&self) -> (r: String)
        ensures
            r@ == match *self {
                ConsumeError::UnexpectedCharacter { character } => "unexpected character "@
                    + debug_char(character) + " at index 0"@,
                ConsumeError::LeadingZero => "version number cannot start with a leading zero"@,
                ConsumeError::IntegerOverflow => "integer overflow"@,
            },
            match *self {
                ConsumeError::UnexpectedCharacter { character } => is_plain_ascii(character) ==> r@
                    == "unexpected character '"@ + seq![character] + "' at index 0"@,
                _ => true,
            },
    {
        match self {
            ConsumeError::UnexpectedCharacter { character } => {
                proof {
                    reveal_strlit("unexpected character ");
                    reveal_strlit(" at index 0");
                    reveal_strlit("unexpected character '");
                    reveal_strlit("' at index 0");
                }
                let r = String::from_str("unexpected character ").concat(
                    char_debug(*character).as_str(),
                ).concat(" at index 0");
                assert(is_plain_ascii(*character) ==> r@ =~= "unexpected character '"@ + seq![
                    *character,
                ] + "' at index 0"@);
                r
            },
            ConsumeError::LeadingZero => String::from_str(
                "version number cannot start with a leading zero",
            ),
            ConsumeError::IntegerOverflow => String::from_str("integer overflow"),
        }
    }
}

/// An ASCII lowercase letter.
pub open spec fn is_lower(c: char) -> bool {
    'a' <= c && c <= 'z'
}

/// The length of the longest prefix of `s` whose characters all satisfy `p`.
pub open spec fn run_len(s: Seq<char>, p: spec_fn(char) -> bool) -> nat
    decreases s.len(),
{
    if s.len() > 0 && p(s[0]) {
        1 + run_len(s.drop_first(), p)
    } else {
        0
    }
}

/// The length of the run of digits that `s` starts with.
pub open spec fn digit_run_len(s: Seq<char>) -> nat {
    run_len(s, |c: char| is_digit(c))
}

/// The length of the run of lowercase letters that `s` starts with.
pub open spec fn lower_run_len(s: Seq<char>) -> nat {
    run_len(s, |c: char| is_lower(c))
}

/// What consuming the digits at the front of `s` gives: the number and how
/// many characters it took (nothing at all where `s` starts with no digit),
/// or the error.
pub open spec fn scan_digits(s: Seq<char>) -> Result<(nat, nat), ConsumeError> {
    let k = digit_run_len(s);
    if k == 0 {
        Ok((0, 0))
    } else if s[0] == '0' {
        Err(ConsumeError::LeadingZero)
    } else if value_of(s.take(k as int)) > u64::MAX {
        Err(ConsumeError::IntegerOverflow)
    } else {
        Ok((value_of(s.take(k as int)), k))
    }
}

/// A run is exactly as long as the prefix that satisfies `p` and is followed
/// by the end or by a character that does not.
pub proof fn lemma_run_len(s: Seq<char>, p: spec_fn(char) -> bool, i: int)
    requires
        0 <= i <= s.len(),
        forall|j: int| 0 <= j < i ==> p(#[trigger] s[j]),
        i == s.len() || !p(s[i]),
    ensures
        run_len(s, p) == i,
    decreases i,
{
    if i > 0 {
        lemma_run_len(s.drop_first(), p, i - 1);
    }
}

/// A run is never longer than the string, and every character in it
/// satisfies `p`.
pub proof fn lemma_run_len_bounds(s: Seq<char>, p: spec_fn(char) -> bool)
    ensures
        run_len(s, p) <= s.len(),
        forall|j: int| 0 <= j < run_len(s, p) ==> p(#[trigger] s[j]),
        run_len(s, p) < s.len() ==> !p(s[run_len(s, p) as int]),
    decreases s.len(),
{
    if s.len() > 0 && p(s[0]) {
        lemma_run_len_bounds(s.drop_first(), p);
        assert forall|j: int| 0 <= j < run_len(s, p) implies p(#[trigger] s[j]) by {
            if j > 0 {
                assert(s[j] == s.drop_first()[j - 1]);
            }
        }
    }
}

/// The decimal text of a positive number, followed by anything that does not
/// start with a digit, scans to that number and stops where the text ends.
pub proof fn lemma_scan_decimal(n: nat, rest: Seq<char>)
    requires
        0 < n <= u64::MAX,
        rest.len() == 0 || !is_digit(rest[0]),
    ensures
        scan_digits(decimal(n) + rest) == Ok::<(nat, nat), ConsumeError>((n, decimal(n).len())),
        (decimal(n) + rest).skip(decimal(n).len() as int) == rest,
{
    let d = decimal(n);
    let s = d + rest;
    lemma_decimal_shape(n);
    lemma_value_of_decimal(n);
    assert forall|j: int| 0 <= j < d.len() implies is_digit(#[trigger] s[j]) by {
        assert(s[j] == d[j]);
    }
    lemma_run_len(s, |c: char| is_digit(c), d.len() as int);
    assert(s.take(d.len() as int) =~= d);
    assert(s.skip(d.len() as int) =~= rest);
}

fn is_digit_char(c: char) -> (r: bool)
    ensures
        r == is_digit(c),
{
    '0' <= c && c <= '9'
}

fn is_lower_char(c: char) -> (r: bool)
    ensures
        r == is_lower(c),
{
    'a' <= c && c <= 'z'
}

/// Consumes the longest run of ASCII digits at the front of `input` and reads
/// it as a number. Where `input` does not start with a digit, nothing is
/// consumed and the number is `0`.
pub fn consume_digits(input: &str) -> (r: Result<(u64, &str), ConsumeError>)
    ensures
        match scan_digits(input@) {
            Ok((v, k)) => r matches Ok((n, rest)) && n == v && rest@ == input@.skip(k as int),
            Err(e) => r == Err::<(u64, &str), ConsumeError>(e),
        },
{
    let ghost s = input@;
    let len = input.unicode_len();
    let mut i: usize = 0;
    let mut number: u64 = 0;
    loop
        invariant
            s == input@,
            len == s.len(),
            0 <= i <= len,
            forall|j: int| 0 <= j < i ==> is_digit(#[trigger] s[j]),
            number == value_of(s.take(i as int)),
            i > 0 ==> s[0] != '0',
        ensures
            0 <= i <= len,
            forall|j: int| 0 <= j < i ==> is_digit(#[trigger] s[j]),
            number == value_of(s.take(i as int)),
            i > 0 ==> s[0] != '0',
            i == len || !is_digit(s[i as int]),
        decreases len - i,
    {
        if i == len {
            break;
        }
        let c = input.get_char(i);
        if !is_digit_char(c) {
            break;
        }
        proof {
            lemma_run_len_bounds(s, |c: char| is_digit(c));
        }
        if i == 0 && c == '0' {
            proof {
                assert(digit_run_len(s) > 0);
            }
            return Err(ConsumeError::LeadingZero);
        }
        let d = (c as u32 - '0' as u32) as u64;
        let ghost next = s.take(i + 1);
        proof {
            assert(next.drop_last() =~= s.take(i as int));
            assert(value_of(next) == number * 10 + d);
        }
        let step = match number.checked_mul(10) {
            Some(m) => m.checked_add(d),
            None => None,
        };
        match step {
            Some(v) => {
                number = v;
            },
            None => {
                proof {
                    let k = digit_run_len(s);
                    assert(k >= i + 1) by {
                        if k < i + 1 {
                            assert(!is_digit(s[k as int]));
                        }
                    }
                    assert(s.take(k as int).take(i + 1) =~= next);
                    lemma_value_of_grows(s.take(k as int), i + 1);
                }
                return Err(ConsumeError::IntegerOverflow);
            },
        }
        i = i + 1;
    }
    proof {
        lemma_run_len(s, |c: char| is_digit(c), i as int);
        assert(s.skip(0) =~= s);
    }
    Ok((number, input.substring_char(i, len)))
}

/// Consumes the longest run of ASCII lowercase letters at the front of
/// `input`, which may be empty.
pub fn consume_chars(input: &str) -> (r: (String, &str))
    ensures
        r.0@ == input@.take(lower_run_len(input@) as int),
        r.1@ == input@.skip(lower_run_len(input@) as int),
{
    let ghost s = input@;
    let len = input.unicode_len();
    let mut i: usize = 0;
    loop
        invariant
            s == input@,
            len == s.len(),
            0 <= i <= len,
            forall|j: int| 0 <= j < i ==> is_lower(#[trigger] s[j]),
        ensures
            0 <= i <= len,
            forall|j: int| 0 <= j < i ==> is_lower(#[trigger] s[j]),
            i == len || !is_lower(s[i as int]),
        decreases len - i,
    {
        if i == len || !is_lower_char(input.get_char(i)) {
            break;
        }
        i = i + 1;
    }
    proof {
        lemma_run_len(s, |c: char| is_lower(c), i as int);
    }
    (input.substring_char(0, i).to_owned(), input.substring_char(i, len))
}

/// Consumes the `v` that a version starts with.
pub fn consume_start(input: &str) -> (r: Result<&str, ConsumeError>)
    requires
        input@.len() > 0,
    ensures
        input@[0] == 'v' ==> (r matches Ok(rest) && rest@ == input@.drop_first()),
        input@[0] != 'v' ==> r == Err::<&str, ConsumeError>(
            ConsumeError::UnexpectedCharacter { character: input@[0] },
        ),
{
    let first = input.get_char(0);
    if first == 'v' {
        let rest = input.substring_char(1, input.unicode_len());
        assert(rest@ =~= input@.drop_first());
        Ok(rest)
    } else {
        Err(ConsumeError::UnexpectedCharacter { character: first })
    }
}

} // verus!
