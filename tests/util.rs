use k8s_version::number::decimal_string;
use k8s_version::util::{consume_chars, consume_digits, consume_start, ConsumeError};

#[test]
fn digits_are_consumed() {
    assert_eq!(consume_digits("123beta"), Ok((123, "beta")));
    assert_eq!(consume_digits("9"), Ok((9, "")));
    assert_eq!(consume_digits("beta"), Ok((0, "beta")));
    assert_eq!(consume_digits(""), Ok((0, "")));
    assert_eq!(consume_digits("0"), Err(ConsumeError::LeadingZero));
    assert_eq!(consume_digits("0123"), Err(ConsumeError::LeadingZero));
    assert_eq!(consume_digits("18446744073709551615x"), Ok((u64::MAX, "x")));
    assert_eq!(consume_digits("99999999999999999999"), Err(ConsumeError::IntegerOverflow));
}

#[test]
fn letters_are_consumed() {
    assert_eq!(consume_chars("beta1"), ("beta".to_string(), "1"));
    assert_eq!(consume_chars("1beta"), (String::new(), "1beta"));
    assert_eq!(consume_chars("alpha"), ("alpha".to_string(), ""));
    assert_eq!(consume_chars("abC"), ("ab".to_string(), "C"));
}

#[test]
fn start_is_consumed() {
    assert_eq!(consume_start("v1"), Ok("1"));
    assert_eq!(consume_start("w1"), Err(ConsumeError::UnexpectedCharacter { character: 'w' }));
}

#[test]
fn numbers_are_written_in_decimal() {
    assert_eq!(decimal_string(0), "0");
    assert_eq!(decimal_string(7), "7");
    assert_eq!(decimal_string(10), "10");
    assert_eq!(decimal_string(18446744073709551615), "18446744073709551615");
}
