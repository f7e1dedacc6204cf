//! The cursor primitives, the number scanner, the list decoder and the
//! class-name decoder, each exercised on its own.

use traceline::parse_class_name;
use traceline::parse_number;
use traceline::parse_state;
use traceline::pop_separator;
use traceline::take_n_characters;
use traceline::take_until;
use traceline::take_until_whitespace;
use traceline::DecodeError;

#[test]
fn take_until_whitespace_splits_at_first_space() {
    let (head, rest) = take_until_whitespace("foo bar").unwrap();
    assert_eq!(head, "foo");
    assert_eq!(rest, " bar");
}

#[test]
fn take_until_whitespace_accepts_empty_head() {
    let (head, rest) = take_until_whitespace(" x").unwrap();
    assert_eq!(head, "");
    assert_eq!(rest, " x");
}

#[test]
fn take_until_whitespace_consumes_all_without_whitespace() {
    let (head, rest) = take_until_whitespace("abc").unwrap();
    assert_eq!(head, "abc");
    assert_eq!(rest, "");
}

#[test]
fn take_until_splits_at_character() {
    let (head, rest) = take_until("ab:cd", ':').unwrap();
    assert_eq!(head, "ab");
    assert_eq!(rest, ":cd");
}

#[test]
fn take_n_characters_takes_exactly_n() {
    let (head, rest) = take_n_characters("hello", 3).unwrap();
    assert_eq!(head, "hel");
    assert_eq!(rest, "lo");
}

#[test]
fn take_n_characters_fails_when_short() {
    let err = take_n_characters("hi", 3).unwrap_err();
    assert_eq!(err, DecodeError::NotEnoughCharacters);
}

#[test]
fn take_n_characters_counts_code_points() {
    let (head, rest) = take_n_characters("ééx", 2).unwrap();
    assert_eq!(head, "éé");
    assert_eq!(rest, "x");
}

#[test]
fn pop_separator_consumes_exactly_one() {
    let rest = pop_separator(":a", ':').unwrap();
    assert_eq!(rest, "a");
}

#[test]
fn pop_separator_rejects_doubled() {
    let err = pop_separator("::a", ':').unwrap_err();
    assert_eq!(err, DecodeError::BadSeparator);
}

#[test]
fn pop_separator_rejects_empty() {
    let err = pop_separator("", ':').unwrap_err();
    assert_eq!(err, DecodeError::BadSeparator);
}

#[test]
fn pop_separator_rejects_wrong_character() {
    let err = pop_separator("a:", ':').unwrap_err();
    assert_eq!(err, DecodeError::BadSeparator);
}

#[test]
fn parse_number_takes_maximal_digit_run() {
    let (value, rest) = parse_number("123abc").unwrap();
    assert_eq!(value, 123);
    assert_eq!(rest, "abc");
}

#[test]
fn parse_number_rejects_empty_run() {
    let err = parse_number("abc").unwrap_err();
    assert_eq!(err, DecodeError::BadNumber);
}

#[test]
fn parse_number_rejects_leading_minus() {
    let err = parse_number("-5").unwrap_err();
    assert_eq!(err, DecodeError::BadNumber);
}

#[test]
fn parse_number_accepts_maximum() {
    let (value, rest) = parse_number("18446744073709551615x").unwrap();
    assert_eq!(value, u64::MAX);
    assert_eq!(rest, "x");
}

#[test]
fn parse_number_rejects_overflow() {
    let err = parse_number("18446744073709551616").unwrap_err();
    assert_eq!(err, DecodeError::BadNumber);
}

#[test]
fn parse_state_decodes_two_fields() {
    let (fields, rest) = parse_state("2:3:cat3:dog rest").unwrap();
    assert_eq!(fields, vec!["cat", "dog"]);
    assert_eq!(rest, " rest");
}

#[test]
fn parse_state_zero_count_consumes_only_prefix() {
    let (fields, rest) = parse_state("0:rest").unwrap();
    assert!(fields.is_empty());
    assert_eq!(rest, "rest");
}

#[test]
fn parse_state_rejects_separator_between_fields() {
    // The next length prefix begins immediately after the previous field's
    // content; a stray `:` between repetitions leaves an empty digit run.
    let err = parse_state("2:3:cat:3:dog").unwrap_err();
    assert_eq!(err, DecodeError::BadNumber);
}

#[test]
fn parse_state_truncated_field_fails() {
    let err = parse_state("1:10:short").unwrap_err();
    assert_eq!(err, DecodeError::NotEnoughCharacters);
}

#[test]
fn parse_state_missing_second_field_fails() {
    let err = parse_state("2:3:cat").unwrap_err();
    assert_eq!(err, DecodeError::BadNumber);
}

#[test]
fn parse_class_name_bare_has_no_parent() {
    let (info, rest) = parse_class_name("Cat rest").unwrap();
    assert_eq!(info.class_name, "Cat");
    assert_eq!(info.parent_id, None);
    assert_eq!(info.parent_class_name, None);
    assert_eq!(rest, " rest");
}

#[test]
fn parse_class_name_composed_has_both() {
    let (info, rest) = parse_class_name("Animal:7:Dog rest").unwrap();
    assert_eq!(info.class_name, "Dog");
    assert_eq!(info.parent_id, Some(7));
    assert_eq!(info.parent_class_name, Some("Animal"));
    assert_eq!(rest, " rest");
}

#[test]
fn parse_class_name_composed_keeps_later_colons_in_class() {
    let (info, _) = parse_class_name("Animal:7:D:og rest").unwrap();
    assert_eq!(info.class_name, "D:og");
    assert_eq!(info.parent_id, Some(7));
    assert_eq!(info.parent_class_name, Some("Animal"));
}

#[test]
fn parse_class_name_accepts_empty_parent_name() {
    let (info, _) = parse_class_name(":7:Dog rest").unwrap();
    assert_eq!(info.class_name, "Dog");
    assert_eq!(info.parent_id, Some(7));
    assert_eq!(info.parent_class_name, Some(""));
}

#[test]
fn parse_class_name_bare_may_start_with_digits() {
    let (info, _) = parse_class_name("9Cat rest").unwrap();
    assert_eq!(info.class_name, "9Cat");
    assert_eq!(info.parent_id, None);
}

#[test]
fn parse_class_name_bad_parent_id_fails() {
    let err = parse_class_name("Animal:x:Dog rest").unwrap_err();
    assert_eq!(err, DecodeError::BadNumber);
}

#[test]
fn parse_class_name_doubled_colon_fails() {
    let err = parse_class_name("Animal::Dog rest").unwrap_err();
    assert_eq!(err, DecodeError::BadSeparator);
}
