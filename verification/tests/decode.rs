//! End-to-end decoding of whole lines.

use traceline::parse;
use traceline::DecodeError;

#[test]
fn decode_composed_record() {
    let rec = parse("100 42 Animal:7:Dog bark 2:3:cat3:dog 1:4:loud").unwrap();
    assert_eq!(rec.id, 42);
    assert_eq!(rec.parent_id, Some(7));
    assert_eq!(rec.parent_class_name, Some("Animal"));
    assert_eq!(rec.class_name, "Dog");
    assert_eq!(rec.function_name, "bark");
    assert_eq!(rec.state_fields, vec!["cat", "dog"]);
    assert_eq!(rec.arg_fields, vec!["loud"]);
}

#[test]
fn decode_bare_record_empty_lists() {
    let rec = parse("5 1 Cat meow 0: 0:").unwrap();
    assert_eq!(rec.id, 1);
    assert_eq!(rec.parent_id, None);
    assert_eq!(rec.parent_class_name, None);
    assert_eq!(rec.class_name, "Cat");
    assert_eq!(rec.function_name, "meow");
    assert!(rec.state_fields.is_empty());
    assert!(rec.arg_fields.is_empty());
}

#[test]
fn truncated_field_fails() {
    let err = parse("5 1 Cat meow 1:10:short 0:").unwrap_err();
    assert_eq!(err, DecodeError::NotEnoughCharacters);
}

#[test]
fn leftover_text_fails() {
    let err = parse("5 1 Cat meow 0: 0: extra").unwrap_err();
    assert_eq!(err, DecodeError::BadLine);
}

#[test]
fn doubled_space_fails() {
    let err = parse("5  1 Cat meow 0: 0:").unwrap_err();
    assert_eq!(err, DecodeError::BadSeparator);
}

#[test]
fn wrong_separator_fails() {
    let err = parse("5_1 Cat meow 0: 0:").unwrap_err();
    assert_eq!(err, DecodeError::BadSeparator);
}

#[test]
fn missing_trailing_list_fails() {
    let err = parse("5 1 Cat meow 0:").unwrap_err();
    assert_eq!(err, DecodeError::BadSeparator);
}

#[test]
fn missing_leading_number_fails() {
    let err = parse("x 1 Cat meow 0: 0:").unwrap_err();
    assert_eq!(err, DecodeError::BadNumber);
}

#[test]
fn id_too_large_fails() {
    let err = parse("5 2147483648 Cat meow 0: 0:").unwrap_err();
    assert_eq!(err, DecodeError::BadNumber);
}

#[test]
fn id_at_limit_decodes() {
    let rec = parse("5 2147483647 Cat meow 0: 0:").unwrap();
    assert_eq!(rec.id, 2147483647);
}

#[test]
fn leading_number_overflow_fails() {
    let err = parse("18446744073709551616 1 Cat meow 0: 0:").unwrap_err();
    assert_eq!(err, DecodeError::BadNumber);
}

#[test]
fn negative_id_fails() {
    let err = parse("5 -1 Cat meow 0: 0:").unwrap_err();
    assert_eq!(err, DecodeError::BadNumber);
}

#[test]
fn empty_field_decodes() {
    let rec = parse("5 1 Cat meow 1:0: 0:").unwrap();
    assert_eq!(rec.state_fields, vec![""]);
    assert!(rec.arg_fields.is_empty());
}

#[test]
fn field_with_embedded_separators_decodes() {
    let rec = parse("5 1 Cat meow 1:5:a b:c 0:").unwrap();
    assert_eq!(rec.state_fields, vec!["a b:c"]);
}

#[test]
fn multibyte_characters_counted_as_one() {
    let rec = parse("5 1 Caté bark 1:2:éé 0:").unwrap();
    assert_eq!(rec.class_name, "Caté");
    assert_eq!(rec.state_fields, vec!["éé"]);
}

#[test]
fn composed_class_with_bad_parent_id_fails() {
    let err = parse("5 1 Animal:x:Dog bark 0: 0:").unwrap_err();
    assert_eq!(err, DecodeError::BadNumber);
}

#[test]
fn composed_class_with_doubled_colon_fails() {
    let err = parse("5 1 Animal::Dog bark 0: 0:").unwrap_err();
    assert_eq!(err, DecodeError::BadSeparator);
}
