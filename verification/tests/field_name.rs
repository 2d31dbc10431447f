use axum_typed_multipart::field_name::parse_raw;
use axum_typed_multipart::field_name::ParseError;
use axum_typed_multipart::field_name::ParseError::{
    Empty, EmptySegment, MissingSeparator, UnclosedBracket, UnexpectedClosingBracket,
};
use axum_typed_multipart::field_name::Segment;
use axum_typed_multipart::field_name::Segment::{Append, Key};

/// Asserts that `parse_raw` succeeds with the expected segments.
fn ok(input: &str, expected: &[Segment<'_>]) {
    assert_eq!(parse_raw(input).unwrap(), expected, "input: {input:?}");
}

/// Asserts that `parse_raw` fails with the expected error.
fn err(input: &str, expected: ParseError) {
    assert_eq!(parse_raw(input).unwrap_err(), expected, "input: {input:?}");
}

#[test]
fn single_segment() {
    ok("name", &[Key("name")]);
    ok("0", &[Key("0")]);
}

#[test]
fn bracket_notation() {
    ok("user[address]", &[Key("user"), Key("address")]);
    ok("user[address][street]", &[Key("user"), Key("address"), Key("street")]);
    ok("items[0]", &[Key("items"), Key("0")]);
}

#[test]
fn dot_notation() {
    ok("user.address", &[Key("user"), Key("address")]);
    ok("user.address.street", &[Key("user"), Key("address"), Key("street")]);
}

#[test]
fn mixed_notation() {
    ok("user[address].street", &[Key("user"), Key("address"), Key("street")]);
    ok("user.address[street]", &[Key("user"), Key("address"), Key("street")]);
    ok("items[0].name", &[Key("items"), Key("0"), Key("name")]);
    ok("pets.0[name]", &[Key("pets"), Key("0"), Key("name")]);
}

#[test]
fn notations_are_interchangeable() {
    let expected = &[Key("user"), Key("address"), Key("street")];
    ok("user[address][street]", expected);
    ok("user.address.street", expected);
    ok("user[address].street", expected);
    ok("user.address[street]", expected);
}

#[test]
fn append_at_end() {
    ok("items[]", &[Key("items"), Append]);
    ok("user[pets][]", &[Key("user"), Key("pets"), Append]);
    ok("user.pets[]", &[Key("user"), Key("pets"), Append]);
}

#[test]
fn append_not_at_end() {
    err("items[][name]", EmptySegment { position: 6 });
    err("items[].name", EmptySegment { position: 6 });
}

#[test]
fn empty_input() {
    err("", Empty);
}

#[test]
fn empty_segments() {
    err(".name", EmptySegment { position: 0 });
    err("user.", EmptySegment { position: 5 });
    err("user..name", EmptySegment { position: 5 });
    err("[name]", EmptySegment { position: 0 });
}

#[test]
fn unclosed_bracket() {
    err("user[address", UnclosedBracket { position: 4 });
}

#[test]
fn unexpected_closing_bracket() {
    err("user]", UnexpectedClosingBracket { position: 4 });
}

#[test]
fn missing_separator_after_bracket() {
    err("user[addr]street", MissingSeparator { position: 10 });
}

#[test]
fn deeply_nested() {
    ok("a[b][c][d].e.f", &[Key("a"), Key("b"), Key("c"), Key("d"), Key("e"), Key("f")]);
}

#[test]
fn keys_with_special_characters() {
    ok("my-field", &[Key("my-field")]);
    ok("my_field", &[Key("my_field")]);
    ok("field[with-dash]", &[Key("field"), Key("with-dash")]);
    ok("field[with_underscore]", &[Key("field"), Key("with_underscore")]);
    ok("field[with space]", &[Key("field"), Key("with space")]);
}

#[test]
fn nested_open_bracket() {
    err("user[addr[inner]]", UnclosedBracket { position: 4 });
}

#[test]
fn closing_bracket_inside_bare() {
    err("user]name", UnexpectedClosingBracket { position: 4 });
}

#[test]
fn closing_bracket_after_dot() {
    err("user.]name", EmptySegment { position: 5 });
}

#[test]
fn unclosed_bracket_at_end() {
    err("user[", UnclosedBracket { position: 4 });
}

#[test]
fn only_brackets() {
    err("[]", EmptySegment { position: 0 });
}

#[test]
fn dot_after_closed_bracket_no_key() {
    err("user[addr].", EmptySegment { position: 11 });
}

#[test]
fn bare_name_then_append() {
    ok("x[]", &[Key("x"), Append]);
}

#[test]
fn double_append() {
    err("items[][]", EmptySegment { position: 6 });
}

#[test]
fn single_char_segments() {
    ok("a.b.c", &[Key("a"), Key("b"), Key("c")]);
    ok("a[b][c]", &[Key("a"), Key("b"), Key("c")]);
}
