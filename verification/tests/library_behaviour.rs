use axum_typed_multipart::external_address::{
    address_part, member_path_string, AddressPart, ExternalAddress, ExternalAddressBuilder,
};
use axum_typed_multipart::field_builder::{DefaultBuilder, FieldBuilder, RequiredBuilder};
use axum_typed_multipart::field_data::get_field_name;
use axum_typed_multipart::field_name::{parse, parse_raw, ParseError, Segment};
use axum_typed_multipart::multipart_builder::{
    element_path_string, ensure_inner, locate, LeafBuilder, MultipartBuilder,
};
use axum_typed_multipart::parse_index::{parse_vec_index, IndexFormatError, VecIndex};
use axum_typed_multipart::text::decimal_string;
use axum_typed_multipart::try_from_chunks::{
    append_chunk, bool_from_text, char_from_text, i128_from_text, i16_from_text, i32_from_text,
    i64_from_text, i8_from_text, into_field_value, isize_from_text, string_from_bytes,
    u128_from_text, u16_from_text, u32_from_text, u64_from_text, u8_from_text, usize_from_text,
    IntFault,
};
use axum_typed_multipart::typed_multipart_error::TypedMultipartError;
use axum_typed_multipart::util::{str_to_bool, truth_of_lowercase, SizeLimiter};

fn name(n: &str) -> Option<String> {
    Some(n.to_string())
}

fn wrong_type_parts<T: std::fmt::Debug>(r: Result<T, TypedMultipartError>) -> (String, String, String) {
    match r {
        Err(TypedMultipartError::WrongFieldType { field_name, wanted_type, source }) => {
            (field_name, wanted_type, source)
        }
        other => panic!("expected a wrong field type, got {other:?}"),
    }
}

// ── Field names ─────────────────────────────────────────────────────

#[test]
fn parse_reports_the_name_with_the_reason() {
    match parse("user..name") {
        Err(TypedMultipartError::InvalidFieldName { field_name, source }) => {
            assert_eq!(field_name, "user..name");
            assert_eq!(source, ParseError::EmptySegment { position: 5 });
        }
        other => panic!("unexpected {other:?}"),
    }
    assert_eq!(parse("a[b]").unwrap(), vec![Segment::Key("a"), Segment::Key("b")]);
}

#[test]
fn parse_error_messages() {
    assert_eq!(ParseError::Empty.message(), "field name is empty");
    assert_eq!(ParseError::EmptySegment { position: 5 }.message(), "empty segment at position 5");
    assert_eq!(
        ParseError::UnclosedBracket { position: 4 }.message(),
        "unclosed bracket at position 4"
    );
    assert_eq!(
        ParseError::UnexpectedClosingBracket { position: 12 }.message(),
        "unexpected closing bracket at position 12"
    );
    assert_eq!(
        ParseError::MissingSeparator { position: 10 }.message(),
        "missing separator at position 10"
    );
}

#[test]
fn rendered_names_parse_back_to_their_segments() {
    // A name rendered in any mix of dot and bracket notation reads back the same.
    for input in ["a.b[c]", "a[b].c", "a.b.c", "a[b][c]"] {
        assert_eq!(
            parse_raw(input).unwrap(),
            vec![Segment::Key("a"), Segment::Key("b"), Segment::Key("c")]
        );
    }
    assert_eq!(
        parse_raw("a.b[]").unwrap(),
        vec![Segment::Key("a"), Segment::Key("b"), Segment::Append]
    );
}

#[test]
fn append_is_accepted_only_last() {
    for name in ["a", "a.b", "a[b]", "x[0].y"] {
        let mut segs = parse_raw(name).unwrap();
        segs.push(Segment::Append);
        let appended = format!("{name}[]");
        assert_eq!(parse_raw(&appended).unwrap(), segs);
        for tail in ["x", ".y", "[z]", "[]", "]"] {
            assert!(parse_raw(&format!("{appended}{tail}")).is_err(), "{appended}{tail}");
        }
    }
}

#[test]
fn optional_nested_builder_created_but_unused() {
    // Creating the inner builder consumes nothing, and from then on the
    // value is finalized by it, as the original does.
    let mut b: Option<LeafBuilder<u8>> = None;
    ensure_inner(&mut b);
    assert!(!b.was_consumed());
    match MultipartBuilder::finalize(b, "opt") {
        Err(TypedMultipartError::MissingField { field_name }) => assert_eq!(field_name, "opt"),
        other => panic!("unexpected {other:?}"),
    }
}

#[test]
fn multibyte_keys_are_kept_whole() {
    assert_eq!(parse_raw("größe[straße]").unwrap(), vec![Segment::Key("größe"), Segment::Key("straße")]);
}

// ── List indices ────────────────────────────────────────────────────

#[test]
fn index_errors_and_their_messages() {
    assert_eq!(
        parse_vec_index("name").unwrap_err(),
        IndexFormatError::UnexpectedSuffix { suffix: "name".to_string() }
    );
    assert_eq!(
        parse_vec_index("name").unwrap_err().message(),
        "expected '[index]', '[]', or '.' but found 'name'"
    );
    assert_eq!(parse_vec_index("[0").unwrap_err(), IndexFormatError::MissingClosingBracket);
    assert_eq!(
        parse_vec_index("[+3]").unwrap(),
        (VecIndex::Explicit(3), "")
    );
    assert_eq!(
        parse_vec_index("[99999999999999999999999]").unwrap_err(),
        IndexFormatError::InvalidIndex { text: "99999999999999999999999".to_string() }
    );
}

#[test]
fn element_paths_read_back_as_their_index() {
    for i in [0usize, 7, 12, 305] {
        let path = element_path_string("", i) + ".name";
        assert_eq!(parse_vec_index(&path).unwrap(), (VecIndex::Explicit(i), ".name"));
    }
}

#[test]
fn locate_appends_and_reuses_elements_in_order() {
    let mut builders: Vec<(usize, LeafBuilder<i32>)> = Vec::new();
    let (i, rest) = locate(&mut builders, "[0]", "items[0]").unwrap();
    assert_eq!((i, rest), (0, ""));
    assert_eq!(builders.len(), 1);
    builders[0].1.store(5);
    let (i, rest) = locate(&mut builders, "[0]", "items[0]").unwrap();
    assert_eq!((i, rest), (0, ""));
    assert_eq!(builders.len(), 1);
    let (i, _) = locate(&mut builders, "[]", "items[]").unwrap();
    assert_eq!(i, 1);
    assert_eq!(builders[1].0, 1);
    assert_eq!(builders.len(), 2);
    match locate(&mut builders, "[x]", "items[x]") {
        Err(TypedMultipartError::InvalidIndexFormat { field_name, source }) => {
            assert_eq!(field_name, "items[x]");
            assert_eq!(source, IndexFormatError::InvalidIndex { text: "x".to_string() });
        }
        other => panic!("unexpected {other:?}"),
    }
    assert_eq!(builders.len(), 2);
}

#[test]
fn sparse_and_out_of_order_indices_are_accepted() {
    let mut builders: Vec<(usize, LeafBuilder<i32>)> = Vec::new();
    let (i, rest) = locate(&mut builders, "[5].name", "items[5].name").unwrap();
    assert_eq!((i, rest), (0, ".name"));
    builders[i].1.store(50);
    let (i, _) = locate(&mut builders, "[0]", "items[0]").unwrap();
    assert_eq!(i, 0);
    builders[i].1.store(0);
    let (i, _) = locate(&mut builders, "[2]", "items[2]").unwrap();
    assert_eq!(i, 1);
    builders[i].1.store(20);
    let (i, _) = locate(&mut builders, "[5]", "items[5]").unwrap();
    assert_eq!(i, 2);
    builders[i].1.store(55);
    let (i, _) = locate(&mut builders, "[]", "items[]").unwrap();
    assert_eq!(i, 3);
    assert_eq!(builders[i].0, 6);
    builders[i].1.store(60);
    let indices: Vec<usize> = builders.iter().map(|(k, _)| *k).collect();
    assert_eq!(indices, vec![0, 2, 5, 6]);
    assert_eq!(builders.finalize("items").unwrap(), vec![0, 20, 55, 60]);
}

#[test]
fn append_after_the_largest_index_is_rejected() {
    let mut builders: Vec<(usize, LeafBuilder<i32>)> = Vec::new();
    let max = format!("[{}]", usize::MAX);
    locate(&mut builders, &max, "items").unwrap();
    match locate(&mut builders, "[]", "items[]") {
        Err(TypedMultipartError::InvalidIndex { field_name, expected }) => {
            assert_eq!(field_name, "items[]");
            assert_eq!(expected, usize::MAX);
        }
        other => panic!("unexpected {other:?}"),
    }
    assert_eq!(builders.len(), 1);
}

#[test]
fn nested_list_reports_the_first_missing_element_path() {
    let mut builders: Vec<(usize, LeafBuilder<i32>)> = MultipartBuilder::empty();
    locate(&mut builders, "[0]", "n[0]").unwrap();
    locate(&mut builders, "[3]", "n[3]").unwrap();
    builders[0].1.store(1);
    assert!(builders.was_consumed());
    match builders.finalize("n") {
        Err(TypedMultipartError::MissingField { field_name }) => assert_eq!(field_name, "n[3]"),
        other => panic!("unexpected {other:?}"),
    }
    let mut full: Vec<(usize, LeafBuilder<i32>)> = Vec::new();
    locate(&mut full, "[0]", "n[0]").unwrap();
    full[0].1.store(4);
    locate(&mut full, "[1]", "n[1]").unwrap();
    full[1].1.store(9);
    assert_eq!(full.finalize("n").unwrap(), vec![4, 9]);
}

#[test]
fn optional_nested_builder() {
    let mut b: Option<LeafBuilder<u8>> = None;
    assert!(!b.was_consumed());
    assert_eq!(MultipartBuilder::finalize(b.take(), "x").unwrap(), None);
    ensure_inner(&mut b);
    assert!(!b.was_consumed());
    b.as_mut().unwrap().store(3);
    assert!(b.was_consumed());
    ensure_inner(&mut b);
    assert_eq!(MultipartBuilder::finalize(b, "x").unwrap(), Some(3));
}

#[test]
fn leaf_builder_takes_only_exact_names() {
    assert!(LeafBuilder::<u8>::accepts(""));
    assert!(!LeafBuilder::<u8>::accepts(".x"));
    let mut leaf: LeafBuilder<u8> = LeafBuilder(None);
    leaf.store(1);
    leaf.store(2);
    assert_eq!(MultipartBuilder::finalize(leaf, "v").unwrap(), 2);
    let empty: LeafBuilder<u8> = LeafBuilder(None);
    match MultipartBuilder::finalize(empty, "v") {
        Err(TypedMultipartError::MissingField { field_name }) => assert_eq!(field_name, "v"),
        other => panic!("unexpected {other:?}"),
    }
}

#[test]
fn element_paths() {
    assert_eq!(element_path_string("users", 0), "users[0]");
    assert_eq!(element_path_string("a.b", 12), "a.b[12]");
    assert_eq!(decimal_string(0), "0");
    assert_eq!(decimal_string(1234567), "1234567");
}

// ── Field builders ──────────────────────────────────────────────────

#[test]
fn required_builder_keeps_the_last_occurrence() {
    let mut b: RequiredBuilder<i32> = RequiredBuilder::empty();
    assert!(!b.has_value());
    assert!(!b.allows_multiple());
    b.push_value(1);
    b.push_value(2);
    assert!(b.has_value());
    assert_eq!(b.finalize("f").unwrap(), 2);
}

#[test]
fn required_builder_reports_a_missing_field() {
    let b: RequiredBuilder<i32> = RequiredBuilder::empty();
    match b.finalize("age") {
        Err(e) => {
            assert_eq!(e.message(), "field 'age' is required");
            assert_eq!(e.get_status(), 400);
        }
        Ok(v) => panic!("unexpected {v}"),
    }
}

#[test]
fn default_builder_falls_back_to_the_default() {
    let b: DefaultBuilder<String> = DefaultBuilder::empty();
    assert_eq!(b.finalize("s").unwrap(), "");
    let mut b: DefaultBuilder<u32> = DefaultBuilder::empty();
    b.push_value(8);
    b.push_value(9);
    assert_eq!(b.finalize("n").unwrap(), 9);
}

#[test]
fn optional_and_list_builders() {
    let b: Option<RequiredBuilder<u8>> = FieldBuilder::empty();
    assert_eq!(b.finalize("o").unwrap(), None);
    let mut b: Option<RequiredBuilder<u8>> = FieldBuilder::empty();
    b.push_value(4);
    assert_eq!(b.finalize("o").unwrap(), Some(4));

    let list: Vec<RequiredBuilder<u8>> = FieldBuilder::empty();
    assert_eq!(list.finalize("l").unwrap(), Vec::<u8>::new());
    let mut list: Vec<RequiredBuilder<u8>> = FieldBuilder::empty();
    assert!(list.allows_multiple());
    for v in [3, 1, 2] {
        list.push_value(v);
    }
    assert_eq!(list.finalize("l").unwrap(), vec![3, 1, 2]);
}

#[test]
fn builders_match_only_their_single_key() {
    let segs = parse_raw("name").unwrap();
    assert!(RequiredBuilder::<u8>::matches(&segs, "name"));
    assert!(!RequiredBuilder::<u8>::matches(&segs, "other"));
    let nested = parse_raw("name.inner").unwrap();
    assert!(!RequiredBuilder::<u8>::matches(&nested, "name"));
    let appended = parse_raw("name[]").unwrap();
    assert!(!Vec::<RequiredBuilder<u8>>::matches(&appended, "name"));
}

// ── The address of an outside crate's shape ─────────────────────────

#[test]
fn external_address_is_built_from_its_fields() {
    assert_eq!(address_part("street"), Some(AddressPart::Street));
    assert_eq!(address_part(".city"), Some(AddressPart::City));
    assert_eq!(address_part("[street]"), Some(AddressPart::Street));
    assert_eq!(address_part("[city]"), Some(AddressPart::City));
    assert_eq!(address_part("zip"), None);
    assert_eq!(address_part("[city"), None);
    let mut b: ExternalAddressBuilder = MultipartBuilder::empty();
    assert!(!b.was_consumed());
    assert!(b.consume_text(".street", "Main St".to_string()));
    assert!(!b.consume_text(".zip", "123".to_string()));
    match b.finalize("owner") {
        Err(TypedMultipartError::MissingField { field_name }) => assert_eq!(field_name, "owner.city"),
        other => panic!("unexpected {other:?}"),
    }
    let mut b: ExternalAddressBuilder = MultipartBuilder::empty();
    assert!(b.consume_text("street", "First".to_string()));
    assert!(b.consume_text("city", "Town".to_string()));
    assert!(b.consume_text("street", "Second".to_string()));
    assert_eq!(
        b.finalize("").unwrap(),
        ExternalAddress { street: "Second".to_string(), city: "Town".to_string() }
    );
    assert_eq!(member_path_string("", "city"), "city");
    assert_eq!(member_path_string("a", "city"), "a.city");
}

// ── Errors ──────────────────────────────────────────────────────────

#[test]
fn error_statuses() {
    let cases: Vec<(TypedMultipartError, u16)> = vec![
        (TypedMultipartError::MissingField { field_name: "a".into() }, 400),
        (
            TypedMultipartError::WrongFieldType {
                field_name: "a".into(),
                wanted_type: "i8".into(),
                source: "x".into(),
            },
            400,
        ),
        (TypedMultipartError::DuplicateField { field_name: "a".into() }, 400),
        (TypedMultipartError::UnknownField { field_name: "a".into() }, 400),
        (TypedMultipartError::NamelessField, 400),
        (TypedMultipartError::FieldTooLarge { field_name: "a".into(), limit_bytes: 3 }, 413),
        (TypedMultipartError::InvalidRequest { status: 415, body_text: "b".into() }, 415),
        (TypedMultipartError::InvalidRequestBody { status: 400, body_text: "b".into() }, 400),
        (TypedMultipartError::Other { message: "m".into() }, 500),
        (
            TypedMultipartError::InvalidFieldName {
                field_name: "a]".into(),
                source: ParseError::UnexpectedClosingBracket { position: 1 },
            },
            400,
        ),
        (
            TypedMultipartError::InvalidIndexFormat {
                field_name: "a[".into(),
                source: IndexFormatError::MissingClosingBracket,
            },
            400,
        ),
        (TypedMultipartError::InvalidIndex { field_name: "a[3]".into(), expected: 1 }, 400),
    ];
    for (e, status) in cases {
        assert_eq!(e.get_status(), status, "{e:?}");
    }
}

#[test]
fn error_messages() {
    assert_eq!(
        TypedMultipartError::InvalidRequest { status: 400, body_text: "no boundary".into() }
            .message(),
        "request is malformed (no boundary)"
    );
    assert_eq!(
        TypedMultipartError::InvalidRequestBody { status: 400, body_text: "bad".into() }
            .message(),
        "request body is malformed (bad)"
    );
    assert_eq!(
        TypedMultipartError::WrongFieldType {
            field_name: "age".into(),
            wanted_type: "u8".into(),
            source: "invalid digit found in string".into(),
        }
        .message(),
        "field 'age' must be of type 'u8': invalid digit found in string"
    );
    assert_eq!(
        TypedMultipartError::DuplicateField { field_name: "a".into() }.message(),
        "field 'a' is already present"
    );
    assert_eq!(
        TypedMultipartError::UnknownField { field_name: "a".into() }.message(),
        "field 'a' is not expected"
    );
    assert_eq!(TypedMultipartError::NamelessField.message(), "field name is empty");
    assert_eq!(
        TypedMultipartError::FieldTooLarge { field_name: "f".into(), limit_bytes: 512 }.message(),
        "field 'f' is larger than 512 bytes"
    );
    assert_eq!(
        TypedMultipartError::InvalidFieldName {
            field_name: "a]".into(),
            source: ParseError::UnexpectedClosingBracket { position: 1 },
        }
        .message(),
        "field name 'a]' is invalid: unexpected closing bracket at position 1"
    );
    assert_eq!(
        TypedMultipartError::InvalidIndexFormat {
            field_name: "a[".into(),
            source: IndexFormatError::MissingClosingBracket,
        }
        .message(),
        "field 'a[' has an invalid index: missing closing bracket"
    );
    assert_eq!(
        TypedMultipartError::InvalidIndex { field_name: "a[3]".into(), expected: 1 }.message(),
        "field 'a[3]' has an index out of order, expected 1"
    );
    assert_eq!(TypedMultipartError::Other { message: "boom".into() }.message(), "boom");
}

#[test]
fn field_names_in_errors() {
    assert_eq!(get_field_name(&name("x")), "x");
    assert_eq!(get_field_name(&None), "<unknown>");
}

// ── Truth values and size limits ────────────────────────────────────

#[test]
fn truth_literals() {
    for t in ["y", "yes", "t", "true", "on", "1", "YES", "True", "On"] {
        assert_eq!(str_to_bool(t), Some(true), "{t}");
    }
    for f in ["n", "no", "f", "false", "off", "0", "NO", "False", "OFF"] {
        assert_eq!(str_to_bool(f), Some(false), "{f}");
    }
    for other in ["", "2", "yess", "enabled", " true"] {
        assert_eq!(str_to_bool(other), None, "{other}");
    }
    assert_eq!(truth_of_lowercase("TRUE"), None);
}

#[test]
fn size_limit_rejects_the_chunk_that_crosses_it() {
    let mut limiter = SizeLimiter::new(Some(5), "field".to_string());
    assert!(limiter.check_chunk(3).is_ok());
    assert!(limiter.check_chunk(2).is_ok());
    match limiter.check_chunk(1) {
        Err(TypedMultipartError::FieldTooLarge { field_name, limit_bytes }) => {
            assert_eq!(field_name, "field");
            assert_eq!(limit_bytes, 5);
        }
        other => panic!("unexpected {other:?}"),
    }
    match limiter.check_chunk(1) {
        Err(TypedMultipartError::FieldTooLarge { field_name, .. }) => assert_eq!(field_name, ""),
        other => panic!("unexpected {other:?}"),
    }
    let mut unlimited = SizeLimiter::new(None, "u".to_string());
    assert!(unlimited.check_chunk(1 << 20).is_ok());
}

// ── Values read from a field ────────────────────────────────────────

#[test]
fn chunks_are_appended_in_order() {
    let mut bytes = Vec::new();
    append_chunk(&mut bytes, b"as");
    append_chunk(&mut bytes, b"");
    append_chunk(&mut bytes, b"d");
    assert_eq!(bytes, b"asd");
}

#[test]
fn text_must_be_utf8() {
    assert_eq!(string_from_bytes(&name("test"), b"asd".to_vec()).unwrap(), "asd");
    let (field, wanted, source) = wrong_type_parts(string_from_bytes(&name("test"), vec![0x80]));
    assert_eq!(field, "test");
    assert_eq!(wanted, "alloc::string::String");
    assert_eq!(source, "invalid utf-8 sequence of 1 bytes from index 0");
}

#[test]
fn integers_in_range() {
    let n = name("test");
    assert_eq!(i8_from_text(&n, "-42").unwrap(), -42);
    assert_eq!(i8_from_text(&n, "-128").unwrap(), i8::MIN);
    assert_eq!(i8_from_text(&n, "+127").unwrap(), 127);
    assert_eq!(i16_from_text(&n, "-42").unwrap(), -42);
    assert_eq!(i32_from_text(&n, "-42").unwrap(), -42);
    assert_eq!(i64_from_text(&n, "-42").unwrap(), -42);
    assert_eq!(i128_from_text(&n, "-42").unwrap(), -42);
    assert_eq!(
        i128_from_text(&n, "-170141183460469231731687303715884105728").unwrap(),
        i128::MIN
    );
    assert_eq!(isize_from_text(&n, "-42").unwrap(), -42);
    assert_eq!(u8_from_text(&n, "42").unwrap(), 42);
    assert_eq!(u8_from_text(&n, "255").unwrap(), 255);
    assert_eq!(u16_from_text(&n, "42").unwrap(), 42);
    assert_eq!(u32_from_text(&n, "42").unwrap(), 42);
    assert_eq!(u64_from_text(&n, "0042").unwrap(), 42);
    assert_eq!(u128_from_text(&n, "340282366920938463463374607431768211455").unwrap(), u128::MAX);
    assert_eq!(usize_from_text(&n, "42").unwrap(), 42);
}

#[test]
fn integers_out_of_range_or_malformed() {
    let n = name("test");
    let (field, wanted, source) = wrong_type_parts(i8_from_text(&n, "invalid"));
    assert_eq!((field.as_str(), wanted.as_str()), ("test", "i8"));
    assert_eq!(source, "invalid digit found in string");
    assert_eq!(wrong_type_parts(i8_from_text(&n, "128")).2, "number too large to fit in target type");
    assert_eq!(wrong_type_parts(i8_from_text(&n, "-129")).2, "number too small to fit in target type");
    assert_eq!(wrong_type_parts(u8_from_text(&n, "")).2, "cannot parse integer from empty string");
    assert_eq!(wrong_type_parts(u8_from_text(&n, "-1")).2, "invalid digit found in string");
    assert_eq!(wrong_type_parts(u8_from_text(&n, "+")).2, "invalid digit found in string");
    assert_eq!(wrong_type_parts(u16_from_text(&n, "65536")).2, "number too large to fit in target type");
    assert_eq!(wrong_type_parts(u32_from_text(&n, "invalid")).1, "u32");
    assert_eq!(wrong_type_parts(u64_from_text(&n, "1 ")).2, "invalid digit found in string");
    assert_eq!(wrong_type_parts(u128_from_text(&n, "invalid")).1, "u128");
    assert_eq!(wrong_type_parts(usize_from_text(&n, "invalid")).1, "usize");
    assert_eq!(wrong_type_parts(i16_from_text(&n, "invalid")).1, "i16");
    assert_eq!(wrong_type_parts(i32_from_text(&n, "invalid")).1, "i32");
    assert_eq!(wrong_type_parts(i64_from_text(&n, "invalid")).1, "i64");
    assert_eq!(wrong_type_parts(i128_from_text(&n, "invalid")).1, "i128");
    assert_eq!(wrong_type_parts(isize_from_text(&n, "invalid")).1, "isize");
    assert_eq!(wrong_type_parts(u8_from_text(&None, "x")).0, "<unknown>");
}

#[test]
fn integer_faults_read_as_std_reports_them() {
    // The library's reasons agree with what `str::parse` itself says.
    assert_eq!(IntFault::Empty.message(), "".parse::<u8>().unwrap_err().to_string());
    assert_eq!(IntFault::InvalidDigit.message(), "x".parse::<u8>().unwrap_err().to_string());
    assert_eq!(IntFault::PosOverflow.message(), "300".parse::<u8>().unwrap_err().to_string());
    assert_eq!(IntFault::NegOverflow.message(), "-300".parse::<i8>().unwrap_err().to_string());
}

#[test]
fn integer_faults_come_in_reading_order() {
    // An overflow met before a bad byte is reported as the overflow, as std does.
    let n = name("test");
    assert_eq!(
        wrong_type_parts(u8_from_text(&n, "9999x")).2,
        "9999x".parse::<u8>().unwrap_err().to_string()
    );
    assert_eq!(
        wrong_type_parts(u8_from_text(&n, "9x99")).2,
        "9x99".parse::<u8>().unwrap_err().to_string()
    );
    assert_eq!(
        wrong_type_parts(i16_from_text(&n, "-99999")).2,
        "-99999".parse::<i16>().unwrap_err().to_string()
    );
}

#[test]
fn truth_and_characters() {
    let n = name("test");
    assert_eq!(bool_from_text(&n, "true").unwrap(), true);
    assert_eq!(bool_from_text(&n, "false").unwrap(), false);
    let (_, wanted, source) = wrong_type_parts(bool_from_text(&n, "invalid"));
    assert_eq!(wanted, "bool");
    assert_eq!(source, "provided string was not `true` or `false`");
    assert_eq!(source, "invalid".parse::<bool>().unwrap_err().to_string());
    assert!(bool_from_text(&n, "True").is_err());

    assert_eq!(char_from_text(&n, "a").unwrap(), 'a');
    assert_eq!(char_from_text(&n, "ß").unwrap(), 'ß');
    let (_, wanted, source) = wrong_type_parts(char_from_text(&n, "invalid"));
    assert_eq!(wanted, "char");
    assert_eq!(source, "too many characters in string");
    assert_eq!(source, "invalid".parse::<char>().unwrap_err().to_string());
    let (_, _, source) = wrong_type_parts(char_from_text(&n, ""));
    assert_eq!(source, "cannot parse char from empty string");
    assert_eq!(source, "".parse::<char>().unwrap_err().to_string());
}

#[test]
fn parser_outcomes_become_field_values() {
    let n = name("f");
    assert_eq!(into_field_value::<u8>(&n, "u8", Ok(3)).unwrap(), 3);
    let (field, wanted, source) =
        wrong_type_parts(into_field_value::<u8>(&n, "u8", Err("bad".to_string())));
    assert_eq!((field.as_str(), wanted.as_str(), source.as_str()), ("f", "u8", "bad"));
}

// ── Laws, on concrete values ────────────────────────────────────────

#[test]
fn laws_hold_on_concrete_values() {
    // Last occurrence kept; every list occurrence kept in order; absent
    // optional and list fields are empty.
    let mut b: RequiredBuilder<u8> = RequiredBuilder::empty();
    for v in [7, 8, 9] {
        b.push_value(v);
    }
    assert_eq!(b.finalize("x").unwrap(), 9);
    let mut list: Vec<RequiredBuilder<u8>> = FieldBuilder::empty();
    for v in [9, 7, 9, 1] {
        list.push_value(v);
    }
    assert_eq!(list.finalize("l").unwrap(), vec![9, 7, 9, 1]);
    let absent: Option<RequiredBuilder<u8>> = FieldBuilder::empty();
    assert_eq!(absent.finalize("o").unwrap(), None);
    let absent: DefaultBuilder<u8> = DefaultBuilder::empty();
    assert_eq!(absent.finalize("d").unwrap(), 0);
}
