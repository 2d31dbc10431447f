use axum_typed_multipart::try_from_chunks::{
    append_chunk, bool_from_text, char_from_text, decimal_from_bytes, fixed_datetime_from_bytes,
    i128_from_text, i16_from_text, i32_from_text, i64_from_text, i8_from_text, isize_from_text,
    naive_date_from_bytes, string_from_bytes, u128_from_text, u16_from_text, u32_from_text,
    u64_from_text, u8_from_text, usize_from_text, utc_datetime_from_bytes, uuid_from_bytes,
};
use axum_typed_multipart::typed_multipart_error::TypedMultipartError;

/// The field's bytes as they arrive, three at a time.
fn gather(input: &[u8]) -> Vec<u8> {
    let mut bytes = Vec::new();
    for chunk in input.chunks(3) {
        append_chunk(&mut bytes, chunk);
    }
    bytes
}

fn name() -> Option<String> {
    Some("test".to_string())
}

/// The text of a field, read as `String` is read.
fn text(input: &str) -> String {
    string_from_bytes(&name(), gather(input.as_bytes())).unwrap()
}

fn is_wrong_type<T>(r: &Result<T, TypedMultipartError>) -> bool {
    matches!(r, Err(TypedMultipartError::WrongFieldType { .. }))
}

fn wanted_and_source<T: std::fmt::Debug>(r: Result<T, TypedMultipartError>) -> (String, String) {
    match r {
        Err(TypedMultipartError::WrongFieldType { field_name, wanted_type, source }) => {
            assert_eq!(field_name, "test");
            (wanted_type, source)
        }
        other => panic!("expected a wrong field type, got {other:?}"),
    }
}

#[test]
fn test_try_from_chunks_bytes() {
    assert_eq!(gather(b"asd"), b"asd".to_vec());
}

#[test]
fn test_try_from_chunks_string() {
    assert_eq!(string_from_bytes(&name(), gather(b"asd")).unwrap(), "asd");
    assert!(is_wrong_type(&string_from_bytes(&name(), gather(&[0x80]))));
}

#[test]
fn test_try_from_chunks_i8() {
    assert_eq!(i8_from_text(&name(), &text("-42")).unwrap(), -42);
    assert!(is_wrong_type(&i8_from_text(&name(), &text("invalid"))));
}

#[test]
fn test_try_from_chunks_i16() {
    assert_eq!(i16_from_text(&name(), &text("-42")).unwrap(), -42i16);
    assert!(is_wrong_type(&i16_from_text(&name(), &text("invalid"))));
}

#[test]
fn test_try_from_chunks_i32() {
    assert_eq!(i32_from_text(&name(), &text("-42")).unwrap(), -42);
    assert!(is_wrong_type(&i32_from_text(&name(), &text("invalid"))));
}

#[test]
fn test_try_from_chunks_i64() {
    assert_eq!(i64_from_text(&name(), &text("-42")).unwrap(), -42);
    assert!(is_wrong_type(&i64_from_text(&name(), &text("invalid"))));
}

#[test]
fn test_try_from_chunks_i128() {
    assert_eq!(i128_from_text(&name(), &text("-42")).unwrap(), -42);
    assert!(is_wrong_type(&i128_from_text(&name(), &text("invalid"))));
}

#[test]
fn test_try_from_chunks_isize() {
    assert_eq!(isize_from_text(&name(), &text("-42")).unwrap(), -42isize);
    assert!(is_wrong_type(&isize_from_text(&name(), &text("invalid"))));
}

#[test]
fn test_try_from_chunks_u8() {
    assert_eq!(u8_from_text(&name(), &text("42")).unwrap(), 42);
    assert!(is_wrong_type(&u8_from_text(&name(), &text("invalid"))));
}

#[test]
fn test_try_from_chunks_u16() {
    assert_eq!(u16_from_text(&name(), &text("42")).unwrap(), 42u16);
    assert!(is_wrong_type(&u16_from_text(&name(), &text("invalid"))));
}

#[test]
fn test_try_from_chunks_u32() {
    assert_eq!(u32_from_text(&name(), &text("42")).unwrap(), 42u32);
    assert!(is_wrong_type(&u32_from_text(&name(), &text("invalid"))));
}

#[test]
fn test_try_from_chunks_u64() {
    assert_eq!(u64_from_text(&name(), &text("42")).unwrap(), 42u64);
    assert!(is_wrong_type(&u64_from_text(&name(), &text("invalid"))));
}

#[test]
fn test_try_from_chunks_u128() {
    assert_eq!(u128_from_text(&name(), &text("42")).unwrap(), 42u128);
    assert!(is_wrong_type(&u128_from_text(&name(), &text("invalid"))));
}

#[test]
fn test_try_from_chunks_usize() {
    assert_eq!(usize_from_text(&name(), &text("42")).unwrap(), 42usize);
    assert!(is_wrong_type(&usize_from_text(&name(), &text("invalid"))));
}

#[test]
fn test_try_from_chunks_bool() {
    assert_eq!(bool_from_text(&name(), &text("true")).unwrap(), true);
    assert_eq!(bool_from_text(&name(), &text("false")).unwrap(), false);
    assert!(is_wrong_type(&bool_from_text(&name(), &text("invalid"))));
}

#[test]
fn test_try_from_chunks_char() {
    assert_eq!(char_from_text(&name(), &text("a")).unwrap(), 'a');
    assert!(is_wrong_type(&char_from_text(&name(), &text("invalid"))));
}

#[test]
fn test_try_from_chunks_uuid() {
    let valid_input = "550e8400-e29b-41d4-a716-446655440000";
    let valid_output = 0x550e8400_e29b_41d4_a716_446655440000u128;
    assert_eq!(uuid_from_bytes(&name(), &gather(valid_input.as_bytes())).unwrap(), valid_output);
    assert!(is_wrong_type(&uuid_from_bytes(&name(), &gather(b"invalid"))));
}

#[test]
fn test_try_from_chunks_chrono_datetime_fixed() {
    let valid_input = "2024-01-01T04:20:00Z";
    assert_eq!(
        fixed_datetime_from_bytes(&name(), gather(valid_input.as_bytes())).unwrap(),
        (1704082800, 0, 0)
    );
    assert!(is_wrong_type(&fixed_datetime_from_bytes(&name(), gather(b"invalid"))));
}

#[test]
fn test_try_from_chunks_chrono_datetime_utc() {
    let valid_input = "2024-01-01T04:20:00Z";
    assert_eq!(
        utc_datetime_from_bytes(&name(), gather(valid_input.as_bytes())).unwrap(),
        (1704082800, 0)
    );
    assert!(is_wrong_type(&utc_datetime_from_bytes(&name(), gather(&[0, 159, 146, 150]))));
}

#[test]
fn test_try_from_chunks_rust_decimal() {
    assert_eq!(decimal_from_bytes(&name(), gather(b"1.50")).unwrap(), (150, 2));
    assert!(is_wrong_type(&decimal_from_bytes(&name(), gather(b"invalid"))));
}

#[test]
fn test_try_from_chunks_chrono_native_date_fixed() {
    assert_eq!(naive_date_from_bytes(&name(), gather(b"2024-01-01")).unwrap(), (2024, 1, 1));
    assert!(is_wrong_type(&naive_date_from_bytes(&name(), gather(b"invalid"))));
}

#[test]
fn uuid_in_its_other_notations() {
    let v = 0xf2ed6b5c_8d93_4c3c_8c2f_2b3f5b6ee8e4u128;
    assert_eq!(uuid_from_bytes(&name(), b"f2ed6b5c8d934c3c8c2f2b3f5b6ee8e4").unwrap(), v);
    assert_eq!(uuid_from_bytes(&name(), b"{f2ed6b5c-8d93-4c3c-8c2f-2b3f5b6ee8e4}").unwrap(), v);
    assert_eq!(
        uuid_from_bytes(&name(), b"urn:uuid:F2ED6B5C-8D93-4C3C-8C2F-2B3F5B6EE8E4").unwrap(),
        v
    );
    let (wanted, source) = wanted_and_source(uuid_from_bytes(&name(), b"invalid"));
    assert_eq!(wanted, "uuid::Uuid");
    assert_eq!(source, "failed to parse a UUID");
}

#[test]
fn datetimes_with_offsets_and_fractions() {
    assert_eq!(
        utc_datetime_from_bytes(&name(), b"2024-01-01T12:00:00.5+01:00".to_vec()).unwrap(),
        (1704106800, 500_000_000)
    );
    assert_eq!(
        fixed_datetime_from_bytes(&name(), b"2024-01-01T12:00:00+02:00".to_vec()).unwrap(),
        (1704103200, 0, 7200)
    );
    let (wanted, source) = wanted_and_source(utc_datetime_from_bytes(&name(), vec![0xff]));
    assert_eq!(wanted, "chrono::datetime::DateTime<chrono::offset::utc::Utc>");
    assert_eq!(source, "invalid utf-8 sequence of 1 bytes from index 0");
    let (wanted, source) = wanted_and_source(utc_datetime_from_bytes(&name(), b"invalid".to_vec()));
    assert_eq!(wanted, "chrono::datetime::DateTime<chrono::offset::utc::Utc>");
    assert!(!source.is_empty());
    let (wanted, _) = wanted_and_source(fixed_datetime_from_bytes(&name(), b"2024".to_vec()));
    assert_eq!(wanted, "chrono::datetime::DateTime<chrono::offset::fixed::FixedOffset>");
}

#[test]
fn dates_and_decimals_rejected() {
    let (wanted, _) = wanted_and_source(naive_date_from_bytes(&name(), b"2024-13-01".to_vec()));
    assert_eq!(wanted, "chrono::naive::date::NaiveDate");
    assert_eq!(decimal_from_bytes(&name(), b"-0.5".to_vec()).unwrap(), (-5, 1));
    let (wanted, source) = wanted_and_source(decimal_from_bytes(&name(), b"invalid".to_vec()));
    assert_eq!(wanted, "rust_decimal::decimal::Decimal");
    assert!(!source.is_empty());
}
