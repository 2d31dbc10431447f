use axum_typed_multipart::parse_index::parse_vec_index;
use axum_typed_multipart::parse_index::VecIndex;

#[test]
fn test_vec_index_explicit() {
    assert_eq!(parse_vec_index("[0]").unwrap(), (VecIndex::Explicit(0), ""));
    assert_eq!(parse_vec_index("[1]").unwrap(), (VecIndex::Explicit(1), ""));
    assert_eq!(parse_vec_index("[123]").unwrap(), (VecIndex::Explicit(123), ""));
}

#[test]
fn test_vec_index_explicit_with_rest() {
    assert_eq!(parse_vec_index("[0].name").unwrap(), (VecIndex::Explicit(0), ".name"));
    assert_eq!(parse_vec_index("[5][2].field").unwrap(), (VecIndex::Explicit(5), "[2].field"));
}

#[test]
fn test_vec_index_empty_brackets() {
    assert_eq!(parse_vec_index("[]").unwrap(), (VecIndex::Auto, ""));
    assert_eq!(parse_vec_index("[].name").unwrap(), (VecIndex::Auto, ".name"));
    assert_eq!(parse_vec_index("[][0]").unwrap(), (VecIndex::Auto, "[0]"));
}

#[test]
fn test_vec_index_empty_suffix() {
    assert_eq!(parse_vec_index("").unwrap(), (VecIndex::Auto, ""));
}

#[test]
fn test_vec_index_dot_prefix() {
    assert_eq!(parse_vec_index(".name").unwrap(), (VecIndex::Auto, ".name"));
    assert_eq!(parse_vec_index(".0").unwrap(), (VecIndex::Auto, ".0"));
    assert_eq!(parse_vec_index(".nested.field").unwrap(), (VecIndex::Auto, ".nested.field"));
}

#[test]
fn test_vec_index_invalid_format() {
    let err = parse_vec_index("name").unwrap_err();
    assert!(err.message().contains("expected '[index]'"));
}

#[test]
fn test_vec_index_missing_close_bracket() {
    let err = parse_vec_index("[0").unwrap_err();
    assert!(err.message().contains("missing closing bracket"));
}

#[test]
fn test_vec_index_non_numeric() {
    let err = parse_vec_index("[abc]").unwrap_err();
    assert!(err.message().contains("'abc' is not a valid array index"));
}

#[test]
fn test_vec_index_negative() {
    let err = parse_vec_index("[-1]").unwrap_err();
    assert!(err.message().contains("'-1' is not a valid array index"));
}
