//! A field's value together with what the client said about the field.
use vstd::prelude::*;
use vstd::string::*;

verus! {

/// The header map of a multipart field, carried through unread.
#[verifier::external_type_specification]
#[verifier::external_body]
#[verifier::reject_recursive_types(T)]
pub struct ExHeaderMap<T>(axum::http::HeaderMap<T>);

/// The value of one header of a multipart field, carried through unread.
#[verifier::external_type_specification]
#[verifier::external_body]
pub struct ExHeaderValue(axum::http::HeaderValue);

/// `HeaderMap::clone`, with nothing claimed of the copy: the headers are
/// carried through and never read by this library.
pub assume_specification<T: Clone>[ <axum::http::HeaderMap<T> as Clone>::clone ](
    map: &axum::http::HeaderMap<T>,
) -> axum::http::HeaderMap<T>;

/// Additional information about the file supplied by the client in the request.
#[derive(Debug, Clone, Default)]
pub struct FieldMetadata {
    /// Name of the HTML field in the form, from the `Content-Disposition` header.
    pub name: Option<String>,
    /// Original name of the file transmitted, from the `Content-Disposition`
    /// header. It must not be used blindly: path information should be
    /// stripped, and conversion to the server file system rules should be done.
    pub file_name: Option<String>,
    /// MIME type of the field, from the `Content-Type` header.
    pub content_type: Option<String>,
    /// HTTP headers sent with the field.
    pub headers: axum::http::HeaderMap,
}

/// Wrapper that provides access to both field contents and metadata.
///
/// Useful for file uploads or any field where metadata (filename,
/// content-type, headers) is needed alongside the actual content.
#[derive(Debug)]
pub struct FieldData<T> {
    pub metadata: FieldMetadata,
    pub contents: T,
}

/// The name under which a field is reported: its own name, or
/// `<unknown>` when the client sent none.
pub open spec fn reported_name(name: Option<String>) -> Seq<char> {
    match name {
        Some(n) => n@,
        None => "<unknown>"@,
    }
}

/// The name under which a field is reported in errors.
pub fn get_field_name(name: &Option<String>) -> (r: String)
    ensures
        r@ == reported_name(*name),
{
    match name {
        Some(n) => n.clone(),
        None => String::from_str("<unknown>"),
    }
}

} // verus!
