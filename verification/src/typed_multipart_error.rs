//! The errors reported while reading a multipart request into a typed value.
use vstd::prelude::*;
use vstd::string::*;
use crate::field_name::ParseError;
use crate::parse_index::IndexFormatError;
use crate::text::{decimal, decimal_string};

verus! {

/// Error type for reading a multipart request into a typed value.
#[non_exhaustive]
#[derive(Debug)]
pub enum TypedMultipartError {
    /// The request is not a multipart request; `status` and `body_text` are
    /// those of the rejection.
    InvalidRequest { status: u16, body_text: String },
    /// The body of the multipart request is malformed.
    InvalidRequestBody { status: u16, body_text: String },
    /// A required field was not supplied.
    MissingField { field_name: String },
    /// A field could not be read as the type it is declared with.
    WrongFieldType { field_name: String, wanted_type: String, source: String },
    /// A field appeared more than once (strict mode).
    DuplicateField { field_name: String },
    /// A field that the target does not declare (strict mode).
    UnknownField { field_name: String },
    /// A field without a name (strict mode).
    NamelessField,
    /// A field is larger than its size limit.
    FieldTooLarge { field_name: String, limit_bytes: usize },
    /// A field name is not valid nested field notation.
    InvalidFieldName { field_name: String, source: ParseError },
    /// The index of a list field could not be read.
    InvalidIndexFormat { field_name: String, source: IndexFormatError },
    /// A list index skips ahead of the next expected one.
    InvalidIndex { field_name: String, expected: usize },
    /// Any other error, by its message.
    Other { message: String },
}

impl TypedMultipartError {
    /// The HTTP status code with which the error is answered.
    pub open spec fn status_spec(&self) -> u16 {
        match self {
            TypedMultipartError::MissingField { .. } | TypedMultipartError::WrongFieldType { .. }
            | TypedMultipartError::DuplicateField { .. } | TypedMultipartError::UnknownField { .. }
            | TypedMultipartError::NamelessField | TypedMultipartError::InvalidFieldName { .. }
            | TypedMultipartError::InvalidIndexFormat { .. } | TypedMultipartError::InvalidIndex {
                ..
            } => 400,
            TypedMultipartError::FieldTooLarge { .. } => 413,
            TypedMultipartError::InvalidRequest { status, .. } => *status,
            TypedMultipartError::InvalidRequestBody { status, .. } => *status,
            TypedMultipartError::Other { .. } => 500,
        }
    }

    /// The HTTP status code with which the error is answered: 400 (bad
    /// request) for malformed fields, 413 (payload too large) for a field over
    /// its limit, the rejection's own status for a malformed request, and 500
    /// (internal server error) for anything else.
    pub fn get_status(&self) -> (r: u16)
        ensures
            r == self.status_spec(),
    {
        match self {
            TypedMultipartError::MissingField { .. } | TypedMultipartError::WrongFieldType { .. }
            | TypedMultipartError::DuplicateField { .. } | TypedMultipartError::UnknownField { .. }
            | TypedMultipartError::NamelessField | TypedMultipartError::InvalidFieldName { .. }
            | TypedMultipartError::InvalidIndexFormat { .. } | TypedMultipartError::InvalidIndex {
                ..
            } => 400,
            TypedMultipartError::FieldTooLarge { .. } => 413,
            TypedMultipartError::InvalidRequest { status, .. } => *status,
            TypedMultipartError::InvalidRequestBody { status, .. } => *status,
            TypedMultipartError::Other { .. } => 500,
        }
    }

    /// The text of the message that describes the error.
    pub open spec fn message_spec(&self) -> Seq<char> {
        match self {
            TypedMultipartError::InvalidRequest { body_text, .. } => "request is malformed ("@
                + body_text@ + ")"@,
            TypedMultipartError::InvalidRequestBody { body_text, .. } => "request body is malformed ("@
                + body_text@ + ")"@,
            TypedMultipartError::MissingField { field_name } => "field '"@ + field_name@
                + "' is required"@,
            TypedMultipartError::WrongFieldType { field_name, wanted_type, source } => "field '"@
                + field_name@ + "' must be of type '"@ + wanted_type@ + "': "@ + source@,
            TypedMultipartError::DuplicateField { field_name } => "field '"@ + field_name@
                + "' is already present"@,
            TypedMultipartError::UnknownField { field_name } => "field '"@ + field_name@
                + "' is not expected"@,
            TypedMultipartError::NamelessField => "field name is empty"@,
            TypedMultipartError::FieldTooLarge { field_name, limit_bytes } => "field '"@
                + field_name@ + "' is larger than "@ + decimal(*limit_bytes as nat) + " bytes"@,
            TypedMultipartError::InvalidFieldName { field_name, source } => "field name '"@
                + field_name@ + "' is invalid: "@ + source.message_spec(),
            TypedMultipartError::InvalidIndexFormat { field_name, source } => "field '"@
                + field_name@ + "' has an invalid index: "@ + source.message_spec(),
            TypedMultipartError::InvalidIndex { field_name, expected } => "field '"@ + field_name@
                + "' has an index out of order, expected "@ + decimal(*expected as nat),
            TypedMultipartError::Other { message } => message@,
        }
    }

    /// Describes the error.
    pub fn message(&self) -> (r: String)
        ensures
            r@ == self.message_spec(),
    {
        match self {
            TypedMultipartError::InvalidRequest { body_text, .. } => {
                let mut s = String::from_str("request is malformed (");
                s.append(body_text.as_str());
                s.append(")");
                s
            },
            TypedMultipartError::InvalidRequestBody { body_text, .. } => {
                let mut s = String::from_str("request body is malformed (");
                s.append(body_text.as_str());
                s.append(")");
                s
            },
            TypedMultipartError::MissingField { field_name } => {
                let mut s = String::from_str("field '");
                s.append(field_name.as_str());
                s.append("' is required");
                s
            },
            TypedMultipartError::WrongFieldType { field_name, wanted_type, source } => {
                let mut s = String::from_str("field '");
                s.append(field_name.as_str());
                s.append("' must be of type '");
                s.append(wanted_type.as_str());
                s.append("': ");
                s.append(source.as_str());
                s
            },
            TypedMultipartError::DuplicateField { field_name } => {
                let mut s = String::from_str("field '");
                s.append(field_name.as_str());
                s.append("' is already present");
                s
            },
            TypedMultipartError::UnknownField { field_name } => {
                let mut s = String::from_str("field '");
                s.append(field_name.as_str());
                s.append("' is not expected");
                s
            },
            TypedMultipartError::NamelessField => String::from_str("field name is empty"),
            TypedMultipartError::FieldTooLarge { field_name, limit_bytes } => {
                let mut s = String::from_str("field '");
                s.append(field_name.as_str());
                s.append("' is larger than ");
                s.append(decimal_string(*limit_bytes).as_str());
                s.append(" bytes");
                s
            },
            TypedMultipartError::InvalidFieldName { field_name, source } => {
                let mut s = String::from_str("field name '");
                s.append(field_name.as_str());
                s.append("' is invalid: ");
                s.append(source.message().as_str());
                s
            },
            TypedMultipartError::InvalidIndexFormat { field_name, source } => {
                let mut s = String::from_str("field '");
                s.append(field_name.as_str());
                s.append("' has an invalid index: ");
                s.append(source.message().as_str());
                s
            },
            TypedMultipartError::InvalidIndex { field_name, expected } => {
                let mut s = String::from_str("field '");
                s.append(field_name.as_str());
                s.append("' has an index out of order, expected ");
                s.append(decimal_string(*expected).as_str());
                s
            },
            TypedMultipartError::Other { message } => message.clone(),
        }
    }
}

} // verus!
