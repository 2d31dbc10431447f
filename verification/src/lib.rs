//! Type-safe handling of `multipart/form-data` requests: the parsing rules,
//! field name grammar, builders and error model of the library.
use vstd::prelude::*;

pub mod text;
pub mod number;
pub mod field_name;
pub mod field_name_laws;
pub mod parse_index;
pub mod typed_multipart_error;
pub mod util;
pub mod field_builder;
pub mod multipart_builder;
pub mod field_data;
pub mod typed_multipart;
pub mod notation;
pub mod try_from_chunks;
pub mod external_address;
pub mod builder_laws;

verus! {

} // verus!
