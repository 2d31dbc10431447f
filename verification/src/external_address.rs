//! A postal address read from a form, either on its own (`street`, `city`)
//! or nested under another field (`owner.street`, `owner.city`).
use vstd::prelude::*;
use vstd::string::*;
use crate::multipart_builder::{LeafBuilder, MultipartBuilder};
use crate::text::str_equal;
use crate::typed_multipart_error::TypedMultipartError;

verus! {

/// A street address.
#[derive(Debug, PartialEq)]
pub struct ExternalAddress {
    pub street: String,
    pub city: String,
}

/// The members of an address that a field can fill.
#[derive(Debug, Clone, Copy, PartialEq, Eq)]
pub enum AddressPart {
    Street,
    City,
}

/// The name of a member under the path `path` of its address: the bare name
/// at the top level, `path.name` below it.
pub open spec fn member_path(path: Seq<char>, key: Seq<char>) -> Seq<char> {
    if path.len() == 0 {
        key
    } else {
        path + "."@ + key
    }
}

/// True when a field name suffix names the member `key` in one of the
/// notations a name may use: bare at the top level (`street`), after a dot
/// (`.street`) or in brackets (`[street]`).
pub open spec fn names_member(suffix: Seq<char>, key: Seq<char>) -> bool {
    suffix == key || suffix == "."@ + key || suffix == "["@ + key + "]"@
}

/// The member that a field with this name suffix fills, if any.
pub open spec fn part_of(suffix: Seq<char>) -> Option<AddressPart> {
    if names_member(suffix, "street"@) {
        Some(AddressPart::Street)
    } else if names_member(suffix, "city"@) {
        Some(AddressPart::City)
    } else {
        None
    }
}

/// Writes the name of a member under the path `path`.
pub fn member_path_string(path: &str, key: &str) -> (r: String)
    ensures
        r@ == member_path(path@, key@),
{
    if path.is_empty() {
        key.to_string()
    } else {
        let mut s = path.to_string();
        s.append(".");
        s.append(key);
        s
    }
}

/// Finds the member that a field with this name suffix fills.
pub fn address_part(suffix: &str) -> (r: Option<AddressPart>)
    ensures
        r == part_of(suffix@),
{
    proof {
        reveal_strlit("street");
        reveal_strlit(".street");
        reveal_strlit("[street]");
        reveal_strlit("city");
        reveal_strlit(".city");
        reveal_strlit("[city]");
        reveal_strlit(".");
        reveal_strlit("[");
        reveal_strlit("]");
        assert("."@ + "street"@ =~= ".street"@);
        assert("["@ + "street"@ + "]"@ =~= "[street]"@);
        assert("."@ + "city"@ =~= ".city"@);
        assert("["@ + "city"@ + "]"@ =~= "[city]"@);
    }
    if str_equal(suffix, "street") || str_equal(suffix, ".street") || str_equal(suffix, "[street]") {
        Some(AddressPart::Street)
    } else if str_equal(suffix, "city") || str_equal(suffix, ".city") || str_equal(suffix, "[city]") {
        Some(AddressPart::City)
    } else {
        None
    }
}

/// Gathers the fields of an address as they arrive.
pub struct ExternalAddressBuilder {
    pub street: LeafBuilder<String>,
    pub city: LeafBuilder<String>,
}

impl ExternalAddressBuilder {
    /// Takes the text of a field whose name suffix is `suffix`: a member that
    /// the suffix names keeps the text (a later field replaces an earlier
    /// one); any other field is left for others, and `false` says so.
    pub fn consume_text(&mut self, suffix: &str, value: String) -> (r: bool)
        ensures
            r == (part_of(suffix@) is Some),
            part_of(suffix@) == Some(AddressPart::Street) ==> final(self).street.0 == Some(value)
                && final(self).city == old(self).city,
            part_of(suffix@) == Some(AddressPart::City) ==> final(self).city.0 == Some(value)
                && final(self).street == old(self).street,
            part_of(suffix@) is None ==> *final(self) == *old(self),
    {
        match address_part(suffix) {
            Some(AddressPart::Street) => {
                self.street.store(value);
                true
            },
            Some(AddressPart::City) => {
                self.city.store(value);
                true
            },
            None => false,
        }
    }
}

impl MultipartBuilder for ExternalAddressBuilder {
    type Target = ExternalAddress;

    open spec fn blank(&self) -> bool {
        self.street.0 is None && self.city.0 is None
    }

    open spec fn consumed(&self) -> bool {
        self.street.0 is Some || self.city.0 is Some
    }

    open spec fn missing_at(&self, path: Seq<char>) -> Option<Seq<char>> {
        if self.street.0 is None {
            Some(member_path(path, "street"@))
        } else if self.city.0 is None {
            Some(member_path(path, "city"@))
        } else {
            None
        }
    }

    open spec fn produces(&self, out: ExternalAddress) -> bool {
        self.street.0 == Some(out.street) && self.city.0 == Some(out.city)
    }

    fn empty() -> (r: Self) {
        ExternalAddressBuilder { street: LeafBuilder::empty(), city: LeafBuilder::empty() }
    }

    fn finalize(self, path: &str) -> (r: Result<ExternalAddress, TypedMultipartError>) {
        let street = match self.street.finalize(member_path_string(path, "street").as_str()) {
            Ok(v) => v,
            Err(e) => {
                return Err(e);
            },
        };
        let city = match self.city.finalize(member_path_string(path, "city").as_str()) {
            Ok(v) => v,
            Err(e) => {
                return Err(e);
            },
        };
        Ok(ExternalAddress { street, city })
    }

    fn was_consumed(&self) -> (r: bool) {
        self.street.was_consumed() || self.city.was_consumed()
    }
}

} // verus!
