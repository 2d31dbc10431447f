//! Builders that gather the occurrences of one struct field and produce its value.
//!
//! | Field type   | Builder                      |
//! |--------------|------------------------------|
//! | `T`          | [`RequiredBuilder<T>`]       |
//! | `Option<T>`  | `Option<RequiredBuilder<T>>` |
//! | `Vec<T>`     | `Vec<RequiredBuilder<T>>`    |
use vstd::prelude::*;
use crate::field_name::{Segment, SpecSegment, models};
use crate::text::{bytes_of, str_equal, lemma_bytes_eq_iff_chars_eq};
use crate::typed_multipart_error::TypedMultipartError;

verus! {

/// True when a parsed field name is the single key `base_name`.
pub open spec fn names_field(segments: Seq<SpecSegment>, base_name: Seq<u8>) -> bool {
    segments == seq![SpecSegment::Key(base_name)]
}

/// Whether the parsed field name `segments` is exactly the single key `base_name`.
pub fn is_single_key(segments: &[Segment<'_>], base_name: &str) -> (r: bool)
    ensures
        r == names_field(models(segments@), bytes_of(base_name)),
{
    if segments.len() != 1 {
        proof {
            assert(models(segments@).len() == segments@.len());
        }
        return false;
    }
    match &segments[0] {
        Segment::Key(k) => {
            proof {
                lemma_bytes_eq_iff_chars_eq(k, base_name);
            }
            let same = str_equal(k, base_name);
            proof {
                assert(models(segments@)[0] == segments@[0].model());
                if same {
                    assert(models(segments@) =~= seq![SpecSegment::Key(bytes_of(base_name))]);
                }
            }
            same
        },
        Segment::Append => {
            proof {
                assert(models(segments@)[0] == SpecSegment::Append);
            }
            false
        },
    }
}

/// Types that accumulate the occurrences of a multipart field and produce a
/// final value.
pub trait FieldBuilder: Sized {
    /// The type produced after all fields have been consumed.
    type Output;

    /// The value read from one occurrence of the field.
    type Value;

    /// True for a builder that has received nothing.
    spec fn blank(&self) -> bool;

    /// True when at least one value has been accumulated.
    spec fn filled(&self) -> bool;

    /// True when the builder accepts several occurrences of the field.
    spec fn multiple(&self) -> bool;

    /// True when the builder can produce its value.
    spec fn complete(&self) -> bool;

    /// True when `out` is a value the builder may produce.
    spec fn produces(&self, out: Self::Output) -> bool;

    /// True when `next` is the builder `prev` after it received `value`.
    spec fn receives(prev: Self, value: Self::Value, next: Self) -> bool;

    /// A builder that has received nothing.
    fn empty() -> (r: Self)
        ensures
            r.blank(),
            !r.filled(),
    ;

    /// Check if this builder accepts the given field name: `segments` is the
    /// parsed field name of the occurrence, `base_name` the struct field's name.
    fn matches(segments: &[Segment<'_>], base_name: &str) -> (r: bool)
        ensures
            r == names_field(models(segments@), bytes_of(base_name)),
    ;

    /// Records the value read from one occurrence of the field.
    fn push_value(&mut self, value: Self::Value)
        ensures
            Self::receives(*old(self), value, *final(self)),
            final(self).filled(),
    ;

    /// Consumes the builder and produces the final value; `field_name` names
    /// the field in the error reported when a required value is missing.
    fn finalize(self, field_name: &str) -> (r: Result<Self::Output, TypedMultipartError>)
        ensures
            match r {
                Ok(out) => self.complete() && self.produces(out),
                Err(e) => !self.complete() && (e matches TypedMultipartError::MissingField {
                    field_name: n,
                } && n@ == field_name@),
            },
    ;

    /// Returns `true` if at least one value has been accumulated.
    fn has_value(&self) -> (r: bool)
        ensures
            r == self.filled(),
    ;

    /// Whether this builder accepts multiple occurrences of the same field.
    fn allows_multiple(&self) -> (r: bool)
        ensures
            r == self.multiple(),
    ;
}

/// Builder for required fields. Reports [`TypedMultipartError::MissingField`]
/// if no value was provided; of several occurrences the last one is kept.
pub struct RequiredBuilder<T>(pub Option<T>);

impl<T> FieldBuilder for RequiredBuilder<T> {
    type Output = T;

    type Value = T;

    open spec fn blank(&self) -> bool {
        self.0 is None
    }

    open spec fn filled(&self) -> bool {
        self.0 is Some
    }

    open spec fn multiple(&self) -> bool {
        false
    }

    open spec fn complete(&self) -> bool {
        self.0 is Some
    }

    open spec fn produces(&self, out: T) -> bool {
        self.0 == Some(out)
    }

    open spec fn receives(prev: Self, value: T, next: Self) -> bool {
        next.0 == Some(value)
    }

    fn empty() -> (r: Self) {
        RequiredBuilder(None)
    }

    fn matches(segments: &[Segment<'_>], base_name: &str) -> (r: bool) {
        is_single_key(segments, base_name)
    }

    fn push_value(&mut self, value: T) {
        self.0 = Some(value);
    }

    fn finalize(self, field_name: &str) -> (r: Result<T, TypedMultipartError>) {
        match self.0 {
            Some(v) => Ok(v),
            None => Err(TypedMultipartError::MissingField { field_name: field_name.to_owned() }),
        }
    }

    fn has_value(&self) -> (r: bool) {
        self.0.is_some()
    }

    fn allows_multiple(&self) -> (r: bool) {
        false
    }
}

/// Builder for fields with a default: the type's default value is used when
/// no value was provided.
pub struct DefaultBuilder<T>(pub Option<T>);

impl<T: Default> FieldBuilder for DefaultBuilder<T> {
    type Output = T;

    type Value = T;

    open spec fn blank(&self) -> bool {
        self.0 is None
    }

    open spec fn filled(&self) -> bool {
        self.0 is Some
    }

    open spec fn multiple(&self) -> bool {
        false
    }

    open spec fn complete(&self) -> bool {
        true
    }

    open spec fn produces(&self, out: T) -> bool {
        match self.0 {
            Some(v) => out == v,
            None => call_ensures(T::default, (), out),
        }
    }

    open spec fn receives(prev: Self, value: T, next: Self) -> bool {
        next.0 == Some(value)
    }

    fn empty() -> (r: Self) {
        DefaultBuilder(None)
    }

    fn matches(segments: &[Segment<'_>], base_name: &str) -> (r: bool) {
        is_single_key(segments, base_name)
    }

    fn push_value(&mut self, value: T) {
        self.0 = Some(value);
    }

    fn finalize(self, field_name: &str) -> (r: Result<T, TypedMultipartError>) {
        match self.0 {
            Some(v) => Ok(v),
            None => Ok(T::default()),
        }
    }

    fn has_value(&self) -> (r: bool) {
        self.0.is_some()
    }

    fn allows_multiple(&self) -> (r: bool) {
        false
    }
}

/// An optional field: `None` until the first occurrence arrives.
impl<B: FieldBuilder> FieldBuilder for Option<B> {
    type Output = Option<B::Output>;

    type Value = B::Value;

    open spec fn blank(&self) -> bool {
        self is None
    }

    open spec fn filled(&self) -> bool {
        self is Some
    }

    open spec fn multiple(&self) -> bool {
        match self {
            Some(inner) => inner.multiple(),
            None => false,
        }
    }

    open spec fn complete(&self) -> bool {
        match self {
            Some(inner) => inner.complete(),
            None => true,
        }
    }

    open spec fn produces(&self, out: Option<B::Output>) -> bool {
        match (self, out) {
            (None, None) => true,
            (Some(inner), Some(o)) => inner.produces(o),
            _ => false,
        }
    }

    open spec fn receives(prev: Self, value: B::Value, next: Self) -> bool {
        match (prev, next) {
            (Some(p), Some(n)) => B::receives(p, value, n),
            (None, Some(n)) => exists|e: B| e.blank() && B::receives(e, value, n),
            _ => false,
        }
    }

    fn empty() -> (r: Self) {
        None
    }

    fn matches(segments: &[Segment<'_>], base_name: &str) -> (r: bool) {
        B::matches(segments, base_name)
    }

    fn push_value(&mut self, value: B::Value) {
        let mut inner = match self.take() {
            Some(inner) => inner,
            None => B::empty(),
        };
        inner.push_value(value);
        *self = Some(inner);
    }

    fn finalize(self, field_name: &str) -> (r: Result<Option<B::Output>, TypedMultipartError>) {
        match self {
            Some(inner) => match inner.finalize(field_name) {
                Ok(v) => Ok(Some(v)),
                Err(e) => Err(e),
            },
            None => Ok(None),
        }
    }

    fn has_value(&self) -> (r: bool) {
        self.is_some()
    }

    fn allows_multiple(&self) -> (r: bool) {
        match self {
            Some(inner) => inner.allows_multiple(),
            None => false,
        }
    }
}

/// A list field: each occurrence gets a builder of its own.
impl<B: FieldBuilder> FieldBuilder for Vec<B> {
    type Output = Vec<B::Output>;

    type Value = B::Value;

    open spec fn blank(&self) -> bool {
        self@.len() == 0
    }

    open spec fn filled(&self) -> bool {
        self@.len() > 0
    }

    open spec fn multiple(&self) -> bool {
        true
    }

    open spec fn complete(&self) -> bool {
        forall|i: int| 0 <= i < self@.len() ==> #[trigger] self@[i].complete()
    }

    open spec fn produces(&self, out: Vec<B::Output>) -> bool {
        &&& out@.len() == self@.len()
        &&& forall|i: int| 0 <= i < self@.len() ==> #[trigger] self@[i].produces(out@[i])
    }

    open spec fn receives(prev: Self, value: B::Value, next: Self) -> bool {
        &&& next@.len() == prev@.len() + 1
        &&& next@.drop_last() == prev@
        &&& exists|e: B| e.blank() && B::receives(e, value, next@.last())
    }

    fn empty() -> (r: Self) {
        Vec::new()
    }

    fn matches(segments: &[Segment<'_>], base_name: &str) -> (r: bool) {
        B::matches(segments, base_name)
    }

    fn push_value(&mut self, value: B::Value) {
        let mut builder = B::empty();
        let ghost e = builder;
        builder.push_value(value);
        self.push(builder);
        assert(final(self)@.drop_last() =~= old(self)@);
        assert(e.blank() && B::receives(e, value, self@.last()));
    }

    fn finalize(self, field_name: &str) -> (r: Result<Vec<B::Output>, TypedMultipartError>) {
        finalize_each(self, field_name)
    }

    fn has_value(&self) -> (r: bool) {
        self.len() != 0
    }

    fn allows_multiple(&self) -> (r: bool) {
        true
    }
}

/// Finalizes each builder of a list in order, stopping at the first failure.
fn finalize_each<B: FieldBuilder>(builders: Vec<B>, field_name: &str) -> (r: Result<
    Vec<B::Output>,
    TypedMultipartError,
>)
    ensures
        match r {
            Ok(out) => (forall|j: int| 0 <= j < builders@.len() ==> #[trigger] builders@[j].complete())
                && out@.len() == builders@.len() && (forall|j: int|
                0 <= j < builders@.len() ==> #[trigger] builders@[j].produces(out@[j])),
            Err(e) => !(forall|j: int| 0 <= j < builders@.len() ==> #[trigger] builders@[j].complete())
                && (e matches TypedMultipartError::MissingField { field_name: n } && n@ == field_name@),
        },
{
    let ghost all = builders@;
    let mut work = builders;
    let n = work.len();
    // reverse the builders onto a stack, so that they come off it in order
    let mut stack: Vec<B> = Vec::new();
    while work.len() > 0
        invariant
            n == all.len(),
            work@ == all.subrange(0, work@.len() as int),
            stack@.len() == n - work@.len(),
            forall|j: int| 0 <= j < stack@.len() ==> #[trigger] stack@[j] == all[n - 1 - j],
        decreases work@.len(),
    {
        let b = work.pop().unwrap();
        stack.push(b);
    }
    let mut out: Vec<B::Output> = Vec::new();
    let mut i: usize = 0;
    while i < n
        invariant
            n == all.len(),
            all == builders@,
            i <= n,
            stack@.len() == n - i,
            forall|j: int| 0 <= j < n - i ==> #[trigger] stack@[j] == all[n - 1 - j],
            out@.len() == i,
            forall|j: int| #![trigger all[j]] 0 <= j < i ==> all[j].complete() && all[j].produces(out@[j]),
        decreases n - i,
    {
        let b = stack.pop().unwrap();
        assert(b == all[i as int]);
        match b.finalize(field_name) {
            Ok(v) => {
                out.push(v);
            },
            Err(e) => {
                assert(!all[i as int].complete());
                assert(!(forall|j: int| 0 <= j < all.len() ==> #[trigger] all[j].complete()));
                return Err(e);
            },
        }
        i = i + 1;
    }
    Ok(out)
}


} // verus!
