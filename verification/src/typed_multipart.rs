//! The extracted value of a multipart request, as handed to a handler.
use vstd::prelude::*;

verus! {

/// The value read from a multipart request, for use as a handler argument.
#[derive(Debug)]
pub struct TypedMultipart<T>(pub T);

impl<T> std::ops::Deref for TypedMultipart<T> {
    type Target = T;

    fn deref(&self) -> (r: &T)
        ensures
            *r == self.0,
    {
        &self.0
    }
}

impl<T> std::ops::DerefMut for TypedMultipart<T> {
    fn deref_mut(&mut self) -> (r: &mut T)
        ensures
            *r == old(self).0,
            final(self).0 == *final(r),
    {
        &mut self.0
    }
}

/// The value read from a multipart request, with a rejection type `R` of the
/// handler's choosing for the errors.
pub struct BaseMultipart<T, R> {
    pub data: T,
    rejection: std::marker::PhantomData<R>,
}

impl<T, R> BaseMultipart<T, R> {
    /// The value held.
    pub closed spec fn value(&self) -> T {
        self.data
    }

    /// Wraps the value read from a request.
    pub fn new(data: T) -> (r: Self)
        ensures
            r.value() == data,
    {
        BaseMultipart { data, rejection: std::marker::PhantomData }
    }
}

impl<T, R> std::ops::Deref for BaseMultipart<T, R> {
    type Target = T;

    fn deref(&self) -> (r: &T)
        ensures
            *r == self.value(),
    {
        &self.data
    }
}

impl<T, R> std::ops::DerefMut for BaseMultipart<T, R> {
    fn deref_mut(&mut self) -> (r: &mut T)
        ensures
            *r == old(self).value(),
            final(self).value() == *final(r),
    {
        &mut self.data
    }
}

} // verus!
