//! Builders that consume the fields of a multipart request, nested by their
//! names, and produce the target value.
use vstd::prelude::*;
use vstd::string::*;
use crate::parse_index::{VecIndex, parse_vec_index, vec_index_outcome};
use crate::text::{decimal, decimal_string};
use crate::typed_multipart_error::TypedMultipartError;

verus! {

/// A builder that incrementally consumes multipart fields and produces its
/// target once all fields are in.
pub trait MultipartBuilder: Sized {
    /// The type this builder produces.
    type Target;

    /// True for a builder that has consumed nothing.
    spec fn blank(&self) -> bool;

    /// True when any field was consumed by this builder or its nested builders.
    spec fn consumed(&self) -> bool;

    /// The path of the first value that is still missing, the builder's own
    /// path being `path`; `None` when nothing is missing.
    spec fn missing_at(&self, path: Seq<char>) -> Option<Seq<char>>;

    /// True when `out` is the value the builder produces.
    spec fn produces(&self, out: Self::Target) -> bool;

    /// A builder that has consumed nothing.
    fn empty() -> (r: Self)
        ensures
            r.blank(),
            !r.consumed(),
    ;

    /// Finalizes the builder, returning the target or an error naming the
    /// first required field that is missing. `path` is the field path prefix
    /// for error messages (empty for a top-level builder).
    fn finalize(self, path: &str) -> (r: Result<Self::Target, TypedMultipartError>)
        ensures
            match self.missing_at(path@) {
                None => r matches Ok(out) && self.produces(out),
                Some(p) => r matches Err(TypedMultipartError::MissingField { field_name }) && field_name@
                    == p,
            },
    ;

    /// Returns `true` if any field was consumed by this builder or its nested builders.
    fn was_consumed(&self) -> (r: bool)
        ensures
            r == self.consumed(),
    ;
}

/// The path of the element with index `i` of a list whose path is `path`:
/// `path[i]`.
pub open spec fn element_path(path: Seq<char>, i: nat) -> Seq<char> {
    path + "["@ + decimal(i) + "]"@
}

/// True when the elements of a list are kept by strictly increasing index.
pub open spec fn index_sorted<B>(entries: Seq<(usize, B)>) -> bool {
    forall|i: int, j: int|
        0 <= i < j < entries.len() ==> #[trigger] entries[i].0 < #[trigger] entries[j].0
}

/// True when a list holds an element with index `k`.
pub open spec fn holds_index<B>(entries: Seq<(usize, B)>, k: int) -> bool {
    exists|q: int| 0 <= q < entries.len() && #[trigger] entries[q].0 == k
}

/// The path of the first missing value among the elements of a list, each
/// under the index it was sent with, looking from element `from` on.
pub open spec fn first_missing<B: MultipartBuilder>(
    items: Seq<(usize, B)>,
    path: Seq<char>,
    from: nat,
) -> Option<Seq<char>>
    decreases items.len() - from,
{
    if from >= items.len() {
        None
    } else {
        match items[from as int].1.missing_at(element_path(path, items[from as int].0 as nat)) {
            Some(p) => Some(p),
            None => first_missing(items, path, from + 1),
        }
    }
}

/// Writes the path of element `i` of a list whose path is `path`.
pub fn element_path_string(path: &str, i: usize) -> (r: String)
    ensures
        r@ == element_path(path@, i as nat),
{
    let mut s = String::from_str(path);
    s.append("[");
    s.append(decimal_string(i).as_str());
    s.append("]");
    s
}

/// Lists of nested values: fields named with an index (`[0].name`,
/// `[5].name`, ...) or none (append). Each element is kept under the index it
/// was sent with, in increasing order of index: indices may be sparse and
/// arrive in any order, and the list produced holds the elements sorted by
/// index with the gaps removed. Fields for the same index can arrive in any
/// order.
impl<B: MultipartBuilder> MultipartBuilder for Vec<(usize, B)> {
    type Target = Vec<B::Target>;

    open spec fn blank(&self) -> bool {
        self@.len() == 0
    }

    open spec fn consumed(&self) -> bool {
        self@.len() > 0
    }

    open spec fn missing_at(&self, path: Seq<char>) -> Option<Seq<char>> {
        first_missing(self@, path, 0)
    }

    open spec fn produces(&self, out: Vec<B::Target>) -> bool {
        &&& out@.len() == self@.len()
        &&& forall|i: int| 0 <= i < self@.len() ==> #[trigger] self@[i].1.produces(out@[i])
    }

    fn empty() -> (r: Self) {
        Vec::new()
    }

    fn finalize(self, path: &str) -> (r: Result<Vec<B::Target>, TypedMultipartError>) {
        finalize_elements(self, path)
    }

    fn was_consumed(&self) -> (r: bool) {
        self.len() != 0
    }
}

/// Finalizes the elements of a list in order, each under the path of its
/// own index, stopping at the first that is missing a value.
fn finalize_elements<B: MultipartBuilder>(builders: Vec<(usize, B)>, path: &str) -> (r: Result<
    Vec<B::Target>,
    TypedMultipartError,
>)
    ensures
        match first_missing(builders@, path@, 0) {
            None => r matches Ok(out) && out@.len() == builders@.len() && (forall|i: int|
                0 <= i < builders@.len() ==> #[trigger] builders@[i].1.produces(out@[i])),
            Some(p) => r matches Err(TypedMultipartError::MissingField { field_name }) && field_name@
                == p,
        },
{
    let ghost all = builders@;
    let mut work = builders;
    let n = work.len();
    // reverse the elements onto a stack, so that they come off it in order
    let mut stack: Vec<(usize, B)> = Vec::new();
    while work.len() > 0
        invariant
            n == all.len(),
            work@ == all.subrange(0, work@.len() as int),
            stack@.len() == n - work@.len(),
            forall|j: int| 0 <= j < stack@.len() ==> #[trigger] stack@[j] == all[n - 1 - j],
        decreases work@.len(),
    {
        let e = work.pop().unwrap();
        stack.push(e);
    }
    let mut out: Vec<B::Target> = Vec::new();
    let mut i: usize = 0;
    while i < n
        invariant
            n == all.len(),
            all == builders@,
            i <= n,
            stack@.len() == n - i,
            forall|j: int| 0 <= j < n - i ==> #[trigger] stack@[j] == all[n - 1 - j],
            out@.len() == i,
            forall|j: int| #![trigger all[j]] 0 <= j < i ==> all[j].1.produces(out@[j]),
            first_missing(all, path@, 0) == first_missing(all, path@, i as nat),
        decreases n - i,
    {
        let (k, b) = stack.pop().unwrap();
        assert((k, b) == all[i as int]);
        let element = element_path_string(path, k);
        match b.finalize(element.as_str()) {
            Ok(v) => {
                out.push(v);
            },
            Err(e) => {
                return Err(e);
            },
        }
        i = i + 1;
    }
    Ok(out)
}

/// Optional nested values: the inner builder is created with the first field
/// under the optional value's name, and from then on the value is present
/// and finalized by it. The optional builder counts as having consumed a
/// field only when its inner builder took one.
impl<B: MultipartBuilder> MultipartBuilder for Option<B> {
    type Target = Option<B::Target>;

    open spec fn blank(&self) -> bool {
        self is None
    }

    open spec fn consumed(&self) -> bool {
        self matches Some(inner) && inner.consumed()
    }

    open spec fn missing_at(&self, path: Seq<char>) -> Option<Seq<char>> {
        match self {
            Some(inner) => inner.missing_at(path),
            None => None,
        }
    }

    open spec fn produces(&self, out: Option<B::Target>) -> bool {
        match (self, out) {
            (None, None) => true,
            (Some(inner), Some(o)) => inner.produces(o),
            _ => false,
        }
    }

    fn empty() -> (r: Self) {
        None
    }

    fn finalize(self, path: &str) -> (r: Result<Option<B::Target>, TypedMultipartError>) {
        match self {
            Some(inner) => match inner.finalize(path) {
                Ok(v) => Ok(Some(v)),
                Err(e) => Err(e),
            },
            None => Ok(None),
        }
    }

    fn was_consumed(&self) -> (r: bool) {
        match self {
            Some(inner) => inner.was_consumed(),
            None => false,
        }
    }
}

/// Makes sure an optional nested builder exists, creating an empty one on
/// the first field, so that the field can be handed to it. Creating it
/// consumes nothing.
pub fn ensure_inner<B: MultipartBuilder>(builder: &mut Option<B>)
    ensures
        (*final(builder)) is Some,
        (*old(builder)) is Some ==> *final(builder) == *old(builder),
        (*old(builder)) is None ==> (*final(builder))->Some_0.blank(),
        final(builder).consumed() == old(builder).consumed(),
{
    if builder.is_none() {
        *builder = Some(B::empty());
    }
}

/// The index of the element that a field goes to, given the index read from
/// its name: its own index, or for an append (`[]` or no index) the index
/// after the largest held (0 for an empty list).
pub open spec fn key_of<B>(index: VecIndex, entries: Seq<(usize, B)>) -> int {
    match index {
        VecIndex::Explicit(i) => i as int,
        VecIndex::Auto => if entries.len() == 0 {
            0
        } else {
            entries.last().0 + 1
        },
    }
}

/// True when `next` is the list `prev` after a field for the element with
/// index `k` was located in it, at position `p`: the element was there
/// already, or a new, empty one was put in its place in index order.
pub open spec fn placed<B: MultipartBuilder>(
    prev: Seq<(usize, B)>,
    k: int,
    p: int,
    next: Seq<(usize, B)>,
) -> bool {
    &&& index_sorted(next)
    &&& 0 <= p < next.len()
    &&& next[p].0 == k
    &&& if holds_index(prev, k) {
        next == prev
    } else {
        &&& next.len() == prev.len() + 1
        &&& next.remove(p) == prev
        &&& next[p].1.blank()
    }
}

/// Finds the element of a list that a field goes to, from the suffix of the
/// field's name that follows the list's own name: the element with the index
/// the suffix names, created empty if the list has none with that index, or
/// for an append a new element after the last. Returns the element's
/// position in the list and the rest of the suffix, which names the field
/// within the element. A malformed index is rejected; so is an append to a
/// list that already holds the largest index. `field_name` names the field
/// in errors.
pub fn locate<'s, B: MultipartBuilder>(
    builders: &mut Vec<(usize, B)>,
    suffix: &'s str,
    field_name: &str,
) -> (r: Result<(usize, &'s str), TypedMultipartError>)
    requires
        index_sorted(old(builders)@),
    ensures
        index_sorted(final(builders)@),
        match r {
            Ok((p, rest)) => exists|index: VecIndex|
                #![trigger key_of(index, old(builders)@)]
                {
                    &&& vec_index_outcome(suffix, Ok((index, rest)))
                    &&& placed(old(builders)@, key_of(index, old(builders)@), p as int, final(builders)@)
                },
            Err(TypedMultipartError::InvalidIndexFormat { field_name: n, source }) => {
                &&& n@ == field_name@
                &&& vec_index_outcome(suffix, Err(source))
                &&& final(builders)@ == old(builders)@
            },
            Err(TypedMultipartError::InvalidIndex { field_name: n, expected }) => {
                &&& n@ == field_name@
                &&& expected == usize::MAX
                &&& exists|rest: &'s str| vec_index_outcome(suffix, Ok((VecIndex::Auto, rest)))
                &&& old(builders)@.len() > 0 && old(builders)@.last().0 == usize::MAX
                &&& final(builders)@ == old(builders)@
            },
            _ => false,
        },
{
    match parse_vec_index(suffix) {
        Err(source) => Err(TypedMultipartError::InvalidIndexFormat {
            field_name: field_name.to_owned(),
            source,
        }),
        Ok((VecIndex::Auto, rest)) => {
            let len = builders.len();
            let key = if len == 0 {
                0
            } else {
                let last = builders[len - 1].0;
                if last == usize::MAX {
                    assert(vec_index_outcome(suffix, Ok((VecIndex::Auto, rest))));
                    return Err(TypedMultipartError::InvalidIndex {
                        field_name: field_name.to_owned(),
                        expected: usize::MAX,
                    });
                }
                last + 1
            };
            assert(key == key_of(VecIndex::Auto, old(builders)@));
            proof {
                assert forall|q: int| 0 <= q < len implies old(builders)@[q].0 < key by {
                    if q < len - 1 {
                        assert(old(builders)@[q].0 < old(builders)@[len - 1].0);
                    }
                }
            }
            builders.push((key, B::empty()));
            assert(builders@.remove(len as int) =~= old(builders)@);
            assert(index_sorted(builders@)) by {
                assert forall|i: int, j: int| 0 <= i < j < builders@.len() implies #[trigger] builders@[i].0
                    < #[trigger] builders@[j].0 by {
                    if j < len {
                        assert(builders@[i] == old(builders)@[i]);
                        assert(builders@[j] == old(builders)@[j]);
                    } else {
                        assert(builders@[i] == old(builders)@[i]);
                    }
                }
            }
            Ok((len, rest))
        },
        Ok((VecIndex::Explicit(k), rest)) => {
            let len = builders.len();
            let mut p: usize = 0;
            while p < len && builders[p].0 < k
                invariant
                    p <= len,
                    len == builders@.len(),
                    forall|q: int| 0 <= q < p ==> #[trigger] builders@[q].0 < k,
                decreases len - p,
            {
                p = p + 1;
            }
            assert(key_of(VecIndex::Explicit(k), old(builders)@) == k);
            if p < len && builders[p].0 == k {
                assert(holds_index(old(builders)@, k as int));
                return Ok((p, rest));
            }
            proof {
                assert forall|q: int| 0 <= q < len implies #[trigger] old(builders)@[q].0 != k by {
                    if q > p {
                        assert(old(builders)@[p as int].0 < old(builders)@[q].0);
                    }
                }
            }
            builders.insert(p, (k, B::empty()));
            assert(builders@.remove(p as int) =~= old(builders)@);
            assert(index_sorted(builders@)) by {
                assert forall|i: int, j: int| 0 <= i < j < builders@.len() implies #[trigger] builders@[i].0
                    < #[trigger] builders@[j].0 by {
                    if j < p {
                        assert(builders@[i] == old(builders)@[i]);
                        assert(builders@[j] == old(builders)@[j]);
                    } else if j == p {
                        assert(builders@[i] == old(builders)@[i]);
                    } else if i < p {
                        assert(builders@[i] == old(builders)@[i]);
                        assert(builders@[j] == old(builders)@[j - 1]);
                        assert(old(builders)@[i].0 < old(builders)@[p as int].0);
                    } else if i == p {
                        assert(builders@[j] == old(builders)@[j - 1]);
                        if j - 1 > p {
                            assert(old(builders)@[p as int].0 < old(builders)@[j - 1].0);
                        }
                    } else {
                        assert(builders@[i] == old(builders)@[i - 1]);
                        assert(builders@[j] == old(builders)@[j - 1]);
                    }
                }
            }
            Ok((p, rest))
        },
    }
}

/// Builder for leaf field types: it takes the field whose name ends at the
/// builder's own name, and produces that field's value.
#[derive(Debug)]
pub struct LeafBuilder<T>(pub Option<T>);

impl<T> LeafBuilder<T> {
    /// Whether the field with this remaining name suffix is the leaf itself:
    /// a leaf only takes an exact match, an empty suffix.
    pub fn accepts(suffix: &str) -> (r: bool)
        ensures
            r == (suffix@.len() == 0),
    {
        suffix.is_empty()
    }

    /// Records the value read from the field; a later field replaces it.
    pub fn store(&mut self, value: T)
        ensures
            final(self).0 == Some(value),
    {
        self.0 = Some(value);
    }
}

impl<T> MultipartBuilder for LeafBuilder<T> {
    type Target = T;

    open spec fn blank(&self) -> bool {
        self.0 is None
    }

    open spec fn consumed(&self) -> bool {
        self.0 is Some
    }

    open spec fn missing_at(&self, path: Seq<char>) -> Option<Seq<char>> {
        if self.0 is None {
            Some(path)
        } else {
            None
        }
    }

    open spec fn produces(&self, out: T) -> bool {
        self.0 == Some(out)
    }

    fn empty() -> (r: Self) {
        LeafBuilder(None)
    }

    fn finalize(self, path: &str) -> (r: Result<T, TypedMultipartError>) {
        match self.0 {
            Some(v) => Ok(v),
            None => Err(TypedMultipartError::MissingField { field_name: path.to_owned() }),
        }
    }

    fn was_consumed(&self) -> (r: bool) {
        self.0.is_some()
    }
}

} // verus!
