//! What the field builders promise over a whole request: which of several
//! occurrences of a field is kept, and what an absent field becomes.
use vstd::prelude::*;
use crate::field_builder::{DefaultBuilder, FieldBuilder, RequiredBuilder};
use crate::multipart_builder::{MultipartBuilder, index_sorted, holds_index, placed};

verus! {

/// True when `chain[i + 1]` is the builder `chain[i]` after it received
/// `values[i]`, for every value in turn, starting from a blank builder.
pub open spec fn fed_from_blank<B: FieldBuilder>(chain: Seq<B>, values: Seq<B::Value>) -> bool {
    &&& chain.len() == values.len() + 1
    &&& chain[0].blank()
    &&& forall|i: int|
        0 <= i < values.len() ==> B::receives(chain[i], #[trigger] values[i], chain[i + 1])
}

/// Of several occurrences of a required field, the last one is kept: a
/// builder fed one or more values produces the last of them, and nothing else.
pub proof fn lemma_required_keeps_last<T>(chain: Seq<RequiredBuilder<T>>, values: Seq<T>)
    requires
        values.len() > 0,
        fed_from_blank(chain, values),
    ensures
        chain.last().complete(),
        forall|out: T| chain.last().produces(out) <==> out == values.last(),
{
    let n = values.len() as int;
    assert(RequiredBuilder::receives(chain[n - 1], values[n - 1], chain[n]));
}

/// An optional field keeps the last of several occurrences: a builder fed
/// one or more values produces `Some` of the last of them, and nothing else.
pub proof fn lemma_optional_keeps_last<T>(chain: Seq<Option<RequiredBuilder<T>>>, values: Seq<T>)
    requires
        values.len() > 0,
        fed_from_blank(chain, values),
    ensures
        chain.last().complete(),
        forall|out: Option<T>| chain.last().produces(out) <==> out == Some(values.last()),
{
    let n = values.len() as int;
    assert(Option::<RequiredBuilder<T>>::receives(chain[n - 1], values[n - 1], chain[n]));
    match chain[n - 1] {
        Some(p) => {},
        None => {
            let e = choose|e: RequiredBuilder<T>|
                e.blank() && RequiredBuilder::receives(e, values[n - 1], chain[n]->Some_0);
        },
    }
}

/// A required field that never arrived cannot be produced: finalizing its
/// builder reports the field as missing.
pub proof fn lemma_required_absent_is_missing<T>(b: RequiredBuilder<T>)
    requires
        b.blank(),
    ensures
        !b.complete(),
{
}

/// An optional field that never arrived is `None`.
pub proof fn lemma_optional_absent_is_none<B: FieldBuilder>(b: Option<B>)
    requires
        b.blank(),
    ensures
        b.complete(),
        forall|out: Option<B::Output>| b.produces(out) <==> out is None,
{
}

/// A list field that never arrived is the empty list.
pub proof fn lemma_list_absent_is_empty<B: FieldBuilder>(b: Vec<B>)
    requires
        b.blank(),
    ensures
        b.complete(),
        forall|out: Vec<B::Output>| b.produces(out) <==> out@.len() == 0,
{
}

/// A field with a default that never arrived takes the type's default value.
pub proof fn lemma_default_when_absent<T: Default>(b: DefaultBuilder<T>)
    requires
        b.blank(),
    ensures
        b.complete(),
        forall|out: T| b.produces(out) <==> call_ensures(T::default, (), out),
{
}

/// A field with a default that arrived takes the last value it was given.
pub proof fn lemma_default_keeps_last<T: Default>(chain: Seq<DefaultBuilder<T>>, values: Seq<T>)
    requires
        values.len() > 0,
        fed_from_blank(chain, values),
    ensures
        chain.last().complete(),
        forall|out: T| chain.last().produces(out) <==> out == values.last(),
{
    let n = values.len() as int;
    assert(DefaultBuilder::receives(chain[n - 1], values[n - 1], chain[n]));
}

/// After `k` values, a list builder holds one element for each, in the order
/// the values arrived, each holding its value.
proof fn lemma_list_prefix<T>(chain: Seq<Vec<RequiredBuilder<T>>>, values: Seq<T>, k: int)
    requires
        fed_from_blank(chain, values),
        0 <= k <= values.len(),
    ensures
        chain[k]@.len() == k,
        forall|i: int| 0 <= i < k ==> (#[trigger] chain[k]@[i]).0 == Some(values[i]),
    decreases k,
{
    if k > 0 {
        lemma_list_prefix(chain, values, k - 1);
        assert(Vec::<RequiredBuilder<T>>::receives(chain[k - 1], values[k - 1], chain[k]));
        let e = choose|e: RequiredBuilder<T>|
            e.blank() && RequiredBuilder::receives(e, values[k - 1], chain[k]@.last());
        assert forall|i: int| 0 <= i < k implies (#[trigger] chain[k]@[i]).0 == Some(values[i]) by {
            if i < k - 1 {
                assert(chain[k]@.drop_last()[i] == chain[k]@[i]);
            }
        }
    }
}

/// A list field keeps every occurrence, in the order they arrived.
pub proof fn lemma_list_keeps_all_in_order<T>(chain: Seq<Vec<RequiredBuilder<T>>>, values: Seq<T>)
    requires
        fed_from_blank(chain, values),
    ensures
        chain.last().complete(),
        forall|out: Vec<T>| chain.last().produces(out) <==> out@ == values,
{
    let n = values.len() as int;
    lemma_list_prefix(chain, values, n);
    assert forall|out: Vec<T>| chain.last().produces(out) <==> out@ == values by {
        if chain.last().produces(out) {
            assert forall|i: int| 0 <= i < n implies out@[i] == values[i] by {
                assert(chain[n]@[i].0 == Some(values[i]));
                assert(chain.last()@[i].produces(out@[i]));
            }
            assert(out@ =~= values);
        }
        if out@ == values {
            assert forall|i: int| 0 <= i < n implies #[trigger] chain.last()@[i].produces(out@[i]) by {
                assert(chain[n]@[i].0 == Some(values[i]));
            }
        }
    }
}

/// An optional nested value for which no field arrived is `None`, with
/// nothing missing under it.
pub proof fn lemma_optional_nested_absent_is_none<B: MultipartBuilder>(b: Option<B>, path: Seq<char>)
    requires
        b.blank(),
    ensures
        !b.consumed(),
        b.missing_at(path) is None,
        forall|out: Option<B::Target>| b.produces(out) <==> out is None,
{
}

/// The indices of a list's elements are exactly the indices its fields were
/// sent with, whatever their order and gaps, and they are kept sorted: a
/// list that starts empty and receives, one after the other, fields for the
/// elements with indices `keys` holds an element with index `k` exactly when
/// `k` is one of `keys`.
pub proof fn lemma_list_indices_as_sent<B: MultipartBuilder>(
    chain: Seq<Seq<(usize, B)>>,
    keys: Seq<int>,
    positions: Seq<int>,
)
    requires
        chain.len() == keys.len() + 1,
        positions.len() == keys.len(),
        chain[0].len() == 0,
        forall|i: int|
            0 <= i < keys.len() ==> placed(chain[i], #[trigger] keys[i], positions[i], chain[i + 1]),
    ensures
        index_sorted(chain.last()),
        forall|k: int| holds_index(chain.last(), k) <==> keys.contains(k),
{
    lemma_list_indices_prefix(chain, keys, positions, keys.len() as int);
    assert(keys.take(keys.len() as int) =~= keys);
    if keys.len() > 0 {
        assert(placed(chain[keys.len() - 1], keys[keys.len() - 1], positions[keys.len() - 1], chain[keys.len() as int]));
    } else {
        assert(index_sorted(chain[0]));
    }
}

proof fn lemma_list_indices_prefix<B: MultipartBuilder>(
    chain: Seq<Seq<(usize, B)>>,
    keys: Seq<int>,
    positions: Seq<int>,
    m: int,
)
    requires
        chain.len() == keys.len() + 1,
        positions.len() == keys.len(),
        chain[0].len() == 0,
        forall|i: int|
            0 <= i < keys.len() ==> placed(chain[i], #[trigger] keys[i], positions[i], chain[i + 1]),
        0 <= m <= keys.len(),
    ensures
        forall|k: int| holds_index(chain[m], k) <==> keys.take(m).contains(k),
    decreases m,
{
    if m == 0 {
        assert forall|k: int| holds_index(chain[0], k) <==> keys.take(0).contains(k) by {
            assert(keys.take(0) =~= Seq::<int>::empty());
        }
    } else {
        lemma_list_indices_prefix(chain, keys, positions, m - 1);
        let prev = chain[m - 1];
        let next = chain[m];
        let k = keys[m - 1];
        let p = positions[m - 1];
        assert(placed(prev, k, p, next));
        assert(keys.take(m) =~= keys.take(m - 1).push(k));
        assert forall|x: int| holds_index(next, x) <==> keys.take(m).contains(x) by {
            assert(keys.take(m).contains(x) <==> (keys.take(m - 1).contains(x) || x == k)) by {
                if keys.take(m).contains(x) {
                    let q = choose|q: int| 0 <= q < keys.take(m).len() && #[trigger] keys.take(m)[q] == x;
                    if q < m - 1 {
                        assert(keys.take(m - 1)[q] == x);
                    }
                }
                if keys.take(m - 1).contains(x) {
                    let q = choose|q: int| 0 <= q < keys.take(m - 1).len() && #[trigger] keys.take(m - 1)[q] == x;
                    assert(keys.take(m)[q] == x);
                }
                if x == k {
                    assert(keys.take(m)[m - 1] == x);
                }
            }
            if !holds_index(prev, k) {
                if holds_index(next, x) {
                    let q = choose|q: int| 0 <= q < next.len() && #[trigger] next[q].0 == x;
                    if q < p {
                        assert(next.remove(p)[q] == next[q]);
                        assert(prev[q].0 == x);
                    } else if q > p {
                        assert(next.remove(p)[q - 1] == next[q]);
                        assert(prev[q - 1].0 == x);
                    }
                }
                if holds_index(prev, x) {
                    let q = choose|q: int| 0 <= q < prev.len() && #[trigger] prev[q].0 == x;
                    if q < p {
                        assert(next.remove(p)[q] == next[q]);
                        assert(next[q].0 == x);
                    } else {
                        assert(next.remove(p)[q] == next[q + 1]);
                        assert(next[q + 1].0 == x);
                    }
                }
            } else {
                if x == k {
                    assert(next[p].0 == x);
                }
            }
        }
    }
}

} // verus!
