//! Reading truth values from text, and the size limit on a field's chunks.
use vstd::prelude::*;
use vstd::string::*;
use crate::text::str_equal;
use crate::typed_multipart_error::TypedMultipartError;

verus! {

/// The lowercase form of the characters `s`, as `str::to_lowercase` computes
/// it (the Unicode lowercase mapping of each character).
pub uninterp spec fn lowercase(s: Seq<char>) -> Seq<char>;

/// True when every character of `s` is ASCII.
pub open spec fn all_ascii(s: Seq<char>) -> bool {
    forall|i: int| 0 <= i < s.len() ==> (s[i] as u32) < 128
}

/// The ASCII lowercase form of the characters `s`: `A` to `Z` become `a` to
/// `z`, and every other character stays as it is.
pub open spec fn ascii_lowercase(s: Seq<char>) -> Seq<char> {
    s.map_values(
        |c: char|
            if 'A' <= c && c <= 'Z' {
                ((c as u32) + 32) as char
            } else {
                c
            },
    )
}

/// Calls `str::to_lowercase`. Claimed: the result is the lowercase form of
/// the argument's characters, named `lowercase`, and on ASCII text that form
/// is the ASCII one (the Unicode lowercase mapping of an ASCII letter is its
/// ASCII lowercase letter). What the form is for other characters is left
/// unstated.
#[verifier::external_body]
fn to_lowercase(s: &str) -> (r: String)
    ensures
        r@ == lowercase(s@),
        all_ascii(s@) ==> r@ == ascii_lowercase(s@),
{
    s.to_lowercase()
}

/// The truth value that a lowercase word stands for: `y`, `yes`, `t`,
/// `true`, `on` and `1` stand for true; `n`, `no`, `f`, `false`, `off` and
/// `0` for false; any other word for none.
pub open spec fn truth_value(word: Seq<char>) -> Option<bool> {
    if word == "y"@ || word == "yes"@ || word == "t"@ || word == "true"@ || word == "on"@ || word
        == "1"@ {
        Some(true)
    } else if word == "n"@ || word == "no"@ || word == "f"@ || word == "false"@ || word == "off"@
        || word == "0"@ {
        Some(false)
    } else {
        None
    }
}

/// The truth value of a word that is already in lowercase.
pub fn truth_of_lowercase(word: &str) -> (r: Option<bool>)
    ensures
        r == truth_value(word@),
{
    if str_equal(word, "y") || str_equal(word, "yes") || str_equal(word, "t") || str_equal(
        word,
        "true",
    ) || str_equal(word, "on") || str_equal(word, "1") {
        Some(true)
    } else if str_equal(word, "n") || str_equal(word, "no") || str_equal(word, "f") || str_equal(
        word,
        "false",
    ) || str_equal(word, "off") || str_equal(word, "0") {
        Some(false)
    } else {
        None
    }
}

/// Converts a string literal representation of truth to true or false,
/// ignoring case.
pub fn str_to_bool(val: &str) -> (r: Option<bool>)
    ensures
        r == truth_value(lowercase(val@)),
        all_ascii(val@) ==> r == truth_value(ascii_lowercase(val@)),
{
    let pat = to_lowercase(val);
    truth_of_lowercase(pat.as_str())
}

/// Counts the bytes of a field as its chunks arrive, and rejects the field
/// once they exceed its limit.
pub struct SizeLimiter {
    size_bytes: usize,
    limit_bytes: Option<usize>,
    field_name: String,
}

impl SizeLimiter {
    /// The number of bytes counted so far.
    pub closed spec fn size(&self) -> nat {
        self.size_bytes as nat
    }

    /// The limit, if any.
    pub closed spec fn limit(&self) -> Option<usize> {
        self.limit_bytes
    }

    /// The name reported when the limit is exceeded.
    pub closed spec fn name(&self) -> Seq<char> {
        self.field_name@
    }

    /// True when `next` is the counter `prev` after it counted a chunk of
    /// `len` bytes, and `accepted` says whether the chunk was let through:
    /// it is, unless the new total exceeds the limit.
    pub open spec fn counts(prev: SizeLimiter, len: nat, accepted: bool, next: SizeLimiter) -> bool {
        &&& next.size() == prev.size() + len
        &&& next.limit() == prev.limit()
        &&& accepted == !(prev.limit() is Some && prev.size() + len > prev.limit()->0)
    }

    /// A counter for a field named `field_name` that has received no bytes.
    pub fn new(limit_bytes: Option<usize>, field_name: String) -> (r: Self)
        ensures
            r.size() == 0,
            r.limit() == limit_bytes,
            r.name() == field_name@,
    {
        SizeLimiter { size_bytes: 0, limit_bytes, field_name }
    }

    /// The number of bytes counted so far.
    pub fn counted(&self) -> (r: usize)
        ensures
            r == self.size(),
    {
        self.size_bytes
    }

    /// Counts a chunk of `chunk_len` bytes. Once the total exceeds the limit
    /// the field is rejected as too large; the field's name is handed to that
    /// error and not kept.
    pub fn check_chunk(&mut self, chunk_len: usize) -> (r: Result<(), TypedMultipartError>)
        requires
            old(self).size() + chunk_len <= usize::MAX,
        ensures
            SizeLimiter::counts(*old(self), chunk_len as nat, r is Ok, *final(self)),
            match old(self).limit() {
                Some(limit) if old(self).size() + chunk_len > limit => {
                    &&& r matches Err(TypedMultipartError::FieldTooLarge { field_name, limit_bytes })
                        && field_name@ == old(self).name() && limit_bytes == limit
                    &&& final(self).name() == Seq::<char>::empty()
                },
                _ => r is Ok && final(self).name() == old(self).name(),
            },
    {
        self.size_bytes = self.size_bytes + chunk_len;
        match self.limit_bytes {
            Some(limit_bytes) => {
                if self.size_bytes > limit_bytes {
                    let mut field_name = String::new();
                    std::mem::swap(&mut field_name, &mut self.field_name);
                    return Err(TypedMultipartError::FieldTooLarge { field_name, limit_bytes });
                }
            },
            None => {},
        }
        Ok(())
    }
}


/// The total of the chunk lengths `c`.
pub open spec fn total(c: Seq<usize>) -> nat
    decreases c.len(),
{
    if c.len() == 0 {
        0
    } else {
        total(c.drop_last()) + c.last() as nat
    }
}

/// True when `chain[i + 1]` is the counter `chain[i]` after it counted the
/// chunk `c[i]`, with `accepted[i]` saying whether it let the chunk through.
pub open spec fn counted_in_turn(chain: Seq<SizeLimiter>, c: Seq<usize>, accepted: Seq<bool>) -> bool {
    &&& chain.len() == c.len() + 1
    &&& accepted.len() == c.len()
    &&& forall|i: int|
        0 <= i < c.len() ==> SizeLimiter::counts(chain[i], #[trigger] c[i] as nat, accepted[i], chain[i + 1])
}

proof fn lemma_counted_prefix(chain: Seq<SizeLimiter>, c: Seq<usize>, accepted: Seq<bool>, k: int)
    requires
        counted_in_turn(chain, c, accepted),
        chain[0].size() == 0,
        0 <= k <= c.len(),
    ensures
        chain[k].size() == total(c.take(k)),
        chain[k].limit() == chain[0].limit(),
    decreases k,
{
    if k > 0 {
        lemma_counted_prefix(chain, c, accepted, k - 1);
        assert(SizeLimiter::counts(chain[k - 1], c[k - 1] as nat, accepted[k - 1], chain[k]));
        assert(c.take(k).drop_last() =~= c.take(k - 1));
    }
}

/// The limit applies to a field as a whole: counting its chunks in turn from
/// a new counter, the count ends at their total, and a chunk is refused
/// exactly when the total of the chunks up to it exceeds the limit.
pub proof fn lemma_limit_applies_to_the_total(
    chain: Seq<SizeLimiter>,
    c: Seq<usize>,
    accepted: Seq<bool>,
)
    requires
        counted_in_turn(chain, c, accepted),
        chain[0].size() == 0,
    ensures
        chain.last().size() == total(c),
        forall|i: int|
            0 <= i < c.len() ==> (#[trigger] accepted[i] <==> !(chain[0].limit() is Some && total(
                c.take(i + 1),
            ) > chain[0].limit()->0)),
{
    lemma_counted_prefix(chain, c, accepted, c.len() as int);
    assert(c.take(c.len() as int) =~= c);
    assert forall|i: int| 0 <= i < c.len() implies (#[trigger] accepted[i] <==> !(
    chain[0].limit() is Some && total(c.take(i + 1)) > chain[0].limit()->0)) by {
        lemma_counted_prefix(chain, c, accepted, i);
        lemma_counted_prefix(chain, c, accepted, i + 1);
        assert(SizeLimiter::counts(chain[i], c[i] as nat, accepted[i], chain[i + 1]));
    }
}


/// The total of a prefix of chunk lengths is at most the total of all.
proof fn lemma_total_prefix(c: Seq<usize>, k: int)
    requires
        0 <= k <= c.len(),
    ensures
        total(c.take(k)) <= total(c),
    decreases c.len(),
{
    if k < c.len() {
        assert(c.take(k) =~= c.drop_last().take(k));
        lemma_total_prefix(c.drop_last(), k);
    } else {
        assert(c.take(k) =~= c);
    }
}

/// The bytes of the chunks `c`, one after the other.
pub open spec fn flatten(c: Seq<Seq<u8>>) -> Seq<u8>
    decreases c.len(),
{
    if c.len() == 0 {
        seq![]
    } else {
        flatten(c.drop_last()) + c.last()
    }
}

/// The lengths of the chunks `c`.
pub open spec fn lengths(c: Seq<Seq<u8>>) -> Seq<usize> {
    c.map_values(|x: Seq<u8>| x.len() as usize)
}

/// A field within its limit reaches its conversion whole: when its chunks are
/// counted in turn from a new counter, and each chunk let through is appended
/// to the bytes gathered so far (as `append_chunk` does), a field whose
/// chunks total no more than its limit, or that has no limit, has every chunk
/// let through, and the bytes gathered are its chunks in order.
pub proof fn lemma_within_limit_passes_through(
    chain: Seq<SizeLimiter>,
    c: Seq<Seq<u8>>,
    accepted: Seq<bool>,
    gathered: Seq<Seq<u8>>,
)
    requires
        forall|i: int| 0 <= i < c.len() ==> #[trigger] c[i].len() <= usize::MAX,
        counted_in_turn(chain, lengths(c), accepted),
        chain[0].size() == 0,
        chain[0].limit() matches Some(l) ==> total(lengths(c)) <= l,
        gathered.len() == c.len() + 1,
        gathered[0] == Seq::<u8>::empty(),
        forall|i: int|
            0 <= i < c.len() ==> (#[trigger] accepted[i] ==> gathered[i + 1] == gathered[i] + c[i]),
    ensures
        forall|i: int| 0 <= i < c.len() ==> #[trigger] accepted[i],
        gathered.last() == flatten(c),
{
    let n = c.len() as int;
    lemma_limit_applies_to_the_total(chain, lengths(c), accepted);
    assert forall|i: int| 0 <= i < n implies #[trigger] accepted[i] by {
        lemma_total_prefix(lengths(c), i + 1);
    }
    lemma_gathered_prefix(c, accepted, gathered, n);
    assert(c.take(n) =~= c);
}

proof fn lemma_gathered_prefix(c: Seq<Seq<u8>>, accepted: Seq<bool>, gathered: Seq<Seq<u8>>, k: int)
    requires
        gathered.len() == c.len() + 1,
        accepted.len() == c.len(),
        gathered[0] == Seq::<u8>::empty(),
        forall|i: int| 0 <= i < c.len() ==> #[trigger] accepted[i],
        forall|i: int|
            0 <= i < c.len() ==> (#[trigger] accepted[i] ==> gathered[i + 1] == gathered[i] + c[i]),
        0 <= k <= c.len(),
    ensures
        gathered[k] == flatten(c.take(k)),
    decreases k,
{
    if k == 0 {
        assert(flatten(c.take(0)) =~= Seq::<u8>::empty()) by {
            assert(c.take(0).len() == 0);
        }
    } else {
        lemma_gathered_prefix(c, accepted, gathered, k - 1);
        assert(accepted[k - 1]);
        assert(c.take(k).drop_last() =~= c.take(k - 1));
        assert(c.take(k).last() == c[k - 1]);
    }
}

} // verus!
