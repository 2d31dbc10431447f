//! Reading the index that follows a list field's name: `[n]`, `[]`, or none.
use vstd::prelude::*;
use vstd::string::*;
use vstd::utf8::encode_utf8;
use crate::text::{bytes_of, slice_between, decimal, digit_char};
use crate::number::{parse_usize, usize_text_value, unsigned_text_value, all_digits, digits_value, is_digit};

verus! {

/// Result of parsing a Vec suffix.
#[derive(Debug, Clone, Copy, PartialEq, Eq)]
pub enum VecIndex {
    /// Explicit numeric index like `[0]` or `[1]`
    Explicit(usize),
    /// Auto-append: `[]` or bare field name
    Auto,
}

/// Why an index suffix could not be read.
#[derive(Debug, Clone, PartialEq, Eq)]
pub enum IndexFormatError {
    /// The suffix starts with neither `[` nor `.`.
    UnexpectedSuffix { suffix: String },
    /// A `[` is never closed.
    MissingClosingBracket,
    /// The text between the brackets is not a `usize`.
    InvalidIndex { text: String },
}

impl IndexFormatError {
    /// The text of the message that describes the error.
    pub open spec fn message_spec(&self) -> Seq<char> {
        match self {
            IndexFormatError::UnexpectedSuffix { suffix } => "expected '[index]', '[]', or '.' but found '"@
                + suffix@ + "'"@,
            IndexFormatError::MissingClosingBracket => "missing closing bracket"@,
            IndexFormatError::InvalidIndex { text } => "'"@ + text@ + "' is not a valid array index"@,
        }
    }

    /// Describes the error.
    pub fn message(&self) -> (r: String)
        ensures
            r@ == self.message_spec(),
    {
        match self {
            IndexFormatError::UnexpectedSuffix { suffix } => {
                let mut s = String::from_str("expected '[index]', '[]', or '.' but found '");
                s.append(suffix.as_str());
                s.append("'");
                s
            },
            IndexFormatError::MissingClosingBracket => String::from_str("missing closing bracket"),
            IndexFormatError::InvalidIndex { text } => {
                let mut s = String::from_str("'");
                s.append(text.as_str());
                s.append("' is not a valid array index");
                s
            },
        }
    }
}

/// The first position at or after `from` where `s` holds the byte `b`.
pub open spec fn find_byte(s: Seq<u8>, b: u8, from: int) -> Option<int>
    decreases s.len() - from,
{
    if from < 0 || from >= s.len() {
        None
    } else if s[from] == b {
        Some(from)
    } else {
        find_byte(s, b, from + 1)
    }
}

/// What reading the index suffix `suffix` gives.
pub open spec fn vec_index_outcome<'a>(
    suffix: &'a str,
    r: Result<(VecIndex, &'a str), IndexFormatError>,
) -> bool {
    let b = bytes_of(suffix);
    if b.len() == 0 || b[0] == 46u8 {
        r matches Ok((VecIndex::Auto, rest)) && bytes_of(rest) == b
    } else if b[0] != 91u8 {
        r matches Err(IndexFormatError::UnexpectedSuffix { suffix: f }) && f@ == suffix@
    } else {
        match find_byte(b, 93u8, 1) {
            None => r matches Err(IndexFormatError::MissingClosingBracket),
            Some(p) => {
                let after = b.subrange(p + 1, b.len() as int);
                if p == 1 {
                    r matches Ok((VecIndex::Auto, rest)) && bytes_of(rest) == after
                } else {
                    match usize_text_value(b.subrange(1, p)) {
                        Some(v) => r matches Ok((VecIndex::Explicit(i), rest)) && i == v && bytes_of(
                            rest,
                        ) == after,
                        None => r matches Err(IndexFormatError::InvalidIndex { text }) && encode_utf8(
                            text@,
                        ) == b.subrange(1, p),
                    }
                }
            },
        }
    }
}

/// Parses a Vec index from the start of the suffix.
///
/// Supports multiple formats:
/// - `[n]` - explicit numeric index (e.g., `[0]`, `[1]`)
/// - `[]` - auto-append (empty brackets)
/// - Empty or starts with `.` - auto-append (bare field name or nested field)
///
/// Returns the index and the rest of the suffix after it.
pub fn parse_vec_index(suffix: &str) -> (r: Result<(VecIndex, &str), IndexFormatError>)
    ensures
        vec_index_outcome(suffix, r),
{
    let bytes = suffix.as_bytes();
    let len = bytes.len();
    if len == 0 || bytes[0] == 46u8 {
        return Ok((VecIndex::Auto, suffix));
    }
    if bytes[0] != 91u8 {
        return Err(IndexFormatError::UnexpectedSuffix { suffix: suffix.to_owned() });
    }
    let mut p: usize = 1;
    while p < len && bytes[p] != 93u8
        invariant
            bytes@ == bytes_of(suffix),
            len == bytes@.len(),
            1 <= p <= len,
            find_byte(bytes@, 93u8, 1) == find_byte(bytes@, 93u8, p as int),
        decreases len - p,
    {
        p = p + 1;
    }
    if p == len {
        return Err(IndexFormatError::MissingClosingBracket);
    }
    let idx_str = slice_between(suffix, 1, p);
    let rest = slice_between(suffix, p + 1, len);
    if p == 1 {
        return Ok((VecIndex::Auto, rest));
    }
    match parse_usize(idx_str.as_bytes()) {
        Some(v) => Ok((VecIndex::Explicit(v), rest)),
        None => Err(IndexFormatError::InvalidIndex { text: idx_str.to_owned() }),
    }
}


/// The bytes of the decimal notation of `n`.
pub open spec fn decimal_bytes(n: nat) -> Seq<u8> {
    decimal(n).map_values(|c: char| c as u8)
}

/// The decimal notation of `n` is one or more ASCII digits that spell `n`.
proof fn lemma_decimal_bytes(n: nat)
    ensures
        decimal_bytes(n).len() >= 1,
        all_digits(decimal_bytes(n)),
        digits_value(decimal_bytes(n)) == n,
    decreases n,
{
    if n < 10 {
        assert(decimal_bytes(n) =~= seq![(n + 48) as u8]);
        assert(decimal_bytes(n).drop_last() =~= Seq::<u8>::empty());
        assert(decimal_bytes(n).last() == (n + 48) as u8);
        assert(digits_value(Seq::<u8>::empty()) == 0);
    } else {
        lemma_decimal_bytes(n / 10);
        let c = digit_char(n % 10);
        assert(decimal(n) == decimal(n / 10).push(c));
        assert(decimal_bytes(n) =~= decimal_bytes(n / 10).push(c as u8));
        assert(decimal_bytes(n).drop_last() =~= decimal_bytes(n / 10));
        assert((c as u8) == (n % 10 + 48) as u8);
        assert(decimal_bytes(n).last() == (n % 10 + 48) as u8);
        assert(n == (n / 10) * 10 + n % 10);
    }
}

/// The first `]` at or after `from` is at `p` when `p` holds one and no
/// position from `from` up to `p` does.
proof fn lemma_find_byte_at(s: Seq<u8>, b: u8, from: int, p: int)
    requires
        0 <= from <= p < s.len(),
        s[p] == b,
        forall|j: int| from <= j < p ==> s[j] != b,
    ensures
        find_byte(s, b, from) == Some(p),
    decreases p - from,
{
    if from < p {
        lemma_find_byte_at(s, b, from + 1, p);
    }
}

/// The index that the path of a list element carries, `[n]` with `n` in
/// decimal notation, reads back as that index, and whatever follows it as
/// the rest of the name.
pub proof fn lemma_index_reads_back<'a>(
    suffix: &'a str,
    n: usize,
    tail: Seq<u8>,
    r: Result<(VecIndex, &'a str), IndexFormatError>,
)
    requires
        bytes_of(suffix) == seq![91u8] + decimal_bytes(n as nat) + seq![93u8] + tail,
        vec_index_outcome(suffix, r),
    ensures
        r matches Ok((VecIndex::Explicit(i), rest)) && i == n && bytes_of(rest) == tail,
{
    let b = bytes_of(suffix);
    let d = decimal_bytes(n as nat);
    lemma_decimal_bytes(n as nat);
    let p: int = 1 + d.len() as int;
    assert(b[0] == 91u8);
    assert(b[p] == 93u8);
    assert forall|j: int| 1 <= j < p implies b[j] != 93u8 by {
        assert(b[j] == d[j - 1]);
        assert(is_digit(d[j - 1]));
    }
    lemma_find_byte_at(b, 93u8, 1, p);
    assert(b.subrange(1, p) =~= d);
    assert(is_digit(d[0]));
    assert(unsigned_text_value(d) == Some(digits_value(d)));
    assert(b.subrange(p + 1, b.len() as int) =~= tail);
}

} // verus!
