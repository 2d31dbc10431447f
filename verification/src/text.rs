//! Byte-level helpers on UTF-8 text used by the field name parsers.
use vstd::prelude::*;
use vstd::utf8::*;
use vstd::string::*;

verus! {

broadcast use vstd::utf8::encode_utf8_valid_utf8;

/// The UTF-8 bytes of a string slice.
pub open spec fn bytes_of(s: &str) -> Seq<u8> {
    s.spec_bytes()
}

/// The bytes of a string slice are valid UTF-8.
pub proof fn lemma_bytes_valid(s: &str)
    ensures
        valid_utf8(bytes_of(s)),
{
}

/// In valid UTF-8, every position that holds a byte which is not a
/// continuation byte (and the end of the sequence) is a character boundary.
pub proof fn lemma_boundary_at_non_continuation(bytes: Seq<u8>, i: int)
    requires
        valid_utf8(bytes),
        0 <= i <= bytes.len(),
        i == bytes.len() || !is_continuation_byte(bytes[i]),
    ensures
        is_char_boundary(bytes, i),
    decreases bytes.len(),
{
    if i != 0 {
        let w = length_of_first_scalar(bytes);
        let tail = pop_first_scalar(bytes);
        assert(1 <= w <= 4);
        assert(w <= i) by {
            if i < w {
                assert(is_continuation_byte(bytes[i]));
            }
        }
        assert(tail.len() == bytes.len() - w);
        if i < bytes.len() {
            assert(tail[i - w] == bytes[i]);
        }
        lemma_boundary_at_non_continuation(tail, i - w);
    }
}

/// In valid UTF-8, the position just after a one-byte (ASCII) character is a
/// character boundary.
pub proof fn lemma_boundary_after_ascii(bytes: Seq<u8>, i: int)
    requires
        valid_utf8(bytes),
        1 <= i <= bytes.len(),
        bytes[i - 1] < 0x80,
    ensures
        is_char_boundary(bytes, i),
    decreases bytes.len(),
{
    let w = length_of_first_scalar(bytes);
    let tail = pop_first_scalar(bytes);
    assert(1 <= w <= 4);
    assert(w <= i) by {
        if i < w {
            assert(is_continuation_byte(bytes[i - 1]) || i - 1 == 0);
        }
    }
    assert(tail.len() == bytes.len() - w);
    if i > w {
        assert(tail[i - w - 1] == bytes[i - 1]);
        lemma_boundary_after_ascii(tail, i - w);
    } else {
        assert(valid_utf8(tail));
        assert(is_char_boundary(tail, 0));
    }
}

/// A position at which a slice may be cut: an end of the bytes, a position
/// holding an ASCII byte, or a position just after one.
pub open spec fn ascii_edge(bytes: Seq<u8>, p: int) -> bool {
    ||| p == 0
    ||| p == bytes.len()
    ||| (0 <= p < bytes.len() && bytes[p] < 0x80)
    ||| (1 <= p <= bytes.len() && bytes[p - 1] < 0x80)
}

/// Every ASCII edge of valid UTF-8 is a character boundary.
pub proof fn lemma_ascii_edge_is_boundary(bytes: Seq<u8>, p: int)
    requires
        valid_utf8(bytes),
        0 <= p <= bytes.len(),
        ascii_edge(bytes, p),
    ensures
        is_char_boundary(bytes, p),
{
    if p == 0 || p == bytes.len() || bytes[p] < 0x80 {
        lemma_boundary_at_non_continuation(bytes, p);
    } else {
        lemma_boundary_after_ascii(bytes, p);
    }
}

/// The sub-slice of `s` between byte positions `start`, a character
/// boundary of `s`, and `end`, an ASCII edge of `s`.
pub fn slice_between(s: &str, start: usize, end: usize) -> (r: &str)
    requires
        start <= end <= bytes_of(s).len(),
        ascii_edge(bytes_of(s), start as int) || is_char_boundary(bytes_of(s), start as int),
        ascii_edge(bytes_of(s), end as int),
    ensures
        bytes_of(r) == bytes_of(s).subrange(start as int, end as int),
{
    let ghost b = bytes_of(s);
    proof {
        if ascii_edge(b, start as int) {
            lemma_ascii_edge_is_boundary(b, start as int);
        }
    }
    let (_, tail) = s.split_at(start);
    let ghost t = bytes_of(tail);
    proof {
        vstd::utf8::valid_utf8_split(b, start as int);
        assert(t =~= b.subrange(start as int, b.len() as int));
        if end < b.len() {
            assert(t[end - start] == b[end as int]);
        }
        if end > start && end >= 1 {
            assert(t[end - start - 1] == b[end - 1]);
        }
        lemma_ascii_edge_is_boundary(t, end - start);
    }
    let (mid, _) = tail.split_at(end - start);
    assert(bytes_of(mid) =~= b.subrange(start as int, end as int));
    mid
}

/// Two slices hold the same characters exactly when they hold the same bytes.
pub proof fn lemma_bytes_eq_iff_chars_eq(a: &str, b: &str)
    ensures
        (bytes_of(a) == bytes_of(b)) == (a@ == b@),
{
    vstd::utf8::encode_utf8_decode_utf8(a@);
    vstd::utf8::encode_utf8_decode_utf8(b@);
}

/// Equality of two byte sequences, element by element.
pub fn bytes_equal(a: &[u8], b: &[u8]) -> (r: bool)
    ensures
        r == (a@ == b@),
{
    if a.len() != b.len() {
        return false;
    }
    let mut i: usize = 0;
    while i < a.len()
        invariant
            a@.len() == b@.len(),
            i <= a@.len(),
            forall|j: int| 0 <= j < i ==> a@[j] == b@[j],
        decreases a@.len() - i,
    {
        if a[i] != b[i] {
            return false;
        }
        i = i + 1;
    }
    assert(a@ =~= b@);
    true
}

/// Equality of two string slices by their characters.
pub fn str_equal(a: &str, b: &str) -> (r: bool)
    ensures
        r == (a@ == b@),
{
    proof {
        lemma_bytes_eq_iff_chars_eq(a, b);
    }
    bytes_equal(a.as_bytes(), b.as_bytes())
}

/// The ASCII digit for a value below ten.
pub open spec fn digit_char(d: nat) -> char {
    (d + 48) as char
}

/// The decimal notation of a natural number, without leading zeros.
pub open spec fn decimal(n: nat) -> Seq<char>
    decreases n,
{
    if n < 10 {
        seq![digit_char(n)]
    } else {
        decimal(n / 10).push(digit_char(n % 10))
    }
}

fn digit_text(d: usize) -> (r: &'static str)
    requires
        d < 10,
    ensures
        r@ =~= seq![digit_char(d as nat)],
{
    if d == 0 {
        proof { reveal_strlit("0"); }
        "0"
    } else if d == 1 {
        proof { reveal_strlit("1"); }
        "1"
    } else if d == 2 {
        proof { reveal_strlit("2"); }
        "2"
    } else if d == 3 {
        proof { reveal_strlit("3"); }
        "3"
    } else if d == 4 {
        proof { reveal_strlit("4"); }
        "4"
    } else if d == 5 {
        proof { reveal_strlit("5"); }
        "5"
    } else if d == 6 {
        proof { reveal_strlit("6"); }
        "6"
    } else if d == 7 {
        proof { reveal_strlit("7"); }
        "7"
    } else if d == 8 {
        proof { reveal_strlit("8"); }
        "8"
    } else {
        proof { reveal_strlit("9"); }
        "9"
    }
}

/// Writes a number in decimal notation.
pub fn decimal_string(n: usize) -> (r: String)
    ensures
        r@ == decimal(n as nat),
    decreases n,
{
    if n < 10 {
        String::from_str(digit_text(n))
    } else {
        let mut s = decimal_string(n / 10);
        s.append(digit_text(n % 10));
        s
    }
}

} // verus!
