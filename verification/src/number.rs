//! Decimal integer notation, as read by `str::parse` for Rust's integer types.
use vstd::prelude::*;

verus! {

/// True for the ASCII digits `0` to `9`.
pub open spec fn is_digit(b: u8) -> bool {
    48u8 <= b <= 57u8
}

/// True when every byte of `d` is an ASCII digit.
pub open spec fn all_digits(d: Seq<u8>) -> bool {
    forall|j: int| 0 <= j < d.len() ==> is_digit(#[trigger] d[j])
}

/// The number written by the ASCII digits `d`, most significant first.
pub open spec fn digits_value(d: Seq<u8>) -> nat
    decreases d.len(),
{
    if d.len() == 0 {
        0
    } else {
        digits_value(d.drop_last()) * 10 + (d.last() - 48) as nat
    }
}

/// The magnitude written by `s`: an optional `+`, then one or more digits.
/// This is the notation `str::parse` accepts for unsigned integers.
pub open spec fn unsigned_text_value(s: Seq<u8>) -> Option<nat> {
    let d = if s.len() > 0 && s[0] == 43u8 {
        s.drop_first()
    } else {
        s
    };
    if d.len() > 0 && all_digits(d) {
        Some(digits_value(d))
    } else {
        None
    }
}

/// The value of a prefix of digits is at most the value of them all.
pub proof fn lemma_digits_value_prefix_le(d: Seq<u8>, k: int)
    requires
        0 <= k <= d.len(),
        all_digits(d),
    ensures
        digits_value(d.subrange(0, k)) <= digits_value(d),
    decreases d.len(),
{
    if k < d.len() {
        assert(d.drop_last() =~= d.subrange(0, d.len() - 1));
        assert(d.subrange(0, k) =~= d.drop_last().subrange(0, k));
        lemma_digits_value_prefix_le(d.drop_last(), k);
    } else {
        assert(d.subrange(0, k) =~= d);
    }
}

/// The value of the digits `s[from..]`, when they are one or more ASCII
/// digits whose value fits in a `u128`.
pub fn digits_to_u128(s: &[u8], from: usize) -> (r: Option<u128>)
    requires
        from <= s@.len(),
    ensures
        ({
            let d = s@.subrange(from as int, s@.len() as int);
            r == if d.len() > 0 && all_digits(d) && digits_value(d) <= u128::MAX {
                Some(digits_value(d) as u128)
            } else {
                None::<u128>
            }
        }),
{
    let ghost d = s@.subrange(from as int, s@.len() as int);
    if from == s.len() {
        return None;
    }
    let mut acc: u128 = 0;
    let mut i: usize = from;
    assert(s@.subrange(from as int, from as int) =~= Seq::<u8>::empty());
    while i < s.len()
        invariant
            from <= i <= s@.len(),
            d == s@.subrange(from as int, s@.len() as int),
            all_digits(s@.subrange(from as int, i as int)),
            acc as nat == digits_value(s@.subrange(from as int, i as int)),
        decreases s@.len() - i,
    {
        let b = s[i];
        let ghost pre = s@.subrange(from as int, i as int);
        let ghost next = s@.subrange(from as int, i + 1);
        assert(next.drop_last() =~= pre);
        if b < 48u8 || b > 57u8 {
            assert(!is_digit(d[i - from]));
            return None;
        }
        assert(all_digits(next)) by {
            assert forall|j: int| 0 <= j < next.len() implies is_digit(#[trigger] next[j]) by {
                if j < pre.len() {
                    assert(next[j] == pre[j]);
                }
            }
        }
        let digit = (b - 48u8) as u128;
        let prod = acc.checked_mul(10);
        match prod {
            None => {
                proof {
                    if all_digits(d) {
                        assert(next =~= d.subrange(0, i + 1 - from));
                        lemma_digits_value_prefix_le(d, i + 1 - from);
                    }
                }
                return None;
            },
            Some(p) => {
                match p.checked_add(digit) {
                    None => {
                        proof {
                            if all_digits(d) {
                                assert(next =~= d.subrange(0, i + 1 - from));
                                lemma_digits_value_prefix_le(d, i + 1 - from);
                            }
                        }
                        return None;
                    },
                    Some(v) => {
                        acc = v;
                    },
                }
            },
        }
        i = i + 1;
    }
    assert(s@.subrange(from as int, i as int) =~= d);
    Some(acc)
}

/// The `usize` written by `s` in the notation of `str::parse::<usize>`, if
/// it is written that way and fits.
pub open spec fn usize_text_value(s: Seq<u8>) -> Option<usize> {
    match unsigned_text_value(s) {
        Some(v) => if v <= usize::MAX {
            Some(v as usize)
        } else {
            None
        },
        None => None,
    }
}

/// Reads a `usize` as `str::parse::<usize>` does: an optional `+`, then one
/// or more ASCII digits whose value fits.
pub fn parse_usize(s: &[u8]) -> (r: Option<usize>)
    ensures
        r == usize_text_value(s@),
{
    let from: usize = if s.len() > 0 && s[0] == 43u8 {
        1
    } else {
        0
    };
    assert(s@.subrange(from as int, s@.len() as int) =~= if s@.len() > 0 && s@[0] == 43u8 {
        s@.drop_first()
    } else {
        s@
    });
    match digits_to_u128(s, from) {
        Some(v) => {
            if v <= usize::MAX as u128 {
                Some(v as usize)
            } else {
                None
            }
        },
        None => {
            proof {
                let d = s@.subrange(from as int, s@.len() as int);
                if d.len() > 0 && all_digits(d) {
                    assert(digits_value(d) > u128::MAX);
                }
            }
            None
        },
    }
}

} // verus!
