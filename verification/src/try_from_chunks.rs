//! Reading a field's value from the bytes that arrive for it: text, integers,
//! truth values, characters, UUIDs, dates and decimals.
use vstd::prelude::*;
use vstd::string::*;
use vstd::utf8::{valid_utf8, encode_utf8};
use crate::field_data::{get_field_name, reported_name};
use crate::number::{is_digit, all_digits, digits_value, lemma_digits_value_prefix_le};
use crate::text::{bytes_of, str_equal};
use chrono::Datelike;
use crate::notation::{date_text, instant_text, decimal_text};
use crate::typed_multipart_error::TypedMultipartError;

verus! {

/// Appends one chunk of a field's data to the bytes gathered so far.
pub fn append_chunk(bytes: &mut Vec<u8>, chunk: &[u8])
    ensures
        final(bytes)@ == old(bytes)@ + chunk@,
{
    let mut i: usize = 0;
    while i < chunk.len()
        invariant
            i <= chunk@.len(),
            bytes@ == old(bytes)@ + chunk@.subrange(0, i as int),
        decreases chunk@.len() - i,
    {
        bytes.push(chunk[i]);
        i = i + 1;
        assert(bytes@ =~= old(bytes)@ + chunk@.subrange(0, i as int));
    }
    assert(chunk@.subrange(0, i as int) =~= chunk@);
}

/// What `String::from_utf8` reports, as text, of bytes that are not valid
/// UTF-8: where the valid prefix ends and how long the bad sequence is.
pub uninterp spec fn utf8_error_text(bytes: Seq<u8>) -> Seq<char>;

/// Calls `String::from_utf8`. Claimed, as its documentation says: the bytes
/// become a string exactly when they are valid UTF-8, and the string is the one
/// they encode; otherwise the error's text is a function of the bytes alone.
#[verifier::external_body]
fn utf8_to_string(bytes: Vec<u8>) -> (r: Result<String, String>)
    ensures
        match r {
            Ok(s) => valid_utf8(bytes@) && encode_utf8(s@) == bytes@,
            Err(e) => !valid_utf8(bytes@) && e@ == utf8_error_text(bytes@),
        },
{
    match String::from_utf8(bytes) {
        Ok(s) => Ok(s),
        Err(e) => Err(e.to_string()),
    }
}

/// True when a conversion of the field named `name` to the type called
/// `wanted` failed because its contents are not of that type, with the reason
/// `reason`.
pub open spec fn wrong_type<T>(
    r: Result<T, TypedMultipartError>,
    name: Option<String>,
    wanted: Seq<char>,
    reason: Seq<char>,
) -> bool {
    r matches Err(TypedMultipartError::WrongFieldType { field_name, wanted_type, source })
        && field_name@ == reported_name(name) && wanted_type@ == wanted && source@ == reason
}

fn wrong_type_error(name: &Option<String>, wanted: &str, source: String) -> (r:
    TypedMultipartError)
    ensures
        wrong_type(Err::<(), TypedMultipartError>(r), *name, wanted@, source@),
{
    TypedMultipartError::WrongFieldType {
        field_name: get_field_name(name),
        wanted_type: wanted.to_string(),
        source,
    }
}

/// Reads a field's bytes as text: they must be valid UTF-8.
pub fn string_from_bytes(name: &Option<String>, bytes: Vec<u8>) -> (r: Result<
    String,
    TypedMultipartError,
>)
    ensures
        valid_utf8(bytes@) ==> (r matches Ok(s) && encode_utf8(s@) == bytes@),
        !valid_utf8(bytes@) ==> wrong_type(
            r,
            *name,
            "alloc::string::String"@,
            utf8_error_text(bytes@),
        ),
{
    match utf8_to_string(bytes) {
        Ok(s) => Ok(s),
        Err(reason) => Err(wrong_type_error(name, "alloc::string::String", reason)),
    }
}

/// Why a text is not an integer of a given type, as `str::parse` reports it.
#[derive(Debug, Clone, Copy, PartialEq, Eq)]
pub enum IntFault {
    /// The text is empty.
    Empty,
    /// A byte that is not a digit (or a lone sign).
    InvalidDigit,
    /// The value is above the type's maximum.
    PosOverflow,
    /// The value is below the type's minimum.
    NegOverflow,
}

impl IntFault {
    /// The text with which `str::parse` describes the fault.
    pub open spec fn message_spec(self) -> Seq<char> {
        match self {
            IntFault::Empty => "cannot parse integer from empty string"@,
            IntFault::InvalidDigit => "invalid digit found in string"@,
            IntFault::PosOverflow => "number too large to fit in target type"@,
            IntFault::NegOverflow => "number too small to fit in target type"@,
        }
    }

    /// Describes the fault.
    pub fn message(self) -> (r: String)
        ensures
            r@ == self.message_spec(),
    {
        match self {
            IntFault::Empty => String::from_str("cannot parse integer from empty string"),
            IntFault::InvalidDigit => String::from_str("invalid digit found in string"),
            IntFault::PosOverflow => String::from_str("number too large to fit in target type"),
            IntFault::NegOverflow => String::from_str("number too small to fit in target type"),
        }
    }
}

/// Reads the digits `d[i..]` onto the magnitude `acc`, left to right: the
/// first byte that is not a digit is an invalid digit, and the first digit
/// that takes the magnitude above `limit` an overflow (below the minimum
/// when `negative`).
pub open spec fn digits_scan(d: Seq<u8>, limit: nat, negative: bool, acc: nat, i: nat) -> Result<
    nat,
    IntFault,
>
    decreases d.len() - i,
{
    if i >= d.len() {
        Ok(acc)
    } else if !is_digit(d[i as int]) {
        Err(IntFault::InvalidDigit)
    } else if acc * 10 + (d[i as int] - 48) > limit {
        Err(
            if negative {
                IntFault::NegOverflow
            } else {
                IntFault::PosOverflow
            },
        )
    } else {
        digits_scan(d, limit, negative, (acc * 10 + (d[i as int] - 48)) as nat, i + 1)
    }
}

/// The integer that `str::parse` reads from the bytes `s` for a type whose
/// values range from `-max_neg` to `max_pos` (a sign `-` is only read for a
/// `signed` type; a lone sign is an invalid digit).
pub open spec fn int_parse(s: Seq<u8>, signed: bool, max_pos: nat, max_neg: nat) -> Result<
    int,
    IntFault,
> {
    if s.len() == 0 {
        Err(IntFault::Empty)
    } else if s.len() == 1 && (s[0] == 43u8 || s[0] == 45u8) {
        Err(IntFault::InvalidDigit)
    } else {
        let negative = signed && s[0] == 45u8;
        let d = if s[0] == 43u8 || negative {
            s.drop_first()
        } else {
            s
        };
        match digits_scan(d, if negative { max_neg } else { max_pos }, negative, 0, 0) {
            Ok(m) => Ok(
                if negative {
                    -(m as int)
                } else {
                    m as int
                },
            ),
            Err(e) => Err(e),
        }
    }
}

/// Reading the digits of `d` from position `k` on, with the value of those
/// before as the magnitude so far, ends at the value of them all, when that
/// value is within the limit.
proof fn lemma_digits_scan_reads(d: Seq<u8>, limit: nat, negative: bool, k: int)
    requires
        all_digits(d),
        digits_value(d) <= limit,
        0 <= k <= d.len(),
    ensures
        digits_scan(d, limit, negative, digits_value(d.take(k)), k as nat) == Ok::<nat, IntFault>(
            digits_value(d),
        ),
    decreases d.len() - k,
{
    if k < d.len() {
        assert(d.take(k + 1).drop_last() =~= d.take(k));
        assert(d.take(k + 1).last() == d[k]);
        assert(d.take(k + 1) =~= d.subrange(0, k + 1));
        lemma_digits_value_prefix_le(d, k + 1);
        assert(is_digit(d[k]));
        lemma_digits_scan_reads(d, limit, negative, k + 1);
    } else {
        assert(d.take(k) =~= d);
    }
}

/// Integer text reads as the number it writes: one or more ASCII digits,
/// alone or after a `+`, read as their value when it is at most `max_pos`;
/// for a signed type, the same digits after a `-` read as the negated value
/// when that value is at most `max_neg`. So `0`, `00` and `-0` read as 0.
pub proof fn lemma_int_parse_reads_decimal(s: Seq<u8>, signed: bool, max_pos: nat, max_neg: nat)
    ensures
        s.len() > 0 && all_digits(s) && digits_value(s) <= max_pos ==> int_parse(
            s,
            signed,
            max_pos,
            max_neg,
        ) == Ok::<int, IntFault>(digits_value(s) as int),
        s.len() > 1 && s[0] == 43u8 && all_digits(s.drop_first()) && digits_value(s.drop_first())
            <= max_pos ==> int_parse(s, signed, max_pos, max_neg) == Ok::<int, IntFault>(
            digits_value(s.drop_first()) as int,
        ),
        signed && s.len() > 1 && s[0] == 45u8 && all_digits(s.drop_first()) && digits_value(
            s.drop_first(),
        ) <= max_neg ==> int_parse(s, signed, max_pos, max_neg) == Ok::<int, IntFault>(
            -(digits_value(s.drop_first()) as int),
        ),
{
    if s.len() > 0 && all_digits(s) && digits_value(s) <= max_pos {
        assert(is_digit(s[0]));
        assert(s.take(0) =~= Seq::<u8>::empty());
        lemma_digits_scan_reads(s, max_pos, false, 0);
    }
    if s.len() > 1 && s[0] == 43u8 && all_digits(s.drop_first()) && digits_value(s.drop_first())
        <= max_pos {
        assert(s.drop_first().take(0) =~= Seq::<u8>::empty());
        lemma_digits_scan_reads(s.drop_first(), max_pos, false, 0);
    }
    if signed && s.len() > 1 && s[0] == 45u8 && all_digits(s.drop_first()) && digits_value(
        s.drop_first(),
    ) <= max_neg {
        assert(s.drop_first().take(0) =~= Seq::<u8>::empty());
        lemma_digits_scan_reads(s.drop_first(), max_neg, true, 0);
    }
}

/// Reads an integer's sign and magnitude from `s`, as `str::parse` does for a
/// type whose values range from `-max_neg` to `max_pos`.
fn parse_int_parts(s: &[u8], signed: bool, max_pos: u128, max_neg: u128) -> (r: Result<
    (bool, u128),
    IntFault,
>)
    ensures
        match int_parse(s@, signed, max_pos as nat, max_neg as nat) {
            Ok(v) => r matches Ok((negative, m)) && v == if negative {
                -(m as int)
            } else {
                m as int
            } && m <= if negative {
                max_neg
            } else {
                max_pos
            },
            Err(e) => r == Err::<(bool, u128), IntFault>(e),
        },
{
    let len = s.len();
    if len == 0 {
        return Err(IntFault::Empty);
    }
    if len == 1 && (s[0] == 43u8 || s[0] == 45u8) {
        return Err(IntFault::InvalidDigit);
    }
    let negative = signed && s[0] == 45u8;
    let from: usize = if s[0] == 43u8 || negative {
        1
    } else {
        0
    };
    let limit = if negative {
        max_neg
    } else {
        max_pos
    };
    let ghost d = if s@[0] == 43u8 || negative {
        s@.drop_first()
    } else {
        s@
    };
    assert(d =~= s@.subrange(from as int, len as int));
    let mut acc: u128 = 0;
    let mut i: usize = from;
    while i < len
        invariant
            from <= i <= len,
            len == s@.len(),
            len > 0,
            !(len == 1 && (s@[0] == 43u8 || s@[0] == 45u8)),
            negative == (signed && s@[0] == 45u8),
            d == (if s@[0] == 43u8 || negative {
                s@.drop_first()
            } else {
                s@
            }),
            limit == (if negative {
                max_neg
            } else {
                max_pos
            }),
            d == s@.subrange(from as int, len as int),
            acc <= limit,
            digits_scan(d, limit as nat, negative, 0, 0) == digits_scan(
                d,
                limit as nat,
                negative,
                acc as nat,
                (i - from) as nat,
            ),
        decreases len - i,
    {
        let b = s[i];
        assert(d[(i - from) as int] == b);
        if b < 48u8 || b > 57u8 {
            assert(digits_scan(d, limit as nat, negative, acc as nat, (i - from) as nat) == Err::<
                nat,
                IntFault,
            >(IntFault::InvalidDigit));
            return Err(IntFault::InvalidDigit);
        }
        let digit = (b - 48u8) as u128;
        if digit > limit || acc > (limit - digit) / 10 {
            assert(acc * 10 + digit > limit) by (nonlinear_arith)
                requires
                    acc > (limit - digit) / 10 || digit > limit,
                    digit <= limit || digit > limit,
            ;
            return Err(
                if negative {
                    IntFault::NegOverflow
                } else {
                    IntFault::PosOverflow
                },
            );
        }
        assert(acc * 10 + digit <= limit) by (nonlinear_arith)
            requires
                acc <= (limit - digit) / 10,
                digit <= limit,
        ;
        acc = acc * 10 + digit;
        i = i + 1;
    }
    Ok((negative, acc))
}

/// Reads an `i8` from a field's text, as `str::parse::<i8>` does.
pub fn i8_from_text(name: &Option<String>, text: &str) -> (r: Result<i8, TypedMultipartError>)
    ensures
        match int_parse(bytes_of(text), true, 127, 128) {
            Ok(v) => r == Ok::<i8, TypedMultipartError>(v as i8),
            Err(e) => wrong_type(r, *name, "i8"@, e.message_spec()),
        },
{
    match parse_int_parts(text.as_bytes(), true, 127, 128) {
        Ok((negative, m)) => Ok(if negative {
            (0i128 - m as i128) as i8
        } else {
            m as i8
        }),
        Err(e) => Err(wrong_type_error(name, "i8", e.message())),
    }
}

/// Reads an `i16` from a field's text, as `str::parse::<i16>` does.
pub fn i16_from_text(name: &Option<String>, text: &str) -> (r: Result<i16, TypedMultipartError>)
    ensures
        match int_parse(bytes_of(text), true, 32767, 32768) {
            Ok(v) => r == Ok::<i16, TypedMultipartError>(v as i16),
            Err(e) => wrong_type(r, *name, "i16"@, e.message_spec()),
        },
{
    match parse_int_parts(text.as_bytes(), true, 32767, 32768) {
        Ok((negative, m)) => Ok(if negative {
            (0i128 - m as i128) as i16
        } else {
            m as i16
        }),
        Err(e) => Err(wrong_type_error(name, "i16", e.message())),
    }
}

/// Reads an `i32` from a field's text, as `str::parse::<i32>` does.
pub fn i32_from_text(name: &Option<String>, text: &str) -> (r: Result<i32, TypedMultipartError>)
    ensures
        match int_parse(bytes_of(text), true, 2147483647, 2147483648) {
            Ok(v) => r == Ok::<i32, TypedMultipartError>(v as i32),
            Err(e) => wrong_type(r, *name, "i32"@, e.message_spec()),
        },
{
    match parse_int_parts(text.as_bytes(), true, 2147483647, 2147483648) {
        Ok((negative, m)) => Ok(if negative {
            (0i128 - m as i128) as i32
        } else {
            m as i32
        }),
        Err(e) => Err(wrong_type_error(name, "i32", e.message())),
    }
}

/// Reads an `i64` from a field's text, as `str::parse::<i64>` does.
pub fn i64_from_text(name: &Option<String>, text: &str) -> (r: Result<i64, TypedMultipartError>)
    ensures
        match int_parse(bytes_of(text), true, 9223372036854775807, 9223372036854775808) {
            Ok(v) => r == Ok::<i64, TypedMultipartError>(v as i64),
            Err(e) => wrong_type(r, *name, "i64"@, e.message_spec()),
        },
{
    match parse_int_parts(text.as_bytes(), true, 9223372036854775807, 9223372036854775808) {
        Ok((negative, m)) => Ok(if negative {
            (0i128 - m as i128) as i64
        } else {
            m as i64
        }),
        Err(e) => Err(wrong_type_error(name, "i64", e.message())),
    }
}

/// Reads an `i128` from a field's text, as `str::parse::<i128>` does.
pub fn i128_from_text(name: &Option<String>, text: &str) -> (r: Result<i128, TypedMultipartError>)
    ensures
        match int_parse(bytes_of(text), true, 170141183460469231731687303715884105727, 170141183460469231731687303715884105728) {
            Ok(v) => r == Ok::<i128, TypedMultipartError>(v as i128),
            Err(e) => wrong_type(r, *name, "i128"@, e.message_spec()),
        },
{
    match parse_int_parts(text.as_bytes(), true, 170141183460469231731687303715884105727, 170141183460469231731687303715884105728) {
        Ok((negative, m)) => Ok(if negative {
            if m == 170141183460469231731687303715884105728u128 {
                i128::MIN
            } else {
                -(m as i128)
            }
        } else {
            m as i128
        }),
        Err(e) => Err(wrong_type_error(name, "i128", e.message())),
    }
}

/// Reads an `isize` from a field's text, as `str::parse::<isize>` does.
pub fn isize_from_text(name: &Option<String>, text: &str) -> (r: Result<isize, TypedMultipartError>)
    ensures
        match int_parse(bytes_of(text), true, isize::MAX as nat, isize::MAX as nat + 1) {
            Ok(v) => r == Ok::<isize, TypedMultipartError>(v as isize),
            Err(e) => wrong_type(r, *name, "isize"@, e.message_spec()),
        },
{
    match parse_int_parts(text.as_bytes(), true, isize::MAX as u128, isize::MAX as u128 + 1) {
        Ok((negative, m)) => Ok(if negative {
            (0i128 - m as i128) as isize
        } else {
            m as isize
        }),
        Err(e) => Err(wrong_type_error(name, "isize", e.message())),
    }
}

/// Reads an `u8` from a field's text, as `str::parse::<u8>` does.
pub fn u8_from_text(name: &Option<String>, text: &str) -> (r: Result<u8, TypedMultipartError>)
    ensures
        match int_parse(bytes_of(text), false, 255, 0) {
            Ok(v) => r == Ok::<u8, TypedMultipartError>(v as u8),
            Err(e) => wrong_type(r, *name, "u8"@, e.message_spec()),
        },
{
    match parse_int_parts(text.as_bytes(), false, 255, 0) {
        Ok((negative, m)) => Ok(m as u8),
        Err(e) => Err(wrong_type_error(name, "u8", e.message())),
    }
}

/// Reads an `u16` from a field's text, as `str::parse::<u16>` does.
pub fn u16_from_text(name: &Option<String>, text: &str) -> (r: Result<u16, TypedMultipartError>)
    ensures
        match int_parse(bytes_of(text), false, 65535, 0) {
            Ok(v) => r == Ok::<u16, TypedMultipartError>(v as u16),
            Err(e) => wrong_type(r, *name, "u16"@, e.message_spec()),
        },
{
    match parse_int_parts(text.as_bytes(), false, 65535, 0) {
        Ok((negative, m)) => Ok(m as u16),
        Err(e) => Err(wrong_type_error(name, "u16", e.message())),
    }
}

/// Reads an `u32` from a field's text, as `str::parse::<u32>` does.
pub fn u32_from_text(name: &Option<String>, text: &str) -> (r: Result<u32, TypedMultipartError>)
    ensures
        match int_parse(bytes_of(text), false, 4294967295, 0) {
            Ok(v) => r == Ok::<u32, TypedMultipartError>(v as u32),
            Err(e) => wrong_type(r, *name, "u32"@, e.message_spec()),
        },
{
    match parse_int_parts(text.as_bytes(), false, 4294967295, 0) {
        Ok((negative, m)) => Ok(m as u32),
        Err(e) => Err(wrong_type_error(name, "u32", e.message())),
    }
}

/// Reads an `u64` from a field's text, as `str::parse::<u64>` does.
pub fn u64_from_text(name: &Option<String>, text: &str) -> (r: Result<u64, TypedMultipartError>)
    ensures
        match int_parse(bytes_of(text), false, 18446744073709551615, 0) {
            Ok(v) => r == Ok::<u64, TypedMultipartError>(v as u64),
            Err(e) => wrong_type(r, *name, "u64"@, e.message_spec()),
        },
{
    match parse_int_parts(text.as_bytes(), false, 18446744073709551615, 0) {
        Ok((negative, m)) => Ok(m as u64),
        Err(e) => Err(wrong_type_error(name, "u64", e.message())),
    }
}

/// Reads an `u128` from a field's text, as `str::parse::<u128>` does.
pub fn u128_from_text(name: &Option<String>, text: &str) -> (r: Result<u128, TypedMultipartError>)
    ensures
        match int_parse(bytes_of(text), false, 340282366920938463463374607431768211455, 0) {
            Ok(v) => r == Ok::<u128, TypedMultipartError>(v as u128),
            Err(e) => wrong_type(r, *name, "u128"@, e.message_spec()),
        },
{
    match parse_int_parts(text.as_bytes(), false, 340282366920938463463374607431768211455, 0) {
        Ok((negative, m)) => Ok(m as u128),
        Err(e) => Err(wrong_type_error(name, "u128", e.message())),
    }
}

/// Reads an `usize` from a field's text, as `str::parse::<usize>` does.
pub fn usize_from_text(name: &Option<String>, text: &str) -> (r: Result<usize, TypedMultipartError>)
    ensures
        match int_parse(bytes_of(text), false, usize::MAX as nat, 0) {
            Ok(v) => r == Ok::<usize, TypedMultipartError>(v as usize),
            Err(e) => wrong_type(r, *name, "usize"@, e.message_spec()),
        },
{
    match parse_int_parts(text.as_bytes(), false, usize::MAX as u128, 0) {
        Ok((negative, m)) => Ok(m as usize),
        Err(e) => Err(wrong_type_error(name, "usize", e.message())),
    }
}


/// Reads a truth value from a field's text, as `str::parse::<bool>` does:
/// the text must be exactly `true` or `false`.
pub fn bool_from_text(name: &Option<String>, text: &str) -> (r: Result<bool, TypedMultipartError>)
    ensures
        text@ == "true"@ ==> r == Ok::<bool, TypedMultipartError>(true),
        text@ == "false"@ ==> r == Ok::<bool, TypedMultipartError>(false),
        text@ != "true"@ && text@ != "false"@ ==> wrong_type(
            r,
            *name,
            "bool"@,
            "provided string was not `true` or `false`"@,
        ),
{
    proof {
        reveal_strlit("true");
        reveal_strlit("false");
        assert("true"@.len() == 4);
        assert("false"@.len() == 5);
    }
    if str_equal(text, "true") {
        Ok(true)
    } else if str_equal(text, "false") {
        Ok(false)
    } else {
        Err(
            wrong_type_error(
                name,
                "bool",
                String::from_str("provided string was not `true` or `false`"),
            ),
        )
    }
}

/// Reads a character from a field's text, as `str::parse::<char>` does: the
/// text must hold exactly one character.
pub fn char_from_text(name: &Option<String>, text: &str) -> (r: Result<char, TypedMultipartError>)
    ensures
        text@.len() == 1 ==> r == Ok::<char, TypedMultipartError>(text@[0]),
        text@.len() == 0 ==> wrong_type(
            r,
            *name,
            "char"@,
            "cannot parse char from empty string"@,
        ),
        text@.len() > 1 ==> wrong_type(r, *name, "char"@, "too many characters in string"@),
{
    let n = text.unicode_len();
    if n == 1 {
        Ok(text.get_char(0))
    } else if n == 0 {
        Err(
            wrong_type_error(
                name,
                "char",
                String::from_str("cannot parse char from empty string"),
            ),
        )
    } else {
        Err(wrong_type_error(name, "char", String::from_str("too many characters in string")))
    }
}

/// Turns what a parser of a field's text gave back into the field's value,
/// or into the error that the field is not of the type called `wanted`, with
/// the parser's own words as the reason.
pub fn into_field_value<T>(name: &Option<String>, wanted: &str, parsed: Result<T, String>) -> (r:
    Result<T, TypedMultipartError>)
    ensures
        match parsed {
            Ok(v) => r == Ok::<T, TypedMultipartError>(v),
            Err(e) => wrong_type(r, *name, wanted@, e@),
        },
{
    match parsed {
        Ok(v) => Ok(v),
        Err(e) => Err(wrong_type_error(name, wanted, e)),
    }
}

/// What `uuid::Uuid::try_parse_ascii` reads from bytes: the UUID's 128 bits,
/// or nothing when the bytes are no UUID in any notation that it accepts.
pub uninterp spec fn uuid_parse(bytes: Seq<u8>) -> Option<u128>;

/// True for the ASCII hexadecimal digits, in either case.
pub open spec fn is_hex(b: u8) -> bool {
    (48u8 <= b <= 57u8) || (65u8 <= b <= 70u8) || (97u8 <= b <= 102u8)
}

/// The value of a hexadecimal digit.
pub open spec fn hex_value(b: u8) -> int {
    if b <= 57u8 {
        b - 48
    } else if b <= 70u8 {
        b - 55
    } else {
        b - 87
    }
}

/// The number written by the hexadecimal digits of `b`, most significant
/// first, leaving out the hyphens between them.
pub open spec fn hex_number(b: Seq<u8>) -> int
    decreases b.len(),
{
    if b.len() == 0 {
        0
    } else if b.last() == 45u8 {
        hex_number(b.drop_last())
    } else {
        hex_number(b.drop_last()) * 16 + hex_value(b.last())
    }
}

/// The 128 bits that a UUID written in its simple form (32 hexadecimal
/// digits) or its hyphenated form (groups of 8, 4, 4, 4 and 12 digits joined
/// by hyphens) stands for: the hexadecimal number of its digits, most
/// significant first.
pub open spec fn uuid_text(b: Seq<u8>) -> Option<int> {
    if b.len() == 32 && (forall|j: int| 0 <= j < 32 ==> is_hex(#[trigger] b[j])) {
        Some(hex_number(b))
    } else if b.len() == 36 && (forall|j: int|
        0 <= j < 36 ==> if j == 8 || j == 13 || j == 18 || j == 23 {
            #[trigger] b[j] == 45u8
        } else {
            is_hex(b[j])
        }) {
        Some(hex_number(b))
    } else {
        None
    }
}

/// Calls `uuid::Uuid::try_parse_ascii` and gives the UUID as its 128 bits
/// (`Uuid::as_u128`). Claimed: the result is the one that `uuid_parse` names
/// for these bytes; the simple and hyphenated forms read as the hexadecimal
/// number of their digits (the UUID's bytes are its digit pairs in order,
/// and `as_u128` reads them most significant first); and a failure reads
/// "failed to parse a UUID", the only error that this function of the crate
/// returns.
#[verifier::external_body]
fn uuid_try_parse_ascii(bytes: &[u8]) -> (r: Result<u128, String>)
    ensures
        match r {
            Ok(v) => uuid_parse(bytes@) == Some(v),
            Err(e) => uuid_parse(bytes@) is None && e@ == "failed to parse a UUID"@,
        },
        match uuid_text(bytes@) {
            Some(v) => r == Ok::<u128, String>(v as u128),
            None => true,
        },
{
    match uuid::Uuid::try_parse_ascii(bytes) {
        Ok(u) => Ok(u.as_u128()),
        Err(e) => Err(e.to_string()),
    }
}

/// Reads a UUID, as its 128 bits, from a field's bytes.
pub fn uuid_from_bytes(name: &Option<String>, bytes: &[u8]) -> (r: Result<
    u128,
    TypedMultipartError,
>)
    ensures
        match uuid_parse(bytes@) {
            Some(v) => r == Ok::<u128, TypedMultipartError>(v),
            None => wrong_type(r, *name, "uuid::Uuid"@, "failed to parse a UUID"@),
        },
        uuid_text(bytes@) matches Some(v) ==> r == Ok::<u128, TypedMultipartError>(v as u128),
{
    into_field_value(name, "uuid::Uuid", uuid_try_parse_ascii(bytes))
}

/// Reads a field's bytes as text for a parser of the type called `wanted`:
/// bytes that are not UTF-8 are the error that the field is not of that type.
fn text_for(name: &Option<String>, wanted: &str, bytes: Vec<u8>) -> (r: Result<
    String,
    TypedMultipartError,
>)
    ensures
        valid_utf8(bytes@) ==> (r matches Ok(s) && encode_utf8(s@) == bytes@),
        !valid_utf8(bytes@) ==> wrong_type(r, *name, wanted@, utf8_error_text(bytes@)),
{
    into_field_value(name, wanted, utf8_to_string(bytes))
}

/// The text that a field's bytes encode, where they are UTF-8.
pub open spec fn decoded(bytes: Seq<u8>) -> Seq<char> {
    vstd::utf8::decode_utf8(bytes)
}

/// What `DateTime<Utc>::from_str` of chrono reads from a text: the instant as
/// seconds since the Unix epoch and the nanoseconds past that second, or the
/// words of its error.
pub uninterp spec fn utc_datetime_parse(text: Seq<char>) -> Result<(i64, u32), Seq<char>>;

/// Calls `str::parse::<chrono::DateTime<chrono::Utc>>` and gives the instant
/// as `(timestamp, timestamp_subsec_nanos)`, or the error's text. Claimed: the
/// outcome is the one that `utc_datetime_parse` names for this text, and an
/// RFC 3339 text `YYYY-MM-DDTHH:MM:SS` with `Z` or a `±HH:MM` offset reads as
/// the instant it writes, its local time less its offset (`instant_text`).
#[verifier::external_body]
fn parse_utc_datetime(text: &str) -> (r: Result<(i64, u32), String>)
    ensures
        match r {
            Ok(v) => utc_datetime_parse(text@) == Ok::<(i64, u32), Seq<char>>(v),
            Err(e) => utc_datetime_parse(text@) == Err::<(i64, u32), Seq<char>>(e@),
        },
        match instant_text(text@) {
            Some((secs, off)) => r == Ok::<(i64, u32), String>((secs as i64, 0u32)),
            None => true,
        },
{
    match text.parse::<chrono::DateTime<chrono::Utc>>() {
        Ok(d) => Ok((d.timestamp(), d.timestamp_subsec_nanos())),
        Err(e) => Err(e.to_string()),
    }
}

/// Reads a UTC date and time from a field's bytes: they must be UTF-8, and
/// chrono must read the text as an instant.
pub fn utc_datetime_from_bytes(name: &Option<String>, bytes: Vec<u8>) -> (r: Result<
    (i64, u32),
    TypedMultipartError,
>)
    ensures
        !valid_utf8(bytes@) ==> wrong_type(
            r,
            *name,
            "chrono::datetime::DateTime<chrono::offset::utc::Utc>"@,
            utf8_error_text(bytes@),
        ),
        valid_utf8(bytes@) ==> match utc_datetime_parse(decoded(bytes@)) {
            Ok(v) => r == Ok::<(i64, u32), TypedMultipartError>(v),
            Err(e) => wrong_type(
                r,
                *name,
                "chrono::datetime::DateTime<chrono::offset::utc::Utc>"@,
                e,
            ),
        },
        valid_utf8(bytes@) ==> (instant_text(decoded(bytes@)) matches Some((secs, off)) ==> r
            == Ok::<(i64, u32), TypedMultipartError>((secs as i64, 0u32))),
{
    let wanted = "chrono::datetime::DateTime<chrono::offset::utc::Utc>";
    let text = text_for(name, wanted, bytes)?;
    proof {
        vstd::utf8::encode_utf8_decode_utf8(text@);
    }
    into_field_value(name, wanted, parse_utc_datetime(text.as_str()))
}

/// What `DateTime<FixedOffset>::from_str` of chrono reads from a text: the
/// instant as seconds since the Unix epoch, the nanoseconds past that second
/// and the offset from UTC in seconds, or the words of its error.
pub uninterp spec fn fixed_datetime_parse(text: Seq<char>) -> Result<(i64, u32, i32), Seq<char>>;

/// Calls `str::parse::<chrono::DateTime<chrono::FixedOffset>>` and gives the
/// instant as `(timestamp, timestamp_subsec_nanos, offset().local_minus_utc())`,
/// or the error's text. Claimed: the outcome is the one that
/// `fixed_datetime_parse` names for this text, and an RFC 3339 text
/// `YYYY-MM-DDTHH:MM:SS` with `Z` or a `±HH:MM` offset reads as the instant
/// it writes, with that offset (`instant_text`).
#[verifier::external_body]
fn parse_fixed_datetime(text: &str) -> (r: Result<(i64, u32, i32), String>)
    ensures
        match r {
            Ok(v) => fixed_datetime_parse(text@) == Ok::<(i64, u32, i32), Seq<char>>(v),
            Err(e) => fixed_datetime_parse(text@) == Err::<(i64, u32, i32), Seq<char>>(e@),
        },
        match instant_text(text@) {
            Some((secs, off)) => r == Ok::<(i64, u32, i32), String>(
                (secs as i64, 0u32, off as i32),
            ),
            None => true,
        },
{
    match text.parse::<chrono::DateTime<chrono::FixedOffset>>() {
        Ok(d) => Ok((d.timestamp(), d.timestamp_subsec_nanos(), d.offset().local_minus_utc())),
        Err(e) => Err(e.to_string()),
    }
}

/// Reads a date and time with its offset from UTC from a field's bytes: they
/// must be UTF-8, and chrono must read the text as such an instant.
pub fn fixed_datetime_from_bytes(name: &Option<String>, bytes: Vec<u8>) -> (r: Result<
    (i64, u32, i32),
    TypedMultipartError,
>)
    ensures
        !valid_utf8(bytes@) ==> wrong_type(
            r,
            *name,
            "chrono::datetime::DateTime<chrono::offset::fixed::FixedOffset>"@,
            utf8_error_text(bytes@),
        ),
        valid_utf8(bytes@) ==> match fixed_datetime_parse(decoded(bytes@)) {
            Ok(v) => r == Ok::<(i64, u32, i32), TypedMultipartError>(v),
            Err(e) => wrong_type(
                r,
                *name,
                "chrono::datetime::DateTime<chrono::offset::fixed::FixedOffset>"@,
                e,
            ),
        },
        valid_utf8(bytes@) ==> (instant_text(decoded(bytes@)) matches Some((secs, off)) ==> r
            == Ok::<(i64, u32, i32), TypedMultipartError>((secs as i64, 0u32, off as i32))),
{
    let wanted = "chrono::datetime::DateTime<chrono::offset::fixed::FixedOffset>";
    let text = text_for(name, wanted, bytes)?;
    proof {
        vstd::utf8::encode_utf8_decode_utf8(text@);
    }
    into_field_value(name, wanted, parse_fixed_datetime(text.as_str()))
}

/// What `NaiveDate::from_str` of chrono reads from a text: the date as year,
/// month and day, or the words of its error.
pub uninterp spec fn naive_date_parse(text: Seq<char>) -> Result<(i32, u32, u32), Seq<char>>;

/// Calls `str::parse::<chrono::NaiveDate>` and gives the date as
/// `(year, month, day)`, or the error's text. Claimed: the outcome is the one
/// that `naive_date_parse` names for this text, and a text `YYYY-MM-DD` that
/// is a day of the calendar reads as that year, month and day (`date_text`).
#[verifier::external_body]
fn parse_naive_date(text: &str) -> (r: Result<(i32, u32, u32), String>)
    ensures
        match r {
            Ok(v) => naive_date_parse(text@) == Ok::<(i32, u32, u32), Seq<char>>(v),
            Err(e) => naive_date_parse(text@) == Err::<(i32, u32, u32), Seq<char>>(e@),
        },
        match date_text(text@) {
            Some((y, m, d)) => r == Ok::<(i32, u32, u32), String>((y as i32, m as u32, d as u32)),
            None => true,
        },
{
    match text.parse::<chrono::NaiveDate>() {
        Ok(d) => Ok((d.year(), d.month(), d.day())),
        Err(e) => Err(e.to_string()),
    }
}

/// Reads a calendar date from a field's bytes: they must be UTF-8, and chrono
/// must read the text as a date.
pub fn naive_date_from_bytes(name: &Option<String>, bytes: Vec<u8>) -> (r: Result<
    (i32, u32, u32),
    TypedMultipartError,
>)
    ensures
        !valid_utf8(bytes@) ==> wrong_type(
            r,
            *name,
            "chrono::naive::date::NaiveDate"@,
            utf8_error_text(bytes@),
        ),
        valid_utf8(bytes@) ==> match naive_date_parse(decoded(bytes@)) {
            Ok(v) => r == Ok::<(i32, u32, u32), TypedMultipartError>(v),
            Err(e) => wrong_type(r, *name, "chrono::naive::date::NaiveDate"@, e),
        },
        valid_utf8(bytes@) ==> (date_text(decoded(bytes@)) matches Some((y, m, d)) ==> r == Ok::<
            (i32, u32, u32),
            TypedMultipartError,
        >((y as i32, m as u32, d as u32))),
{
    let wanted = "chrono::naive::date::NaiveDate";
    let text = text_for(name, wanted, bytes)?;
    proof {
        vstd::utf8::encode_utf8_decode_utf8(text@);
    }
    into_field_value(name, wanted, parse_naive_date(text.as_str()))
}

/// What `Decimal::from_str` of rust_decimal reads from a text: the number as
/// its mantissa and scale (the value is `mantissa / 10^scale`), or the words
/// of its error.
pub uninterp spec fn decimal_parse(text: Seq<char>) -> Result<(i128, u32), Seq<char>>;

/// Calls `str::parse::<rust_decimal::Decimal>` and gives the number as
/// `(mantissa, scale)`, or the error's text. Claimed: the outcome is the one
/// that `decimal_parse` names for this text, and a plain decimal text (a
/// sign, digits, a point and digits, no more than 28 digits) reads exactly,
/// with its digits as the mantissa and its count of digits after the point
/// as the scale (`decimal_text`).
#[verifier::external_body]
fn parse_decimal(text: &str) -> (r: Result<(i128, u32), String>)
    ensures
        match r {
            Ok(v) => decimal_parse(text@) == Ok::<(i128, u32), Seq<char>>(v),
            Err(e) => decimal_parse(text@) == Err::<(i128, u32), Seq<char>>(e@),
        },
        match decimal_text(text@) {
            Some((m, sc)) => r == Ok::<(i128, u32), String>((m as i128, sc as u32)),
            None => true,
        },
{
    match text.parse::<rust_decimal::Decimal>() {
        Ok(d) => Ok((d.mantissa(), d.scale())),
        Err(e) => Err(e.to_string()),
    }
}

/// Reads a decimal number from a field's bytes: they must be UTF-8, and
/// rust_decimal must read the text as a number.
pub fn decimal_from_bytes(name: &Option<String>, bytes: Vec<u8>) -> (r: Result<
    (i128, u32),
    TypedMultipartError,
>)
    ensures
        !valid_utf8(bytes@) ==> wrong_type(
            r,
            *name,
            "rust_decimal::decimal::Decimal"@,
            utf8_error_text(bytes@),
        ),
        valid_utf8(bytes@) ==> match decimal_parse(decoded(bytes@)) {
            Ok(v) => r == Ok::<(i128, u32), TypedMultipartError>(v),
            Err(e) => wrong_type(r, *name, "rust_decimal::decimal::Decimal"@, e),
        },
        valid_utf8(bytes@) ==> (decimal_text(decoded(bytes@)) matches Some((m, sc)) ==> r == Ok::<
            (i128, u32),
            TypedMultipartError,
        >((m as i128, sc as u32))),
{
    let wanted = "rust_decimal::decimal::Decimal";
    let text = text_for(name, wanted, bytes)?;
    proof {
        vstd::utf8::encode_utf8_decode_utf8(text@);
    }
    into_field_value(name, wanted, parse_decimal(text.as_str()))
}

} // verus!
