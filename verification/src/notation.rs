//! What plain written dates, instants and decimal numbers stand for: the
//! calendar date of `2024-03-05`, the instant of `2024-01-01T12:00:00-05:00`
//! and the number of `-12.50`.
use vstd::prelude::*;

verus! {

/// True for the characters `0` to `9`.
pub open spec fn is_digit_char(c: char) -> bool {
    '0' <= c && c <= '9'
}

/// True when the `n` characters of `t` from position `i` are all digits.
pub open spec fn digits_from(t: Seq<char>, i: int, n: int) -> bool {
    &&& 0 <= i
    &&& 0 <= n
    &&& i + n <= t.len()
    &&& forall|j: int| i <= j < i + n ==> is_digit_char(#[trigger] t[j])
}

/// The number written by the `n` digits of `t` from position `i`.
pub open spec fn number_at(t: Seq<char>, i: int, n: nat) -> int
    decreases n,
{
    if n == 0 {
        0
    } else {
        number_at(t, i, (n - 1) as nat) * 10 + (t[i + n - 1] as int - 48)
    }
}

/// Ten to the power `n`.
pub open spec fn pow10(n: nat) -> int
    decreases n,
{
    if n == 0 {
        1
    } else {
        10 * pow10((n - 1) as nat)
    }
}

/// True for the leap years of the proleptic Gregorian calendar.
pub open spec fn is_leap_year(y: int) -> bool {
    y % 4 == 0 && (y % 100 != 0 || y % 400 == 0)
}

/// The number of days of month `m` of year `y`.
pub open spec fn days_in_month(y: int, m: int) -> int {
    if m == 2 {
        if is_leap_year(y) {
            29
        } else {
            28
        }
    } else if m == 4 || m == 6 || m == 9 || m == 11 {
        30
    } else {
        31
    }
}

/// True when `y-m-d` is a day of the calendar.
pub open spec fn valid_date(y: int, m: int, d: int) -> bool {
    1 <= m <= 12 && 1 <= d <= days_in_month(y, m)
}

/// The date written `YYYY-MM-DD` (four, two and two digits) at position `i`
/// of `t`, when it is a day of the calendar.
pub open spec fn date_at(t: Seq<char>, i: int) -> Option<(int, int, int)> {
    if digits_from(t, i, 4) && digits_from(t, i + 5, 2) && digits_from(t, i + 8, 2) && t[i + 4]
        == '-' && t[i + 7] == '-' {
        let y = number_at(t, i, 4);
        let m = number_at(t, i + 5, 2);
        let d = number_at(t, i + 8, 2);
        if valid_date(y, m, d) {
            Some((y, m, d))
        } else {
            None
        }
    } else {
        None
    }
}

/// The date that a text consisting of exactly `YYYY-MM-DD` writes, when it
/// is a day of the calendar.
pub open spec fn date_text(t: Seq<char>) -> Option<(int, int, int)> {
    if t.len() == 10 {
        date_at(t, 0)
    } else {
        None
    }
}

/// The number of days from 1970-01-01 to the day `y-m-d` of the proleptic
/// Gregorian calendar (negative before it).
pub open spec fn days_from_civil(y: int, m: int, d: int) -> int {
    let y2 = if m <= 2 {
        y - 1
    } else {
        y
    };
    let era = y2 / 400;
    let yoe = y2 - era * 400;
    let mp = (m + 9) % 12;
    let doy = (153 * mp + 2) / 5 + d - 1;
    let doe = yoe * 365 + yoe / 4 - yoe / 100 + doy;
    era * 146097 + doe - 719468
}

/// The second of the day written `HH:MM:SS` at position `i` of `t`, for
/// hours below 24 and minutes and seconds below 60.
pub open spec fn time_at(t: Seq<char>, i: int) -> Option<int> {
    if digits_from(t, i, 2) && digits_from(t, i + 3, 2) && digits_from(t, i + 6, 2) && t[i + 2]
        == ':' && t[i + 5] == ':' {
        let h = number_at(t, i, 2);
        let mi = number_at(t, i + 3, 2);
        let s = number_at(t, i + 6, 2);
        if h < 24 && mi < 60 && s < 60 {
            Some(h * 3600 + mi * 60 + s)
        } else {
            None
        }
    } else {
        None
    }
}

/// The offset from UTC, in seconds east, that ends the text `t` from
/// position `i`: `Z`, or a sign and `HH:MM` with hours below 24 and minutes
/// below 60.
pub open spec fn offset_at(t: Seq<char>, i: int) -> Option<int> {
    if t.len() == i + 1 && t[i] == 'Z' {
        Some(0)
    } else if t.len() == i + 6 && (t[i] == '+' || t[i] == '-') && digits_from(t, i + 1, 2)
        && digits_from(t, i + 4, 2) && t[i + 3] == ':' {
        let oh = number_at(t, i + 1, 2);
        let om = number_at(t, i + 4, 2);
        if oh < 24 && om < 60 {
            Some(
                if t[i] == '+' {
                    oh * 3600 + om * 60
                } else {
                    -(oh * 3600 + om * 60)
                },
            )
        } else {
            None
        }
    } else {
        None
    }
}

/// The instant that a text `YYYY-MM-DDTHH:MM:SS` followed by its offset
/// (`Z`, `+HH:MM` or `-HH:MM`) writes, as seconds since the Unix epoch,
/// together with the offset in seconds east of UTC; the local date and time
/// minus the offset is the instant.
pub open spec fn instant_text(t: Seq<char>) -> Option<(int, int)> {
    if t.len() >= 20 && t[10] == 'T' {
        match (date_at(t, 0), time_at(t, 11), offset_at(t, 19)) {
            (Some((y, m, d)), Some(secs), Some(off)) => Some(
                (days_from_civil(y, m, d) * 86400 + secs - off, off),
            ),
            _ => None,
        }
    } else {
        None
    }
}

/// The position of the first `.` of `t` at or after `i`, or the length of
/// `t` when there is none.
pub open spec fn point_from(t: Seq<char>, i: int) -> int
    decreases t.len() - i,
{
    if i >= t.len() || i < 0 {
        t.len() as int
    } else if t[i] == '.' {
        i
    } else {
        point_from(t, i + 1)
    }
}

/// The number that a plain decimal text writes, as a mantissa and a scale
/// (the number is `mantissa / 10^scale`, the scale being the count of
/// digits after the point): an optional sign, one or more digits, and
/// optionally a point followed by one or more digits, with no more than 28
/// digits in all.
pub open spec fn decimal_text(t: Seq<char>) -> Option<(int, int)> {
    let a: int = if t.len() > 0 && (t[0] == '+' || t[0] == '-') {
        1
    } else {
        0
    };
    let p = point_from(t, a);
    let ni = p - a;
    let nf = if p < t.len() {
        t.len() - p - 1
    } else {
        0
    };
    if ni >= 1 && digits_from(t, a, ni) && (p < t.len() ==> nf >= 1 && digits_from(t, p + 1, nf))
        && ni + nf <= 28 {
        let m = number_at(t, a, ni as nat) * pow10(nf as nat) + number_at(t, p + 1, nf as nat);
        Some(
            (
                if a == 1 && t[0] == '-' {
                    -m
                } else {
                    m
                },
                nf,
            ),
        )
    } else {
        None
    }
}

} // verus!
