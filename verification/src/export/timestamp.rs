//! Timestamps in UTC.
use vstd::prelude::*;

use crate::text;
use crate::text_laws;

verus! {

/// Whether a year of the Gregorian calendar is a leap year.
pub open spec fn is_leap(y: int) -> bool {
    y % 4 == 0 && (y % 100 != 0 || y % 400 == 0)
}

pub open spec fn leap_days(y: int) -> int {
    if is_leap(y) {
        1
    } else {
        0
    }
}

/// Number of days of a month, counted from 1.
pub open spec fn days_in_month(y: int, m: int) -> int {
    if m == 2 {
        28 + leap_days(y)
    } else if m == 4 || m == 6 || m == 9 || m == 11 {
        30
    } else {
        31
    }
}

/// Number of days from the start of year 0 to the start of year `y`.
pub open spec fn days_before_year(y: int) -> int
    decreases y,
{
    if y <= 0 {
        0
    } else {
        days_before_year(y - 1) + 365 + leap_days(y - 1)
    }
}

/// Number of days from the start of a year to the start of month `m`.
pub open spec fn days_before_month(y: int, m: int) -> int
    decreases m,
{
    if m <= 1 {
        0
    } else {
        days_before_month(y, m - 1) + days_in_month(y, m - 1)
    }
}

/// Whether a date exists.
pub open spec fn is_date(y: int, m: int, d: int) -> bool {
    0 <= y && 1 <= m <= 12 && 1 <= d <= days_in_month(y, m)
}

/// Number of days from the first of January 1970 to a date.
pub open spec fn day_number(y: int, m: int, d: int) -> int {
    days_before_year(y) - days_before_year(1970) + days_before_month(y, m) + d - 1
}

/// A number with at least two digits.
pub open spec fn two_digits(n: int) -> Seq<char> {
    text::zero_padded(text::decimal(n), 2)
}

/// A date and a second of the day, as RFC 3339 writes them.
pub open spec fn stamp(y: int, m: int, d: int, second: int) -> Seq<char> {
    text::zero_padded(text::decimal(y), 4) + "-"@ + two_digits(m) + "-"@ + two_digits(d) + "T"@
        + two_digits(second / 3600) + ":"@ + two_digits(second % 3600 / 60) + ":"@ + two_digits(
        second % 60,
    ) + "Z"@
}

/// The number of days before a year in closed form.
proof fn days_before_year_in_closed_form(y: int)
    requires
        y >= 0,
    ensures
        days_before_year(y) == 365 * y + (y + 3) / 4 - (y + 99) / 100 + (y + 399) / 400,
    decreases y,
{
    if y > 0 {
        days_before_year_in_closed_form(y - 1);
    }
}

proof fn months_add_up(y: int)
    ensures
        days_before_month(y, 1) == 0,
        days_before_month(y, 2) == 31,
        days_before_month(y, 3) == 59 + leap_days(y),
        days_before_month(y, 4) == 90 + leap_days(y),
        days_before_month(y, 5) == 120 + leap_days(y),
        days_before_month(y, 6) == 151 + leap_days(y),
        days_before_month(y, 7) == 181 + leap_days(y),
        days_before_month(y, 8) == 212 + leap_days(y),
        days_before_month(y, 9) == 243 + leap_days(y),
        days_before_month(y, 10) == 273 + leap_days(y),
        days_before_month(y, 11) == 304 + leap_days(y),
        days_before_month(y, 12) == 334 + leap_days(y),
{
    reveal_with_fuel(days_before_month, 13);
}

/// Two dates with the same day number are the same date.
pub proof fn day_numbers_are_distinct(y: int, m: int, d: int, y2: int, m2: int, d2: int)
    requires
        is_date(y, m, d),
        is_date(y2, m2, d2),
        day_number(y, m, d) == day_number(y2, m2, d2),
    ensures
        y == y2 && m == m2 && d == d2,
{
    day_of_year_is_in_range(y, m, d);
    day_of_year_is_in_range(y2, m2, d2);
    days_before_year_in_closed_form(y);
    days_before_year_in_closed_form(y2);
    if y < y2 {
        years_ascend(y, y2);
    }
    if y2 < y {
        years_ascend(y2, y);
    }
    months_add_up(y);
}

proof fn day_of_year_is_in_range(y: int, m: int, d: int)
    requires
        is_date(y, m, d),
    ensures
        0 <= days_before_month(y, m) + d - 1 < 365 + leap_days(y),
{
    months_add_up(y);
}

proof fn years_ascend(y: int, y2: int)
    requires
        0 <= y < y2,
    ensures
        days_before_year(y) + 365 + leap_days(y) <= days_before_year(y2),
    decreases y2,
{
    if y < y2 - 1 {
        years_ascend(y, y2 - 1);
    }
}

/// The parts of a day count from the first of March of year 0: the year that starts
/// in March, and the day in it.
proof fn march_year_is_exact(era: int, n100: int, n4: int, n1: int)
    requires
        0 <= era,
        0 <= n100 <= 3,
        0 <= n4 <= 24,
        0 <= n1 <= 3,
    ensures
        ({
            let y = 400 * era + 100 * n100 + 4 * n4 + n1;
            days_before_year(y) + 59 + leap_days(y) == 146097 * era + 36524 * n100 + 1461 * n4
                + 365 * n1 + 60
        }),
{
    let y = 400 * era + 100 * n100 + 4 * n4 + n1;
    days_before_year_in_closed_form(y);
    assert(y / 4 == 100 * era + 25 * n100 + n4);
    assert(y / 100 == 4 * era + n100);
    assert(y / 400 == era);
    assert((y + 3) / 4 == y / 4 + (if y % 4 == 0 {
        0int
    } else {
        1int
    }));
    assert((y + 99) / 100 == y / 100 + (if y % 100 == 0 {
        0int
    } else {
        1int
    }));
    assert((y + 399) / 400 == y / 400 + (if y % 400 == 0 {
        0int
    } else {
        1int
    }));
}

/// The days of a cycle of 400 years that starts in March: full centuries, full groups
/// of four years, full years, and the day in the year.
fn split_cycle(doe: u64) -> (r: (u64, u64, u64, u64))
    requires
        doe < 146_097,
    ensures
        r.0 <= 3,
        r.1 <= 24,
        r.2 <= 3,
        r.3 <= 365,
        doe == 36_524 * r.0 + 1_461 * r.1 + 365 * r.2 + r.3,
        r.3 == 365 ==> r.2 == 3 && (r.1 == 24 ==> r.0 == 3),
{
    let n100: u64 = if doe / 36_524 > 3 {
        3
    } else {
        doe / 36_524
    };
    let r: u64 = doe - 36_524 * n100;
    let n4: u64 = r / 1_461;
    let r2: u64 = r % 1_461;
    let n1: u64 = if r2 / 365 > 3 {
        3
    } else {
        r2 / 365
    };
    (n100, n4, n1, r2 - 365 * n1)
}

/// The year after a last day is a leap year.
proof fn long_years_end_in_leap_years(era: int, n100: int, n4: int)
    requires
        0 <= era,
        0 <= n100 <= 3,
        0 <= n4 <= 24,
        n4 == 24 ==> n100 == 3,
    ensures
        is_leap(400 * era + 100 * n100 + 4 * n4 + 4),
{
    let next = 400 * era + 100 * n100 + 4 * n4 + 4;
    assert(next % 4 == 0);
    if n4 == 24 {
        assert(next == 400 * (era + 1));
        assert(next % 400 == 0);
    } else {
        assert(next % 100 == 4 * n4 + 4);
    }
}

/// A day count from the first of March of year 0 as a year that starts in March and a
/// day in it.
fn march_date(z: u64) -> (r: (u64, u64))
    requires
        z <= u64::MAX / 86_400 + 719_468,
    ensures
        r.0 <= z,
        days_before_year(r.0 as int) + leap_days(r.0 as int) + r.1 == z + 1,
        r.1 <= 364 + leap_days(r.0 + 1),
{
    let era: u64 = z / 146_097;
    let (n100, n4, n1, doy) = split_cycle(z % 146_097);
    assert(z == 146_097 * era + z % 146_097);
    assert(400 * era + 100 * n100 + 4 * n4 + n1 <= z);
    let y: u64 = 400 * era + 100 * n100 + 4 * n4 + n1;
    proof {
        march_year_is_exact(era as int, n100 as int, n4 as int, n1 as int);
        if doy == 365 {
            long_years_end_in_leap_years(era as int, n100 as int, n4 as int);
        }
    }
    (y, doy)
}

/// Number of days from the start of March to the start of the month that is `mp`
/// months later.
spec fn march_offset(mp: int) -> int {
    (153 * mp + 2) / 5
}

proof fn march_months_add_up(y: int, mp: int)
    requires
        0 <= mp < 12,
    ensures
        mp < 10 ==> days_before_month(y, mp + 3) == 59 + leap_days(y) + march_offset(mp),
        mp >= 10 ==> days_before_month(y, mp - 9) == march_offset(mp) - 306,
        mp < 10 ==> march_offset(mp) + days_in_month(y, mp + 3) == march_offset(mp + 1),
        mp == 10 ==> march_offset(mp) + days_in_month(y, mp - 9) == march_offset(mp + 1),
        mp == 11 ==> march_offset(mp) == 337,
{
    months_add_up(y);
}

/// Converts a number of days since the first of January 1970 into a date.
pub fn civil_date(days: u64) -> (r: (u64, u64, u64))
    requires
        days <= u64::MAX / 86_400,
    ensures
        is_date(r.0 as int, r.1 as int, r.2 as int),
        day_number(r.0 as int, r.1 as int, r.2 as int) == days,
{
    let (y, doy) = march_date(days + 719_468);
    let mp: u64 = (5 * doy + 2) / 153;
    let d: u64 = doy - (153 * mp + 2) / 5 + 1;
    proof {
        days_before_year_in_closed_form(1970);
        assert(march_offset(mp as int) <= doy);
        assert(mp < 11 ==> doy < march_offset(mp + 1));
        march_months_add_up(y as int, mp as int);
        march_months_add_up(y + 1, mp as int);
        assert(days_before_year(y + 1) == days_before_year(y as int) + 365 + leap_days(y as int));
    }
    if mp < 10 {
        (y, mp + 3, d)
    } else {
        (y + 1, mp - 9, d)
    }
}

fn write_two_digits(n: u64) -> (r: String)
    ensures
        r@ == two_digits(n as int),
{
    text::pad_zeros(text::to_decimal(n).as_str(), 2)
}

/// Writes a number of seconds since the start of 1970 as an RFC 3339 timestamp.
pub fn format_rfc3339_utc(secs: u64) -> (r: String)
    ensures
        exists|y: int, m: int, d: int|
            is_date(y, m, d) && day_number(y, m, d) == secs / 86_400 && r@ == #[trigger] stamp(
                y,
                m,
                d,
                secs as int % 86_400,
            ),
{
    let second: u64 = secs % 86_400;
    let (year, month, day) = civil_date(secs / 86_400);
    let mut out = text::pad_zeros(text::to_decimal(year).as_str(), 4);
    out.append("-");
    out.append(write_two_digits(month).as_str());
    out.append("-");
    out.append(write_two_digits(day).as_str());
    out.append("T");
    out.append(write_two_digits(second / 3600).as_str());
    out.append(":");
    out.append(write_two_digits(second % 3600 / 60).as_str());
    out.append(":");
    out.append(write_two_digits(second % 60).as_str());
    out.append("Z");
    assert(out@ == stamp(year as int, month as int, day as int, second as int));
    out
}

/// A stamp reads back as its date and time: year, month, day, hour, minute and second, each
/// in its place, with the separators between them.
pub proof fn stamps_read_back(y: int, m: int, d: int, second: int)
    requires
        0 <= y <= 9999,
        1 <= m <= 12,
        1 <= d <= 31,
        0 <= second < 86400,
    ensures
        ({
            let s = stamp(y, m, d, second);
            &&& s.len() == 20
            &&& text_laws::number_of(s.subrange(0, 4), 10) == y
            &&& s[4] == '-'
            &&& text_laws::number_of(s.subrange(5, 7), 10) == m
            &&& s[7] == '-'
            &&& text_laws::number_of(s.subrange(8, 10), 10) == d
            &&& s[10] == 'T'
            &&& text_laws::number_of(s.subrange(11, 13), 10) * 3600 + text_laws::number_of(
                s.subrange(14, 16),
                10,
            ) * 60 + text_laws::number_of(s.subrange(17, 19), 10) == second
            &&& text_laws::number_of(s.subrange(14, 16), 10) < 60
            &&& text_laws::number_of(s.subrange(17, 19), 10) < 60
            &&& s[13] == ':'
            &&& s[16] == ':'
            &&& s[19] == 'Z'
        }),
{
    let s = stamp(y, m, d, second);
    reveal_strlit("-");
    reveal_strlit("T");
    reveal_strlit(":");
    reveal_strlit("Z");
    let (hh, mm, ss) = (second / 3600, second % 3600 / 60, second % 60);
    padded_numbers_read_back(y, 4);
    padded_numbers_read_back(m, 2);
    padded_numbers_read_back(d, 2);
    padded_numbers_read_back(hh, 2);
    padded_numbers_read_back(mm, 2);
    padded_numbers_read_back(ss, 2);
    assert(s.subrange(0, 4) =~= text::zero_padded(text::decimal(y), 4));
    assert(s.subrange(5, 7) =~= two_digits(m));
    assert(s.subrange(8, 10) =~= two_digits(d));
    assert(s.subrange(11, 13) =~= two_digits(hh));
    assert(s.subrange(14, 16) =~= two_digits(mm));
    assert(s.subrange(17, 19) =~= two_digits(ss));
}

proof fn padded_numbers_read_back(n: int, width: int)
    requires
        width == 2 || width == 4,
        0 <= n,
        width == 2 ==> n <= 99,
        width == 4 ==> n <= 9999,
    ensures
        text::zero_padded(text::decimal(n), width).len() == width,
        text_laws::number_of(text::zero_padded(text::decimal(n), width), 10) == n,
{
    let digits = text::decimal(n);
    text_laws::written_numbers_read_back(n as nat, 10, true);
    text_laws::padding_puts_zeros_in_front(digits, width);
    reveal_with_fuel(text::digits, 5);
    assert(digits.len() <= width);
    let padded = text::zero_padded(digits, width);
    let zeros = (width - digits.len()) as nat;
    zeros_in_front_count_nothing(zeros, digits);
    assert(padded =~= Seq::new(zeros, |i: int| '0') + digits);
}

proof fn zeros_in_front_count_nothing(zeros: nat, s: Seq<char>)
    ensures
        text_laws::number_of(Seq::new(zeros, |i: int| '0') + s, 10) == text_laws::number_of(s, 10),
    decreases s.len(), zeros,
{
    let z = Seq::new(zeros, |i: int| '0');
    if s.len() > 0 {
        zeros_in_front_count_nothing(zeros, s.drop_last());
        assert((z + s).drop_last() =~= z + s.drop_last());
        assert((z + s).last() == s.last());
    } else if zeros > 0 {
        let fewer = (zeros - 1) as nat;
        zeros_in_front_count_nothing(fewer, s);
        assert((z + s).drop_last() =~= Seq::new(fewer, |i: int| '0') + s);
        assert((z + s).last() == '0');
    } else {
        assert(z + s =~= s);
    }
}

} // verus!
