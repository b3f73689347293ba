//! Conversion of a calendar date to elapsed seconds since the Unix epoch.
//!
//! The model counts days relative to 1970-01-01: whole years first, then the
//! whole months of the target year, then the days of the target month.  Dates
//! before 1970 are supported symmetrically and yield negative counts.

use vstd::prelude::*;

verus! {

/// A year is a leap year iff it is divisible by 4 and either not divisible
/// by 100 or divisible by 400.
pub open spec fn spec_is_leap_year(y: int) -> bool {
    (y % 4 == 0 && y % 100 != 0) || y % 400 == 0
}

/// Number of days in 1-based `month` of `year`.
pub open spec fn spec_days_in_month(month: int, year: int) -> int {
    if month == 2 {
        if spec_is_leap_year(year) {
            29
        } else {
            28
        }
    } else if month == 4 || month == 6 || month == 9 || month == 11 {
        30
    } else {
        31
    }
}

/// Number of days in `year`.
pub open spec fn spec_year_days(y: int) -> int {
    if spec_is_leap_year(y) {
        366
    } else {
        365
    }
}

/// Signed number of days from 1970-01-01 to the first day of `year`:
/// non-negative for years from 1970 on, negative before.
pub open spec fn spec_days_before_year(y: int) -> int
    decreases
            if y >= 1970 {
                y - 1970
            } else {
                1970 - y
            },
{
    if y > 1970 {
        spec_days_before_year(y - 1) + spec_year_days(y - 1)
    } else if y == 1970 {
        0
    } else {
        spec_days_before_year(y + 1) - spec_year_days(y)
    }
}

/// Number of days of `year` that precede the first day of 1-based `month`.
pub open spec fn spec_days_before_month(year: int, month: int) -> int
    decreases month,
{
    if month <= 1 {
        0
    } else {
        spec_days_before_month(year, month - 1) + spec_days_in_month(month - 1, year)
    }
}

/// A calendar date that the library accepts: a 4-digit year and an existing
/// month/day combination.
pub open spec fn spec_valid_date(year: int, month: int, day: int) -> bool {
    &&& 0 <= year <= 9999
    &&& 1 <= month <= 12
    &&& 1 <= day <= spec_days_in_month(month, year)
}

/// Seconds since 1970-01-01T00:00:00Z of midnight on the given date.
pub open spec fn spec_date_to_timestamp(year: int, month: int, day: int) -> int {
    (spec_days_before_year(year) + spec_days_before_month(year, month) + day - 1) * 86400
}

/// Why a date string was rejected.
#[derive(Debug, Clone, Copy, PartialEq, Eq, Structural)]
pub enum ValidationError {
    /// The string does not consist of exactly 8 characters.
    WrongLength,
    /// A character of the string is not an ASCII decimal digit.
    NonDigit,
    /// The month field is not in `1..=12`.
    MonthOutOfRange,
    /// The day field is not in `1..=days_in_month(month, year)`.
    DayOutOfRange,
}

/// A decoded calendar date.
#[derive(Debug, Clone, Copy, PartialEq, Eq, Structural)]
pub struct CalendarDate {
    pub year: i32,
    pub month: u8,
    pub day: u8,
}

impl CalendarDate {
    /// The fields name an existing day of the Gregorian calendar, with a
    /// 4-digit year.
    pub open spec fn wf(self) -> bool {
        spec_valid_date(self.year as int, self.month as int, self.day as int)
    }
}

/// Whether `c` is an ASCII decimal digit.
pub open spec fn spec_is_digit(c: char) -> bool {
    48 <= c as u32 <= 57
}

/// Numeric value of an ASCII decimal digit.
pub open spec fn spec_digit(c: char) -> int {
    c as u32 - 48
}

/// Whether every character of `s` is an ASCII decimal digit.
pub open spec fn spec_all_digits(s: Seq<char>) -> bool {
    forall|i: int| 0 <= i < s.len() ==> spec_is_digit(s[i])
}

/// The year field of an 8-digit `YYYYMMDD` string.
pub open spec fn spec_year_of(s: Seq<char>) -> int {
    1000 * spec_digit(s[0]) + 100 * spec_digit(s[1]) + 10 * spec_digit(s[2]) + spec_digit(s[3])
}

/// The month field of an 8-digit `YYYYMMDD` string.
pub open spec fn spec_month_of(s: Seq<char>) -> int {
    10 * spec_digit(s[4]) + spec_digit(s[5])
}

/// The day field of an 8-digit `YYYYMMDD` string.
pub open spec fn spec_day_of(s: Seq<char>) -> int {
    10 * spec_digit(s[6]) + spec_digit(s[7])
}

/// An accepted date string: exactly 8 ASCII digits that decode to an
/// existing calendar date.
pub open spec fn spec_valid_date_string(s: Seq<char>) -> bool {
    &&& s.len() == 8
    &&& spec_all_digits(s)
    &&& spec_valid_date(spec_year_of(s), spec_month_of(s), spec_day_of(s))
}

/// Whether a year is a leap year, per the Gregorian rule.
pub fn is_leap_year(year: i32) -> (r: bool)
    ensures
        r == spec_is_leap_year(year as int),
{
    (year % 4 == 0 && year % 100 != 0) || year % 400 == 0
}

/// Number of days in 1-based `month` of `year`.
pub fn days_in_month(month: u32, year: i32) -> (r: i64)
    requires
        1 <= month <= 12,
    ensures
        r == spec_days_in_month(month as int, year as int),
{
    match month {
        1 | 3 | 5 | 7 | 8 | 10 | 12 => 31,
        4 | 6 | 9 | 11 => 30,
        _ => if is_leap_year(year) {
            29
        } else {
            28
        },
    }
}

/// Seconds since the Unix epoch of midnight on the given date.  Years are
/// accumulated from 1970 upward, or downward for dates before the epoch;
/// then the elapsed months of the target year, then the elapsed days.
pub fn calculate_unix_timestamp(year: i32, month: u32, day: u32) -> (r: i64)
    requires
        spec_valid_date(year as int, month as int, day as int),
    ensures
        r == spec_date_to_timestamp(year as int, month as int, day as int),
{
    let mut total_days: i64 = 0;

    if year >= 1970 {
        let mut y: i32 = 1970;
        while y < year
            invariant
                1970 <= y <= year <= 9999,
                total_days == spec_days_before_year(y as int),
                0 <= total_days <= 366 * (y - 1970),
            decreases year - y,
        {
            total_days = total_days + if is_leap_year(y) {
                366
            } else {
                365
            };
            y = y + 1;
        }
    } else {
        let mut y: i32 = 1970;
        while y > year
            invariant
                0 <= year <= y <= 1970,
                total_days == spec_days_before_year(y as int),
                -(366 * (1970 - y)) <= total_days <= 0,
            decreases y - year,
        {
            y = y - 1;
            total_days = total_days - if is_leap_year(y) {
                366
            } else {
                365
            };
        }
    }

    let mut m: u32 = 1;
    while m < month
        invariant
            1 <= m <= month <= 12,
            0 <= year <= 9999,
            total_days == spec_days_before_year(year as int) + spec_days_before_month(
                year as int,
                m as int,
            ),
            -721020 <= total_days <= 2940000 + 31 * (m - 1),
        decreases month - m,
    {
        total_days = total_days + days_in_month(m, year);
        m = m + 1;
    }

    total_days = total_days + day as i64 - 1;
    total_days * 86400
}

/// Numeric value of the digit at position `i`.
fn digit_at(s: &str, i: usize) -> (r: u32)
    requires
        i < s@.len(),
        spec_is_digit(s@[i as int]),
    ensures
        r == spec_digit(s@[i as int]),
        r <= 9,
{
    s.get_char(i) as u32 - 48
}

/// Decodes an 8-digit `YYYYMMDD` string into a calendar date, rejecting a
/// string of the wrong length, a non-digit character, and a month or day
/// outside its range — in that order of checks.
pub fn parse_date(s: &str) -> (r: Result<CalendarDate, ValidationError>)
    ensures
        r is Ok <==> spec_valid_date_string(s@),
        r matches Ok(d) ==> {
            &&& d.year == spec_year_of(s@)
            &&& d.month == spec_month_of(s@)
            &&& d.day == spec_day_of(s@)
            &&& d.wf()
        },
        s@.len() != 8 ==> r == Err::<CalendarDate, ValidationError>(ValidationError::WrongLength),
        s@.len() == 8 && !spec_all_digits(s@) ==> r == Err::<CalendarDate, ValidationError>(
            ValidationError::NonDigit,
        ),
        s@.len() == 8 && spec_all_digits(s@) && !(1 <= spec_month_of(s@) <= 12) ==> r == Err::<
            CalendarDate,
            ValidationError,
        >(ValidationError::MonthOutOfRange),
        s@.len() == 8 && spec_all_digits(s@) && 1 <= spec_month_of(s@) <= 12 && !(1 <= spec_day_of(
            s@,
        ) <= spec_days_in_month(spec_month_of(s@), spec_year_of(s@))) ==> r == Err::<
            CalendarDate,
            ValidationError,
        >(ValidationError::DayOutOfRange),
{
    let n = s.unicode_len();
    if n != 8 {
        return Err(ValidationError::WrongLength);
    }
    let mut i: usize = 0;
    while i < 8
        invariant
            s@.len() == 8,
            i <= 8,
            forall|j: int| 0 <= j < i ==> spec_is_digit(s@[j]),
        decreases 8 - i,
    {
        let v = s.get_char(i) as u32;
        if v < 48 || v > 57 {
            return Err(ValidationError::NonDigit);
        }
        i = i + 1;
    }
    let year: u32 = 1000 * digit_at(s, 0) + 100 * digit_at(s, 1) + 10 * digit_at(s, 2) + digit_at(
        s,
        3,
    );
    let month: u32 = 10 * digit_at(s, 4) + digit_at(s, 5);
    let day: u32 = 10 * digit_at(s, 6) + digit_at(s, 7);
    if month < 1 || month > 12 {
        return Err(ValidationError::MonthOutOfRange);
    }
    if day < 1 || day as i64 > days_in_month(month, year as i32) {
        return Err(ValidationError::DayOutOfRange);
    }
    Ok(CalendarDate { year: year as i32, month: month as u8, day: day as u8 })
}

/// Converts an 8-digit `YYYYMMDD` string into seconds since the Unix epoch,
/// negative for dates before 1970-01-01.
pub fn date_to_timestamp(s: &str) -> (r: Result<i64, ValidationError>)
    ensures
        r is Ok <==> spec_valid_date_string(s@),
        r matches Ok(t) ==> t == spec_date_to_timestamp(
            spec_year_of(s@),
            spec_month_of(s@),
            spec_day_of(s@),
        ),
        r matches Err(e) ==> parse_date_error(s@, e),
{
    match parse_date(s) {
        Ok(d) => Ok(calculate_unix_timestamp(d.year, d.month as u32, d.day as u32)),
        Err(e) => Err(e),
    }
}

/// Stepping the year-count model by one year adds that year's length.
proof fn lemma_days_before_year_step(y: int)
    ensures
        spec_days_before_year(y + 1) == spec_days_before_year(y) + spec_year_days(y),
{
}

/// The year-count model grows by at least 365 days per year.
proof fn lemma_days_before_year_monotonic(y1: int, y2: int)
    requires
        y1 <= y2,
    ensures
        spec_days_before_year(y1) + 365 * (y2 - y1) <= spec_days_before_year(y2),
    decreases y2 - y1,
{
    if y1 < y2 {
        lemma_days_before_year_monotonic(y1, y2 - 1);
        lemma_days_before_year_step(y2 - 1);
    }
}

/// The month-count model grows by at least 28 days per month.
proof fn lemma_days_before_month_monotonic(y: int, m1: int, m2: int)
    requires
        1 <= m1 <= m2,
    ensures
        spec_days_before_month(y, m1) + 28 * (m2 - m1) <= spec_days_before_month(y, m2),
    decreases m2 - m1,
{
    if m1 < m2 {
        lemma_days_before_month_monotonic(y, m1, m2 - 1);
    }
}

/// The twelve months of a year sum to the year's length.
proof fn lemma_months_cover_year(y: int)
    ensures
        spec_days_before_month(y, 13) == spec_year_days(y),
{
    reveal_with_fuel(spec_days_before_month, 13);
}

/// Strict monotonicity of the conversion: of two valid dates ordered by
/// (year, month, day), the earlier one maps to the strictly smaller
/// timestamp.
pub proof fn lemma_timestamp_monotonic(y1: int, m1: int, d1: int, y2: int, m2: int, d2: int)
    requires
        spec_valid_date(y1, m1, d1),
        spec_valid_date(y2, m2, d2),
        y1 < y2 || (y1 == y2 && (m1 < m2 || (m1 == m2 && d1 < d2))),
    ensures
        spec_date_to_timestamp(y1, m1, d1) < spec_date_to_timestamp(y2, m2, d2),
{
    let days1 = spec_days_before_year(y1) + spec_days_before_month(y1, m1) + d1 - 1;
    let days2 = spec_days_before_year(y2) + spec_days_before_month(y2, m2) + d2 - 1;
    lemma_days_before_month_monotonic(y2, 1, m2);
    if y1 == y2 && m1 == m2 {
        assert(days1 < days2);
    } else if y1 == y2 {
        assert(spec_days_before_month(y1, m1 + 1) == spec_days_before_month(y1, m1)
            + spec_days_in_month(m1, y1));
        lemma_days_before_month_monotonic(y1, m1 + 1, m2);
        assert(days1 < days2);
    } else {
        assert(spec_days_before_month(y1, m1 + 1) == spec_days_before_month(y1, m1)
            + spec_days_in_month(m1, y1));
        lemma_days_before_month_monotonic(y1, m1 + 1, 13);
        lemma_months_cover_year(y1);
        lemma_days_before_year_step(y1);
        lemma_days_before_year_monotonic(y1 + 1, y2);
        assert(days1 < days2);
    }
    assert(days1 * 86400 < days2 * 86400) by (nonlinear_arith)
        requires
            days1 < days2,
    ;
}

/// Lexicographic order on two character sequences of equal length: they
/// agree up to some position, where the first holds the smaller character.
pub open spec fn spec_lex_less(s1: Seq<char>, s2: Seq<char>) -> bool {
    exists|k: int|
        0 <= k < s1.len() && k < s2.len() && (forall|j: int| 0 <= j < k ==> s1[j] == s2[j]) && (
        s1[k] as u32) < (s2[k] as u32)
}

/// Of two 8-digit strings in lexicographic order, the fields of the first
/// precede those of the second in (year, month, day) order.
proof fn lemma_lex_less_orders_fields(s1: Seq<char>, s2: Seq<char>)
    requires
        s1.len() == 8,
        s2.len() == 8,
        spec_all_digits(s1),
        spec_all_digits(s2),
        spec_lex_less(s1, s2),
    ensures
        spec_year_of(s1) < spec_year_of(s2) || (spec_year_of(s1) == spec_year_of(s2) && (
        spec_month_of(s1) < spec_month_of(s2) || (spec_month_of(s1) == spec_month_of(s2)
            && spec_day_of(s1) < spec_day_of(s2)))),
{
    let k = choose|k: int|
        0 <= k < s1.len() && k < s2.len() && (forall|j: int| 0 <= j < k ==> s1[j] == s2[j]) && (
        s1[k] as u32) < (s2[k] as u32);
    assert(forall|j: int| 0 <= j < 8 ==> spec_is_digit(s1[j]) && spec_is_digit(s2[j]));
    assert(spec_digit(s1[k]) < spec_digit(s2[k]));
    if k < 4 {
        assert(spec_year_of(s1) < spec_year_of(s2));
    } else if k < 6 {
        assert(spec_year_of(s1) == spec_year_of(s2));
        assert(spec_month_of(s1) < spec_month_of(s2));
    } else {
        assert(spec_year_of(s1) == spec_year_of(s2));
        assert(spec_month_of(s1) == spec_month_of(s2));
        assert(spec_day_of(s1) < spec_day_of(s2));
    }
}

/// Strict monotonicity over date strings: of two valid `YYYYMMDD` strings,
/// the lexicographically smaller one maps to the strictly smaller timestamp.
pub proof fn lemma_date_string_monotonic(s1: Seq<char>, s2: Seq<char>)
    requires
        spec_valid_date_string(s1),
        spec_valid_date_string(s2),
        spec_lex_less(s1, s2),
    ensures
        spec_date_to_timestamp(spec_year_of(s1), spec_month_of(s1), spec_day_of(s1))
            < spec_date_to_timestamp(spec_year_of(s2), spec_month_of(s2), spec_day_of(s2)),
{
    lemma_lex_less_orders_fields(s1, s2);
    lemma_timestamp_monotonic(
        spec_year_of(s1),
        spec_month_of(s1),
        spec_day_of(s1),
        spec_year_of(s2),
        spec_month_of(s2),
        spec_day_of(s2),
    );
}

/// Which [`ValidationError`] a given rejected date string produces.
pub open spec fn parse_date_error(s: Seq<char>, e: ValidationError) -> bool {
    if s.len() != 8 {
        e == ValidationError::WrongLength
    } else if !spec_all_digits(s) {
        e == ValidationError::NonDigit
    } else if !(1 <= spec_month_of(s) <= 12) {
        e == ValidationError::MonthOutOfRange
    } else {
        e == ValidationError::DayOutOfRange
    }
}

} // verus!
