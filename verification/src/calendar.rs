//! The proleptic Gregorian calendar: the date type that the date logic works on,
//! its validity, and the day count that orders dates and measures distances.
use vstd::arithmetic::div_mod::lemma_fundamental_div_mod;
use vstd::arithmetic::div_mod::lemma_fundamental_div_mod_converse;
use vstd::prelude::*;

verus! {

/// Smallest year that a calendar date of the date library can hold.
pub const MIN_YEAR: i32 = -262143;

/// Largest year that a calendar date of the date library can hold.
pub const MAX_YEAR: i32 = 262142;

/// A day of the proleptic Gregorian calendar, held as plain numbers.
#[derive(Clone, Copy, Debug, PartialEq, Eq, Structural)]
pub struct CivilDate {
    pub year: i32,
    pub month: u32,
    pub day: u32,
}

pub open spec fn is_leap_year(year: int) -> bool {
    year % 4 == 0 && (year % 100 != 0 || year % 400 == 0)
}

/// Number of days of `month` (1 to 12) in `year`.
pub open spec fn month_length(year: int, month: int) -> int {
    if month == 2 {
        if is_leap_year(year) {
            29
        } else {
            28
        }
    } else if month == 4 || month == 6 || month == 9 || month == 11 {
        30
    } else {
        31
    }
}

pub open spec fn year_length(year: int) -> int {
    if is_leap_year(year) {
        366
    } else {
        365
    }
}

/// Days from 0001-01-01 to the first day of `year` (negative before it).
#[verifier::opaque]
pub open spec fn days_before_year(year: int) -> int {
    let p = year - 1;
    365 * p + p / 4 - p / 100 + p / 400
}

/// Days from the first day of `year` to the first day of `month` in it.
pub open spec fn days_before_month(year: int, month: int) -> int {
    let base = if month <= 1 {
        0int
    } else if month == 2 {
        31
    } else if month == 3 {
        59
    } else if month == 4 {
        90
    } else if month == 5 {
        120
    } else if month == 6 {
        151
    } else if month == 7 {
        181
    } else if month == 8 {
        212
    } else if month == 9 {
        243
    } else if month == 10 {
        273
    } else if month == 11 {
        304
    } else {
        334
    };
    if month > 2 && is_leap_year(year) {
        base + 1
    } else {
        base
    }
}

impl CivilDate {
    /// The month and day name a day that exists.
    pub open spec fn is_valid(self) -> bool {
        &&& 1 <= self.month <= 12
        &&& 1 <= self.day <= month_length(self.year as int, self.month as int)
    }

    /// The year lies in the span of years that the date library covers.
    pub open spec fn in_range(self) -> bool {
        MIN_YEAR <= self.year <= MAX_YEAR
    }

    pub open spec fn well_formed(self) -> bool {
        self.is_valid() && self.in_range()
    }

    /// Days since 0001-01-01, which is day 0 (a Monday).
    pub open spec fn day_number(self) -> int {
        days_before_year(self.year as int) + days_before_month(self.year as int, self.month as int)
            + self.day - 1
    }

    /// Day of the week counted from Monday: 0 is Monday, 6 is Sunday.
    pub open spec fn weekday(self) -> int {
        self.day_number() % 7
    }
}

/// The first day of the date library's range, -262143-01-01.
pub open spec fn first_supported_day() -> int {
    days_before_year(MIN_YEAR as int)
}

/// The last day of the date library's range, 262142-12-31.
pub open spec fn last_supported_day() -> int {
    days_before_year(MAX_YEAR as int + 1) - 1
}

/// The date whose day number is `n`, for `n` in the supported span.
pub open spec fn date_of_day_number(n: int) -> CivilDate {
    choose|d: CivilDate| d.well_formed() && d.day_number() == n
}

/// The date `days` days after `d` (before it where `days` is negative).
pub open spec fn shift_days(d: CivilDate, days: int) -> CivilDate {
    date_of_day_number(d.day_number() + days)
}

/// The Monday that starts the week of `d`.
pub open spec fn monday_of(d: CivilDate) -> CivilDate {
    shift_days(d, -d.weekday())
}

/// The Sunday that ends the week of `d`.
pub open spec fn sunday_of(d: CivilDate) -> CivilDate {
    shift_days(d, 6 - d.weekday())
}

proof fn lemma_div_step(y: int, k: int)
    requires
        k > 0,
    ensures
        y / k - (y - 1) / k == (if y % k == 0 {
            1int
        } else {
            0int
        }),
{
    lemma_fundamental_div_mod(y, k);
    lemma_fundamental_div_mod(y - 1, k);
    let q = y / k;
    let r = y % k;
    assert(0 <= r < k);
    assert(k * q == q * k) by (nonlinear_arith);
    assert((q - 1) * k == q * k - k) by (nonlinear_arith);
    if r == 0 {
        lemma_fundamental_div_mod_converse(y - 1, k, q - 1, k - 1);
    } else {
        lemma_fundamental_div_mod_converse(y - 1, k, q, r - 1);
    }
}

/// A year has 365 days, or 366 in a leap year.
pub proof fn lemma_year_length(year: int)
    ensures
        days_before_year(year + 1) - days_before_year(year) == year_length(year),
{
    reveal(days_before_year);
    lemma_div_step(year, 4);
    lemma_div_step(year, 100);
    lemma_div_step(year, 400);
    lemma_fundamental_div_mod(year, 4);
    lemma_fundamental_div_mod(year, 100);
    lemma_fundamental_div_mod(year, 400);
    if year % 100 == 0 {
        // a multiple of 100 is a multiple of 4
        let q = year / 100;
        lemma_fundamental_div_mod_converse(year, 4, 25 * q, 0);
    }
    if year % 400 == 0 {
        let q = year / 400;
        lemma_fundamental_div_mod_converse(year, 100, 4 * q, 0);
        lemma_fundamental_div_mod_converse(year, 4, 100 * q, 0);
    }
}

/// From the first of a month to the first of the next there are as many days as the month has.
pub proof fn lemma_next_month_start(year: int, month: int)
    requires
        1 <= month <= 12,
    ensures
        (if month == 12 {
            days_before_year(year + 1)
        } else {
            days_before_year(year) + days_before_month(year, month + 1)
        }) - (days_before_year(year) + days_before_month(year, month)) == month_length(year, month),
{
    lemma_year_length(year);
}

/// The days of a year lie between its first day and the first day of the next.
pub proof fn lemma_day_number_in_year(d: CivilDate)
    requires
        d.is_valid(),
    ensures
        days_before_year(d.year as int) <= d.day_number() < days_before_year(d.year as int + 1),
{
    lemma_year_length(d.year as int);
}

/// Later years start later.
pub proof fn lemma_year_starts_ordered(y1: int, y2: int)
    requires
        y1 < y2,
    ensures
        days_before_year(y1 + 1) <= days_before_year(y2),
    decreases y2 - y1,
{
    if y1 + 1 < y2 {
        lemma_year_starts_ordered(y1, y2 - 1);
        lemma_year_length(y2 - 1);
    }
}

/// Two days with the same day number are the same day.
pub proof fn lemma_day_number_injective(a: CivilDate, b: CivilDate)
    requires
        a.is_valid(),
        b.is_valid(),
        a.day_number() == b.day_number(),
    ensures
        a == b,
{
    lemma_day_number_in_year(a);
    lemma_day_number_in_year(b);
    if a.year < b.year {
        lemma_year_starts_ordered(a.year as int, b.year as int);
    } else if b.year < a.year {
        lemma_year_starts_ordered(b.year as int, a.year as int);
    }
    assert(a.year == b.year);
    let y = a.year as int;
    if a.month < b.month {
        lemma_month_starts_ordered(y, a.month as int, b.month as int);
    } else if b.month < a.month {
        lemma_month_starts_ordered(y, b.month as int, a.month as int);
    }
}

/// A later month of the same year starts after the earlier one has ended.
pub proof fn lemma_month_starts_ordered(year: int, m1: int, m2: int)
    requires
        1 <= m1 < m2 <= 12,
    ensures
        days_before_month(year, m1) + month_length(year, m1) <= days_before_month(year, m2),
{
}

/// A well-formed date is the date of its own day number.
pub proof fn lemma_date_of_own_day_number(d: CivilDate)
    requires
        d.well_formed(),
    ensures
        date_of_day_number(d.day_number()) == d,
{
    let n = d.day_number();
    assert(exists|e: CivilDate| e.well_formed() && e.day_number() == n);
    let c = date_of_day_number(n);
    lemma_day_number_injective(c, d);
}

/// The first day of the supported span is 1 January of the first supported year.
pub proof fn lemma_range_bounds(d: CivilDate)
    requires
        d.is_valid(),
    ensures
        d.in_range() <==> first_supported_day() <= d.day_number() <= last_supported_day(),
{
    lemma_day_number_in_year(d);
    if d.year < MIN_YEAR {
        lemma_year_starts_ordered(d.year as int, MIN_YEAR as int);
    }
    if d.year > MAX_YEAR {
        lemma_year_starts_ordered(MAX_YEAR as int, d.year as int);
    }
    if d.in_range() {
        if d.year > MIN_YEAR {
            lemma_year_starts_ordered(MIN_YEAR as int, d.year as int);
            lemma_year_length(MIN_YEAR as int);
        }
        if d.year < MAX_YEAR {
            lemma_year_starts_ordered(d.year as int, MAX_YEAR as int);
            lemma_year_length(MAX_YEAR as int);
        }
    }
}

proof fn lemma_find_year(n: int, y: int)
    requires
        MIN_YEAR <= y <= MAX_YEAR,
        days_before_year(y) <= n < days_before_year(MAX_YEAR as int + 1),
    ensures
        exists|yy: int|
            y <= yy <= MAX_YEAR && days_before_year(yy) <= n < #[trigger] days_before_year(yy + 1),
    decreases n - days_before_year(y),
{
    lemma_year_length(y);
    if n >= days_before_year(y + 1) {
        if y == MAX_YEAR {
            assert(false);
        }
        lemma_find_year(n, y + 1);
        let yy = choose|yy: int|
            y + 1 <= yy <= MAX_YEAR && days_before_year(yy) <= n < #[trigger] days_before_year(
                yy + 1,
            );
        assert(y <= yy);
    } else {
        assert(days_before_year(y) <= n < days_before_year(y + 1));
    }
}

proof fn lemma_find_month(year: int, offset: int, m: int)
    requires
        1 <= m <= 12,
        0 <= offset < days_before_month(year, m) + month_length(year, m),
    ensures
        exists|mm: int|
            1 <= mm <= m && days_before_month(year, mm) <= offset < days_before_month(year, mm)
                + #[trigger] month_length(year, mm),
    decreases m,
{
    if offset < days_before_month(year, m) {
        lemma_find_month(year, offset, m - 1);
        let mm = choose|mm: int|
            1 <= mm <= m - 1 && days_before_month(year, mm) <= offset < days_before_month(year, mm)
                + #[trigger] month_length(year, mm);
        assert(mm <= m);
    } else {
        assert(days_before_month(year, m) <= offset < days_before_month(year, m) + month_length(
            year,
            m,
        ));
    }
}

/// Every day of the supported span is the day number of a well-formed date.
pub proof fn lemma_day_number_onto(n: int)
    requires
        first_supported_day() <= n <= last_supported_day(),
    ensures
        date_of_day_number(n).well_formed(),
        date_of_day_number(n).day_number() == n,
{
    lemma_find_year(n, MIN_YEAR as int);
    let y = choose|yy: int|
        MIN_YEAR <= yy <= MAX_YEAR && days_before_year(yy) <= n < #[trigger] days_before_year(
            yy + 1,
        );
    lemma_year_length(y);
    let offset = n - days_before_year(y);
    lemma_find_month(y, offset, 12);
    let m = choose|mm: int|
        1 <= mm <= 12 && days_before_month(y, mm) <= offset < days_before_month(y, mm)
            + #[trigger] month_length(y, mm);
    let d = CivilDate { year: y as i32, month: m as u32, day: (offset - days_before_month(y, m) + 1) as u32 };
    assert(d.well_formed() && d.day_number() == n);
}

/// The date a given number of days from a date, within the supported span, is
/// well formed and lies at that distance.
pub proof fn lemma_shift_days(d: CivilDate, days: int)
    requires
        first_supported_day() <= d.day_number() + days <= last_supported_day(),
    ensures
        shift_days(d, days).well_formed(),
        shift_days(d, days).day_number() == d.day_number() + days,
{
    lemma_day_number_onto(d.day_number() + days);
}

/// A day whose number is a multiple of 7 past another's shares its weekday.
pub proof fn lemma_weekday_of_number(n: int, w: int)
    requires
        0 <= w < 7,
    ensures
        (n - n % 7 + w) % 7 == w,
{
    lemma_fundamental_div_mod(n, 7);
    let q = n / 7;
    assert(n - n % 7 + w == 7 * q + w);
    lemma_fundamental_div_mod_converse(n - n % 7 + w, 7, q, w);
}

/// Dates compare by day number as their (year, month, day) compare in order.
pub proof fn lemma_day_order_is_lexicographic(a: CivilDate, b: CivilDate)
    requires
        a.is_valid(),
        b.is_valid(),
    ensures
        a.day_number() <= b.day_number() <==> (a.year < b.year || (a.year == b.year && (a.month
            < b.month || (a.month == b.month && a.day <= b.day)))),
{
    lemma_day_number_in_year(a);
    lemma_day_number_in_year(b);
    if a.year < b.year {
        lemma_year_starts_ordered(a.year as int, b.year as int);
    } else if b.year < a.year {
        lemma_year_starts_ordered(b.year as int, a.year as int);
    } else if a.month < b.month {
        lemma_month_starts_ordered(a.year as int, a.month as int, b.month as int);
    } else if b.month < a.month {
        lemma_month_starts_ordered(a.year as int, b.month as int, a.month as int);
    }
}

/// The day numbers of the first and last day of the supported span.
pub proof fn lemma_supported_day_values()
    ensures
        first_supported_day() == -95746130,
        last_supported_day() == 95745398,
{
    reveal(days_before_year);
}

} // verus!
