//! The proleptic Gregorian calendar, counted in days from 1 January 1970.
use vstd::arithmetic::div_mod::lemma_fundamental_div_mod_converse;
use vstd::prelude::*;

verus! {

/// A calendar date: `month` from 1 to 12, `day` from 1.
#[derive(Debug, Clone, Copy, PartialEq, Eq)]
pub struct Date {
    pub year: u64,
    pub month: u8,
    pub day: u8,
}

/// Whether year `y` has a 29th of February.
pub open spec fn is_leap_year(y: int) -> bool {
    (y % 4 == 0 && y % 100 != 0) || y % 400 == 0
}

/// The number of days of year `y`.
pub open spec fn days_in_year(y: int) -> int {
    if is_leap_year(y) {
        366
    } else {
        365
    }
}

/// The number of days of month `m` (1 to 12) of year `y`.
pub open spec fn days_in_month(y: int, m: int) -> int {
    if m == 2 {
        if is_leap_year(y) {
            29
        } else {
            28
        }
    } else if m == 4 || m == 6 || m == 9 || m == 11 {
        30
    } else {
        31
    }
}

/// The number of days from 1 January 1970 to 1 January of year `y`.
pub open spec fn days_before_year(y: int) -> int
    decreases y - 1970,
{
    if y <= 1970 {
        0
    } else {
        days_before_year(y - 1) + days_in_year(y - 1)
    }
}

/// The number of days from 1 January of year `y` to the first of its month `m`.
pub open spec fn days_before_month(y: int, m: int) -> int
    decreases m,
{
    if m <= 1 {
        0
    } else {
        days_before_month(y, m - 1) + days_in_month(y, m - 1)
    }
}

/// The number of leap years among the years 1 to `y - 1`.
pub open spec fn leap_years_before(y: int) -> int {
    (y - 1) / 4 - (y - 1) / 100 + (y - 1) / 400
}

/// The number of days in four hundred years, after which the calendar repeats.
pub const CYCLE_DAYS: u64 = 146097;

/// Whether `date` is the calendar date of the day that lies `days` days after 1 January 1970.
pub open spec fn is_date_of(days: int, date: Date) -> bool {
    &&& date.year >= 1970
    &&& 1 <= date.month <= 12
    &&& 1 <= date.day <= days_in_month(date.year as int, date.month as int)
    &&& days == days_before_year(date.year as int) + days_before_month(
        date.year as int,
        date.month as int,
    ) + date.day - 1
}

/// The calendar date of the day that lies `days` days after 1 January 1970.
pub open spec fn date_of(days: int) -> Date {
    choose|date: Date| is_date_of(days, date)
}

/// Day of the week, 0 for Sunday to 6 for Saturday (1 January 1970 was a Thursday).
pub open spec fn weekday_of(days: int) -> int {
    (days + 4) % 7
}

/// Later years begin later: a whole year lies between.
pub proof fn lemma_years_ascend(a: int, b: int)
    requires
        1970 <= a < b,
    ensures
        days_before_year(a) + days_in_year(a) <= days_before_year(b),
    decreases b - a,
{
    if a + 1 < b {
        lemma_years_ascend(a, b - 1);
    }
}

/// The days before a year, counted in one step: 365 for each year since 1970, and one more
/// for each leap year among them.
pub proof fn lemma_days_before_year(y: int)
    requires
        y >= 1970,
    ensures
        days_before_year(y) == 365 * (y - 1970) + leap_years_before(y) - leap_years_before(1970),
    decreases y - 1970,
{
    if y > 1970 {
        lemma_days_before_year(y - 1);
        assert(leap_years_before(y) - leap_years_before(y - 1) == if is_leap_year(y - 1) {
            1int
        } else {
            0int
        });
    }
}

/// Four hundred years hold as many days, wherever they begin.
pub proof fn lemma_cycle(cycles: int)
    requires
        cycles >= 0,
    ensures
        days_before_year(1970 + 400 * cycles) == CYCLE_DAYS * cycles,
{
    let last = 1969 + 400 * cycles;
    lemma_days_before_year(last + 1);
    lemma_fundamental_div_mod_converse(last, 4, 492 + 100 * cycles, 1);
    lemma_fundamental_div_mod_converse(last, 100, 19 + 4 * cycles, 69);
    lemma_fundamental_div_mod_converse(last, 400, 4 + cycles, 369);
    assert(leap_years_before(last + 1) == 477 + 97 * cycles);
    assert(leap_years_before(1970) == 477);
}

/// The twelve months fill the year.
pub proof fn lemma_months_fill_year(y: int)
    ensures
        days_before_month(y, 13) == days_in_year(y),
        forall|m: int| 1 <= m <= 12 ==> 0 <= #[trigger] days_before_month(y, m),
        forall|m: int|
            1 <= m <= 12 ==> #[trigger] days_before_month(y, m) + days_in_month(y, m)
                == days_before_month(y, m + 1),
        forall|a: int, b: int|
            1 <= a <= b <= 13 ==> #[trigger] days_before_month(y, a) <= #[trigger] days_before_month(
                y,
                b,
            ),
{
    reveal_with_fuel(days_before_month, 14);
    assert forall|a: int, b: int| 1 <= a <= b <= 13 implies #[trigger] days_before_month(y, a)
        <= #[trigger] days_before_month(y, b) by {
        lemma_months_ascend(y, a, b);
    }
}

/// Later months begin later.
pub proof fn lemma_months_ascend(y: int, a: int, b: int)
    requires
        1 <= a <= b,
    ensures
        days_before_month(y, a) <= days_before_month(y, b),
    decreases b - a,
{
    if a < b {
        lemma_months_ascend(y, a, b - 1);
    }
}

/// A day has one calendar date.
pub proof fn lemma_date_unique(days: int, first: Date, second: Date)
    requires
        is_date_of(days, first),
        is_date_of(days, second),
    ensures
        first == second,
{
    let y1 = first.year as int;
    let y2 = second.year as int;
    lemma_months_fill_year(y1);
    lemma_months_fill_year(y2);
    assert(days_before_month(y1, first.month as int) + days_in_month(y1, first.month as int)
        <= days_before_month(y1, 13));
    assert(days_before_month(y2, second.month as int) + days_in_month(y2, second.month as int)
        <= days_before_month(y2, 13));
    if y1 < y2 {
        lemma_years_ascend(y1, y2);
    } else if y2 < y1 {
        lemma_years_ascend(y2, y1);
    } else {
        let m1 = first.month as int;
        let m2 = second.month as int;
        if m1 < m2 {
            assert(days_before_month(y1, m1 + 1) <= days_before_month(y1, m2));
        } else if m2 < m1 {
            assert(days_before_month(y1, m2 + 1) <= days_before_month(y1, m1));
        }
    }
}

/// A date that is the calendar date of a day is the one that `date_of` names.
pub proof fn lemma_date_of(days: int, date: Date)
    requires
        is_date_of(days, date),
    ensures
        date_of(days) == date,
{
    lemma_date_unique(days, date, date_of(days));
}

/// Whether year `year` has a 29th of February.
pub fn leap_year(year: u64) -> (r: bool)
    ensures
        r == is_leap_year(year as int),
{
    (year % 4 == 0 && year % 100 != 0) || year % 400 == 0
}

/// The number of days of month `month` of year `year`.
pub fn month_length(year: u64, month: u8) -> (r: u64)
    requires
        1 <= month <= 12,
    ensures
        r == days_in_month(year as int, month as int),
{
    if month == 2 {
        if leap_year(year) {
            29
        } else {
            28
        }
    } else if month == 4 || month == 6 || month == 9 || month == 11 {
        30
    } else {
        31
    }
}

/// The calendar date of the day that lies `days` days after 1 January 1970. Whole cycles of
/// four hundred years are stepped over at once, the years of the last cycle one by one.
pub fn date_from_days(days: u64) -> (date: Date)
    ensures
        is_date_of(days as int, date),
        date == date_of(days as int),
{
    let cycles: u64 = days / CYCLE_DAYS;
    let first: u64 = 1970 + 400 * cycles;
    let mut year: u64 = first;
    let mut rest: u64 = days % CYCLE_DAYS;
    proof {
        lemma_cycle(cycles as int);
    }
    loop
        invariant
            year >= first >= 1970,
            rest < CYCLE_DAYS,
            first <= u64::MAX - 401,
            (year - first) * 365 + rest < CYCLE_DAYS,
            rest + days_before_year(year as int) == days,
        ensures
            rest < days_in_year(year as int),
        decreases rest,
    {
        let length: u64 = if leap_year(year) {
            366
        } else {
            365
        };
        if rest < length {
            break;
        }
        rest -= length;
        year += 1;
    }
    proof {
        lemma_months_fill_year(year as int);
    }
    let ghost in_year = rest;
    let mut month: u8 = 1;
    loop
        invariant
            1 <= month <= 12,
            rest + days_before_month(year as int, month as int) == in_year,
            in_year < days_before_month(year as int, 13),
            forall|m: int|
                1 <= m <= 12 ==> #[trigger] days_before_month(year as int, m) + days_in_month(
                    year as int,
                    m,
                ) == days_before_month(year as int, m + 1),
        ensures
            rest < days_in_month(year as int, month as int),
        decreases 12 - month,
    {
        let length = month_length(year, month);
        if rest < length {
            break;
        }
        assert(month < 12) by {
            assert(days_before_month(year as int, 12) + days_in_month(year as int, 12)
                == days_before_month(year as int, 13));
        }
        rest -= length;
        month += 1;
    }
    let date = Date { year, month, day: (rest + 1) as u8 };
    proof {
        lemma_date_of(days as int, date);
    }
    date
}

} // verus!
