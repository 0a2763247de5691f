//! Calendar arithmetic on Gregorian dates from the year 1900 on.
//!
//! A `Date` is a year, month and day triple.  The module answers day-of-year
//! and day-of-week queries and advances a date by months or by days.  Day
//! counting is anchored at the first of January 1900, a Monday.

use vstd::arithmetic::div_mod::lemma_add_mod_noop;
use vstd::prelude::*;

verus! {

#[derive(Eq, PartialEq, Debug, Clone, Copy, Structural)]
pub enum Month {
    Jan,
    Feb,
    Mar,
    Apr,
    May,
    Jun,
    Jul,
    Aug,
    Sep,
    Oct,
    Nov,
    Dec,
}

/// Zero-based position of a month within the year.
pub open spec fn month_index(m: Month) -> int {
    match m {
        Month::Jan => 0,
        Month::Feb => 1,
        Month::Mar => 2,
        Month::Apr => 3,
        Month::May => 4,
        Month::Jun => 5,
        Month::Jul => 6,
        Month::Aug => 7,
        Month::Sep => 8,
        Month::Oct => 9,
        Month::Nov => 10,
        Month::Dec => 11,
    }
}

/// The month with the given zero-based position.
pub open spec fn month_of_index(i: int) -> Month {
    if i == 0 {
        Month::Jan
    } else if i == 1 {
        Month::Feb
    } else if i == 2 {
        Month::Mar
    } else if i == 3 {
        Month::Apr
    } else if i == 4 {
        Month::May
    } else if i == 5 {
        Month::Jun
    } else if i == 6 {
        Month::Jul
    } else if i == 7 {
        Month::Aug
    } else if i == 8 {
        Month::Sep
    } else if i == 9 {
        Month::Oct
    } else if i == 10 {
        Month::Nov
    } else {
        Month::Dec
    }
}

/// The month that follows `m`, December wrapping to January.
pub open spec fn month_succ(m: Month) -> Month {
    month_of_index((month_index(m) + 1) % 12)
}

/// Days in `m` in a year that is not a leap year.
pub open spec fn spec_non_leap_days(m: Month) -> int {
    match m {
        Month::Jan => 31,
        Month::Feb => 28,
        Month::Mar => 31,
        Month::Apr => 30,
        Month::May => 31,
        Month::Jun => 30,
        Month::Jul => 31,
        Month::Aug => 31,
        Month::Sep => 30,
        Month::Oct => 31,
        Month::Nov => 30,
        Month::Dec => 31,
    }
}

/// Days that precede the first of `m` in a year that is not a leap year.
pub open spec fn spec_month_offset(m: Month) -> int {
    match m {
        Month::Jan => 0,
        Month::Feb => 31,
        Month::Mar => 59,
        Month::Apr => 90,
        Month::May => 120,
        Month::Jun => 151,
        Month::Jul => 181,
        Month::Aug => 212,
        Month::Sep => 243,
        Month::Oct => 273,
        Month::Nov => 304,
        Month::Dec => 334,
    }
}

impl Month {
    /// Days that precede the first of this month in a non-leap year.
    pub fn non_leap_year_start_doy_offset(self: &Self) -> (r: u16)
        ensures
            r == spec_month_offset(*self),
    {
        match self {
            Month::Jan => 0,
            Month::Feb => 31,
            Month::Mar => 31 + 28,
            Month::Apr => 31 + 28 + 31,
            Month::May => 31 + 28 + 31 + 30,
            Month::Jun => 31 + 28 + 31 + 30 + 31,
            Month::Jul => 31 + 28 + 31 + 30 + 31 + 30,
            Month::Aug => 31 + 28 + 31 + 30 + 31 + 30 + 31,
            Month::Sep => 31 + 28 + 31 + 30 + 31 + 30 + 31 + 31,
            Month::Oct => 31 + 28 + 31 + 30 + 31 + 30 + 31 + 31 + 30,
            Month::Nov => 31 + 28 + 31 + 30 + 31 + 30 + 31 + 31 + 30 + 31,
            Month::Dec => 31 + 28 + 31 + 30 + 31 + 30 + 31 + 31 + 30 + 31 + 30,
        }
    }

    /// Days in this month in a non-leap year.
    pub fn non_leap_year_days_in_month(self: &Self) -> (r: u8)
        ensures
            r == spec_non_leap_days(*self),
    {
        match self {
            Month::Jan => 31,
            Month::Feb => 28,
            Month::Mar => 31,
            Month::Apr => 30,
            Month::May => 31,
            Month::Jun => 30,
            Month::Jul => 31,
            Month::Aug => 31,
            Month::Sep => 30,
            Month::Oct => 31,
            Month::Nov => 30,
            Month::Dec => 31,
        }
    }

    /// The month whose zero-based position is `x` taken modulo twelve.
    pub fn from_u16(x: u16) -> (m: Month)
        ensures
            m == month_of_index(x as int % 12),
    {
        match x % 12 {
            0 => Month::Jan,
            1 => Month::Feb,
            2 => Month::Mar,
            3 => Month::Apr,
            4 => Month::May,
            5 => Month::Jun,
            6 => Month::Jul,
            7 => Month::Aug,
            8 => Month::Sep,
            9 => Month::Oct,
            10 => Month::Nov,
            _ => Month::Dec,
        }
    }

    /// The zero-based position of this month.
    pub fn index(self: &Self) -> (i: u16)
        ensures
            i == month_index(*self),
    {
        match self {
            Month::Jan => 0,
            Month::Feb => 1,
            Month::Mar => 2,
            Month::Apr => 3,
            Month::May => 4,
            Month::Jun => 5,
            Month::Jul => 6,
            Month::Aug => 7,
            Month::Sep => 8,
            Month::Oct => 9,
            Month::Nov => 10,
            Month::Dec => 11,
        }
    }

    /// The month `rhs` places after this one, wrapping around the year.
    pub fn plus(self: &Self, rhs: u16) -> (m: Month)
        requires
            month_index(*self) + rhs <= u16::MAX,
        ensures
            m == month_of_index((month_index(*self) + rhs) % 12),
    {
        let x: u16 = self.index();
        Month::from_u16(x + rhs)
    }
}

/// The Gregorian leap-year rule: divisible by four, except centuries not
/// divisible by four hundred.
pub open spec fn spec_is_leap_year(y: int) -> bool {
    y % 4 == 0 && !(y % 100 == 0 && y % 400 != 0)
}

/// Leap years from 1900 inclusive up to `y` exclusive.
pub open spec fn leap_years_since_1900(y: int) -> int
    decreases y - 1900,
{
    if y <= 1900 {
        0
    } else {
        leap_years_since_1900(y - 1) + if spec_is_leap_year(y - 1) {
            1int
        } else {
            0int
        }
    }
}

/// There is at most one leap year per year counted.
pub proof fn lemma_leap_count_bounds(y: int)
    requires
        y >= 1900,
    ensures
        0 <= leap_years_since_1900(y) <= y - 1900,
    decreases y - 1900,
{
    if y > 1900 {
        lemma_leap_count_bounds(y - 1);
    }
}

/// Days in `m` in year `y`.
pub open spec fn spec_days_in_month(y: int, m: Month) -> int {
    spec_non_leap_days(m) + if m == Month::Feb && spec_is_leap_year(y) {
        1int
    } else {
        0int
    }
}

/// The day numbers `new` accepts for year `y` and month `m`.  In a leap
/// year every February day number above twenty-nine is let through as
/// well: the check keeps the historical shape of this calculator.
pub open spec fn date_accepted(y: int, m: Month, d: int) -> bool {
    (1 <= d <= spec_non_leap_days(m)) || (m == Month::Feb && spec_is_leap_year(y) && d > 29)
}

#[derive(Debug, Eq, PartialEq, Clone, Copy, Structural)]
pub struct Date {
    pub year: i16,
    pub month: Month,
    pub day_of_month: u8,
}

/// The date one day later.  The day steps within the month, rolls to the
/// first of the next month, and from late December into the next year.
pub open spec fn spec_next_day(d: Date) -> Date {
    if d.day_of_month < spec_days_in_month(d.year as int, d.month) {
        Date { day_of_month: (d.day_of_month + 1) as u8, ..d }
    } else if d.month != Month::Dec {
        Date { month: month_succ(d.month), day_of_month: 1, ..d }
    } else {
        Date { year: (d.year + 1) as i16, month: Month::Jan, day_of_month: 1 }
    }
}

/// The date `n` days later, one day at a time.
pub open spec fn spec_add_days(d: Date, n: nat) -> Date
    decreases n,
{
    if n == 0 {
        d
    } else {
        spec_add_days(spec_next_day(d), (n - 1) as nat)
    }
}

/// The first day of the month that follows `d`'s month.
pub open spec fn spec_month_roll(d: Date) -> Date {
    if d.month != Month::Dec {
        Date { month: month_succ(d.month), day_of_month: 1, ..d }
    } else {
        Date { year: (d.year + 1) as i16, month: Month::Jan, day_of_month: 1 }
    }
}

/// Day-of-week position with Sunday at zero, as `dow` counts.
pub open spec fn dow_index(d: DayOfWeek) -> int {
    match d {
        DayOfWeek::Sunday => 0,
        DayOfWeek::Monday => 1,
        DayOfWeek::Tuesday => 2,
        DayOfWeek::Wednesday => 3,
        DayOfWeek::Thursday => 4,
        DayOfWeek::Friday => 5,
        DayOfWeek::Saturday => 6,
    }
}

/// The weekday with the given position.
pub open spec fn dow_of_index(i: int) -> DayOfWeek {
    if i == 0 {
        DayOfWeek::Sunday
    } else if i == 1 {
        DayOfWeek::Monday
    } else if i == 2 {
        DayOfWeek::Tuesday
    } else if i == 3 {
        DayOfWeek::Wednesday
    } else if i == 4 {
        DayOfWeek::Thursday
    } else if i == 5 {
        DayOfWeek::Friday
    } else {
        DayOfWeek::Saturday
    }
}

/// Weekday position of the first of January of year `y`: one step past
/// Sunday for 1900, then one weekday per elapsed year plus one per leap
/// year.
pub open spec fn spec_dow_start_index(y: int) -> int {
    (1 + (y - 1900) + leap_years_since_1900(y)) % 7
}

/// Day of year as this calculator counts it: the non-leap start offset of
/// the month, plus the day, plus one, plus one more within a leap
/// February.
pub open spec fn spec_doy(d: Date) -> int {
    spec_month_offset(d.month) + d.day_of_month + 1 + if d.month == Month::Feb
        && spec_is_leap_year(d.year as int) {
        1int
    } else {
        0int
    }
}

impl Date {
    /// A date from its parts; the day must be one `date_accepted` allows.
    pub fn new(y: i16, m: Month, d: u8) -> (r: Date)
        requires
            date_accepted(y as int, m, d as int),
        ensures
            r.year == y,
            r.month == m,
            r.day_of_month == d,
    {
        Date { year: y, month: m, day_of_month: d }
    }

    /// Whether year `y` is a leap year.
    pub fn is_year_leap_year(year: i16) -> (r: bool)
        ensures
            r == spec_is_leap_year(year as int),
    {
        let four = year % 4 == 0;
        let cent = year % 100 == 0;
        let fourcent = year % 400 == 0;
        four && !(cent && !fourcent)
    }

    /// Whether this date's year is a leap year.
    pub fn is_leap_year(self: &Self) -> (r: bool)
        ensures
            r == spec_is_leap_year(self.year as int),
    {
        Date::is_year_leap_year(self.year)
    }

    /// Weekday of the first of January of this date's year.
    pub fn dow_start_of_year(self: &Self) -> (r: DayOfWeek)
        requires
            1900 <= self.year <= 18000,
        ensures
            dow_index(r) == spec_dow_start_index(self.year as int),
    {
        let mut y: i16 = 1900;
        let mut leap_year_count: i16 = 0;
        while y < self.year
            invariant
                1900 <= y <= self.year,
                self.year <= 18000,
                leap_year_count == leap_years_since_1900(y as int),
                0 <= leap_year_count <= y - 1900,
            decreases self.year - y,
        {
            proof {
                lemma_leap_count_bounds(y as int);
            }
            if Date::is_year_leap_year(y) {
                leap_year_count += 1;
            }
            y += 1;
        }
        let x: i16 = 1 + (self.year - 1900) + leap_year_count;
        DayOfWeek::from_u16((x as u16) % 7)
    }

    /// Weekday of this date: the year's starting weekday advanced by the
    /// day of year.
    pub fn dow(self: &Self) -> (r: DayOfWeek)
        requires
            1900 <= self.year <= 18000,
        ensures
            dow_index(r) == (spec_dow_start_index(self.year as int) + spec_doy(*self) - 1) % 7,
    {
        let start = self.dow_start_of_year();
        let r = start.plus(self.doy() - 1);
        proof {
            lemma_add_mod_noop(
                1 + (self.year as int - 1900) + leap_years_since_1900(self.year as int),
                spec_doy(*self) - 1,
                7,
            );
        }
        r
    }

    /// Day of year of this date.
    pub fn doy(self: &Self) -> (r: u16)
        ensures
            r == spec_doy(*self),
            1 <= r <= 591,
    {
        (self.month.non_leap_year_start_doy_offset() + (self.day_of_month as u16)) + 1 + if self
            .month == Month::Feb && self.is_leap_year() {
            1
        } else {
            0
        }
    }

    /// Days in this date's month.
    pub fn days_in_month(self: &Self) -> (r: u8)
        ensures
            r == spec_days_in_month(self.year as int, self.month),
    {
        self.month.non_leap_year_days_in_month() + if self.month == Month::Feb
            && self.is_leap_year() {
            1
        } else {
            0
        }
    }

    /// The date `i` months later: the month advances around the year, the
    /// year grows by the whole years, and the day is clamped to the new
    /// month's length.
    pub fn add_months(self: &Self, i: u16) -> (r: Date)
        requires
            self.year + i as int / 12 <= i16::MAX,
        ensures
            r.year == self.year + i as int / 12,
            r.month == month_of_index((month_index(self.month) + i as int % 12) % 12),
            r.day_of_month == if self.day_of_month > spec_days_in_month(r.year as int, r.month) {
                spec_days_in_month(r.year as int, r.month) as u8
            } else {
                self.day_of_month
            },
    {
        let m = self.month.plus(i % 12);
        let y = self.year + (i / 12) as i16;
        let mut dom = self.day_of_month;
        let mut d = Date::new(y, m, 1);
        if dom > d.days_in_month() {
            dom = d.days_in_month();
        }
        d.day_of_month = dom;
        d
    }

    /// The date `i` days later, stepping day by day.
    pub fn add_days(self: &Self, i: u16) -> (r: Date)
        requires
            1 <= self.day_of_month <= spec_days_in_month(self.year as int, self.month),
            self.day_of_month + i <= u16::MAX,
            self.year <= 32000,
        ensures
            r == spec_add_days(*self, i as nat),
    {
        let ghost d0 = *self;
        let ghost i0 = i;
        let mut i = i;
        let mut d = self.clone();
        while i > 0
            invariant
                spec_add_days(d0, i0 as nat) == spec_add_days(d, i as nat),
                1 <= d.day_of_month <= spec_days_in_month(d.year as int, d.month),
                d.day_of_month + i <= u16::MAX,
                d0.year <= d.year,
                d0.year <= 32000,
                365 * (d.year - d0.year) + spec_month_offset(d.month) + d.day_of_month <= 365 + (
                i0 - i),
            decreases i,
        {
            let dim = d.days_in_month();
            if ((d.day_of_month as u16) + i) > (dim as u16) {
                let k: u16 = (dim - d.day_of_month + 1) as u16;
                proof {
                    lemma_month_roll(d);
                    lemma_add_days_split(d, k as nat, (i - k) as nat);
                    lemma_month_index_unique();
                    assert(spec_month_offset(month_succ(d.month)) == spec_month_offset(d.month)
                        + spec_non_leap_days(d.month) || d.month == Month::Dec);
                }
                i -= k;
                d.month = d.month.plus(1);
                d.day_of_month = 1;
                if d.month.index() == 0 {
                    d.year += 1;
                }
            } else {
                proof {
                    lemma_add_within_month(d, i as nat);
                }
                d.day_of_month += i as u8;
                i = 0;
            }
        }
        d
    }
}

/// Month positions name their months uniquely.
pub proof fn lemma_month_index_unique()
    ensures
        forall|a: Month, b: Month| month_index(a) == month_index(b) ==> a == b,
        forall|a: Month| month_of_index(month_index(a)) == a,
{
}

/// Adding a sum of days is adding the parts one after the other.
pub proof fn lemma_add_days_split(d: Date, a: nat, b: nat)
    ensures
        spec_add_days(d, a + b) == spec_add_days(spec_add_days(d, a), b),
    decreases a,
{
    if a > 0 {
        lemma_add_days_split(spec_next_day(d), (a - 1) as nat, b);
    }
}

/// Day steps that stay inside the month only move the day of the month.
pub proof fn lemma_add_within_month(d: Date, n: nat)
    requires
        1 <= d.day_of_month,
        d.day_of_month + n <= spec_days_in_month(d.year as int, d.month),
    ensures
        spec_add_days(d, n) == (Date { day_of_month: (d.day_of_month + n) as u8, ..d }),
    decreases n,
{
    if n > 0 {
        lemma_add_within_month(spec_next_day(d), (n - 1) as nat);
    }
}

/// Stepping from any day of a month past its end lands on the first of
/// the next month.
pub proof fn lemma_month_roll(d: Date)
    requires
        1 <= d.day_of_month <= spec_days_in_month(d.year as int, d.month),
    ensures
        spec_add_days(d, (spec_days_in_month(d.year as int, d.month) - d.day_of_month + 1) as nat)
            == spec_month_roll(d),
    decreases spec_days_in_month(d.year as int, d.month) - d.day_of_month,
{
    let dim = spec_days_in_month(d.year as int, d.month);
    if d.day_of_month == dim {
        assert(spec_add_days(d, 1) == spec_add_days(spec_next_day(d), 0));
    } else {
        lemma_month_roll(spec_next_day(d));
    }
}

#[derive(Eq, PartialEq, Debug, Clone, Copy, Structural)]
pub enum DayOfWeek {
    Sunday,
    Monday,
    Tuesday,
    Wednesday,
    Thursday,
    Friday,
    Saturday,
}

impl DayOfWeek {
    /// The weekday whose position is `x` taken modulo seven.
    pub fn from_u16(x: u16) -> (r: DayOfWeek)
        ensures
            r == dow_of_index(x as int % 7),
            dow_index(r) == x as int % 7,
    {
        match x % 7 {
            0 => DayOfWeek::Sunday,
            1 => DayOfWeek::Monday,
            2 => DayOfWeek::Tuesday,
            3 => DayOfWeek::Wednesday,
            4 => DayOfWeek::Thursday,
            5 => DayOfWeek::Friday,
            _ => DayOfWeek::Saturday,
        }
    }

    /// The zero-based position of this weekday.
    pub fn index(self: &Self) -> (i: u16)
        ensures
            i == dow_index(*self),
    {
        match self {
            DayOfWeek::Sunday => 0,
            DayOfWeek::Monday => 1,
            DayOfWeek::Tuesday => 2,
            DayOfWeek::Wednesday => 3,
            DayOfWeek::Thursday => 4,
            DayOfWeek::Friday => 5,
            DayOfWeek::Saturday => 6,
        }
    }

    /// The weekday `rhs` places after this one, wrapping around the week.
    pub fn plus(self: &Self, rhs: u16) -> (r: DayOfWeek)
        requires
            dow_index(*self) + rhs <= u16::MAX,
        ensures
            dow_index(r) == (dow_index(*self) + rhs) % 7,
    {
        let x: u16 = self.index();
        DayOfWeek::from_u16(x + rhs)
    }
}

} // verus!
