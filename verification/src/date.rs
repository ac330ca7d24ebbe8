//! Calendar dates in the proleptic Gregorian calendar, years 1 through 9999.
//!
//! A date's mathematical model is its day index: the number of days between
//! January 1 of year 1 and the date. Day index 0 fell on a Monday, so the
//! weekday of any date is its day index modulo 7, with 0 for Monday and
//! 5 and 6 for Saturday and Sunday.

use vstd::prelude::*;

verus! {

/// A calendar date. Valid dates satisfy [`Date::valid`]: the year is between
/// 1 and 9999 and the month and day exist in that year's calendar.
#[derive(Clone, Copy, PartialEq, Eq, Structural, Debug)]
pub struct Date {
    pub year: u32,
    pub month: u32,
    pub day: u32,
}

pub open spec fn is_leap_year(y: int) -> bool {
    (y % 4 == 0 && y % 100 != 0) || y % 400 == 0
}

pub open spec fn days_in_year(y: int) -> int {
    if is_leap_year(y) {
        366
    } else {
        365
    }
}

pub open spec fn days_in_month(y: int, m: int) -> int {
    if m == 2 {
        if is_leap_year(y) {
            29
        } else {
            28
        }
    } else if m == 4 || m == 6 || m == 9 || m == 11 {
        30
    } else {
        31
    }
}

pub open spec fn valid_date(y: int, m: int, d: int) -> bool {
    &&& 1 <= y <= 9999
    &&& 1 <= m <= 12
    &&& 1 <= d <= days_in_month(y, m)
}

/// Days in all years before year `y`, counted from year 1.
pub open spec fn days_before_year(y: int) -> int
    decreases y,
{
    if y <= 1 {
        0
    } else {
        days_before_year(y - 1) + days_in_year(y - 1)
    }
}

/// Days in all months of year `y` before month `m`.
pub open spec fn days_before_month(y: int, m: int) -> int
    decreases m,
{
    if m <= 1 {
        0
    } else {
        days_before_month(y, m - 1) + days_in_month(y, m - 1)
    }
}

/// The number of days between January 1 of year 1 and this date.
pub open spec fn day_index(d: Date) -> int {
    days_before_year(d.year as int) + days_before_month(d.year as int, d.month as int) + d.day - 1
}

pub open spec fn is_weekend_index(k: int) -> bool {
    k % 7 >= 5
}

pub open spec fn is_weekend_day(d: Date) -> bool {
    is_weekend_index(day_index(d))
}

proof fn lemma_days_before_month_mono(y: int, m1: int, m2: int)
    requires
        m1 <= m2,
    ensures
        days_before_month(y, m1) <= days_before_month(y, m2),
    decreases m2 - m1,
{
    if m1 < m2 {
        lemma_days_before_month_mono(y, m1, m2 - 1);
        if m2 >= 2 {
            assert(days_before_month(y, m2) == days_before_month(y, m2 - 1) + days_in_month(
                y,
                m2 - 1,
            ));
        }
    }
}

proof fn lemma_days_before_month_full(y: int)
    ensures
        days_before_month(y, 13) == days_in_year(y),
{
    assert(days_before_month(y, 1) == 0);
    assert(days_before_month(y, 2) == days_before_month(y, 1) + days_in_month(y, 1));
    assert(days_before_month(y, 3) == days_before_month(y, 2) + days_in_month(y, 2));
    assert(days_before_month(y, 4) == days_before_month(y, 3) + days_in_month(y, 3));
    assert(days_before_month(y, 5) == days_before_month(y, 4) + days_in_month(y, 4));
    assert(days_before_month(y, 6) == days_before_month(y, 5) + days_in_month(y, 5));
    assert(days_before_month(y, 7) == days_before_month(y, 6) + days_in_month(y, 6));
    assert(days_before_month(y, 8) == days_before_month(y, 7) + days_in_month(y, 7));
    assert(days_before_month(y, 9) == days_before_month(y, 8) + days_in_month(y, 8));
    assert(days_before_month(y, 10) == days_before_month(y, 9) + days_in_month(y, 9));
    assert(days_before_month(y, 11) == days_before_month(y, 10) + days_in_month(y, 10));
    assert(days_before_month(y, 12) == days_before_month(y, 11) + days_in_month(y, 11));
    assert(days_before_month(y, 13) == days_before_month(y, 12) + days_in_month(y, 12));
}

proof fn lemma_days_before_year_mono(y1: int, y2: int)
    requires
        y1 <= y2,
    ensures
        days_before_year(y1) <= days_before_year(y2),
    decreases y2 - y1,
{
    if y1 < y2 {
        lemma_days_before_year_mono(y1, y2 - 1);
        if y2 >= 2 {
            assert(days_before_year(y2) == days_before_year(y2 - 1) + days_in_year(y2 - 1));
        }
    }
}

/// A valid date's day index lies within its year's slice of the day line.
proof fn lemma_day_index_in_year(d: Date)
    requires
        d.valid(),
    ensures
        days_before_year(d.year as int) <= day_index(d),
        day_index(d) < days_before_year(d.year as int) + days_in_year(d.year as int),
{
    let y = d.year as int;
    let m = d.month as int;
    lemma_days_before_month_mono(y, 1, m);
    assert(days_before_month(y, m + 1) == days_before_month(y, m) + days_in_month(y, m));
    lemma_days_before_month_mono(y, m + 1, 13);
    lemma_days_before_month_full(y);
}

/// Every valid date's day index is a position strictly before the end of
/// year 9999.
pub proof fn lemma_day_index_bounds(d: Date)
    requires
        d.valid(),
    ensures
        0 <= day_index(d),
        day_index(d) < days_before_year(10000),
{
    let y = d.year as int;
    lemma_day_index_in_year(d);
    lemma_days_before_year_mono(1, y);
    assert(days_before_year(y + 1) == days_before_year(y) + days_in_year(y));
    lemma_days_before_year_mono(y + 1, 10000);
}

/// The last supported date occupies the last position before the end of
/// year 9999, so every other valid date has a strictly smaller day index.
pub proof fn lemma_last_date_index()
    ensures
        day_index(Date { year: 9999, month: 12, day: 31 }) == days_before_year(10000) - 1,
{
    lemma_days_before_month_full(9999);
    assert(days_before_month(9999, 13) == days_before_month(9999, 12) + days_in_month(9999, 12));
    assert(days_before_year(10000) == days_before_year(9999) + days_in_year(9999));
}

impl Date {
    pub open spec fn valid(self) -> bool {
        valid_date(self.year as int, self.month as int, self.day as int)
    }

    /// Builds a date from its components, accepting exactly the valid dates.
    pub fn new(year: u32, month: u32, day: u32) -> (r: Option<Date>)
        ensures
            valid_date(year as int, month as int, day as int) ==> r == Some(
                Date { year, month, day },
            ),
            !valid_date(year as int, month as int, day as int) ==> r is None,
    {
        if 1 <= year && year <= 9999 && 1 <= month && month <= 12 && 1 <= day && day
            <= month_length(year, month) {
            Some(Date { year, month, day })
        } else {
            None
        }
    }

    /// The number of days between January 1 of year 1 and this date.
    pub fn day_number(&self) -> (r: u32)
        requires
            self.valid(),
        ensures
            r == day_index(*self),
            r <= 3700000,
    {
        let mut acc: u32 = 0;
        let mut i: u32 = 1;
        while i < self.year
            invariant
                1 <= i <= self.year,
                self.year <= 9999,
                acc == days_before_year(i as int),
                acc <= 366 * (i - 1),
            decreases self.year - i,
        {
            if is_leap(i) {
                acc = acc + 366;
            } else {
                acc = acc + 365;
            }
            i = i + 1;
        }
        let mut m: u32 = 1;
        while m < self.month
            invariant
                1 <= m <= self.month,
                self.month <= 12,
                self.year <= 9999,
                acc == days_before_year(self.year as int) + days_before_month(
                    self.year as int,
                    m as int,
                ),
                acc <= 366 * 9999 + 31 * (m - 1),
            decreases self.month - m,
        {
            acc = acc + month_length(self.year, m);
            m = m + 1;
        }
        acc + self.day - 1
    }

    /// The weekday of this date: 0 for Monday through 6 for Sunday.
    pub fn weekday(&self) -> (r: u32)
        requires
            self.valid(),
        ensures
            r == day_index(*self) % 7,
            r <= 6,
    {
        self.day_number() % 7
    }

    /// Whether this date falls on a Saturday or a Sunday.
    pub fn is_weekend(&self) -> (r: bool)
        requires
            self.valid(),
        ensures
            r == is_weekend_day(*self),
    {
        self.weekday() >= 5
    }

    /// The next calendar day.
    pub fn succ(&self) -> (r: Date)
        requires
            self.valid(),
            !(self.year == 9999 && self.month == 12 && self.day == 31),
        ensures
            r.valid(),
            day_index(r) == day_index(*self) + 1,
    {
        let y = self.year;
        let m = self.month;
        if self.day < month_length(y, m) {
            Date { year: y, month: m, day: self.day + 1 }
        } else if m < 12 {
            proof {
                assert(days_before_month(y as int, m as int + 1) == days_before_month(
                    y as int,
                    m as int,
                ) + days_in_month(y as int, m as int));
            }
            Date { year: y, month: m + 1, day: 1 }
        } else {
            proof {
                lemma_days_before_month_full(y as int);
                assert(days_before_month(y as int, 13) == days_before_month(y as int, 12)
                    + days_in_month(y as int, 12));
                assert(days_before_year(y as int + 1) == days_before_year(y as int) + days_in_year(
                    y as int,
                ));
            }
            Date { year: y + 1, month: 1, day: 1 }
        }
    }
}

/// The ASCII digit for `n`, which must lie in 0 through 9.
pub open spec fn digit_byte(n: int) -> u8 {
    (48 + n) as u8
}

/// The ten ASCII bytes of a date written as `YYYY-MM-DD`, the year zero
/// padded to four digits and the month and day to two.
pub open spec fn date_label_spec(d: Date) -> Seq<u8> {
    seq![
        digit_byte(d.year as int / 1000),
        digit_byte((d.year as int / 100) % 10),
        digit_byte((d.year as int / 10) % 10),
        digit_byte(d.year as int % 10),
        45u8,
        digit_byte(d.month as int / 10),
        digit_byte(d.month as int % 10),
        45u8,
        digit_byte(d.day as int / 10),
        digit_byte(d.day as int % 10),
    ]
}

impl Date {
    /// This date written as the ten ASCII bytes `YYYY-MM-DD`.
    pub fn label(&self) -> (r: Vec<u8>)
        requires
            self.valid(),
        ensures
            r@ == date_label_spec(*self),
    {
        let mut v: Vec<u8> = Vec::new();
        v.push((48 + self.year / 1000) as u8);
        v.push((48 + (self.year / 100) % 10) as u8);
        v.push((48 + (self.year / 10) % 10) as u8);
        v.push((48 + self.year % 10) as u8);
        v.push(45);
        v.push((48 + self.month / 10) as u8);
        v.push((48 + self.month % 10) as u8);
        v.push(45);
        v.push((48 + self.day / 10) as u8);
        v.push((48 + self.day % 10) as u8);
        proof {
            assert(v@ =~= date_label_spec(*self));
        }
        v
    }
}

pub fn is_leap(y: u32) -> (r: bool)
    ensures
        r == is_leap_year(y as int),
{
    (y % 4 == 0 && y % 100 != 0) || y % 400 == 0
}

pub fn month_length(y: u32, m: u32) -> (r: u32)
    ensures
        r == days_in_month(y as int, m as int),
{
    if m == 2 {
        if is_leap(y) {
            29
        } else {
            28
        }
    } else if m == 4 || m == 6 || m == 9 || m == 11 {
        30
    } else {
        31
    }
}

} // verus!
