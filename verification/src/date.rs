//! The day model: a calendar day is a plain day number in the proleptic
//! Gregorian calendar, counted so that day 1 is Monday, 1 January of year 1
//! (the same count that "days from the common era" date libraries use). The
//! weekday of a day is then pure arithmetic on its number.

use vstd::prelude::*;

verus! {

/// One calendar day, as a day number. Day 1 is Monday, 1 January of year 1
/// of the proleptic Gregorian calendar; each following day adds one.
#[derive(Clone, Copy, PartialEq, Eq, Structural, Debug)]
pub struct Date {
    /// The day number.
    pub num: u32,
}

/// A day of the week.
#[derive(Clone, Copy, PartialEq, Eq, Structural, Debug)]
pub enum Weekday {
    Monday,
    Tuesday,
    Wednesday,
    Thursday,
    Friday,
    Saturday,
    Sunday,
}

/// The weekday of day number `n`, as an index with Monday = 0 .. Sunday = 6.
/// Day 1 is a Monday, so the index cycles with period seven from there.
pub open spec fn weekday_index(n: int) -> int {
    if n % 7 == 0 {
        6
    } else {
        n % 7 - 1
    }
}

impl Weekday {
    /// The position of this weekday in the week, Monday = 0 .. Sunday = 6.
    pub open spec fn index(self) -> int {
        match self {
            Weekday::Monday => 0,
            Weekday::Tuesday => 1,
            Weekday::Wednesday => 2,
            Weekday::Thursday => 3,
            Weekday::Friday => 4,
            Weekday::Saturday => 5,
            Weekday::Sunday => 6,
        }
    }
}

/// Whether a year of the proleptic Gregorian calendar is a leap year.
pub open spec fn is_leap_year(y: int) -> bool {
    y % 4 == 0 && (y % 100 != 0 || y % 400 == 0)
}

/// The number of days of a year.
pub open spec fn days_in_year(y: int) -> int {
    if is_leap_year(y) {
        366
    } else {
        365
    }
}

/// The number of days of a month.
pub open spec fn days_in_month(y: int, m: int) -> int {
    if m == 2 {
        if is_leap_year(y) {
            29
        } else {
            28
        }
    } else if m == 4 || m == 6 || m == 9 || m == 11 {
        30
    } else {
        31
    }
}

/// The number of days of all years before `y`.
pub open spec fn days_before_year(y: int) -> int
    decreases y,
{
    if y <= 1 {
        0
    } else {
        days_before_year(y - 1) + days_in_year(y - 1)
    }
}

/// The number of days of the months before `m` within year `y`.
pub open spec fn days_before_month(y: int, m: int) -> int
    decreases m,
{
    if m <= 1 {
        0
    } else {
        days_before_month(y, m - 1) + days_in_month(y, m - 1)
    }
}

/// Whether year, month and day name a real calendar date the day count
/// covers.
pub open spec fn valid_ymd(y: int, m: int, d: int) -> bool {
    1 <= y <= 9999 && 1 <= m <= 12 && 1 <= d <= days_in_month(y, m)
}

/// The day number of a civil date: all days of earlier years, all days of
/// earlier months of its year, and the day of the month itself.
pub open spec fn day_of_ymd(y: int, m: int, d: int) -> int {
    days_before_year(y) + days_before_month(y, m) + d
}

/// Whether a day number names a day of some covered civil date.
pub open spec fn in_calendar_range(n: int) -> bool {
    1 <= n <= days_before_year(10000)
}

/// The months of a year sum to its day count.
proof fn lemma_months_sum(y: int)
    ensures
        days_before_month(y, 13) == days_in_year(y),
{
    reveal_with_fuel(days_before_month, 13);
}

/// Day counts of years before `y` never exceed 366 per year.
proof fn lemma_days_before_year_bound(y: int)
    requires
        y >= 1,
    ensures
        days_before_year(y) <= 366 * (y - 1),
    decreases y,
{
    if y > 1 {
        lemma_days_before_year_bound(y - 1);
    }
}

/// Day counts of months before `m` never exceed 31 per month.
proof fn lemma_days_before_month_bound(y: int, m: int)
    requires
        m >= 1,
    ensures
        days_before_month(y, m) <= 31 * (m - 1),
    decreases m,
{
    if m > 1 {
        lemma_days_before_month_bound(y, m - 1);
    }
}

/// The number of days of a year, executable.
fn days_in_year_x(y: u32) -> (r: u32)
    ensures
        r as int == days_in_year(y as int),
{
    if y % 4 == 0 && (y % 100 != 0 || y % 400 == 0) {
        366
    } else {
        365
    }
}

/// The number of days of a month, executable.
fn days_in_month_x(y: u32, m: u32) -> (r: u32)
    ensures
        r as int == days_in_month(y as int, m as int),
{
    if m == 2 {
        if y % 4 == 0 && (y % 100 != 0 || y % 400 == 0) {
            29
        } else {
            28
        }
    } else if m == 4 || m == 6 || m == 9 || m == 11 {
        30
    } else {
        31
    }
}

impl Date {
    /// The weekday this day falls on.
    pub fn weekday(self) -> (w: Weekday)
        ensures
            w.index() == weekday_index(self.num as int),
    {
        match self.num % 7 {
            1 => Weekday::Monday,
            2 => Weekday::Tuesday,
            3 => Weekday::Wednesday,
            4 => Weekday::Thursday,
            5 => Weekday::Friday,
            6 => Weekday::Saturday,
            _ => Weekday::Sunday,
        }
    }

    /// The day of a civil date, or nothing when year, month and day name
    /// no real date of the covered years.
    pub fn from_ymd(y: u32, m: u32, d: u32) -> (r: Option<Date>)
        ensures
            r is Some <==> valid_ymd(y as int, m as int, d as int),
            r is Some ==> r->0.num as int == day_of_ymd(y as int, m as int, d as int),
    {
        if y < 1 || y > 9999 || m < 1 || m > 12 {
            return None;
        }
        if d < 1 || d > days_in_month_x(y, m) {
            return None;
        }
        let mut acc: u32 = 0;
        let mut yy: u32 = 1;
        while yy < y
            invariant
                1 <= yy <= y <= 9999,
                acc as int == days_before_year(yy as int),
                acc as int <= 366 * (yy - 1),
            decreases y - yy,
        {
            acc = acc + days_in_year_x(yy);
            yy = yy + 1;
        }
        let mut mm: u32 = 1;
        while mm < m
            invariant
                1 <= mm <= m <= 12,
                1 <= y <= 9999,
                acc as int == days_before_year(y as int) + days_before_month(y as int, mm as int),
            decreases m - mm,
        {
            proof {
                lemma_days_before_year_bound(y as int);
                lemma_days_before_month_bound(y as int, mm as int);
            }
            acc = acc + days_in_month_x(y, mm);
            mm = mm + 1;
        }
        proof {
            lemma_days_before_year_bound(y as int);
            lemma_days_before_month_bound(y as int, m as int);
        }
        Some(Date { num: acc + d })
    }

    /// The civil date of this day, or nothing when the day number lies
    /// outside the covered years.
    pub fn to_ymd(self) -> (r: Option<(u32, u32, u32)>)
        ensures
            r is Some <==> in_calendar_range(self.num as int),
            r is Some ==> {
                let (y, m, d) = r->0;
                valid_ymd(y as int, m as int, d as int) && day_of_ymd(y as int, m as int, d as int)
                    == self.num as int
            },
    {
        if self.num == 0 {
            return None;
        }
        let mut y: u32 = 1;
        let mut acc: u32 = 0;
        loop
            invariant
                1 <= y <= 10000,
                acc as int == days_before_year(y as int),
                acc < self.num,
                acc as int <= 366 * (y - 1),
            ensures
                1 <= y <= 9999,
                acc as int == days_before_year(y as int),
                acc < self.num,
                self.num as int <= days_before_year(y as int) + days_in_year(y as int),
            decreases 10000 - y,
        {
            if y == 10000 {
                proof {
                    assert(!in_calendar_range(self.num as int));
                }
                return None;
            }
            let dy = days_in_year_x(y);
            if self.num <= acc + dy {
                break;
            }
            acc = acc + dy;
            y = y + 1;
        }
        let mut m: u32 = 1;
        proof {
            lemma_months_sum(y as int);
        }
        loop
            invariant
                1 <= m <= 12,
                1 <= y <= 9999,
                acc as int == days_before_year(y as int) + days_before_month(y as int, m as int),
                acc < self.num,
                self.num as int <= days_before_year(y as int) + days_before_month(y as int, 13),
            ensures
                1 <= m <= 12,
                acc as int == days_before_year(y as int) + days_before_month(y as int, m as int),
                acc < self.num,
                self.num as int <= days_before_year(y as int) + days_before_month(y as int, m as int)
                    + days_in_month(y as int, m as int),
            decreases 12 - m,
        {
            proof {
                lemma_days_before_year_bound(y as int);
                lemma_days_before_month_bound(y as int, m as int);
            }
            let dm = days_in_month_x(y, m);
            if self.num <= acc + dm {
                break;
            }
            proof {
                assert(m < 12) by {
                    if m == 12 {
                        assert(days_before_month(y as int, 13) == days_before_month(y as int, 12)
                            + days_in_month(y as int, 12));
                    }
                }
            }
            acc = acc + dm;
            m = m + 1;
        }
        let d = self.num - acc;
        proof {
            assert(in_calendar_range(self.num as int)) by {
                lemma_months_sum(y as int);
                assert(days_before_year(y as int) + days_in_year(y as int) == days_before_year(
                    y as int + 1,
                ));
                lemma_days_before_year_monotonic(y as int + 1, 10000);
            }
        }
        Some((y, m, d))
    }
}

/// More years before never mean fewer days before.
proof fn lemma_days_before_year_monotonic(a: int, b: int)
    requires
        a <= b,
    ensures
        days_before_year(a) <= days_before_year(b),
    decreases b - a,
{
    if a < b {
        lemma_days_before_year_monotonic(a, b - 1);
    }
}

} // verus!
