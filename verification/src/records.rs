//! Typed input rows: the weekly-pattern row (`Calendar`) and the per-date
//! exception row (`CalendarDate`), together with the materializer that
//! expands a weekly pattern over its inclusive validity range.

use vstd::prelude::*;

use crate::date::{weekday_index, Date, Weekday};

verus! {

/// Whether a date exception adds its date to a service or removes it.
#[derive(Clone, Copy, PartialEq, Eq, Structural, Debug)]
pub enum ExceptionType {
    Add,
    Remove,
}

/// One row of the weekly-pattern table: a service identifier, seven weekday
/// activity flags, and an inclusive validity range. No relation between
/// `start_date` and `end_date` is required; a reversed range simply
/// materializes no dates.
#[derive(Clone, Debug, PartialEq)]
pub struct Calendar {
    /// Identifier of the service.
    pub id: String,
    /// True if the service is active on Mondays.
    pub monday: bool,
    /// True if the service is active on Tuesdays.
    pub tuesday: bool,
    /// True if the service is active on Wednesdays.
    pub wednesday: bool,
    /// True if the service is active on Thursdays.
    pub thursday: bool,
    /// True if the service is active on Fridays.
    pub friday: bool,
    /// True if the service is active on Saturdays.
    pub saturday: bool,
    /// True if the service is active on Sundays.
    pub sunday: bool,
    /// First day of the validity range, inclusive.
    pub start_date: Date,
    /// Last day of the validity range, inclusive.
    pub end_date: Date,
}

/// One row of the exception table: a service identifier, a single date, and
/// whether that date is added to or removed from the service.
#[derive(Clone, Debug, PartialEq)]
pub struct CalendarDate {
    /// Identifier of the service.
    pub service_id: String,
    /// The date the exception applies to.
    pub date: Date,
    /// Whether the date is added or removed.
    pub exception_type: ExceptionType,
}

impl Calendar {
    /// Whether the pattern is active on the given weekday.
    pub open spec fn active_on(self, w: Weekday) -> bool {
        match w {
            Weekday::Monday => self.monday,
            Weekday::Tuesday => self.tuesday,
            Weekday::Wednesday => self.wednesday,
            Weekday::Thursday => self.thursday,
            Weekday::Friday => self.friday,
            Weekday::Saturday => self.saturday,
            Weekday::Sunday => self.sunday,
        }
    }

    /// Whether the pattern is active on the weekday with the given index
    /// (Monday = 0 .. Sunday = 6).
    pub open spec fn active_index(self, i: int) -> bool {
        if i == 0 {
            self.monday
        } else if i == 1 {
            self.tuesday
        } else if i == 2 {
            self.wednesday
        } else if i == 3 {
            self.thursday
        } else if i == 4 {
            self.friday
        } else if i == 5 {
            self.saturday
        } else if i == 6 {
            self.sunday
        } else {
            false
        }
    }

    /// Whether the pattern covers day number `n`: the day lies in the
    /// inclusive validity range and its weekday is flagged.
    pub open spec fn covers(self, n: int) -> bool {
        &&& self.start_date.num <= n <= self.end_date.num
        &&& self.active_index(weekday_index(n))
    }

    /// The set of day numbers the weekly pattern materializes to.
    pub open spec fn expansion(self) -> Set<int> {
        Set::new(|n: int| self.covers(n))
    }

    /// Whether the expansion is non-empty.
    pub open spec fn has_dates(self) -> bool {
        exists|n: int| self.covers(n)
    }

    /// The number of covered days with day number in `[lo, hi)`.
    pub open spec fn count_covered(self, lo: int, hi: int) -> nat
        decreases hi - lo,
    {
        if lo >= hi {
            0
        } else {
            self.count_covered(lo, hi - 1) + if self.covers(hi - 1) {
                1nat
            } else {
                0nat
            }
        }
    }

    /// The flagged weekdays, in Monday..Sunday order.
    pub open spec fn spec_valid_days(self) -> Seq<Weekday> {
        (if self.monday {
            seq![Weekday::Monday]
        } else {
            Seq::empty()
        }) + (if self.tuesday {
            seq![Weekday::Tuesday]
        } else {
            Seq::empty()
        }) + (if self.wednesday {
            seq![Weekday::Wednesday]
        } else {
            Seq::empty()
        }) + (if self.thursday {
            seq![Weekday::Thursday]
        } else {
            Seq::empty()
        }) + (if self.friday {
            seq![Weekday::Friday]
        } else {
            Seq::empty()
        }) + (if self.saturday {
            seq![Weekday::Saturday]
        } else {
            Seq::empty()
        }) + (if self.sunday {
            seq![Weekday::Sunday]
        } else {
            Seq::empty()
        })
    }

    /// Whether the pattern is active on the given weekday.
    pub fn is_active_on(&self, w: Weekday) -> (r: bool)
        ensures
            r == self.active_on(w),
    {
        match w {
            Weekday::Monday => self.monday,
            Weekday::Tuesday => self.tuesday,
            Weekday::Wednesday => self.wednesday,
            Weekday::Thursday => self.thursday,
            Weekday::Friday => self.friday,
            Weekday::Saturday => self.saturday,
            Weekday::Sunday => self.sunday,
        }
    }

    /// A reversed validity range materializes the empty set: no day is
    /// covered, so no calendar is ever created from such a row.
    pub proof fn lemma_reversed_range_empty(self)
        requires
            self.start_date.num > self.end_date.num,
        ensures
            !self.has_dates(),
            self.expansion() == Set::<int>::empty(),
    {
        assert(self.expansion() =~= Set::<int>::empty());
    }

    /// The flagged weekdays of this pattern, in Monday..Sunday order.
    #[verifier::rlimit(50)]
    pub fn get_valid_days(&self) -> (days: Vec<Weekday>)
        ensures
            days@ == self.spec_valid_days(),
    {
        let mut days: Vec<Weekday> = Vec::new();
        if self.monday {
            days.push(Weekday::Monday);
        }
        if self.tuesday {
            days.push(Weekday::Tuesday);
        }
        if self.wednesday {
            days.push(Weekday::Wednesday);
        }
        if self.thursday {
            days.push(Weekday::Thursday);
        }
        if self.friday {
            days.push(Weekday::Friday);
        }
        if self.saturday {
            days.push(Weekday::Saturday);
        }
        if self.sunday {
            days.push(Weekday::Sunday);
        }
        proof {
            assert(days@ =~= self.spec_valid_days());
        }
        days
    }

    /// Materializes the weekly pattern: the dates of the inclusive validity
    /// range whose weekday is flagged, in increasing order, each once. A
    /// range with `start_date > end_date` yields no dates, and the length of
    /// the result is the exact count of covered days in the range.
    pub fn get_valid_dates(&self) -> (dates: Vec<Date>)
        ensures
            forall|i: int, j: int|
                0 <= i < j < dates@.len() ==> dates@[i].num < dates@[j].num,
            forall|i: int|
                0 <= i < dates@.len() ==> self.covers(#[trigger] dates@[i].num as int),
            forall|n: int| self.covers(n) ==> dates@.contains(Date { num: n as u32 }),
            dates@.len() == self.count_covered(
                self.start_date.num as int,
                self.end_date.num + 1,
            ),
            self.start_date.num > self.end_date.num ==> dates@.len() == 0,
    {
        let mut dates: Vec<Date> = Vec::new();
        if self.start_date.num > self.end_date.num {
            return dates;
        }
        let mut n: u32 = self.start_date.num;
        loop
            invariant_except_break
                forall|i: int| 0 <= i < dates@.len() ==> #[trigger] dates@[i].num < n,
                dates@.len() == self.count_covered(self.start_date.num as int, n as int),
            invariant
                self.start_date.num <= n <= self.end_date.num,
                forall|i: int, j: int|
                    0 <= i < j < dates@.len() ==> dates@[i].num < dates@[j].num,
                forall|i: int|
                    0 <= i < dates@.len() ==> self.covers(#[trigger] dates@[i].num as int),
                forall|m: int|
                    self.start_date.num <= m < n && self.covers(m) ==> dates@.contains(
                        Date { num: m as u32 },
                    ),
            ensures
                forall|i: int, j: int|
                    0 <= i < j < dates@.len() ==> dates@[i].num < dates@[j].num,
                forall|i: int|
                    0 <= i < dates@.len() ==> self.covers(#[trigger] dates@[i].num as int),
                forall|m: int|
                    self.start_date.num <= m <= self.end_date.num && self.covers(m)
                        ==> dates@.contains(Date { num: m as u32 }),
                dates@.len() == self.count_covered(
                    self.start_date.num as int,
                    self.end_date.num + 1,
                ),
            decreases self.end_date.num - n,
        {
            let d = Date { num: n };
            let w = d.weekday();
            proof {
                assert(self.active_on(w) == self.active_index(w.index())) by {
                    match w {
                        Weekday::Monday => {},
                        Weekday::Tuesday => {},
                        Weekday::Wednesday => {},
                        Weekday::Thursday => {},
                        Weekday::Friday => {},
                        Weekday::Saturday => {},
                        Weekday::Sunday => {},
                    }
                }
            }
            let ghost pre = dates@;
            if self.is_active_on(w) {
                dates.push(d);
            }
            proof {
                assert(self.count_covered(self.start_date.num as int, n + 1) == self.count_covered(
                    self.start_date.num as int,
                    n as int,
                ) + if self.covers(n as int) {
                    1nat
                } else {
                    0nat
                });
                assert forall|m: int|
                    self.start_date.num <= m < n + 1 && self.covers(m) implies dates@.contains(
                    Date { num: m as u32 },
                ) by {
                    if m < n {
                        assert(pre.contains(Date { num: m as u32 }));
                        let k = choose|k: int|
                            0 <= k < pre.len() && pre[k] == Date { num: m as u32 };
                        assert(dates@[k] == Date { num: m as u32 });
                    } else {
                        assert(dates@.last() == Date { num: m as u32 });
                    }
                }
            }
            if n == self.end_date.num {
                break;
            }
            n += 1;
        }
        proof {
            assert forall|n0: int| self.covers(n0) implies dates@.contains(
                Date { num: n0 as u32 },
            ) by {
                assert(self.start_date.num <= n0 <= self.end_date.num);
            }
        }
        dates
    }
}

} // verus!
