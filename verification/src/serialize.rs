//! The write path: each canonical service is handed to a compressor, which
//! reduces its date set to an optional weekly pattern, an optional validity
//! period, and residual per-date exceptions; the serializer turns those
//! results back into weekly-pattern and exception rows. A non-empty pattern
//! without a validity period is a recoverable per-service condition: that
//! service's weekly row is skipped and its identifier reported, while its
//! residual exceptions are still emitted.
//!
//! An exact compressor is also provided: it returns the weekdays present in
//! the date set, the bounding date range, and the removals that reconcile
//! the implied weekly expansion with the exact set.

use vstd::prelude::*;

use crate::catalog::{date_seq_set, sorted_distinct, Catalog, ServiceCalendar};
use crate::date::{weekday_index, Date, Weekday};
use crate::records::{Calendar, CalendarDate, ExceptionType};

verus! {

/// The inclusive validity range accompanying a weekly pattern.
#[derive(Clone, Copy, PartialEq, Eq, Structural, Debug)]
pub struct ValidityPeriod {
    /// First day of the range, inclusive.
    pub start_date: Date,
    /// Last day of the range, inclusive.
    pub end_date: Date,
}

/// One residual exception of a compression: a date and whether it is added
/// to or removed from the dates the weekly pattern implies.
#[derive(Clone, Copy, PartialEq, Eq, Structural, Debug)]
pub struct ExceptionDate {
    /// The date the exception applies to.
    pub date: Date,
    /// Whether the date is added or removed.
    pub exception_type: ExceptionType,
}

/// What a compressor returns for one service: the weekdays of the chosen
/// weekly pattern (possibly none), the validity period the pattern spans
/// (present only alongside a non-empty pattern, and even then possibly
/// missing), and the residual exceptions that reconcile the pattern with
/// the exact date set.
#[derive(Clone, Debug, PartialEq)]
pub struct Compression {
    /// The weekdays of the weekly pattern.
    pub operating_days: Vec<Weekday>,
    /// The validity range of the weekly pattern, if any.
    pub validity_period: Option<ValidityPeriod>,
    /// The residual exceptions, in date order.
    pub exceptions: Vec<ExceptionDate>,
}

/// Whether some day of the set falls on the weekday with index `i`.
pub open spec fn day_present_index(s: Set<int>, i: int) -> bool {
    exists|n: int| s.contains(n) && weekday_index(n) == i
}

/// The set of day numbers of a residual-exception list.
pub open spec fn exc_date_set(es: Seq<ExceptionDate>) -> Set<int> {
    Set::new(|n: int| exists|i: int| 0 <= i < es.len() && es[i].date.num == n)
}

/// The weekdays present in a date set, in Monday..Sunday order.
pub open spec fn spec_operating_days(s: Set<int>) -> Seq<Weekday> {
    (if day_present_index(s, 0) {
        seq![Weekday::Monday]
    } else {
        Seq::empty()
    }) + (if day_present_index(s, 1) {
        seq![Weekday::Tuesday]
    } else {
        Seq::empty()
    }) + (if day_present_index(s, 2) {
        seq![Weekday::Wednesday]
    } else {
        Seq::empty()
    }) + (if day_present_index(s, 3) {
        seq![Weekday::Thursday]
    } else {
        Seq::empty()
    }) + (if day_present_index(s, 4) {
        seq![Weekday::Friday]
    } else {
        Seq::empty()
    }) + (if day_present_index(s, 5) {
        seq![Weekday::Saturday]
    } else {
        Seq::empty()
    }) + (if day_present_index(s, 6) {
        seq![Weekday::Sunday]
    } else {
        Seq::empty()
    })
}

/// Whether some date of the list falls on the given day number.
pub fn contains_date(dates: &Vec<Date>, d: Date) -> (r: bool)
    ensures
        r == date_seq_set(dates@).contains(d.num as int),
{
    let mut i: usize = 0;
    while i < dates.len()
        invariant
            i <= dates@.len(),
            forall|k: int| 0 <= k < i ==> dates@[k].num != d.num,
        decreases dates@.len() - i,
    {
        if dates[i].num == d.num {
            return true;
        }
        i += 1;
    }
    false
}

/// Whether some date of the list falls on the given weekday.
pub fn day_occurs(dates: &Vec<Date>, w: Weekday) -> (r: bool)
    ensures
        r == day_present_index(date_seq_set(dates@), w.index()),
{
    let mut i: usize = 0;
    while i < dates.len()
        invariant
            i <= dates@.len(),
            forall|k: int|
                0 <= k < i ==> weekday_index(#[trigger] dates@[k].num as int) != w.index(),
        decreases dates@.len() - i,
    {
        let dw = dates[i].weekday();
        proof {
            assert(dw == w <==> dw.index() == w.index()) by {
                match dw {
                    Weekday::Monday => {},
                    Weekday::Tuesday => {},
                    Weekday::Wednesday => {},
                    Weekday::Thursday => {},
                    Weekday::Friday => {},
                    Weekday::Saturday => {},
                    Weekday::Sunday => {},
                }
            }
        }
        if dw == w {
            proof {
                assert(date_seq_set(dates@).contains(dates@[i as int].num as int));
            }
            return true;
        }
        i += 1;
    }
    proof {
        assert forall|n: int|
            date_seq_set(dates@).contains(n) implies weekday_index(n) != w.index() by {
            let k = choose|k: int| 0 <= k < dates@.len() && dates@[k].num == n;
            assert(weekday_index(dates@[k].num as int) != w.index());
        }
    }
    false
}

/// The exact compressor: for an empty set it returns no pattern, no period
/// and no exceptions; otherwise the pattern holds exactly the weekdays
/// present in the set, the validity period is the bounding range of the
/// set, and the residual exceptions remove, in date order, every day of
/// that range whose weekday is in the pattern but which the set does not
/// hold. A set that is a perfect weekly expansion therefore compresses with
/// no residual exceptions.
#[verifier::rlimit(100)]
pub fn exact_compression(dates: &Vec<Date>) -> (c: Compression)
    requires
        sorted_distinct(dates@),
    ensures
        dates@.len() == 0 ==> c.operating_days@.len() == 0 && c.validity_period is None
            && c.exceptions@.len() == 0,
        dates@.len() > 0 ==> {
            let s = date_seq_set(dates@);
            let lo = dates@[0].num as int;
            let hi = dates@.last().num as int;
            &&& c.validity_period == Some(
                ValidityPeriod { start_date: dates@[0], end_date: dates@.last() },
            )
            &&& c.operating_days@ == spec_operating_days(s)
            &&& forall|i: int|
                0 <= i < c.exceptions@.len()
                    ==> (#[trigger] c.exceptions@[i]).exception_type is Remove
            &&& forall|i: int, j: int|
                0 <= i < j < c.exceptions@.len() ==> c.exceptions@[i].date.num
                    < c.exceptions@[j].date.num
            &&& (forall|m: int|
                exc_date_set(c.exceptions@).contains(m) <==> lo <= m <= hi
                    && day_present_index(s, weekday_index(m)) && !s.contains(m))
        },
{
    let mut c = Compression {
        operating_days: Vec::new(),
        validity_period: None,
        exceptions: Vec::new(),
    };
    if dates.len() == 0 {
        return c;
    }
    let ghost s = date_seq_set(dates@);
    let lo = dates[0];
    let hi = dates[dates.len() - 1];
    c.validity_period = Some(ValidityPeriod { start_date: lo, end_date: hi });
    let mon = day_occurs(dates, Weekday::Monday);
    let tue = day_occurs(dates, Weekday::Tuesday);
    let wed = day_occurs(dates, Weekday::Wednesday);
    let thu = day_occurs(dates, Weekday::Thursday);
    let fri = day_occurs(dates, Weekday::Friday);
    let sat = day_occurs(dates, Weekday::Saturday);
    let sun = day_occurs(dates, Weekday::Sunday);
    if mon {
        c.operating_days.push(Weekday::Monday);
    }
    if tue {
        c.operating_days.push(Weekday::Tuesday);
    }
    if wed {
        c.operating_days.push(Weekday::Wednesday);
    }
    if thu {
        c.operating_days.push(Weekday::Thursday);
    }
    if fri {
        c.operating_days.push(Weekday::Friday);
    }
    if sat {
        c.operating_days.push(Weekday::Saturday);
    }
    if sun {
        c.operating_days.push(Weekday::Sunday);
    }
    proof {
        assert(c.operating_days@ =~= spec_operating_days(s));
    }
    proof {
        assert(s.contains(lo.num as int)) by {
            assert(dates@[0].num == lo.num);
        }
        assert(s.contains(hi.num as int)) by {
            assert(dates@[dates@.len() - 1].num == hi.num);
        }
        assert(lo.num <= hi.num) by {
            if dates@.len() > 1 {
                assert(dates@[0].num < dates@[dates@.len() - 1].num);
            }
        }
    }
    let mut n: u32 = lo.num;
    loop
        invariant_except_break
            forall|i: int| 0 <= i < c.exceptions@.len() ==> #[trigger] c.exceptions@[i].date.num < n,
        invariant
            s == date_seq_set(dates@),
            lo.num <= n <= hi.num,
            c.operating_days@ == spec_operating_days(s),
            c.validity_period == Some(ValidityPeriod { start_date: lo, end_date: hi }),
            mon == day_present_index(s, 0),
            tue == day_present_index(s, 1),
            wed == day_present_index(s, 2),
            thu == day_present_index(s, 3),
            fri == day_present_index(s, 4),
            sat == day_present_index(s, 5),
            sun == day_present_index(s, 6),
            forall|i: int|
                0 <= i < c.exceptions@.len()
                    ==> (#[trigger] c.exceptions@[i]).exception_type is Remove,
            forall|i: int, j: int|
                0 <= i < j < c.exceptions@.len() ==> c.exceptions@[i].date.num
                    < c.exceptions@[j].date.num,
            forall|i: int|
                0 <= i < c.exceptions@.len() ==> {
                    let m = #[trigger] c.exceptions@[i].date.num as int;
                    lo.num <= m <= hi.num && day_present_index(s, weekday_index(m))
                        && !s.contains(m)
                },
            forall|m: int|
                lo.num <= m < n && day_present_index(s, weekday_index(m)) && !s.contains(m)
                    ==> exc_date_set(c.exceptions@).contains(m),
        ensures
            c.operating_days@ == spec_operating_days(s),
            c.validity_period == Some(ValidityPeriod { start_date: lo, end_date: hi }),
            forall|i: int|
                0 <= i < c.exceptions@.len()
                    ==> (#[trigger] c.exceptions@[i]).exception_type is Remove,
            forall|i: int, j: int|
                0 <= i < j < c.exceptions@.len() ==> c.exceptions@[i].date.num
                    < c.exceptions@[j].date.num,
            forall|i: int|
                0 <= i < c.exceptions@.len() ==> {
                    let m = #[trigger] c.exceptions@[i].date.num as int;
                    lo.num <= m <= hi.num && day_present_index(s, weekday_index(m))
                        && !s.contains(m)
                },
            forall|m: int|
                lo.num <= m <= hi.num && day_present_index(s, weekday_index(m)) && !s.contains(m)
                    ==> exc_date_set(c.exceptions@).contains(m),
        decreases hi.num - n,
    {
        let d = Date { num: n };
        let w = d.weekday();
        let active = match w {
            Weekday::Monday => mon,
            Weekday::Tuesday => tue,
            Weekday::Wednesday => wed,
            Weekday::Thursday => thu,
            Weekday::Friday => fri,
            Weekday::Saturday => sat,
            Weekday::Sunday => sun,
        };
        proof {
            match w {
                Weekday::Monday => assert(active == day_present_index(s, weekday_index(n as int))),
                Weekday::Tuesday => assert(active == day_present_index(s, weekday_index(n as int))),
                Weekday::Wednesday => assert(active == day_present_index(
                    s,
                    weekday_index(n as int),
                )),
                Weekday::Thursday => assert(active == day_present_index(
                    s,
                    weekday_index(n as int),
                )),
                Weekday::Friday => assert(active == day_present_index(s, weekday_index(n as int))),
                Weekday::Saturday => assert(active == day_present_index(
                    s,
                    weekday_index(n as int),
                )),
                Weekday::Sunday => assert(active == day_present_index(s, weekday_index(n as int))),
            }
            assert(active == day_present_index(s, weekday_index(n as int)));
        }
        let ghost pre = c.exceptions@;
        let present = contains_date(dates, d);
        if active && !present {
            c.exceptions.push(ExceptionDate { date: d, exception_type: ExceptionType::Remove });
        }
        proof {
            assert forall|m: int|
                lo.num <= m < n + 1 && day_present_index(s, weekday_index(m)) && !s.contains(m)
                    implies exc_date_set(c.exceptions@).contains(m) by {
                if m < n {
                    assert(exc_date_set(pre).contains(m));
                    let k = choose|k: int| 0 <= k < pre.len() && pre[k].date.num == m;
                    assert(c.exceptions@[k].date.num == m);
                } else {
                    assert(!present);
                    assert(c.exceptions@.last().date.num == m);
                }
            }
        }
        if n == hi.num {
            break;
        }
        n += 1;
    }
    proof {
        assert forall|m: int|
            exc_date_set(c.exceptions@).contains(m) implies lo.num <= m <= hi.num
            && day_present_index(s, weekday_index(m)) && !s.contains(m) by {
            let k = choose|k: int| 0 <= k < c.exceptions@.len() && c.exceptions@[k].date.num == m;
            assert(lo.num <= c.exceptions@[k].date.num as int <= hi.num);
        }
    }
    c
}

/// The abstract value of a weekly-pattern row: identifier, the seven flags
/// in Monday..Sunday order, and the day numbers of the range.
pub type CalendarRowView = (Seq<char>, Seq<bool>, int, int);

/// The abstract value of an exception row: identifier, day number, kind.
pub type ExceptionRowView = (Seq<char>, int, ExceptionType);

impl View for Calendar {
    type V = CalendarRowView;

    open spec fn view(&self) -> CalendarRowView {
        (
            self.id@,
            seq![
                self.monday,
                self.tuesday,
                self.wednesday,
                self.thursday,
                self.friday,
                self.saturday,
                self.sunday,
            ],
            self.start_date.num as int,
            self.end_date.num as int,
        )
    }
}

impl View for CalendarDate {
    type V = ExceptionRowView;

    open spec fn view(&self) -> ExceptionRowView {
        (self.service_id@, self.date.num as int, self.exception_type)
    }
}

/// Whether a compression yields a weekly-pattern row: a non-empty pattern
/// with a validity period.
pub open spec fn emits_weekly(c: Compression) -> bool {
    c.operating_days@.len() > 0 && c.validity_period is Some
}

/// Whether a compression is the recoverable per-service case: a non-empty
/// pattern without a validity period, whose weekly row is skipped.
pub open spec fn skips_weekly(c: Compression) -> bool {
    c.operating_days@.len() > 0 && c.validity_period is None
}

/// The weekly-pattern row a compression yields for a service.
pub open spec fn spec_weekly_row(id: Seq<char>, c: Compression) -> CalendarRowView {
    (
        id,
        seq![
            c.operating_days@.contains(Weekday::Monday),
            c.operating_days@.contains(Weekday::Tuesday),
            c.operating_days@.contains(Weekday::Wednesday),
            c.operating_days@.contains(Weekday::Thursday),
            c.operating_days@.contains(Weekday::Friday),
            c.operating_days@.contains(Weekday::Saturday),
            c.operating_days@.contains(Weekday::Sunday),
        ],
        c.validity_period->0.start_date.num as int,
        c.validity_period->0.end_date.num as int,
    )
}

/// The exception rows a compression yields for a service, in order.
pub open spec fn spec_service_exc_rows(id: Seq<char>, c: Compression) -> Seq<ExceptionRowView> {
    c.exceptions@.map_values(|e: ExceptionDate| (id, e.date.num as int, e.exception_type))
}

/// The weekly-pattern rows of a whole catalog, in catalog order: one row
/// per service whose compression yields one.
pub open spec fn spec_weekly_rows(cats: Seq<ServiceCalendar>, comps: Seq<Compression>) -> Seq<
    CalendarRowView,
>
    decreases cats.len(),
{
    if cats.len() == 0 {
        Seq::empty()
    } else {
        let pre = spec_weekly_rows(cats.drop_last(), comps.drop_last());
        if emits_weekly(comps.last()) {
            pre.push(spec_weekly_row(cats.last().id@, comps.last()))
        } else {
            pre
        }
    }
}

/// The exception rows of a whole catalog, in catalog order, each service's
/// residual exceptions in their own order.
pub open spec fn spec_exception_rows(cats: Seq<ServiceCalendar>, comps: Seq<Compression>) -> Seq<
    ExceptionRowView,
>
    decreases cats.len(),
{
    if cats.len() == 0 {
        Seq::empty()
    } else {
        spec_exception_rows(cats.drop_last(), comps.drop_last()) + spec_service_exc_rows(
            cats.last().id@,
            comps.last(),
        )
    }
}

/// The identifiers of the services whose weekly row was skipped for want of
/// a validity period, in catalog order.
pub open spec fn spec_skipped(cats: Seq<ServiceCalendar>, comps: Seq<Compression>) -> Seq<
    Seq<char>,
>
    decreases cats.len(),
{
    if cats.len() == 0 {
        Seq::empty()
    } else {
        let pre = spec_skipped(cats.drop_last(), comps.drop_last());
        if skips_weekly(comps.last()) {
            pre.push(cats.last().id@)
        } else {
            pre
        }
    }
}

/// Whether the list holds the given weekday.
pub fn has_day(days: &Vec<Weekday>, w: Weekday) -> (r: bool)
    ensures
        r == days@.contains(w),
{
    let mut i: usize = 0;
    while i < days.len()
        invariant
            i <= days@.len(),
            forall|k: int| 0 <= k < i ==> days@[k] != w,
        decreases days@.len() - i,
    {
        if days[i] == w {
            return true;
        }
        i += 1;
    }
    false
}

/// Serializes a whole catalog against the compressions of its services,
/// one per service in catalog order: a weekly-pattern row for each
/// compression with a non-empty pattern and a validity period, the
/// identifier of each service whose non-empty pattern lacks one (its weekly
/// row is skipped, nothing aborts), and every residual exception as an
/// exception row, whether or not a weekly row was emitted.
pub fn serialize_calendars(catalog: &Catalog, compressions: &Vec<Compression>) -> (out: (
    Vec<Calendar>,
    Vec<CalendarDate>,
    Vec<String>,
))
    requires
        compressions@.len() == catalog.services@.len(),
    ensures
        out.0@.map_values(|c: Calendar| c@) == spec_weekly_rows(
            catalog.services@,
            compressions@,
        ),
        out.1@.map_values(|e: CalendarDate| e@) == spec_exception_rows(
            catalog.services@,
            compressions@,
        ),
        out.2@.map_values(|s: String| s@) == spec_skipped(catalog.services@, compressions@),
{
    let mut calendars: Vec<Calendar> = Vec::new();
    let mut exceptions: Vec<CalendarDate> = Vec::new();
    let mut skipped: Vec<String> = Vec::new();
    let ghost cats = catalog.services@;
    let ghost comps = compressions@;
    proof {
        assert(calendars@.map_values(|c: Calendar| c@) =~= spec_weekly_rows(
            cats.take(0),
            comps.take(0),
        ));
        assert(exceptions@.map_values(|e: CalendarDate| e@) =~= spec_exception_rows(
            cats.take(0),
            comps.take(0),
        ));
        assert(skipped@.map_values(|s: String| s@) =~= spec_skipped(cats.take(0), comps.take(0)));
    }
    let mut i: usize = 0;
    while i < catalog.services.len()
        invariant
            cats == catalog.services@,
            comps == compressions@,
            comps.len() == cats.len(),
            i <= cats.len(),
            calendars@.map_values(|c: Calendar| c@) == spec_weekly_rows(
                cats.take(i as int),
                comps.take(i as int),
            ),
            exceptions@.map_values(|e: CalendarDate| e@) == spec_exception_rows(
                cats.take(i as int),
                comps.take(i as int),
            ),
            skipped@.map_values(|s: String| s@) == spec_skipped(
                cats.take(i as int),
                comps.take(i as int),
            ),
        decreases cats.len() - i,
    {
        let service = &catalog.services[i];
        let comp = &compressions[i];
        proof {
            assert(cats.take(i + 1).drop_last() =~= cats.take(i as int));
            assert(comps.take(i + 1).drop_last() =~= comps.take(i as int));
            assert(cats.take(i + 1).last() == cats[i as int]);
            assert(comps.take(i + 1).last() == comps[i as int]);
        }
        let ghost cal_pre = calendars@;
        let ghost skip_pre = skipped@;
        if comp.operating_days.len() > 0 {
            match comp.validity_period {
                Some(vp) => {
                    let row = Calendar {
                        id: service.id.clone(),
                        monday: has_day(&comp.operating_days, Weekday::Monday),
                        tuesday: has_day(&comp.operating_days, Weekday::Tuesday),
                        wednesday: has_day(&comp.operating_days, Weekday::Wednesday),
                        thursday: has_day(&comp.operating_days, Weekday::Thursday),
                        friday: has_day(&comp.operating_days, Weekday::Friday),
                        saturday: has_day(&comp.operating_days, Weekday::Saturday),
                        sunday: has_day(&comp.operating_days, Weekday::Sunday),
                        start_date: vp.start_date,
                        end_date: vp.end_date,
                    };
                    proof {
                        assert(row@.1 =~= spec_weekly_row(cats[i as int].id@, comps[i as int]).1);
                        assert(row@ == spec_weekly_row(cats[i as int].id@, comps[i as int]));
                    }
                    calendars.push(row);
                    proof {
                        assert(calendars@.map_values(|c: Calendar| c@) =~= cal_pre.map_values(
                            |c: Calendar| c@,
                        ).push(row@));
                        assert(calendars@.map_values(|c: Calendar| c@) =~= spec_weekly_rows(
                            cats.take(i + 1),
                            comps.take(i + 1),
                        ));
                    }
                },
                None => {
                    skipped.push(service.id.clone());
                    proof {
                        assert(skipped@.map_values(|s: String| s@) =~= skip_pre.map_values(
                            |s: String| s@,
                        ).push(service.id@));
                        assert(skipped@.map_values(|s: String| s@) =~= spec_skipped(
                            cats.take(i + 1),
                            comps.take(i + 1),
                        ));
                    }
                },
            }
        }
        proof {
            assert(calendars@.map_values(|c: Calendar| c@) =~= spec_weekly_rows(
                cats.take(i + 1),
                comps.take(i + 1),
            ));
            assert(skipped@.map_values(|s: String| s@) =~= spec_skipped(
                cats.take(i + 1),
                comps.take(i + 1),
            ));
        }
        let ghost exc_pre = exceptions@;
        let mut j: usize = 0;
        while j < comp.exceptions.len()
            invariant
                comps == compressions@,
                0 <= i < comps.len(),
                comp == &compressions[i as int],
                j <= comp.exceptions@.len(),
                service == &catalog.services[i as int],
                cats == catalog.services@,
                exceptions@.map_values(|e: CalendarDate| e@) == exc_pre.map_values(
                    |e: CalendarDate| e@,
                ) + comp.exceptions@.take(j as int).map_values(
                    |e: ExceptionDate| (service.id@, e.date.num as int, e.exception_type),
                ),
            decreases comp.exceptions@.len() - j,
        {
            let e = &comp.exceptions[j];
            let row = CalendarDate {
                service_id: service.id.clone(),
                date: e.date,
                exception_type: e.exception_type,
            };
            let ghost rows_pre = exceptions@;
            exceptions.push(row);
            proof {
                let f = |e: ExceptionDate| (service.id@, e.date.num as int, e.exception_type);
                assert(comp.exceptions@.take(j + 1) =~= comp.exceptions@.take(j as int).push(
                    comp.exceptions@[j as int],
                ));
                assert(comp.exceptions@.take(j as int).push(comp.exceptions@[j as int]).map_values(
                    f,
                ) =~= comp.exceptions@.take(j as int).map_values(f).push(f(comp.exceptions@[j as int])));
                assert(exceptions@.map_values(|e: CalendarDate| e@) =~= rows_pre.map_values(
                    |e: CalendarDate| e@,
                ).push(row@));
                assert(exceptions@.map_values(|e: CalendarDate| e@) =~= exc_pre.map_values(
                    |e: CalendarDate| e@,
                ) + comp.exceptions@.take(j + 1).map_values(f));
            }
            j += 1;
        }
        proof {
            assert(comp.exceptions@.take(comp.exceptions@.len() as int) =~= comp.exceptions@);
            assert(exceptions@.map_values(|e: CalendarDate| e@) =~= spec_exception_rows(
                cats.take(i + 1),
                comps.take(i + 1),
            ));
        }
        i += 1;
    }
    proof {
        assert(cats.take(cats.len() as int) =~= cats);
        assert(comps.take(comps.len() as int) =~= comps);
    }
    (calendars, exceptions, skipped)
}

/// A pattern is active on a weekday exactly when it is active on that
/// weekday's index.
pub proof fn lemma_active_on_index(c: Calendar, w: Weekday)
    ensures
        c.active_on(w) == c.active_index(w.index()),
{
    match w {
        Weekday::Monday => assert(c.active_on(w) == c.active_index(w.index())),
        Weekday::Tuesday => assert(c.active_on(w) == c.active_index(w.index())),
        Weekday::Wednesday => assert(c.active_on(w) == c.active_index(w.index())),
        Weekday::Thursday => assert(c.active_on(w) == c.active_index(w.index())),
        Weekday::Friday => assert(c.active_on(w) == c.active_index(w.index())),
        Weekday::Saturday => assert(c.active_on(w) == c.active_index(w.index())),
        Weekday::Sunday => assert(c.active_on(w) == c.active_index(w.index())),
    }
}

/// Round trip through the exact compressor: when a weekly pattern covers
/// its own range bounds and every flagged weekday occurs in the range, its
/// materialized set presents exactly the flagged weekdays, its bounding
/// range is exactly the validity range, and it leaves no residual
/// exception — every day of the range on a presented weekday is in the
/// set. Compressing the materialization therefore reproduces the weekday
/// flags and the range, with no exception rows.
pub proof fn lemma_exact_compression_round_trip(c: Calendar)
    requires
        c.covers(c.start_date.num as int),
        c.covers(c.end_date.num as int),
        forall|w: Weekday|
            c.active_on(w) ==> exists|n: int| c.covers(n) && weekday_index(n) == w.index(),
    ensures
        forall|w: Weekday| day_present_index(c.expansion(), w.index()) <==> c.active_on(w),
        c.expansion().contains(c.start_date.num as int),
        c.expansion().contains(c.end_date.num as int),
        forall|n: int| c.expansion().contains(n) ==> c.start_date.num <= n <= c.end_date.num,
        forall|n: int|
            c.start_date.num <= n <= c.end_date.num && day_present_index(
                c.expansion(),
                weekday_index(n),
            ) ==> c.expansion().contains(n),
{
    assert forall|w: Weekday|
        day_present_index(c.expansion(), w.index()) <==> c.active_on(w) by {
        lemma_active_on_index(c, w);
        if day_present_index(c.expansion(), w.index()) {
            let n = choose|n: int| c.expansion().contains(n) && weekday_index(n) == w.index();
            assert(c.active_index(weekday_index(n)));
        }
        if c.active_on(w) {
            let n = choose|n: int| c.covers(n) && weekday_index(n) == w.index();
            assert(c.expansion().contains(n));
        }
    }
    assert forall|n: int|
        c.start_date.num <= n <= c.end_date.num && day_present_index(
            c.expansion(),
            weekday_index(n),
        ) implies c.expansion().contains(n) by {
        let n0 = choose|n0: int| c.expansion().contains(n0) && weekday_index(n0) == weekday_index(n);
        assert(c.active_index(weekday_index(n0)));
        assert(c.covers(n));
    }
}

/// A service whose compression has an empty pattern and no residual
/// exceptions contributes nothing to any output table: neither a weekly
/// row, nor an exception row, nor a skipped identifier. In particular a
/// service left with an empty date set passes through serialization with
/// no row of its own.
pub proof fn lemma_empty_compression_emits_nothing(
    cats: Seq<ServiceCalendar>,
    comps: Seq<Compression>,
)
    requires
        cats.len() > 0,
        comps.len() == cats.len(),
        comps.last().operating_days@.len() == 0,
        comps.last().exceptions@.len() == 0,
    ensures
        spec_weekly_rows(cats, comps) == spec_weekly_rows(cats.drop_last(), comps.drop_last()),
        spec_exception_rows(cats, comps) == spec_exception_rows(
            cats.drop_last(),
            comps.drop_last(),
        ),
        spec_skipped(cats, comps) == spec_skipped(cats.drop_last(), comps.drop_last()),
{
    assert(spec_service_exc_rows(cats.last().id@, comps.last()) =~= Seq::<
        ExceptionRowView,
    >::empty());
    assert(spec_exception_rows(cats, comps) =~= spec_exception_rows(
        cats.drop_last(),
        comps.drop_last(),
    ));
}

} // verus!
