//! The canonical side of the conversion: a `ServiceCalendar` is a service
//! identifier with its set of operating dates, and a `Catalog` maps service
//! identifiers to calendars, keyed uniquely and kept in first-appearance
//! order. The exception merge and the orchestration of the read path live
//! here.

use vstd::prelude::*;

use crate::date::Date;
use crate::records::{Calendar, CalendarDate, ExceptionType};

verus! {

/// Whether a date sequence is strictly increasing (so: sorted, no duplicate).
pub open spec fn sorted_distinct(s: Seq<Date>) -> bool {
    forall|i: int, j: int| 0 <= i < j < s.len() ==> s[i].num < s[j].num
}

/// The set of day numbers a date sequence holds.
pub open spec fn date_seq_set(s: Seq<Date>) -> Set<int> {
    Set::new(|n: int| exists|i: int| 0 <= i < s.len() && s[i].num == n)
}

/// One service of the canonical table: an identifier and the distinct dates
/// the service operates on, in increasing order.
#[derive(Clone, Debug, PartialEq)]
pub struct ServiceCalendar {
    /// Identifier of the service, unique within its catalog.
    pub id: String,
    /// The operating dates, strictly increasing.
    pub dates: Vec<Date>,
}

/// The abstract value of a catalog: for each service in order, its
/// identifier and its set of day numbers.
pub type CatalogModel = Seq<(Seq<char>, Set<int>)>;

/// The canonical service-calendar table of one conversion run: services in
/// first-appearance order, each identifier present at most once.
#[derive(Clone, Debug, PartialEq)]
pub struct Catalog {
    /// The services, in first-appearance order.
    pub services: Vec<ServiceCalendar>,
}

/// One merge step on a catalog model. A known service has the exception's
/// date inserted into or removed from its set; an unknown service is created
/// by an add with exactly that one date, while a remove for an unknown
/// service changes nothing.
pub open spec fn spec_apply_exception(m: CatalogModel, e: CalendarDate) -> CatalogModel {
    if exists|i: int| 0 <= i < m.len() && m[i].0 == e.service_id@ {
        m.map_values(
            |p: (Seq<char>, Set<int>)|
                if p.0 == e.service_id@ {
                    (
                        p.0,
                        if e.exception_type is Add {
                            p.1.insert(e.date.num as int)
                        } else {
                            p.1.remove(e.date.num as int)
                        },
                    )
                } else {
                    p
                },
        )
    } else if e.exception_type is Add {
        m.push((e.service_id@, Set::empty().insert(e.date.num as int)))
    } else {
        m
    }
}

/// The merge of a whole exception stream, applied strictly in order.
pub open spec fn spec_apply_exceptions(m: CatalogModel, es: Seq<CalendarDate>) -> CatalogModel
    decreases es.len(),
{
    if es.len() == 0 {
        m
    } else {
        spec_apply_exception(spec_apply_exceptions(m, es.drop_last()), es.last())
    }
}

/// The catalog built from weekly rows alone: one entry per row whose
/// expansion is non-empty, in row order, holding the row's expansion.
pub open spec fn spec_initial_catalog(rs: Seq<Calendar>) -> CatalogModel {
    rs.filter(|c: Calendar| c.has_dates()).map_values(|c: Calendar| (c.id@, c.expansion()))
}

/// Whether no two weekly rows with a non-empty expansion share an
/// identifier. Rows that expand to nothing never enter the catalog, so they
/// may repeat an identifier freely.
pub open spec fn weekly_ids_unique(rs: Seq<Calendar>) -> bool {
    forall|i: int, j: int|
        0 <= i < j < rs.len() && rs[i].has_dates() && rs[j].has_dates() ==> rs[i].id@ != rs[j].id@
}

/// An error of the read path.
#[derive(Debug, Clone, PartialEq)]
pub enum Error {
    /// Neither the weekly-pattern source nor the exception source was given.
    SourceMissing,
    /// Two weekly rows with a non-empty expansion share this identifier.
    DuplicateService(String),
}

impl Catalog {
    /// The abstract value of this catalog.
    pub open spec fn model(self) -> CatalogModel {
        self.services@.map_values(
            |s: ServiceCalendar| (s.id@, date_seq_set(s.dates@)),
        )
    }

    /// Well-formedness: every date list strictly increasing, identifiers
    /// pairwise distinct.
    pub open spec fn wf(self) -> bool {
        &&& forall|i: int|
            0 <= i < self.services@.len() ==> sorted_distinct(#[trigger] self.services@[i].dates@)
        &&& forall|i: int, j: int|
            0 <= i < j < self.services@.len() ==> self.services@[i].id@ != self.services@[j].id@
    }

    /// Whether some service of the catalog carries this identifier.
    pub open spec fn has_id(self, id: Seq<char>) -> bool {
        exists|i: int| 0 <= i < self.services@.len() && self.services@[i].id@ == id
    }

    /// An empty catalog.
    pub fn new() -> (c: Catalog)
        ensures
            c.wf(),
            c.model() == Seq::<(Seq<char>, Set<int>)>::empty(),
    {
        let c = Catalog { services: Vec::new() };
        proof {
            assert(c.model() =~= Seq::<(Seq<char>, Set<int>)>::empty());
        }
        c
    }

    /// The position of the service with this identifier, if any.
    pub fn find(&self, id: &String) -> (r: Option<usize>)
        ensures
            match r {
                Some(i) => i < self.services@.len() && self.services@[i as int].id@ == id@,
                None => !self.has_id(id@),
            },
    {
        let mut i: usize = 0;
        while i < self.services.len()
            invariant
                i <= self.services@.len(),
                forall|k: int| 0 <= k < i ==> self.services@[k].id@ != id@,
            decreases self.services@.len() - i,
        {
            if self.services[i].id == *id {
                return Some(i);
            }
            i += 1;
        }
        None
    }

    /// Applies one exception record to the catalog, in the sense of
    /// `spec_apply_exception`: insert or remove on a known service, creation
    /// on an add for an unknown one, no change on a remove for an unknown
    /// one. Never deletes a catalog entry.
    pub fn apply_exception(&mut self, e: &CalendarDate)
        requires
            old(self).wf(),
        ensures
            final(self).wf(),
            final(self).model() == spec_apply_exception(old(self).model(), *e),
            final(self).services@.len() >= old(self).services@.len(),
    {
        let ghost m0 = self.model();
        match self.find(&e.service_id) {
            Some(i) => {
                let ghost svs0 = self.services@;
                let mut cal = self.services.remove(i);
                match e.exception_type {
                    ExceptionType::Add => insert_date(&mut cal.dates, e.date),
                    ExceptionType::Remove => remove_date(&mut cal.dates, e.date),
                }
                self.services.insert(i, cal);
                proof {
                    assert(self.services@ =~= svs0.update(
                        i as int,
                        ServiceCalendar { id: svs0[i as int].id, dates: self.services@[i as int].dates },
                    ));
                    assert forall|k: int, l: int|
                        0 <= k < l < self.services@.len() implies self.services@[k].id@
                        != self.services@[l].id@ by {
                        assert(self.services@[k].id@ == svs0[k].id@);
                        assert(self.services@[l].id@ == svs0[l].id@);
                    }
                    assert forall|k: int|
                        0 <= k < self.services@.len() implies sorted_distinct(
                        #[trigger] self.services@[k].dates@,
                    ) by {
                        if k != i {
                            assert(self.services@[k] == svs0[k]);
                            assert(sorted_distinct(svs0[k].dates@));
                        }
                    }
                    assert(self.model() =~= spec_apply_exception(m0, *e)) by {
                        assert(m0[i as int].0 == e.service_id@);
                        assert forall|k: int| 0 <= k < m0.len() implies self.model()[k]
                            == spec_apply_exception(m0, *e)[k] by {
                            if k != i {
                                assert(svs0[k].id@ != svs0[i as int].id@);
                            }
                        }
                    }
                }
            },
            None => {
                match e.exception_type {
                    ExceptionType::Add => {
                        let mut dates: Vec<Date> = Vec::new();
                        dates.push(e.date);
                        let sc = ServiceCalendar { id: e.service_id.clone(), dates };
                        proof {
                            assert(sc.dates@[0] == e.date);
                            assert(date_seq_set(sc.dates@) =~= Set::empty().insert(
                                e.date.num as int,
                            )) by {
                                assert forall|n: int| n == e.date.num as int
                                    implies date_seq_set(sc.dates@).contains(n) by {
                                    assert(sc.dates@[0].num == n);
                                }
                            }
                        }
                        let ghost c0 = *self;
                        self.services.push(sc);
                        proof {
                            assert(sc.id@ == e.service_id@);
                            lemma_wf_push(c0, *self, sc);
                            assert(self.model() =~= spec_apply_exception(m0, *e));
                        }
                    },
                    ExceptionType::Remove => {
                        proof {
                            assert(self.model() =~= spec_apply_exception(m0, *e));
                        }
                    },
                }
            },
        }
    }

    /// Applies a whole exception stream to the catalog, strictly in input
    /// order, as `spec_apply_exceptions` folds it.
    pub fn apply_exceptions(&mut self, exceptions: &Vec<CalendarDate>)
        requires
            old(self).wf(),
        ensures
            final(self).wf(),
            final(self).model() == spec_apply_exceptions(old(self).model(), exceptions@),
    {
        let ghost m0 = self.model();
        let mut i: usize = 0;
        while i < exceptions.len()
            invariant
                i <= exceptions@.len(),
                self.wf(),
                self.model() == spec_apply_exceptions(m0, exceptions@.take(i as int)),
            decreases exceptions@.len() - i,
        {
            self.apply_exception(&exceptions[i]);
            proof {
                assert(exceptions@.take(i + 1).drop_last() =~= exceptions@.take(i as int));
                assert(exceptions@.take(i + 1).last() == exceptions@[i as int]);
            }
            i += 1;
        }
        proof {
            assert(exceptions@.take(exceptions@.len() as int) =~= exceptions@);
        }
    }

    /// Builds the catalog of the weekly-pattern table: one service per row
    /// whose expansion is non-empty, in row order, carrying exactly that
    /// expansion. Fails, as the whole read does, when two such rows share an
    /// identifier; rows that expand to nothing are silently discarded.
    pub fn from_weekly_records(records: &Vec<Calendar>) -> (r: Result<Catalog, Error>)
        ensures
            r is Ok <==> weekly_ids_unique(records@),
            r is Ok ==> r->Ok_0.wf() && r->Ok_0.model() == spec_initial_catalog(records@),
            r is Err ==> r->Err_0 is DuplicateService,
    {
        let mut catalog = Catalog::new();
        let ghost pred = |c: Calendar| c.has_dates();
        let mut i: usize = 0;
        proof {
            assert(records@.take(0).filter(pred) =~= Seq::<Calendar>::empty());
            assert(catalog.model() =~= spec_initial_catalog(records@.take(0)));
        }
        while i < records.len()
            invariant
                i <= records@.len(),
                catalog.wf(),
                pred == (|c: Calendar| c.has_dates()),
                catalog.model() == spec_initial_catalog(records@.take(i as int)),
                weekly_ids_unique(records@.take(i as int)),
                forall|k: int|
                    0 <= k < i && (#[trigger] records@[k]).has_dates() ==> catalog.has_id(
                        records@[k].id@,
                    ),
            decreases records@.len() - i,
        {
            let rec = &records[i];
            let ghost cat0 = catalog;
            let dates = rec.get_valid_dates();
            let ghost taken = records@.take(i as int);
            let ghost f = |c: Calendar| (c.id@, c.expansion());
            proof {
                assert(records@.take(i + 1) =~= taken.push(records@[i as int]));
                taken.lemma_filter_push(records@[i as int], pred);
                if dates@.len() > 0 {
                    assert(rec.covers(dates@[0].num as int));
                    assert(rec.has_dates());
                }
                if rec.has_dates() {
                    let n = choose|n: int| rec.covers(n);
                    assert(dates@.contains(Date { num: n as u32 }));
                    assert(dates@.len() > 0);
                }
                assert(spec_initial_catalog(taken) == taken.filter(pred).map_values(f));
                assert(spec_initial_catalog(records@.take(i + 1)) == records@.take(i + 1).filter(
                    pred,
                ).map_values(f));
            }
            if dates.len() > 0 {
                match catalog.find(&rec.id) {
                    Some(j) => {
                        proof {
                            let m = catalog.model();
                            let filtered = taken.filter(pred);
                            assert(m == filtered.map_values(f));
                            assert(filtered.map_values(f).len() == filtered.len());
                            assert(0 <= j < filtered.len());
                            assert(m[j as int].0 == catalog.services@[j as int].id@);
                            assert(filtered.map_values(f)[j as int] == f(filtered[j as int]));
                            assert(m[j as int] == f(filtered[j as int]));
                            assert(filtered[j as int].id@ == rec.id@);
                            taken.lemma_filter_pred(pred, j as int);
                            lemma_filter_elem_origin(taken, pred, j as int);
                            let k0 = choose|k0: int|
                                0 <= k0 < taken.len() && taken[k0] == filtered[j as int];
                            assert(records@[k0] == taken[k0]);
                            assert(records@[k0].has_dates());
                            assert(records@[k0].id@ == rec.id@);
                            assert(records@[i as int].has_dates());
                            assert(!weekly_ids_unique(records@));
                        }
                        return Result::Err(Error::DuplicateService(rec.id.clone()));
                    },
                    None => {
                        let ghost cm = catalog.model();
                        let sc = ServiceCalendar { id: rec.id.clone(), dates };
                        proof {
                            assert(date_seq_set(sc.dates@) =~= rec.expansion());
                        }
                        let ghost c0 = catalog;
                        catalog.services.push(sc);
                        proof {
                            assert(sc.id@ == rec.id@);
                            lemma_wf_push(c0, catalog, sc);
                            assert(catalog.model() =~= cm.push((rec.id@, rec.expansion())));
                            assert(records@.take(i + 1).filter(pred) == taken.filter(pred).push(
                                records@[i as int],
                            ));
                            assert(f(records@[i as int]) == (rec.id@, rec.expansion()));
                            assert(taken.filter(pred).push(records@[i as int]).map_values(f)
                                =~= taken.filter(pred).map_values(f).push(f(records@[i as int])));
                            assert(catalog.model() =~= spec_initial_catalog(records@.take(i + 1)));
                        }
                    },
                }
            } else {
                proof {
                    assert(!rec.has_dates());
                    assert(records@.take(i + 1).filter(pred) == taken.filter(pred));
                    assert(catalog.model() =~= spec_initial_catalog(records@.take(i + 1)));
                }
            }
            proof {
                assert forall|k: int|
                    0 <= k < i + 1 && (#[trigger] records@[k]).has_dates() implies catalog.has_id(
                    records@[k].id@,
                ) by {
                    if k < i {
                        assert(cat0.has_id(records@[k].id@));
                        let j = choose|j: int|
                            0 <= j < cat0.services@.len() && cat0.services@[j].id@
                                == records@[k].id@;
                        assert(catalog.services@[j].id@ == records@[k].id@);
                    } else {
                        assert(records@[k] == records@[i as int]);
                        assert(catalog.services@.last().id@ == rec.id@);
                    }
                }
            }
            i += 1;
        }
        proof {
            assert(records@.take(records@.len() as int) =~= records@);
        }
        Result::Ok(catalog)
    }

    /// The whole read path, from already parsed rows: fails when neither
    /// source was given; otherwise expands the weekly rows (if any) and
    /// merges the exception rows (if any) onto them in order.
    pub fn assemble(
        weekly: Option<Vec<Calendar>>,
        exceptions: Option<Vec<CalendarDate>>,
    ) -> (r: Result<Catalog, Error>)
        ensures
            weekly is None && exceptions is None ==> r is Err && r->Err_0 is SourceMissing,
            weekly is Some || exceptions is Some ==> {
                let recs = if weekly is Some {
                    weekly->0@
                } else {
                    Seq::<Calendar>::empty()
                };
                let exs = if exceptions is Some {
                    exceptions->0@
                } else {
                    Seq::<CalendarDate>::empty()
                };
                &&& (r is Ok <==> weekly_ids_unique(recs))
                &&& r is Ok ==> r->Ok_0.wf() && r->Ok_0.model() == spec_apply_exceptions(
                    spec_initial_catalog(recs),
                    exs,
                )
                &&& r is Err ==> r->Err_0 is DuplicateService
            },
    {
        if weekly.is_none() && exceptions.is_none() {
            return Result::Err(Error::SourceMissing);
        }
        let mut catalog = match weekly {
            Some(records) => {
                match Catalog::from_weekly_records(&records) {
                    Result::Ok(c) => c,
                    Result::Err(e) => {
                        return Result::Err(e);
                    },
                }
            },
            None => {
                let c = Catalog::new();
                proof {
                    assert(Seq::<Calendar>::empty().filter(|c: Calendar| c.has_dates())
                        =~= Seq::<Calendar>::empty());
                    assert(c.model() =~= spec_initial_catalog(Seq::<Calendar>::empty()));
                    assert(weekly_ids_unique(Seq::<Calendar>::empty()));
                }
                c
            },
        };
        match exceptions {
            Some(es) => {
                catalog.apply_exceptions(&es);
            },
            None => {
            },
        }
        Result::Ok(catalog)
    }
}

/// One exception never deletes a catalog entry: every service survives, in
/// place and under its identifier, and at most one new service is appended.
pub proof fn lemma_exception_never_deletes(m: CatalogModel, e: CalendarDate)
    ensures
        spec_apply_exception(m, e).len() >= m.len(),
        forall|i: int|
            0 <= i < m.len() ==> (#[trigger] spec_apply_exception(m, e)[i]).0 == m[i].0,
{
}

/// A whole exception stream never deletes a catalog entry: every service of
/// the starting catalog survives, in place and under its identifier.
pub proof fn lemma_exceptions_never_delete(m: CatalogModel, es: Seq<CalendarDate>)
    ensures
        spec_apply_exceptions(m, es).len() >= m.len(),
        forall|i: int|
            0 <= i < m.len() ==> (#[trigger] spec_apply_exceptions(m, es)[i]).0 == m[i].0,
    decreases es.len(),
{
    if es.len() > 0 {
        lemma_exceptions_never_delete(m, es.drop_last());
        lemma_exception_never_deletes(spec_apply_exceptions(m, es.drop_last()), es.last());
    }
}

/// A remove exception for an identifier no service of the catalog carries
/// changes nothing: no calendar is created and the catalog stays as it was.
pub proof fn lemma_remove_unknown_is_noop(m: CatalogModel, e: CalendarDate)
    requires
        e.exception_type is Remove,
        forall|i: int| 0 <= i < m.len() ==> (#[trigger] m[i]).0 != e.service_id@,
    ensures
        spec_apply_exception(m, e) == m,
{
}

/// Appending a service with a fresh identifier and a strictly increasing
/// date list keeps a catalog well-formed.
proof fn lemma_wf_push(c0: Catalog, c1: Catalog, sc: ServiceCalendar)
    requires
        c0.wf(),
        c1.services@ == c0.services@.push(sc),
        sorted_distinct(sc.dates@),
        !c0.has_id(sc.id@),
    ensures
        c1.wf(),
{
    assert forall|k: int|
        0 <= k < c1.services@.len() implies sorted_distinct(#[trigger] c1.services@[k].dates@) by {
        if k < c0.services@.len() {
            assert(c1.services@[k] == c0.services@[k]);
            assert(sorted_distinct(c0.services@[k].dates@));
        } else {
            assert(c1.services@[k] == sc);
        }
    }
    assert forall|k: int, l: int|
        0 <= k < l < c1.services@.len() implies c1.services@[k].id@ != c1.services@[l].id@ by {
        if l < c0.services@.len() {
            assert(c1.services@[k] == c0.services@[k]);
            assert(c1.services@[l] == c0.services@[l]);
        } else {
            assert(c1.services@[l] == sc);
            assert(c1.services@[k] == c0.services@[k]);
            assert(c0.services@[k].id@ != sc.id@);
        }
    }
}

/// Any element of a filtered sequence comes from the sequence itself.
pub proof fn lemma_filter_elem_origin<A>(s: Seq<A>, pred: spec_fn(A) -> bool, j: int)
    requires
        0 <= j < s.filter(pred).len(),
    ensures
        exists|k: int| 0 <= k < s.len() && s[k] == s.filter(pred)[j],
    decreases s.len(),
{
    reveal(Seq::filter);
    if s.len() > 0 {
        if j < s.drop_last().filter(pred).len() {
            lemma_filter_elem_origin(s.drop_last(), pred, j);
            let k = choose|k: int|
                0 <= k < s.drop_last().len() && s.drop_last()[k] == s.drop_last().filter(pred)[j];
            assert(s[k] == s.filter(pred)[j]);
        } else {
            assert(s[s.len() - 1] == s.filter(pred)[j]);
        }
    }
}

/// Inserts a date into a strictly increasing date list, keeping it strictly
/// increasing; inserting a date already present changes nothing.
pub fn insert_date(dates: &mut Vec<Date>, d: Date)
    requires
        sorted_distinct(old(dates)@),
    ensures
        sorted_distinct(final(dates)@),
        date_seq_set(final(dates)@) == date_seq_set(old(dates)@).insert(d.num as int),
{
    let ghost s0 = dates@;
    let mut i: usize = 0;
    while i < dates.len() && dates[i].num < d.num
        invariant
            i <= dates@.len(),
            dates@ == s0,
            forall|k: int| 0 <= k < i ==> s0[k].num < d.num,
        decreases dates@.len() - i,
    {
        i += 1;
    }
    if i < dates.len() && dates[i].num == d.num {
        proof {
            assert(s0[i as int].num == d.num);
            assert(date_seq_set(s0) =~= date_seq_set(s0).insert(d.num as int));
        }
        return;
    }
    dates.insert(i, d);
    proof {
        assert forall|k: int, l: int|
            0 <= k < l < dates@.len() implies dates@[k].num < dates@[l].num by {
            if k < i && l > i {
                assert(dates@[k] == s0[k]);
                assert(dates@[l] == s0[l - 1]);
                assert(s0[i as int].num > d.num || s0[i as int].num < d.num) by {
                    assert(s0[i as int].num != d.num);
                }
            }
        }
        assert(date_seq_set(dates@) =~= date_seq_set(s0).insert(d.num as int)) by {
            assert forall|n: int| date_seq_set(s0).insert(d.num as int).contains(n)
                implies date_seq_set(dates@).contains(n) by {
                if n == d.num {
                    assert(dates@[i as int].num == n);
                } else {
                    let k = choose|k: int| 0 <= k < s0.len() && s0[k].num == n;
                    if k < i {
                        assert(dates@[k].num == n);
                    } else {
                        assert(dates@[k + 1].num == n);
                    }
                }
            }
            assert forall|n: int| date_seq_set(dates@).contains(n)
                implies date_seq_set(s0).insert(d.num as int).contains(n) by {
                let k = choose|k: int| 0 <= k < dates@.len() && dates@[k].num == n;
                if k < i {
                    assert(s0[k].num == n);
                } else if k > i {
                    assert(s0[k - 1].num == n);
                }
            }
        }
    }
}

/// Removes a date from a strictly increasing date list, keeping it strictly
/// increasing; removing an absent date changes nothing.
pub fn remove_date(dates: &mut Vec<Date>, d: Date)
    requires
        sorted_distinct(old(dates)@),
    ensures
        sorted_distinct(final(dates)@),
        date_seq_set(final(dates)@) == date_seq_set(old(dates)@).remove(d.num as int),
{
    let ghost s0 = dates@;
    let mut i: usize = 0;
    while i < dates.len() && dates[i].num != d.num
        invariant
            i <= dates@.len(),
            dates@ == s0,
            forall|k: int| 0 <= k < i ==> s0[k].num != d.num,
        decreases dates@.len() - i,
    {
        i += 1;
    }
    if i < dates.len() {
        dates.remove(i);
        proof {
            assert(s0[i as int].num == d.num);
            assert(date_seq_set(dates@) =~= date_seq_set(s0).remove(d.num as int)) by {
                assert forall|n: int| date_seq_set(s0).remove(d.num as int).contains(n)
                    implies date_seq_set(dates@).contains(n) by {
                    let k = choose|k: int| 0 <= k < s0.len() && s0[k].num == n;
                    assert(k != i);
                    if k < i {
                        assert(dates@[k].num == n);
                    } else {
                        assert(dates@[k - 1].num == n);
                    }
                }
                assert forall|n: int| date_seq_set(dates@).contains(n)
                    implies date_seq_set(s0).remove(d.num as int).contains(n) by {
                    let k = choose|k: int| 0 <= k < dates@.len() && dates@[k].num == n;
                    if k < i {
                        assert(s0[k].num == n);
                        assert(s0[k].num != d.num);
                    } else {
                        assert(s0[k + 1].num == n);
                        assert(s0[k + 1].num != d.num) by {
                            assert(s0[i as int].num < s0[k + 1].num);
                        }
                    }
                }
            }
        }
    } else {
        proof {
            assert(date_seq_set(s0) =~= date_seq_set(s0).remove(d.num as int)) by {
                assert forall|n: int| date_seq_set(s0).contains(n)
                    implies date_seq_set(s0).remove(d.num as int).contains(n) by {
                    let k = choose|k: int| 0 <= k < s0.len() && s0[k].num == n;
                    assert(s0[k].num != d.num);
                }
            }
        }
    }
}

} // verus!
