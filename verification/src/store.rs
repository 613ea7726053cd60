//! The aggregate store: the decoded collections, the resolver that
//! attaches stop visits to their trips, the service-day calculator and
//! the typed accessors.

use vstd::prelude::*;
use std::sync::Arc;
use crate::error::{LoadError, LoadErrorV, ReferenceError};
use crate::decode::{decode_table, spec_decode_table};
use crate::map::{
    lemma_deep_skip_step, lemma_map_of_get, lemma_map_of_update, map_of, seq_deep, unique_keys,
    StringMap,
};
use crate::sort::{sort_visits, spec_sort_visits};
use crate::table::{csv_table_of, read_table};
use crate::text::{ends_with_str, spec_ends_with};
use crate::date::{spec_day_number, spec_weekday_index, Date};
use crate::types::{
    Agency, AgencyView, Calendar, CalendarDate, CalendarDateView, CalendarView, FareAttribute,
    FareAttributeView, Route, RouteView, Shape, ShapeView, Stop, StopTime, StopTimeGtfs,
    StopTimeGtfsView, StopView, Trip, TripView,
};

verus! {

/// The in-memory relational model of one loaded bundle. Built once by the
/// load pipeline and read thereafter.
#[derive(Debug)]
pub struct Gtfs {
    /// How long the load took, in milliseconds; measured by the caller
    /// that supplied the bytes.
    pub read_duration: i64,
    pub calendar: StringMap<Calendar>,
    pub calendar_dates: StringMap<Vec<CalendarDate>>,
    pub stops: StringMap<Arc<Stop>>,
    pub routes: StringMap<Route>,
    pub trips: StringMap<Trip>,
    pub agencies: Vec<Agency>,
    pub shapes: StringMap<Vec<Shape>>,
    pub fare_attributes: StringMap<FareAttribute>,
}

/// The mathematical shadow of the store: every collection as a map from
/// id text to record view.
#[verifier::ext_equal]
pub struct GtfsView {
    pub read_duration: i64,
    pub calendar: Map<Seq<char>, CalendarView>,
    pub calendar_dates: Map<Seq<char>, Seq<CalendarDateView>>,
    pub stops: Map<Seq<char>, StopView>,
    pub routes: Map<Seq<char>, RouteView>,
    pub trips: Map<Seq<char>, TripView>,
    pub agencies: Seq<AgencyView>,
    pub shapes: Map<Seq<char>, Seq<ShapeView>>,
    pub fare_attributes: Map<Seq<char>, FareAttributeView>,
}

impl View for Gtfs {
    type V = GtfsView;

    open spec fn view(&self) -> GtfsView {
        GtfsView {
            read_duration: self.read_duration,
            calendar: self.calendar@,
            calendar_dates: self.calendar_dates@,
            stops: self.stops@,
            routes: self.routes@,
            trips: self.trips@,
            agencies: self.agencies.deep_view(),
            shapes: self.shapes@,
            fare_attributes: self.fare_attributes@,
        }
    }
}

impl Gtfs {
    /// Every keyed collection has at most one record per id.
    pub open spec fn wf(self) -> bool {
        self.calendar.wf() && self.calendar_dates.wf() && self.stops.wf() && self.routes.wf()
            && self.trips.wf() && self.shapes.wf() && self.fare_attributes.wf()
    }
}

impl Default for Gtfs {
    /// The empty store, before any file is read into it.
    fn default() -> (r: Gtfs)
        ensures
            r.wf(),
            r@ == (GtfsView {
                read_duration: 0i64,
                calendar: Map::<Seq<char>, CalendarView>::empty(),
                calendar_dates: Map::<Seq<char>, Seq<CalendarDateView>>::empty(),
                stops: Map::<Seq<char>, StopView>::empty(),
                routes: Map::<Seq<char>, RouteView>::empty(),
                trips: Map::<Seq<char>, TripView>::empty(),
                agencies: Seq::<AgencyView>::empty(),
                shapes: Map::<Seq<char>, Seq<ShapeView>>::empty(),
                fare_attributes: Map::<Seq<char>, FareAttributeView>::empty(),
            }),
    {
        let r = Gtfs {
            read_duration: 0,
            calendar: StringMap::new(),
            calendar_dates: StringMap::new(),
            stops: StringMap::new(),
            routes: StringMap::new(),
            trips: StringMap::new(),
            agencies: Vec::new(),
            shapes: StringMap::new(),
            fare_attributes: StringMap::new(),
        };
        proof {
            assert(r.agencies.deep_view() =~= Seq::<AgencyView>::empty());
        }
        r
    }
}

/// The map that keys each record by the text the `key` function reads off
/// it; a later record replaces an earlier one with the same key.
pub open spec fn spec_keyed<V>(recs: Seq<V>, key: spec_fn(V) -> Seq<char>) -> Map<Seq<char>, V>
    decreases recs.len(),
{
    if recs.len() == 0 {
        Map::<Seq<char>, V>::empty()
    } else {
        spec_keyed(recs.drop_last(), key).insert(key(recs.last()), recs.last())
    }
}

/// The grouped map after appending each record, in order, to the group
/// under its key.
pub open spec fn spec_grouped<V>(
    m0: Map<Seq<char>, Seq<V>>,
    recs: Seq<V>,
    key: spec_fn(V) -> Seq<char>,
) -> Map<Seq<char>, Seq<V>>
    decreases recs.len(),
{
    if recs.len() == 0 {
        m0
    } else {
        let m = spec_grouped(m0, recs.drop_last(), key);
        let k = key(recs.last());
        m.insert(
            k,
            (if m.contains_key(k) {
                m[k]
            } else {
                Seq::<V>::empty()
            }).push(recs.last()),
        )
    }
}

/// What reading the agency file does to the store: it replaces the agency
/// list with the decoded records, in file order.
pub open spec fn spec_read_agencies(g: GtfsView, b: Seq<u8>) -> Result<GtfsView, LoadErrorV> {
    match csv_table_of(b) {
        None => Err(LoadErrorV::Table),
        Some(t) => match spec_decode_table::<Agency>(t) {
            Err(e) => Err(e),
            Ok(recs) => Ok(GtfsView { agencies: recs, ..g }),
        },
    }
}

/// What reading the calendar file does to the store: it replaces the
/// calendar collection with the decoded records keyed by service id.
pub open spec fn spec_read_calendars(g: GtfsView, b: Seq<u8>) -> Result<GtfsView, LoadErrorV> {
    match csv_table_of(b) {
        None => Err(LoadErrorV::Table),
        Some(t) => match spec_decode_table::<Calendar>(t) {
            Err(e) => Err(e),
            Ok(recs) => Ok(
                GtfsView { calendar: spec_keyed(recs, |c: CalendarView| c.id), ..g },
            ),
        },
    }
}

/// What reading the stops file does to the store.
pub open spec fn spec_read_stops(g: GtfsView, b: Seq<u8>) -> Result<GtfsView, LoadErrorV> {
    match csv_table_of(b) {
        None => Err(LoadErrorV::Table),
        Some(t) => match spec_decode_table::<Stop>(t) {
            Err(e) => Err(e),
            Ok(recs) => Ok(GtfsView { stops: spec_keyed(recs, |s: StopView| s.id), ..g }),
        },
    }
}

/// What reading the routes file does to the store.
pub open spec fn spec_read_routes(g: GtfsView, b: Seq<u8>) -> Result<GtfsView, LoadErrorV> {
    match csv_table_of(b) {
        None => Err(LoadErrorV::Table),
        Some(t) => match spec_decode_table::<Route>(t) {
            Err(e) => Err(e),
            Ok(recs) => Ok(GtfsView { routes: spec_keyed(recs, |r: RouteView| r.id), ..g }),
        },
    }
}

/// What reading the trips file does to the store. Every trip starts with
/// an empty visit list.
pub open spec fn spec_read_trips(g: GtfsView, b: Seq<u8>) -> Result<GtfsView, LoadErrorV> {
    match csv_table_of(b) {
        None => Err(LoadErrorV::Table),
        Some(t) => match spec_decode_table::<Trip>(t) {
            Err(e) => Err(e),
            Ok(recs) => Ok(GtfsView { trips: spec_keyed(recs, |t: TripView| t.id), ..g }),
        },
    }
}

/// What reading the fare file does to the store.
pub open spec fn spec_read_fare_attributes(g: GtfsView, b: Seq<u8>) -> Result<
    GtfsView,
    LoadErrorV,
> {
    match csv_table_of(b) {
        None => Err(LoadErrorV::Table),
        Some(t) => match spec_decode_table::<FareAttribute>(t) {
            Err(e) => Err(e),
            Ok(recs) => Ok(
                GtfsView {
                    fare_attributes: spec_keyed(recs, |f: FareAttributeView| f.id),
                    ..g
                },
            ),
        },
    }
}

/// What reading the calendar-date file does to the store: each exception
/// joins its service's group, in file order, on top of what is there.
pub open spec fn spec_read_calendar_dates(g: GtfsView, b: Seq<u8>) -> Result<
    GtfsView,
    LoadErrorV,
> {
    match csv_table_of(b) {
        None => Err(LoadErrorV::Table),
        Some(t) => match spec_decode_table::<CalendarDate>(t) {
            Err(e) => Err(e),
            Ok(recs) => Ok(
                GtfsView {
                    calendar_dates: spec_grouped(
                        g.calendar_dates,
                        recs,
                        |c: CalendarDateView| c.service_id,
                    ),
                    ..g
                },
            ),
        },
    }
}

/// What reading the shapes file does to the store: each point joins its
/// shape's group, in file order, on top of what is there.
pub open spec fn spec_read_shapes(g: GtfsView, b: Seq<u8>) -> Result<GtfsView, LoadErrorV> {
    match csv_table_of(b) {
        None => Err(LoadErrorV::Table),
        Some(t) => match spec_decode_table::<Shape>(t) {
            Err(e) => Err(e),
            Ok(recs) => Ok(
                GtfsView { shapes: spec_grouped(g.shapes, recs, |s: ShapeView| s.id), ..g },
            ),
        },
    }
}

impl Gtfs {
    /// Reads the agency file: the whole agency list, in file order.
    pub fn read_agencies(&mut self, bytes: &[u8]) -> (r: Result<(), LoadError>)
        requires
            old(self).wf(),
        ensures
            final(self).wf(),
            match r {
                Ok(()) => spec_read_agencies(old(self)@, bytes@) == Ok::<GtfsView, LoadErrorV>(
                    final(self)@,
                ),
                Err(e) => spec_read_agencies(old(self)@, bytes@) == Err::<GtfsView, LoadErrorV>(e@)
                    && final(self)@ == old(self)@,
            },
    {
        let table = match read_table(bytes) {
            Some(t) => t,
            None => {
                return Err(LoadError::Table);
            },
        };
        let recs = match decode_table::<Agency>(&table) {
            Ok(v) => v,
            Err(e) => {
                return Err(e);
            },
        };
        let ghost recsv = recs.deep_view();
        self.agencies = recs;
        proof {
            assert(self@ =~= (GtfsView { agencies: recsv, ..old(self)@ }));
        }
        Ok(())
    }

    /// Reads the calendar file: the weekly patterns, keyed by service id.
    pub fn read_calendars(&mut self, bytes: &[u8]) -> (r: Result<(), LoadError>)
        requires
            old(self).wf(),
        ensures
            final(self).wf(),
            match r {
                Ok(()) => spec_read_calendars(old(self)@, bytes@) == Ok::<GtfsView, LoadErrorV>(
                    final(self)@,
                ),
                Err(e) => spec_read_calendars(old(self)@, bytes@) == Err::<GtfsView, LoadErrorV>(
                    e@,
                ) && final(self)@ == old(self)@,
            },
    {
        let table = match read_table(bytes) {
            Some(t) => t,
            None => {
                return Err(LoadError::Table);
            },
        };
        let recs = match decode_table::<Calendar>(&table) {
            Ok(v) => v,
            Err(e) => {
                return Err(e);
            },
        };
        let ghost recsv = recs.deep_view();
        let ghost key = |c: CalendarView| c.id;
        let mut m: StringMap<Calendar> = StringMap::new();
        let mut rest = recs;
        let ghost j: int = 0;
        proof {
            assert(seq_deep(rest@) =~= recsv.skip(0));
            assert(recsv.take(0) =~= Seq::<CalendarView>::empty());
        }
        while rest.len() > 0
            invariant
                0 <= j <= recsv.len(),
                seq_deep(rest@) == recsv.skip(j),
                m.wf(),
                m@ == spec_keyed(recsv.take(j), |c: CalendarView| c.id),
            decreases recsv.len() - j,
        {
            let ghost rold = rest@;
            proof {
                assert(seq_deep(rold).len() == rold.len());
                assert(j < recsv.len());
            }
            let rec = rest.remove(0);
            let k = rec.id.clone();
            proof {
                lemma_deep_skip_step(rold, rest@, recsv, j);
                assert(rec.deep_view() == recsv[j]);
                assert(k@ == recsv[j].id);
            }
            m.insert(k, rec);
            proof {
                assert(recsv.take(j + 1).drop_last() =~= recsv.take(j));
                assert(recsv.take(j + 1).last() == recsv[j]);
                j = j + 1;
            }
        }
        proof {
            assert(recsv.take(j) =~= recsv);
        }
        self.calendar = m;
        proof {
            assert(self@ =~= (GtfsView {
                calendar: spec_keyed(recsv, |c: CalendarView| c.id),
                ..old(self)@
            }));
        }
        Ok(())
    }

    /// Reads the stops file: each stop behind a shared handle, keyed by
    /// its id.
    pub fn read_stops(&mut self, bytes: &[u8]) -> (r: Result<(), LoadError>)
        requires
            old(self).wf(),
        ensures
            final(self).wf(),
            match r {
                Ok(()) => spec_read_stops(old(self)@, bytes@) == Ok::<GtfsView, LoadErrorV>(
                    final(self)@,
                ),
                Err(e) => spec_read_stops(old(self)@, bytes@) == Err::<GtfsView, LoadErrorV>(e@)
                    && final(self)@ == old(self)@,
            },
    {
        let table = match read_table(bytes) {
            Some(t) => t,
            None => {
                return Err(LoadError::Table);
            },
        };
        let recs = match decode_table::<Stop>(&table) {
            Ok(v) => v,
            Err(e) => {
                return Err(e);
            },
        };
        let ghost recsv = recs.deep_view();
        let mut m: StringMap<Arc<Stop>> = StringMap::new();
        let mut rest = recs;
        let ghost j: int = 0;
        proof {
            assert(seq_deep(rest@) =~= recsv.skip(0));
            assert(recsv.take(0) =~= Seq::<StopView>::empty());
        }
        while rest.len() > 0
            invariant
                0 <= j <= recsv.len(),
                seq_deep(rest@) == recsv.skip(j),
                m.wf(),
                m@ == spec_keyed(recsv.take(j), |s: StopView| s.id),
            decreases recsv.len() - j,
        {
            let ghost rold = rest@;
            proof {
                assert(seq_deep(rold).len() == rold.len());
                assert(j < recsv.len());
            }
            let rec = rest.remove(0);
            let k = rec.id.clone();
            let handle = Arc::new(rec);
            proof {
                lemma_deep_skip_step(rold, rest@, recsv, j);
                assert(handle.deep_view() == recsv[j]);
                assert(k@ == recsv[j].id);
            }
            m.insert(k, handle);
            proof {
                assert(recsv.take(j + 1).drop_last() =~= recsv.take(j));
                assert(recsv.take(j + 1).last() == recsv[j]);
                j = j + 1;
            }
        }
        proof {
            assert(recsv.take(j) =~= recsv);
        }
        self.stops = m;
        proof {
            assert(self@ =~= (GtfsView {
                stops: spec_keyed(recsv, |s: StopView| s.id),
                ..old(self)@
            }));
        }
        Ok(())
    }

    /// Reads the routes file, keyed by route id.
    pub fn read_routes(&mut self, bytes: &[u8]) -> (r: Result<(), LoadError>)
        requires
            old(self).wf(),
        ensures
            final(self).wf(),
            match r {
                Ok(()) => spec_read_routes(old(self)@, bytes@) == Ok::<GtfsView, LoadErrorV>(
                    final(self)@,
                ),
                Err(e) => spec_read_routes(old(self)@, bytes@) == Err::<GtfsView, LoadErrorV>(e@)
                    && final(self)@ == old(self)@,
            },
    {
        let table = match read_table(bytes) {
            Some(t) => t,
            None => {
                return Err(LoadError::Table);
            },
        };
        let recs = match decode_table::<Route>(&table) {
            Ok(v) => v,
            Err(e) => {
                return Err(e);
            },
        };
        let ghost recsv = recs.deep_view();
        let mut m: StringMap<Route> = StringMap::new();
        let mut rest = recs;
        let ghost j: int = 0;
        proof {
            assert(seq_deep(rest@) =~= recsv.skip(0));
            assert(recsv.take(0) =~= Seq::<RouteView>::empty());
        }
        while rest.len() > 0
            invariant
                0 <= j <= recsv.len(),
                seq_deep(rest@) == recsv.skip(j),
                m.wf(),
                m@ == spec_keyed(recsv.take(j), |r: RouteView| r.id),
            decreases recsv.len() - j,
        {
            let ghost rold = rest@;
            proof {
                assert(seq_deep(rold).len() == rold.len());
                assert(j < recsv.len());
            }
            let rec = rest.remove(0);
            let k = rec.id.clone();
            proof {
                lemma_deep_skip_step(rold, rest@, recsv, j);
                assert(rec.deep_view() == recsv[j]);
                assert(k@ == recsv[j].id);
            }
            m.insert(k, rec);
            proof {
                assert(recsv.take(j + 1).drop_last() =~= recsv.take(j));
                assert(recsv.take(j + 1).last() == recsv[j]);
                j = j + 1;
            }
        }
        proof {
            assert(recsv.take(j) =~= recsv);
        }
        self.routes = m;
        proof {
            assert(self@ =~= (GtfsView {
                routes: spec_keyed(recsv, |r: RouteView| r.id),
                ..old(self)@
            }));
        }
        Ok(())
    }

    /// Reads the trips file, keyed by trip id; visit lists start empty.
    pub fn read_trips(&mut self, bytes: &[u8]) -> (r: Result<(), LoadError>)
        requires
            old(self).wf(),
        ensures
            final(self).wf(),
            match r {
                Ok(()) => spec_read_trips(old(self)@, bytes@) == Ok::<GtfsView, LoadErrorV>(
                    final(self)@,
                ),
                Err(e) => spec_read_trips(old(self)@, bytes@) == Err::<GtfsView, LoadErrorV>(e@)
                    && final(self)@ == old(self)@,
            },
    {
        let table = match read_table(bytes) {
            Some(t) => t,
            None => {
                return Err(LoadError::Table);
            },
        };
        let recs = match decode_table::<Trip>(&table) {
            Ok(v) => v,
            Err(e) => {
                return Err(e);
            },
        };
        let ghost recsv = recs.deep_view();
        let mut m: StringMap<Trip> = StringMap::new();
        let mut rest = recs;
        let ghost j: int = 0;
        proof {
            assert(seq_deep(rest@) =~= recsv.skip(0));
            assert(recsv.take(0) =~= Seq::<TripView>::empty());
        }
        while rest.len() > 0
            invariant
                0 <= j <= recsv.len(),
                seq_deep(rest@) == recsv.skip(j),
                m.wf(),
                m@ == spec_keyed(recsv.take(j), |t: TripView| t.id),
            decreases recsv.len() - j,
        {
            let ghost rold = rest@;
            proof {
                assert(seq_deep(rold).len() == rold.len());
                assert(j < recsv.len());
            }
            let rec = rest.remove(0);
            let k = rec.id.clone();
            proof {
                lemma_deep_skip_step(rold, rest@, recsv, j);
                assert(rec.deep_view() == recsv[j]);
                assert(k@ == recsv[j].id);
            }
            m.insert(k, rec);
            proof {
                assert(recsv.take(j + 1).drop_last() =~= recsv.take(j));
                assert(recsv.take(j + 1).last() == recsv[j]);
                j = j + 1;
            }
        }
        proof {
            assert(recsv.take(j) =~= recsv);
        }
        self.trips = m;
        proof {
            assert(self@ =~= (GtfsView {
                trips: spec_keyed(recsv, |t: TripView| t.id),
                ..old(self)@
            }));
        }
        Ok(())
    }

    /// Reads the fare file, keyed by fare id.
    pub fn read_fare_attributes(&mut self, bytes: &[u8]) -> (r: Result<(), LoadError>)
        requires
            old(self).wf(),
        ensures
            final(self).wf(),
            match r {
                Ok(()) => spec_read_fare_attributes(old(self)@, bytes@) == Ok::<
                    GtfsView,
                    LoadErrorV,
                >(final(self)@),
                Err(e) => spec_read_fare_attributes(old(self)@, bytes@) == Err::<
                    GtfsView,
                    LoadErrorV,
                >(e@) && final(self)@ == old(self)@,
            },
    {
        let table = match read_table(bytes) {
            Some(t) => t,
            None => {
                return Err(LoadError::Table);
            },
        };
        let recs = match decode_table::<FareAttribute>(&table) {
            Ok(v) => v,
            Err(e) => {
                return Err(e);
            },
        };
        let ghost recsv = recs.deep_view();
        let mut m: StringMap<FareAttribute> = StringMap::new();
        let mut rest = recs;
        let ghost j: int = 0;
        proof {
            assert(seq_deep(rest@) =~= recsv.skip(0));
            assert(recsv.take(0) =~= Seq::<FareAttributeView>::empty());
        }
        while rest.len() > 0
            invariant
                0 <= j <= recsv.len(),
                seq_deep(rest@) == recsv.skip(j),
                m.wf(),
                m@ == spec_keyed(recsv.take(j), |f: FareAttributeView| f.id),
            decreases recsv.len() - j,
        {
            let ghost rold = rest@;
            proof {
                assert(seq_deep(rold).len() == rold.len());
                assert(j < recsv.len());
            }
            let rec = rest.remove(0);
            let k = rec.id.clone();
            proof {
                lemma_deep_skip_step(rold, rest@, recsv, j);
                assert(rec.deep_view() == recsv[j]);
                assert(k@ == recsv[j].id);
            }
            m.insert(k, rec);
            proof {
                assert(recsv.take(j + 1).drop_last() =~= recsv.take(j));
                assert(recsv.take(j + 1).last() == recsv[j]);
                j = j + 1;
            }
        }
        proof {
            assert(recsv.take(j) =~= recsv);
        }
        self.fare_attributes = m;
        proof {
            assert(self@ =~= (GtfsView {
                fare_attributes: spec_keyed(recsv, |f: FareAttributeView| f.id),
                ..old(self)@
            }));
        }
        Ok(())
    }

    /// Reads the calendar-date file: each exception joins its service's
    /// group, in file order.
    pub fn read_calendar_dates(&mut self, bytes: &[u8]) -> (r: Result<(), LoadError>)
        requires
            old(self).wf(),
        ensures
            final(self).wf(),
            match r {
                Ok(()) => spec_read_calendar_dates(old(self)@, bytes@) == Ok::<
                    GtfsView,
                    LoadErrorV,
                >(final(self)@),
                Err(e) => spec_read_calendar_dates(old(self)@, bytes@) == Err::<
                    GtfsView,
                    LoadErrorV,
                >(e@) && final(self)@ == old(self)@,
            },
    {
        let table = match read_table(bytes) {
            Some(t) => t,
            None => {
                return Err(LoadError::Table);
            },
        };
        let recs = match decode_table::<CalendarDate>(&table) {
            Ok(v) => v,
            Err(e) => {
                return Err(e);
            },
        };
        let ghost recsv = recs.deep_view();
        let ghost m0 = self.calendar_dates@;
        let mut rest = recs;
        let ghost j: int = 0;
        proof {
            assert(seq_deep(rest@) =~= recsv.skip(0));
            assert(recsv.take(0) =~= Seq::<CalendarDateView>::empty());
        }
        while rest.len() > 0
            invariant
                0 <= j <= recsv.len(),
                seq_deep(rest@) == recsv.skip(j),
                self.calendar_dates.wf(),
                self.calendar_dates@ == spec_grouped(
                    m0,
                    recsv.take(j),
                    |c: CalendarDateView| c.service_id,
                ),
                self.calendar == old(self).calendar,
                self.stops == old(self).stops,
                self.routes == old(self).routes,
                self.trips == old(self).trips,
                self.agencies == old(self).agencies,
                self.shapes == old(self).shapes,
                self.fare_attributes == old(self).fare_attributes,
                self.read_duration == old(self).read_duration,
            decreases recsv.len() - j,
        {
            let ghost rold = rest@;
            proof {
                assert(seq_deep(rold).len() == rold.len());
                assert(j < recsv.len());
            }
            let rec = rest.remove(0);
            let k = rec.service_id.clone();
            proof {
                lemma_deep_skip_step(rold, rest@, recsv, j);
                assert(rec.deep_view() == recsv[j]);
                assert(k@ == recsv[j].service_id);
            }
            self.calendar_dates.append_to_group(k, rec);
            proof {
                assert(recsv.take(j + 1).drop_last() =~= recsv.take(j));
                assert(recsv.take(j + 1).last() == recsv[j]);
                j = j + 1;
            }
        }
        proof {
            assert(recsv.take(j) =~= recsv);
            assert(self@ =~= (GtfsView {
                calendar_dates: spec_grouped(m0, recsv, |c: CalendarDateView| c.service_id),
                ..old(self)@
            }));
        }
        Ok(())
    }

    /// Reads the shapes file: each point joins its shape's group, in file
    /// order.
    pub fn read_shapes(&mut self, bytes: &[u8]) -> (r: Result<(), LoadError>)
        requires
            old(self).wf(),
        ensures
            final(self).wf(),
            match r {
                Ok(()) => spec_read_shapes(old(self)@, bytes@) == Ok::<GtfsView, LoadErrorV>(
                    final(self)@,
                ),
                Err(e) => spec_read_shapes(old(self)@, bytes@) == Err::<GtfsView, LoadErrorV>(e@)
                    && final(self)@ == old(self)@,
            },
    {
        let table = match read_table(bytes) {
            Some(t) => t,
            None => {
                return Err(LoadError::Table);
            },
        };
        let recs = match decode_table::<Shape>(&table) {
            Ok(v) => v,
            Err(e) => {
                return Err(e);
            },
        };
        let ghost recsv = recs.deep_view();
        let ghost m0 = self.shapes@;
        let mut rest = recs;
        let ghost j: int = 0;
        proof {
            assert(seq_deep(rest@) =~= recsv.skip(0));
            assert(recsv.take(0) =~= Seq::<ShapeView>::empty());
        }
        while rest.len() > 0
            invariant
                0 <= j <= recsv.len(),
                seq_deep(rest@) == recsv.skip(j),
                self.shapes.wf(),
                self.shapes@ == spec_grouped(m0, recsv.take(j), |s: ShapeView| s.id),
                self.calendar == old(self).calendar,
                self.calendar_dates == old(self).calendar_dates,
                self.stops == old(self).stops,
                self.routes == old(self).routes,
                self.trips == old(self).trips,
                self.agencies == old(self).agencies,
                self.fare_attributes == old(self).fare_attributes,
                self.read_duration == old(self).read_duration,
            decreases recsv.len() - j,
        {
            let ghost rold = rest@;
            proof {
                assert(seq_deep(rold).len() == rold.len());
                assert(j < recsv.len());
            }
            let rec = rest.remove(0);
            let k = rec.id.clone();
            proof {
                lemma_deep_skip_step(rold, rest@, recsv, j);
                assert(rec.deep_view() == recsv[j]);
                assert(k@ == recsv[j].id);
            }
            self.shapes.append_to_group(k, rec);
            proof {
                assert(recsv.take(j + 1).drop_last() =~= recsv.take(j));
                assert(recsv.take(j + 1).last() == recsv[j]);
                j = j + 1;
            }
        }
        proof {
            assert(recsv.take(j) =~= recsv);
            assert(self@ =~= (GtfsView {
                shapes: spec_grouped(m0, recsv, |s: ShapeView| s.id),
                ..old(self)@
            }));
        }
        Ok(())
    }
}


/// Relies on `Arc::clone`: the returned handle shares the allocation of
/// the given one, so it is the same stop.
#[verifier::external_body]
fn clone_arc(a: &Arc<Stop>) -> (r: Arc<Stop>)
    ensures
        r == *a,
{
    Arc::clone(a)
}

impl StringMap<Trip> {
    /// Appends one visit to the trip at the given entry.
    fn push_visit_at(&mut self, i: usize, st: StopTime)
        requires
            old(self).wf(),
            i < old(self).entries@.len(),
        ensures
            final(self).wf(),
            final(self).entries@.len() == old(self).entries@.len(),
            final(self)@ == old(self)@.insert(
                old(self).entries@[i as int].0@,
                (TripView {
                    stop_times: old(self).entries@[i as int].1.deep_view().stop_times.push(st@),
                    ..old(self).entries@[i as int].1.deep_view()
                }),
            ),
            final(self)@.dom() == old(self)@.dom(),
    {
        let ghost s0 = self.entries@;
        proof {
            lemma_map_of_get(s0, i as int);
        }
        let pair = self.entries.remove(i);
        let key = pair.0;
        let mut trip = pair.1;
        let ghost t0 = trip.deep_view();
        trip.stop_times.push(st);
        proof {
            assert(trip.stop_times.deep_view() =~= t0.stop_times.push(st@));
            assert(trip.deep_view() == (TripView { stop_times: t0.stop_times.push(st@), ..t0 }));
        }
        self.entries.insert(i, (key, trip));
        proof {
            assert(self.entries@ =~= s0.update(i as int, (key, trip)));
            lemma_map_of_update(s0, i as int, key, trip);
            crate::map::lemma_map_of_contains(s0, key@);
            assert(self@ =~= old(self)@.insert(key@, trip.deep_view()));
            assert(self@.dom() =~= old(self)@.dom());
        }
    }

    /// Sorts the visits of the trip at the given entry by sequence
    /// number, ties keeping file order.
    fn sort_visits_at(&mut self, i: usize)
        requires
            old(self).wf(),
            i < old(self).entries@.len(),
        ensures
            final(self).wf(),
            final(self).entries@.len() == old(self).entries@.len(),
            forall|q: int|
                0 <= q < old(self).entries@.len() && q != i ==> final(self).entries@[q] == old(
                    self,
                ).entries@[q],
            final(self).entries@[i as int].0 == old(self).entries@[i as int].0,
            final(self).entries@[i as int].1.deep_view() == (TripView {
                stop_times: spec_sort_visits(old(self).entries@[i as int].1.deep_view().stop_times),
                ..old(self).entries@[i as int].1.deep_view()
            }),
    {
        let ghost s0 = self.entries@;
        let pair = self.entries.remove(i);
        let key = pair.0;
        let trip = pair.1;
        let ghost t0 = trip.deep_view();
        let sorted = sort_visits(trip.stop_times);
        let new_trip = Trip {
            id: trip.id,
            service_id: trip.service_id,
            route_id: trip.route_id,
            stop_times: sorted,
        };
        proof {
            assert(new_trip.deep_view() == (TripView {
                stop_times: spec_sort_visits(t0.stop_times),
                ..t0
            }));
        }
        self.entries.insert(i, (key, new_trip));
        proof {
            assert(self.entries@ =~= s0.update(i as int, (key, new_trip)));
            lemma_map_of_update(s0, i as int, key, new_trip);
        }
    }
}

/// The trips map after attaching each staging record, in order: a record
/// whose trip or stop id does not resolve stops the walk with a reference
/// error naming the missing id, the trip id checked first.
pub open spec fn spec_attach(
    trips: Map<Seq<char>, TripView>,
    stops: Map<Seq<char>, StopView>,
    recs: Seq<StopTimeGtfsView>,
) -> Result<Map<Seq<char>, TripView>, LoadErrorV>
    decreases recs.len(),
{
    if recs.len() == 0 {
        Ok(trips)
    } else {
        let rec = recs[0];
        if !trips.contains_key(rec.trip_id) {
            Err(LoadErrorV::Reference(rec.trip_id))
        } else if !stops.contains_key(rec.stop_id) {
            Err(LoadErrorV::Reference(rec.stop_id))
        } else {
            let t = trips[rec.trip_id];
            spec_attach(
                trips.insert(
                    rec.trip_id,
                    TripView {
                        stop_times: t.stop_times.push(
                            StopTime::spec_from(rec, stops[rec.stop_id]),
                        ),
                        ..t
                    },
                ),
                stops,
                recs.skip(1),
            )
        }
    }
}

/// The first id, in record order, that fails to resolve against the key
/// sets, or `None` where every record resolves.
pub open spec fn spec_first_bad(
    tdom: Set<Seq<char>>,
    sdom: Set<Seq<char>>,
    recs: Seq<StopTimeGtfsView>,
) -> Option<Seq<char>>
    decreases recs.len(),
{
    if recs.len() == 0 {
        None
    } else if !tdom.contains(recs[0].trip_id) {
        Some(recs[0].trip_id)
    } else if !sdom.contains(recs[0].stop_id) {
        Some(recs[0].stop_id)
    } else {
        spec_first_bad(tdom, sdom, recs.skip(1))
    }
}

/// Whether the attach walk succeeds depends only on the key sets: it
/// fails exactly on the first unresolved id.
pub proof fn lemma_attach_err(
    trips: Map<Seq<char>, TripView>,
    stops: Map<Seq<char>, StopView>,
    recs: Seq<StopTimeGtfsView>,
)
    ensures
        match spec_first_bad(trips.dom(), stops.dom(), recs) {
            Some(id) => spec_attach(trips, stops, recs) == Err::<
                Map<Seq<char>, TripView>,
                LoadErrorV,
            >(LoadErrorV::Reference(id)),
            None => spec_attach(trips, stops, recs) is Ok,
        },
    decreases recs.len(),
{
    if recs.len() > 0 {
        let rec = recs[0];
        if trips.dom().contains(rec.trip_id) && stops.dom().contains(rec.stop_id) {
            let t = trips[rec.trip_id];
            let trips2 = trips.insert(
                rec.trip_id,
                TripView {
                    stop_times: t.stop_times.push(StopTime::spec_from(rec, stops[rec.stop_id])),
                    ..t
                },
            );
            assert(trips2.dom() =~= trips.dom());
            lemma_attach_err(trips2, stops, recs.skip(1));
        }
    }
}

/// Every trip with its visits sorted by sequence number.
pub open spec fn spec_sort_all(m: Map<Seq<char>, TripView>) -> Map<Seq<char>, TripView> {
    Map::new(
        |k: Seq<char>| m.dom().contains(k),
        |k: Seq<char>|
            TripView { stop_times: spec_sort_visits(m[k].stop_times), ..m[k] },
    )
}

/// Sorting each entry's visits in place is, on the map, the pointwise
/// sort of every trip.
pub proof fn lemma_map_of_sorted(s: Seq<(String, Trip)>, t: Seq<(String, Trip)>)
    requires
        unique_keys(s),
        t.len() == s.len(),
        forall|q: int| 0 <= q < s.len() ==> (#[trigger] t[q]).0 == s[q].0,
        forall|q: int|
            0 <= q < s.len() ==> (#[trigger] t[q]).1.deep_view() == (TripView {
                stop_times: spec_sort_visits(s[q].1.deep_view().stop_times),
                ..s[q].1.deep_view()
            }),
    ensures
        map_of(t) =~= spec_sort_all(map_of(s)),
        unique_keys(t),
    decreases s.len(),
{
    assert(unique_keys(t)) by {
        assert(forall|q: int| 0 <= q < t.len() ==> (#[trigger] t[q]).0 == s[q].0);
    }
    if s.len() == 0 {
        assert(map_of(t) =~= spec_sort_all(map_of(s)));
    } else {
        assert(unique_keys(s.drop_last()));
        assert(t.drop_last().len() == s.drop_last().len());
        assert(forall|q: int|
            0 <= q < s.drop_last().len() ==> (#[trigger] t.drop_last()[q]).0 == s.drop_last()[q].0);
        assert(forall|q: int|
            0 <= q < s.drop_last().len() ==> (#[trigger] t.drop_last()[q]).1.deep_view()
                == (TripView {
                stop_times: spec_sort_visits(s.drop_last()[q].1.deep_view().stop_times),
                ..s.drop_last()[q].1.deep_view()
            }));
        lemma_map_of_sorted(s.drop_last(), t.drop_last());
        assert(t[s.len() - 1].0 == s[s.len() - 1].0);
        assert(map_of(t) =~= spec_sort_all(map_of(s)));
    }
}

/// What reading the stop-visit file does to the store: decode the staging
/// records, attach each to its trip through the shared stop handle, then
/// sort every trip's visits.
pub open spec fn spec_read_stop_times(g: GtfsView, b: Seq<u8>) -> Result<GtfsView, LoadErrorV> {
    match csv_table_of(b) {
        None => Err(LoadErrorV::Table),
        Some(t) => match spec_decode_table::<StopTimeGtfs>(t) {
            Err(e) => Err(e),
            Ok(recs) => match spec_attach(g.trips, g.stops, recs) {
                Err(e) => Err(e),
                Ok(m) => Ok(GtfsView { trips: spec_sort_all(m), ..g }),
            },
        },
    }
}

impl Gtfs {
    /// Reads the stop-visit file and resolves it against the loaded trips
    /// and stops: every visit joins its trip through a shared handle on
    /// its stop, and each trip's visits end up sorted by sequence number,
    /// ties keeping file order. A visit naming an unknown trip or stop id
    /// fails the load with that id, the trip id checked first, and leaves
    /// the store unchanged.
    #[verifier::loop_isolation(false)]
    pub fn read_stop_times(&mut self, bytes: &[u8]) -> (r: Result<(), LoadError>)
        requires
            old(self).wf(),
        ensures
            final(self).wf(),
            match r {
                Ok(()) => spec_read_stop_times(old(self)@, bytes@) == Ok::<GtfsView, LoadErrorV>(
                    final(self)@,
                ),
                Err(e) => spec_read_stop_times(old(self)@, bytes@) == Err::<GtfsView, LoadErrorV>(
                    e@,
                ) && final(self)@ == old(self)@,
            },
    {
        let table = match read_table(bytes) {
            Some(t) => t,
            None => {
                return Err(LoadError::Table);
            },
        };
        let recs = match decode_table::<StopTimeGtfs>(&table) {
            Ok(v) => v,
            Err(e) => {
                return Err(e);
            },
        };
        let ghost recsv = recs.deep_view();
        let ghost trips0 = self.trips@;
        let ghost stops0 = self.stops@;
        // First a read-only pass: the load must not touch the store
        // unless every record resolves.
        let n = recs.len();
        let mut i: usize = 0;
        proof {
            assert(recsv.skip(0) =~= recsv);
        }
        while i < n
            invariant
                self == old(self),
                self.wf(),
                trips0 == self.trips@,
                stops0 == self.stops@,
                n == recs@.len(),
                recsv == recs.deep_view(),
                i <= n,
                spec_first_bad(trips0.dom(), stops0.dom(), recsv) == spec_first_bad(
                    trips0.dom(),
                    stops0.dom(),
                    recsv.skip(i as int),
                ),
            decreases n - i,
        {
            proof {
                assert(recs.deep_view()[i as int] == recs@[i as int].deep_view());
                assert(recsv.skip(i as int)[0] == recsv[i as int]);
                assert(recsv.skip(i as int).len() == recsv.len() - i);
            }
            if !self.trips.contains_key(recs[i].trip_id.as_str()) {
                proof {
                    assert(recs@[i as int].deep_view().trip_id == recs@[i as int].trip_id@);
                    assert(!trips0.dom().contains(recsv[i as int].trip_id));
                    assert(spec_first_bad(trips0.dom(), stops0.dom(), recsv.skip(i as int))
                        == Some(recsv[i as int].trip_id));
                    lemma_attach_err(trips0, stops0, recsv);
                }
                return Err(LoadError::Reference(ReferenceError { id: recs[i].trip_id.clone() }));
            }
            if !self.stops.contains_key(recs[i].stop_id.as_str()) {
                proof {
                    assert(recs@[i as int].deep_view().stop_id == recs@[i as int].stop_id@);
                    assert(trips0.dom().contains(recsv[i as int].trip_id));
                    assert(!stops0.dom().contains(recsv[i as int].stop_id));
                    assert(spec_first_bad(trips0.dom(), stops0.dom(), recsv.skip(i as int))
                        == Some(recsv[i as int].stop_id));
                    lemma_attach_err(trips0, stops0, recsv);
                }
                return Err(LoadError::Reference(ReferenceError { id: recs[i].stop_id.clone() }));
            }
            proof {
                assert(recsv.skip(i as int).skip(1) =~= recsv.skip(i + 1));
            }
            i = i + 1;
        }
        proof {
            assert(recsv.skip(n as int).len() == 0);
            lemma_attach_err(trips0, stops0, recsv);
            assert(spec_attach(trips0, stops0, recsv) is Ok);
        }
        // Attach every visit to its trip, in record order.
        let mut rest = recs;
        let ghost j: int = 0;
        proof {
            assert(seq_deep(rest@) =~= recsv.skip(0));
        }
        while rest.len() > 0
            invariant
                0 <= j <= recsv.len(),
                seq_deep(rest@) == recsv.skip(j),
                self.wf(),
                self.trips@.dom() == trips0.dom(),
                stops0 == self.stops@,
                self.calendar == old(self).calendar,
                self.calendar_dates == old(self).calendar_dates,
                self.stops == old(self).stops,
                self.routes == old(self).routes,
                self.agencies == old(self).agencies,
                self.shapes == old(self).shapes,
                self.fare_attributes == old(self).fare_attributes,
                self.read_duration == old(self).read_duration,
                spec_attach(trips0, stops0, recsv) is Ok,
                spec_attach(trips0, stops0, recsv) == spec_attach(
                    self.trips@,
                    stops0,
                    recsv.skip(j),
                ),
            decreases recsv.len() - j,
        {
            let ghost rold = rest@;
            proof {
                assert(seq_deep(rold).len() == rold.len());
                assert(j < recsv.len());
            }
            let rec = rest.remove(0);
            proof {
                lemma_deep_skip_step(rold, rest@, recsv, j);
                assert(rec.deep_view() == recsv[j]);
                assert(recsv.skip(j)[0] == recsv[j]);
                assert(recsv.skip(j).len() == recsv.len() - j);
                assert(self.trips@.contains_key(recsv[j].trip_id));
                assert(stops0.contains_key(recsv[j].stop_id));
            }
            let ghost m_old = self.trips@;
            // The validation pass resolved every record, so neither
            // lookup below can miss.
            let ti = match self.trips.index_of(rec.trip_id.as_str()) {
                Some(x) => x,
                None => {
                    proof {
                        assert(false);
                    }
                    return Err(LoadError::Table);
                },
            };
            let stop_arc = match self.stops.get(rec.stop_id.as_str()) {
                Some(a) => a,
                None => {
                    proof {
                        assert(false);
                    }
                    return Err(LoadError::Table);
                },
            };
            let handle = clone_arc(stop_arc);
            let st = StopTime::from(&rec, handle);
            proof {
                lemma_map_of_get(self.trips.entries@, ti as int);
                assert(st@ == StopTime::spec_from(recsv[j], stops0[recsv[j].stop_id]));
            }
            self.trips.push_visit_at(ti, st);
            proof {
                assert(recsv.skip(j).skip(1) =~= recsv.skip(j + 1));
                let tid = recsv[j].trip_id;
                let t = m_old[tid];
                assert(self.trips@ == m_old.insert(
                    tid,
                    TripView {
                        stop_times: t.stop_times.push(
                            StopTime::spec_from(recsv[j], stops0[recsv[j].stop_id]),
                        ),
                        ..t
                    },
                ));
                j = j + 1;
            }
        }
        proof {
            assert(recsv.skip(j).len() == 0);
            assert(spec_attach(self.trips@, stops0, recsv.skip(j)) == Ok::<
                Map<Seq<char>, TripView>,
                LoadErrorV,
            >(self.trips@));
        }
        let ghost m_end = self.trips@;
        let ghost entries_mid = self.trips.entries@;
        // Finally sort every trip's visits.
        let nt = self.trips.entries.len();
        let mut t: usize = 0;
        while t < nt
            invariant
                nt == self.trips.entries@.len(),
                entries_mid.len() == nt,
                t <= nt,
                self.wf(),
                unique_keys(entries_mid),
                m_end == map_of(entries_mid),
                stops0 == self.stops@,
                self.calendar == old(self).calendar,
                self.calendar_dates == old(self).calendar_dates,
                self.stops == old(self).stops,
                self.routes == old(self).routes,
                self.agencies == old(self).agencies,
                self.shapes == old(self).shapes,
                self.fare_attributes == old(self).fare_attributes,
                self.read_duration == old(self).read_duration,
                forall|q: int| t <= q < nt ==> self.trips.entries@[q] == entries_mid[q],
                forall|q: int|
                    0 <= q < t ==> (#[trigger] self.trips.entries@[q]).0 == entries_mid[q].0
                        && self.trips.entries@[q].1.deep_view() == (TripView {
                        stop_times: spec_sort_visits(entries_mid[q].1.deep_view().stop_times),
                        ..entries_mid[q].1.deep_view()
                    }),
            decreases nt - t,
        {
            self.trips.sort_visits_at(t);
            t = t + 1;
        }
        proof {
            lemma_map_of_sorted(entries_mid, self.trips.entries@);
            assert(self.trips@ =~= spec_sort_all(m_end));
            assert(self@ =~= (GtfsView { trips: spec_sort_all(m_end), ..old(self)@ }));
        }
        Ok(())
    }
}


/// The offsets that the service's added exceptions contribute, in
/// encounter order: for each exception typed as an addition and dated on
/// or after the start, the count of days from the start.
pub open spec fn spec_added_days(cds: Seq<CalendarDateView>, start: int) -> Seq<u16>
    decreases cds.len(),
{
    if cds.len() == 0 {
        Seq::<u16>::empty()
    } else {
        let prev = spec_added_days(cds.drop_last(), start);
        let cd = cds.last();
        let dn = spec_day_number(cd.date);
        if dn >= start && cd.exception_type == 1 {
            prev.push((dn - start) as u16)
        } else {
            prev
        }
    }
}

/// The offsets that the service's removal exceptions cover.
pub open spec fn spec_removed_days(cds: Seq<CalendarDateView>, start: int) -> Set<int>
    decreases cds.len(),
{
    if cds.len() == 0 {
        Set::<int>::empty()
    } else {
        let prev = spec_removed_days(cds.drop_last(), start);
        let cd = cds.last();
        let dn = spec_day_number(cd.date);
        if dn >= start && cd.exception_type == 2 {
            prev.insert(dn - start)
        } else {
            prev
        }
    }
}

/// The first `n` day offsets that the weekly pattern contributes, in
/// ascending order: an offset is in when its date falls inside the
/// calendar's range, its weekday flag is on, and no removal covers it.
pub open spec fn spec_pattern_days(cal: CalendarView, start: int, removed: Set<int>, n: nat) -> Seq<
    u16,
>
    decreases n,
{
    if n == 0 {
        Seq::<u16>::empty()
    } else {
        let prev = spec_pattern_days(cal, start, removed, (n - 1) as nat);
        let off = n - 1;
        if spec_day_number(cal.start_date) <= start + off <= spec_day_number(cal.end_date)
            && cal.spec_weekday_flag(spec_weekday_index(start + off)) && !removed.contains(off) {
            prev.push(off as u16)
        } else {
            prev
        }
    }
}

/// The operating days of a service from a start date: the added
/// exceptions first, in encounter order, then the weekly-pattern days in
/// ascending offset order — no merge, no deduplication.
pub open spec fn spec_trip_days(g: GtfsView, sid: Seq<char>, start: Date) -> Seq<u16> {
    let start_dn = spec_day_number(start);
    let added = if g.calendar_dates.contains_key(sid) {
        spec_added_days(g.calendar_dates[sid], start_dn)
    } else {
        Seq::<u16>::empty()
    };
    let removed = if g.calendar_dates.contains_key(sid) {
        spec_removed_days(g.calendar_dates[sid], start_dn)
    } else {
        Set::<int>::empty()
    };
    let pattern = if g.calendar.contains_key(sid) {
        let cal = g.calendar[sid];
        let end_dn = spec_day_number(cal.end_date);
        if end_dn >= start_dn {
            spec_pattern_days(cal, start_dn, removed, (end_dn - start_dn + 1) as nat)
        } else {
            Seq::<u16>::empty()
        }
    } else {
        Seq::<u16>::empty()
    };
    added + pattern
}

/// Whether the dates this service carries in the store are real calendar
/// dates. The loaders only ever store decoded dates, which are.
pub open spec fn service_dates_valid(g: GtfsView, sid: Seq<char>) -> bool {
    (g.calendar_dates.contains_key(sid) ==> forall|k: int|
        0 <= k < g.calendar_dates[sid].len() ==> (#[trigger] g.calendar_dates[sid][k]).date.valid())
        && (g.calendar.contains_key(sid) ==> g.calendar[sid].start_date.valid()
        && g.calendar[sid].end_date.valid())
}

/// Whether every day offset the result must carry fits its sixteen bits:
/// the bound the result's element type forces.
pub open spec fn service_offsets_fit(g: GtfsView, sid: Seq<char>, start: Date) -> bool {
    let s = spec_day_number(start);
    (g.calendar_dates.contains_key(sid) ==> forall|k: int|
        0 <= k < g.calendar_dates[sid].len() ==> (((#[trigger] g.calendar_dates[sid][k]).exception_type
            == 1 && spec_day_number(g.calendar_dates[sid][k].date) >= s) ==> spec_day_number(
            g.calendar_dates[sid][k].date,
        ) - s <= 65535)) && (g.calendar.contains_key(sid) ==> spec_day_number(
        g.calendar[sid].end_date,
    ) - s <= 65535)
}

/// Whether the vector holds the value.
fn contains_u32(v: &Vec<u32>, x: u32) -> (r: bool)
    ensures
        r == exists|q: int| 0 <= q < v@.len() && v@[q] == x,
{
    let n = v.len();
    let mut i: usize = 0;
    while i < n
        invariant
            n == v@.len(),
            i <= n,
            forall|q: int| 0 <= q < i ==> v@[q] != x,
        decreases n - i,
    {
        if v[i] == x {
            return true;
        }
        i = i + 1;
    }
    false
}

/// Walks the service's exceptions once: additions dated on or after the
/// start push their offsets onto the result, removals collect theirs.
#[verifier::loop_isolation(false)]
fn collect_exception_days(
    group: &Vec<CalendarDate>,
    start_dn: u32,
    result: &mut Vec<u16>,
    removed: &mut Vec<u32>,
)
    requires
        old(removed)@.len() == 0,
        forall|k: int|
            0 <= k < group.deep_view().len() ==> (#[trigger] group.deep_view()[k]).date.valid(),
        forall|k: int|
            0 <= k < group.deep_view().len() ==> (((#[trigger] group.deep_view()[k]).exception_type
                == 1 && spec_day_number(group.deep_view()[k].date) >= start_dn) ==> spec_day_number(
                group.deep_view()[k].date,
            ) - start_dn <= 65535),
    ensures
        final(result)@ == old(result)@ + spec_added_days(group.deep_view(), start_dn as int),
        forall|o: int| #[trigger]
            spec_removed_days(group.deep_view(), start_dn as int).contains(o) ==> exists|q: int|
                0 <= q < final(removed)@.len() && final(removed)@[q] == o,
        forall|q: int|
            0 <= q < final(removed)@.len() ==> spec_removed_days(
                group.deep_view(),
                start_dn as int,
            ).contains(#[trigger] final(removed)@[q] as int),
{
    let ghost gv = group.deep_view();
    let ghost sdn = start_dn as int;
    let ghost r0 = result@;
    let m = group.len();
    let mut k: usize = 0;
    proof {
        assert(gv.take(0) =~= Seq::<CalendarDateView>::empty());
        assert(result@ =~= r0 + spec_added_days(gv.take(0), sdn));
        assert(spec_removed_days(gv.take(0), sdn) =~= Set::<int>::empty());
    }
    while k < m
        invariant
            k <= m,
            result@ == r0 + spec_added_days(gv.take(k as int), sdn),
            forall|o: int| #[trigger]
                spec_removed_days(gv.take(k as int), sdn).contains(o) ==> exists|q: int|
                    0 <= q < removed@.len() && removed@[q] == o,
            forall|q: int| 0 <= q < removed@.len() ==> spec_removed_days(
                gv.take(k as int),
                sdn,
            ).contains(#[trigger] removed@[q] as int),
        decreases m - k,
    {
        proof {
            assert(gv[k as int] == group@[k as int]@);
            assert(gv.take(k + 1).drop_last() =~= gv.take(k as int));
            assert(gv.take(k + 1).last() == gv[k as int]);
        }
        let cd = &group[k];
        let dn = cd.date.day_number();
        proof {
            let cdv = gv[k as int];
            if !(spec_day_number(cdv.date) >= sdn && cdv.exception_type == 2) {
                assert(spec_removed_days(gv.take(k + 1), sdn) == spec_removed_days(
                    gv.take(k as int),
                    sdn,
                ));
            }
        }
        if dn >= start_dn {
            let off = dn - start_dn;
            if cd.exception_type == 1 {
                result.push(off as u16);
            } else if cd.exception_type == 2 {
                let ghost rprev = removed@;
                removed.push(off);
                proof {
                    assert(removed@ =~= rprev.push(off));
                    assert(spec_removed_days(gv.take(k + 1), sdn) == spec_removed_days(
                        gv.take(k as int),
                        sdn,
                    ).insert(off as int));
                    assert forall|o: int| #[trigger]
                        spec_removed_days(gv.take(k + 1), sdn).contains(o) implies exists|q: int|
                        0 <= q < removed@.len() && removed@[q] == o by {
                        if o == off as int {
                            assert(removed@[removed@.len() - 1] == off);
                        } else {
                            assert(spec_removed_days(gv.take(k as int), sdn).contains(o));
                            let q = choose|q: int| 0 <= q < rprev.len() && rprev[q] == o;
                            assert(removed@[q] == o);
                        }
                    }
                    assert forall|q: int| 0 <= q < removed@.len() implies spec_removed_days(
                        gv.take(k + 1),
                        sdn,
                    ).contains(removed@[q] as int) by {
                        if q == removed@.len() - 1 {
                            assert(removed@[q] == off);
                        } else {
                            assert(rprev[q] == removed@[q]);
                            assert(spec_removed_days(gv.take(k as int), sdn).contains(
                                removed@[q] as int,
                            ));
                        }
                    }
                }
            }
        }
        k = k + 1;
    }
    proof {
        assert(gv.take(m as int) =~= gv);
    }
}

/// Walks every offset of the calendar's range once, keeping those whose
/// date lies in the range, whose weekday flag is on, and which no removal
/// covers.
#[verifier::loop_isolation(false)]
fn collect_pattern_days(
    cal: &Calendar,
    start_dn: u32,
    removed: &Vec<u32>,
    result: &mut Vec<u16>,
    Ghost(removed_set): Ghost<Set<int>>,
)
    requires
        cal@.start_date.valid(),
        cal@.end_date.valid(),
        start_dn <= 3652424,
        spec_day_number(cal@.end_date) >= start_dn,
        spec_day_number(cal@.end_date) - start_dn <= 65535,
        forall|o: int| #[trigger]
            removed_set.contains(o) <==> exists|q: int|
                0 <= q < removed@.len() && removed@[q] == o,
    ensures
        final(result)@ == old(result)@ + spec_pattern_days(
            cal@,
            start_dn as int,
            removed_set,
            (spec_day_number(cal@.end_date) - start_dn + 1) as nat,
        ),
{
    let ghost calv = cal@;
    let ghost sdn = start_dn as int;
    let ghost r0 = result@;
    let end_dn = cal.end_date.day_number();
    let cal_start_dn = cal.start_date.day_number();
    let total = end_dn - start_dn;
    let mut off: u32 = 0;
    proof {
        assert(result@ =~= r0 + spec_pattern_days(calv, sdn, removed_set, 0));
    }
    while off <= total
        invariant
            off <= total + 1,
            result@ == r0 + spec_pattern_days(calv, sdn, removed_set, off as nat),
        decreases total + 1 - off,
    {
        let cur = start_dn + off;
        let w = ((cur + 5) % 7) as u8;
        let flag = cal.weekday_flag(w);
        let hit = cal_start_dn <= cur && cur <= end_dn && flag && !contains_u32(&removed, off);
        proof {
            assert(spec_weekday_index(sdn + off) == w as int);
            assert(removed_set.contains(off as int) <==> exists|q: int|
                0 <= q < removed@.len() && removed@[q] == off);
        }
        if hit {
            result.push(off as u16);
        }
        off = off + 1;
    }
}

impl Gtfs {
    /// The list of day offsets, counted from the start date, on which the
    /// service operates: the added exceptions in encounter order, then
    /// the weekly-pattern days in ascending order. Exceptions dated
    /// before the start date are ignored; removal exceptions strike their
    /// offsets out of the pattern.
    pub fn trip_days(&self, service_id: &str, start_date: Date) -> (r: Vec<u16>)
        requires
            self.wf(),
            start_date.valid(),
            service_dates_valid(self@, service_id@),
            service_offsets_fit(self@, service_id@, start_date),
        ensures
            r@ == spec_trip_days(self@, service_id@, start_date),
    {
        let start_dn = start_date.day_number();
        let mut result: Vec<u16> = Vec::new();
        let mut removed: Vec<u32> = Vec::new();
        let ghost sid = service_id@;
        let ghost sdn = spec_day_number(start_date);
        let ghost added_full: Seq<u16> = if self@.calendar_dates.contains_key(sid) {
            spec_added_days(self@.calendar_dates[sid], sdn)
        } else {
            Seq::<u16>::empty()
        };
        let ghost removed_full: Set<int> = if self@.calendar_dates.contains_key(sid) {
            spec_removed_days(self@.calendar_dates[sid], sdn)
        } else {
            Set::<int>::empty()
        };
        match self.calendar_dates.get(service_id) {
            Some(group) => {
                collect_exception_days(group, start_dn, &mut result, &mut removed);
                proof {
                    assert(result@ =~= added_full);
                }
            },
            None => {
                proof {
                    assert(result@ =~= added_full);
                    assert(forall|o: int| #[trigger]
                        removed_full.contains(o) <==> exists|q: int|
                            0 <= q < removed@.len() && removed@[q] == o);
                }
            },
        }
        match self.calendar.get(service_id) {
            Some(cal) => {
                let end_dn = cal.end_date.day_number();
                if end_dn >= start_dn {
                    collect_pattern_days(
                        cal,
                        start_dn,
                        &removed,
                        &mut result,
                        Ghost(removed_full),
                    );
                } else {
                    proof {
                        assert(result@ =~= added_full + Seq::<u16>::empty());
                    }
                }
            },
            None => {
                proof {
                    assert(result@ =~= added_full + Seq::<u16>::empty());
                }
            },
        }
        result
    }
}


impl Gtfs {
    /// Looks a stop up by id; a miss is a reference error carrying the
    /// queried id.
    pub fn get_stop<'a>(&'a self, id: &str) -> (r: Result<&'a Stop, ReferenceError>)
        requires
            self.wf(),
        ensures
            match r {
                Ok(s) => self@.stops.contains_key(id@) && s@ == self@.stops[id@],
                Err(e) => !self@.stops.contains_key(id@) && e@ == id@,
            },
    {
        match self.stops.get(id) {
            Some(stop) => Ok(&**stop),
            None => Err(ReferenceError { id: id.to_owned() }),
        }
    }

    /// Looks a trip up by id.
    pub fn get_trip<'a>(&'a self, id: &str) -> (r: Result<&'a Trip, ReferenceError>)
        requires
            self.wf(),
        ensures
            match r {
                Ok(t) => self@.trips.contains_key(id@) && t@ == self@.trips[id@],
                Err(e) => !self@.trips.contains_key(id@) && e@ == id@,
            },
    {
        match self.trips.get(id) {
            Some(trip) => Ok(trip),
            None => Err(ReferenceError { id: id.to_owned() }),
        }
    }

    /// Looks a route up by id.
    pub fn get_route<'a>(&'a self, id: &str) -> (r: Result<&'a Route, ReferenceError>)
        requires
            self.wf(),
        ensures
            match r {
                Ok(t) => self@.routes.contains_key(id@) && t@ == self@.routes[id@],
                Err(e) => !self@.routes.contains_key(id@) && e@ == id@,
            },
    {
        match self.routes.get(id) {
            Some(route) => Ok(route),
            None => Err(ReferenceError { id: id.to_owned() }),
        }
    }

    /// Looks a weekly pattern up by service id.
    pub fn get_calendar<'a>(&'a self, id: &str) -> (r: Result<&'a Calendar, ReferenceError>)
        requires
            self.wf(),
        ensures
            match r {
                Ok(t) => self@.calendar.contains_key(id@) && t@ == self@.calendar[id@],
                Err(e) => !self@.calendar.contains_key(id@) && e@ == id@,
            },
    {
        match self.calendar.get(id) {
            Some(c) => Ok(c),
            None => Err(ReferenceError { id: id.to_owned() }),
        }
    }

    /// Looks a service's exception group up by service id.
    pub fn get_calendar_date<'a>(&'a self, id: &str) -> (r: Result<
        &'a Vec<CalendarDate>,
        ReferenceError,
    >)
        requires
            self.wf(),
        ensures
            match r {
                Ok(t) => self@.calendar_dates.contains_key(id@) && t.deep_view()
                    == self@.calendar_dates[id@],
                Err(e) => !self@.calendar_dates.contains_key(id@) && e@ == id@,
            },
    {
        match self.calendar_dates.get(id) {
            Some(c) => Ok(c),
            None => Err(ReferenceError { id: id.to_owned() }),
        }
    }

    /// Looks a shape's point group up by shape id.
    pub fn get_shape<'a>(&'a self, id: &str) -> (r: Result<&'a Vec<Shape>, ReferenceError>)
        requires
            self.wf(),
        ensures
            match r {
                Ok(t) => self@.shapes.contains_key(id@) && t.deep_view() == self@.shapes[id@],
                Err(e) => !self@.shapes.contains_key(id@) && e@ == id@,
            },
    {
        match self.shapes.get(id) {
            Some(c) => Ok(c),
            None => Err(ReferenceError { id: id.to_owned() }),
        }
    }

    /// Looks a fare up by id.
    pub fn get_fare_attributes<'a>(&'a self, id: &str) -> (r: Result<
        &'a FareAttribute,
        ReferenceError,
    >)
        requires
            self.wf(),
        ensures
            match r {
                Ok(t) => self@.fare_attributes.contains_key(id@) && t@
                    == self@.fare_attributes[id@],
                Err(e) => !self@.fare_attributes.contains_key(id@) && e@ == id@,
            },
    {
        match self.fare_attributes.get(id) {
            Some(c) => Ok(c),
            None => Err(ReferenceError { id: id.to_owned() }),
        }
    }
}

/// What one named byte stream does to the store, by the suffix of its
/// name. The stop-visit file is deferred — the resolver needs trips and
/// stops first — and an unrecognized name is ignored.
pub open spec fn spec_apply_source(g: GtfsView, name: Seq<char>, b: Seq<u8>) -> Result<
    GtfsView,
    LoadErrorV,
> {
    if spec_ends_with(name, "stop_times.txt"@) {
        Ok(g)
    } else if spec_ends_with(name, "calendar.txt"@) {
        spec_read_calendars(g, b)
    } else if spec_ends_with(name, "stops.txt"@) {
        spec_read_stops(g, b)
    } else if spec_ends_with(name, "calendar_dates.txt"@) {
        spec_read_calendar_dates(g, b)
    } else if spec_ends_with(name, "routes.txt"@) {
        spec_read_routes(g, b)
    } else if spec_ends_with(name, "trips.txt"@) {
        spec_read_trips(g, b)
    } else if spec_ends_with(name, "agency.txt"@) {
        spec_read_agencies(g, b)
    } else if spec_ends_with(name, "shapes.txt"@) {
        spec_read_shapes(g, b)
    } else if spec_ends_with(name, "fare_attributes.txt"@) {
        spec_read_fare_attributes(g, b)
    } else {
        Ok(g)
    }
}

/// The store after every named source but the deferred stop-visit file,
/// in source order, stopping at the first failure.
pub open spec fn spec_load_sources(g: GtfsView, srcs: Seq<(Seq<char>, Seq<u8>)>) -> Result<
    GtfsView,
    LoadErrorV,
>
    decreases srcs.len(),
{
    if srcs.len() == 0 {
        Ok(g)
    } else {
        match spec_apply_source(g, srcs[0].0, srcs[0].1) {
            Err(e) => Err(e),
            Ok(g2) => spec_load_sources(g2, srcs.skip(1)),
        }
    }
}

/// The bytes of the last source named as the stop-visit file.
pub open spec fn spec_stop_times_source(srcs: Seq<(Seq<char>, Seq<u8>)>) -> Option<Seq<u8>>
    decreases srcs.len(),
{
    if srcs.len() == 0 {
        None
    } else if spec_ends_with(srcs.last().0, "stop_times.txt"@) {
        Some(srcs.last().1)
    } else {
        spec_stop_times_source(srcs.drop_last())
    }
}

/// What loading a whole bundle of named sources builds: every file into
/// the empty store, then the stop-visit file resolved last. A bundle
/// without a stop-visit file is a format failure.
pub open spec fn spec_from_named_sources(srcs: Seq<(Seq<char>, Seq<u8>)>) -> Result<
    GtfsView,
    LoadErrorV,
> {
    let g0 = GtfsView {
        read_duration: 0i64,
        calendar: Map::<Seq<char>, CalendarView>::empty(),
        calendar_dates: Map::<Seq<char>, Seq<CalendarDateView>>::empty(),
        stops: Map::<Seq<char>, StopView>::empty(),
        routes: Map::<Seq<char>, RouteView>::empty(),
        trips: Map::<Seq<char>, TripView>::empty(),
        agencies: Seq::<AgencyView>::empty(),
        shapes: Map::<Seq<char>, Seq<ShapeView>>::empty(),
        fare_attributes: Map::<Seq<char>, FareAttributeView>::empty(),
    };
    match spec_load_sources(g0, srcs) {
        Err(e) => Err(e),
        Ok(g1) => match spec_stop_times_source(srcs) {
            None => Err(LoadErrorV::MissingStopTimes),
            Some(b) => spec_read_stop_times(g1, b),
        },
    }
}

impl Gtfs {
    /// Loads a bundle handed over as named byte streams, matched by
    /// filename suffix so nested paths are tolerated. Every file but the
    /// stop-visit one is decoded in source order; the stop-visit file —
    /// whose absence is a fatal format failure — is resolved last, once
    /// trips and stops are in place. The caller sees a fully resolved
    /// store or the first failure.
    #[verifier::loop_isolation(false)]
    pub fn from_named_sources(sources: &Vec<(String, Vec<u8>)>) -> (r: Result<Gtfs, LoadError>)
        ensures
            match r {
                Ok(g) => g.wf() && spec_from_named_sources(sources.deep_view()) == Ok::<
                    GtfsView,
                    LoadErrorV,
                >(g@),
                Err(e) => spec_from_named_sources(sources.deep_view()) == Err::<
                    GtfsView,
                    LoadErrorV,
                >(e@),
            },
    {
        let ghost srcsv = sources.deep_view();
        let mut gtfs = Gtfs::default();
        let ghost g0 = gtfs@;
        let mut st_idx: Option<usize> = None;
        let n = sources.len();
        let mut i: usize = 0;
        proof {
            assert(srcsv.skip(0) =~= srcsv);
            assert(srcsv.take(0) =~= Seq::<(Seq<char>, Seq<u8>)>::empty());
        }
        while i < n
            invariant
                i <= n,
                gtfs.wf(),
                spec_load_sources(gtfs@, srcsv.skip(i as int)) == spec_load_sources(
                    g0,
                    srcsv,
                ),
                match st_idx {
                    Some(q) => q < i && spec_stop_times_source(srcsv.take(i as int)) == Some(
                        srcsv[q as int].1,
                    ),
                    None => spec_stop_times_source(srcsv.take(i as int)) is None,
                },
            decreases n - i,
        {
            proof {
                assert(srcsv[i as int] == sources@[i as int].deep_view());
                assert(srcsv[i as int].0 == sources@[i as int].0@);
                assert(srcsv[i as int].1 == sources@[i as int].1@);
                assert(srcsv.skip(i as int)[0] == srcsv[i as int]);
                assert(srcsv.skip(i as int).skip(1) =~= srcsv.skip(i + 1));
                assert(srcsv.take(i + 1).drop_last() =~= srcsv.take(i as int));
                assert(srcsv.take(i + 1).last() == srcsv[i as int]);
            }
            let name = sources[i].0.as_str();
            let bytes = sources[i].1.as_slice();
            let step = if ends_with_str(name, "stop_times.txt") {
                st_idx = Some(i);
                Ok(())
            } else if ends_with_str(name, "calendar.txt") {
                gtfs.read_calendars(bytes)
            } else if ends_with_str(name, "stops.txt") {
                gtfs.read_stops(bytes)
            } else if ends_with_str(name, "calendar_dates.txt") {
                gtfs.read_calendar_dates(bytes)
            } else if ends_with_str(name, "routes.txt") {
                gtfs.read_routes(bytes)
            } else if ends_with_str(name, "trips.txt") {
                gtfs.read_trips(bytes)
            } else if ends_with_str(name, "agency.txt") {
                gtfs.read_agencies(bytes)
            } else if ends_with_str(name, "shapes.txt") {
                gtfs.read_shapes(bytes)
            } else if ends_with_str(name, "fare_attributes.txt") {
                gtfs.read_fare_attributes(bytes)
            } else {
                Ok(())
            };
            match step {
                Ok(()) => {},
                Err(e) => {
                    return Err(e);
                },
            }
            i = i + 1;
        }
        proof {
            assert(srcsv.take(n as int) =~= srcsv);
            assert(srcsv.skip(n as int).len() == 0);
            assert(spec_load_sources(g0, srcsv) == Ok::<GtfsView, LoadErrorV>(gtfs@));
        }
        let sti = match st_idx {
            Some(q) => q,
            None => {
                return Err(LoadError::MissingStopTimes);
            },
        };
        let st_bytes = sources[sti].1.as_slice();
        proof {
            assert(srcsv[sti as int].1 == sources@[sti as int].1@);
        }
        match gtfs.read_stop_times(st_bytes) {
            Ok(()) => Ok(gtfs),
            Err(e) => Err(e),
        }
    }
}

} // verus!
