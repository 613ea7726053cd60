//! The properties the library states of itself, each proved from the
//! contracts in the other modules.

use vstd::prelude::*;
use crate::decode::{spec_decode_table, spec_rows, RowDecode};
use crate::error::LoadErrorV;
use crate::sort::{lemma_sort_visits_sorted, visits_sorted};
use crate::store::{
    service_dates_valid, spec_apply_source, spec_from_named_sources, spec_grouped, spec_keyed,
    spec_load_sources, spec_pattern_days, spec_read_stop_times, GtfsView,
};
use crate::text::spec_ends_with;
use crate::types::{Calendar, CalendarDate, CalendarDateView, CalendarView};

verus! {

/// For records with pairwise-distinct ids, a keyed collection holds
/// exactly one entry per source row: entity counts after a load equal the
/// row counts of their files.
pub proof fn lemma_entity_count<V>(recs: Seq<V>, key: spec_fn(V) -> Seq<char>)
    requires
        forall|i: int, j: int| 0 <= i < j < recs.len() ==> key(recs[i]) != key(recs[j]),
    ensures
        spec_keyed(recs, key).dom().finite(),
        spec_keyed(recs, key).dom().len() == recs.len(),
    decreases recs.len(),
{
    if recs.len() > 0 {
        assert(forall|i: int|
            0 <= i < recs.len() - 1 ==> key(#[trigger] recs.drop_last()[i]) == key(recs[i]));
        lemma_entity_count(recs.drop_last(), key);
        lemma_keyed_contains(recs.drop_last(), key, key(recs.last()));
        assert(!spec_keyed(recs.drop_last(), key).contains_key(key(recs.last())));
        vstd::set::axiom_set_insert_len(
            spec_keyed(recs.drop_last(), key).dom(),
            key(recs.last()),
        );
        assert(spec_keyed(recs, key).dom() =~= spec_keyed(recs.drop_last(), key).dom().insert(
            key(recs.last()),
        ));
    }
}

/// A key is in a keyed collection exactly when some record carries it.
pub proof fn lemma_keyed_contains<V>(recs: Seq<V>, key: spec_fn(V) -> Seq<char>, k: Seq<char>)
    ensures
        spec_keyed(recs, key).contains_key(k) <==> exists|i: int|
            0 <= i < recs.len() && key(#[trigger] recs[i]) == k,
    decreases recs.len(),
{
    if recs.len() > 0 {
        lemma_keyed_contains(recs.drop_last(), key, k);
        if key(recs.last()) == k {
            assert(key(recs[recs.len() - 1]) == k);
        } else if spec_keyed(recs, key).contains_key(k) {
            let i = choose|i: int|
                0 <= i < recs.len() - 1 && key(#[trigger] recs.drop_last()[i]) == k;
            assert(key(recs[i]) == k);
        } else {
            if exists|i: int| 0 <= i < recs.len() && key(#[trigger] recs[i]) == k {
                let i = choose|i: int| 0 <= i < recs.len() && key(#[trigger] recs[i]) == k;
                assert(key(recs.drop_last()[i]) == k);
            }
        }
    }
}

/// The records, in order, that a grouping keys to `k`.
pub open spec fn records_for<V>(recs: Seq<V>, key: spec_fn(V) -> Seq<char>, k: Seq<char>) -> Seq<
    V,
> {
    recs.filter(|r: V| key(r) == k)
}

/// Grouping is exact: each group holds what it held before plus, in file
/// order, precisely the records keyed to it. Counted by group, the rows
/// of a grouped file are all accounted for.
pub proof fn lemma_grouped_groups<V>(
    m0: Map<Seq<char>, Seq<V>>,
    recs: Seq<V>,
    key: spec_fn(V) -> Seq<char>,
    k: Seq<char>,
)
    ensures
        spec_grouped(m0, recs, key).contains_key(k) <==> (m0.contains_key(k) || exists|i: int|
            0 <= i < recs.len() && key(#[trigger] recs[i]) == k),
        spec_grouped(m0, recs, key).contains_key(k) ==> spec_grouped(m0, recs, key)[k] == (if m0.contains_key(
            k,
        ) {
            m0[k]
        } else {
            Seq::<V>::empty()
        }) + records_for(recs, key, k),
    decreases recs.len(),
{
    reveal(Seq::filter);
    if recs.len() == 0 {
        if m0.contains_key(k) {
            assert(m0[k] + records_for(recs, key, k) =~= m0[k]);
        }
    } else {
        lemma_grouped_groups(m0, recs.drop_last(), key, k);
        let m = spec_grouped(m0, recs.drop_last(), key);
        let kl = key(recs.last());
        let base: Seq<V> = if m0.contains_key(k) {
            m0[k]
        } else {
            Seq::<V>::empty()
        };
        if kl == k {
            assert(key(recs[recs.len() - 1]) == k);
            assert(records_for(recs, key, k) == records_for(recs.drop_last(), key, k).push(
                recs.last(),
            ));
            if m.contains_key(k) {
                assert(spec_grouped(m0, recs, key)[k] == m[k].push(recs.last()));
                assert(base + records_for(recs, key, k) =~= (base + records_for(
                    recs.drop_last(),
                    key,
                    k,
                )).push(recs.last()));
            } else {
                assert(!m0.contains_key(k));
                assert(forall|i: int|
                    0 <= i < recs.len() - 1 ==> key(#[trigger] recs.drop_last()[i]) != k);
                lemma_filter_none(recs.drop_last(), key, k);
                assert(spec_grouped(m0, recs, key)[k] == Seq::<V>::empty().push(recs.last()));
                assert(base + records_for(recs, key, k) =~= Seq::<V>::empty().push(recs.last()));
            }
        } else {
            assert(records_for(recs, key, k) == records_for(recs.drop_last(), key, k));
            if spec_grouped(m0, recs, key).contains_key(k) {
                assert(m.contains_key(k));
                assert(spec_grouped(m0, recs, key)[k] == m[k]);
            }
            if m0.contains_key(k) || exists|i: int|
                0 <= i < recs.len() && key(#[trigger] recs[i]) == k {
                if !m0.contains_key(k) {
                    let i = choose|i: int| 0 <= i < recs.len() && key(#[trigger] recs[i]) == k;
                    assert(i < recs.len() - 1);
                    assert(key(recs.drop_last()[i]) == k);
                }
            }
        }
    }
}

/// Records none of which carry the key filter away to nothing.
pub proof fn lemma_filter_none<V>(recs: Seq<V>, key: spec_fn(V) -> Seq<char>, k: Seq<char>)
    requires
        forall|i: int| 0 <= i < recs.len() ==> key(#[trigger] recs[i]) != k,
    ensures
        records_for(recs, key, k) == Seq::<V>::empty(),
    decreases recs.len(),
{
    reveal(Seq::filter);
    if recs.len() > 0 {
        assert(forall|i: int|
            0 <= i < recs.len() - 1 ==> key(#[trigger] recs.drop_last()[i]) != k);
        lemma_filter_none(recs.drop_last(), key, k);
        assert(key(recs.last()) != k);
    }
    assert(records_for(recs, key, k) =~= Seq::<V>::empty());
}

/// After a successful stop-visit resolution, every trip's visits carry
/// non-decreasing sequence numbers.
pub proof fn lemma_visits_ordered(g: GtfsView, b: Seq<u8>, g2: GtfsView)
    requires
        spec_read_stop_times(g, b) == Ok::<GtfsView, LoadErrorV>(g2),
    ensures
        forall|sid: Seq<char>| #[trigger]
            g2.trips.contains_key(sid) ==> visits_sorted(g2.trips[sid].stop_times),
{
    assert forall|sid: Seq<char>| #[trigger] g2.trips.contains_key(sid) implies visits_sorted(
        g2.trips[sid].stop_times,
    ) by {
        lemma_sort_visits_sorted(
            (crate::store::spec_attach(
                g.trips,
                g.stops,
                crate::decode::spec_decode_table::<crate::types::StopTimeGtfs>(
                    crate::table::csv_table_of(b)->Some_0,
                )->Ok_0,
            ))->Ok_0[sid].stop_times,
        );
    }
}

/// A bundle that never names the shapes file leaves the shape collection
/// exactly as it began — omitting an optional file yields an empty
/// collection, not an error.
pub proof fn lemma_shapes_optional(g0: GtfsView, srcs: Seq<(Seq<char>, Seq<u8>)>, g1: GtfsView)
    requires
        spec_load_sources(g0, srcs) == Ok::<GtfsView, LoadErrorV>(g1),
        forall|i: int|
            0 <= i < srcs.len() ==> !spec_ends_with((#[trigger] srcs[i]).0, "shapes.txt"@),
    ensures
        g1.shapes == g0.shapes,
    decreases srcs.len(),
{
    if srcs.len() > 0 {
        let g2 = spec_apply_source(g0, srcs[0].0, srcs[0].1)->Ok_0;
        assert(g2.shapes == g0.shapes);
        assert(forall|i: int|
            0 <= i < srcs.skip(1).len() ==> !spec_ends_with(
                (#[trigger] srcs.skip(1)[i]).0,
                "shapes.txt"@,
            ));
        lemma_shapes_optional(g2, srcs.skip(1), g1);
    }
}

/// A bundle that never names the fare file leaves the fare collection
/// exactly as it began.
pub proof fn lemma_fares_optional(g0: GtfsView, srcs: Seq<(Seq<char>, Seq<u8>)>, g1: GtfsView)
    requires
        spec_load_sources(g0, srcs) == Ok::<GtfsView, LoadErrorV>(g1),
        forall|i: int|
            0 <= i < srcs.len() ==> !spec_ends_with(
                (#[trigger] srcs[i]).0,
                "fare_attributes.txt"@,
            ),
    ensures
        g1.fare_attributes == g0.fare_attributes,
    decreases srcs.len(),
{
    if srcs.len() > 0 {
        let g2 = spec_apply_source(g0, srcs[0].0, srcs[0].1)->Ok_0;
        assert(g2.fare_attributes == g0.fare_attributes);
        assert(forall|i: int|
            0 <= i < srcs.skip(1).len() ==> !spec_ends_with(
                (#[trigger] srcs.skip(1)[i]).0,
                "fare_attributes.txt"@,
            ));
        lemma_fares_optional(g2, srcs.skip(1), g1);
    }
}

/// Loading is a function of the bundle's bytes alone: two successful
/// loads of the same named sources build structurally identical stores —
/// the same keys, the same field values, the same visit ordering.
pub proof fn lemma_load_idempotent(
    srcs: Seq<(Seq<char>, Seq<u8>)>,
    r1: GtfsView,
    r2: GtfsView,
)
    requires
        spec_from_named_sources(srcs) == Ok::<GtfsView, LoadErrorV>(r1),
        spec_from_named_sources(srcs) == Ok::<GtfsView, LoadErrorV>(r2),
    ensures
        r1 == r2,
{
}


/// Every calendar record a table decodes to carries real dates: the date
/// decoder only ever answers with a valid one.
pub proof fn lemma_calendar_rows_dates_valid(
    h: Seq<Seq<char>>,
    rows: Seq<Seq<Seq<char>>>,
    s: Seq<CalendarView>,
)
    requires
        spec_rows::<Calendar>(h, rows) == Ok::<Seq<CalendarView>, LoadErrorV>(s),
    ensures
        forall|i: int|
            0 <= i < s.len() ==> (#[trigger] s[i]).start_date.valid() && s[i].end_date.valid(),
    decreases rows.len(),
{
    if rows.len() > 0 {
        let prev = spec_rows::<Calendar>(h, rows.drop_last())->Ok_0;
        lemma_calendar_rows_dates_valid(h, rows.drop_last(), prev);
        let v = Calendar::spec_row(h, rows.last())->Ok_0;
        assert(s == prev.push(v));
        assert(v.start_date.valid() && v.end_date.valid());
        assert(forall|i: int| 0 <= i < prev.len() ==> s[i] == prev[i]);
    }
}

/// Every exception record a table decodes to carries a real date.
pub proof fn lemma_calendar_date_rows_dates_valid(
    h: Seq<Seq<char>>,
    rows: Seq<Seq<Seq<char>>>,
    s: Seq<CalendarDateView>,
)
    requires
        spec_rows::<CalendarDate>(h, rows) == Ok::<Seq<CalendarDateView>, LoadErrorV>(s),
    ensures
        forall|i: int| 0 <= i < s.len() ==> (#[trigger] s[i]).date.valid(),
    decreases rows.len(),
{
    if rows.len() > 0 {
        let prev = spec_rows::<CalendarDate>(h, rows.drop_last())->Ok_0;
        lemma_calendar_date_rows_dates_valid(h, rows.drop_last(), prev);
        let v = CalendarDate::spec_row(h, rows.last())->Ok_0;
        assert(s == prev.push(v));
        assert(v.date.valid());
        assert(forall|i: int| 0 <= i < prev.len() ==> s[i] == prev[i]);
    }
}

/// Every date the store's service collections hold is a real calendar
/// date.
pub open spec fn all_dates_valid(g: GtfsView) -> bool {
    (forall|sid: Seq<char>| #[trigger]
        g.calendar.contains_key(sid) ==> g.calendar[sid].start_date.valid()
            && g.calendar[sid].end_date.valid()) && (forall|sid: Seq<char>, k: int|
        #![trigger g.calendar_dates[sid][k]]
        g.calendar_dates.contains_key(sid) && 0 <= k < g.calendar_dates[sid].len()
            ==> g.calendar_dates[sid][k].date.valid())
}

proof fn lemma_keyed_calendar_dates_valid(recs: Seq<CalendarView>, key: spec_fn(CalendarView) -> Seq<char>)
    requires
        forall|i: int|
            0 <= i < recs.len() ==> (#[trigger] recs[i]).start_date.valid()
                && recs[i].end_date.valid(),
    ensures
        forall|sid: Seq<char>| #[trigger]
            spec_keyed(recs, key).contains_key(sid) ==> spec_keyed(
                recs,
                key,
            )[sid].start_date.valid() && spec_keyed(recs, key)[sid].end_date.valid(),
    decreases recs.len(),
{
    if recs.len() > 0 {
        assert(forall|i: int|
            0 <= i < recs.len() - 1 ==> #[trigger] recs.drop_last()[i] == recs[i]);
        lemma_keyed_calendar_dates_valid(recs.drop_last(), key);
        assert(recs.last() == recs[recs.len() - 1]);
        let m = spec_keyed(recs, key);
        let prev = spec_keyed(recs.drop_last(), key);
        assert forall|sid: Seq<char>| #[trigger] m.contains_key(sid) implies m[sid].start_date.valid()
            && m[sid].end_date.valid() by {
            if sid == key(recs.last()) {
                assert(m[sid] == recs.last());
            } else {
                assert(prev.contains_key(sid));
                assert(m[sid] == prev[sid]);
            }
        }
    }
}

proof fn lemma_grouped_calendar_dates_valid(
    m0: Map<Seq<char>, Seq<CalendarDateView>>,
    recs: Seq<CalendarDateView>,
    key: spec_fn(CalendarDateView) -> Seq<char>,
)
    requires
        forall|sid: Seq<char>, k: int|
            #![trigger m0[sid][k]]
            m0.contains_key(sid) && 0 <= k < m0[sid].len() ==> m0[sid][k].date.valid(),
        forall|i: int| 0 <= i < recs.len() ==> (#[trigger] recs[i]).date.valid(),
    ensures
        forall|sid: Seq<char>, k: int|
            #![trigger spec_grouped(m0, recs, key)[sid][k]]
            spec_grouped(m0, recs, key).contains_key(sid) && 0 <= k < spec_grouped(
                m0,
                recs,
                key,
            )[sid].len() ==> spec_grouped(m0, recs, key)[sid][k].date.valid(),
    decreases recs.len(),
{
    if recs.len() > 0 {
        assert(forall|i: int|
            0 <= i < recs.len() - 1 ==> #[trigger] recs.drop_last()[i] == recs[i]);
        lemma_grouped_calendar_dates_valid(m0, recs.drop_last(), key);
        assert(recs.last() == recs[recs.len() - 1]);
        let m = spec_grouped(m0, recs.drop_last(), key);
        let kk = key(recs.last());
        let grp = (if m.contains_key(kk) {
            m[kk]
        } else {
            Seq::<CalendarDateView>::empty()
        }).push(recs.last());
        assert forall|sid: Seq<char>, k: int|
            spec_grouped(m0, recs, key).contains_key(sid) && 0 <= k < spec_grouped(
                m0,
                recs,
                key,
            )[sid].len() implies #[trigger] spec_grouped(m0, recs, key)[sid][k].date.valid() by {
            if sid == kk {
                if k < grp.len() - 1 {
                    assert(grp[k] == m[kk][k]);
                } else {
                    assert(grp[k] == recs.last());
                }
            }
        }
    }
}

/// One dispatched source keeps every stored date a real one.
proof fn lemma_apply_source_dates_valid(g: GtfsView, name: Seq<char>, b: Seq<u8>, g2: GtfsView)
    requires
        spec_apply_source(g, name, b) == Ok::<GtfsView, LoadErrorV>(g2),
        all_dates_valid(g),
    ensures
        all_dates_valid(g2),
{
    if spec_ends_with(name, "stop_times.txt"@) {
    } else if spec_ends_with(name, "calendar.txt"@) {
        let t = crate::table::csv_table_of(b)->Some_0;
        let recs = spec_decode_table::<Calendar>(t)->Ok_0;
        lemma_calendar_rows_dates_valid(
            crate::decode::spec_headers(t),
            crate::decode::spec_records(t),
            recs,
        );
        lemma_keyed_calendar_dates_valid(recs, |c: CalendarView| c.id);
    } else if spec_ends_with(name, "stops.txt"@) {
    } else if spec_ends_with(name, "calendar_dates.txt"@) {
        let t = crate::table::csv_table_of(b)->Some_0;
        let recs = spec_decode_table::<CalendarDate>(t)->Ok_0;
        lemma_calendar_date_rows_dates_valid(
            crate::decode::spec_headers(t),
            crate::decode::spec_records(t),
            recs,
        );
        lemma_grouped_calendar_dates_valid(
            g.calendar_dates,
            recs,
            |c: CalendarDateView| c.service_id,
        );
    } else {
    }
}

/// Everything a bundle load stores keeps real dates, so the service-day
/// calculator's date obligations hold of every loaded store.
pub proof fn lemma_load_sources_dates_valid(
    g: GtfsView,
    srcs: Seq<(Seq<char>, Seq<u8>)>,
    g1: GtfsView,
)
    requires
        spec_load_sources(g, srcs) == Ok::<GtfsView, LoadErrorV>(g1),
        all_dates_valid(g),
    ensures
        all_dates_valid(g1),
    decreases srcs.len(),
{
    if srcs.len() > 0 {
        let g2 = spec_apply_source(g, srcs[0].0, srcs[0].1)->Ok_0;
        lemma_apply_source_dates_valid(g, srcs[0].0, srcs[0].1, g2);
        lemma_load_sources_dates_valid(g2, srcs.skip(1), g1);
    }
}

/// A store built by a whole-bundle load meets the calculator's date
/// obligations for every service id.
pub proof fn lemma_loaded_dates_valid(srcs: Seq<(Seq<char>, Seq<u8>)>, g: GtfsView)
    requires
        spec_from_named_sources(srcs) == Ok::<GtfsView, LoadErrorV>(g),
    ensures
        forall|sid: Seq<char>| service_dates_valid(g, sid),
{
    let g0 = GtfsView {
        read_duration: 0i64,
        calendar: Map::<Seq<char>, CalendarView>::empty(),
        calendar_dates: Map::<Seq<char>, Seq<CalendarDateView>>::empty(),
        stops: Map::<Seq<char>, crate::types::StopView>::empty(),
        routes: Map::<Seq<char>, crate::types::RouteView>::empty(),
        trips: Map::<Seq<char>, crate::types::TripView>::empty(),
        agencies: Seq::<crate::types::AgencyView>::empty(),
        shapes: Map::<Seq<char>, Seq<crate::types::ShapeView>>::empty(),
        fare_attributes: Map::<Seq<char>, crate::types::FareAttributeView>::empty(),
    };
    let g1 = spec_load_sources(g0, srcs)->Ok_0;
    lemma_load_sources_dates_valid(g0, srcs, g1);
    assert(g.calendar == g1.calendar);
    assert(g.calendar_dates == g1.calendar_dates);
}


/// The weekly-pattern segment of the calculator's result is strictly
/// ascending: offsets come out in increasing order, each below the range
/// bound.
pub proof fn lemma_pattern_days_ascending(
    cal: crate::types::CalendarView,
    start: int,
    removed: Set<int>,
    n: nat,
)
    requires
        n <= 65536,
    ensures
        forall|i: int|
            0 <= i < spec_pattern_days(cal, start, removed, n).len() ==> (#[trigger] spec_pattern_days(
                cal,
                start,
                removed,
                n,
            )[i]) < n,
        forall|i: int, j: int|
            0 <= i < j < spec_pattern_days(cal, start, removed, n).len() ==> (#[trigger] spec_pattern_days(
                cal,
                start,
                removed,
                n,
            )[i]) < (#[trigger] spec_pattern_days(cal, start, removed, n)[j]),
    decreases n,
{
    if n > 0 {
        lemma_pattern_days_ascending(cal, start, removed, (n - 1) as nat);
        let prev = spec_pattern_days(cal, start, removed, (n - 1) as nat);
        let cur = spec_pattern_days(cal, start, removed, n);
        assert(forall|i: int| 0 <= i < prev.len() ==> cur[i] == prev[i]);
        if cur.len() > prev.len() {
            assert(cur.last() == ((n - 1) as u16));
            assert(cur.last() == n - 1);
        }
    }
}

} // verus!
