//! The stable sort of a trip's stop visits by sequence number.

use vstd::prelude::*;
use crate::types::{StopTime, StopTimeView};

verus! {

/// Where a visit goes when inserted: after every visit whose sequence
/// number does not exceed its own, so that equal sequence numbers keep
/// their earlier relative order.
pub open spec fn spec_insert_visit(s: Seq<StopTimeView>, x: StopTimeView) -> Seq<StopTimeView>
    decreases s.len(),
{
    if s.len() == 0 {
        seq![x]
    } else if s[0].stop_sequence > x.stop_sequence {
        seq![x] + s
    } else {
        seq![s[0]] + spec_insert_visit(s.skip(1), x)
    }
}

/// The stable sort by sequence number: one insertion per visit, in file
/// order.
pub open spec fn spec_sort_visits(s: Seq<StopTimeView>) -> Seq<StopTimeView>
    decreases s.len(),
{
    if s.len() == 0 {
        s
    } else {
        spec_insert_visit(spec_sort_visits(s.drop_last()), s.last())
    }
}

/// Sequence numbers never decrease along the visits.
pub open spec fn visits_sorted(s: Seq<StopTimeView>) -> bool {
    forall|i: int, j: int|
        0 <= i < j < s.len() ==> (#[trigger] s[i]).stop_sequence <= (#[trigger] s[j]).stop_sequence
}

/// The first position whose visit has a strictly larger sequence number.
pub open spec fn first_after(s: Seq<StopTimeView>, x: StopTimeView) -> int
    decreases s.len(),
{
    if s.len() == 0 {
        0
    } else if s[0].stop_sequence > x.stop_sequence {
        0
    } else {
        1 + first_after(s.skip(1), x)
    }
}

pub proof fn lemma_first_after_props(s: Seq<StopTimeView>, x: StopTimeView)
    ensures
        0 <= first_after(s, x) <= s.len(),
        forall|j: int| 0 <= j < first_after(s, x) ==> (#[trigger] s[j]).stop_sequence
            <= x.stop_sequence,
        first_after(s, x) < s.len() ==> s[first_after(s, x)].stop_sequence > x.stop_sequence,
    decreases s.len(),
{
    if s.len() > 0 && !(s[0].stop_sequence > x.stop_sequence) {
        lemma_first_after_props(s.skip(1), x);
        assert(forall|j: int| 1 <= j < s.len() ==> s[j] == s.skip(1)[j - 1]);
    }
}

/// Inserting splits the visits at the first larger sequence number.
pub proof fn lemma_insert_visit_at(s: Seq<StopTimeView>, x: StopTimeView, p: int)
    requires
        0 <= p <= s.len(),
        forall|j: int| 0 <= j < p ==> (#[trigger] s[j]).stop_sequence <= x.stop_sequence,
        p < s.len() ==> s[p].stop_sequence > x.stop_sequence,
    ensures
        spec_insert_visit(s, x) =~= s.take(p) + seq![x] + s.skip(p),
    decreases s.len(),
{
    if s.len() == 0 {
    } else if s[0].stop_sequence > x.stop_sequence {
        assert(p == 0);
    } else {
        assert(p >= 1);
        assert(forall|j: int| 1 <= j < s.len() ==> s[j] == s.skip(1)[j - 1]);
        lemma_insert_visit_at(s.skip(1), x, p - 1);
        assert(seq![s[0]] + spec_insert_visit(s.skip(1), x) =~= seq![s[0]] + (s.skip(1).take(p - 1)
            + seq![x] + s.skip(1).skip(p - 1)));
        assert(seq![s[0]] + (s.skip(1).take(p - 1) + seq![x] + s.skip(1).skip(p - 1)) =~= s.take(p)
            + seq![x] + s.skip(p));
    }
}

/// Inserting into sorted visits keeps them sorted and adds one.
pub proof fn lemma_insert_visit_sorted(s: Seq<StopTimeView>, x: StopTimeView)
    requires
        visits_sorted(s),
    ensures
        visits_sorted(spec_insert_visit(s, x)),
        spec_insert_visit(s, x).len() == s.len() + 1,
{
    let p = first_after(s, x);
    lemma_first_after_props(s, x);
    lemma_insert_visit_at(s, x, p);
    let r = spec_insert_visit(s, x);
    assert(forall|j: int| 0 <= j < p ==> r[j] == s[j]);
    assert(r[p] == x);
    assert(forall|j: int| p < j < r.len() ==> r[j] == s[j - 1]);
    assert forall|i: int, j: int| 0 <= i < j < r.len() implies (#[trigger] r[i]).stop_sequence <= (
    #[trigger] r[j]).stop_sequence by {
        if i < p && j == p {
            assert(s[i].stop_sequence <= x.stop_sequence);
        } else if i == p && j > p {
            assert(s[p].stop_sequence > x.stop_sequence);
            if j - 1 > p {
                assert(s[p].stop_sequence <= s[j - 1].stop_sequence);
            }
        }
    }
}

/// The sorted visits: sorted, and exactly as many.
pub proof fn lemma_sort_visits_sorted(s: Seq<StopTimeView>)
    ensures
        visits_sorted(spec_sort_visits(s)),
        spec_sort_visits(s).len() == s.len(),
    decreases s.len(),
{
    if s.len() > 0 {
        lemma_sort_visits_sorted(s.drop_last());
        lemma_insert_visit_sorted(spec_sort_visits(s.drop_last()), s.last());
    }
}

/// The insertion point for a sequence number: the first position whose
/// visit has a strictly larger one.
fn find_pos(v: &Vec<StopTime>, key: u16) -> (p: usize)
    ensures
        p <= v.deep_view().len(),
        forall|j: int| 0 <= j < p ==> (#[trigger] v.deep_view()[j]).stop_sequence <= key,
        p < v.deep_view().len() ==> v.deep_view()[p as int].stop_sequence > key,
{
    let ghost s = v.deep_view();
    let n = v.len();
    let mut p: usize = 0;
    while p < n
        invariant
            s == v.deep_view(),
            n == v@.len(),
            n == s.len(),
            p <= n,
            forall|j: int| 0 <= j < p ==> (#[trigger] s[j]).stop_sequence <= key,
        decreases n - p,
    {
        proof {
            assert(s[p as int] == v@[p as int].deep_view());
        }
        if v[p].stop_sequence > key {
            return p;
        }
        p = p + 1;
    }
    p
}

/// Inserts one visit after every visit with a sequence number not above
/// its own.
fn insert_visit(out: &mut Vec<StopTime>, x: StopTime)
    ensures
        final(out).deep_view() == spec_insert_visit(old(out).deep_view(), x@),
{
    let ghost s = out.deep_view();
    let ghost xv = x@;
    let p = find_pos(out, x.stop_sequence);
    proof {
        assert(xv.stop_sequence == x.stop_sequence);
        lemma_insert_visit_at(s, xv, p as int);
    }
    out.insert(p, x);
    proof {
        assert(out.deep_view() =~= s.take(p as int) + seq![xv] + s.skip(p as int));
    }
}

/// Sorts the visits by sequence number with a stable insertion sort.
pub fn sort_visits(v: Vec<StopTime>) -> (r: Vec<StopTime>)
    ensures
        r.deep_view() == spec_sort_visits(v.deep_view()),
{
    let ghost orig = v.deep_view();
    let mut rest = v;
    let mut out: Vec<StopTime> = Vec::new();
    proof {
        assert(out.deep_view() =~= spec_sort_visits(orig.take(0)));
        assert(rest.deep_view() =~= orig.skip(0));
    }
    let ghost j: int = 0;
    while rest.len() > 0
        invariant
            0 <= j <= orig.len(),
            rest.deep_view() == orig.skip(j),
            out.deep_view() == spec_sort_visits(orig.take(j)),
        decreases orig.len() - j,
    {
        let ghost rv = rest.deep_view();
        let ghost rold = rest@;
        proof {
            assert(rv.len() == rold.len());
            assert(rv.len() > 0);
            assert(orig.skip(j).len() == rv.len());
            assert(j < orig.len());
        }
        let x = rest.remove(0);
        proof {
            assert(rv[0] == rold[0].deep_view());
            assert(x.deep_view() == rv[0]);
            assert(x@ == x.deep_view());
            assert(orig.skip(j)[0] == orig[j]);
            assert(x@ == orig[j]);
            assert(rest@ =~= rold.remove(0));
            assert forall|k: int| 0 <= k < rest@.len() implies rest.deep_view()[k] == orig.skip(
                j + 1,
            )[k] by {
                assert(rest@[k] == rold[k + 1]);
                assert(rv[k + 1] == rold[k + 1].deep_view());
                assert(orig.skip(j)[k + 1] == orig[j + 1 + k]);
                assert(orig.skip(j + 1)[k] == orig[j + 1 + k]);
            }
            assert(rest.deep_view() =~= orig.skip(j + 1));
            assert(orig.take(j + 1).drop_last() =~= orig.take(j));
            assert(orig.take(j + 1).last() == orig[j]);
        }
        insert_visit(&mut out, x);
        proof {
            j = j + 1;
        }
    }
    proof {
        assert(orig.skip(j).len() == 0);
        assert(j == orig.len());
        assert(orig.take(j) =~= orig);
    }
    out
}

} // verus!
