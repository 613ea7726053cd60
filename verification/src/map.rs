//! An id-keyed collection: a vector of key/value entries with unique
//! keys, viewed as the mathematical map from key text to value view.

use vstd::prelude::*;
use crate::text::str_eq;

verus! {

/// The map that a sequence of entries denotes: later entries replace
/// earlier ones with the same key.
pub open spec fn map_of<V: DeepView>(s: Seq<(String, V)>) -> Map<Seq<char>, V::V>
    decreases s.len(),
{
    if s.len() == 0 {
        Map::empty()
    } else {
        map_of(s.drop_last()).insert(s.last().0@, s.last().1.deep_view())
    }
}

/// No two entries share a key.
pub open spec fn unique_keys<V>(s: Seq<(String, V)>) -> bool {
    forall|i: int, j: int| 0 <= i < j < s.len() ==> (#[trigger] s[i]).0@ != (#[trigger] s[j]).0@
}

pub proof fn lemma_map_of_finite<V: DeepView>(s: Seq<(String, V)>)
    ensures
        map_of(s).dom().finite(),
    decreases s.len(),
{
    if s.len() > 0 {
        lemma_map_of_finite(s.drop_last());
    }
}

/// A key is in the map exactly when some entry holds it.
pub proof fn lemma_map_of_contains<V: DeepView>(s: Seq<(String, V)>, k: Seq<char>)
    ensures
        map_of(s).contains_key(k) <==> exists|i: int|
            0 <= i < s.len() && (#[trigger] s[i]).0@ == k,
    decreases s.len(),
{
    if s.len() > 0 {
        lemma_map_of_contains(s.drop_last(), k);
        if s.last().0@ == k {
            assert(s[s.len() - 1].0@ == k);
        } else if map_of(s).contains_key(k) {
            let i = choose|i: int| 0 <= i < s.len() - 1 && (#[trigger] s.drop_last()[i]).0@ == k;
            assert(s[i].0@ == k);
        } else {
            if exists|i: int| 0 <= i < s.len() && (#[trigger] s[i]).0@ == k {
                let i = choose|i: int| 0 <= i < s.len() && (#[trigger] s[i]).0@ == k;
                assert(s.drop_last()[i].0@ == k);
            }
        }
    }
}

/// With unique keys, each entry is what the map holds for its key.
pub proof fn lemma_map_of_get<V: DeepView>(s: Seq<(String, V)>, i: int)
    requires
        unique_keys(s),
        0 <= i < s.len(),
    ensures
        map_of(s).contains_key(s[i].0@),
        map_of(s)[s[i].0@] == s[i].1.deep_view(),
    decreases s.len(),
{
    if i == s.len() - 1 {
    } else {
        assert(unique_keys(s.drop_last()));
        assert(s.drop_last()[i] == s[i]);
        lemma_map_of_get(s.drop_last(), i);
        assert(s[i].0@ != s.last().0@);
    }
}

/// With unique keys, the map has exactly one element per entry.
pub proof fn lemma_map_of_len<V: DeepView>(s: Seq<(String, V)>)
    requires
        unique_keys(s),
    ensures
        map_of(s).dom().finite(),
        map_of(s).dom().len() == s.len(),
    decreases s.len(),
{
    lemma_map_of_finite(s);
    if s.len() > 0 {
        assert(unique_keys(s.drop_last()));
        lemma_map_of_len(s.drop_last());
        lemma_map_of_contains(s.drop_last(), s.last().0@);
        assert(forall|i: int|
            0 <= i < s.len() - 1 ==> (#[trigger] s.drop_last()[i]).0@ == s[i].0@);
        assert(!map_of(s.drop_last()).contains_key(s.last().0@));
        vstd::set::axiom_set_insert_len(map_of(s.drop_last()).dom(), s.last().0@);
        assert(map_of(s).dom() =~= map_of(s.drop_last()).dom().insert(s.last().0@));
    }
}

/// Replacing the value at an entry is, on the map, an insert of its key.
pub proof fn lemma_map_of_update<V: DeepView>(s: Seq<(String, V)>, i: int, k: String, v: V)
    requires
        unique_keys(s),
        0 <= i < s.len(),
        s[i].0@ == k@,
    ensures
        map_of(s.update(i, (k, v))) =~= map_of(s).insert(k@, v.deep_view()),
        unique_keys(s.update(i, (k, v))),
    decreases s.len(),
{
    let t = s.update(i, (k, v));
    assert(unique_keys(t)) by {
        assert(forall|a: int| 0 <= a < s.len() && a != i ==> (#[trigger] t[a]).0@ == s[a].0@);
    }
    if i == s.len() - 1 {
        assert(t.drop_last() =~= s.drop_last());
        assert(t.last() == (k, v));
    } else {
        assert(t.drop_last() =~= s.drop_last().update(i, (k, v)));
        assert(unique_keys(s.drop_last()));
        assert(s.drop_last()[i] == s[i]);
        lemma_map_of_update(s.drop_last(), i, k, v);
        assert(t.last() == s.last());
        assert(s.last().0@ != k@);
    }
}

/// Appending an entry is, on the map, an insert of its key.
pub proof fn lemma_map_of_push<V: DeepView>(s: Seq<(String, V)>, k: String, v: V)
    ensures
        map_of(s.push((k, v))) =~= map_of(s).insert(k@, v.deep_view()),
{
    assert(s.push((k, v)).drop_last() =~= s);
    assert(s.push((k, v)).last() == (k, v));
}


/// The views of a sequence of records.
pub open spec fn seq_deep<T: DeepView>(s: Seq<T>) -> Seq<T::V> {
    Seq::new(s.len(), |i: int| s[i].deep_view())
}

/// One step of consuming records from the front: what is left views as
/// the next tail, and the record taken views as the next element.
pub proof fn lemma_deep_skip_step<T: DeepView>(rold: Seq<T>, rnew: Seq<T>, full: Seq<T::V>, j: int)
    requires
        0 <= j < full.len(),
        seq_deep(rold) == full.skip(j),
        rold.len() > 0,
        rnew == rold.remove(0),
    ensures
        seq_deep(rnew) =~= full.skip(j + 1),
        rold[0].deep_view() == full[j],
{
    assert(full.skip(j).len() == rold.len());
    assert(seq_deep(rold)[0] == rold[0].deep_view());
    assert(full.skip(j)[0] == full[j]);
    assert forall|k: int| 0 <= k < rnew.len() implies seq_deep(rnew)[k] == full.skip(j + 1)[k] by {
        assert(rnew[k] == rold[k + 1]);
        assert(seq_deep(rold)[k + 1] == rold[k + 1].deep_view());
        assert(full.skip(j)[k + 1] == full[j + 1 + k]);
        assert(full.skip(j + 1)[k] == full[j + 1 + k]);
    }
}

/// An id-keyed collection. Entries keep insertion order; lookups compare
/// the full key text.
#[derive(Debug)]
pub struct StringMap<V> {
    pub entries: Vec<(String, V)>,
}

impl<V: DeepView> View for StringMap<V> {
    type V = Map<Seq<char>, V::V>;

    open spec fn view(&self) -> Map<Seq<char>, V::V> {
        map_of(self.entries@)
    }
}

impl<V: DeepView> StringMap<V> {
    /// All keys distinct: the shape every loaded collection keeps.
    pub open spec fn wf(self) -> bool {
        unique_keys(self.entries@)
    }

    pub fn new() -> (r: StringMap<V>)
        ensures
            r@ == Map::<Seq<char>, V::V>::empty(),
            r.wf(),
            r.spec_len() == 0,
    {
        StringMap { entries: Vec::new() }
    }

    pub open spec fn spec_len(self) -> nat {
        self.entries@.len()
    }

    /// How many entries the collection holds; with unique keys this is
    /// the size of the map.
    pub fn len(&self) -> (r: usize)
        ensures
            r == self.spec_len(),
            self.wf() ==> r == self@.dom().len(),
    {
        proof {
            if self.wf() {
                lemma_map_of_len(self.entries@);
            }
        }
        self.entries.len()
    }

    /// Looks the key up, comparing full key text.
    pub fn get(&self, k: &str) -> (r: Option<&V>)
        requires
            self.wf(),
        ensures
            match r {
                Some(v) => self@.contains_key(k@) && v.deep_view() == self@[k@],
                None => !self@.contains_key(k@),
            },
    {
        let n = self.entries.len();
        let mut i: usize = 0;
        while i < n
            invariant
                self.wf(),
                n == self.entries@.len(),
                i <= n,
                forall|j: int| 0 <= j < i ==> (#[trigger] self.entries@[j]).0@ != k@,
            decreases n - i,
        {
            if str_eq(self.entries[i].0.as_str(), k) {
                proof {
                    lemma_map_of_get(self.entries@, i as int);
                }
                return Some(&self.entries[i].1);
            }
            i = i + 1;
        }
        proof {
            lemma_map_of_contains(self.entries@, k@);
        }
        None
    }

    pub fn contains_key(&self, k: &str) -> (r: bool)
        requires
            self.wf(),
        ensures
            r == self@.contains_key(k@),
    {
        match self.get(k) {
            Some(_) => true,
            None => false,
        }
    }

    /// Adds or replaces the value under the key.
    pub fn insert(&mut self, k: String, v: V)
        requires
            old(self).wf(),
        ensures
            final(self).wf(),
            final(self)@ == old(self)@.insert(k@, v.deep_view()),
            old(self)@.contains_key(k@) ==> final(self).spec_len() == old(self).spec_len(),
            !old(self)@.contains_key(k@) ==> final(self).spec_len() == old(self).spec_len() + 1,
    {
        let n = self.entries.len();
        let mut i: usize = 0;
        while i < n
            invariant
                self == old(self),
                self.wf(),
                n == self.entries@.len(),
                i <= n,
                forall|j: int| 0 <= j < i ==> (#[trigger] self.entries@[j]).0@ != k@,
            decreases n - i,
        {
            if str_eq(self.entries[i].0.as_str(), k.as_str()) {
                proof {
                    lemma_map_of_update(self.entries@, i as int, k, v);
                    lemma_map_of_contains(self.entries@, k@);
                }
                self.entries.set(i, (k, v));
                proof {
                    assert(self@ =~= old(self)@.insert(k@, v.deep_view()));
                }
                return ;
            }
            i = i + 1;
        }
        proof {
            lemma_map_of_push(self.entries@, k, v);
            lemma_map_of_contains(self.entries@, k@);
        }
        self.entries.push((k, v));
        proof {
            assert(self@ =~= old(self)@.insert(k@, v.deep_view()));
        }
    }

    /// The position of the entry holding the key.
    pub fn index_of(&self, k: &str) -> (r: Option<usize>)
        requires
            self.wf(),
        ensures
            match r {
                Some(i) => i < self.entries@.len() && self.entries@[i as int].0@ == k@
                    && self@.contains_key(k@),
                None => !self@.contains_key(k@),
            },
    {
        let n = self.entries.len();
        let mut i: usize = 0;
        while i < n
            invariant
                self.wf(),
                n == self.entries@.len(),
                i <= n,
                forall|j: int| 0 <= j < i ==> (#[trigger] self.entries@[j]).0@ != k@,
            decreases n - i,
        {
            if str_eq(self.entries[i].0.as_str(), k) {
                proof {
                    lemma_map_of_get(self.entries@, i as int);
                }
                return Some(i);
            }
            i = i + 1;
        }
        proof {
            lemma_map_of_contains(self.entries@, k@);
        }
        None
    }
}

impl<T: DeepView> StringMap<Vec<T>> {
    /// Appends the item to the group under the key, creating the group
    /// where there is none yet.
    pub fn append_to_group(&mut self, k: String, item: T)
        requires
            old(self).wf(),
        ensures
            final(self).wf(),
            final(self)@ == old(self)@.insert(
                k@,
                (if old(self)@.contains_key(k@) {
                    old(self)@[k@]
                } else {
                    Seq::<T::V>::empty()
                }).push(item.deep_view()),
            ),
    {
        let ghost s0 = self.entries@;
        let n = self.entries.len();
        let mut i: usize = 0;
        while i < n
            invariant
                self == old(self),
                s0 == self.entries@,
                self.wf(),
                n == self.entries@.len(),
                i <= n,
                forall|j: int| 0 <= j < i ==> (#[trigger] self.entries@[j]).0@ != k@,
            decreases n - i,
        {
            if str_eq(self.entries[i].0.as_str(), k.as_str()) {
                proof {
                    lemma_map_of_get(s0, i as int);
                }
                let pair = self.entries.remove(i);
                let key = pair.0;
                let mut group = pair.1;
                let ghost g0 = group.deep_view();
                group.push(item);
                proof {
                    assert(group.deep_view() =~= g0.push(item.deep_view()));
                }
                self.entries.insert(i, (key, group));
                proof {
                    assert(self.entries@ =~= s0.update(i as int, (key, group)));
                    lemma_map_of_update(s0, i as int, key, group);
                    lemma_map_of_contains(s0, k@);
                    assert(self@ =~= old(self)@.insert(k@, g0.push(item.deep_view())));
                }
                return ;
            }
            i = i + 1;
        }
        let mut group: Vec<T> = Vec::new();
        group.push(item);
        proof {
            assert(group.deep_view() =~= Seq::<T::V>::empty().push(item.deep_view()));
            lemma_map_of_push(s0, k, group);
            lemma_map_of_contains(s0, k@);
        }
        self.entries.push((k, group));
    }
}

} // verus!
