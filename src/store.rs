//! The latest reading of each device, by name.
use vstd::prelude::*;

use crate::config::{has_name, lemma_upsert_at, lemma_upsert_new, names_distinct, position, upsert, upsert_entry};

verus! {

/// The value stored under `k`, if any.
pub open spec fn lookup(s: Seq<(Seq<char>, u64)>, k: Seq<char>) -> Option<u64> {
    if has_name(s, k) {
        Some(s[choose|i: int| 0 <= i < s.len() && #[trigger] s[i].0 == k].1)
    } else {
        None
    }
}

/// The stored values, in the order of their entries.
pub open spec fn values_of(s: Seq<(Seq<char>, u64)>) -> Seq<u64> {
    s.map_values(|e: (Seq<char>, u64)| e.1)
}

/// Latest values by device name, each name at most once.
pub struct AggregationStore {
    entries: Vec<(String, u64)>,
}

impl View for AggregationStore {
    type V = Seq<(Seq<char>, u64)>;

    closed spec fn view(&self) -> Seq<(Seq<char>, u64)> {
        self.entries@.map_values(|e: (String, u64)| (e.0@, e.1))
    }
}

impl AggregationStore {
    /// No name occurs twice.
    pub open spec fn wf(&self) -> bool {
        names_distinct(self@)
    }

    pub fn new() -> (r: AggregationStore)
        ensures
            r@ == Seq::<(Seq<char>, u64)>::empty(),
            r.wf(),
    {
        let r = AggregationStore { entries: Vec::new() };
        assert(r@ =~= Seq::<(Seq<char>, u64)>::empty());
        r
    }

    /// Stores `value` as the latest of device `name`.
    pub fn insert(&mut self, name: String, value: u64)
        requires
            old(self).wf(),
        ensures
            final(self)@ == upsert(old(self)@, name@, value),
            final(self).wf(),
    {
        let ghost s = self@;
        let ghost k = name@;
        match upsert_entry(&mut self.entries, name, value) {
            Some(i) => {
                proof {
                    lemma_upsert_at(s, i as int, k, value);
                }
                assert(self@ =~= s.update(i as int, (k, value)));
            },
            None => {
                proof {
                    assert(!has_name(s, k));
                    lemma_upsert_new(s, k, value);
                }
                assert(self@ =~= s.push((k, value)));
            },
        }
    }

    /// Removes every entry.
    pub fn clear(&mut self)
        ensures
            final(self)@ == Seq::<(Seq<char>, u64)>::empty(),
            final(self).wf(),
    {
        self.entries.clear();
        assert(self@ =~= Seq::<(Seq<char>, u64)>::empty());
    }

    /// The latest value of device `name`, if it has one.
    pub fn get(&self, name: &String) -> (r: Option<u64>)
        requires
            self.wf(),
        ensures
            r == lookup(self@, name@),
    {
        match position(&self.entries, name) {
            Some(i) => {
                proof {
                    assert(self@[i as int].0 == name@);
                    let j = choose|j: int| 0 <= j < self@.len() && #[trigger] self@[j].0 == name@;
                    assert(j == i);
                }
                Some(self.entries[i].1)
            },
            None => {
                assert(!has_name(self@, name@));
                None
            },
        }
    }

    pub fn len(&self) -> (r: usize)
        ensures
            r == self@.len(),
    {
        self.entries.len()
    }

    /// A copy of the stored values, taken for a summary.
    pub fn values(&self) -> (r: Vec<u64>)
        ensures
            r@ == values_of(self@),
    {
        let mut r: Vec<u64> = Vec::new();
        let mut i: usize = 0;
        while i < self.entries.len()
            invariant
                i <= self.entries@.len(),
                r@ =~= values_of(self@).subrange(0, i as int),
            decreases self.entries@.len() - i,
        {
            r.push(self.entries[i].1);
            i = i + 1;
        }
        assert(values_of(self@).subrange(0, i as int) =~= values_of(self@));
        r
    }
}

} // verus!
