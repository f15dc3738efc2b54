use vstd::prelude::*;

use crate::counters::{distinct_names, lines_text, pairs_map, Counters};

pub mod amap;

verus! {

/// Counters keyed by any name; a name gets its counter on first use.
pub struct Metrics {
    data: Counters,
}

impl View for Metrics {
    type V = Map<Seq<char>, i64>;

    closed spec fn view(&self) -> Map<Seq<char>, i64> {
        self.data.view()
    }
}

impl Default for Metrics {
    fn default() -> (r: Self)
        ensures
            r.wf(),
            r@ == Map::<Seq<char>, i64>::empty(),
    {
        Self::new()
    }
}

impl Metrics {
    pub closed spec fn wf(&self) -> bool {
        self.data.wf()
    }

    /// The counters as (name, count) pairs, in order of first use.
    pub closed spec fn pairs(&self) -> Seq<(Seq<char>, i64)> {
        self.data.pairs()
    }

    pub fn new() -> (r: Self)
        ensures
            r.wf(),
            r@ == Map::<Seq<char>, i64>::empty(),
    {
        Metrics { data: Counters::new() }
    }

    /// Adds one to the counter of `key`, which starts from zero.
    pub fn inc(&mut self, key: &str)
        requires
            old(self).wf(),
            old(self)@.contains_key(key@) ==> old(self)@[key@] < i64::MAX,
        ensures
            final(self).wf(),
            final(self)@ == old(self)@.insert(
                key@,
                if old(self)@.contains_key(key@) {
                    (old(self)@[key@] + 1) as i64
                } else {
                    1
                },
            ),
    {
        let name = key.to_owned();
        let v = self.data.get(&name);
        self.data.set(name, v + 1);
    }

    /// The count of `key`, zero where it was never incremented.
    pub fn get(&self, key: &str) -> (r: i64)
        requires
            self.wf(),
        ensures
            self@.contains_key(key@) ==> r == self@[key@],
            !self@.contains_key(key@) ==> r == 0,
    {
        let name = key.to_owned();
        self.data.get(&name)
    }

    /// A copy of all counters, as (name, count) pairs with distinct names.
    pub fn snopshot(&self) -> (r: Vec<(String, i64)>)
        requires
            self.wf(),
        ensures
            distinct_names(Seq::new(r@.len(), |i: int| (r@[i].0@, r@[i].1))),
            pairs_map(Seq::new(r@.len(), |i: int| (r@[i].0@, r@[i].1))) == self@,
    {
        self.data.to_pairs()
    }

    /// One `name: count` line per counter.
    pub fn to_string(&self) -> (r: String)
        requires
            self.wf(),
        ensures
            r@ == lines_text(self.pairs()),
    {
        self.data.to_text()
    }
}

} // verus!
