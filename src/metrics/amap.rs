use vstd::prelude::*;

use crate::counters::{lines_text, Counters};
use crate::error::MetricsError;

verus! {

/// Counters for a set of names fixed at construction.
pub struct AmapMetrics {
    data: Counters,
}

impl View for AmapMetrics {
    type V = Map<Seq<char>, i64>;

    closed spec fn view(&self) -> Map<Seq<char>, i64> {
        self.data.view()
    }
}

/// `v + 1`, wrapping from the largest `i64` to the smallest.
pub open spec fn wrapping_succ(v: i64) -> i64 {
    if v == i64::MAX {
        i64::MIN
    } else {
        (v + 1) as i64
    }
}

impl AmapMetrics {
    pub closed spec fn wf(&self) -> bool {
        self.data.wf()
    }

    /// The counters as (name, count) pairs, in order of registration.
    pub closed spec fn pairs(&self) -> Seq<(Seq<char>, i64)> {
        self.data.pairs()
    }

    /// One counter at zero for each distinct name.
    pub fn new(metrics_names: &[&str]) -> (r: Self)
        ensures
            r.wf(),
            forall|k: Seq<char>|
                #![trigger r@.contains_key(k)]
                r@.contains_key(k) <==> exists|i: int|
                    0 <= i < metrics_names@.len() && (#[trigger] metrics_names@[i])@ == k,
            forall|k: Seq<char>| #[trigger] r@.contains_key(k) ==> r@[k] == 0,
    {
        let mut data = Counters::new();
        let n = metrics_names.len();
        for i in 0..n
            invariant
                n == metrics_names@.len(),
                data.wf(),
                forall|k: Seq<char>|
                    #![trigger data.view().contains_key(k)]
                    data.view().contains_key(k) <==> exists|q: int|
                        0 <= q < i && (#[trigger] metrics_names@[q])@ == k,
                forall|k: Seq<char>| #[trigger] data.view().contains_key(k) ==> data.view()[k] == 0,
        {
            let name = metrics_names[i].to_owned();
            let ghost before = data.view();
            data.set(name, 0);
            assert forall|k: Seq<char>|
                #![trigger data.view().contains_key(k)]
                data.view().contains_key(k) implies exists|q: int|
                    0 <= q < i + 1 && (#[trigger] metrics_names@[q])@ == k by {
                if k != metrics_names@[i as int]@ {
                    assert(before.contains_key(k));
                }
            }
            assert forall|k: Seq<char>|
                (exists|q: int| 0 <= q < i + 1 && (#[trigger] metrics_names@[q])@ == k) implies
                #[trigger] data.view().contains_key(k) by {
                let q = choose|q: int| 0 <= q < i + 1 && (#[trigger] metrics_names@[q])@ == k;
                if q < i {
                    assert(exists|q: int| 0 <= q < i && (#[trigger] metrics_names@[q])@ == k);
                }
            }
        }
        AmapMetrics { data }
    }

    /// Adds one to the counter of `key`, wrapping at the top of `i64`; fails
    /// where `key` was not registered.
    pub fn inc(&mut self, key: &str) -> (r: Result<(), MetricsError>)
        requires
            old(self).wf(),
        ensures
            final(self).wf(),
            r is Err <==> !old(self)@.contains_key(key@),
            r matches Err(e) ==> e == MetricsError::KeyNotFound && final(self)@ == old(self)@,
            r is Ok ==> final(self)@ == old(self)@.insert(key@, wrapping_succ(old(self)@[key@])),
    {
        let name = key.to_owned();
        if !self.data.contains(&name) {
            return Err(MetricsError::KeyNotFound);
        }
        let v = self.data.get(&name);
        let next = if v == i64::MAX {
            i64::MIN
        } else {
            v + 1
        };
        self.data.set(name, next);
        Ok(())
    }

    /// The count of `key`, zero where it is not registered.
    pub fn get(&self, key: &str) -> (r: i64)
        requires
            self.wf(),
        ensures
            self@.contains_key(key@) ==> r == self@[key@],
            !self@.contains_key(key@) ==> r == 0,
    {
        let name = key.to_owned();
        self.data.get(&name)
    }

    /// One `name: count` line per counter.
    pub fn to_string(&self) -> (r: String)
        requires
            self.wf(),
        ensures
            r@ == lines_text(self.pairs()),
    {
        self.data.to_text()
    }
}

} // verus!
