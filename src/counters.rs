use vstd::prelude::*;

use crate::text::{decimal, push_decimal};

verus! {

/// The map that a list of (name, count) pairs describes; a later pair wins
/// over an earlier one with the same name.
pub open spec fn pairs_map(e: Seq<(Seq<char>, i64)>) -> Map<Seq<char>, i64>
    decreases e.len(),
{
    if e.len() == 0 {
        Map::empty()
    } else {
        pairs_map(e.drop_last()).insert(e.last().0, e.last().1)
    }
}

/// No name occurs twice.
pub open spec fn distinct_names(e: Seq<(Seq<char>, i64)>) -> bool {
    forall|i: int, j: int| 0 <= i < j < e.len() ==> (#[trigger] e[i]).0 != (#[trigger] e[j]).0
}

pub proof fn lemma_pairs_map_domain(e: Seq<(Seq<char>, i64)>, k: Seq<char>)
    ensures
        pairs_map(e).contains_key(k) <==> exists|i: int| 0 <= i < e.len() && (#[trigger] e[i]).0 == k,
    decreases e.len(),
{
    if e.len() > 0 {
        lemma_pairs_map_domain(e.drop_last(), k);
        if pairs_map(e.drop_last()).contains_key(k) {
            let i = choose|i: int| 0 <= i < e.drop_last().len() && (#[trigger] e.drop_last()[i]).0 == k;
            assert(e[i].0 == k);
        }
        if exists|i: int| 0 <= i < e.len() && (#[trigger] e[i]).0 == k {
            let i = choose|i: int| 0 <= i < e.len() && (#[trigger] e[i]).0 == k;
            if i < e.len() - 1 {
                assert(e.drop_last()[i].0 == k);
            }
        }
    }
}

pub proof fn lemma_pairs_map_lookup(e: Seq<(Seq<char>, i64)>, i: int)
    requires
        distinct_names(e),
        0 <= i < e.len(),
    ensures
        pairs_map(e).contains_key(e[i].0),
        pairs_map(e)[e[i].0] == e[i].1,
    decreases e.len(),
{
    if i < e.len() - 1 {
        assert(distinct_names(e.drop_last()));
        lemma_pairs_map_lookup(e.drop_last(), i);
        assert(e[i].0 != e[e.len() - 1].0);
    }
}

pub proof fn lemma_pairs_map_update(e: Seq<(Seq<char>, i64)>, i: int, v: i64)
    requires
        distinct_names(e),
        0 <= i < e.len(),
    ensures
        pairs_map(e.update(i, (e[i].0, v))) == pairs_map(e).insert(e[i].0, v),
    decreases e.len(),
{
    let u = e.update(i, (e[i].0, v));
    assert(u.drop_last() =~= if i < e.len() - 1 {
        e.drop_last().update(i, (e[i].0, v))
    } else {
        e.drop_last()
    });
    if i < e.len() - 1 {
        assert(distinct_names(e.drop_last()));
        lemma_pairs_map_update(e.drop_last(), i, v);
        assert(e[i].0 != e[e.len() - 1].0);
    }
    assert(pairs_map(u) =~= pairs_map(e).insert(e[i].0, v));
}

pub proof fn lemma_pairs_map_push(e: Seq<(Seq<char>, i64)>, p: (Seq<char>, i64))
    ensures
        pairs_map(e.push(p)) == pairs_map(e).insert(p.0, p.1),
{
    assert(e.push(p).drop_last() =~= e);
}

/// One `name: count` line per pair, in order.
pub open spec fn lines_text(e: Seq<(Seq<char>, i64)>) -> Seq<char>
    decreases e.len(),
{
    if e.len() == 0 {
        seq![]
    } else {
        lines_text(e.drop_last()) + e.last().0 + ": "@ + decimal(e.last().1 as int) + "\n"@
    }
}

/// A table of named counters, each name present once.
pub struct Counters {
    names: Vec<String>,
    counts: Vec<i64>,
}

impl Counters {
    /// The table as (name, count) pairs, in insertion order.
    pub closed spec fn pairs(&self) -> Seq<(Seq<char>, i64)> {
        Seq::new(self.names@.len(), |i: int| (self.names@[i]@, self.counts@[i]))
    }

    pub closed spec fn wf(&self) -> bool {
        &&& self.names@.len() == self.counts@.len()
        &&& distinct_names(self.pairs())
    }

    pub open spec fn view(&self) -> Map<Seq<char>, i64> {
        pairs_map(self.pairs())
    }

    pub fn new() -> (r: Self)
        ensures
            r.wf(),
            r.view() == Map::<Seq<char>, i64>::empty(),
    {
        let r = Counters { names: Vec::new(), counts: Vec::new() };
        assert(r.pairs() =~= Seq::<(Seq<char>, i64)>::empty());
        r
    }

    /// The position of `name` in the table, if it is there.
    fn find(&self, name: &String) -> (r: Option<usize>)
        requires
            self.wf(),
        ensures
            r matches Some(i) ==> i < self.names@.len() && self.pairs()[i as int].0 == name@,
            r is None ==> !self.view().contains_key(name@),
    {
        let n = self.names.len();
        for i in 0..n
            invariant
                n == self.names@.len(),
                self.wf(),
                forall|q: int| 0 <= q < i ==> (#[trigger] self.pairs()[q]).0 != name@,
        {
            if self.names[i] == *name {
                return Some(i);
            }
        }
        proof {
            lemma_pairs_map_domain(self.pairs(), name@);
        }
        None
    }

    /// Whether `name` has a counter.
    pub fn contains(&self, name: &String) -> (r: bool)
        requires
            self.wf(),
        ensures
            r == self.view().contains_key(name@),
    {
        match self.find(name) {
            Some(i) => {
                proof {
                    lemma_pairs_map_lookup(self.pairs(), i as int);
                }
                true
            },
            None => false,
        }
    }

    /// The count of `name`, zero where it has no counter.
    pub fn get(&self, name: &String) -> (r: i64)
        requires
            self.wf(),
        ensures
            self.view().contains_key(name@) ==> r == self.view()[name@],
            !self.view().contains_key(name@) ==> r == 0,
    {
        match self.find(name) {
            Some(i) => {
                proof {
                    lemma_pairs_map_lookup(self.pairs(), i as int);
                }
                self.counts[i]
            },
            None => 0,
        }
    }

    /// Sets the count of `name` to `value`, adding the name where it is new.
    pub fn set(&mut self, name: String, value: i64)
        requires
            old(self).wf(),
        ensures
            final(self).wf(),
            final(self).view() == old(self).view().insert(name@, value),
    {
        match self.find(&name) {
            Some(i) => {
                proof {
                    lemma_pairs_map_update(self.pairs(), i as int, value);
                }
                let ghost before = self.pairs();
                self.counts[i] = value;
                assert(self.pairs() =~= before.update(i as int, (before[i as int].0, value)));
            },
            None => {
                let ghost before = self.pairs();
                proof {
                    lemma_pairs_map_domain(before, name@);
                    lemma_pairs_map_push(before, (name@, value));
                }
                self.names.push(name);
                self.counts.push(value);
                assert(self.pairs() =~= before.push((name@, value)));
            },
        }
    }

    /// One `name: count` line per counter, in insertion order.
    pub fn to_text(&self) -> (r: String)
        requires
            self.wf(),
        ensures
            r@ == lines_text(self.pairs()),
    {
        let mut s = String::new();
        let n = self.names.len();
        for i in 0..n
            invariant
                n == self.names@.len(),
                self.wf(),
                s@ == lines_text(self.pairs().subrange(0, i as int)),
        {
            proof {
                reveal_strlit(": ");
                reveal_strlit("\n");
            }
            let ghost before = s@;
            s.append(self.names[i].as_str());
            s.append(": ");
            push_decimal(&mut s, self.counts[i]);
            s.append("\n");
            let ghost sub = self.pairs().subrange(0, i + 1);
            assert(sub.drop_last() =~= self.pairs().subrange(0, i as int));
            assert(s@ =~= lines_text(sub));
        }
        assert(self.pairs().subrange(0, n as int) =~= self.pairs());
        s
    }

    /// A copy of the table's (name, count) pairs.
    pub fn to_pairs(&self) -> (r: Vec<(String, i64)>)
        requires
            self.wf(),
        ensures
            distinct_names(Seq::new(r@.len(), |i: int| (r@[i].0@, r@[i].1))),
            pairs_map(Seq::new(r@.len(), |i: int| (r@[i].0@, r@[i].1))) == self.view(),
    {
        let mut out: Vec<(String, i64)> = Vec::new();
        let n = self.names.len();
        for i in 0..n
            invariant
                n == self.names@.len(),
                self.wf(),
                Seq::new(out@.len(), |q: int| (out@[q].0@, out@[q].1)) == self.pairs().subrange(
                    0,
                    i as int,
                ),
        {
            let ghost before = Seq::new(out@.len(), |q: int| (out@[q].0@, out@[q].1));
            out.push((self.names[i].clone(), self.counts[i]));
            assert(Seq::new(out@.len(), |q: int| (out@[q].0@, out@[q].1)) =~= before.push(
                self.pairs()[i as int],
            ));
            assert(self.pairs().subrange(0, i + 1) =~= self.pairs().subrange(0, i as int).push(
                self.pairs()[i as int],
            ));
        }
        assert(self.pairs().subrange(0, n as int) =~= self.pairs());
        out
    }
}

} // verus!
