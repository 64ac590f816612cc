//! The durable record of the chunks of a transfer that are complete.
//!
//! The record only grows while a transfer is active; it is what a restarted
//! transfer reads to skip the chunks it already has. Storing it is the
//! caller's business: the record hands out its indices and is rebuilt from
//! them.
use std::collections::HashSet;
use vstd::prelude::*;
use vstd::std_specs::iter::IteratorSpec;

verus! {

broadcast use vstd::std_specs::hash::group_hash_axioms;

/// The set of indices of completed chunks.
pub struct ProgressRecord {
    completed: HashSet<usize>,
}

impl View for ProgressRecord {
    type V = Set<usize>;

    closed spec fn view(&self) -> Set<usize> {
        self.completed@
    }
}

impl ProgressRecord {
    /// An empty record, as for a transfer that has not started.
    pub fn new() -> (r: Self)
        ensures
            r@ == Set::<usize>::empty(),
    {
        ProgressRecord { completed: HashSet::new() }
    }

    /// Whether chunk `index` is recorded as complete.
    pub fn contains(&self, index: usize) -> (r: bool)
        ensures
            r == self@.contains(index),
    {
        self.completed.contains(&index)
    }

    /// Records chunk `index` as complete. The record never loses an index.
    pub fn insert(&mut self, index: usize)
        ensures
            final(self)@ == old(self)@.insert(index),
    {
        self.completed.insert(index);
    }

    /// The record that holds exactly the given indices, repeated ones once.
    pub fn from_indices(indices: &Vec<usize>) -> (r: Self)
        ensures
            r@ == indices@.to_set(),
    {
        let mut r = ProgressRecord::new();
        let mut k: usize = 0;
        while k < indices.len()
            invariant
                k <= indices@.len(),
                    r@ == indices@.take(k as int).to_set(),
            decreases indices@.len() - k,
        {
            r.insert(indices[k]);
            proof {
                assert(indices@.take(k + 1) =~= indices@.take(k as int).push(indices@[k as int]));
                indices@.take(k as int).lemma_push_to_set_commute(indices@[k as int]);
            }
            k = k + 1;
        }
        assert(indices@.take(indices@.len() as int) =~= indices@);
        r
    }

    /// The recorded indices, each once, for storing the record.
    pub fn indices(&self) -> (r: Vec<usize>)
        ensures
            r@.to_set() == self@,
            r@.no_duplicates(),
    {
        let mut out: Vec<usize> = Vec::new();
        let keys = self.completed.iter();
        let ghost all = keys.remaining().unref();
        assert(all.to_set() == self@ && all.no_duplicates());
        for x in it: keys
            invariant
                it.seq().unref() == all,
                out@ == all.take(it.index()),
        {
            proof {
                assert(all.take(it.index() + 1) =~= all.take(it.index()).push(*x));
            }
            out.push(*x);
        }
        assert(out@.len() == all.len());
        assert(out@ =~= all);
        out
    }
}

} // verus!
