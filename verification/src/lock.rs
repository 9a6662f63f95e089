//! A store of two sets of numbers, saved to under one lock.
use vstd::prelude::*;
use std::collections::HashSet;

verus! {

broadcast use vstd::std_specs::hash::group_hash_axioms;

/// Whether `j` belongs in the first set of a store: even numbers do.
pub fn goes_first(j: i32) -> (r: bool)
    ensures
        r == (j % 2 == 0),
{
    j % 2 == 0
}

pub struct Store1 {
    set1: HashSet<i32>,
    set2: HashSet<i32>,
}

impl Store1 {
    pub closed spec fn first(&self) -> Set<i32> {
        self.set1@
    }

    pub closed spec fn second(&self) -> Set<i32> {
        self.set2@
    }

    pub fn save1(&mut self, val: i32)
        ensures
            final(self).first() == old(self).first().insert(val),
            final(self).second() == old(self).second(),
    {
        self.set1.insert(val);
    }

    pub fn save2(&mut self, val: i32)
        ensures
            final(self).first() == old(self).first(),
            final(self).second() == old(self).second().insert(val),
    {
        self.set2.insert(val);
    }

    /// Saves `j` to the first set where it is even, else to the second.
    pub fn record(&mut self, j: i32)
        ensures
            j % 2 == 0 ==> final(self).first() == old(self).first().insert(j) && final(self).second() == old(self).second(),
            j % 2 != 0 ==> final(self).first() == old(self).first() && final(self).second() == old(self).second().insert(j),
    {
        if goes_first(j) {
            self.save1(j);
        } else {
            self.save2(j);
        }
    }
}

impl Default for Store1 {
    fn default() -> (s: Self)
        ensures
            s.first() == Set::<i32>::empty(),
            s.second() == Set::<i32>::empty(),
    {
        Store1 { set1: HashSet::new(), set2: HashSet::new() }
    }
}

} // verus!
