//! A growing set of 256-bit values.
//!
//! The values are filed under their low word in a hash map; each entry
//! lists the high words seen with that low word.

use crate::uint::{range_256, word_base, U256};
use std::collections::HashMap;
use vstd::prelude::*;

verus! {

broadcast use vstd::std_specs::hash::group_hash_axioms;

pub struct FieldSet {
    buckets: HashMap<u128, Vec<u128>>,
}

impl View for FieldSet {
    type V = Set<nat>;

    closed spec fn view(&self) -> Set<nat> {
        Set::new(|v: nat| self.holds(v))
    }
}

/// Whether `word` is in `list`.
fn lists(list: &Vec<u128>, word: u128) -> (found: bool)
    ensures
        found == list@.contains(word),
{
    let mut i: usize = 0;
    while i < list.len()
        invariant
            i <= list@.len(),
            forall|j: int| 0 <= j < i ==> list@[j] != word,
        decreases list@.len() - i,
    {
        if list[i] == word {
            return true;
        }
        i += 1;
    }
    false
}

impl FieldSet {
    /// Whether the number `v` is filed.
    spec fn holds(&self, v: nat) -> bool {
        let lo = (v % word_base()) as u128;
        let hi = (v / word_base()) as u128;
        v < range_256() && self.buckets@.contains_key(lo) && self.buckets@[lo]@.contains(hi)
    }

    /// The empty set.
    pub fn new() -> (s: FieldSet)
        ensures
            s@ == Set::<nat>::empty(),
    {
        let s = FieldSet { buckets: HashMap::new() };
        assert(s@ =~= Set::<nat>::empty());
        s
    }

    pub fn contains(&self, x: &U256) -> (found: bool)
        ensures
            found == self@.contains(x@),
    {
        match self.buckets.get(&x.lo) {
            Some(bucket) => lists(bucket, x.hi),
            None => false,
        }
    }

    pub fn insert(&mut self, x: U256)
        ensures
            final(self)@ == old(self)@.insert(x@),
    {
        let mut bucket = match self.buckets.remove(&x.lo) {
            Some(bucket) => bucket,
            None => Vec::new(),
        };
        let ghost bucket_before = bucket@;
        if !lists(&bucket, x.hi) {
            bucket.push(x.hi);
        }
        self.buckets.insert(x.lo, bucket);
        proof {
            assert forall|v: nat| self.holds(v) == (old(self).holds(v) || v == x@) by {
                let lo = (v % word_base()) as u128;
                let hi = (v / word_base()) as u128;
                if lo == x.lo {
                    assert(bucket@.contains(hi) == (bucket_before.contains(hi) || hi == x.hi)) by {
                        if bucket_before.contains(hi) {
                            let k = choose|k: int| 0 <= k < bucket_before.len() && bucket_before[k] == hi;
                            assert(bucket@[k] == hi);
                        }
                        if hi == x.hi {
                            if !bucket_before.contains(x.hi) {
                                assert(bucket@[bucket@.len() - 1] == hi);
                            }
                        }
                    }
                }
            }
            assert(self@ =~= old(self)@.insert(x@));
        }
    }
}

} // verus!
