//! The balance of each pool, keyed by `Query`.
use crate::assoc::{assoc_map, lemma_assoc_prefix};
use crate::model::Query;
use crate::num::U256;
use vstd::prelude::*;

verus! {

/// A map from balance pool to the amount the owner can spend from it.
pub struct Balances {
    entries: Vec<(Query, U256)>,
}

impl View for Balances {
    type V = Map<Query, U256>;

    closed spec fn view(&self) -> Map<Query, U256> {
        assoc_map(self.entries@)
    }
}

impl Balances {
    pub fn new() -> (r: Balances)
        ensures
            r@ == Map::<Query, U256>::empty(),
    {
        Balances { entries: Vec::new() }
    }

    /// The balance of pool `q`, if known.
    pub fn get(&self, q: &Query) -> (r: Option<U256>)
        ensures
            r == (if self@.contains_key(*q) {
                Some(self@[*q])
            } else {
                None
            }),
    {
        let mut i = self.entries.len();
        while i > 0
            invariant
                i <= self.entries@.len(),
                forall|j: int| i <= j < self.entries@.len() ==> (#[trigger] self.entries@[j]).0 != *q,
            decreases i,
        {
            let e = self.entries[i - 1];
            if e.0 == *q {
                proof {
                    lemma_assoc_prefix(self.entries@, i as int, *q);
                    assert(self.entries@.take(i as int).drop_last() =~= self.entries@.take(
                        i - 1,
                    ));
                }
                return Some(e.1);
            }
            i = i - 1;
        }
        proof {
            lemma_assoc_prefix(self.entries@, 0, *q);
        }
        None
    }

    /// Sets the balance of pool `q`.
    pub fn insert(&mut self, q: Query, v: U256)
        ensures
            final(self)@ == old(self)@.insert(q, v),
    {
        self.entries.push((q, v));
        proof {
            assert(self.entries@.drop_last() =~= old(self).entries@);
        }
    }

    /// A copy of the map.
    pub fn duplicate(&self) -> (r: Balances)
        ensures
            r@ == self@,
    {
        let mut entries: Vec<(Query, U256)> = Vec::new();
        let mut i: usize = 0;
        while i < self.entries.len()
            invariant
                i <= self.entries@.len(),
                entries@ == self.entries@.take(i as int),
            decreases self.entries@.len() - i,
        {
            entries.push(self.entries[i]);
            i = i + 1;
            proof {
                assert(entries@ =~= self.entries@.take(i as int));
            }
        }
        proof {
            assert(self.entries@.take(i as int) =~= self.entries@);
        }
        Balances { entries }
    }
}

} // verus!
