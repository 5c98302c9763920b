//! Reference prices of tokens, kept in token order.
use crate::assoc::{
    assoc_map, keys_distinct, lemma_assoc_contains, lemma_assoc_distinct, lemma_assoc_len,
    lemma_assoc_update,
};
use crate::model::Address;
use crate::num::U256;
use vstd::prelude::*;

verus! {

/// A map from token to its native price (10^18 for a token worth one unit of
/// the chain's native asset), ordered by token.
pub struct Prices {
    entries: Vec<(Address, U256)>,
}

impl View for Prices {
    type V = Map<Address, U256>;

    closed spec fn view(&self) -> Map<Address, U256> {
        assoc_map(self.entries@)
    }
}

pub open spec fn strictly_ascending(s: Seq<(Address, U256)>) -> bool {
    forall|a: int, b: int| 0 <= a < b < s.len() ==> (#[trigger] s[a]).0.precedes((#[trigger] s[b]).0)
}

proof fn lemma_ascending_distinct(s: Seq<(Address, U256)>)
    requires
        strictly_ascending(s),
    ensures
        keys_distinct(s),
{
    assert forall|a: int, b: int| 0 <= a < b < s.len() implies (#[trigger] s[a]).0 != (
    #[trigger] s[b]).0 by {
        assert(s[a].0.precedes(s[b].0));
    }
}

proof fn lemma_replace(s: Seq<(Address, U256)>, j: int, token: Address, price: U256)
    requires
        strictly_ascending(s),
        0 <= j < s.len(),
        s[j].0 == token,
    ensures
        strictly_ascending(s.update(j, (token, price))),
        assoc_map(s.update(j, (token, price))) == assoc_map(s).insert(token, price),
{
    let s2 = s.update(j, (token, price));
    assert forall|a: int, b: int| 0 <= a < b < s2.len() implies (#[trigger] s2[a]).0.precedes(
        (#[trigger] s2[b]).0,
    ) by {
        assert(s[a].0.precedes(s[b].0));
    }
    lemma_ascending_distinct(s);
    lemma_ascending_distinct(s2);
    assert forall|i: int| 0 <= i < s.len() implies exists|k: int|
        0 <= k < s2.len() && #[trigger] s2[k].0 == (#[trigger] s[i]).0 by {
        assert(s2[i].0 == s[i].0);
    }
    assert(s2[j].0 == token);
    assert forall|k: int| 0 <= k < s2.len() && (#[trigger] s2[k]).0 != token implies exists|i: int|
        0 <= i < s.len() && #[trigger] s[i] == s2[k] by {
        assert(s[k] == s2[k]);
    }
    lemma_assoc_update(s, s2, token, price);
}

proof fn lemma_insert(s: Seq<(Address, U256)>, j: int, token: Address, price: U256)
    requires
        strictly_ascending(s),
        0 <= j <= s.len(),
        forall|k: int| 0 <= k < j ==> (#[trigger] s[k]).0.precedes(token),
        j < s.len() ==> token.precedes(s[j].0),
    ensures
        strictly_ascending(s.insert(j, (token, price))),
        assoc_map(s.insert(j, (token, price))) == assoc_map(s).insert(token, price),
{
    let s2 = s.insert(j, (token, price));
    assert forall|a: int, b: int| 0 <= a < b < s2.len() implies (#[trigger] s2[a]).0.precedes(
        (#[trigger] s2[b]).0,
    ) by {
        if b < j {
            assert(s[a].0.precedes(s[b].0));
        } else if b == j {
            assert(s[a].0.precedes(token));
        } else if a < j {
            assert(s[a].0.precedes(token));
            assert(s[a].0.precedes(s[b - 1].0));
        } else if a == j {
            assert(token.precedes(s[j].0));
            if b - 1 > j {
                assert(s[j].0.precedes(s[b - 1].0));
            }
        } else {
            assert(s[a - 1].0.precedes(s[b - 1].0));
        }
    }
    lemma_ascending_distinct(s);
    lemma_ascending_distinct(s2);
    assert forall|i: int| 0 <= i < s.len() implies exists|k: int|
        0 <= k < s2.len() && #[trigger] s2[k].0 == (#[trigger] s[i]).0 by {
        if i < j {
            assert(s2[i].0 == s[i].0);
        } else {
            assert(s2[i + 1].0 == s[i].0);
        }
    }
    assert(s2[j].0 == token);
    assert forall|k: int| 0 <= k < s2.len() && (#[trigger] s2[k]).0 != token implies exists|i: int|
        0 <= i < s.len() && #[trigger] s[i] == s2[k] by {
        if k < j {
            assert(s[k] == s2[k]);
        } else {
            assert(s[k - 1] == s2[k]);
        }
    }
    lemma_assoc_update(s, s2, token, price);
}

impl Prices {
    #[verifier::type_invariant]
    closed spec fn ascending(self) -> bool {
        strictly_ascending(self.entries@)
    }

    pub fn new() -> (r: Prices)
        ensures
            r@ == Map::<Address, U256>::empty(),
    {
        Prices { entries: Vec::new() }
    }

    /// The price of `token`, if known.
    pub fn get(&self, token: &Address) -> (r: Option<U256>)
        ensures
            r == (if self@.contains_key(*token) {
                Some(self@[*token])
            } else {
                None
            }),
    {
        proof {
            use_type_invariant(self);
        }
        let mut i: usize = 0;
        while i < self.entries.len()
            invariant
                i <= self.entries@.len(),
                strictly_ascending(self.entries@),
                forall|j: int| 0 <= j < i ==> (#[trigger] self.entries@[j]).0 != *token,
            decreases self.entries@.len() - i,
        {
            let e = self.entries[i];
            if e.0 == *token {
                proof {
                    lemma_assoc_distinct(self.entries@, i as int);
                }
                return Some(e.1);
            }
            i = i + 1;
        }
        proof {
            lemma_assoc_contains(self.entries@, *token);
        }
        None
    }

    pub fn contains_key(&self, token: &Address) -> (r: bool)
        ensures
            r == self@.contains_key(*token),
    {
        self.get(token).is_some()
    }

    /// A copy of the map.
    pub fn duplicate(&self) -> (r: Prices)
        ensures
            r@ == self@,
    {
        proof {
            use_type_invariant(self);
        }
        let mut entries: Vec<(Address, U256)> = Vec::new();
        let mut i: usize = 0;
        while i < self.entries.len()
            invariant
                i <= self.entries@.len(),
                strictly_ascending(self.entries@),
                entries@ == self.entries@.take(i as int),
            decreases self.entries@.len() - i,
        {
            entries.push(self.entries[i]);
            i = i + 1;
            proof {
                assert(entries@ =~= self.entries@.take(i as int));
            }
        }
        proof {
            assert(self.entries@.take(i as int) =~= self.entries@);
        }
        Prices { entries }
    }

    /// The prices as pairs, in ascending token order.
    pub fn to_vec(&self) -> (r: Vec<(Address, U256)>)
        ensures
            strictly_ascending(r@),
            assoc_map(r@) == self@,
    {
        proof {
            use_type_invariant(self);
        }
        let copy = self.duplicate();
        proof {
            use_type_invariant(&copy);
        }
        copy.entries
    }

    /// The number of tokens priced.
    pub fn len(&self) -> (r: usize)
        ensures
            self@.dom().finite(),
            r == self@.dom().len(),
    {
        proof {
            use_type_invariant(self);
            lemma_assoc_len(self.entries@);
        }
        self.entries.len()
    }

    /// Sets the price of `token`.
    pub fn insert(&mut self, token: Address, price: U256)
        ensures
            final(self)@ == old(self)@.insert(token, price),
    {
        proof {
            use_type_invariant(&*self);
        }
        let ghost s = self.entries@;
        let mut j: usize = 0;
        while j < self.entries.len() && self.entries[j].0.lt(&token)
            invariant
                j <= s.len(),
                self.entries@ == s,
                forall|k: int| 0 <= k < j ==> (#[trigger] s[k]).0.precedes(token),
            decreases s.len() - j,
        {
            j = j + 1;
        }
        let replace = j < self.entries.len() && self.entries[j].0 == token;
        let mut out: Vec<(Address, U256)> = Vec::new();
        let mut k: usize = 0;
        while k < j
            invariant
                k <= j <= s.len(),
                self.entries@ == s,
                out@ == s.take(k as int),
            decreases j - k,
        {
            out.push(self.entries[k]);
            k = k + 1;
            proof {
                assert(out@ =~= s.take(k as int));
            }
        }
        out.push((token, price));
        let mut k: usize = if replace {
            j + 1
        } else {
            j
        };
        while k < self.entries.len()
            invariant
                j <= k <= s.len(),
                self.entries@ == s,
                replace ==> j < s.len(),
                replace ==> k > j,
                out@ == s.take(j as int).push((token, price)) + s.subrange(
                    (if replace {
                        j + 1
                    } else {
                        j as int
                    }),
                    k as int,
                ),
            decreases s.len() - k,
        {
            out.push(self.entries[k]);
            proof {
                let lo = if replace {
                    j + 1
                } else {
                    j as int
                };
                assert(s.subrange(lo, k + 1) =~= s.subrange(lo, k as int).push(s[k as int]));
            }
            k = k + 1;
        }
        proof {
            if replace {
                assert(out@ =~= s.update(j as int, (token, price)));
                lemma_replace(s, j as int, token, price);
            } else {
                assert(out@ =~= s.insert(j as int, (token, price)));
                lemma_insert(s, j as int, token, price);
            }
        }
        self.entries = out;
    }
}

} // verus!
