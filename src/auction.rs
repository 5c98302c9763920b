//! Native prices for the traded tokens, and the auction assembled from the
//! orders that have them.
use crate::metrics::AuctionMetrics;
use crate::model::{Address, Order};
use crate::num::U256;
use crate::prices::Prices;
use vstd::prelude::*;

verus! {

pub open spec fn uses_token(o: Order, t: Address) -> bool {
    o.sell_token == t || o.buy_token == t
}

/// Every token that some order of `s` sells or buys.
pub open spec fn used_tokens(s: Seq<Order>) -> Set<Address> {
    Set::new(|t: Address| exists|i: int| 0 <= i < s.len() && uses_token(#[trigger] s[i], t))
}

proof fn lemma_used_tokens_push(s: Seq<Order>, o: Order)
    ensures
        used_tokens(s.push(o)) == used_tokens(s).insert(o.sell_token).insert(o.buy_token),
{
    let s2 = s.push(o);
    assert forall|t: Address| #[trigger] used_tokens(s2).contains(t) <==> used_tokens(s).insert(
        o.sell_token,
    ).insert(o.buy_token).contains(t) by {
        if used_tokens(s).contains(t) {
            let i = choose|i: int| 0 <= i < s.len() && uses_token(#[trigger] s[i], t);
            assert(s2[i] == s[i]);
        }
        if uses_token(o, t) {
            assert(s2[s.len() as int] == o);
        }
        if used_tokens(s2).contains(t) {
            let i = choose|i: int| 0 <= i < s2.len() && uses_token(#[trigger] s2[i], t);
            if i < s.len() {
                assert(s[i] == s2[i]);
            }
        }
    }
    assert(used_tokens(s2) =~= used_tokens(s).insert(o.sell_token).insert(o.buy_token));
}

fn contains_address(v: &Vec<Address>, t: &Address) -> (r: bool)
    ensures
        r == v@.contains(*t),
{
    let mut i: usize = 0;
    while i < v.len()
        invariant
            i <= v@.len(),
            forall|j: int| 0 <= j < i ==> v@[j] != *t,
        decreases v@.len() - i,
    {
        if v[i] == *t {
            return true;
        }
        i = i + 1;
    }
    false
}

/// The distinct tokens that the orders sell or buy, in order of first use.
pub fn traded_tokens(orders: &Vec<Order>) -> (r: Vec<Address>)
    ensures
        r@.no_duplicates(),
        r@.to_set() == used_tokens(orders@),
{
    let mut tokens: Vec<Address> = Vec::new();
    let mut i: usize = 0;
    while i < orders.len()
        invariant
            i <= orders@.len(),
            tokens@.no_duplicates(),
            tokens@.to_set() == used_tokens(orders@.take(i as int)),
        decreases orders@.len() - i,
    {
        let o = orders[i];
        let ghost before = tokens@;
        if !contains_address(&tokens, &o.sell_token) {
            proof {
                before.lemma_push_to_set_commute(o.sell_token);
            }
            tokens.push(o.sell_token);
        } else {
            assert(before.to_set().insert(o.sell_token) =~= before.to_set());
        }
        let ghost mid = tokens@;
        if !contains_address(&tokens, &o.buy_token) {
            proof {
                mid.lemma_push_to_set_commute(o.buy_token);
            }
            tokens.push(o.buy_token);
        } else {
            assert(mid.to_set().insert(o.buy_token) =~= mid.to_set());
        }
        proof {
            assert(orders@.take(i + 1) =~= orders@.take(i as int).push(o));
            lemma_used_tokens_push(orders@.take(i as int), o);
            assert(tokens@.to_set() =~= before.to_set().insert(o.sell_token).insert(o.buy_token));
        }
        i = i + 1;
    }
    proof {
        assert(orders@.take(i as int) =~= orders@);
    }
    tokens
}

/// What the price oracle said of one token, once normalized.
#[derive(Clone, Copy, Debug, PartialEq, Eq, Structural)]
pub enum PriceEstimate {
    /// The lookup failed.
    Error,
    /// A price came back that has no usable fixed-point form.
    Unusable,
    /// The price, scaled by 10^18.
    Price(U256),
}

/// The prices gathered so far for a list of requested tokens.
pub struct PriceCollector {
    /// The tokens asked for; an estimate names its token by position here.
    pub tokens: Vec<Address>,
    pub prices: Prices,
    pub errored_estimates: u64,
}

impl PriceCollector {
    pub fn new(tokens: Vec<Address>) -> (r: PriceCollector)
        ensures
            r.tokens@ == tokens@,
            r.prices@ == Map::<Address, U256>::empty(),
            r.errored_estimates == 0,
    {
        PriceCollector { tokens, prices: Prices::new(), errored_estimates: 0 }
    }

    /// Takes in the estimate for the token at `index`: a price is kept (a
    /// later one for the same token replaces it), an error is counted, an
    /// unusable price is dropped.
    pub fn record(&mut self, index: usize, estimate: PriceEstimate)
        requires
            index < old(self).tokens@.len(),
        ensures
            final(self).tokens@ == old(self).tokens@,
            match estimate {
                PriceEstimate::Price(p) => final(self).prices@ == old(self).prices@.insert(
                    old(self).tokens@[index as int],
                    p,
                ) && final(self).errored_estimates == old(self).errored_estimates,
                PriceEstimate::Error => final(self).prices@ == old(self).prices@
                    && final(self).errored_estimates == (if old(self).errored_estimates < u64::MAX {
                    old(self).errored_estimates + 1
                } else {
                    old(self).errored_estimates as int
                }),
                PriceEstimate::Unusable => final(self).prices@ == old(self).prices@
                    && final(self).errored_estimates == old(self).errored_estimates,
            },
    {
        match estimate {
            PriceEstimate::Price(p) => {
                let token = self.tokens[index];
                self.prices.insert(token, p);
            },
            PriceEstimate::Error => {
                if self.errored_estimates < u64::MAX {
                    self.errored_estimates = self.errored_estimates + 1;
                }
            },
            PriceEstimate::Unusable => {},
        }
    }
}

/// Whether both tokens of an order have a price.
pub open spec fn is_priced(prices: Map<Address, U256>) -> spec_fn(Order) -> bool {
    |o: Order| prices.contains_key(o.sell_token) && prices.contains_key(o.buy_token)
}

/// Keeps the orders whose two tokens both have a price, and the prices of the
/// tokens those orders use; reports the counts to `metrics`.
pub fn get_orders_with_native_prices<M: AuctionMetrics + ?Sized>(
    orders: Vec<Order>,
    prices: &Prices,
    errored_estimates: u64,
    timeout: bool,
    metrics: &M,
) -> (r: (Vec<Order>, Prices))
    ensures
        r.0@ == orders@.filter(is_priced(prices@)),
        r.1@ == prices@.restrict(used_tokens(r.0@)),
        forall|i: int|
            0 <= i < r.0@.len() ==> r.1@.contains_key((#[trigger] r.0@[i]).sell_token)
                && r.1@.contains_key(r.0@[i].buy_token),
        forall|t: Address|
            #[trigger] r.1@.contains_key(t) ==> exists|i: int|
                0 <= i < r.0@.len() && uses_token(#[trigger] r.0@[i], t),
{
    let mut kept: Vec<Order> = Vec::new();
    let mut used = Prices::new();
    let mut i: usize = 0;
    proof {
        reveal(Seq::filter);
        assert(orders@.take(0).filter(is_priced(prices@)) =~= Seq::<Order>::empty());
        assert(used@ =~= prices@.restrict(used_tokens(kept@)));
    }
    while i < orders.len()
        invariant
            i <= orders@.len(),
            kept@ == orders@.take(i as int).filter(is_priced(prices@)),
            used@ == prices@.restrict(used_tokens(kept@)),
        decreases orders@.len() - i,
    {
        let o = orders[i];
        proof {
            assert(orders@.take(i + 1) =~= orders@.take(i as int).push(o));
            orders@.take(i as int).lemma_filter_push(o, is_priced(prices@));
        }
        match (prices.get(&o.sell_token), prices.get(&o.buy_token)) {
            (Some(sell_price), Some(buy_price)) => {
                let ghost before = kept@;
                used.insert(o.sell_token, sell_price);
                used.insert(o.buy_token, buy_price);
                kept.push(o);
                proof {
                    lemma_used_tokens_push(before, o);
                    assert(used@ =~= prices@.restrict(used_tokens(kept@)));
                }
            },
            _ => {},
        }
        i = i + 1;
    }
    proof {
        assert(orders@.take(i as int) =~= orders@);
        assert forall|i: int| 0 <= i < kept@.len() implies used@.contains_key(
            (#[trigger] kept@[i]).sell_token,
        ) && used@.contains_key(kept@[i].buy_token) by {
            orders@.lemma_filter_pred(is_priced(prices@), i);
            assert(used_tokens(kept@).contains(kept@[i].sell_token));
            assert(used_tokens(kept@).contains(kept@[i].buy_token));
        }
    }
    let solvable = kept.len() as u64;
    let filtered = (orders.len() - kept.len()) as u64;
    metrics.auction_updated(solvable, filtered, errored_estimates, timeout);
    (kept, used)
}

} // verus!
