//! The published state of the cache: the last auction, the orders in it and
//! the balances that produced it.
use crate::balances::Balances;
use crate::model::{query_of, Order, Query};
use crate::num::U256;
use crate::prices::Prices;
use vstd::prelude::*;

verus! {

/// The pools that the orders of `s` draw on.
pub open spec fn order_queries(s: Seq<Order>) -> Set<Query> {
    Set::new(|q: Query| exists|i: int| 0 <= i < s.len() && query_of(#[trigger] s[i]) == q)
}

/// The pools whose balance must still be fetched.
pub open spec fn missing_queries(known: Map<Query, U256>, s: Seq<Order>) -> Set<Query> {
    order_queries(s).difference(known.dom())
}

proof fn lemma_order_queries_push(s: Seq<Order>, o: Order)
    ensures
        order_queries(s.push(o)) == order_queries(s).insert(query_of(o)),
{
    let s2 = s.push(o);
    assert forall|q: Query| #[trigger] order_queries(s2).contains(q) <==> order_queries(
        s,
    ).insert(query_of(o)).contains(q) by {
        if order_queries(s).contains(q) {
            let i = choose|i: int| 0 <= i < s.len() && query_of(#[trigger] s[i]) == q;
            assert(s2[i] == s[i]);
        }
        if q == query_of(o) {
            assert(s2[s.len() as int] == o);
        }
        if order_queries(s2).contains(q) {
            let i = choose|i: int| 0 <= i < s2.len() && query_of(#[trigger] s2[i]) == q;
            if i < s.len() {
                assert(s[i] == s2[i]);
            }
        }
    }
    assert(order_queries(s2) =~= order_queries(s).insert(query_of(o)));
}

fn contains_query(v: &Vec<Query>, q: &Query) -> (r: bool)
    ensures
        r == v@.contains(*q),
{
    let mut i: usize = 0;
    while i < v.len()
        invariant
            i <= v@.len(),
            forall|j: int| 0 <= j < i ==> v@[j] != *q,
        decreases v@.len() - i,
    {
        if v[i] == *q {
            return true;
        }
        i = i + 1;
    }
    false
}

/// Splits the pools of `orders` into those whose balance `known` already
/// holds, returned with their balances, and those still to be fetched, each
/// listed once.
pub fn new_balances(known: &Balances, orders: &Vec<Order>) -> (r: (Balances, Vec<Query>))
    ensures
        r.0@ == known@.restrict(order_queries(orders@)),
        r.1@.no_duplicates(),
        r.1@.to_set() == missing_queries(known@, orders@),
{
    let mut found = Balances::new();
    let mut missing: Vec<Query> = Vec::new();
    let mut i: usize = 0;
    proof {
        assert(found@ =~= known@.restrict(order_queries(orders@.take(0))));
        assert(missing@.to_set() =~= missing_queries(known@, orders@.take(0)));
    }
    while i < orders.len()
        invariant
            i <= orders@.len(),
            found@ == known@.restrict(order_queries(orders@.take(i as int))),
            missing@.no_duplicates(),
            missing@.to_set() == missing_queries(known@, orders@.take(i as int)),
        decreases orders@.len() - i,
    {
        let o = orders[i];
        let q = Query::from_order(&o);
        let ghost before = missing@;
        proof {
            assert(orders@.take(i + 1) =~= orders@.take(i as int).push(o));
            lemma_order_queries_push(orders@.take(i as int), o);
        }
        match known.get(&q) {
            Some(balance) => {
                if found.get(&q).is_none() {
                    found.insert(q, balance);
                }
                proof {
                    assert(found@ =~= known@.restrict(order_queries(orders@.take(i + 1))));
                    assert(missing@.to_set() =~= missing_queries(known@, orders@.take(i + 1)));
                }
            },
            None => {
                if !contains_query(&missing, &q) {
                    proof {
                        before.lemma_push_to_set_commute(q);
                    }
                    missing.push(q);
                }
                proof {
                    assert(found@ =~= known@.restrict(order_queries(orders@.take(i + 1))));
                    assert(missing@.to_set() =~= missing_queries(known@, orders@.take(i + 1)));
                }
            },
        }
        i = i + 1;
    }
    proof {
        assert(orders@.take(i as int) =~= orders@);
    }
    (found, missing)
}

/// `m` with the first `n` fetched balances recorded for their pools; a
/// failed fetch records nothing.
pub open spec fn with_fetched(
    m: Map<Query, U256>,
    queries: Seq<Query>,
    fetched: Seq<Option<U256>>,
    n: nat,
) -> Map<Query, U256>
    decreases n,
{
    if n == 0 {
        m
    } else {
        let prev = with_fetched(m, queries, fetched, (n - 1) as nat);
        match fetched[n - 1] {
            Some(v) => prev.insert(queries[n - 1], v),
            None => prev,
        }
    }
}

/// Records each fetched balance for the pool at the same position; fetches
/// that failed are skipped, and positions past the shorter list are ignored.
pub fn add_fetched_balances(
    balances: &mut Balances,
    queries: &Vec<Query>,
    fetched: &Vec<Option<U256>>,
)
    ensures
        final(balances)@ == with_fetched(
            old(balances)@,
            queries@,
            fetched@,
            if queries@.len() < fetched@.len() {
                queries@.len()
            } else {
                fetched@.len()
            },
        ),
{
    let n = if queries.len() < fetched.len() {
        queries.len()
    } else {
        fetched.len()
    };
    let mut i: usize = 0;
    while i < n
        invariant
            i <= n,
            n <= queries@.len(),
            n <= fetched@.len(),
            balances@ == with_fetched(old(balances)@, queries@, fetched@, i as nat),
        decreases n - i,
    {
        match fetched[i] {
            Some(v) => balances.insert(queries[i], v),
            None => {},
        }
        i = i + 1;
    }
}

fn copy_orders(orders: &Vec<Order>) -> (r: Vec<Order>)
    ensures
        r@ == orders@,
{
    let mut out: Vec<Order> = Vec::new();
    let mut i: usize = 0;
    while i < orders.len()
        invariant
            i <= orders@.len(),
            out@ == orders@.take(i as int),
        decreases orders@.len() - i,
    {
        out.push(orders[i]);
        i = i + 1;
        proof {
            assert(out@ =~= orders@.take(i as int));
        }
    }
    proof {
        assert(orders@.take(i as int) =~= orders@);
    }
    out
}

/// The orders of the last published auction, with when and at which block
/// it was prepared. `update_time` is in milliseconds on a monotonic clock.
pub struct SolvableOrders {
    pub orders: Vec<Order>,
    pub update_time: u64,
    pub latest_settlement_block: u64,
    pub block: u64,
}

/// What solvers receive: the orders and the price of every token they use.
pub struct Auction {
    pub block: u64,
    pub latest_settlement_block: u64,
    pub orders: Vec<Order>,
    pub prices: Prices,
}

/// The published state, replaced as a whole by each successful refresh.
pub struct CacheState {
    orders: SolvableOrders,
    balances: Balances,
    auction: Auction,
}

impl CacheState {
    pub closed spec fn block(&self) -> u64 {
        self.orders.block
    }

    pub closed spec fn latest_settlement_block(&self) -> u64 {
        self.orders.latest_settlement_block
    }

    pub closed spec fn update_time(&self) -> u64 {
        self.orders.update_time
    }

    pub closed spec fn orders(&self) -> Seq<Order> {
        self.orders.orders@
    }

    pub closed spec fn prices(&self) -> Map<crate::model::Address, U256> {
        self.auction.prices@
    }

    pub closed spec fn balances(&self) -> Map<Query, U256> {
        self.balances@
    }

    #[verifier::type_invariant]
    closed spec fn consistent(self) -> bool {
        &&& self.auction.orders@ == self.orders.orders@
        &&& self.auction.block == self.orders.block
        &&& self.auction.latest_settlement_block == self.orders.latest_settlement_block
    }

    /// The state before the first refresh: no orders, no prices, no
    /// balances, at block zero.
    pub fn new(now: u64) -> (r: CacheState)
        ensures
            r.block() == 0,
            r.latest_settlement_block() == 0,
            r.update_time() == now,
            r.orders() == Seq::<Order>::empty(),
            r.prices() == Map::<crate::model::Address, U256>::empty(),
            r.balances() == Map::<Query, U256>::empty(),
    {
        CacheState {
            orders: SolvableOrders {
                orders: Vec::new(),
                update_time: now,
                latest_settlement_block: 0,
                block: 0,
            },
            balances: Balances::new(),
            auction: Auction {
                block: 0,
                latest_settlement_block: 0,
                orders: Vec::new(),
                prices: Prices::new(),
            },
        }
    }

    /// The balance of pool `q` as the last refresh saw it.
    pub fn cached_balance(&self, q: &Query) -> (r: Option<U256>)
        ensures
            r == (if self.balances().contains_key(*q) {
                Some(self.balances()[*q])
            } else {
                None
            }),
    {
        self.balances.get(q)
    }

    /// The published orders with the time and blocks of their refresh.
    pub fn cached_solvable_orders(&self) -> (r: SolvableOrders)
        ensures
            r.orders@ == self.orders(),
            r.update_time == self.update_time(),
            r.latest_settlement_block == self.latest_settlement_block(),
            r.block == self.block(),
    {
        SolvableOrders {
            orders: copy_orders(&self.orders.orders),
            update_time: self.orders.update_time,
            latest_settlement_block: self.orders.latest_settlement_block,
            block: self.orders.block,
        }
    }

    /// The published auction and the time of its refresh.
    pub fn cached_auction(&self) -> (r: (Auction, u64))
        ensures
            r.0.orders@ == self.orders(),
            r.0.prices@ == self.prices(),
            r.0.block == self.block(),
            r.0.latest_settlement_block == self.latest_settlement_block(),
            r.1 == self.update_time(),
    {
        proof {
            use_type_invariant(self);
        }
        (
            Auction {
                block: self.auction.block,
                latest_settlement_block: self.auction.latest_settlement_block,
                orders: copy_orders(&self.auction.orders),
                prices: self.auction.prices.duplicate(),
            },
            self.orders.update_time,
        )
    }

    /// The balances a refresh at `block` may start from: those of the last
    /// refresh when it ran at the same block, since they cannot have changed
    /// on chain, and none otherwise.
    pub fn balances_for_block(&self, block: u64) -> (r: Balances)
        ensures
            r@ == reusable_balances(self.block(), self.balances(), block),
    {
        if self.orders.block == block {
            self.balances.duplicate()
        } else {
            Balances::new()
        }
    }

    /// Replaces the published state with the outcome of a refresh. The update
    /// time never goes back: it is the later of `now` and the previous one.
    pub fn publish(
        &mut self,
        block: u64,
        latest_settlement_block: u64,
        orders: Vec<Order>,
        prices: Prices,
        balances: Balances,
        now: u64,
    )
        ensures
            final(self).block() == block,
            final(self).latest_settlement_block() == latest_settlement_block,
            final(self).orders() == orders@,
            final(self).prices() == prices@,
            final(self).balances() == balances@,
            final(self).update_time() == (if now < old(self).update_time() {
                old(self).update_time()
            } else {
                now
            }),
            final(self).update_time() >= old(self).update_time(),
    {
        let update_time = if now < self.orders.update_time {
            self.orders.update_time
        } else {
            now
        };
        let auction_orders = copy_orders(&orders);
        *self = CacheState {
            orders: SolvableOrders { orders, update_time, latest_settlement_block, block },
            balances,
            auction: Auction { block, latest_settlement_block, orders: auction_orders, prices },
        };
    }
}

/// The balances a refresh at `block` may reuse from one at `previous_block`.
pub open spec fn reusable_balances(
    previous_block: u64,
    previous: Map<Query, U256>,
    block: u64,
) -> Map<Query, U256> {
    if block == previous_block {
        previous
    } else {
        Map::empty()
    }
}

/// Balance reuse across equal blocks: when a refresh runs at the block of the
/// previous one, no pool whose balance that refresh resolved is fetched again.
pub proof fn lemma_balance_reuse(
    previous_block: u64,
    previous: Map<Query, U256>,
    block: u64,
    orders: Seq<Order>,
    q: Query,
)
    requires
        block == previous_block,
        previous.contains_key(q),
    ensures
        !missing_queries(reusable_balances(previous_block, previous, block), orders).contains(q),
{
}

} // verus!
