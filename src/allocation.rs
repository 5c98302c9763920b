//! How much each order needs from its owner, and which orders the owners'
//! balances can cover.
use crate::balances::Balances;
use crate::model::{query_of, Order, OrderKind, Query};
use crate::num::{u256_bound, U256};
use vstd::prelude::*;

verus! {

/// An amount of an order does not fit in 256 bits.
#[derive(Clone, Copy, Debug, PartialEq, Eq, Structural)]
pub struct ArithmeticOverflow {}

/// The amount of sell token that must leave the owner's account to settle
/// what is left of order `o`: `sell_amount + fee_amount` scaled by the part of
/// the order still open, rounded down; `None` where `sell_amount + fee_amount`
/// does not fit in 256 bits, or the execution recorded is impossible.
///
/// A fill-or-kill order is open in full. A partially fillable order is open
/// by the part of its limit amount (the sell amount for sell orders, the buy
/// amount for buy orders) not yet executed.
pub open spec fn transfer_out(o: Order) -> Option<nat> {
    let total_out = o.sell_amount.value() + o.fee_amount.value();
    if total_out >= u256_bound() {
        None
    } else if !o.partially_fillable {
        Some(total_out as nat)
    } else {
        let limit = if o.kind == OrderKind::Sell {
            o.sell_amount.value()
        } else {
            o.buy_amount.value()
        };
        let executed = if o.kind == OrderKind::Sell {
            o.executed_sell_amount.value()
        } else {
            o.executed_buy_amount.value()
        };
        if executed > limit || limit == 0 {
            None
        } else {
            Some((total_out * (limit - executed) as nat / limit) as nat)
        }
    }
}

proof fn lemma_scaled_down(total: nat, open: nat, limit: nat)
    requires
        0 < limit,
        open <= limit,
    ensures
        total * open / limit <= total,
{
    assert(total * open <= total * limit) by (nonlinear_arith)
        requires
            open <= limit,
    ;
    vstd::arithmetic::div_mod::lemma_div_is_ordered((total * open) as int, (total * limit) as int, limit as int);
    vstd::arithmetic::div_mod::lemma_div_by_multiple(total as int, limit as int);
}

/// Computes the largest amount that settling what is left of `order` can
/// move out of its owner's account. The scaling is done on the exact 512-bit
/// product, so it fails only where `sell_amount + fee_amount` overflows.
pub fn max_transfer_out_amount(order: &Order) -> (r: Result<U256, ArithmeticOverflow>)
    ensures
        match r {
            Ok(v) => transfer_out(*order) == Some(v.value()),
            Err(_) => transfer_out(*order) == None::<nat>,
        },
{
    let total_out = match order.sell_amount.checked_add(order.fee_amount) {
        Some(v) => v,
        None => return Err(ArithmeticOverflow {}),
    };
    if !order.partially_fillable {
        return Ok(total_out);
    }
    let (limit, executed) = match order.kind {
        OrderKind::Sell => (order.sell_amount, order.executed_sell_amount),
        OrderKind::Buy => (order.buy_amount, order.executed_buy_amount),
    };
    let open = match limit.checked_sub(executed) {
        Some(v) => v,
        None => return Err(ArithmeticOverflow {}),
    };
    if limit.is_zero() {
        return Err(ArithmeticOverflow {});
    }
    let (hi, lo) = total_out.full_mul(open);
    proof {
        lemma_scaled_down(total_out.value(), open.value(), limit.value());
        total_out.lemma_value_bounded();
    }
    match U256::wide_div(hi, lo, limit) {
        Some(v) => Ok(v),
        None => Err(ArithmeticOverflow {}),
    }
}

/// `a` is served before `b`: it is newer, or as new with a smaller uid.
pub open spec fn precedes(a: Order, b: Order) -> bool {
    a.creation_date > b.creation_date || (a.creation_date == b.creation_date
        && a.uid.precedes(b.uid))
}

/// `o` placed into `s` before the first order that it precedes.
pub open spec fn insert_by_priority(s: Seq<Order>, o: Order) -> Seq<Order>
    decreases s.len(),
{
    if s.len() == 0 {
        seq![o]
    } else if precedes(o, s[0]) {
        seq![o] + s
    } else {
        seq![s[0]] + insert_by_priority(s.drop_first(), o)
    }
}

/// The orders in serving order: newest first, then by uid; orders that tie
/// keep their relative order.
pub open spec fn by_priority(s: Seq<Order>) -> Seq<Order>
    decreases s.len(),
{
    if s.len() == 0 {
        s
    } else {
        insert_by_priority(by_priority(s.drop_last()), s.last())
    }
}

proof fn lemma_insert_at(s: Seq<Order>, o: Order, j: int)
    requires
        0 <= j <= s.len(),
        forall|k: int| 0 <= k < j ==> !precedes(o, #[trigger] s[k]),
        j < s.len() ==> precedes(o, s[j]),
    ensures
        insert_by_priority(s, o) == s.insert(j, o),
    decreases s.len(),
{
    if s.len() == 0 {
        assert(s.insert(j, o) =~= seq![o]);
    } else if j == 0 {
        assert(s.insert(j, o) =~= seq![o] + s);
    } else {
        let t = s.drop_first();
        assert forall|k: int| 0 <= k < j - 1 implies !precedes(o, #[trigger] t[k]) by {
            assert(t[k] == s[k + 1]);
        }
        lemma_insert_at(t, o, j - 1);
        assert(s.insert(j, o) =~= seq![s[0]] + t.insert(j - 1, o));
    }
}

fn precedes_exec(a: &Order, b: &Order) -> (r: bool)
    ensures
        r == precedes(*a, *b),
{
    a.creation_date > b.creation_date || (a.creation_date == b.creation_date && a.uid.lt(&b.uid))
}

/// The orders in serving order.
pub fn sort_by_priority(orders: &Vec<Order>) -> (r: Vec<Order>)
    ensures
        r@ == by_priority(orders@),
{
    let mut sorted: Vec<Order> = Vec::new();
    let mut i: usize = 0;
    while i < orders.len()
        invariant
            i <= orders@.len(),
            sorted@ == by_priority(orders@.take(i as int)),
        decreases orders@.len() - i,
    {
        let o = orders[i];
        let mut j: usize = 0;
        while j < sorted.len() && !precedes_exec(&o, &sorted[j])
            invariant
                j <= sorted@.len(),
                forall|k: int| 0 <= k < j ==> !precedes(o, #[trigger] sorted@[k]),
            decreases sorted@.len() - j,
        {
            j = j + 1;
        }
        proof {
            lemma_insert_at(sorted@, o, j as int);
            assert(orders@.take(i + 1).drop_last() =~= orders@.take(i as int));
        }
        sorted.insert(j, o);
        i = i + 1;
    }
    proof {
        assert(orders@.take(i as int) =~= orders@);
    }
    sorted
}

/// The balances as plain amounts.
pub open spec fn amounts(b: Map<Query, U256>) -> Map<Query, nat> {
    Map::new(|q: Query| b.contains_key(q), |q: Query| b[q].value())
}

/// The orders of `s`, served in turn, that their pool can still cover; each
/// admitted order takes what it needs from its pool. Orders that need nothing,
/// whose need overflows, or whose pool is unknown are not admitted.
pub open spec fn allocate(s: Seq<Order>, funds: Map<Query, nat>) -> Seq<Order>
    decreases s.len(),
{
    if s.len() == 0 {
        Seq::empty()
    } else {
        let o = s[0];
        let q = query_of(o);
        match transfer_out(o) {
            Some(n) => {
                if n > 0 && funds.contains_key(q) && n <= funds[q] {
                    seq![o] + allocate(s.drop_first(), funds.insert(q, (funds[q] - n) as nat))
                } else {
                    allocate(s.drop_first(), funds)
                }
            },
            None => allocate(s.drop_first(), funds),
        }
    }
}

/// The orders that the balances can cover, in serving order.
pub open spec fn solvable(orders: Seq<Order>, balances: Map<Query, U256>) -> Seq<Order> {
    allocate(by_priority(orders), amounts(balances))
}

/// Chooses the orders to keep when an owner's balance cannot cover all the
/// orders that draw on it: newer orders are served first, and an order that no
/// longer fits is skipped while later ones may still fit.
pub fn solvable_orders(orders: Vec<Order>, balances: &Balances) -> (r: Vec<Order>)
    ensures
        r@ == solvable(orders@, balances@),
{
    let sorted = sort_by_priority(&orders);
    let mut remaining = balances.duplicate();
    let mut result: Vec<Order> = Vec::new();
    let mut i: usize = 0;
    proof {
        assert(sorted@.skip(0) =~= sorted@);
        assert(result@ + allocate(sorted@, amounts(remaining@)) =~= allocate(
            sorted@,
            amounts(remaining@),
        ));
    }
    while i < sorted.len()
        invariant
            i <= sorted@.len(),
            result@ + allocate(sorted@.skip(i as int), amounts(remaining@)) == allocate(
                sorted@,
                amounts(balances@),
            ),
        decreases sorted@.len() - i,
    {
        let o = sorted[i];
        let ghost rest = sorted@.skip(i as int);
        let ghost funds = amounts(remaining@);
        proof {
            assert(rest.drop_first() =~= sorted@.skip(i + 1));
            assert(rest[0] == o);
        }
        let q = Query::from_order(&o);
        match max_transfer_out_amount(&o) {
            Ok(needed) => {
                if !needed.is_zero() {
                    match remaining.get(&q) {
                        Some(available) => {
                            match available.checked_sub(needed) {
                                Some(left) => {
                                    remaining.insert(q, left);
                                    proof {
                                        assert(amounts(remaining@) =~= funds.insert(
                                            q,
                                            (funds[q] - needed.value()) as nat,
                                        ));
                                        assert(result@.push(o) + allocate(
                                            sorted@.skip(i + 1),
                                            amounts(remaining@),
                                        ) =~= result@ + (seq![o] + allocate(
                                            sorted@.skip(i + 1),
                                            amounts(remaining@),
                                        )));
                                    }
                                    result.push(o);
                                },
                                None => {},
                            }
                        },
                        None => {},
                    }
                }
            },
            Err(_) => {},
        }
        i = i + 1;
    }
    proof {
        assert(result@ + allocate(sorted@.skip(i as int), amounts(remaining@)) =~= result@);
    }
    result
}

/// What the orders of `s` drawing on pool `q` need together.
pub open spec fn spent(s: Seq<Order>, q: Query) -> nat
    decreases s.len(),
{
    if s.len() == 0 {
        0
    } else {
        let own = if query_of(s[0]) == q {
            match transfer_out(s[0]) {
                Some(n) => n,
                None => 0,
            }
        } else {
            0
        };
        spent(s.drop_first(), q) + own
    }
}

proof fn lemma_allocate_within(s: Seq<Order>, funds: Map<Query, nat>, q: Query)
    ensures
        forall|i: int|
            0 <= i < allocate(s, funds).len() ==> funds.contains_key(
                query_of(#[trigger] allocate(s, funds)[i]),
            ),
        funds.contains_key(q) ==> spent(allocate(s, funds), q) <= funds[q],
        !funds.contains_key(q) ==> spent(allocate(s, funds), q) == 0,
    decreases s.len(),
{
    if s.len() > 0 {
        let o = s[0];
        let p = query_of(o);
        let rest = s.drop_first();
        match transfer_out(o) {
            Some(n) => {
                if n > 0 && funds.contains_key(p) && n <= funds[p] {
                    let next = funds.insert(p, (funds[p] - n) as nat);
                    lemma_allocate_within(rest, next, q);
                    let tail = allocate(rest, next);
                    let all = seq![o] + tail;
                    assert(all.drop_first() =~= tail);
                    assert(all[0] == o);
                    assert forall|i: int| 0 <= i < all.len() implies funds.contains_key(
                        query_of(#[trigger] all[i]),
                    ) by {
                        if i > 0 {
                            assert(all[i] == tail[i - 1]);
                            assert(next.contains_key(query_of(tail[i - 1])));
                        }
                    }
                } else {
                    lemma_allocate_within(rest, funds, q);
                }
            },
            None => {
                lemma_allocate_within(rest, funds, q);
            },
        }
    }
}

/// Balance conservation: the orders admitted for a pool need together no more
/// than the pool holds, and no order is admitted for a pool of unknown
/// balance.
pub proof fn lemma_balance_conservation(
    orders: Seq<Order>,
    balances: Map<Query, U256>,
    q: Query,
)
    ensures
        forall|i: int|
            0 <= i < solvable(orders, balances).len() ==> balances.contains_key(
                query_of(#[trigger] solvable(orders, balances)[i]),
            ),
        balances.contains_key(q) ==> spent(solvable(orders, balances), q)
            <= balances[q].value(),
{
    lemma_allocate_within(by_priority(orders), amounts(balances), q);
}

/// No order stands after one that it precedes.
pub open spec fn in_serving_order(t: Seq<Order>) -> bool {
    forall|i: int, j: int| 0 <= i < j < t.len() ==> !precedes(#[trigger] t[j], #[trigger] t[i])
}

proof fn lemma_insert_position(t: Seq<Order>, x: Order) -> (j: int)
    ensures
        0 <= j <= t.len(),
        forall|k: int| 0 <= k < j ==> !precedes(x, #[trigger] t[k]),
        j < t.len() ==> precedes(x, t[j]),
        insert_by_priority(t, x) == t.insert(j, x),
    decreases t.len(),
{
    let j = if t.len() == 0 || precedes(x, t[0]) {
        0
    } else {
        let t2 = t.drop_first();
        let j2 = lemma_insert_position(t2, x);
        assert forall|k: int| 0 <= k < j2 + 1 implies !precedes(x, #[trigger] t[k]) by {
            if k > 0 {
                assert(t[k] == t2[k - 1]);
            }
        }
        j2 + 1
    };
    lemma_insert_at(t, x, j);
    j
}

proof fn lemma_seq_insert_contains(t: Seq<Order>, j: int, x: Order, y: Order)
    requires
        0 <= j <= t.len(),
    ensures
        t.insert(j, x).contains(y) <==> (y == x || t.contains(y)),
{
    let r = t.insert(j, x);
    if t.contains(y) {
        let k = choose|k: int| 0 <= k < t.len() && t[k] == y;
        if k < j {
            assert(r[k] == y);
        } else {
            assert(r[k + 1] == y);
        }
    }
    if y == x {
        assert(r[j] == x);
    }
    if r.contains(y) && y != x {
        let k = choose|k: int| 0 <= k < r.len() && r[k] == y;
        if k < j {
            assert(t[k] == y);
        } else {
            assert(t[k - 1] == y);
        }
    }
}

/// Serving order holds the orders it was given, each newest first.
pub proof fn lemma_by_priority(s: Seq<Order>, y: Order)
    ensures
        in_serving_order(by_priority(s)),
        by_priority(s).contains(y) <==> s.contains(y),
    decreases s.len(),
{
    if s.len() > 0 {
        let x = s.last();
        let prev = s.drop_last();
        let t = by_priority(prev);
        lemma_by_priority(prev, y);
        let j = lemma_insert_position(t, x);
        let r = t.insert(j, x);
        assert forall|i: int, k: int| 0 <= i < k < r.len() implies !precedes(
            #[trigger] r[k],
            #[trigger] r[i],
        ) by {
            if k < j {
                assert(r[k] == t[k] && r[i] == t[i]);
            } else if k == j {
                assert(r[i] == t[i]);
            } else if i < j {
                assert(r[k] == t[k - 1] && r[i] == t[i]);
            } else if i == j {
                assert(r[k] == t[k - 1]);
                if k - 1 > j {
                    assert(!precedes(t[k - 1], t[j]));
                }
            } else {
                assert(r[k] == t[k - 1] && r[i] == t[i - 1]);
            }
        }
        lemma_seq_insert_contains(t, j, x, y);
        if prev.contains(y) {
            let k = choose|k: int| 0 <= k < prev.len() && prev[k] == y;
            assert(s[k] == y);
        }
        if y == x {
            assert(s[s.len() - 1] == y);
        }
        if s.contains(y) && y != x {
            let k = choose|k: int| 0 <= k < s.len() && s[k] == y;
            assert(prev[k] == y);
        }
    }
}

/// What `allocate` admits comes from what it serves.
proof fn lemma_allocate_from(t: Seq<Order>, funds: Map<Query, nat>, y: Order)
    ensures
        allocate(t, funds).contains(y) ==> t.contains(y),
    decreases t.len(),
{
    if t.len() > 0 {
        let o = t[0];
        let q = query_of(o);
        let rest = t.drop_first();
        let next = match transfer_out(o) {
            Some(n) => {
                if n > 0 && funds.contains_key(q) && n <= funds[q] {
                    funds.insert(q, (funds[q] - n) as nat)
                } else {
                    funds
                }
            },
            None => funds,
        };
        lemma_allocate_from(rest, next, y);
        lemma_allocate_from(rest, funds, y);
        let r = allocate(t, funds);
        if r.contains(y) {
            let k = choose|k: int| 0 <= k < r.len() && r[k] == y;
            if y != o {
                match transfer_out(o) {
                    Some(n) => {
                        if n > 0 && funds.contains_key(q) && n <= funds[q] {
                            assert(allocate(rest, next)[k - 1] == y);
                        } else {
                            assert(allocate(rest, funds)[k] == y);
                        }
                    },
                    None => {
                        assert(allocate(rest, funds)[k] == y);
                    },
                }
                let i = choose|i: int| 0 <= i < rest.len() && rest[i] == y;
                assert(t[i + 1] == y);
            } else {
                assert(t[0] == y);
            }
        }
    }
}

/// Serving `t`, in which the orders of pool `q` are `a` or `b` and no `b`
/// stands before an `a`: once an `a` has taken its share (`taken`), what is
/// left cannot cover `b`; before that the pool holds `total`, enough for `a`.
proof fn lemma_newer_served(
    t: Seq<Order>,
    funds: Map<Query, nat>,
    a: Order,
    b: Order,
    total: nat,
    taken: bool,
)
    requires
        a != b,
        query_of(a) == query_of(b),
        funds.contains_key(query_of(a)),
        transfer_out(a) is Some,
        transfer_out(b) is Some,
        0 < transfer_out(a)->0 <= total,
        0 < transfer_out(b)->0,
        transfer_out(a)->0 + transfer_out(b)->0 > total,
        forall|k: int|
            0 <= k < t.len() && query_of(#[trigger] t[k]) == query_of(a) ==> t[k] == a || t[k]
                == b,
        forall|i: int, k: int| 0 <= i < k < t.len() && (#[trigger] t[i]) == b ==> #[trigger] t[k] != a,
        !taken ==> funds[query_of(a)] == total && t.contains(a),
        taken ==> funds[query_of(a)] + transfer_out(a)->0 <= total,
    ensures
        !allocate(t, funds).contains(b),
        !taken ==> allocate(t, funds).contains(a),
    decreases t.len(),
{
    let q = query_of(a);
    if t.len() > 0 {
        let o = t[0];
        let p = query_of(o);
        let rest = t.drop_first();
        assert forall|k: int|
            0 <= k < rest.len() && query_of(#[trigger] rest[k]) == q implies rest[k] == a
            || rest[k] == b by {
            assert(rest[k] == t[k + 1]);
        }
        assert forall|i: int, k: int|
            0 <= i < k < rest.len() && (#[trigger] rest[i]) == b implies #[trigger] rest[k] != a by {
            assert(rest[i] == t[i + 1] && rest[k] == t[k + 1]);
        }
        let admitted = match transfer_out(o) {
            Some(n) => n > 0 && funds.contains_key(p) && n <= funds[p],
            None => false,
        };
        let next = if admitted {
            funds.insert(p, (funds[p] - transfer_out(o)->0) as nat)
        } else {
            funds
        };
        let r = allocate(t, funds);
        assert(r == if admitted {
            seq![o] + allocate(rest, next)
        } else {
            allocate(rest, next)
        });
        if p != q {
            assert(next[q] == funds[q]);
            if !taken {
                let k = choose|k: int| 0 <= k < t.len() && t[k] == a;
                assert(k > 0);
                assert(rest[k - 1] == a);
            }
            lemma_newer_served(rest, next, a, b, total, taken);
            lemma_allocate_from(rest, next, b);
            if admitted {
                assert(o != b);
                assert forall|k: int| 0 <= k < r.len() implies r[k] != b by {
                    if k > 0 {
                        assert(r[k] == allocate(rest, next)[k - 1]);
                    }
                }
                if !taken {
                    let k = choose|k: int|
                        0 <= k < allocate(rest, next).len() && allocate(rest, next)[k] == a;
                    assert(r[k + 1] == a);
                }
            }
        } else if o == a {
            lemma_newer_served(rest, next, a, b, total, true);
            if admitted {
                assert(r[0] == a);
                assert forall|k: int| 0 <= k < r.len() implies r[k] != b by {
                    if k > 0 {
                        assert(r[k] == allocate(rest, next)[k - 1]);
                    }
                }
            }
        } else {
            assert(o == b);
            if !taken {
                let k = choose|k: int| 0 <= k < t.len() && t[k] == a;
                assert(t[0] == b);
                assert(k > 0);
            }
            assert(!admitted);
            assert(t.contains(a) ==> rest.contains(a));
            lemma_newer_served(rest, next, a, b, total, true);
        }
    }
}

/// Recency preference: of two orders on one pool that each fit in its
/// balance alone but not together, and that are the only orders on that
/// pool, the newer one is admitted and the older one is not, whatever the
/// other orders and the order they come in.
pub proof fn lemma_recency_preference(
    orders: Seq<Order>,
    a: Order,
    b: Order,
    balances: Map<Query, U256>,
)
    requires
        orders.contains(a),
        orders.contains(b),
        query_of(a) == query_of(b),
        forall|k: int|
            0 <= k < orders.len() && query_of(#[trigger] orders[k]) == query_of(a) ==> orders[k]
                == a || orders[k] == b,
        balances.contains_key(query_of(a)),
        a.creation_date > b.creation_date,
        transfer_out(a) is Some,
        transfer_out(b) is Some,
        0 < transfer_out(a)->0 <= balances[query_of(a)].value(),
        0 < transfer_out(b)->0 <= balances[query_of(a)].value(),
        transfer_out(a)->0 + transfer_out(b)->0 > balances[query_of(a)].value(),
    ensures
        solvable(orders, balances).contains(a),
        !solvable(orders, balances).contains(b),
{
    let t = by_priority(orders);
    let q = query_of(a);
    lemma_by_priority(orders, a);
    assert forall|k: int| 0 <= k < t.len() && query_of(#[trigger] t[k]) == q implies t[k] == a
        || t[k] == b by {
        lemma_by_priority(orders, t[k]);
        assert(t.contains(t[k]));
        let i = choose|i: int| 0 <= i < orders.len() && orders[i] == t[k];
        assert(query_of(orders[i]) == q);
    }
    assert forall|i: int, k: int|
        0 <= i < k < t.len() && (#[trigger] t[i]) == b implies #[trigger] t[k] != a by {
        assert(!precedes(t[k], t[i]));
    }
    let funds = amounts(balances);
    lemma_newer_served(t, funds, a, b, balances[q].value(), false);
}

/// The orders with the balance of their pool recorded on each.
pub open spec fn with_available(s: Seq<Order>, balances: Map<Query, U256>) -> Seq<Order> {
    s.map_values(
        |o: Order|
            Order {
                available_balance: if balances.contains_key(query_of(o)) {
                    Some(balances[query_of(o)])
                } else {
                    None
                },
                ..o
            },
    )
}

/// Records on each order the balance of its pool as it stood before the
/// allocation, for solvers to see.
pub fn with_available_balances(orders: Vec<Order>, balances: &Balances) -> (r: Vec<Order>)
    ensures
        r@ == with_available(orders@, balances@),
{
    let mut result: Vec<Order> = Vec::new();
    let mut i: usize = 0;
    while i < orders.len()
        invariant
            i <= orders@.len(),
            result@ == with_available(orders@.take(i as int), balances@),
        decreases orders@.len() - i,
    {
        let mut o = orders[i];
        o.available_balance = balances.get(&Query::from_order(&o));
        result.push(o);
        i = i + 1;
        proof {
            assert(result@ =~= with_available(orders@.take(i as int), balances@));
        }
    }
    proof {
        assert(orders@.take(i as int) =~= orders@);
    }
    result
}

/// The orders of a refresh once the balances of their pools are known: those
/// the balances can cover, in serving order, each with its pool's balance.
pub fn allocate_orders(orders: Vec<Order>, balances: &Balances) -> (r: Vec<Order>)
    ensures
        r@ == with_available(solvable(orders@, balances@), balances@),
{
    let admitted = solvable_orders(orders, balances);
    with_available_balances(admitted, balances)
}

} // verus!
