//! The filters an order passes before it competes for balance.
use crate::model::{Address, Order};
use vstd::prelude::*;

verus! {

pub open spec fn not_owned_by(banned: Seq<Address>) -> spec_fn(Order) -> bool {
    |o: Order| !banned.contains(o.owner)
}

pub open spec fn trades_supported(unsupported: Seq<Address>) -> spec_fn(Order) -> bool {
    |o: Order| !unsupported.contains(o.sell_token) && !unsupported.contains(o.buy_token)
}

fn contains(v: &Vec<Address>, a: &Address) -> (r: bool)
    ensures
        r == v@.contains(*a),
{
    let mut i: usize = 0;
    while i < v.len()
        invariant
            i <= v@.len(),
            forall|j: int| 0 <= j < i ==> v@[j] != *a,
        decreases v@.len() - i,
    {
        if v[i] == *a {
            return true;
        }
        i = i + 1;
    }
    false
}

/// Removes the orders whose owner is banned, keeping the others in order.
pub fn filter_banned_user_orders(orders: Vec<Order>, banned_users: &Vec<Address>) -> (r: Vec<
    Order,
>)
    ensures
        r@ == orders@.filter(not_owned_by(banned_users@)),
{
    let mut kept: Vec<Order> = Vec::new();
    let mut i: usize = 0;
    proof {
        reveal(Seq::filter);
        assert(orders@.take(0).filter(not_owned_by(banned_users@)) =~= Seq::<Order>::empty());
    }
    while i < orders.len()
        invariant
            i <= orders@.len(),
            kept@ == orders@.take(i as int).filter(not_owned_by(banned_users@)),
        decreases orders@.len() - i,
    {
        let o = orders[i];
        proof {
            assert(orders@.take(i + 1) =~= orders@.take(i as int).push(o));
            orders@.take(i as int).lemma_filter_push(o, not_owned_by(banned_users@));
        }
        if !contains(banned_users, &o.owner) {
            kept.push(o);
        }
        i = i + 1;
    }
    proof {
        assert(orders@.take(i as int) =~= orders@);
    }
    kept
}

/// Removes the orders that sell or buy a token found unsupported, keeping the
/// others in order.
pub fn filter_unsupported_tokens(orders: Vec<Order>, unsupported: &Vec<Address>) -> (r: Vec<
    Order,
>)
    ensures
        r@ == orders@.filter(trades_supported(unsupported@)),
{
    let mut kept: Vec<Order> = Vec::new();
    let mut i: usize = 0;
    proof {
        reveal(Seq::filter);
        assert(orders@.take(0).filter(trades_supported(unsupported@)) =~= Seq::<Order>::empty());
    }
    while i < orders.len()
        invariant
            i <= orders@.len(),
            kept@ == orders@.take(i as int).filter(trades_supported(unsupported@)),
        decreases orders@.len() - i,
    {
        let o = orders[i];
        proof {
            assert(orders@.take(i + 1) =~= orders@.take(i as int).push(o));
            orders@.take(i as int).lemma_filter_push(o, trades_supported(unsupported@));
        }
        if !contains(unsupported, &o.sell_token) && !contains(unsupported, &o.buy_token) {
            kept.push(o);
        }
        i = i + 1;
    }
    proof {
        assert(orders@.take(i as int) =~= orders@);
    }
    kept
}

/// The earliest expiry an order may have to be loaded: `now` plus the
/// minimum validity, capped at the largest timestamp.
pub fn min_valid_to(now: u32, min_validity_secs: u64) -> (r: u32)
    ensures
        r == (if now + min_validity_secs <= u32::MAX {
            now + min_validity_secs
        } else {
            u32::MAX as int
        }),
{
    let room = (u32::MAX - now) as u64;
    if min_validity_secs <= room {
        now + min_validity_secs as u32
    } else {
        u32::MAX
    }
}

} // verus!
