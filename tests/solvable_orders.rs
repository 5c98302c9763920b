use orderbook::allocation::{
    allocate_orders, max_transfer_out_amount, solvable_orders, ArithmeticOverflow,
};
use orderbook::auction::{get_orders_with_native_prices, traded_tokens, PriceCollector, PriceEstimate};
use orderbook::balances::Balances;
use orderbook::cache::{add_fetched_balances, new_balances, CacheState};
use orderbook::filters::{filter_banned_user_orders, filter_unsupported_tokens, min_valid_to};
use orderbook::metrics::NoopMetrics;
use orderbook::model::{Address, Order, OrderKind, OrderUid, Query, SellTokenSource};
use orderbook::num::U256;
use orderbook::prices::Prices;

fn amount(v: u64) -> U256 {
    U256::from_u64(v)
}

fn eth(v: u128) -> U256 {
    U256::from_u128(v)
}

fn simple_order(sell_token: Address, buy_token: Address) -> Order {
    Order {
        sell_token,
        buy_token,
        sell_amount: amount(1),
        buy_amount: amount(1),
        ..Default::default()
    }
}

/// Runs one refresh over `orders` at `block`, with `fetched` standing for the
/// balance oracle's answers, and returns the pools that were asked for.
fn refresh(
    state: &mut CacheState,
    block: u64,
    orders: Vec<Order>,
    fetched: Vec<Option<U256>>,
    now: u64,
) -> Vec<Query> {
    let known = state.balances_for_block(block);
    let (mut balances, missing) = new_balances(&known, &orders);
    add_fetched_balances(&mut balances, &missing, &fetched);
    let orders = allocate_orders(orders, &balances);
    let tokens = traded_tokens(&orders);
    let mut collector = PriceCollector::new(tokens);
    for i in 0..collector.tokens.len() {
        collector.record(i, PriceEstimate::Price(eth(1_000_000_000_000_000_000)));
    }
    let (orders, prices) = get_orders_with_native_prices(
        orders,
        &collector.prices,
        collector.errored_estimates,
        false,
        &NoopMetrics {},
    );
    state.publish(block, 0, orders, prices, balances, now);
    missing
}

#[test]
fn filters_insufficient_balances() {
    let mut orders = vec![
        Order {
            sell_amount: amount(3),
            fee_amount: amount(3),
            creation_date: 2_000,
            ..Default::default()
        },
        Order {
            sell_amount: amount(2),
            fee_amount: amount(2),
            creation_date: 0,
            ..Default::default()
        },
    ];
    let mut balances = Balances::new();
    balances.insert(Query::from_order(&orders[0]), amount(9));
    let orders_ = solvable_orders(orders.clone(), &balances);
    // The second order is older, so it is not picked.
    assert_eq!(orders_, orders[..1]);
    orders[1].creation_date = 3_000;
    let orders_ = solvable_orders(orders.clone(), &balances);
    assert_eq!(orders_, orders[1..]);
}

#[test]
fn caches_orders_and_balances() {
    let owner = Address::from_low_u64_be(0);
    let sell_token_0 = Address::from_low_u64_be(1);
    let sell_token_1 = Address::from_low_u64_be(2);
    let orders = [
        Order {
            sell_token: sell_token_0,
            sell_token_source: SellTokenSource::Erc20,
            sell_amount: amount(1),
            buy_amount: amount(1),
            owner,
            ..Default::default()
        },
        Order {
            sell_token: sell_token_1,
            sell_token_source: SellTokenSource::Erc20,
            sell_amount: amount(1),
            buy_amount: amount(1),
            owner,
            ..Default::default()
        },
    ];
    let mut cache = CacheState::new(0);

    let asked = refresh(&mut cache, 0, vec![orders[0]], vec![Some(amount(1))], 1);
    assert_eq!(asked, vec![Query::from_order(&orders[0])]);
    assert_eq!(cache.cached_balance(&Query::from_order(&orders[0])), Some(amount(1)));
    assert_eq!(cache.cached_balance(&Query::from_order(&orders[1])), None);
    let orders_ = cache.cached_solvable_orders().orders;
    assert_eq!(orders_.len(), 1);
    assert_eq!(orders_[0].available_balance, Some(amount(1)));
    let auction = cache.cached_auction().0;
    assert_eq!(auction.orders.len(), 1);

    let asked = refresh(&mut cache, 0, orders.to_vec(), vec![Some(amount(2))], 2);
    assert_eq!(asked, vec![Query::from_order(&orders[1])]);
    assert_eq!(cache.cached_balance(&Query::from_order(&orders[0])), Some(amount(1)));
    assert_eq!(cache.cached_balance(&Query::from_order(&orders[1])), Some(amount(2)));
    let orders_ = cache.cached_solvable_orders().orders;
    assert_eq!(orders_.len(), 2);
    let auction = cache.cached_auction().0;
    assert_eq!(auction.orders.len(), 2);

    let asked = refresh(&mut cache, 0, Vec::new(), Vec::new(), 3);
    assert!(asked.is_empty());
    assert_eq!(cache.cached_balance(&Query::from_order(&orders[0])), None);
    assert_eq!(cache.cached_balance(&Query::from_order(&orders[1])), None);
    let orders_ = cache.cached_solvable_orders().orders;
    assert_eq!(orders_.len(), 0);
    let auction = cache.cached_auction().0;
    assert_eq!(auction.orders.len(), 0);
    assert_eq!(auction.prices.len(), 0);
}

#[test]
fn filters_tokens_without_native_prices() {
    let token1 = Address::repeat_byte(1);
    let token2 = Address::repeat_byte(2);
    let token3 = Address::repeat_byte(3);
    let token4 = Address::repeat_byte(4);
    let orders = vec![
        simple_order(token1, token2),
        simple_order(token2, token3),
        simple_order(token1, token3),
        simple_order(token2, token4),
    ];
    let tokens = traded_tokens(&orders);
    assert_eq!(tokens, vec![token1, token2, token3, token4]);
    let mut collector = PriceCollector::new(tokens.clone());
    for (i, token) in tokens.iter().enumerate() {
        let estimate = if *token == token1 {
            PriceEstimate::Price(eth(2_000_000_000_000_000_000))
        } else if *token == token3 {
            PriceEstimate::Price(eth(250_000_000_000_000_000))
        } else if *token == token4 {
            // a price of zero has no usable fixed-point form
            PriceEstimate::Unusable
        } else {
            PriceEstimate::Error
        };
        collector.record(i, estimate);
    }
    assert_eq!(collector.errored_estimates, 1);

    let (filtered_orders, prices) = get_orders_with_native_prices(
        orders.clone(),
        &collector.prices,
        collector.errored_estimates,
        false,
        &NoopMetrics {},
    );
    assert_eq!(filtered_orders, [orders[2]]);
    assert_eq!(
        prices.to_vec(),
        vec![
            (token1, eth(2_000_000_000_000_000_000)),
            (token3, eth(250_000_000_000_000_000)),
        ]
    );
}

#[test]
fn computes_max_transfer_out_amount_for_order() {
    // For fill-or-kill orders, we don't overflow even for very large buy
    // orders (where `{sell,fee}_amount * buy_amount` would overflow).
    assert_eq!(
        max_transfer_out_amount(&Order {
            sell_amount: amount(1000),
            fee_amount: amount(337),
            buy_amount: U256::max_value(),
            kind: OrderKind::Buy,
            partially_fillable: false,
            ..Default::default()
        })
        .unwrap(),
        amount(1337),
    );

    // Partially filled order scales amount.
    assert_eq!(
        max_transfer_out_amount(&Order {
            sell_amount: amount(100),
            buy_amount: amount(10),
            fee_amount: amount(101),
            kind: OrderKind::Buy,
            partially_fillable: true,
            executed_buy_amount: amount(9),
            ..Default::default()
        })
        .unwrap(),
        amount(20),
    );
}

#[test]
fn max_transfer_out_amount_overflow() {
    // For fill-or-kill orders, overflow if the total sell and fee amount
    // overflows a uint. This kind of order cannot be filled by the
    // settlement contract anyway.
    assert!(max_transfer_out_amount(&Order {
        sell_amount: U256::max_value(),
        fee_amount: amount(1),
        partially_fillable: false,
        ..Default::default()
    })
    .is_err());

    // The fill ratio is applied on the exact product, so a product above
    // 256 bits is no overflow: nothing is executed, all 1337 are needed.
    assert_eq!(
        max_transfer_out_amount(&Order {
            sell_amount: amount(1000),
            fee_amount: amount(337),
            buy_amount: U256::max_value(),
            kind: OrderKind::Buy,
            partially_fillable: true,
            ..Default::default()
        }),
        Ok(amount(1337)),
    );
}

#[test]
fn scaling_uses_the_exact_wide_product() {
    let half = U256 { w0: 0, w1: 0, w2: 0, w3: 1 << 63 };
    let quarter = U256 { w0: 0, w1: 0, w2: 0, w3: 1 << 62 };
    // 2^255 * 2^254 / 2^255: the product needs 509 bits.
    let order = Order {
        kind: OrderKind::Sell,
        partially_fillable: true,
        sell_amount: half,
        buy_amount: amount(1),
        executed_sell_amount: quarter,
        ..Default::default()
    };
    assert_eq!(max_transfer_out_amount(&order), Ok(quarter));
}

#[test]
fn impossible_executions_are_errors() {
    let overfilled = Order {
        kind: OrderKind::Buy,
        partially_fillable: true,
        sell_amount: amount(10),
        buy_amount: amount(5),
        executed_buy_amount: amount(6),
        ..Default::default()
    };
    assert_eq!(max_transfer_out_amount(&overfilled), Err(ArithmeticOverflow {}));
    let no_limit = Order {
        kind: OrderKind::Buy,
        partially_fillable: true,
        sell_amount: amount(10),
        ..Default::default()
    };
    assert_eq!(max_transfer_out_amount(&no_limit), Err(ArithmeticOverflow {}));
}

#[test]
fn native_prices_uses_timeout() {
    let orders = vec![
        simple_order(Address::from_low_u64_be(0), Address::from_low_u64_be(1)),
        simple_order(Address::from_low_u64_be(2), Address::from_low_u64_be(3)),
    ];
    let tokens = traded_tokens(&orders);
    assert_eq!(tokens.len(), 4);
    let mut collector = PriceCollector::new(tokens);
    // The deadline passes after three of the four estimates came in.
    for i in 0..3 {
        collector.record(i, PriceEstimate::Price(eth(1_000_000_000_000_000_000)));
    }
    let (orders_, prices) = get_orders_with_native_prices(
        orders.clone(),
        &collector.prices,
        collector.errored_estimates,
        true,
        &NoopMetrics {},
    );
    assert_eq!(orders_.len(), 1);
    assert!(orders_[0] == orders[0] || orders_[0] == orders[1]);
    assert_eq!(prices.len(), 2);
    assert!(prices.contains_key(&orders_[0].sell_token));
    assert!(prices.contains_key(&orders_[0].buy_token));
}

#[test]
fn filters_banned_users() {
    let banned_users = vec![Address::repeat_byte(0xba), Address::repeat_byte(0xbb)];
    let orders: Vec<Order> = [
        Address::repeat_byte(1),
        Address::repeat_byte(1),
        Address::repeat_byte(0xba),
        Address::repeat_byte(2),
        Address::repeat_byte(0xba),
        Address::repeat_byte(0xbb),
        Address::repeat_byte(3),
    ]
    .into_iter()
    .map(|owner| Order {
        owner,
        buy_amount: amount(1),
        sell_amount: amount(1),
        ..Default::default()
    })
    .collect();

    let filtered_orders = filter_banned_user_orders(orders, &banned_users);
    let filtered_owners = filtered_orders
        .iter()
        .map(|order| order.owner)
        .collect::<Vec<_>>();
    assert_eq!(
        filtered_owners,
        [
            Address::repeat_byte(1),
            Address::repeat_byte(1),
            Address::repeat_byte(2),
            Address::repeat_byte(3)
        ],
    );
}

#[test]
fn filters_zero_amount_orders() {
    let orders = vec![
        // normal order with non zero amounts
        Order {
            buy_amount: amount(1),
            sell_amount: amount(1),
            ..Default::default()
        },
        // partially fillable order with remaining liquidity
        Order {
            partially_fillable: true,
            buy_amount: amount(1),
            sell_amount: amount(1),
            ..Default::default()
        },
        // normal order with zero amounts
        Order::default(),
        // partially fillable order completely filled
        Order {
            executed_buy_amount: amount(1),
            executed_sell_amount: amount(1),
            partially_fillable: true,
            buy_amount: amount(1),
            sell_amount: amount(1),
            ..Default::default()
        },
    ];

    let mut balances = Balances::new();
    balances.insert(Query::from_order(&orders[0]), U256::max_value());
    let expected_result = vec![orders[0], orders[1]];
    let mut filtered_orders = solvable_orders(orders, &balances);
    // Deal with `solvable_orders()` sorting the orders.
    filtered_orders.sort_by_key(|order| order.creation_date);
    assert_eq!(expected_result, filtered_orders);
}

#[test]
fn unknown_pool_admits_nothing() {
    let order = Order {
        sell_amount: amount(1),
        ..Default::default()
    };
    let balances = Balances::new();
    assert!(solvable_orders(vec![order], &balances).is_empty());
}

#[test]
fn skipped_order_does_not_stop_its_pool() {
    // Newest first: 5 fits, 4 does not fit in what is left, 1 still does.
    let orders = vec![
        Order { sell_amount: amount(1), creation_date: 1, ..Default::default() },
        Order { sell_amount: amount(4), creation_date: 2, ..Default::default() },
        Order { sell_amount: amount(5), creation_date: 3, ..Default::default() },
    ];
    let mut balances = Balances::new();
    balances.insert(Query::from_order(&orders[0]), amount(7));
    let admitted = solvable_orders(orders.clone(), &balances);
    assert_eq!(admitted, vec![orders[2], orders[0]]);
    let needed: u64 = admitted
        .iter()
        .map(|o| max_transfer_out_amount(o).unwrap().w0)
        .sum();
    assert!(needed <= 7);
}

#[test]
fn equal_creation_dates_break_ties_by_uid() {
    let first = OrderUid { w0: 0, w1: 0, w2: 0, w3: 1 };
    let second = OrderUid { w0: 0, w1: 0, w2: 0, w3: 2 };
    let orders = vec![
        Order { uid: second, sell_amount: amount(2), ..Default::default() },
        Order { uid: first, sell_amount: amount(2), ..Default::default() },
    ];
    let mut balances = Balances::new();
    balances.insert(Query::from_order(&orders[0]), amount(3));
    assert_eq!(solvable_orders(orders.clone(), &balances), vec![orders[1]]);
}

#[test]
fn separate_pools_do_not_share_balance() {
    let a = Order {
        sell_token: Address::repeat_byte(1),
        sell_amount: amount(5),
        ..Default::default()
    };
    let b = Order {
        sell_token: Address::repeat_byte(2),
        sell_amount: amount(5),
        ..Default::default()
    };
    let mut balances = Balances::new();
    balances.insert(Query::from_order(&a), amount(5));
    balances.insert(Query::from_order(&b), amount(5));
    assert_eq!(solvable_orders(vec![a, b], &balances).len(), 2);
}

#[test]
fn overflowing_order_is_excluded_and_others_kept() {
    let bad = Order {
        sell_amount: U256::max_value(),
        fee_amount: amount(1),
        creation_date: 10,
        ..Default::default()
    };
    let good = Order { sell_amount: amount(3), ..Default::default() };
    assert_eq!(max_transfer_out_amount(&bad), Err(ArithmeticOverflow {}));
    let mut balances = Balances::new();
    balances.insert(Query::from_order(&good), U256::max_value());
    assert_eq!(solvable_orders(vec![bad, good], &balances), vec![good]);
}

#[test]
fn partially_fillable_sell_order_scales_by_sell_amount() {
    let order = Order {
        kind: OrderKind::Sell,
        partially_fillable: true,
        sell_amount: amount(100),
        fee_amount: amount(10),
        buy_amount: amount(1),
        executed_sell_amount: amount(25),
        ..Default::default()
    };
    // (100 + 10) * 75 / 100 = 82.5, rounded down
    assert_eq!(max_transfer_out_amount(&order), Ok(amount(82)));
    let overfilled = Order { executed_sell_amount: amount(101), ..order };
    assert!(max_transfer_out_amount(&overfilled).is_err());
}

#[test]
fn available_balance_is_the_pool_balance_before_allocation() {
    let orders = vec![
        Order { sell_amount: amount(2), creation_date: 2, ..Default::default() },
        Order { sell_amount: amount(3), creation_date: 1, ..Default::default() },
    ];
    let mut balances = Balances::new();
    balances.insert(Query::from_order(&orders[0]), amount(10));
    let admitted = allocate_orders(orders, &balances);
    assert_eq!(admitted.len(), 2);
    assert!(admitted.iter().all(|o| o.available_balance == Some(amount(10))));
}

#[test]
fn balances_are_reused_only_at_the_same_block() {
    let order = Order { sell_amount: amount(1), ..Default::default() };
    let mut cache = CacheState::new(0);
    let asked = refresh(&mut cache, 5, vec![order], vec![Some(amount(4))], 10);
    assert_eq!(asked.len(), 1);
    let asked = refresh(&mut cache, 5, vec![order], Vec::new(), 11);
    assert!(asked.is_empty());
    assert_eq!(cache.cached_balance(&Query::from_order(&order)), Some(amount(4)));
    let asked = refresh(&mut cache, 6, vec![order], vec![None], 12);
    assert_eq!(asked.len(), 1);
    // The fetch failed, so the pool is unknown and its order drops out.
    assert_eq!(cache.cached_balance(&Query::from_order(&order)), None);
    assert!(cache.cached_solvable_orders().orders.is_empty());
}

#[test]
fn update_time_never_goes_back() {
    let mut cache = CacheState::new(100);
    refresh(&mut cache, 1, Vec::new(), Vec::new(), 50);
    assert_eq!(cache.cached_solvable_orders().update_time, 100);
    refresh(&mut cache, 2, Vec::new(), Vec::new(), 150);
    assert_eq!(cache.cached_auction().1, 150);
    assert_eq!(cache.cached_auction().0.block, 2);
}

#[test]
fn snapshot_prices_cover_exactly_the_orders() {
    let t = Address::repeat_byte;
    let orders = vec![simple_order(t(1), t(2)), simple_order(t(3), t(4))];
    let mut prices = Prices::new();
    for b in [5u8, 4, 3, 2, 1] {
        prices.insert(t(b), eth(b as u128));
    }
    assert_eq!(prices.len(), 5);
    let (kept, used) =
        get_orders_with_native_prices(orders.clone(), &prices, 0, false, &NoopMetrics {});
    assert_eq!(kept, orders);
    assert_eq!(
        used.to_vec(),
        vec![(t(1), eth(1)), (t(2), eth(2)), (t(3), eth(3)), (t(4), eth(4))]
    );
}

#[test]
fn later_price_for_a_token_replaces_the_earlier() {
    let token = Address::repeat_byte(7);
    let mut collector = PriceCollector::new(vec![token]);
    collector.record(0, PriceEstimate::Price(eth(1)));
    collector.record(0, PriceEstimate::Price(eth(2)));
    collector.record(0, PriceEstimate::Unusable);
    assert_eq!(collector.prices.get(&token), Some(eth(2)));
    assert_eq!(collector.errored_estimates, 0);
}

#[test]
fn filters_orders_with_unsupported_tokens() {
    let t = Address::repeat_byte;
    let orders = vec![simple_order(t(1), t(2)), simple_order(t(3), t(1)), simple_order(t(2), t(3))];
    let kept = filter_unsupported_tokens(orders.clone(), &vec![t(1)]);
    assert_eq!(kept, vec![orders[2]]);
}

#[test]
fn min_valid_to_adds_validity_and_saturates() {
    assert_eq!(min_valid_to(1_000, 60), 1_060);
    assert_eq!(min_valid_to(u32::MAX - 10, 60), u32::MAX);
}

#[test]
fn addresses_are_built_from_bytes() {
    let a = Address::repeat_byte(0xba);
    assert_eq!(a.hi, 0xbaba_baba_baba_baba_baba_baba_baba_baba);
    assert_eq!(a.lo, 0xbaba_baba);
    let b = Address::from_low_u64_be(0x0102_0304_0506_0708);
    assert_eq!(b.hi, 0x0102_0304);
    assert_eq!(b.lo, 0x0506_0708);
    assert!(Address::from_low_u64_be(1).lt(&Address::from_low_u64_be(2)));
}

#[test]
fn large_amounts_use_all_words() {
    let v = U256::from_u128(u128::MAX);
    assert_eq!(v.w0, u64::MAX);
    assert_eq!(v.w1, u64::MAX);
    assert_eq!(v.w2, 0);
    // (2^128 - 1) + (2^128 - 1) needs the third word.
    let order = Order { sell_amount: v, fee_amount: v, ..Default::default() };
    let sum = max_transfer_out_amount(&order).unwrap();
    assert_eq!(sum, U256 { w0: u64::MAX - 1, w1: u64::MAX, w2: 1, w3: 0 });
}

#[test]
fn newer_order_wins_its_pool_whatever_else_is_served() {
    let other = Order {
        sell_token: Address::repeat_byte(9),
        sell_amount: amount(50),
        creation_date: 5,
        ..Default::default()
    };
    let older = Order { sell_amount: amount(4), creation_date: 1, ..Default::default() };
    let newer = Order { sell_amount: amount(6), creation_date: 2, ..Default::default() };
    let mut balances = Balances::new();
    balances.insert(Query::from_order(&older), amount(9));
    balances.insert(Query::from_order(&other), amount(50));
    for orders in [vec![older, other, newer], vec![newer, older, other], vec![other, older, newer]] {
        let admitted = solvable_orders(orders, &balances);
        assert!(admitted.contains(&newer));
        assert!(!admitted.contains(&older));
        assert!(admitted.contains(&other));
    }
}
