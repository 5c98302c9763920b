//! Orders and the identities they carry.
use crate::num::U256;
use vstd::prelude::*;

verus! {

/// A 20-byte account or token identity, as the big-endian number it spells:
/// `hi` holds the first sixteen bytes and `lo` the last four.
#[derive(Clone, Copy, Debug, PartialEq, Eq, Structural)]
pub struct Address {
    pub hi: u128,
    pub lo: u32,
}

impl Address {
    /// The order of identities: byte-wise, first byte most significant.
    pub open spec fn precedes(self, other: Address) -> bool {
        self.hi < other.hi || (self.hi == other.hi && self.lo < other.lo)
    }

    pub fn zero() -> (r: Address)
        ensures
            r.hi == 0 && r.lo == 0,
    {
        Address { hi: 0, lo: 0 }
    }

    /// The identity whose twenty bytes all equal `b`.
    pub fn repeat_byte(b: u8) -> (r: Address)
        ensures
            r.hi == b as u128 * 0x0101_0101_0101_0101_0101_0101_0101_0101u128,
            r.lo == b as u32 * 0x0101_0101u32,
    {
        let hi = b as u128 * 0x0101_0101_0101_0101_0101_0101_0101_0101u128;
        let lo = b as u32 * 0x0101_0101u32;
        Address { hi, lo }
    }

    /// The identity whose last eight bytes are `v` in big-endian order and
    /// whose other bytes are zero.
    pub fn from_low_u64_be(v: u64) -> (r: Address)
        ensures
            r.hi * 0x1_0000_0000 + r.lo == v,
    {
        let hi = (v / 0x1_0000_0000) as u128;
        let lo = (v % 0x1_0000_0000) as u32;
        Address { hi, lo }
    }

    pub fn lt(&self, other: &Address) -> (r: bool)
        ensures
            r == self.precedes(*other),
    {
        self.hi < other.hi || (self.hi == other.hi && self.lo < other.lo)
    }
}

/// The opaque 56-byte identifier of an order, as four big-endian words: `w0`
/// holds the first sixteen bytes, `w1` and `w2` the next thirty-two, `w3` the
/// last eight.
#[derive(Clone, Copy, Debug, PartialEq, Eq, Structural)]
pub struct OrderUid {
    pub w0: u128,
    pub w1: u128,
    pub w2: u128,
    pub w3: u64,
}

impl OrderUid {
    /// Byte-wise order of identifiers.
    pub open spec fn precedes(self, other: OrderUid) -> bool {
        ||| self.w0 < other.w0
        ||| (self.w0 == other.w0 && self.w1 < other.w1)
        ||| (self.w0 == other.w0 && self.w1 == other.w1 && self.w2 < other.w2)
        ||| (self.w0 == other.w0 && self.w1 == other.w1 && self.w2 == other.w2 && self.w3
            < other.w3)
    }

    pub fn zero() -> (r: OrderUid)
        ensures
            r.w0 == 0 && r.w1 == 0 && r.w2 == 0 && r.w3 == 0,
    {
        OrderUid { w0: 0, w1: 0, w2: 0, w3: 0 }
    }

    pub fn lt(&self, other: &OrderUid) -> (r: bool)
        ensures
            r == self.precedes(*other),
    {
        if self.w0 != other.w0 {
            self.w0 < other.w0
        } else if self.w1 != other.w1 {
            self.w1 < other.w1
        } else if self.w2 != other.w2 {
            self.w2 < other.w2
        } else {
            self.w3 < other.w3
        }
    }
}

#[derive(Clone, Copy, Debug, PartialEq, Eq, Structural)]
pub enum OrderKind {
    Buy,
    Sell,
}

/// Where the owner's sell-token balance is held.
#[derive(Clone, Copy, Debug, PartialEq, Eq, Structural)]
pub enum SellTokenSource {
    Erc20,
    External,
    Internal,
}

/// A trade intent together with what is known of its execution so far.
#[derive(Clone, Copy, Debug, PartialEq, Eq, Structural)]
pub struct Order {
    pub uid: OrderUid,
    pub owner: Address,
    pub sell_token: Address,
    pub buy_token: Address,
    pub sell_amount: U256,
    pub buy_amount: U256,
    pub fee_amount: U256,
    pub kind: OrderKind,
    pub partially_fillable: bool,
    pub executed_sell_amount: U256,
    pub executed_buy_amount: U256,
    pub sell_token_source: SellTokenSource,
    /// Creation time in milliseconds since the Unix epoch.
    pub creation_date: i64,
    /// Unix-epoch second at which the order expires.
    pub valid_to: u32,
    /// The owner's balance for this order's pool, once known.
    pub available_balance: Option<U256>,
}

impl Default for Order {
    /// An order whose identities, amounts and dates are all zero: a fill-or-kill
    /// buy order drawing on an ERC-20 balance.
    fn default() -> (r: Order)
        ensures
            r.uid == (OrderUid { w0: 0, w1: 0, w2: 0, w3: 0 }),
            r.owner == (Address { hi: 0, lo: 0 }),
            r.sell_token == (Address { hi: 0, lo: 0 }),
            r.buy_token == (Address { hi: 0, lo: 0 }),
            r.sell_amount.value() == 0,
            r.buy_amount.value() == 0,
            r.fee_amount.value() == 0,
            r.kind == OrderKind::Buy,
            !r.partially_fillable,
            r.executed_sell_amount.value() == 0,
            r.executed_buy_amount.value() == 0,
            r.sell_token_source == SellTokenSource::Erc20,
            r.creation_date == 0,
            r.valid_to == 0,
            (r.available_balance is None),
    {
        Order {
            uid: OrderUid::zero(),
            owner: Address::zero(),
            sell_token: Address::zero(),
            buy_token: Address::zero(),
            sell_amount: U256::zero(),
            buy_amount: U256::zero(),
            fee_amount: U256::zero(),
            kind: OrderKind::Buy,
            partially_fillable: false,
            executed_sell_amount: U256::zero(),
            executed_buy_amount: U256::zero(),
            sell_token_source: SellTokenSource::Erc20,
            creation_date: 0,
            valid_to: 0,
            available_balance: None,
        }
    }
}

/// The key of a spendable balance pool: orders that share it compete for the
/// same funds.
#[derive(Clone, Copy, Debug, PartialEq, Eq, Structural)]
pub struct Query {
    pub owner: Address,
    pub token: Address,
    pub source: SellTokenSource,
}

/// The pool that an order draws on.
pub open spec fn query_of(o: Order) -> Query {
    Query { owner: o.owner, token: o.sell_token, source: o.sell_token_source }
}

impl Query {
    pub fn from_order(o: &Order) -> (r: Query)
        ensures
            r == query_of(*o),
    {
        Query { owner: o.owner, token: o.sell_token, source: o.sell_token_source }
    }
}

} // verus!
