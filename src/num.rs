//! 256-bit unsigned amounts, held as four 64-bit words.
use vstd::prelude::*;

verus! {

/// 2^64.
pub open spec fn word_base() -> nat {
    0x1_0000_0000_0000_0000nat
}

/// 2^256: one more than the largest amount.
pub open spec fn u256_bound() -> nat {
    0x1_0000_0000_0000_0000_0000_0000_0000_0000_0000_0000_0000_0000_0000_0000_0000_0000nat
}

/// An unsigned 256-bit integer, in little-endian 64-bit words (`w0` is the
/// least significant).
#[derive(Clone, Copy, Debug, PartialEq, Eq, Structural)]
pub struct U256 {
    pub w0: u64,
    pub w1: u64,
    pub w2: u64,
    pub w3: u64,
}

impl U256 {
    /// The number that the four words spell.
    pub open spec fn value(self) -> nat {
        self.w0 as nat + self.w1 as nat * word_base() + self.w2 as nat * word_base() * word_base()
            + self.w3 as nat * word_base() * word_base() * word_base()
    }

    pub proof fn lemma_value_bounded(self)
        ensures
            self.value() < u256_bound(),
    {
        assert(word_base() * word_base() == 0x1_0000_0000_0000_0000_0000_0000_0000_0000nat);
        assert(word_base() * word_base() * word_base()
            == 0x1_0000_0000_0000_0000_0000_0000_0000_0000_0000_0000_0000_0000nat);
    }

    pub fn zero() -> (r: U256)
        ensures
            r.value() == 0,
    {
        U256 { w0: 0, w1: 0, w2: 0, w3: 0 }
    }

    pub fn from_u64(v: u64) -> (r: U256)
        ensures
            r.value() == v,
    {
        U256 { w0: v, w1: 0, w2: 0, w3: 0 }
    }

    pub fn from_u128(v: u128) -> (r: U256)
        ensures
            r.value() == v,
    {
        let lo = (v % 0x1_0000_0000_0000_0000) as u64;
        let hi = (v / 0x1_0000_0000_0000_0000) as u64;
        U256 { w0: lo, w1: hi, w2: 0, w3: 0 }
    }

    /// 2^256 - 1.
    pub fn max_value() -> (r: U256)
        ensures
            r.value() == u256_bound() - 1,
    {
        let m = u64::MAX;
        let r = U256 { w0: m, w1: m, w2: m, w3: m };
        assert(word_base() * word_base() == 0x1_0000_0000_0000_0000_0000_0000_0000_0000nat);
        assert(word_base() * word_base() * word_base()
            == 0x1_0000_0000_0000_0000_0000_0000_0000_0000_0000_0000_0000_0000nat);
        r
    }

    pub fn is_zero(&self) -> (r: bool)
        ensures
            r == (self.value() == 0),
    {
        self.w0 == 0 && self.w1 == 0 && self.w2 == 0 && self.w3 == 0
    }

    /// Relies on `primitive_types::U256::checked_add`: the sum, or `None`
    /// when it does not fit in 256 bits.
    #[verifier::external_body]
    pub(crate) fn checked_add(self, other: U256) -> (r: Option<U256>)
        ensures
            match r {
                Some(s) => self.value() + other.value() < u256_bound() && s.value() == self.value()
                    + other.value(),
                None => self.value() + other.value() >= u256_bound(),
            },
    {
        primitive_types::U256([self.w0, self.w1, self.w2, self.w3])
            .checked_add(primitive_types::U256([other.w0, other.w1, other.w2, other.w3]))
            .map(|s| U256 { w0: s.0[0], w1: s.0[1], w2: s.0[2], w3: s.0[3] })
    }

    /// Relies on `primitive_types::U256::checked_sub`: the difference, or
    /// `None` when `other` is the larger.
    #[verifier::external_body]
    pub(crate) fn checked_sub(self, other: U256) -> (r: Option<U256>)
        ensures
            match r {
                Some(d) => other.value() <= self.value() && d.value() == self.value()
                    - other.value(),
                None => self.value() < other.value(),
            },
    {
        primitive_types::U256([self.w0, self.w1, self.w2, self.w3])
            .checked_sub(primitive_types::U256([other.w0, other.w1, other.w2, other.w3]))
            .map(|d| U256 { w0: d.0[0], w1: d.0[1], w2: d.0[2], w3: d.0[3] })
    }

    /// Relies on `primitive_types::U256::checked_mul`: the product, or `None`
    /// when it does not fit in 256 bits.
    #[verifier::external_body]
    pub(crate) fn checked_mul(self, other: U256) -> (r: Option<U256>)
        ensures
            match r {
                Some(p) => self.value() * other.value() < u256_bound() && p.value() == self.value()
                    * other.value(),
                None => self.value() * other.value() >= u256_bound(),
            },
    {
        primitive_types::U256([self.w0, self.w1, self.w2, self.w3])
            .checked_mul(primitive_types::U256([other.w0, other.w1, other.w2, other.w3]))
            .map(|p| U256 { w0: p.0[0], w1: p.0[1], w2: p.0[2], w3: p.0[3] })
    }

    /// Relies on `primitive_types::U256::full_mul`: the exact 512-bit product,
    /// returned as its high and low 256-bit halves.
    #[verifier::external_body]
    pub(crate) fn full_mul(self, other: U256) -> (r: (U256, U256))
        ensures
            r.0.value() * u256_bound() + r.1.value() == self.value() * other.value(),
    {
        let p = primitive_types::U256([self.w0, self.w1, self.w2, self.w3]).full_mul(
            primitive_types::U256([other.w0, other.w1, other.w2, other.w3]),
        );
        (
            U256 { w0: p.0[4], w1: p.0[5], w2: p.0[6], w3: p.0[7] },
            U256 { w0: p.0[0], w1: p.0[1], w2: p.0[2], w3: p.0[3] },
        )
    }

    /// Relies on `primitive_types::U512::checked_div` and on the conversion
    /// `TryFrom<U512> for U256`: the 512-bit number `hi * 2^256 + lo` divided
    /// by `divisor`, rounded down, or `None` when `divisor` is zero or the
    /// quotient does not fit in 256 bits.
    #[verifier::external_body]
    pub(crate) fn wide_div(hi: U256, lo: U256, divisor: U256) -> (r: Option<U256>)
        ensures
            match r {
                Some(q) => divisor.value() != 0 && q.value() == (hi.value() * u256_bound()
                    + lo.value()) / divisor.value(),
                None => divisor.value() == 0 || (hi.value() * u256_bound() + lo.value())
                    / divisor.value() >= u256_bound(),
            },
    {
        let n = primitive_types::U512(
            [lo.w0, lo.w1, lo.w2, lo.w3, hi.w0, hi.w1, hi.w2, hi.w3],
        );
        let d = primitive_types::U512::from(
            primitive_types::U256([divisor.w0, divisor.w1, divisor.w2, divisor.w3]),
        );
        let q = n.checked_div(d)?;
        let q = primitive_types::U256::try_from(q).ok()?;
        Some(U256 { w0: q.0[0], w1: q.0[1], w2: q.0[2], w3: q.0[3] })
    }
}

} // verus!
