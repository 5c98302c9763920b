//! Where a refresh reports what it produced.
use vstd::prelude::*;

verus! {

/// A sink told once per published auction how it came about.
pub trait AuctionMetrics {
    /// `solvable_orders` made it into the auction, `filtered_orders` were left
    /// out for want of a price, `errored_estimates` price lookups failed, and
    /// `timeout` says whether price collection hit its deadline.
    fn auction_updated(
        &self,
        solvable_orders: u64,
        filtered_orders: u64,
        errored_estimates: u64,
        timeout: bool,
    );
}

/// A sink that ignores every report.
#[derive(Clone, Copy, Debug, Default)]
pub struct NoopMetrics {}

impl AuctionMetrics for NoopMetrics {
    fn auction_updated(
        &self,
        _solvable_orders: u64,
        _filtered_orders: u64,
        _errored_estimates: u64,
        _timeout: bool,
    ) {
    }
}

} // verus!
