//! The decisions of the refresh loop: when to wake, when to fetch and when to
//! stop. Whoever runs the loop performs the waiting, the block reads and the
//! refreshes, and hands each outcome back here.
use vstd::prelude::*;

verus! {

#[derive(Clone, Copy, Debug, PartialEq, Eq, Structural)]
pub enum Phase {
    /// Between two iterations.
    Idle,
    /// Waiting for the periodic tick or an update request.
    Waiting,
    /// Woken; the current block is to be read.
    ReadingBlock,
    /// A refresh at a known block is running.
    Fetching,
    /// Nobody holds the cache any more: the loop has ended.
    Stopped,
}

/// The state of the refresh loop. An update request is a single flag: any
/// number of requests made before the loop next wakes count as one.
#[derive(Clone, Copy, Debug, PartialEq, Eq, Structural)]
pub struct RefreshLoop {
    pub phase: Phase,
    pub update_requested: bool,
}

pub open spec fn after_start(s: RefreshLoop, cache_alive: bool) -> RefreshLoop {
    if s.phase == Phase::Idle {
        if cache_alive {
            RefreshLoop { phase: Phase::Waiting, ..s }
        } else {
            RefreshLoop { phase: Phase::Stopped, ..s }
        }
    } else {
        s
    }
}

pub open spec fn after_request(s: RefreshLoop) -> RefreshLoop {
    if s.phase == Phase::Stopped {
        s
    } else {
        RefreshLoop { update_requested: true, ..s }
    }
}

pub open spec fn wakes(s: RefreshLoop, tick: bool) -> bool {
    s.phase == Phase::Waiting && (tick || s.update_requested)
}

pub open spec fn after_wake(s: RefreshLoop, tick: bool) -> RefreshLoop {
    if wakes(s, tick) {
        RefreshLoop { phase: Phase::ReadingBlock, update_requested: false }
    } else {
        s
    }
}

pub open spec fn after_block(s: RefreshLoop, block: Option<u64>) -> RefreshLoop {
    if s.phase == Phase::ReadingBlock {
        match block {
            Some(_) => RefreshLoop { phase: Phase::Fetching, ..s },
            None => RefreshLoop { phase: Phase::Idle, ..s },
        }
    } else {
        s
    }
}

pub open spec fn after_finish(s: RefreshLoop) -> RefreshLoop {
    if s.phase == Phase::Fetching {
        RefreshLoop { phase: Phase::Idle, ..s }
    } else {
        s
    }
}

/// `n` update requests in a row.
pub open spec fn after_requests(s: RefreshLoop, n: nat) -> RefreshLoop
    decreases n,
{
    if n == 0 {
        s
    } else {
        after_request(after_requests(s, (n - 1) as nat))
    }
}

impl RefreshLoop {
    pub fn new() -> (r: RefreshLoop)
        ensures
            r.phase == Phase::Idle,
            !r.update_requested,
    {
        RefreshLoop { phase: Phase::Idle, update_requested: false }
    }

    /// Begins an iteration: the loop goes on waiting while the cache is held
    /// and stops for good once it is not. Returns whether the loop goes on.
    pub fn start(&mut self, cache_alive: bool) -> (r: bool)
        ensures
            *final(self) == after_start(*old(self), cache_alive),
            r == (final(self).phase != Phase::Stopped),
    {
        if let Phase::Idle = self.phase {
            if cache_alive {
                self.phase = Phase::Waiting;
            } else {
                self.phase = Phase::Stopped;
            }
        }
        match self.phase {
            Phase::Stopped => false,
            _ => true,
        }
    }

    /// Records a request for an update.
    pub fn request_update(&mut self)
        ensures
            *final(self) == after_request(*old(self)),
    {
        if let Phase::Stopped = self.phase {
        } else {
            self.update_requested = true;
        }
    }

    /// Called when the wait ends, by the periodic tick (`tick`) or by a
    /// request. Returns whether the loop wakes; a wake-up consumes the
    /// pending request.
    pub fn wake(&mut self, tick: bool) -> (r: bool)
        ensures
            r == wakes(*old(self), tick),
            *final(self) == after_wake(*old(self), tick),
    {
        if let Phase::Waiting = self.phase {
            if tick || self.update_requested {
                self.phase = Phase::ReadingBlock;
                self.update_requested = false;
                return true;
            }
        }
        false
    }

    /// Takes in the block just read: with a block the refresh runs at it
    /// (the returned block); without one the iteration ends.
    pub fn block_read(&mut self, block: Option<u64>) -> (r: Option<u64>)
        ensures
            *final(self) == after_block(*old(self), block),
            r == (if old(self).phase == Phase::ReadingBlock {
                block
            } else {
                None
            }),
    {
        if let Phase::ReadingBlock = self.phase {
            match block {
                Some(_) => {
                    self.phase = Phase::Fetching;
                },
                None => {
                    self.phase = Phase::Idle;
                },
            }
            block
        } else {
            None
        }
    }

    /// The refresh ended, published or failed; the iteration is over.
    pub fn finish(&mut self)
        ensures
            *final(self) == after_finish(*old(self)),
    {
        if let Phase::Fetching = self.phase {
            self.phase = Phase::Idle;
        }
    }
}

/// Coalesced wake-ups: any number of update requests made while the loop
/// waits wake it once, and once that refresh is over the loop waits for the
/// next tick or request.
pub proof fn lemma_coalesced_wakeups(s: RefreshLoop, n: nat, block: u64)
    requires
        s.phase == Phase::Waiting,
        n >= 1,
    ensures
        wakes(after_requests(s, n), false),
        after_block(after_wake(after_requests(s, n), false), Some(block)).phase == Phase::Fetching,
        !wakes(
            after_start(
                after_finish(after_block(after_wake(after_requests(s, n), false), Some(block))),
                true,
            ),
            false,
        ),
{
    lemma_requests_keep_phase(s, n);
}

proof fn lemma_requests_keep_phase(s: RefreshLoop, n: nat)
    ensures
        after_requests(s, n).phase == s.phase,
        n >= 1 && s.phase != Phase::Stopped ==> after_requests(s, n).update_requested,
    decreases n,
{
    if n > 0 {
        lemma_requests_keep_phase(s, (n - 1) as nat);
    }
}

/// Exit when the cache is dropped: an iteration that finds the cache gone
/// stops the loop, and a stopped loop neither wakes nor refreshes again.
pub proof fn lemma_stops_for_good(s: RefreshLoop, tick: bool, block: Option<u64>, n: nat)
    requires
        s.phase == Phase::Idle,
    ensures
        after_start(s, false).phase == Phase::Stopped,
        !wakes(after_requests(after_start(s, false), n), tick),
        after_block(after_start(s, false), block).phase == Phase::Stopped,
        after_finish(after_start(s, false)).phase == Phase::Stopped,
        after_start(after_start(s, false), true).phase == Phase::Stopped,
{
    lemma_requests_keep_phase(after_start(s, false), n);
}

} // verus!
