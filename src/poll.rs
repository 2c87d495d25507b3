//! The decisions of the poll loop: fetch a block only when the node's
//! latest block number differs from the last block shown.
use vstd::prelude::*;

verus! {

/// What the poll loop remembers between polls.
pub struct Poller {
    /// The number of the last block fetched and shown; zero before any.
    pub last_seen: u64,
}

/// Whether a poll that reports `latest` leads to fetching that block.
pub open spec fn wants_block(p: Poller, latest: u64) -> bool {
    latest != p.last_seen
}

impl Poller {
    pub fn new() -> (r: Poller)
        ensures
            r.last_seen == 0,
    {
        Poller { last_seen: 0 }
    }

    /// Decides, for a poll that reports `latest`, whether to fetch it.
    pub fn should_fetch(&self, latest: u64) -> (r: bool)
        ensures
            r == wants_block(*self, latest),
    {
        latest != self.last_seen
    }

    /// Records that block `n` was fetched and shown. A failed fetch is not
    /// recorded, so the next poll tries again.
    pub fn record_shown(&mut self, n: u64)
        ensures
            final(self).last_seen == n,
    {
        self.last_seen = n;
    }
}

/// Once block `n` is shown, a later poll that reports `n` again fetches
/// nothing: an unchanged height is a no-op.
pub proof fn lemma_unchanged_height_no_refetch(p: Poller, n: u64)
    ensures
        !wants_block(Poller { last_seen: n }, n),
        p.last_seen != n ==> wants_block(p, n),
{
}

} // verus!
