//! The reaper: the periodic sweep that drops peers that fell silent
//! without taking their leave.

use crate::registry::{surviving, PeerRegistry};
use vstd::prelude::*;

verus! {

/// Seconds between two sweeps.
pub const CLEANUP_INTERVAL_SECS: u64 = 60;

/// Seconds of silence after which a peer is dropped.
pub const PEER_TIMEOUT_SECS: u64 = 90;

/// The reaper of one membership table.
#[derive(Debug)]
pub struct GossipService {
    timeout_seconds: u64,
}

impl GossipService {
    /// The silence after which this reaper drops a peer.
    pub closed spec fn spec_timeout(&self) -> u64 {
        self.timeout_seconds
    }

    /// A reaper with the usual timeout.
    pub fn new() -> (service: Self)
        ensures
            service.spec_timeout() == PEER_TIMEOUT_SECS,
    {
        GossipService { timeout_seconds: PEER_TIMEOUT_SECS }
    }

    /// A reaper with a timeout of its own.
    pub fn with_timeout(timeout_seconds: u64) -> (service: Self)
        ensures
            service.spec_timeout() == timeout_seconds,
    {
        GossipService { timeout_seconds }
    }

    /// One sweep at the given instant: every entry that is stale then is
    /// deleted, and nothing else changes.
    pub fn sweep_at(&self, registry: &mut PeerRegistry, now: (i64, u32))
        ensures
            final(registry)@ == surviving(old(registry)@, now, self.spec_timeout()),
            final(registry).spec_local_node_id() == old(registry).spec_local_node_id(),
    {
        registry.cleanup_stale_nodes_at(now, self.timeout_seconds);
    }

    /// One sweep at the present moment.
    pub fn sweep(&self, registry: &mut PeerRegistry)
        ensures
            exists|now: (i64, u32)|
                final(registry)@ == surviving(old(registry)@, now, self.spec_timeout()),
            final(registry).spec_local_node_id() == old(registry).spec_local_node_id(),
    {
        let ghost before = registry@;
        registry.cleanup_stale_nodes(self.timeout_seconds);
        proof {
            let now = choose|now: (i64, u32)|
                registry@ == surviving(before, now, self.timeout_seconds);
            assert(registry@ == surviving(before, now, self.spec_timeout()));
        }
    }
}

} // verus!
