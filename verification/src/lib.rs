//! Verified core of a peer-to-peer transport eventloop.
//!
//! The library models the state of a transport loop — subscriptions,
//! per-topic sequence numbers, pending and ongoing dials, buffered
//! messages, DHT lookups and per-peer connections — over plain values,
//! and verifies the decisions the loop makes on every event. The
//! asynchronous swarm itself is driven by an unverified shell that
//! feeds events in and carries the returned actions out.

use vstd::prelude::*;

pub mod codec;
pub mod gossip;
pub mod laws;
pub mod queries;
pub mod strmap;
pub mod transport;
pub mod worker;

verus! {

/// Established connections a single peer may hold at once; excess
/// connections are closed, oldest first.
pub const MAX_CONNS_PER_PEER: usize = 2;

/// A command to change the set of gossip topics the transport listens on.
#[derive(Debug, Clone)]
pub struct Subscription {
    pub topic: String,
    pub subscribed: bool,
    pub allow_unordered: bool,
}

} // verus!
