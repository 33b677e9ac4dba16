//! The transport eventloop's state and decisions.
//!
//! The eventloop owns per-peer and per-topic bookkeeping: which topics are
//! subscribed and with which ordering rule, the last accepted sequence
//! number per (topic, source), which dials are waiting on an address
//! lookup, which are in flight, which messages are buffered for a peer
//! still being resolved, and which connections are established. Every
//! decision the loop takes — accept or reject a gossip message, resolve a
//! dial waiter, flush or drop buffered messages, close an excess
//! connection — is made here, over plain values, and returned as a list of
//! [`Action`]s for the unverified shell to carry out against the swarm.
//!
//! Peers, connections, DHT queries and dial waiters are identified by
//! 64-bit values; the shell keeps the correspondence with the swarm's own
//! identifiers.

use std::collections::HashMap;
use vstd::prelude::*;

use crate::gossip::topic_hash;
use crate::gossip::topic_hash_of;
use crate::queries::query_map_contains_left;
use crate::queries::query_map_contents;
use crate::queries::query_map_get_by_right;
use crate::queries::query_map_insert;
use crate::queries::query_map_new;
use crate::queries::query_map_remove_by_left;
use crate::queries::query_map_remove_by_right;
use crate::queries::PeerQueryBimap;
use crate::strmap::StrMap;
use crate::Subscription;
use crate::MAX_CONNS_PER_PEER;

verus! {

broadcast use vstd::std_specs::hash::group_hash_axioms;

/// An outbound message: exactly one of `peer_id` (unicast) and `topic`
/// (broadcast) should be set.
pub struct Message {
    pub peer_id: Option<u64>,
    pub topic: Option<String>,
    pub content: Vec<u8>,
}

/// A topic registration: its canonical name and whether the per-source
/// sequence check is suppressed.
pub struct TopicInfo {
    pub name: String,
    pub allow_unordered: bool,
}

/// What the shell must do against the swarm after a decision.
pub enum Action {
    /// Resolve a dial waiter with the dial's outcome.
    Resolve { waiter: u64, result: bool },
    /// Send a buffered payload to a now-reachable peer over request/response.
    SendMsg { peer: u64, payload: Vec<u8> },
    /// Publish a payload under a topic.
    Publish { topic: String, payload: Vec<u8> },
    /// Subscribe the gossip behaviour to a topic.
    GossipSubscribe { topic: String },
    /// Unsubscribe the gossip behaviour from a topic.
    GossipUnsubscribe { topic: String },
    /// Start a closest-peers DHT query for a peer, then register it.
    LookupPeer { peer: u64 },
    /// Dial a peer again on behalf of a waiter that was parked.
    DialPeer { peer: u64, waiter: u64 },
    /// Close an excess connection.
    CloseConnection { conn: u64 },
}

/// What the swarm said when a dial was attempted.
pub enum DialOutcome {
    /// The dial was admitted; events for this connection id will follow.
    Started { conn: u64 },
    /// The dial condition failed: the peer is already connected.
    AlreadyConnected,
    /// No address is known for the peer.
    NoAddresses,
    /// The dial failed outright for another reason.
    Failed,
}

/// Why a gossip message was rejected.
#[derive(Debug, Clone, Copy, PartialEq, Eq)]
pub enum RejectReason {
    /// The message carries no source peer.
    Anonymous,
    /// The message's topic is not subscribed.
    UnknownTopic,
    /// The topic is ordered and the message carries no sequence number.
    MissingSeqNo,
    /// The sequence number lies in the future.
    FutureSeqNo,
    /// The sequence number is not above the last accepted one.
    OldMessage,
}

/// The verdict on a received gossip message, reported back to the gossip
/// behaviour for propagation accounting.
pub enum GossipVerdict {
    Accept { source: u64, topic: String },
    Reject { reason: RejectReason },
}

/// Builds the unicast message for a recipient.
pub fn direct_message(peer: u64, content: Vec<u8>) -> (r: Message)
    ensures
        r.peer_id == Some(peer),
        r.topic is None,
        r.content@ == content@,
{
    Message { peer_id: Some(peer), topic: None, content }
}

/// Builds the broadcast message for a topic.
pub fn broadcast_message(topic: String, content: Vec<u8>) -> (r: Message)
    ensures
        r.peer_id is None,
        (r.topic matches Some(t) && t@ == topic@),
        r.content@ == content@,
{
    Message { peer_id: None, topic: Some(topic), content }
}

/// A request/response event as the swarm reports it.
pub enum RequestEvent {
    /// A request arrived; the channel identifies where the one-byte
    /// acknowledgment must go.
    Request { peer: u64, payload: Vec<u8>, channel: u64 },
    /// An inbound exchange failed.
    InboundFailure { peer: u64 },
    /// An outbound exchange failed.
    OutboundFailure { peer: u64 },
    /// A response or other event that needs no decision.
    Other,
}

/// What to do with a request/response event.
pub enum RequestOutcome {
    /// Hand the message to the consumer, then acknowledge on the channel.
    Deliver { msg: Message, channel: u64 },
    /// Surface an inbound failure to the caller; the loop goes on.
    InboundError { peer: u64 },
    /// Surface an outbound failure to the caller; the loop goes on.
    OutboundError { peer: u64 },
    /// Nothing to do.
    Nothing,
}

/// Dispatches a request/response event: a request becomes an inbound
/// unicast message to deliver and acknowledge; failures are surfaced as
/// typed errors without stopping the loop.
pub fn handle_request_event(ev: RequestEvent) -> (r: RequestOutcome)
    ensures
        match ev {
            RequestEvent::Request { peer, payload, channel } => (
            r matches RequestOutcome::Deliver { msg, channel: ch } && ch == channel && msg.peer_id
                == Some(peer) && msg.topic is None && msg.content@ == payload@),
            RequestEvent::InboundFailure { peer } => (r matches RequestOutcome::InboundError {
                peer: p,
            } && p == peer),
            RequestEvent::OutboundFailure { peer } => (r matches RequestOutcome::OutboundError {
                peer: p,
            } && p == peer),
            RequestEvent::Other => r is Nothing,
        },
{
    match ev {
        RequestEvent::Request { peer, payload, channel } => RequestOutcome::Deliver {
            msg: Message { peer_id: Some(peer), topic: None, content: payload },
            channel,
        },
        RequestEvent::InboundFailure { peer } => RequestOutcome::InboundError { peer },
        RequestEvent::OutboundFailure { peer } => RequestOutcome::OutboundError { peer },
        RequestEvent::Other => RequestOutcome::Nothing,
    }
}

/// The byte sent as the legacy acknowledgment of a delivered request.
pub fn request_ack() -> (r: u8)
    ensures
        r == 1u8,
{
    1
}

pub open spec fn is_resolve(a: Action, w: u64, res: bool) -> bool {
    a matches Action::Resolve { waiter, result } && waiter == w && result == res
}

pub open spec fn is_send_msg(a: Action, p: u64, payload: Seq<u8>) -> bool {
    a matches Action::SendMsg { peer, payload: pl } && peer == p && pl@ == payload
}

pub open spec fn is_dial(a: Action, p: u64, w: u64) -> bool {
    a matches Action::DialPeer { peer, waiter } && peer == p && waiter == w
}

/// Relies on std::time::SystemTime::now: the clock's distance from the
/// Unix epoch, in nanoseconds, or zero if the clock reads before it.
#[verifier::external_body]
fn system_clock_nanos() -> u64 {
    match std::time::SystemTime::now().duration_since(std::time::UNIX_EPOCH) {
        Ok(d) => d.as_nanos() as u64,
        Err(_) => 0,
    }
}

/// The current time as a 64-bit nanosecond count since the Unix epoch,
/// the unit sequence numbers are compared against.
pub fn timestamp_now() -> u64 {
    system_clock_nanos()
}

/// How waiters parked for a peer are disposed of when its lookup ends.
enum DialDrain {
    /// The peer became reachable without a dial: resolve with `true`.
    ResolveTrue,
    /// The lookup failed: resolve with `false`.
    ResolveFalse,
    /// The peer was found: dial again, one attempt per waiter.
    Redial,
}

/// The eventloop's state.
pub struct P2PTransport {
    /// Waiters parked until an address lookup for their peer concludes.
    pending_dials: HashMap<u64, Vec<u64>>,
    /// Waiters of dials in flight, keyed by the dial's connection id.
    ongoing_dials: HashMap<u64, u64>,
    /// The peer ↔ DHT query bijection: at most one query per peer.
    ongoing_queries: PeerQueryBimap,
    /// Payloads buffered while their destination is being resolved.
    pending_messages: HashMap<u64, Vec<Vec<u8>>>,
    /// Topic hash → registration.
    subscribed_topics: StrMap<TopicInfo>,
    /// Topic hash → source peer → last accepted sequence number.
    sequence_numbers: StrMap<HashMap<u64, u64>>,
    /// Established connections per peer, most recent first.
    active_connections: HashMap<u64, Vec<u64>>,
    /// Whether periodic DHT bootstrap is enabled.
    bootstrap: bool,
}

impl P2PTransport {
    /// Topic hash → registration.
    pub closed spec fn topics(self) -> Map<Seq<char>, TopicInfo> {
        self.subscribed_topics@
    }

    /// The last accepted sequence number for (topic hash, source), 0 when
    /// none has been accepted.
    pub closed spec fn last_seq_no(self, t: Seq<char>, src: u64) -> u64 {
        if self.sequence_numbers@.contains_key(t) && self.sequence_numbers@[t]@.contains_key(src) {
            self.sequence_numbers@[t]@[src]
        } else {
            0
        }
    }

    /// Waiters parked for a peer's address lookup, oldest first.
    pub closed spec fn pending_dial_waiters(self, p: u64) -> Seq<u64> {
        if self.pending_dials@.contains_key(p) {
            self.pending_dials@[p]@
        } else {
            Seq::empty()
        }
    }

    /// Connection id → waiter of the dial in flight on it.
    pub closed spec fn ongoing_dials_map(self) -> Map<u64, u64> {
        self.ongoing_dials@
    }

    /// Peer → id of the DHT query resolving it.
    pub closed spec fn queries(self) -> Map<u64, u64> {
        query_map_contents(self.ongoing_queries)
    }

    /// Payloads buffered for a peer, oldest first.
    pub closed spec fn pending_msgs(self, p: u64) -> Seq<Seq<u8>> {
        if self.pending_messages@.contains_key(p) {
            self.pending_messages@[p]@.map_values(|v: Vec<u8>| v@)
        } else {
            Seq::empty()
        }
    }

    /// Established connections of a peer, most recent first.
    pub closed spec fn conns(self, p: u64) -> Seq<u64> {
        if self.active_connections@.contains_key(p) {
            self.active_connections@[p]@
        } else {
            Seq::empty()
        }
    }

    /// Whether periodic DHT bootstrap is enabled.
    pub closed spec fn bootstrap_enabled(self) -> bool {
        self.bootstrap
    }

    /// A peer is connected when it has at least one established connection.
    pub open spec fn is_connected(self, p: u64) -> bool {
        self.conns(p).len() > 0
    }

    /// A waiter currently held somewhere in the state.
    pub open spec fn waiter_live(self, w: u64) -> bool {
        (exists|p: u64, i: int|
            0 <= i < self.pending_dial_waiters(p).len() && self.pending_dial_waiters(p)[i] == w)
            || (exists|c: u64|
            #[trigger] self.ongoing_dials_map().contains_key(c) && self.ongoing_dials_map()[c]
                == w)
    }

    /// The state invariant: the connection cap and uniqueness, every
    /// waiter held at most once, and the peer ↔ query relation injective.
    pub open spec fn wf(self) -> bool {
        &&& self.maps_wf()
        &&& forall|p: u64| (#[trigger] self.conns(p)).len() <= MAX_CONNS_PER_PEER
        &&& forall|p: u64, i: int, j: int|
            0 <= i < j < self.conns(p).len() ==> #[trigger] self.conns(p)[i] != #[trigger] self.conns(
                p,
            )[j]
        &&& forall|p1: u64, i1: int, p2: u64, i2: int|
            0 <= i1 < self.pending_dial_waiters(p1).len() && 0 <= i2
                < self.pending_dial_waiters(p2).len() && (p1 != p2 || i1 != i2)
                ==> #[trigger] self.pending_dial_waiters(p1)[i1]
                != #[trigger] self.pending_dial_waiters(p2)[i2]
        &&& forall|c1: u64, c2: u64|
            c1 != c2 && self.ongoing_dials_map().contains_key(c1)
                && self.ongoing_dials_map().contains_key(c2)
                ==> #[trigger] self.ongoing_dials_map()[c1] != #[trigger] self.ongoing_dials_map()[c2]
        &&& forall|p: u64, i: int, c: u64|
            0 <= i < self.pending_dial_waiters(p).len() && self.ongoing_dials_map().contains_key(c)
                ==> #[trigger] self.pending_dial_waiters(p)[i] != #[trigger] self.ongoing_dials_map()[c]
        &&& forall|p1: u64, p2: u64|
            p1 != p2 && self.queries().contains_key(p1) && self.queries().contains_key(p2)
                ==> #[trigger] self.queries()[p1] != #[trigger] self.queries()[p2]
    }

    /// The string-keyed maps keep their representation invariant.
    pub closed spec fn maps_wf(self) -> bool {
        self.subscribed_topics.wf() && self.sequence_numbers.wf()
    }

    /// The dial and lookup bookkeeping of `a` and `b` agree.
    pub open spec fn dials_eq(a: Self, b: Self) -> bool {
        &&& forall|p: u64| #[trigger] a.pending_dial_waiters(p) == b.pending_dial_waiters(p)
        &&& a.ongoing_dials_map() == b.ongoing_dials_map()
        &&& a.queries() == b.queries()
    }

    /// The buffered messages of `a` and `b` agree.
    pub open spec fn msgs_eq(a: Self, b: Self) -> bool {
        forall|p: u64| #[trigger] a.pending_msgs(p) == b.pending_msgs(p)
    }

    /// The connection bookkeeping of `a` and `b` agrees.
    pub open spec fn conns_eq(a: Self, b: Self) -> bool {
        forall|p: u64| #[trigger] a.conns(p) == b.conns(p)
    }

    /// The subscriptions of `a` and `b` agree.
    pub open spec fn topics_eq(a: Self, b: Self) -> bool {
        a.topics() == b.topics()
    }

    /// The sequence-number bookkeeping of `a` and `b` agrees.
    pub open spec fn seqs_eq(a: Self, b: Self) -> bool {
        forall|t: Seq<char>, s: u64| #[trigger] a.last_seq_no(t, s) == b.last_seq_no(t, s)
    }

    /// Everything but the subscriptions and sequence numbers agrees.
    pub open spec fn gossip_frame_eq(a: Self, b: Self) -> bool {
        &&& Self::dials_eq(a, b)
        &&& Self::msgs_eq(a, b)
        &&& Self::conns_eq(a, b)
        &&& a.bootstrap_enabled() == b.bootstrap_enabled()
    }

    /// A change that touches only the subscriptions and sequence numbers
    /// keeps the invariant and the peer-side bookkeeping.
    proof fn lemma_gossip_only_change(pre: Self, post: Self)
        requires
            post.pending_dials == pre.pending_dials,
            post.ongoing_dials == pre.ongoing_dials,
            post.ongoing_queries == pre.ongoing_queries,
            post.pending_messages == pre.pending_messages,
            post.active_connections == pre.active_connections,
            post.bootstrap == pre.bootstrap,
            pre.wf(),
            post.maps_wf(),
        ensures
            post.wf(),
            Self::gossip_frame_eq(post, pre),
    {
        assert forall|p: u64| #[trigger] post.conns(p) == pre.conns(p) by {}
        assert forall|p: u64| #[trigger]
            post.pending_dial_waiters(p) == pre.pending_dial_waiters(p) by {}
        assert forall|p: u64| #[trigger] post.pending_msgs(p) == pre.pending_msgs(p) by {}
        assert(post.ongoing_dials_map() == pre.ongoing_dials_map());
        assert(post.queries() == pre.queries());
        assert forall|p: u64| (#[trigger] post.conns(p)).len() <= MAX_CONNS_PER_PEER by {
            assert(post.conns(p) == pre.conns(p));
        }
        assert forall|p: u64, i: int, j: int|
            0 <= i < j < post.conns(p).len() implies #[trigger] post.conns(p)[i]
            != #[trigger] post.conns(p)[j] by {
            assert(post.conns(p) == pre.conns(p));
        }
        assert forall|p1: u64, i1: int, p2: u64, i2: int|
            0 <= i1 < post.pending_dial_waiters(p1).len() && 0 <= i2 < post.pending_dial_waiters(
                p2,
            ).len() && (p1 != p2 || i1 != i2) implies #[trigger] post.pending_dial_waiters(p1)[i1]
            != #[trigger] post.pending_dial_waiters(p2)[i2] by {
            assert(post.pending_dial_waiters(p1) == pre.pending_dial_waiters(p1));
            assert(post.pending_dial_waiters(p2) == pre.pending_dial_waiters(p2));
        }
        assert forall|p: u64, i: int, c: u64|
            0 <= i < post.pending_dial_waiters(p).len() && post.ongoing_dials_map().contains_key(
                c,
            ) implies #[trigger] post.pending_dial_waiters(p)[i]
            != #[trigger] post.ongoing_dials_map()[c] by {
            assert(post.pending_dial_waiters(p) == pre.pending_dial_waiters(p));
        }
    }

    /// A change that leaves the subscriptions and sequence numbers alone
    /// keeps the gossip-side bookkeeping.
    proof fn lemma_peer_only_change(pre: Self, post: Self)
        requires
            post.subscribed_topics == pre.subscribed_topics,
            post.sequence_numbers == pre.sequence_numbers,
        ensures
            Self::topics_eq(post, pre),
            Self::seqs_eq(post, pre),
            post.maps_wf() == pre.maps_wf(),
    {
        assert forall|t: Seq<char>, s: u64| #[trigger]
            post.last_seq_no(t, s) == pre.last_seq_no(t, s) by {}
    }

    /// The connection conjuncts of the invariant carry over when the
    /// connection bookkeeping is unchanged.
    proof fn lemma_wf_unchanged_conns(pre: Self, post: Self)
        requires
            pre.wf(),
            forall|p: u64| #[trigger] post.conns(p) == pre.conns(p),
        ensures
            forall|p: u64| (#[trigger] post.conns(p)).len() <= MAX_CONNS_PER_PEER,
            forall|p: u64, i: int, j: int|
                0 <= i < j < post.conns(p).len() ==> #[trigger] post.conns(p)[i]
                    != #[trigger] post.conns(p)[j],
    {
        assert forall|p: u64| (#[trigger] post.conns(p)).len() <= MAX_CONNS_PER_PEER by {
            assert(post.conns(p) == pre.conns(p));
        }
        assert forall|p: u64, i: int, j: int|
            0 <= i < j < post.conns(p).len() implies #[trigger] post.conns(p)[i]
            != #[trigger] post.conns(p)[j] by {
            assert(post.conns(p) == pre.conns(p));
        }
    }

    /// The waiter conjuncts of the invariant carry over when the dial
    /// bookkeeping is unchanged.
    proof fn lemma_wf_unchanged_waiters(pre: Self, post: Self)
        requires
            pre.wf(),
            forall|p: u64| #[trigger]
                post.pending_dial_waiters(p) == pre.pending_dial_waiters(p),
            post.ongoing_dials_map() == pre.ongoing_dials_map(),
        ensures
            forall|p1: u64, i1: int, p2: u64, i2: int|
                0 <= i1 < post.pending_dial_waiters(p1).len() && 0 <= i2
                    < post.pending_dial_waiters(p2).len() && (p1 != p2 || i1 != i2)
                    ==> #[trigger] post.pending_dial_waiters(p1)[i1]
                    != #[trigger] post.pending_dial_waiters(p2)[i2],
            forall|c1: u64, c2: u64|
                c1 != c2 && post.ongoing_dials_map().contains_key(c1)
                    && post.ongoing_dials_map().contains_key(c2)
                    ==> #[trigger] post.ongoing_dials_map()[c1]
                    != #[trigger] post.ongoing_dials_map()[c2],
            forall|p: u64, i: int, c: u64|
                0 <= i < post.pending_dial_waiters(p).len()
                    && post.ongoing_dials_map().contains_key(c)
                    ==> #[trigger] post.pending_dial_waiters(p)[i]
                    != #[trigger] post.ongoing_dials_map()[c],
    {
        assert forall|p1: u64, i1: int, p2: u64, i2: int|
            0 <= i1 < post.pending_dial_waiters(p1).len() && 0 <= i2 < post.pending_dial_waiters(
                p2,
            ).len() && (p1 != p2 || i1 != i2) implies #[trigger] post.pending_dial_waiters(p1)[i1]
            != #[trigger] post.pending_dial_waiters(p2)[i2] by {
            assert(post.pending_dial_waiters(p1) == pre.pending_dial_waiters(p1));
            assert(post.pending_dial_waiters(p2) == pre.pending_dial_waiters(p2));
        }
        assert forall|p: u64, i: int, c: u64|
            0 <= i < post.pending_dial_waiters(p).len() && post.ongoing_dials_map().contains_key(
                c,
            ) implies #[trigger] post.pending_dial_waiters(p)[i]
            != #[trigger] post.ongoing_dials_map()[c] by {
            assert(post.pending_dial_waiters(p) == pre.pending_dial_waiters(p));
        }
    }

    /// The query conjunct of the invariant carries over when the lookup
    /// bookkeeping is unchanged.
    proof fn lemma_wf_unchanged_queries(pre: Self, post: Self)
        requires
            pre.wf(),
            post.queries() == pre.queries(),
        ensures
            forall|p1: u64, p2: u64|
                p1 != p2 && post.queries().contains_key(p1) && post.queries().contains_key(p2)
                    ==> #[trigger] post.queries()[p1] != #[trigger] post.queries()[p2],
    {
    }

    /// A fresh eventloop state: nothing subscribed, nothing pending.
    pub fn new(bootstrap: bool) -> (r: Self)
        ensures
            r.wf(),
            r.topics() =~= Map::empty(),
            forall|t: Seq<char>, s: u64| #[trigger] r.last_seq_no(t, s) == 0,
            forall|p: u64| (#[trigger] r.pending_dial_waiters(p)).len() == 0,
            r.ongoing_dials_map() =~= Map::empty(),
            r.queries() =~= Map::empty(),
            forall|p: u64| (#[trigger] r.pending_msgs(p)).len() == 0,
            forall|p: u64| (#[trigger] r.conns(p)).len() == 0,
            r.bootstrap_enabled() == bootstrap,
    {
        P2PTransport {
            pending_dials: HashMap::new(),
            ongoing_dials: HashMap::new(),
            ongoing_queries: query_map_new(),
            pending_messages: HashMap::new(),
            subscribed_topics: StrMap::new(),
            sequence_numbers: StrMap::new(),
            active_connections: HashMap::new(),
            bootstrap,
        }
    }

    /// Registers a topic if it is not yet subscribed; the returned action
    /// asks the shell to subscribe the gossip behaviour. A repeated
    /// subscribe command changes nothing: the first registration, with its
    /// ordering rule, stays.
    pub fn subscribe(&mut self, topic: String, allow_unordered: bool) -> (r: Vec<Action>)
        requires
            old(self).wf(),
        ensures
            final(self).wf(),
            Self::gossip_frame_eq(*final(self), *old(self)),
            Self::seqs_eq(*final(self), *old(self)),
            old(self).topics().contains_key(topic_hash_of(topic@)) ==> final(self).topics()
                == old(self).topics() && r@.len() == 0,
            !old(self).topics().contains_key(topic_hash_of(topic@)) ==> {
                &&& final(self).topics().dom() =~= old(self).topics().dom().insert(
                    topic_hash_of(topic@),
                )
                &&& final(self).topics()[topic_hash_of(topic@)].name@ == topic@
                &&& final(self).topics()[topic_hash_of(topic@)].allow_unordered == allow_unordered
                &&& forall|t: Seq<char>|
                    t != topic_hash_of(topic@) && old(self).topics().contains_key(t)
                        ==> #[trigger] final(self).topics()[t] == old(self).topics()[t]
                &&& r@.len() == 1
                &&& (r@[0] matches Action::GossipSubscribe { topic: t } && t@ == topic@)
            },
    {
        let hash = topic_hash(&topic);
        if self.subscribed_topics.contains_key(&hash) {
            proof {
                Self::lemma_gossip_only_change(*old(self), *self);
            }
            Vec::new()
        } else {
            let name = topic.clone();
            self.subscribed_topics.insert(hash, TopicInfo { name, allow_unordered });
            let mut r: Vec<Action> = Vec::new();
            r.push(Action::GossipSubscribe { topic });
            proof {
                Self::lemma_gossip_only_change(*old(self), *self);
            }
            r
        }
    }

    /// Removes a topic registration and its sequence-number table; the
    /// returned action, present when the topic was registered, asks the
    /// shell to unsubscribe the gossip behaviour. After the first
    /// unsubscribe the command is a no-op.
    pub fn unsubscribe(&mut self, topic: String) -> (r: Vec<Action>)
        requires
            old(self).wf(),
        ensures
            final(self).wf(),
            Self::gossip_frame_eq(*final(self), *old(self)),
            final(self).topics() == old(self).topics().remove(topic_hash_of(topic@)),
            forall|s: u64| #[trigger] final(self).last_seq_no(topic_hash_of(topic@), s) == 0,
            forall|t: Seq<char>, s: u64|
                t != topic_hash_of(topic@) ==> #[trigger] final(self).last_seq_no(t, s) == old(
                    self,
                ).last_seq_no(t, s),
            old(self).topics().contains_key(topic_hash_of(topic@)) ==> r@.len() == 1 && (
            r@[0] matches Action::GossipUnsubscribe { topic: t } && t@ == topic@),
            !old(self).topics().contains_key(topic_hash_of(topic@)) ==> r@.len() == 0,
    {
        let hash = topic_hash(&topic);
        let was = self.subscribed_topics.remove(&hash);
        let _ = self.sequence_numbers.remove(&hash);
        let mut r: Vec<Action> = Vec::new();
        if was.is_some() {
            r.push(Action::GossipUnsubscribe { topic });
        }
        proof {
            Self::lemma_gossip_only_change(*old(self), *self);
        }
        r
    }

    /// Dispatches a subscription command.
    pub fn handle_subscription(&mut self, s: Subscription) -> (r: Vec<Action>)
        requires
            old(self).wf(),
        ensures
            final(self).wf(),
            Self::gossip_frame_eq(*final(self), *old(self)),
    {
        if s.subscribed {
            self.subscribe(s.topic, s.allow_unordered)
        } else {
            self.unsubscribe(s.topic)
        }
    }

    /// Validates a received gossip message and, when it is accepted on an
    /// ordered topic, advances the stored sequence number. The verdict is
    /// reported back to the gossip behaviour either way. Rejected are:
    /// anonymous messages, messages on topics not subscribed, and — on
    /// topics that did not opt out of ordering — messages without a
    /// sequence number, with one in the future, or with one not strictly
    /// above the last accepted.
    pub fn validate_gossipsub_msg(
        &mut self,
        source: Option<u64>,
        topic: &String,
        seq_no: Option<u64>,
        now: u64,
    ) -> (r: GossipVerdict)
        requires
            old(self).wf(),
        ensures
            final(self).wf(),
            Self::gossip_frame_eq(*final(self), *old(self)),
            Self::topics_eq(*final(self), *old(self)),
            ({
                let t = topic@;
                match source {
                    None => r matches GossipVerdict::Reject { reason: RejectReason::Anonymous }
                        && Self::seqs_eq(*final(self), *old(self)),
                    Some(src) => {
                        if !old(self).topics().contains_key(t) {
                            r matches GossipVerdict::Reject {
                                reason: RejectReason::UnknownTopic,
                            } && Self::seqs_eq(*final(self), *old(self))
                        } else if old(self).topics()[t].allow_unordered {
                            (r matches GossipVerdict::Accept { source: s, topic: name } && s == src
                                && name@ == old(self).topics()[t].name@) && Self::seqs_eq(
                                *final(self),
                                *old(self),
                            )
                        } else {
                            match seq_no {
                                None => r matches GossipVerdict::Reject {
                                    reason: RejectReason::MissingSeqNo,
                                } && Self::seqs_eq(*final(self), *old(self)),
                                Some(n) => {
                                    if n > now {
                                        r matches GossipVerdict::Reject {
                                            reason: RejectReason::FutureSeqNo,
                                        } && Self::seqs_eq(*final(self), *old(self))
                                    } else if n <= old(self).last_seq_no(t, src) {
                                        r matches GossipVerdict::Reject {
                                            reason: RejectReason::OldMessage,
                                        } && Self::seqs_eq(*final(self), *old(self))
                                    } else {
                                        (r matches GossipVerdict::Accept { source: s, topic: name }
                                            && s == src && name@ == old(self).topics()[t].name@)
                                            && final(self).last_seq_no(t, src) == n
                                            && (forall|t2: Seq<char>, s2: u64|
                                                t2 != t || s2 != src
                                                ==> #[trigger] final(self).last_seq_no(t2, s2)
                                                    == old(self).last_seq_no(t2, s2))
                                    }
                                },
                            }
                        }
                    },
                }
            }),
    {
        let src = match source {
            Some(s) => s,
            None => {
                proof {
                    Self::lemma_gossip_only_change(*old(self), *self);
                }
                return GossipVerdict::Reject { reason: RejectReason::Anonymous };
            },
        };
        let (name, allow_unordered) = match self.subscribed_topics.get(topic) {
            Some(info) => (info.name.clone(), info.allow_unordered),
            None => {
                proof {
                    Self::lemma_gossip_only_change(*old(self), *self);
                }
                return GossipVerdict::Reject { reason: RejectReason::UnknownTopic };
            },
        };
        if allow_unordered {
            proof {
                Self::lemma_gossip_only_change(*old(self), *self);
            }
            return GossipVerdict::Accept { source: src, topic: name };
        }
        let n = match seq_no {
            Some(n) => n,
            None => {
                proof {
                    Self::lemma_gossip_only_change(*old(self), *self);
                }
                return GossipVerdict::Reject { reason: RejectReason::MissingSeqNo };
            },
        };
        if n > now {
            proof {
                Self::lemma_gossip_only_change(*old(self), *self);
            }
            return GossipVerdict::Reject { reason: RejectReason::FutureSeqNo };
        }
        let mut table = match self.sequence_numbers.remove(topic) {
            Some(t) => t,
            None => HashMap::new(),
        };
        let last: u64 = match table.get(&src) {
            Some(v) => *v,
            None => 0,
        };
        if n <= last {
            self.sequence_numbers.insert(topic.clone(), table);
            proof {
                Self::lemma_gossip_only_change(*old(self), *self);
                assert forall|t2: Seq<char>, s2: u64| #[trigger]
                    self.last_seq_no(t2, s2) == old(self).last_seq_no(t2, s2) by {}
            }
            return GossipVerdict::Reject { reason: RejectReason::OldMessage };
        }
        table.insert(src, n);
        self.sequence_numbers.insert(topic.clone(), table);
        proof {
            Self::lemma_gossip_only_change(*old(self), *self);
            assert forall|t2: Seq<char>, s2: u64|
                t2 != topic@ || s2 != src implies #[trigger] self.last_seq_no(t2, s2) == old(
                self,
            ).last_seq_no(t2, s2) by {}
        }
        GossipVerdict::Accept { source: src, topic: name }
    }

    /// Whether the periodic DHT bootstrap timer should issue a bootstrap.
    pub fn should_bootstrap(&self) -> (r: bool)
        ensures
            r == self.bootstrap_enabled(),
    {
        self.bootstrap
    }

    /// Whether a unicast can be sent right away: the peer is connected or
    /// an address for it is known to the swarm.
    pub fn can_send_msg(&self, peer: u64, addr_known: bool) -> (r: bool)
        ensures
            r == (self.is_connected(peer) || addr_known),
    {
        let connected = match self.active_connections.get(&peer) {
            Some(v) => v.len() > 0,
            None => false,
        };
        connected || addr_known
    }

    /// How many established connections a peer holds.
    pub fn active_connection_count(&self, peer: u64) -> (r: usize)
        ensures
            r == self.conns(peer).len(),
    {
        match self.active_connections.get(&peer) {
            Some(v) => v.len(),
            None => 0,
        }
    }

    /// Whether this connection id is recorded for the peer.
    pub fn has_connection(&self, peer: u64, conn: u64) -> (r: bool)
        ensures
            r == self.conns(peer).contains(conn),
    {
        match self.active_connections.get(&peer) {
            Some(v) => {
                let n = v.len();
                let mut i: usize = 0;
                while i < n
                    invariant
                        n == v@.len(),
                        i <= n,
                        v@ == self.conns(peer),
                        forall|j: int| 0 <= j < i ==> v@[j] != conn,
                    decreases n - i,
                {
                    if v[i] == conn {
                        return true;
                    }
                    i = i + 1;
                }
                proof {
                    assert(!self.conns(peer).contains(conn));
                }
                false
            },
            None => {
                proof {
                    assert(!self.conns(peer).contains(conn));
                }
                false
            },
        }
    }

    /// Whether a dial is in flight on this connection id.
    pub fn dial_in_flight(&self, conn: u64) -> (r: bool)
        ensures
            r == self.ongoing_dials_map().contains_key(conn),
    {
        self.ongoing_dials.contains_key(&conn)
    }

    /// The peer a DHT query was started for, if the query is known.
    pub fn query_peer(&self, query: u64) -> (r: Option<u64>)
        ensures
            match r {
                Some(peer) => self.queries().contains_key(peer) && self.queries()[peer] == query,
                None => forall|p: u64|
                    #[trigger] self.queries().contains_key(p) ==> self.queries()[p] != query,
            },
    {
        query_map_get_by_right(&self.ongoing_queries, query)
    }

    /// Asks for an address lookup when none is under way for the peer.
    fn lookup_peer(&mut self, peer: u64, r: &mut Vec<Action>)
        ensures
            *final(self) == *old(self),
            old(self).queries().contains_key(peer) ==> final(r)@ == old(r)@,
            !old(self).queries().contains_key(peer) ==> final(r)@ == old(r)@.push(
                Action::LookupPeer { peer },
            ),
    {
        if !query_map_contains_left(&self.ongoing_queries, peer) {
            r.push(Action::LookupPeer { peer });
        }
    }

    /// Records that a closest-peers query was started for a peer, after
    /// the shell performed the [`Action::LookupPeer`] it was handed. A
    /// peer already being resolved keeps its original query.
    pub fn register_query(&mut self, peer: u64, query: u64)
        requires
            old(self).wf(),
        ensures
            final(self).wf(),
            Self::topics_eq(*final(self), *old(self)),
            Self::seqs_eq(*final(self), *old(self)),
            Self::msgs_eq(*final(self), *old(self)),
            Self::conns_eq(*final(self), *old(self)),
            final(self).ongoing_dials_map() == old(self).ongoing_dials_map(),
            forall|p: u64| #[trigger]
                final(self).pending_dial_waiters(p) == old(self).pending_dial_waiters(p),
            final(self).bootstrap_enabled() == old(self).bootstrap_enabled(),
            old(self).queries().contains_key(peer) ==> final(self).queries() == old(
                self,
            ).queries(),
            !old(self).queries().contains_key(peer) ==> {
                &&& final(self).queries().contains_key(peer)
                &&& final(self).queries()[peer] == query
                &&& forall|p: u64|
                    p != peer ==> (#[trigger] final(self).queries().contains_key(p) <==> (old(
                        self,
                    ).queries().contains_key(p) && old(self).queries()[p] != query))
                &&& forall|p: u64|
                    p != peer && #[trigger] final(self).queries().contains_key(p) ==> final(self).queries()[p] == old(self).queries()[p]
            },
    {
        if !query_map_contains_left(&self.ongoing_queries, peer) {
            query_map_insert(&mut self.ongoing_queries, peer, query);
        }
        proof {
            Self::lemma_peer_only_change(*old(self), *self);
            assert forall|p: u64| #[trigger]
                self.pending_dial_waiters(p) == old(self).pending_dial_waiters(p) by {}
            assert forall|p: u64| #[trigger] self.pending_msgs(p) == old(self).pending_msgs(p) by {}
            assert forall|p: u64| #[trigger] self.conns(p) == old(self).conns(p) by {}
            assert(self.ongoing_dials_map() == old(self).ongoing_dials_map());
            Self::lemma_wf_unchanged_conns(*old(self), *self);
            Self::lemma_wf_unchanged_waiters(*old(self), *self);
            if old(self).queries().contains_key(peer) {
                Self::lemma_wf_unchanged_queries(*old(self), *self);
            } else {
                assert forall|p1: u64, p2: u64|
                    p1 != p2 && self.queries().contains_key(p1) && self.queries().contains_key(
                        p2,
                    ) implies #[trigger] self.queries()[p1] != #[trigger] self.queries()[p2] by {
                    if p1 == peer {
                        assert(self.queries()[p2] == old(self).queries()[p2]);
                        assert(old(self).queries()[p2] != query);
                    } else if p2 == peer {
                        assert(self.queries()[p1] == old(self).queries()[p1]);
                        assert(old(self).queries()[p1] != query);
                    } else {
                        assert(self.queries()[p1] == old(self).queries()[p1]);
                        assert(self.queries()[p2] == old(self).queries()[p2]);
                    }
                }
            }
        }
    }

    /// Takes the swarm's answer to a dial attempt for `peer` on behalf of
    /// a fresh `waiter`: an admitted dial parks the waiter under its
    /// connection id; an already-satisfied dial condition resolves it with
    /// `true`; a dial without addresses parks it until the address lookup
    /// that is ensured here concludes; any other failure resolves it with
    /// `false`.
    pub fn dial_peer(&mut self, peer: u64, waiter: u64, outcome: DialOutcome) -> (r: Vec<Action>)
        requires
            old(self).wf(),
            !old(self).waiter_live(waiter),
            outcome matches DialOutcome::Started { conn } ==> !old(
                self,
            ).ongoing_dials_map().contains_key(conn),
        ensures
            final(self).wf(),
            Self::topics_eq(*final(self), *old(self)),
            Self::seqs_eq(*final(self), *old(self)),
            Self::msgs_eq(*final(self), *old(self)),
            Self::conns_eq(*final(self), *old(self)),
            final(self).bootstrap_enabled() == old(self).bootstrap_enabled(),
            match outcome {
                DialOutcome::Started { conn } => {
                    &&& final(self).ongoing_dials_map() == old(self).ongoing_dials_map().insert(
                        conn,
                        waiter,
                    )
                    &&& forall|p: u64| #[trigger]
                        final(self).pending_dial_waiters(p) == old(self).pending_dial_waiters(p)
                    &&& final(self).queries() == old(self).queries()
                    &&& r@.len() == 0
                },
                DialOutcome::AlreadyConnected => {
                    &&& Self::dials_eq(*final(self), *old(self))
                    &&& r@.len() == 1 && is_resolve(r@[0], waiter, true)
                },
                DialOutcome::NoAddresses => {
                    &&& final(self).pending_dial_waiters(peer) == old(self).pending_dial_waiters(
                        peer,
                    ).push(waiter)
                    &&& forall|p: u64|
                        p != peer ==> #[trigger] final(self).pending_dial_waiters(p) == old(
                            self,
                        ).pending_dial_waiters(p)
                    &&& final(self).ongoing_dials_map() == old(self).ongoing_dials_map()
                    &&& final(self).queries() == old(self).queries()
                    &&& (old(self).queries().contains_key(peer) ==> r@.len() == 0)
                    &&& (!old(self).queries().contains_key(peer) ==> r@.len() == 1 && (
                    r@[0] matches Action::LookupPeer { peer: p } && p == peer))
                },
                DialOutcome::Failed => {
                    &&& Self::dials_eq(*final(self), *old(self))
                    &&& r@.len() == 1 && is_resolve(r@[0], waiter, false)
                },
            },
    {
        let mut r: Vec<Action> = Vec::new();
        match outcome {
            DialOutcome::Started { conn } => {
                self.ongoing_dials.insert(conn, waiter);
                proof {
                    Self::lemma_peer_only_change(*old(self), *self);
                    assert forall|p: u64| #[trigger]
                        self.pending_dial_waiters(p) == old(self).pending_dial_waiters(p) by {}
                    assert forall|p: u64| #[trigger]
                        self.pending_msgs(p) == old(self).pending_msgs(p) by {}
                    assert forall|p: u64| #[trigger] self.conns(p) == old(self).conns(p) by {}
                    assert(self.queries() == old(self).queries());
                    assert(self.ongoing_dials_map() =~= old(self).ongoing_dials_map().insert(
                        conn,
                        waiter,
                    ));
                    Self::lemma_wf_unchanged_conns(*old(self), *self);
                    Self::lemma_wf_unchanged_queries(*old(self), *self);
                    assert forall|p2: u64, i2: int|
                        0 <= i2 < self.pending_dial_waiters(p2).len() implies #[trigger] self.pending_dial_waiters(
                        p2,
                    )[i2] != waiter by {
                        assert(old(self).pending_dial_waiters(p2)[i2] == self.pending_dial_waiters(
                            p2,
                        )[i2]);
                    }
                    assert forall|p1: u64, i1: int, p2: u64, i2: int|
                        0 <= i1 < self.pending_dial_waiters(p1).len() && 0 <= i2
                            < self.pending_dial_waiters(p2).len() && (p1 != p2 || i1 != i2) implies #[trigger] self.pending_dial_waiters(
                        p1,
                    )[i1] != #[trigger] self.pending_dial_waiters(p2)[i2] by {
                        assert(self.pending_dial_waiters(p1) == old(self).pending_dial_waiters(p1));
                        assert(self.pending_dial_waiters(p2) == old(self).pending_dial_waiters(p2));
                    }
                    assert forall|c1: u64, c2: u64|
                        c1 != c2 && self.ongoing_dials_map().contains_key(c1)
                            && self.ongoing_dials_map().contains_key(c2) implies #[trigger] self.ongoing_dials_map()[c1]
                        != #[trigger] self.ongoing_dials_map()[c2] by {
                        if c1 != conn && c2 != conn {
                            assert(self.ongoing_dials_map()[c1] == old(self).ongoing_dials_map()[c1]);
                            assert(self.ongoing_dials_map()[c2] == old(self).ongoing_dials_map()[c2]);
                        } else if c1 == conn {
                            assert(old(self).ongoing_dials_map().contains_key(c2));
                            assert(old(self).ongoing_dials_map()[c2] != waiter);
                        } else {
                            assert(old(self).ongoing_dials_map().contains_key(c1));
                            assert(old(self).ongoing_dials_map()[c1] != waiter);
                        }
                    }
                    assert forall|p: u64, i: int, c: u64|
                        0 <= i < self.pending_dial_waiters(p).len()
                            && self.ongoing_dials_map().contains_key(c) implies #[trigger] self.pending_dial_waiters(
                        p,
                    )[i] != #[trigger] self.ongoing_dials_map()[c] by {
                        assert(self.pending_dial_waiters(p) == old(self).pending_dial_waiters(p));
                        if c != conn {
                            assert(self.ongoing_dials_map()[c] == old(self).ongoing_dials_map()[c]);
                        }
                    }
                }
            },
            DialOutcome::AlreadyConnected => {
                r.push(Action::Resolve { waiter, result: true });
                proof {
                    Self::lemma_peer_only_change(*old(self), *self);
                    assert forall|p: u64| #[trigger]
                        self.pending_dial_waiters(p) == old(self).pending_dial_waiters(p) by {}
                    assert forall|p: u64| #[trigger]
                        self.pending_msgs(p) == old(self).pending_msgs(p) by {}
                    assert forall|p: u64| #[trigger] self.conns(p) == old(self).conns(p) by {}
                }
            },
            DialOutcome::NoAddresses => {
                let mut v = match self.pending_dials.remove(&peer) {
                    Some(v) => v,
                    None => Vec::new(),
                };
                v.push(waiter);
                self.pending_dials.insert(peer, v);
                self.lookup_peer(peer, &mut r);
                proof {
                    Self::lemma_peer_only_change(*old(self), *self);
                    assert forall|p: u64| #[trigger]
                        self.pending_msgs(p) == old(self).pending_msgs(p) by {}
                    assert forall|p: u64| #[trigger] self.conns(p) == old(self).conns(p) by {}
                    assert(self.pending_dial_waiters(peer) == old(self).pending_dial_waiters(
                        peer,
                    ).push(waiter));
                    assert forall|p: u64|
                        p != peer implies #[trigger] self.pending_dial_waiters(p) == old(
                        self,
                    ).pending_dial_waiters(p) by {}
                    assert(self.queries() == old(self).queries());
                    assert(self.ongoing_dials_map() == old(self).ongoing_dials_map());
                    Self::lemma_wf_unchanged_conns(*old(self), *self);
                    Self::lemma_wf_unchanged_queries(*old(self), *self);
                    assert forall|p2: u64, i2: int|
                        0 <= i2 < old(self).pending_dial_waiters(p2).len() implies #[trigger] old(
                        self,
                    ).pending_dial_waiters(p2)[i2] != waiter by {}
                    assert forall|c: u64|
                        old(self).ongoing_dials_map().contains_key(c) implies #[trigger] old(
                        self,
                    ).ongoing_dials_map()[c] != waiter by {}
                    assert forall|p1: u64, i1: int, p2: u64, i2: int|
                        0 <= i1 < self.pending_dial_waiters(p1).len() && 0 <= i2
                            < self.pending_dial_waiters(p2).len() && (p1 != p2 || i1 != i2) implies #[trigger] self.pending_dial_waiters(
                        p1,
                    )[i1] != #[trigger] self.pending_dial_waiters(p2)[i2] by {
                        let pre = *old(self);
                        if p1 == peer && i1 == pre.pending_dial_waiters(peer).len() {
                            assert(self.pending_dial_waiters(p1)[i1] == waiter);
                            if p2 == peer && i2 < pre.pending_dial_waiters(peer).len() {
                                assert(self.pending_dial_waiters(p2)[i2]
                                    == pre.pending_dial_waiters(p2)[i2]);
                            }
                        } else if p2 == peer && i2 == pre.pending_dial_waiters(peer).len() {
                            assert(self.pending_dial_waiters(p2)[i2] == waiter);
                            if p1 == peer && i1 < pre.pending_dial_waiters(peer).len() {
                                assert(self.pending_dial_waiters(p1)[i1]
                                    == pre.pending_dial_waiters(p1)[i1]);
                            }
                        } else {
                            assert(self.pending_dial_waiters(p1)[i1]
                                == pre.pending_dial_waiters(p1)[i1]);
                            assert(self.pending_dial_waiters(p2)[i2]
                                == pre.pending_dial_waiters(p2)[i2]);
                        }
                    }
                    assert forall|p: u64, i: int, c: u64|
                        0 <= i < self.pending_dial_waiters(p).len()
                            && self.ongoing_dials_map().contains_key(c) implies #[trigger] self.pending_dial_waiters(
                        p,
                    )[i] != #[trigger] self.ongoing_dials_map()[c] by {
                        let pre = *old(self);
                        if p == peer && i == pre.pending_dial_waiters(peer).len() {
                            assert(self.pending_dial_waiters(p)[i] == waiter);
                        } else {
                            assert(self.pending_dial_waiters(p)[i]
                                == pre.pending_dial_waiters(p)[i]);
                        }
                    }
                }
            },
            DialOutcome::Failed => {
                r.push(Action::Resolve { waiter, result: false });
                proof {
                    Self::lemma_peer_only_change(*old(self), *self);
                    assert forall|p: u64| #[trigger]
                        self.pending_dial_waiters(p) == old(self).pending_dial_waiters(p) by {}
                    assert forall|p: u64| #[trigger]
                        self.pending_msgs(p) == old(self).pending_msgs(p) by {}
                    assert forall|p: u64| #[trigger] self.conns(p) == old(self).conns(p) by {}
                }
            },
        }
        r
    }

    /// Resolves the waiter of a failed outgoing connection with `false`.
    /// Waiters parked for an address lookup stay until the lookup ends.
    pub fn handle_connection_failed(&mut self, conn: u64) -> (r: Vec<Action>)
        requires
            old(self).wf(),
        ensures
            final(self).wf(),
            Self::topics_eq(*final(self), *old(self)),
            Self::seqs_eq(*final(self), *old(self)),
            Self::msgs_eq(*final(self), *old(self)),
            Self::conns_eq(*final(self), *old(self)),
            final(self).bootstrap_enabled() == old(self).bootstrap_enabled(),
            final(self).ongoing_dials_map() == old(self).ongoing_dials_map().remove(conn),
            forall|p: u64| #[trigger]
                final(self).pending_dial_waiters(p) == old(self).pending_dial_waiters(p),
            final(self).queries() == old(self).queries(),
            old(self).ongoing_dials_map().contains_key(conn) ==> r@.len() == 1 && is_resolve(
                r@[0],
                old(self).ongoing_dials_map()[conn],
                false,
            ),
            !old(self).ongoing_dials_map().contains_key(conn) ==> r@.len() == 0,
    {
        let mut r: Vec<Action> = Vec::new();
        match self.ongoing_dials.remove(&conn) {
            Some(w) => {
                r.push(Action::Resolve { waiter: w, result: false });
            },
            None => {
                proof {
                    assert(old(self).ongoing_dials@ =~= old(self).ongoing_dials@.remove(conn));
                }
            },
        }
        proof {
            Self::lemma_peer_only_change(*old(self), *self);
            assert forall|p: u64| #[trigger]
                self.pending_dial_waiters(p) == old(self).pending_dial_waiters(p) by {}
            assert forall|p: u64| #[trigger] self.pending_msgs(p) == old(self).pending_msgs(p) by {}
            assert forall|p: u64| #[trigger] self.conns(p) == old(self).conns(p) by {}
            assert(self.queries() == old(self).queries());
            assert(self.ongoing_dials_map() =~= old(self).ongoing_dials_map().remove(conn));
            Self::lemma_wf_unchanged_conns(*old(self), *self);
            Self::lemma_wf_unchanged_queries(*old(self), *self);
            assert forall|p1: u64, i1: int, p2: u64, i2: int|
                0 <= i1 < self.pending_dial_waiters(p1).len() && 0 <= i2
                    < self.pending_dial_waiters(p2).len() && (p1 != p2 || i1 != i2) implies #[trigger] self.pending_dial_waiters(
                p1,
            )[i1] != #[trigger] self.pending_dial_waiters(p2)[i2] by {
                assert(self.pending_dial_waiters(p1) == old(self).pending_dial_waiters(p1));
                assert(self.pending_dial_waiters(p2) == old(self).pending_dial_waiters(p2));
            }
            assert forall|c1: u64, c2: u64|
                c1 != c2 && self.ongoing_dials_map().contains_key(c1)
                    && self.ongoing_dials_map().contains_key(c2) implies #[trigger] self.ongoing_dials_map()[c1]
                != #[trigger] self.ongoing_dials_map()[c2] by {
                assert(self.ongoing_dials_map()[c1] == old(self).ongoing_dials_map()[c1]);
                assert(self.ongoing_dials_map()[c2] == old(self).ongoing_dials_map()[c2]);
            }
            assert forall|p: u64, i: int, c: u64|
                0 <= i < self.pending_dial_waiters(p).len()
                    && self.ongoing_dials_map().contains_key(c) implies #[trigger] self.pending_dial_waiters(
                p,
            )[i] != #[trigger] self.ongoing_dials_map()[c] by {
                assert(self.pending_dial_waiters(p) == old(self).pending_dial_waiters(p));
                assert(self.ongoing_dials_map()[c] == old(self).ongoing_dials_map()[c]);
            }
        }
        r
    }

    /// Forgets a connection that the swarm reports closed.
    pub fn handle_connection_closed(&mut self, peer: u64, conn: u64)
        requires
            old(self).wf(),
        ensures
            final(self).wf(),
            Self::topics_eq(*final(self), *old(self)),
            Self::seqs_eq(*final(self), *old(self)),
            Self::msgs_eq(*final(self), *old(self)),
            Self::dials_eq(*final(self), *old(self)),
            final(self).bootstrap_enabled() == old(self).bootstrap_enabled(),
            final(self).conns(peer) == old(self).conns(peer).filter(|c: u64| c != conn),
            forall|p: u64| p != peer ==> #[trigger] final(self).conns(p) == old(self).conns(p),
    {
        let ghost pre = old(self).conns(peer);
        match self.active_connections.remove(&peer) {
            Some(v) => {
                let mut kept: Vec<u64> = Vec::new();
                let n = v.len();
                let mut i: usize = 0;
                while i < n
                    invariant
                        n == v@.len(),
                        i <= n,
                        kept@ == v@.take(i as int).filter(|c: u64| c != conn),
                    decreases n - i,
                {
                    proof {
                        assert(v@.take(i + 1).drop_last() =~= v@.take(i as int));
                        assert(v@.take(i + 1).last() == v@[i as int]);
                        reveal_with_fuel(Seq::filter, 2);
                    }
                    if v[i] != conn {
                        kept.push(v[i]);
                    }
                    i = i + 1;
                }
                proof {
                    assert(v@.take(n as int) =~= v@);
                }
                self.active_connections.insert(peer, kept);
            },
            None => {
                proof {
                    assert(pre.filter(|c: u64| c != conn) =~= pre);
                }
            },
        }
        proof {
            Self::lemma_peer_only_change(*old(self), *self);
            assert forall|p: u64| #[trigger]
                self.pending_dial_waiters(p) == old(self).pending_dial_waiters(p) by {}
            assert forall|p: u64| #[trigger] self.pending_msgs(p) == old(self).pending_msgs(p) by {}
            assert(self.ongoing_dials_map() == old(self).ongoing_dials_map());
            assert(self.queries() == old(self).queries());
            assert forall|p: u64|
                p != peer implies #[trigger] self.conns(p) == old(self).conns(p) by {}
            Self::lemma_filter_sub(old(self).conns(peer), |c: u64| c != conn);
            Self::lemma_filter_distinct(old(self).conns(peer), |c: u64| c != conn);
        }
    }

    /// Filtering never lengthens a sequence.
    proof fn lemma_filter_sub(s: Seq<u64>, pred: spec_fn(u64) -> bool)
        ensures
            s.filter(pred).len() <= s.len(),
        decreases s.len(),
    {
        reveal_with_fuel(Seq::filter, 2);
        if s.len() > 0 {
            Self::lemma_filter_sub(s.drop_last(), pred);
        }
    }

    /// A filtered sequence of pairwise-distinct entries is itself
    /// pairwise distinct.
    proof fn lemma_filter_distinct(s: Seq<u64>, pred: spec_fn(u64) -> bool)
        requires
            forall|x: int, y: int| 0 <= x < y < s.len() ==> s[x] != s[y],
        ensures
            forall|i: int, j: int|
                0 <= i < j < s.filter(pred).len() ==> #[trigger] s.filter(pred)[i]
                    != #[trigger] s.filter(pred)[j],
        decreases s.len(),
    {
        reveal_with_fuel(Seq::filter, 2);
        if s.len() > 0 {
            assert forall|x: int, y: int|
                0 <= x < y < s.drop_last().len() implies s.drop_last()[x] != s.drop_last()[y] by {
                assert(s.drop_last()[x] == s[x] && s.drop_last()[y] == s[y]);
            }
            Self::lemma_filter_distinct(s.drop_last(), pred);
            let f = s.filter(pred);
            let fd = s.drop_last().filter(pred);
            if pred(s.last()) {
                assert(f == fd.push(s.last()));
                assert forall|i: int, j: int|
                    0 <= i < j < f.len() implies #[trigger] f[i] != #[trigger] f[j] by {
                    if j < f.len() - 1 {
                        assert(f[i] == fd[i] && f[j] == fd[j]);
                    } else {
                        assert(f[j] == s.last());
                        assert(f[i] == fd[i]);
                        Self::lemma_filter_member(s.drop_last(), pred, i);
                    }
                }
            }
        }
    }

    /// Every entry of a filtered sequence occurs in the original.
    proof fn lemma_filter_member(s: Seq<u64>, pred: spec_fn(u64) -> bool, i: int)
        requires
            0 <= i < s.filter(pred).len(),
        ensures
            exists|k: int| 0 <= k < s.len() && s[k] == s.filter(pred)[i],
        decreases s.len(),
    {
        reveal_with_fuel(Seq::filter, 2);
        if s.len() > 0 {
            let fd = s.drop_last().filter(pred);
            if i < fd.len() {
                Self::lemma_filter_member(s.drop_last(), pred, i);
                let k = choose|k: int|
                    0 <= k < s.drop_last().len() && s.drop_last()[k] == fd[i];
                assert(s[k] == s.drop_last()[k]);
            } else {
                assert(s[s.len() - 1] == s.filter(pred)[i]);
            }
        }
    }

    /// Empties the waiters parked for `peer`, appending one action per
    /// waiter according to `mode`.
    fn drain_dials(&mut self, peer: u64, mode: DialDrain, r: &mut Vec<Action>)
        ensures
            final(self).ongoing_dials == old(self).ongoing_dials,
            final(self).ongoing_queries == old(self).ongoing_queries,
            final(self).pending_messages == old(self).pending_messages,
            final(self).subscribed_topics == old(self).subscribed_topics,
            final(self).sequence_numbers == old(self).sequence_numbers,
            final(self).active_connections == old(self).active_connections,
            final(self).bootstrap == old(self).bootstrap,
            final(self).pending_dial_waiters(peer) == Seq::<u64>::empty(),
            forall|p: u64|
                p != peer ==> #[trigger] final(self).pending_dial_waiters(p) == old(
                    self,
                ).pending_dial_waiters(p),
            final(r)@.len() == old(r)@.len() + old(self).pending_dial_waiters(peer).len(),
            forall|i: int| 0 <= i < old(r)@.len() ==> #[trigger] final(r)@[i] == old(r)@[i],
            forall|i: int|
                0 <= i < old(self).pending_dial_waiters(peer).len()
                    ==> match mode {
                    DialDrain::ResolveTrue => is_resolve(
                        #[trigger] final(r)@[old(r)@.len() + i],
                        old(self).pending_dial_waiters(peer)[i],
                        true,
                    ),
                    DialDrain::ResolveFalse => is_resolve(
                        final(r)@[old(r)@.len() + i],
                        old(self).pending_dial_waiters(peer)[i],
                        false,
                    ),
                    DialDrain::Redial => is_dial(
                        final(r)@[old(r)@.len() + i],
                        peer,
                        old(self).pending_dial_waiters(peer)[i],
                    ),
                },
    {
        let ghost base = r@.len() as int;
        let ghost orig = old(self).pending_dial_waiters(peer);
        match self.pending_dials.remove(&peer) {
            Some(ws) => {
                let n = ws.len();
                let mut i: usize = 0;
                while i < n
                    invariant
                        n == ws@.len(),
                        ws@ == orig,
                        i <= n,
                        r@.len() == base + i,
                        base == old(r)@.len(),
                        forall|j: int| 0 <= j < base ==> #[trigger] r@[j] == old(r)@[j],
                        forall|j: int|
                            0 <= j < i ==> match mode {
                                DialDrain::ResolveTrue => is_resolve(
                                    #[trigger] r@[base + j],
                                    orig[j],
                                    true,
                                ),
                                DialDrain::ResolveFalse => is_resolve(
                                    r@[base + j],
                                    orig[j],
                                    false,
                                ),
                                DialDrain::Redial => is_dial(r@[base + j], peer, orig[j]),
                            },
                    decreases n - i,
                {
                    let w = ws[i];
                    match mode {
                        DialDrain::ResolveTrue => r.push(
                            Action::Resolve { waiter: w, result: true },
                        ),
                        DialDrain::ResolveFalse => r.push(
                            Action::Resolve { waiter: w, result: false },
                        ),
                        DialDrain::Redial => r.push(Action::DialPeer { peer, waiter: w }),
                    }
                    i = i + 1;
                }
            },
            None => {},
        }
        proof {
            assert forall|p: u64|
                p != peer implies #[trigger] self.pending_dial_waiters(p) == old(
                self,
            ).pending_dial_waiters(p) by {}
        }
    }

    /// Sends every payload buffered for `peer`, appending one send action
    /// per payload, oldest first.
    fn flush_msgs(&mut self, peer: u64, r: &mut Vec<Action>)
        ensures
            final(self).pending_dials == old(self).pending_dials,
            final(self).ongoing_dials == old(self).ongoing_dials,
            final(self).ongoing_queries == old(self).ongoing_queries,
            final(self).subscribed_topics == old(self).subscribed_topics,
            final(self).sequence_numbers == old(self).sequence_numbers,
            final(self).active_connections == old(self).active_connections,
            final(self).bootstrap == old(self).bootstrap,
            final(self).pending_msgs(peer) == Seq::<Seq<u8>>::empty(),
            forall|p: u64|
                p != peer ==> #[trigger] final(self).pending_msgs(p) == old(self).pending_msgs(p),
            final(r)@.len() == old(r)@.len() + old(self).pending_msgs(peer).len(),
            forall|i: int| 0 <= i < old(r)@.len() ==> #[trigger] final(r)@[i] == old(r)@[i],
            forall|i: int|
                0 <= i < old(self).pending_msgs(peer).len() ==> is_send_msg(
                    #[trigger] final(r)@[old(r)@.len() + i],
                    peer,
                    old(self).pending_msgs(peer)[i],
                ),
    {
        let ghost base = r@.len() as int;
        let ghost orig = old(self).pending_msgs(peer);
        match self.pending_messages.remove(&peer) {
            Some(mut msgs) => {
                let ghost raw = msgs@;
                let n = msgs.len();
                let mut i: usize = 0;
                while i < n
                    invariant
                        n == raw.len(),
                        raw.map_values(|v: Vec<u8>| v@) == orig,
                        i <= n,
                        msgs@ == raw.skip(i as int),
                        r@.len() == base + i,
                        base == old(r)@.len(),
                        forall|j: int| 0 <= j < base ==> #[trigger] r@[j] == old(r)@[j],
                        forall|j: int|
                            0 <= j < i ==> is_send_msg(#[trigger] r@[base + j], peer, orig[j]),
                    decreases n - i,
                {
                    let m = msgs.remove(0);
                    proof {
                        assert(raw.skip(i as int)[0] == raw[i as int]);
                        assert(raw.skip(i as int).remove(0) =~= raw.skip(i + 1));
                        assert(orig[i as int] == raw[i as int]@);
                    }
                    r.push(Action::SendMsg { peer, payload: m });
                    i = i + 1;
                }
            },
            None => {},
        }
        proof {
            assert forall|p: u64|
                p != peer implies #[trigger] self.pending_msgs(p) == old(self).pending_msgs(
                p,
            ) by {}
        }
    }

    /// Cancels any lookup for the peer, resolves the waiter of the dial
    /// that produced this connection and all waiters parked for the peer
    /// with `true`, flushes the payloads buffered for it, and records the
    /// connection, closing the oldest one when the peer now exceeds
    /// [`MAX_CONNS_PER_PEER`].
    pub fn handle_connection_established(&mut self, peer: u64, conn: u64) -> (r: Vec<Action>)
        requires
            old(self).wf(),
            !old(self).conns(peer).contains(conn),
        ensures
            final(self).wf(),
            Self::topics_eq(*final(self), *old(self)),
            Self::seqs_eq(*final(self), *old(self)),
            final(self).bootstrap_enabled() == old(self).bootstrap_enabled(),
            final(self).queries() == old(self).queries().remove(peer),
            final(self).ongoing_dials_map() == old(self).ongoing_dials_map().remove(conn),
            final(self).pending_dial_waiters(peer) == Seq::<u64>::empty(),
            forall|p: u64|
                p != peer ==> #[trigger] final(self).pending_dial_waiters(p) == old(
                    self,
                ).pending_dial_waiters(p),
            final(self).pending_msgs(peer) == Seq::<Seq<u8>>::empty(),
            forall|p: u64|
                p != peer ==> #[trigger] final(self).pending_msgs(p) == old(self).pending_msgs(p),
            final(self).conns(peer) == ({
                let pushed = seq![conn] + old(self).conns(peer);
                if pushed.len() > MAX_CONNS_PER_PEER {
                    pushed.drop_last()
                } else {
                    pushed
                }
            }),
            forall|p: u64| p != peer ==> #[trigger] final(self).conns(p) == old(self).conns(p),
            old(self).conns(peer).len() + 1 > MAX_CONNS_PER_PEER ==> (
            r@[r@.len() - 1] matches Action::CloseConnection { conn: c } && c == old(
                self,
            ).conns(peer).last()),
            old(self).ongoing_dials_map().contains_key(conn) ==> {
                &&& r@.len() == 1 + old(self).pending_dial_waiters(peer).len() + old(
                    self,
                ).pending_msgs(peer).len() + (if old(self).conns(peer).len() + 1
                    > MAX_CONNS_PER_PEER {
                    1int
                } else {
                    0int
                })
                &&& is_resolve(r@[0], old(self).ongoing_dials_map()[conn], true)
                &&& forall|i: int|
                    0 <= i < old(self).pending_dial_waiters(peer).len() ==> is_resolve(
                        #[trigger] r@[1 + i],
                        old(self).pending_dial_waiters(peer)[i],
                        true,
                    )
                &&& forall|i: int|
                    0 <= i < old(self).pending_msgs(peer).len() ==> is_send_msg(
                        #[trigger] r@[1 + old(self).pending_dial_waiters(peer).len() + i],
                        peer,
                        old(self).pending_msgs(peer)[i],
                    )
            },
            !old(self).ongoing_dials_map().contains_key(conn) ==> {
                &&& r@.len() == old(self).pending_dial_waiters(peer).len() + old(
                    self,
                ).pending_msgs(peer).len() + (if old(self).conns(peer).len() + 1
                    > MAX_CONNS_PER_PEER {
                    1int
                } else {
                    0int
                })
                &&& forall|i: int|
                    0 <= i < old(self).pending_dial_waiters(peer).len() ==> is_resolve(
                        #[trigger] r@[i],
                        old(self).pending_dial_waiters(peer)[i],
                        true,
                    )
                &&& forall|i: int|
                    0 <= i < old(self).pending_msgs(peer).len() ==> is_send_msg(
                        #[trigger] r@[old(self).pending_dial_waiters(peer).len() + i],
                        peer,
                        old(self).pending_msgs(peer)[i],
                    )
            },
    {
        let mut r: Vec<Action> = Vec::new();
        let _ = query_map_remove_by_left(&mut self.ongoing_queries, peer);
        match self.ongoing_dials.remove(&conn) {
            Some(w) => {
                r.push(Action::Resolve { waiter: w, result: true });
            },
            None => {
                proof {
                    assert(self.ongoing_dials@ =~= old(self).ongoing_dials@.remove(conn));
                }
            },
        }
        let ghost s_dialed = *self;
        let ghost base = r@.len() as int;
        self.drain_dials(peer, DialDrain::ResolveTrue, &mut r);
        let ghost s_drained = *self;
        self.flush_msgs(peer, &mut r);
        let ghost s_flushed = *self;
        let mut v = match self.active_connections.remove(&peer) {
            Some(v) => v,
            None => Vec::new(),
        };
        let ghost prev = old(self).conns(peer);
        proof {
            assert(v@ == prev);
        }
        v.insert(0, conn);
        proof {
            assert(v@ =~= seq![conn] + prev);
        }
        if v.len() > MAX_CONNS_PER_PEER {
            match v.pop() {
                Some(oldest) => {
                    r.push(Action::CloseConnection { conn: oldest });
                },
                None => {},
            }
        }
        self.active_connections.insert(peer, v);
        proof {
            let post = *self;
            let pre = *old(self);
            assert(post.conns(peer) == v@);
            assert forall|p: u64|
                p != peer implies #[trigger] post.conns(p) == pre.conns(p) by {}
            assert forall|p: u64|
                p != peer implies #[trigger] post.pending_dial_waiters(p)
                == pre.pending_dial_waiters(p) by {
                assert(s_dialed.pending_dial_waiters(p) == pre.pending_dial_waiters(p));
                assert(s_drained.pending_dial_waiters(p) == s_dialed.pending_dial_waiters(p));
                assert(post.pending_dial_waiters(p) == s_drained.pending_dial_waiters(p));
            }
            assert(post.pending_dial_waiters(peer) == s_drained.pending_dial_waiters(peer));
            assert forall|p: u64|
                p != peer implies #[trigger] post.pending_msgs(p) == pre.pending_msgs(p) by {
                assert(s_drained.pending_msgs(p) == pre.pending_msgs(p));
                assert(s_flushed.pending_msgs(p) == s_drained.pending_msgs(p));
                assert(post.pending_msgs(p) == s_flushed.pending_msgs(p));
            }
            assert(post.pending_msgs(peer) == s_flushed.pending_msgs(peer));
            assert(s_drained.pending_msgs(peer) == pre.pending_msgs(peer));
            assert(s_dialed.pending_dial_waiters(peer) == pre.pending_dial_waiters(peer));
            assert(post.queries() == pre.queries().remove(peer));
            assert(post.ongoing_dials_map() =~= pre.ongoing_dials_map().remove(conn));
            let nw = pre.pending_dial_waiters(peer).len() as int;
            let nm = pre.pending_msgs(peer).len() as int;
            if pre.ongoing_dials_map().contains_key(conn) {
                assert forall|i: int|
                    0 <= i < nw implies is_resolve(
                    #[trigger] r@[1 + i],
                    pre.pending_dial_waiters(peer)[i],
                    true,
                ) by {
                    assert(is_resolve(r@[base + i], s_dialed.pending_dial_waiters(peer)[i], true));
                }
                assert forall|i: int|
                    0 <= i < nm implies is_send_msg(
                    #[trigger] r@[1 + nw + i],
                    peer,
                    pre.pending_msgs(peer)[i],
                ) by {
                    assert(is_send_msg(r@[base + nw + i], peer, s_drained.pending_msgs(peer)[i]));
                }
            } else {
                assert forall|i: int|
                    0 <= i < nw implies is_resolve(
                    #[trigger] r@[i],
                    pre.pending_dial_waiters(peer)[i],
                    true,
                ) by {
                    assert(is_resolve(r@[base + i], s_dialed.pending_dial_waiters(peer)[i], true));
                }
                assert forall|i: int|
                    0 <= i < nm implies is_send_msg(
                    #[trigger] r@[nw + i],
                    peer,
                    pre.pending_msgs(peer)[i],
                ) by {
                    assert(is_send_msg(r@[base + nw + i], peer, s_drained.pending_msgs(peer)[i]));
                }
            }
            Self::lemma_peer_only_change(pre, post);
            assert forall|p1: u64, p2: u64|
                p1 != p2 && post.queries().contains_key(p1) && post.queries().contains_key(
                    p2,
                ) implies #[trigger] post.queries()[p1] != #[trigger] post.queries()[p2] by {
                assert(post.queries()[p1] == pre.queries()[p1]);
                assert(post.queries()[p2] == pre.queries()[p2]);
            }
            // invariant: connection list for `peer`
            assert(post.conns(peer).len() <= MAX_CONNS_PER_PEER);
            assert forall|i: int, j: int|
                0 <= i < j < post.conns(peer).len() implies post.conns(peer)[i] != post.conns(
                peer,
            )[j] by {
                if i == 0 {
                    assert(post.conns(peer)[j] == prev[j - 1]);
                    assert(prev.contains(prev[j - 1]));
                } else {
                    assert(post.conns(peer)[i] == prev[i - 1]);
                    assert(post.conns(peer)[j] == prev[j - 1]);
                }
            }
            assert forall|p: u64| (#[trigger] post.conns(p)).len() <= MAX_CONNS_PER_PEER by {
                if p != peer {
                    assert(post.conns(p) == pre.conns(p));
                }
            }
            assert forall|p: u64, i: int, j: int|
                0 <= i < j < post.conns(p).len() implies #[trigger] post.conns(p)[i]
                != #[trigger] post.conns(p)[j] by {
                if p != peer {
                    assert(post.conns(p) == pre.conns(p));
                }
            }
            // invariant: waiters
            assert forall|p1: u64, i1: int, p2: u64, i2: int|
                0 <= i1 < post.pending_dial_waiters(p1).len() && 0 <= i2
                    < post.pending_dial_waiters(p2).len() && (p1 != p2 || i1 != i2) implies #[trigger] post.pending_dial_waiters(
                p1,
            )[i1] != #[trigger] post.pending_dial_waiters(p2)[i2] by {
                assert(post.pending_dial_waiters(p1) == pre.pending_dial_waiters(p1));
                assert(post.pending_dial_waiters(p2) == pre.pending_dial_waiters(p2));
            }
            assert forall|c1: u64, c2: u64|
                c1 != c2 && post.ongoing_dials_map().contains_key(c1)
                    && post.ongoing_dials_map().contains_key(c2) implies #[trigger] post.ongoing_dials_map()[c1]
                != #[trigger] post.ongoing_dials_map()[c2] by {
                assert(post.ongoing_dials_map()[c1] == pre.ongoing_dials_map()[c1]);
                assert(post.ongoing_dials_map()[c2] == pre.ongoing_dials_map()[c2]);
            }
            assert forall|p: u64, i: int, c: u64|
                0 <= i < post.pending_dial_waiters(p).len()
                    && post.ongoing_dials_map().contains_key(c) implies #[trigger] post.pending_dial_waiters(
                p,
            )[i] != #[trigger] post.ongoing_dials_map()[c] by {
                assert(post.pending_dial_waiters(p) == pre.pending_dial_waiters(p));
                assert(post.ongoing_dials_map()[c] == pre.ongoing_dials_map()[c]);
            }
        }
        r
    }

    /// The peer that a known query is resolving, if any.
    pub open spec fn query_target(self, q: u64) -> Option<u64> {
        if exists|p: u64| #[trigger] self.queries().contains_key(p) && self.queries()[p] == q {
            Some(
                choose|p: u64| #[trigger] self.queries().contains_key(p) && self.queries()[p] == q,
            )
        } else {
            None
        }
    }

    /// The invariant survives draining one peer's waiters and messages
    /// while the queries shrink and everything else stands.
    proof fn lemma_wf_after_peer_drain(pre: Self, post: Self, peer: u64)
        requires
            pre.wf(),
            forall|p: u64| #[trigger] post.conns(p) == pre.conns(p),
            post.pending_dial_waiters(peer) == Seq::<u64>::empty(),
            forall|p: u64|
                p != peer ==> #[trigger] post.pending_dial_waiters(p) == pre.pending_dial_waiters(
                    p,
                ),
            post.ongoing_dials_map() == pre.ongoing_dials_map(),
            forall|p: u64|
                #[trigger] post.queries().contains_key(p) ==> pre.queries().contains_key(p)
                    && post.queries()[p] == pre.queries()[p],
            post.maps_wf(),
        ensures
            post.wf(),
    {
        assert forall|p: u64| (#[trigger] post.conns(p)).len() <= MAX_CONNS_PER_PEER by {
            assert(post.conns(p) == pre.conns(p));
        }
        assert forall|p: u64, i: int, j: int|
            0 <= i < j < post.conns(p).len() implies #[trigger] post.conns(p)[i]
            != #[trigger] post.conns(p)[j] by {
            assert(post.conns(p) == pre.conns(p));
        }
        assert forall|p1: u64, i1: int, p2: u64, i2: int|
            0 <= i1 < post.pending_dial_waiters(p1).len() && 0 <= i2 < post.pending_dial_waiters(
                p2,
            ).len() && (p1 != p2 || i1 != i2) implies #[trigger] post.pending_dial_waiters(p1)[i1]
            != #[trigger] post.pending_dial_waiters(p2)[i2] by {
            assert(p1 != peer && p2 != peer);
            assert(post.pending_dial_waiters(p1) == pre.pending_dial_waiters(p1));
            assert(post.pending_dial_waiters(p2) == pre.pending_dial_waiters(p2));
        }
        assert forall|c1: u64, c2: u64|
            c1 != c2 && post.ongoing_dials_map().contains_key(c1)
                && post.ongoing_dials_map().contains_key(c2) implies #[trigger] post.ongoing_dials_map()[c1]
            != #[trigger] post.ongoing_dials_map()[c2] by {
            assert(post.ongoing_dials_map()[c1] == pre.ongoing_dials_map()[c1]);
            assert(post.ongoing_dials_map()[c2] == pre.ongoing_dials_map()[c2]);
        }
        assert forall|p: u64, i: int, c: u64|
            0 <= i < post.pending_dial_waiters(p).len() && post.ongoing_dials_map().contains_key(
                c,
            ) implies #[trigger] post.pending_dial_waiters(p)[i]
            != #[trigger] post.ongoing_dials_map()[c] by {
            assert(p != peer);
            assert(post.pending_dial_waiters(p) == pre.pending_dial_waiters(p));
            assert(post.ongoing_dials_map()[c] == pre.ongoing_dials_map()[c]);
        }
        assert forall|p1: u64, p2: u64|
            p1 != p2 && post.queries().contains_key(p1) && post.queries().contains_key(
                p2,
            ) implies #[trigger] post.queries()[p1] != #[trigger] post.queries()[p2] by {
            assert(post.queries()[p1] == pre.queries()[p1]);
            assert(post.queries()[p2] == pre.queries()[p2]);
        }
    }

    /// A looked-up peer was found: every parked waiter gets a fresh dial
    /// attempt and the buffered payloads go out.
    fn peer_found(&mut self, peer: u64, r: &mut Vec<Action>)
        ensures
            final(self).ongoing_dials == old(self).ongoing_dials,
            final(self).ongoing_queries == old(self).ongoing_queries,
            final(self).subscribed_topics == old(self).subscribed_topics,
            final(self).sequence_numbers == old(self).sequence_numbers,
            final(self).active_connections == old(self).active_connections,
            final(self).bootstrap == old(self).bootstrap,
            final(self).pending_dial_waiters(peer) == Seq::<u64>::empty(),
            forall|p: u64|
                p != peer ==> #[trigger] final(self).pending_dial_waiters(p) == old(
                    self,
                ).pending_dial_waiters(p),
            final(self).pending_msgs(peer) == Seq::<Seq<u8>>::empty(),
            forall|p: u64|
                p != peer ==> #[trigger] final(self).pending_msgs(p) == old(self).pending_msgs(p),
            final(r)@.len() == old(r)@.len() + old(self).pending_dial_waiters(peer).len() + old(
                self,
            ).pending_msgs(peer).len(),
            forall|i: int| 0 <= i < old(r)@.len() ==> #[trigger] final(r)@[i] == old(r)@[i],
            forall|i: int|
                0 <= i < old(self).pending_dial_waiters(peer).len() ==> is_dial(
                    #[trigger] final(r)@[old(r)@.len() + i],
                    peer,
                    old(self).pending_dial_waiters(peer)[i],
                ),
            forall|i: int|
                0 <= i < old(self).pending_msgs(peer).len() ==> is_send_msg(
                    #[trigger] final(r)@[old(r)@.len() + old(self).pending_dial_waiters(
                        peer,
                    ).len() + i],
                    peer,
                    old(self).pending_msgs(peer)[i],
                ),
    {
        self.drain_dials(peer, DialDrain::Redial, r);
        let ghost s_drained = *self;
        self.flush_msgs(peer, r);
        proof {
            assert(s_drained.pending_msgs(peer) == old(self).pending_msgs(peer));
            assert forall|p: u64|
                p != peer implies #[trigger] self.pending_msgs(p) == old(self).pending_msgs(
                p,
            ) by {
                assert(s_drained.pending_msgs(p) == old(self).pending_msgs(p));
                assert(self.pending_msgs(p) == s_drained.pending_msgs(p));
            }
            assert forall|p: u64|
                p != peer implies #[trigger] self.pending_dial_waiters(p) == old(
                self,
            ).pending_dial_waiters(p) by {
                assert(self.pending_dial_waiters(p) == s_drained.pending_dial_waiters(p));
            }
            assert(self.pending_dial_waiters(peer) == s_drained.pending_dial_waiters(peer));
        }
    }

    /// A looked-up peer could not be found: every parked waiter resolves
    /// with `false` and the payloads buffered for the peer are dropped.
    /// Returns how many were dropped, for the shell's warning.
    fn peer_not_found(&mut self, peer: u64, r: &mut Vec<Action>) -> (dropped: usize)
        ensures
            final(self).ongoing_dials == old(self).ongoing_dials,
            final(self).ongoing_queries == old(self).ongoing_queries,
            final(self).subscribed_topics == old(self).subscribed_topics,
            final(self).sequence_numbers == old(self).sequence_numbers,
            final(self).active_connections == old(self).active_connections,
            final(self).bootstrap == old(self).bootstrap,
            final(self).pending_dial_waiters(peer) == Seq::<u64>::empty(),
            forall|p: u64|
                p != peer ==> #[trigger] final(self).pending_dial_waiters(p) == old(
                    self,
                ).pending_dial_waiters(p),
            final(self).pending_msgs(peer) == Seq::<Seq<u8>>::empty(),
            forall|p: u64|
                p != peer ==> #[trigger] final(self).pending_msgs(p) == old(self).pending_msgs(p),
            dropped == old(self).pending_msgs(peer).len(),
            final(r)@.len() == old(r)@.len() + old(self).pending_dial_waiters(peer).len(),
            forall|i: int| 0 <= i < old(r)@.len() ==> #[trigger] final(r)@[i] == old(r)@[i],
            forall|i: int|
                0 <= i < old(self).pending_dial_waiters(peer).len() ==> is_resolve(
                    #[trigger] final(r)@[old(r)@.len() + i],
                    old(self).pending_dial_waiters(peer)[i],
                    false,
                ),
    {
        self.drain_dials(peer, DialDrain::ResolveFalse, r);
        let ghost s_drained = *self;
        let dropped = match self.pending_messages.remove(&peer) {
            Some(msgs) => msgs.len(),
            None => 0,
        };
        proof {
            assert(s_drained.pending_msgs(peer) == old(self).pending_msgs(peer));
            assert(self.pending_msgs(peer) == Seq::<Seq<u8>>::empty());
            assert forall|p: u64|
                p != peer implies #[trigger] self.pending_msgs(p) == old(self).pending_msgs(
                p,
            ) by {
                assert(s_drained.pending_msgs(p) == old(self).pending_msgs(p));
                assert(self.pending_msgs(p) == s_drained.pending_msgs(p));
            }
            assert forall|p: u64|
                p != peer implies #[trigger] self.pending_dial_waiters(p) == old(
                self,
            ).pending_dial_waiters(p) by {
                assert(self.pending_dial_waiters(p) == s_drained.pending_dial_waiters(p));
            }
            assert(self.pending_dial_waiters(peer) == s_drained.pending_dial_waiters(peer));
        }
        dropped
    }

    /// An identify exchange with a peer counts as its lookup succeeding:
    /// the query is closed, parked waiters dial again and buffered
    /// payloads go out. The shell adds the peer's reachable addresses to
    /// the DHT before calling this.
    pub fn handle_identify_event(&mut self, peer: u64) -> (r: Vec<Action>)
        requires
            old(self).wf(),
        ensures
            final(self).wf(),
            Self::topics_eq(*final(self), *old(self)),
            Self::seqs_eq(*final(self), *old(self)),
            Self::conns_eq(*final(self), *old(self)),
            final(self).bootstrap_enabled() == old(self).bootstrap_enabled(),
            final(self).queries() == old(self).queries().remove(peer),
            final(self).ongoing_dials_map() == old(self).ongoing_dials_map(),
            !old(self).queries().contains_key(peer) ==> Self::dials_eq(*final(self), *old(self))
                && Self::msgs_eq(*final(self), *old(self)) && r@.len() == 0,
            old(self).queries().contains_key(peer) ==> {
                &&& final(self).pending_dial_waiters(peer) == Seq::<u64>::empty()
                &&& forall|p: u64|
                    p != peer ==> #[trigger] final(self).pending_dial_waiters(p) == old(
                        self,
                    ).pending_dial_waiters(p)
                &&& final(self).pending_msgs(peer) == Seq::<Seq<u8>>::empty()
                &&& forall|p: u64|
                    p != peer ==> #[trigger] final(self).pending_msgs(p) == old(
                        self,
                    ).pending_msgs(p)
                &&& r@.len() == old(self).pending_dial_waiters(peer).len() + old(
                    self,
                ).pending_msgs(peer).len()
                &&& forall|i: int|
                    0 <= i < old(self).pending_dial_waiters(peer).len() ==> is_dial(
                        #[trigger] r@[i],
                        peer,
                        old(self).pending_dial_waiters(peer)[i],
                    )
                &&& forall|i: int|
                    0 <= i < old(self).pending_msgs(peer).len() ==> is_send_msg(
                        #[trigger] r@[old(self).pending_dial_waiters(peer).len() + i],
                        peer,
                        old(self).pending_msgs(peer)[i],
                    )
            },
    {
        let mut r: Vec<Action> = Vec::new();
        let removed = query_map_remove_by_left(&mut self.ongoing_queries, peer);
        let ghost s_removed = *self;
        let ghost base = r@.len() as int;
        if removed.is_some() {
            self.peer_found(peer, &mut r);
            proof {
                let pre = *old(self);
                let post = *self;
                let nw = s_removed.pending_dial_waiters(peer).len() as int;
                let nm = s_removed.pending_msgs(peer).len() as int;
                assert forall|i: int|
                    0 <= i < nw implies is_dial(
                    #[trigger] r@[i],
                    peer,
                    pre.pending_dial_waiters(peer)[i],
                ) by {
                    assert(is_dial(r@[base + i], peer, s_removed.pending_dial_waiters(peer)[i]));
                }
                assert forall|i: int|
                    0 <= i < nm implies is_send_msg(
                    #[trigger] r@[nw + i],
                    peer,
                    pre.pending_msgs(peer)[i],
                ) by {
                    assert(is_send_msg(r@[base + nw + i], peer, s_removed.pending_msgs(peer)[i]));
                }
                assert(s_removed.pending_msgs(peer) == pre.pending_msgs(peer));
                assert(s_removed.pending_dial_waiters(peer) == pre.pending_dial_waiters(peer));
                assert forall|p: u64|
                    p != peer implies #[trigger] post.pending_dial_waiters(p)
                    == pre.pending_dial_waiters(p) by {
                    assert(post.pending_dial_waiters(p) == s_removed.pending_dial_waiters(p));
                    assert(s_removed.pending_dial_waiters(p) == pre.pending_dial_waiters(p));
                }
                assert forall|p: u64|
                    p != peer implies #[trigger] post.pending_msgs(p) == pre.pending_msgs(p) by {
                    assert(post.pending_msgs(p) == s_removed.pending_msgs(p));
                    assert(s_removed.pending_msgs(p) == pre.pending_msgs(p));
                }
                assert forall|p: u64| #[trigger] post.conns(p) == pre.conns(p) by {}
                Self::lemma_peer_only_change(pre, post);
                assert forall|p: u64|
                    #[trigger] post.queries().contains_key(p) implies pre.queries().contains_key(
                    p,
                ) && post.queries()[p] == pre.queries()[p] by {}
                Self::lemma_wf_after_peer_drain(pre, post, peer);
            }
        } else {
            proof {
                let pre = *old(self);
                let post = *self;
                assert(post.queries() =~= pre.queries().remove(peer));
                assert(pre.queries().remove(peer) =~= pre.queries());
                assert forall|p: u64| #[trigger] post.conns(p) == pre.conns(p) by {}
                assert forall|p: u64| #[trigger]
                    post.pending_dial_waiters(p) == pre.pending_dial_waiters(p) by {}
                assert forall|p: u64| #[trigger] post.pending_msgs(p) == pre.pending_msgs(p) by {}
                Self::lemma_peer_only_change(pre, post);
                Self::lemma_wf_unchanged_conns(pre, post);
                Self::lemma_wf_unchanged_waiters(pre, post);
                assert forall|p1: u64, p2: u64|
                    p1 != p2 && post.queries().contains_key(p1) && post.queries().contains_key(
                        p2,
                    ) implies #[trigger] post.queries()[p1] != #[trigger] post.queries()[p2] by {
                    assert(post.queries()[p1] == pre.queries()[p1]);
                    assert(post.queries()[p2] == pre.queries()[p2]);
                }
            }
        }
        r
    }

    /// Progress of a closest-peers query: if the reported peer set holds
    /// the peer the query was started for, the peer is found; if instead
    /// this was the query's last step, the peer was not found, parked
    /// waiters resolve with `false`, and the payloads buffered for it are
    /// dropped — their number is returned for the shell's warning.
    pub fn handle_kademlia_event(&mut self, query: u64, found: bool, finished: bool) -> (r: (
        Vec<Action>,
        usize,
    ))
        requires
            old(self).wf(),
        ensures
            final(self).wf(),
            Self::topics_eq(*final(self), *old(self)),
            Self::seqs_eq(*final(self), *old(self)),
            Self::conns_eq(*final(self), *old(self)),
            final(self).bootstrap_enabled() == old(self).bootstrap_enabled(),
            final(self).ongoing_dials_map() == old(self).ongoing_dials_map(),
            old(self).query_target(query) is None || (!found && !finished) ==> Self::dials_eq(
                *final(self),
                *old(self),
            ) && Self::msgs_eq(*final(self), *old(self)) && r.0@.len() == 0 && r.1 == 0,
            ({
                match old(self).query_target(query) {
                    Some(peer) => {
                        let nw = old(self).pending_dial_waiters(peer).len();
                        let nm = old(self).pending_msgs(peer).len();
                        &&& (found ==> {
                            &&& final(self).queries() == old(self).queries().remove(peer)
                            &&& final(self).pending_dial_waiters(peer) == Seq::<u64>::empty()
                            &&& forall|p: u64|
                                p != peer ==> #[trigger] final(self).pending_dial_waiters(p)
                                    == old(self).pending_dial_waiters(p)
                            &&& final(self).pending_msgs(peer) == Seq::<Seq<u8>>::empty()
                            &&& forall|p: u64|
                                p != peer ==> #[trigger] final(self).pending_msgs(p) == old(
                                    self,
                                ).pending_msgs(p)
                            &&& r.0@.len() == nw + nm
                            &&& r.1 == 0
                            &&& forall|i: int|
                                0 <= i < nw ==> is_dial(
                                    #[trigger] r.0@[i],
                                    peer,
                                    old(self).pending_dial_waiters(peer)[i],
                                )
                            &&& forall|i: int|
                                0 <= i < nm ==> is_send_msg(
                                    #[trigger] r.0@[nw + i],
                                    peer,
                                    old(self).pending_msgs(peer)[i],
                                )
                        })
                        &&& (!found && finished ==> {
                            &&& final(self).queries() == old(self).queries().remove(peer)
                            &&& final(self).pending_dial_waiters(peer) == Seq::<u64>::empty()
                            &&& forall|p: u64|
                                p != peer ==> #[trigger] final(self).pending_dial_waiters(p)
                                    == old(self).pending_dial_waiters(p)
                            &&& final(self).pending_msgs(peer) == Seq::<Seq<u8>>::empty()
                            &&& forall|p: u64|
                                p != peer ==> #[trigger] final(self).pending_msgs(p) == old(
                                    self,
                                ).pending_msgs(p)
                            &&& r.0@.len() == nw
                            &&& r.1 == nm
                            &&& forall|i: int|
                                0 <= i < nw ==> is_resolve(
                                    #[trigger] r.0@[i],
                                    old(self).pending_dial_waiters(peer)[i],
                                    false,
                                )
                        })
                    },
                    None => true,
                }
            }),
    {
        let mut r: Vec<Action> = Vec::new();
        let peer = match query_map_get_by_right(&self.ongoing_queries, query) {
            Some(peer) => peer,
            None => {
                proof {
                    assert(old(self).query_target(query) is None);
                }
                return (r, 0);
            },
        };
        proof {
            let chosen = choose|p: u64|
                #[trigger] old(self).queries().contains_key(p) && old(self).queries()[p] == query;
            assert(old(self).queries().contains_key(peer) && old(self).queries()[peer] == query);
            assert(old(self).query_target(query) == Some(chosen));
            assert(chosen == peer);
        }
        if !found && !finished {
            return (r, 0);
        }
        let _ = query_map_remove_by_right(&mut self.ongoing_queries, query);
        let ghost s_removed = *self;
        proof {
            assert(s_removed.queries() == old(self).queries().remove(peer));
        }
        let ghost base = r@.len() as int;
        let mut dropped: usize = 0;
        if found {
            self.peer_found(peer, &mut r);
        } else {
            dropped = self.peer_not_found(peer, &mut r);
        }
        proof {
            let pre = *old(self);
            let post = *self;
            let nw = s_removed.pending_dial_waiters(peer).len() as int;
            let nm = s_removed.pending_msgs(peer).len() as int;
            if found {
                assert forall|i: int|
                    0 <= i < nw implies is_dial(
                    #[trigger] r@[i],
                    peer,
                    pre.pending_dial_waiters(peer)[i],
                ) by {
                    assert(is_dial(r@[base + i], peer, s_removed.pending_dial_waiters(peer)[i]));
                }
                assert forall|i: int|
                    0 <= i < nm implies is_send_msg(
                    #[trigger] r@[nw + i],
                    peer,
                    pre.pending_msgs(peer)[i],
                ) by {
                    assert(is_send_msg(r@[base + nw + i], peer, s_removed.pending_msgs(peer)[i]));
                }
            } else {
                assert forall|i: int|
                    0 <= i < nw implies is_resolve(
                    #[trigger] r@[i],
                    pre.pending_dial_waiters(peer)[i],
                    false,
                ) by {
                    assert(is_resolve(
                        r@[base + i],
                        s_removed.pending_dial_waiters(peer)[i],
                        false,
                    ));
                }
            }
            assert(s_removed.pending_msgs(peer) == pre.pending_msgs(peer));
            assert(s_removed.pending_dial_waiters(peer) == pre.pending_dial_waiters(peer));
            assert forall|p: u64|
                p != peer implies #[trigger] post.pending_dial_waiters(p)
                == pre.pending_dial_waiters(p) by {
                assert(post.pending_dial_waiters(p) == s_removed.pending_dial_waiters(p));
                assert(s_removed.pending_dial_waiters(p) == pre.pending_dial_waiters(p));
            }
            assert forall|p: u64|
                p != peer implies #[trigger] post.pending_msgs(p) == pre.pending_msgs(p) by {
                assert(post.pending_msgs(p) == s_removed.pending_msgs(p));
                assert(s_removed.pending_msgs(p) == pre.pending_msgs(p));
            }
            assert forall|p: u64| #[trigger] post.conns(p) == pre.conns(p) by {}
            Self::lemma_peer_only_change(pre, post);
            assert(post.queries() == pre.queries().remove(peer));
            assert forall|p: u64|
                #[trigger] post.queries().contains_key(p) implies pre.queries().contains_key(p)
                && post.queries()[p] == pre.queries()[p] by {}
            Self::lemma_wf_after_peer_drain(pre, post, peer);
        }
        (r, dropped)
    }

    /// Routes an outbound message: a topic means broadcast; a recipient
    /// that is connected or has a known address is sent to right away;
    /// otherwise the payload is buffered and an address lookup is ensured.
    /// A message with neither recipient nor topic is dropped.
    pub fn handle_outbound_msg(&mut self, msg: Message, addr_known: bool) -> (r: Vec<Action>)
        requires
            old(self).wf(),
        ensures
            final(self).wf(),
            Self::topics_eq(*final(self), *old(self)),
            Self::seqs_eq(*final(self), *old(self)),
            Self::conns_eq(*final(self), *old(self)),
            Self::dials_eq(*final(self), *old(self)),
            final(self).bootstrap_enabled() == old(self).bootstrap_enabled(),
            ({
                match msg.topic {
                    Some(t) => Self::msgs_eq(*final(self), *old(self)) && r@.len() == 1 && (
                    r@[0] matches Action::Publish { topic, payload } && topic@ == t@ && payload@
                        == msg.content@),
                    None => match msg.peer_id {
                        None => Self::msgs_eq(*final(self), *old(self)) && r@.len() == 0,
                        Some(peer) => {
                            if old(self).is_connected(peer) || addr_known {
                                Self::msgs_eq(*final(self), *old(self)) && r@.len() == 1
                                    && is_send_msg(r@[0], peer, msg.content@)
                            } else {
                                &&& final(self).pending_msgs(peer) == old(self).pending_msgs(
                                    peer,
                                ).push(msg.content@)
                                &&& forall|p: u64|
                                    p != peer ==> #[trigger] final(self).pending_msgs(p) == old(
                                        self,
                                    ).pending_msgs(p)
                                &&& (old(self).queries().contains_key(peer) ==> r@.len() == 0)
                                &&& (!old(self).queries().contains_key(peer) ==> r@.len() == 1 && (
                                r@[0] matches Action::LookupPeer { peer: p } && p == peer))
                            }
                        },
                    },
                }
            }),
    {
        let mut r: Vec<Action> = Vec::new();
        let Message { peer_id, topic, content } = msg;
        match topic {
            Some(t) => {
                r.push(Action::Publish { topic: t, payload: content });
                proof {
                    Self::lemma_state_unchanged(*old(self), *self);
                }
                return r;
            },
            None => {},
        }
        let peer = match peer_id {
            Some(p) => p,
            None => {
                proof {
                    Self::lemma_state_unchanged(*old(self), *self);
                }
                return r;
            },
        };
        if self.can_send_msg(peer, addr_known) {
            r.push(Action::SendMsg { peer, payload: content });
            proof {
                Self::lemma_state_unchanged(*old(self), *self);
            }
            return r;
        }
        let mut v = match self.pending_messages.remove(&peer) {
            Some(v) => v,
            None => Vec::new(),
        };
        proof {
            assert(v@.map_values(|m: Vec<u8>| m@) == old(self).pending_msgs(peer));
        }
        v.push(content);
        self.pending_messages.insert(peer, v);
        self.lookup_peer(peer, &mut r);
        proof {
            let pre = *old(self);
            let post = *self;
            assert(post.pending_msgs(peer) =~= pre.pending_msgs(peer).push(msg.content@));
            assert forall|p: u64|
                p != peer implies #[trigger] post.pending_msgs(p) == pre.pending_msgs(p) by {}
            assert forall|p: u64| #[trigger] post.conns(p) == pre.conns(p) by {}
            assert forall|p: u64| #[trigger]
                post.pending_dial_waiters(p) == pre.pending_dial_waiters(p) by {}
            Self::lemma_peer_only_change(pre, post);
            Self::lemma_wf_unchanged_conns(pre, post);
            Self::lemma_wf_unchanged_waiters(pre, post);
            Self::lemma_wf_unchanged_queries(pre, post);
        }
        r
    }

    /// A state whose fields all stand is the same state for every
    /// accessor the invariant and the contracts speak of.
    proof fn lemma_state_unchanged(pre: Self, post: Self)
        requires
            post == pre,
            pre.wf(),
        ensures
            post.wf(),
            Self::topics_eq(post, pre),
            Self::seqs_eq(post, pre),
            Self::conns_eq(post, pre),
            Self::dials_eq(post, pre),
            Self::msgs_eq(post, pre),
    {
        assert forall|t: Seq<char>, s: u64| #[trigger]
            post.last_seq_no(t, s) == pre.last_seq_no(t, s) by {}
        assert forall|p: u64| #[trigger] post.conns(p) == pre.conns(p) by {}
        assert forall|p: u64| #[trigger]
            post.pending_dial_waiters(p) == pre.pending_dial_waiters(p) by {}
        assert forall|p: u64| #[trigger] post.pending_msgs(p) == pre.pending_msgs(p) by {}
    }
}

} // verus!
