//! The worker role: a node that answers queries from gateways, publishes
//! pings, receives pongs from its scheduler, pushes query logs to a logs
//! collector and learns from broadcasts how far those logs were archived.
//!
//! The worker's decisions are made here over plain values: peers are
//! 64-bit ids kept in correspondence with the swarm's identifiers by the
//! shell, message bodies are opaque byte payloads, and query ids are
//! strings. A peer claiming a reserved role (scheduler, logs collector)
//! under the wrong id is blocked, and nothing from a blocked peer is
//! processed again.

use std::collections::HashMap;
use vstd::prelude::*;

use crate::strmap::StrMap;
use crate::Subscription;

verus! {

broadcast use vstd::std_specs::hash::group_hash_axioms;

/// Default cap on a pong body.
pub const MAX_PONG_SIZE: u64 = 2 * 1024 * 1024;

/// Default cap on a query body.
pub const MAX_QUERY_SIZE: u64 = 1024 * 1024;

/// Default cap on a query result body.
pub const MAX_QUERY_RESULT_SIZE: u64 = 100 * 1024 * 1024;

/// Default cap on a query-logs bundle.
pub const MAX_WORKER_LOGS_SIZE: u64 = 16 * 1024 * 1024;

/// Default bound for each of the worker's queues.
pub const DEFAULT_QUEUE_SIZE: usize = 100;

/// Default seconds the transport is given to shut down.
pub const DEFAULT_SHUTDOWN_TIMEOUT_SECS: u64 = 10;

/// Configuration of a worker node. The size caps bound the protobuf
/// bodies each typed protocol accepts or produces.
pub struct WorkerConfig {
    pub local_peer_id: u64,
    pub scheduler_id: u64,
    pub logs_collector_id: u64,
    pub max_pong_size: u64,
    pub max_query_size: u64,
    pub max_query_result_size: u64,
    pub max_query_logs_size: u64,
    pub pings_queue_size: usize,
    pub query_results_queue_size: usize,
    pub logs_queue_size: usize,
    pub events_queue_size: usize,
    pub shutdown_timeout_secs: u64,
}

impl WorkerConfig {
    /// A configuration with the default caps, queue bounds and shutdown
    /// timeout.
    pub fn new(local_peer_id: u64, scheduler_id: u64, logs_collector_id: u64) -> (r: Self)
        ensures
            r.local_peer_id == local_peer_id,
            r.scheduler_id == scheduler_id,
            r.logs_collector_id == logs_collector_id,
            r.max_pong_size == MAX_PONG_SIZE,
            r.max_query_size == MAX_QUERY_SIZE,
            r.max_query_result_size == MAX_QUERY_RESULT_SIZE,
            r.max_query_logs_size == MAX_WORKER_LOGS_SIZE,
            r.pings_queue_size == DEFAULT_QUEUE_SIZE,
            r.query_results_queue_size == DEFAULT_QUEUE_SIZE,
            r.logs_queue_size == DEFAULT_QUEUE_SIZE,
            r.events_queue_size == DEFAULT_QUEUE_SIZE,
            r.shutdown_timeout_secs == DEFAULT_SHUTDOWN_TIMEOUT_SECS,
    {
        WorkerConfig {
            local_peer_id,
            scheduler_id,
            logs_collector_id,
            max_pong_size: MAX_PONG_SIZE,
            max_query_size: MAX_QUERY_SIZE,
            max_query_result_size: MAX_QUERY_RESULT_SIZE,
            max_query_logs_size: MAX_WORKER_LOGS_SIZE,
            pings_queue_size: DEFAULT_QUEUE_SIZE,
            query_results_queue_size: DEFAULT_QUEUE_SIZE,
            logs_queue_size: DEFAULT_QUEUE_SIZE,
            events_queue_size: DEFAULT_QUEUE_SIZE,
            shutdown_timeout_secs: DEFAULT_SHUTDOWN_TIMEOUT_SECS,
        }
    }
}

/// What the worker surfaces to its consumer.
pub enum WorkerEvent {
    /// A pong arrived from the scheduler.
    Pong { payload: Vec<u8> },
    /// A verified, fresh query arrived from a gateway.
    Query { peer: u64, query_id: String, payload: Vec<u8> },
    /// The logs collector has archived this worker's logs up to this
    /// sequence number.
    LogsCollected { last_seq_no: u64 },
}

/// What the shell must do against the swarm for the worker.
pub enum WorkerAction {
    /// Stop processing anything from this peer.
    BlockPeer { peer: u64 },
    /// Send the minimal acknowledgment on a pong response channel.
    SendPongAck { channel: u64 },
    /// Send a query result on the stored response channel.
    SendQueryResult { channel: u64, payload: Vec<u8> },
    /// Send a query result to a legacy gateway as a unicast envelope.
    SendLegacyResult { peer: u64, payload: Vec<u8> },
    /// Publish a ping on the pings topic.
    PublishPing { payload: Vec<u8> },
    /// Push a logs bundle to the logs collector.
    SendLogs { peer: u64, payload: Vec<u8> },
    /// Look the peer up on the DHT and dial it.
    FindAndDial { peer: u64 },
}

/// What the logs client reported.
#[derive(Debug, Clone, Copy, PartialEq, Eq)]
pub enum LogsClientEvent {
    /// The acknowledgment of a delivered bundle; it carries nothing.
    Response,
    /// The collector's address is unknown.
    PeerUnknown { peer: u64 },
    /// A bundle timed out.
    Timeout,
}

/// The worker's state.
pub struct WorkerBehaviour {
    local_peer_id: u64,
    scheduler_id: u64,
    logs_collector_id: u64,
    /// Query id → gateway that sent it; an id stays here until its
    /// result is sent, and no second query under it is accepted.
    query_senders: StrMap<u64>,
    /// Query id → response channel for gateways on the typed protocol.
    query_response_channels: StrMap<u64>,
    /// Peers blocked for impersonating a reserved role.
    blocked: HashMap<u64, bool>,
}

impl WorkerBehaviour {
    /// Query id → sender.
    pub closed spec fn senders(self) -> Map<Seq<char>, u64> {
        self.query_senders@
    }

    /// Query id → response channel.
    pub closed spec fn channels(self) -> Map<Seq<char>, u64> {
        self.query_response_channels@
    }

    /// Whether a peer is blocked.
    pub closed spec fn is_blocked(self, peer: u64) -> bool {
        self.blocked@.contains_key(peer)
    }

    pub closed spec fn local_id(self) -> u64 {
        self.local_peer_id
    }

    pub closed spec fn scheduler(self) -> u64 {
        self.scheduler_id
    }

    pub closed spec fn logs_collector(self) -> u64 {
        self.logs_collector_id
    }

    /// The string maps keep their representation invariant.
    pub closed spec fn wf(self) -> bool {
        self.query_senders.wf() && self.query_response_channels.wf()
    }

    /// The blocked set and role ids of `a` and `b` agree.
    pub open spec fn roles_eq(a: Self, b: Self) -> bool {
        &&& a.local_id() == b.local_id()
        &&& a.scheduler() == b.scheduler()
        &&& a.logs_collector() == b.logs_collector()
    }

    /// The per-query bookkeeping of `a` and `b` agrees.
    pub open spec fn queries_eq(a: Self, b: Self) -> bool {
        a.senders() == b.senders() && a.channels() == b.channels()
    }

    /// The blocked set of `a` and `b` agrees.
    pub open spec fn blocked_eq(a: Self, b: Self) -> bool {
        forall|p: u64| #[trigger] a.is_blocked(p) == b.is_blocked(p)
    }

    /// A worker with nothing seen and nobody blocked, together with the
    /// base subscriptions its composition starts from: the pings topic
    /// (ordered, so replayed pings are rejected) and the logs-collected
    /// topic. The commands must reach the base transport before events
    /// are handed in.
    pub fn new(config: &WorkerConfig) -> (r: (Self, Vec<Subscription>))
        ensures
            r.0.wf(),
            r.0.local_id() == config.local_peer_id,
            r.0.scheduler() == config.scheduler_id,
            r.0.logs_collector() == config.logs_collector_id,
            r.0.senders() =~= Map::empty(),
            r.0.channels() =~= Map::empty(),
            forall|p: u64| !(#[trigger] r.0.is_blocked(p)),
            r.1@.len() == 2,
            r.1@[0].topic@ == "pings"@,
            r.1@[0].subscribed && !r.1@[0].allow_unordered,
            r.1@[1].topic@ == "logs-collected"@,
            r.1@[1].subscribed && !r.1@[1].allow_unordered,
    {
        let mut subscriptions: Vec<Subscription> = Vec::new();
        subscriptions.push(
            Subscription {
                topic: Self::pings_topic(),
                subscribed: true,
                allow_unordered: false,
            },
        );
        subscriptions.push(
            Subscription {
                topic: Self::logs_collected_topic(),
                subscribed: true,
                allow_unordered: false,
            },
        );
        let behaviour = WorkerBehaviour {
            local_peer_id: config.local_peer_id,
            scheduler_id: config.scheduler_id,
            logs_collector_id: config.logs_collector_id,
            query_senders: StrMap::new(),
            query_response_channels: StrMap::new(),
            blocked: HashMap::new(),
        };
        (behaviour, subscriptions)
    }

    /// A logs-collected broadcast: only the configured logs collector may
    /// send one — any other origin is blocked and nothing is emitted. The
    /// worker's own entry, when present, becomes the event.
    #[verifier::loop_isolation(false)]
    pub fn on_logs_collected(&mut self, peer: u64, entries: &Vec<(u64, u64)>) -> (r: (
        Option<WorkerEvent>,
        Vec<WorkerAction>,
    ))
        requires
            old(self).wf(),
        ensures
            final(self).wf(),
            Self::roles_eq(*final(self), *old(self)),
            Self::queries_eq(*final(self), *old(self)),
            old(self).is_blocked(peer) ==> r.0 is None && r.1@.len() == 0 && Self::blocked_eq(
                *final(self),
                *old(self),
            ),
            !old(self).is_blocked(peer) && peer != old(self).logs_collector() ==> {
                &&& r.0 is None
                &&& r.1@.len() == 1
                &&& (r.1@[0] matches WorkerAction::BlockPeer { peer: p } && p == peer)
                &&& final(self).is_blocked(peer)
                &&& forall|q: u64|
                    q != peer ==> #[trigger] final(self).is_blocked(q) == old(self).is_blocked(q)
            },
            !old(self).is_blocked(peer) && peer == old(self).logs_collector() ==> {
                &&& r.1@.len() == 0
                &&& Self::blocked_eq(*final(self), *old(self))
                &&& ((exists|i: int|
                    0 <= i < entries@.len() && entries@[i].0 == old(self).local_id()) ==> (
                r.0 matches Some(ev) && (ev matches WorkerEvent::LogsCollected { last_seq_no } && ({
                    let i = choose|i: int|
                        0 <= i < entries@.len() && #[trigger] entries@[i].0 == old(
                            self,
                        ).local_id() && forall|j: int| 0 <= j < i ==> entries@[j].0 != old(self).local_id();
                    last_seq_no == entries@[i].1
                }))))
                &&& ((forall|i: int|
                    0 <= i < entries@.len() ==> #[trigger] entries@[i].0 != old(self).local_id())
                    ==> r.0 is None)
            },
    {
        let mut actions: Vec<WorkerAction> = Vec::new();
        if self.blocked.contains_key(&peer) {
            return (None, actions);
        }
        if peer != self.logs_collector_id {
            self.blocked.insert(peer, true);
            actions.push(WorkerAction::BlockPeer { peer });
            proof {
                assert forall|q: u64|
                    q != peer implies #[trigger] self.is_blocked(q) == old(self).is_blocked(
                    q,
                ) by {}
            }
            return (None, actions);
        }
        let n = entries.len();
        let mut i: usize = 0;
        while i < n
            invariant
                n == entries@.len(),
                i <= n,
                forall|j: int| 0 <= j < i ==> #[trigger] entries@[j].0 != self.local_peer_id,
                *self == *old(self),
            decreases n - i,
        {
            if entries[i].0 == self.local_peer_id {
                let last_seq_no = entries[i].1;
                proof {
                    let wit = i as int;
                    assert(0 <= wit < entries@.len() && entries@[wit].0 == old(self).local_id()
                        && forall|j: int|
                        0 <= j < wit ==> entries@[j].0 != old(self).local_id());
                    let c = choose|k: int|
                        0 <= k < entries@.len() && #[trigger] entries@[k].0 == old(
                            self,
                        ).local_id() && forall|j: int| 0 <= j < k ==> entries@[j].0 != old(self).local_id();
                    assert(c == wit);
                }
                return (Some(WorkerEvent::LogsCollected { last_seq_no }), actions);
            }
            i = i + 1;
        }
        (None, actions)
    }

    /// A query from a gateway: accepted only when its signature verifies
    /// against the sender, it carries an id, and that id was never seen
    /// before. An accepted query remembers its sender — and its response
    /// channel, when the typed protocol carried one — until the result is
    /// sent.
    pub fn on_query(
        &mut self,
        peer: u64,
        query_id: Option<String>,
        sig_ok: bool,
        resp_chan: Option<u64>,
        payload: Vec<u8>,
    ) -> (r: Option<WorkerEvent>)
        requires
            old(self).wf(),
        ensures
            final(self).wf(),
            Self::roles_eq(*final(self), *old(self)),
            Self::blocked_eq(*final(self), *old(self)),
            old(self).is_blocked(peer) || !sig_ok || query_id is None ==> r is None
                && Self::queries_eq(*final(self), *old(self)),
            !old(self).is_blocked(peer) && sig_ok ==> match query_id {
                None => r is None,
                Some(qid) => {
                    if old(self).senders().contains_key(qid@) {
                        r is None && Self::queries_eq(*final(self), *old(self))
                    } else {
                        &&& (r matches Some(ev) && (ev matches WorkerEvent::Query {
                            peer: p,
                            query_id: q,
                            payload: pl,
                        } && p == peer && q@ == qid@ && pl@ == payload@))
                        &&& final(self).senders() == old(self).senders().insert(qid@, peer)
                        &&& (resp_chan matches Some(ch) ==> final(self).channels() == old(
                            self,
                        ).channels().insert(qid@, ch))
                        &&& (resp_chan is None ==> final(self).channels() == old(self).channels())
                    }
                },
            },
    {
        if self.blocked.contains_key(&peer) {
            return None;
        }
        if !sig_ok {
            return None;
        }
        let qid = match query_id {
            Some(q) => q,
            None => {
                return None;
            },
        };
        if self.query_senders.contains_key(&qid) {
            return None;
        }
        self.query_senders.insert(qid.clone(), peer);
        match resp_chan {
            Some(ch) => {
                self.query_response_channels.insert(qid.clone(), ch);
            },
            None => {},
        }
        Some(WorkerEvent::Query { peer, query_id: qid, payload })
    }

    /// A pong request: only the configured scheduler may send one — any
    /// other origin is blocked and nothing is emitted. A scheduler pong
    /// is acknowledged minimally and forwarded.
    pub fn on_pong_event(&mut self, peer: u64, channel: u64, payload: Vec<u8>) -> (r: (
        Option<WorkerEvent>,
        Vec<WorkerAction>,
    ))
        requires
            old(self).wf(),
        ensures
            final(self).wf(),
            Self::roles_eq(*final(self), *old(self)),
            Self::queries_eq(*final(self), *old(self)),
            old(self).is_blocked(peer) ==> r.0 is None && r.1@.len() == 0 && Self::blocked_eq(
                *final(self),
                *old(self),
            ),
            !old(self).is_blocked(peer) && peer != old(self).scheduler() ==> {
                &&& r.0 is None
                &&& r.1@.len() == 1
                &&& (r.1@[0] matches WorkerAction::BlockPeer { peer: p } && p == peer)
                &&& final(self).is_blocked(peer)
                &&& forall|q: u64|
                    q != peer ==> #[trigger] final(self).is_blocked(q) == old(self).is_blocked(q)
            },
            !old(self).is_blocked(peer) && peer == old(self).scheduler() ==> {
                &&& (r.0 matches Some(ev) && (ev matches WorkerEvent::Pong { payload: pl } && pl@
                    == payload@))
                &&& r.1@.len() == 1
                &&& (r.1@[0] matches WorkerAction::SendPongAck { channel: ch } && ch == channel)
                &&& Self::blocked_eq(*final(self), *old(self))
            },
    {
        let mut actions: Vec<WorkerAction> = Vec::new();
        if self.blocked.contains_key(&peer) {
            return (None, actions);
        }
        if peer != self.scheduler_id {
            self.blocked.insert(peer, true);
            actions.push(WorkerAction::BlockPeer { peer });
            proof {
                assert forall|q: u64|
                    q != peer implies #[trigger] self.is_blocked(q) == old(self).is_blocked(
                    q,
                ) by {}
            }
            return (None, actions);
        }
        actions.push(WorkerAction::SendPongAck { channel });
        (Some(WorkerEvent::Pong { payload }), actions)
    }

    /// A report from the logs client: an unknown collector address
    /// triggers a lookup-and-dial; an acknowledgment carries nothing; a
    /// timeout is only logged by the shell.
    pub fn on_logs_event(&mut self, ev: LogsClientEvent) -> (r: Vec<WorkerAction>)
        ensures
            *final(self) == *old(self),
            match ev {
                LogsClientEvent::PeerUnknown { peer } => r@.len() == 1 && (
                r@[0] matches WorkerAction::FindAndDial { peer: p } && p == peer),
                _ => r@.len() == 0,
            },
    {
        let mut actions: Vec<WorkerAction> = Vec::new();
        match ev {
            LogsClientEvent::PeerUnknown { peer } => {
                actions.push(WorkerAction::FindAndDial { peer });
            },
            LogsClientEvent::Response => {},
            LogsClientEvent::Timeout => {},
        }
        actions
    }

    /// Publishes a ping on the pings topic.
    pub fn send_ping(&self, payload: Vec<u8>) -> (r: WorkerAction)
        ensures
            r matches WorkerAction::PublishPing { payload: pl } && pl@ == payload@,
    {
        WorkerAction::PublishPing { payload }
    }

    /// Sends the result of a stored query back: over the stored response
    /// channel when the typed protocol carried one, else as a legacy
    /// unicast to the stored sender. Either way the query's entries are
    /// forgotten, so a late second result finds nothing. A result for an
    /// unknown id does nothing.
    pub fn send_query_result(&mut self, query_id: &String, payload: Vec<u8>) -> (r: Vec<
        WorkerAction,
    >)
        requires
            old(self).wf(),
        ensures
            final(self).wf(),
            Self::roles_eq(*final(self), *old(self)),
            Self::blocked_eq(*final(self), *old(self)),
            final(self).senders() == old(self).senders().remove(query_id@),
            final(self).channels() == old(self).channels().remove(query_id@),
            !old(self).senders().contains_key(query_id@) ==> r@.len() == 0,
            old(self).senders().contains_key(query_id@) && old(self).channels().contains_key(
                query_id@,
            ) ==> r@.len() == 1 && (r@[0] matches WorkerAction::SendQueryResult {
                channel,
                payload: pl,
            } && channel == old(self).channels()[query_id@] && pl@ == payload@),
            old(self).senders().contains_key(query_id@) && !old(self).channels().contains_key(
                query_id@,
            ) ==> r@.len() == 1 && (r@[0] matches WorkerAction::SendLegacyResult {
                peer,
                payload: pl,
            } && peer == old(self).senders()[query_id@] && pl@ == payload@),
    {
        let mut actions: Vec<WorkerAction> = Vec::new();
        let sender = match self.query_senders.remove(query_id) {
            Some(p) => p,
            None => {
                let _ = self.query_response_channels.remove(query_id);
                proof {
                    assert(old(self).channels().remove(query_id@) =~= final(self).channels());
                }
                return actions;
            },
        };
        match self.query_response_channels.remove(query_id) {
            Some(channel) => {
                actions.push(WorkerAction::SendQueryResult { channel, payload });
            },
            None => {
                actions.push(WorkerAction::SendLegacyResult { peer: sender, payload });
            },
        }
        actions
    }

    /// Wraps a logs bundle for the configured logs collector.
    pub fn send_logs(&self, payload: Vec<u8>) -> (r: WorkerAction)
        ensures
            r matches WorkerAction::SendLogs { peer, payload: pl } && peer == self.logs_collector()
                && pl@ == payload@,
    {
        WorkerAction::SendLogs { peer: self.logs_collector_id, payload }
    }

    /// Whether a peer stands in the block list.
    pub fn blocked_contains(&self, peer: u64) -> (r: bool)
        ensures
            r == self.is_blocked(peer),
    {
        self.blocked.contains_key(&peer)
    }

    /// The topic under which workers publish their pings.
    pub fn pings_topic() -> (r: String)
        ensures
            r@ == "pings"@,
    {
        String::from_str("pings")
    }

    /// The topic under which the logs collector acknowledges archived
    /// logs.
    pub fn logs_collected_topic() -> (r: String)
        ensures
            r@ == "logs-collected"@,
    {
        String::from_str("logs-collected")
    }
}

} // verus!
