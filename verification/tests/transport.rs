use p2p_transport::gossip::topic_hash;
use p2p_transport::transport::{
    broadcast_message, direct_message, handle_request_event, request_ack, Action, DialOutcome,
    GossipVerdict, P2PTransport, RejectReason, RequestEvent, RequestOutcome,
};
use p2p_transport::Subscription;

const NOW: u64 = 1_000_000;

fn subscribed(topic: &str, allow_unordered: bool) -> (P2PTransport, String) {
    let mut t = P2PTransport::new(true);
    let actions = t.subscribe(String::from(topic), allow_unordered);
    assert_eq!(actions.len(), 1);
    assert!(matches!(&actions[0], Action::GossipSubscribe { topic: name } if name == topic));
    (t, topic_hash(&String::from(topic)))
}

#[test]
fn broadcast_ordering() {
    // Three messages with growing sequence numbers pass; replaying the
    // first is rejected as an old message.
    let (mut t, hash) = subscribed("pings", false);
    for seq in [100u64, 101, 102] {
        match t.validate_gossipsub_msg(Some(7), &hash, Some(seq), NOW) {
            GossipVerdict::Accept { source, topic } => {
                assert_eq!(source, 7);
                assert_eq!(topic, "pings");
            }
            GossipVerdict::Reject { .. } => panic!("sequence {seq} must be accepted"),
        }
    }
    assert!(matches!(
        t.validate_gossipsub_msg(Some(7), &hash, Some(100), NOW),
        GossipVerdict::Reject { reason: RejectReason::OldMessage }
    ));
}

#[test]
fn gossip_rejections() {
    let (mut t, hash) = subscribed("pings", false);
    assert!(matches!(
        t.validate_gossipsub_msg(None, &hash, Some(1), NOW),
        GossipVerdict::Reject { reason: RejectReason::Anonymous }
    ));
    let unknown = topic_hash(&String::from("other"));
    assert!(matches!(
        t.validate_gossipsub_msg(Some(7), &unknown, Some(1), NOW),
        GossipVerdict::Reject { reason: RejectReason::UnknownTopic }
    ));
    assert!(matches!(
        t.validate_gossipsub_msg(Some(7), &hash, None, NOW),
        GossipVerdict::Reject { reason: RejectReason::MissingSeqNo }
    ));
    assert!(matches!(
        t.validate_gossipsub_msg(Some(7), &hash, Some(NOW + 1), NOW),
        GossipVerdict::Reject { reason: RejectReason::FutureSeqNo }
    ));
    // A sequence number of zero never exceeds the stored default.
    assert!(matches!(
        t.validate_gossipsub_msg(Some(7), &hash, Some(0), NOW),
        GossipVerdict::Reject { reason: RejectReason::OldMessage }
    ));
}

#[test]
fn unordered_topic_skips_sequence_check() {
    let (mut t, hash) = subscribed("logs-collected", true);
    for seq in [Some(5u64), Some(3), None] {
        assert!(matches!(
            t.validate_gossipsub_msg(Some(9), &hash, seq, NOW),
            GossipVerdict::Accept { .. }
        ));
    }
}

#[test]
fn sequence_numbers_are_per_source() {
    let (mut t, hash) = subscribed("pings", false);
    assert!(matches!(
        t.validate_gossipsub_msg(Some(1), &hash, Some(50), NOW),
        GossipVerdict::Accept { .. }
    ));
    // A different source starts from its own counter.
    assert!(matches!(
        t.validate_gossipsub_msg(Some(2), &hash, Some(10), NOW),
        GossipVerdict::Accept { .. }
    ));
    assert!(matches!(
        t.validate_gossipsub_msg(Some(1), &hash, Some(50), NOW),
        GossipVerdict::Reject { reason: RejectReason::OldMessage }
    ));
}

#[test]
fn subscribe_is_idempotent() {
    let mut t = P2PTransport::new(false);
    let first = t.subscribe(String::from("pings"), false);
    assert_eq!(first.len(), 1);
    let second = t.subscribe(String::from("pings"), true);
    assert!(second.is_empty());
    // The first registration's ordering rule still applies.
    let hash = topic_hash(&String::from("pings"));
    assert!(matches!(
        t.validate_gossipsub_msg(Some(7), &hash, None, NOW),
        GossipVerdict::Reject { reason: RejectReason::MissingSeqNo }
    ));
}

#[test]
fn unsubscribe_is_noop_after_first() {
    let mut t = P2PTransport::new(false);
    let _ = t.subscribe(String::from("pings"), false);
    let first = t.unsubscribe(String::from("pings"));
    assert_eq!(first.len(), 1);
    assert!(matches!(&first[0], Action::GossipUnsubscribe { topic } if topic == "pings"));
    let second = t.unsubscribe(String::from("pings"));
    assert!(second.is_empty());
}

#[test]
fn unsubscribe_resets_sequence_numbers() {
    let (mut t, hash) = subscribed("pings", false);
    assert!(matches!(
        t.validate_gossipsub_msg(Some(7), &hash, Some(100), NOW),
        GossipVerdict::Accept { .. }
    ));
    let _ = t.unsubscribe(String::from("pings"));
    let _ = t.subscribe(String::from("pings"), false);
    // The old counter is gone: 50 passes again.
    assert!(matches!(
        t.validate_gossipsub_msg(Some(7), &hash, Some(50), NOW),
        GossipVerdict::Accept { .. }
    ));
}

#[test]
fn subscription_commands_dispatch() {
    let mut t = P2PTransport::new(false);
    let actions = t.handle_subscription(Subscription {
        topic: String::from("pings"),
        subscribed: true,
        allow_unordered: false,
    });
    assert_eq!(actions.len(), 1);
    let actions = t.handle_subscription(Subscription {
        topic: String::from("pings"),
        subscribed: false,
        allow_unordered: false,
    });
    assert_eq!(actions.len(), 1);
    assert!(matches!(&actions[0], Action::GossipUnsubscribe { topic } if topic == "pings"));
}

#[test]
fn peer_lookup_then_send() {
    // A unicast to an unknown peer starts a lookup; once identify
    // reports the peer, the payload goes out exactly once.
    let mut t = P2PTransport::new(true);
    let peer = 42u64;
    let actions = t.handle_outbound_msg(direct_message(peer, b"hello".to_vec()), false);
    assert_eq!(actions.len(), 1);
    assert!(matches!(&actions[0], Action::LookupPeer { peer: 42 }));
    t.register_query(peer, 77);
    assert_eq!(t.query_peer(77), Some(peer));
    // A second unicast while the lookup runs is buffered silently.
    let actions = t.handle_outbound_msg(direct_message(peer, b"again".to_vec()), false);
    assert!(actions.is_empty());
    let actions = t.handle_identify_event(peer);
    assert_eq!(actions.len(), 2);
    match &actions[0] {
        Action::SendMsg { peer: p, payload } => {
            assert_eq!(*p, peer);
            assert_eq!(payload, b"hello");
        }
        other => panic!("expected a send, got {}", action_name(other)),
    }
    match &actions[1] {
        Action::SendMsg { peer: p, payload } => {
            assert_eq!(*p, peer);
            assert_eq!(payload, b"again");
        }
        other => panic!("expected a send, got {}", action_name(other)),
    }
    // The query is closed.
    assert_eq!(t.query_peer(77), None);
    // Nothing is left to flush.
    let actions = t.handle_identify_event(peer);
    assert!(actions.is_empty());
}

#[test]
fn send_when_reachable_goes_out_directly() {
    let mut t = P2PTransport::new(true);
    let actions = t.handle_outbound_msg(direct_message(5, b"hi".to_vec()), true);
    assert_eq!(actions.len(), 1);
    assert!(matches!(&actions[0], Action::SendMsg { peer: 5, .. }));
}

#[test]
fn broadcast_routes_to_publish() {
    let mut t = P2PTransport::new(true);
    let msg = broadcast_message(String::from("pings"), b"ping".to_vec());
    let actions = t.handle_outbound_msg(msg, false);
    assert_eq!(actions.len(), 1);
    match &actions[0] {
        Action::Publish { topic, payload } => {
            assert_eq!(topic, "pings");
            assert_eq!(payload, b"ping");
        }
        other => panic!("expected a publish, got {}", action_name(other)),
    }
}

#[test]
fn dial_outcome_on_no_addresses() {
    // A dial without known addresses parks the waiter and starts a
    // lookup; an exhausted query resolves the waiter with false and
    // drops the buffered messages.
    let mut t = P2PTransport::new(true);
    let peer = 9u64;
    let _ = t.handle_outbound_msg(direct_message(peer, b"x".to_vec()), false);
    t.register_query(peer, 1);
    let actions = t.dial_peer(peer, 500, DialOutcome::NoAddresses);
    assert!(actions.is_empty(), "the lookup is already under way");
    let (actions, dropped) = t.handle_kademlia_event(1, false, true);
    assert_eq!(dropped, 1);
    assert_eq!(actions.len(), 1);
    assert!(matches!(&actions[0], Action::Resolve { waiter: 500, result: false }));
    // The waiter is gone: a later event resolves nothing.
    let (actions, dropped) = t.handle_kademlia_event(1, false, true);
    assert!(actions.is_empty());
    assert_eq!(dropped, 0);
}

#[test]
fn dial_after_successful_lookup() {
    let mut t = P2PTransport::new(true);
    let peer = 9u64;
    let actions = t.dial_peer(peer, 500, DialOutcome::NoAddresses);
    assert_eq!(actions.len(), 1);
    assert!(matches!(&actions[0], Action::LookupPeer { peer: 9 }));
    t.register_query(peer, 1);
    // The query reaches the peer before finishing: each parked waiter
    // gets a fresh dial attempt.
    let (actions, dropped) = t.handle_kademlia_event(1, true, false);
    assert_eq!(dropped, 0);
    assert_eq!(actions.len(), 1);
    assert!(matches!(&actions[0], Action::DialPeer { peer: 9, waiter: 500 }));
}

#[test]
fn dial_waiter_resolved_by_connection_outcome() {
    // A started dial resolves true on ConnectionEstablished for its
    // connection id, false on OutgoingConnectionError.
    let mut t = P2PTransport::new(true);
    let actions = t.dial_peer(3, 600, DialOutcome::Started { conn: 11 });
    assert!(actions.is_empty());
    let actions = t.handle_connection_established(3, 11);
    assert_eq!(actions.len(), 1);
    assert!(matches!(&actions[0], Action::Resolve { waiter: 600, result: true }));

    let mut t = P2PTransport::new(true);
    let actions = t.dial_peer(3, 600, DialOutcome::Started { conn: 11 });
    assert!(actions.is_empty());
    let actions = t.handle_connection_failed(11);
    assert_eq!(actions.len(), 1);
    assert!(matches!(&actions[0], Action::Resolve { waiter: 600, result: false }));
    // The waiter is resolved once: the other outcome finds nothing.
    let actions = t.handle_connection_established(3, 11);
    assert!(actions.is_empty());
}

#[test]
fn dial_condition_shortcuts() {
    let mut t = P2PTransport::new(true);
    let actions = t.dial_peer(3, 600, DialOutcome::AlreadyConnected);
    assert_eq!(actions.len(), 1);
    assert!(matches!(&actions[0], Action::Resolve { waiter: 600, result: true }));
    let actions = t.dial_peer(3, 601, DialOutcome::Failed);
    assert_eq!(actions.len(), 1);
    assert!(matches!(&actions[0], Action::Resolve { waiter: 601, result: false }));
}

#[test]
fn connection_cap() {
    // Three established connections from one peer: the third closes the
    // oldest and two remain.
    let mut t = P2PTransport::new(true);
    let peer = 4u64;
    assert!(t.handle_connection_established(peer, 101).is_empty());
    assert_eq!(t.active_connection_count(peer), 1);
    assert!(t.handle_connection_established(peer, 102).is_empty());
    assert_eq!(t.active_connection_count(peer), 2);
    let actions = t.handle_connection_established(peer, 103);
    assert_eq!(actions.len(), 1);
    assert!(matches!(&actions[0], Action::CloseConnection { conn: 101 }));
    assert_eq!(t.active_connection_count(peer), 2);
}

#[test]
fn connection_closed_forgets_the_connection() {
    let mut t = P2PTransport::new(true);
    let _ = t.handle_connection_established(8, 201);
    let _ = t.handle_connection_established(8, 202);
    t.handle_connection_closed(8, 201);
    assert_eq!(t.active_connection_count(8), 1);
    // Closing an unknown connection changes nothing.
    t.handle_connection_closed(8, 999);
    assert_eq!(t.active_connection_count(8), 1);
    assert!(t.can_send_msg(8, false));
    t.handle_connection_closed(8, 202);
    assert!(!t.can_send_msg(8, false));
}

#[test]
fn request_events_dispatch() {
    match handle_request_event(RequestEvent::Request {
        peer: 6,
        payload: b"req".to_vec(),
        channel: 77,
    }) {
        RequestOutcome::Deliver { msg, channel } => {
            assert_eq!(channel, 77);
            assert_eq!(msg.peer_id, Some(6));
            assert_eq!(msg.topic, None);
            assert_eq!(msg.content, b"req");
        }
        _ => panic!("a request must be delivered"),
    }
    assert!(matches!(
        handle_request_event(RequestEvent::InboundFailure { peer: 6 }),
        RequestOutcome::InboundError { peer: 6 }
    ));
    assert!(matches!(
        handle_request_event(RequestEvent::OutboundFailure { peer: 6 }),
        RequestOutcome::OutboundError { peer: 6 }
    ));
    assert!(matches!(
        handle_request_event(RequestEvent::Other),
        RequestOutcome::Nothing
    ));
    assert_eq!(request_ack(), 1);
}

#[test]
fn connection_membership_getters() {
    let mut t = P2PTransport::new(true);
    assert!(!t.has_connection(4, 101));
    let _ = t.handle_connection_established(4, 101);
    assert!(t.has_connection(4, 101));
    assert!(!t.has_connection(4, 102));
    assert!(!t.dial_in_flight(11));
    let _ = t.dial_peer(3, 600, DialOutcome::Started { conn: 11 });
    assert!(t.dial_in_flight(11));
}

#[test]
fn bootstrap_flag() {
    assert!(P2PTransport::new(true).should_bootstrap());
    assert!(!P2PTransport::new(false).should_bootstrap());
}

fn action_name(a: &Action) -> &'static str {
    match a {
        Action::Resolve { .. } => "Resolve",
        Action::SendMsg { .. } => "SendMsg",
        Action::Publish { .. } => "Publish",
        Action::GossipSubscribe { .. } => "GossipSubscribe",
        Action::GossipUnsubscribe { .. } => "GossipUnsubscribe",
        Action::LookupPeer { .. } => "LookupPeer",
        Action::DialPeer { .. } => "DialPeer",
        Action::CloseConnection { .. } => "CloseConnection",
    }
}
