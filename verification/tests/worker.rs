use p2p_transport::worker::{
    LogsClientEvent, WorkerAction, WorkerBehaviour, WorkerConfig, WorkerEvent,
};

const LOCAL: u64 = 1;
const SCHEDULER: u64 = 2;
const COLLECTOR: u64 = 3;

fn worker() -> WorkerBehaviour {
    WorkerBehaviour::new(&WorkerConfig::new(LOCAL, SCHEDULER, COLLECTOR)).0
}

#[test]
fn initial_subscriptions() {
    // The worker's composition starts from two base subscriptions: the
    // ordered pings topic and the logs-collected topic.
    let (_, subs) = WorkerBehaviour::new(&WorkerConfig::new(LOCAL, SCHEDULER, COLLECTOR));
    assert_eq!(subs.len(), 2);
    assert_eq!(subs[0].topic, "pings");
    assert!(subs[0].subscribed);
    assert!(!subs[0].allow_unordered);
    assert_eq!(subs[1].topic, "logs-collected");
    assert!(subs[1].subscribed);
    assert!(!subs[1].allow_unordered);
}

#[test]
fn config_defaults() {
    let c = WorkerConfig::new(LOCAL, SCHEDULER, COLLECTOR);
    assert_eq!(c.local_peer_id, LOCAL);
    assert_eq!(c.scheduler_id, SCHEDULER);
    assert_eq!(c.logs_collector_id, COLLECTOR);
    assert_eq!(c.max_pong_size, 2 * 1024 * 1024);
    assert_eq!(c.max_query_size, 1024 * 1024);
    assert_eq!(c.max_query_result_size, 100 * 1024 * 1024);
    assert_eq!(c.max_query_logs_size, 16 * 1024 * 1024);
    assert_eq!(c.pings_queue_size, 100);
    assert_eq!(c.query_results_queue_size, 100);
    assert_eq!(c.logs_queue_size, 100);
    assert_eq!(c.events_queue_size, 100);
    assert_eq!(c.shutdown_timeout_secs, 10);
}

#[test]
fn impersonation_block() {
    // A pong from a peer other than the scheduler emits nothing, blocks
    // the peer, and nothing from it is processed afterwards.
    let mut w = worker();
    let impostor = 99u64;
    let (event, actions) = w.on_pong_event(impostor, 10, b"pong".to_vec());
    assert!(event.is_none());
    assert_eq!(actions.len(), 1);
    assert!(matches!(&actions[0], WorkerAction::BlockPeer { peer: 99 }));
    assert!(w.blocked_contains(impostor));
    // A later pong from the impostor is dropped without any action.
    let (event, actions) = w.on_pong_event(impostor, 11, b"pong".to_vec());
    assert!(event.is_none());
    assert!(actions.is_empty());
    // So is a query from it.
    let event = w.on_query(impostor, Some(String::from("q-9")), true, None, vec![]);
    assert!(event.is_none());
}

#[test]
fn scheduler_pong_is_acked_and_forwarded() {
    let mut w = worker();
    let (event, actions) = w.on_pong_event(SCHEDULER, 10, b"pong".to_vec());
    match event {
        Some(WorkerEvent::Pong { payload }) => assert_eq!(payload, b"pong"),
        _ => panic!("the scheduler's pong must be forwarded"),
    }
    assert_eq!(actions.len(), 1);
    assert!(matches!(&actions[0], WorkerAction::SendPongAck { channel: 10 }));
    assert!(!w.blocked_contains(SCHEDULER));
}

#[test]
fn logs_collected_impersonation_block() {
    let mut w = worker();
    let impostor = 50u64;
    let (event, actions) = w.on_logs_collected(impostor, &vec![(LOCAL, 7)]);
    assert!(event.is_none());
    assert_eq!(actions.len(), 1);
    assert!(matches!(&actions[0], WorkerAction::BlockPeer { peer: 50 }));
    assert!(w.blocked_contains(impostor));
    // A later broadcast from the blocked peer is dropped silently.
    let (event, actions) = w.on_logs_collected(impostor, &vec![(LOCAL, 8)]);
    assert!(event.is_none());
    assert!(actions.is_empty());
}

#[test]
fn logs_collected_extracts_local_entry() {
    let mut w = worker();
    let entries = vec![(40u64, 1u64), (LOCAL, 123), (41, 2)];
    let (event, actions) = w.on_logs_collected(COLLECTOR, &entries);
    assert!(actions.is_empty());
    match event {
        Some(WorkerEvent::LogsCollected { last_seq_no }) => assert_eq!(last_seq_no, 123),
        _ => panic!("the local entry must become the event"),
    }
    // Without a local entry, nothing is emitted.
    let (event, actions) = w.on_logs_collected(COLLECTOR, &vec![(40, 1)]);
    assert!(event.is_none());
    assert!(actions.is_empty());
}

#[test]
fn query_de_dup() {
    // The first query under an id is emitted; a replay under the same
    // id is dropped; the result reaches the stored response channel.
    let mut w = worker();
    let gateway = 7u64;
    let event = w.on_query(gateway, Some(String::from("q-1")), true, Some(55), b"body".to_vec());
    match event {
        Some(WorkerEvent::Query { peer, query_id, payload }) => {
            assert_eq!(peer, gateway);
            assert_eq!(query_id, "q-1");
            assert_eq!(payload, b"body");
        }
        _ => panic!("the first query must be emitted"),
    }
    let event = w.on_query(gateway, Some(String::from("q-1")), true, Some(56), b"body".to_vec());
    assert!(event.is_none(), "a duplicate query id is dropped");
    let actions = w.send_query_result(&String::from("q-1"), b"result".to_vec());
    assert_eq!(actions.len(), 1);
    match &actions[0] {
        WorkerAction::SendQueryResult { channel, payload } => {
            assert_eq!(*channel, 55);
            assert_eq!(payload, b"result");
        }
        _ => panic!("the result must use the stored channel"),
    }
    // The entries are gone: a second result finds nothing, and the id
    // could be used afresh.
    let actions = w.send_query_result(&String::from("q-1"), b"result".to_vec());
    assert!(actions.is_empty());
    assert!(w.on_query(gateway, Some(String::from("q-1")), true, Some(57), vec![]).is_some());
}

#[test]
fn query_without_signature_or_id_dropped() {
    let mut w = worker();
    assert!(w.on_query(7, Some(String::from("q-2")), false, None, vec![]).is_none());
    assert!(w.on_query(7, None, true, None, vec![]).is_none());
    // Neither attempt reserved the id.
    assert!(w.on_query(7, Some(String::from("q-2")), true, None, vec![]).is_some());
}

#[test]
fn legacy_query_result_routed_as_unicast() {
    let mut w = worker();
    let gateway = 8u64;
    // A legacy query carries no response channel.
    assert!(w.on_query(gateway, Some(String::from("q-3")), true, None, vec![]).is_some());
    let actions = w.send_query_result(&String::from("q-3"), b"res".to_vec());
    assert_eq!(actions.len(), 1);
    match &actions[0] {
        WorkerAction::SendLegacyResult { peer, payload } => {
            assert_eq!(*peer, gateway);
            assert_eq!(payload, b"res");
        }
        _ => panic!("a legacy sender gets the envelope route"),
    }
}

#[test]
fn logs_client_events() {
    let mut w = worker();
    let actions = w.on_logs_event(LogsClientEvent::PeerUnknown { peer: COLLECTOR });
    assert_eq!(actions.len(), 1);
    assert!(matches!(&actions[0], WorkerAction::FindAndDial { peer: COLLECTOR }));
    assert!(w.on_logs_event(LogsClientEvent::Response).is_empty());
    assert!(w.on_logs_event(LogsClientEvent::Timeout).is_empty());
}

#[test]
fn ping_and_logs_wrapping() {
    let w = worker();
    match w.send_ping(b"ping".to_vec()) {
        WorkerAction::PublishPing { payload } => assert_eq!(payload, b"ping"),
        _ => panic!("a ping is published"),
    }
    match w.send_logs(b"logs".to_vec()) {
        WorkerAction::SendLogs { peer, payload } => {
            assert_eq!(peer, COLLECTOR);
            assert_eq!(payload, b"logs");
        }
        _ => panic!("logs go to the collector"),
    }
}

#[test]
fn topic_names() {
    assert_eq!(WorkerBehaviour::pings_topic(), "pings");
    assert_eq!(WorkerBehaviour::logs_collected_topic(), "logs-collected");
}
