use p2p_transport::gossip::{dec_string, gossipsub_msg_id, topic_hash};

#[test]
fn decimal_strings() {
    assert_eq!(dec_string(0), "0");
    assert_eq!(dec_string(7), "7");
    assert_eq!(dec_string(10), "10");
    assert_eq!(dec_string(100), "100");
    assert_eq!(dec_string(1699999999), "1699999999");
    assert_eq!(dec_string(u64::MAX), "18446744073709551615");
}

#[test]
fn msg_id_concatenation() {
    let source = String::from("12D3KooWExample");
    assert_eq!(gossipsub_msg_id(&source, Some(100)), "12D3KooWExample100");
    assert_eq!(gossipsub_msg_id(&source, None), "12D3KooWExample0");
    assert_eq!(gossipsub_msg_id(&String::new(), Some(42)), "42");
}

#[test]
fn topic_hash_is_not_the_name() {
    let hash = topic_hash(&String::from("pings"));
    assert_ne!(hash, "pings");
    assert!(!hash.is_empty());
}

#[test]
fn topic_hash_matches_gossipsub() {
    for name in ["pings", "logs-collected", ""] {
        let expected = libp2p::gossipsub::Sha256Topic::new(name).hash().into_string();
        assert_eq!(topic_hash(&String::from(name)), expected);
    }
}

#[test]
fn topic_hash_deterministic_and_injective_sample() {
    let a1 = topic_hash(&String::from("pings"));
    let a2 = topic_hash(&String::from("pings"));
    let b = topic_hash(&String::from("logs-collected"));
    assert_eq!(a1, a2);
    assert_ne!(a1, b);
}
