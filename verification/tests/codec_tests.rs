//! Tests for the transport codec, the registry, similarity scoring
//! and the small utilities.

use network_hub::codec::TlsConfig;
use network_hub::codec::TransportMessage;
use network_hub::codec::deserialize;
use network_hub::codec::deserialize_any;
use network_hub::codec::serialize;
use network_hub::codec::serialize_any;
use network_hub::registry::ApiRegistry;
use network_hub::similarity::find_similar_path;
use network_hub::similarity::split_segments;
use network_hub::similarity::string_similarity;
use network_hub::types::Handler;
use network_hub::types::MetaMap;
use network_hub::types::Payload;
use network_hub::types::ResponseStatus;
use network_hub::utils::current_time_millis;
use network_hub::utils::decimal_string;
use network_hub::utils::generate_uuid;

#[test]
fn test_request_round_trip() {
    let mut metadata = MetaMap::new();
    metadata.insert("origin".to_string(), "unit".to_string());
    metadata.insert("kind".to_string(), "probe".to_string());
    let frame = TransportMessage::Request {
        path: "/svc/échange".to_string(),
        data: Payload::Text("charge".to_string()),
        metadata,
        sender_id: "peer-1".to_string(),
    };

    let bytes = serialize(&frame);
    assert_eq!(bytes[0], 1);
    let back = deserialize(&bytes).expect("a serialized frame parses");
    match back {
        TransportMessage::Request { path, data, metadata, sender_id } => {
            assert_eq!(path, "/svc/échange".to_string());
            assert_eq!(data, Payload::Text("charge".to_string()));
            assert_eq!(metadata.get(&"origin".to_string()), Some(&"unit".to_string()));
            assert_eq!(metadata.get(&"kind".to_string()), Some(&"probe".to_string()));
            assert_eq!(sender_id, "peer-1".to_string());
        }
        _ => panic!("wrong frame kind"),
    }
}

#[test]
fn test_response_round_trip() {
    let frame = TransportMessage::Response {
        data: Payload::Number(31337),
        metadata: MetaMap::new(),
        status: ResponseStatus::Approximated,
    };

    let bytes = serialize(&frame);
    assert_eq!(bytes[0], 2);
    let back = deserialize(&bytes).expect("a serialized frame parses");
    match back {
        TransportMessage::Response { data, metadata, status } => {
            assert_eq!(data, Payload::Number(31337));
            assert!(metadata.is_empty());
            assert_eq!(status, ResponseStatus::Approximated);
        }
        _ => panic!("wrong frame kind"),
    }
}

#[test]
fn test_pub_message_round_trip() {
    let frame = TransportMessage::PubMessage {
        topic: "alerts/fire".to_string(),
        data: Payload::Flag(true),
        metadata: MetaMap::new(),
        sender_id: "node".to_string(),
        timestamp: 1700000000123,
    };

    let bytes = serialize(&frame);
    assert_eq!(bytes[0], 3);
    let back = deserialize(&bytes).expect("a serialized frame parses");
    match back {
        TransportMessage::PubMessage { topic, data, metadata, sender_id, timestamp } => {
            assert_eq!(topic, "alerts/fire".to_string());
            assert_eq!(data, Payload::Flag(true));
            assert!(metadata.is_empty());
            assert_eq!(sender_id, "node".to_string());
            assert_eq!(timestamp, 1700000000123);
        }
        _ => panic!("wrong frame kind"),
    }
}

#[test]
fn test_heartbeat_round_trip() {
    let bytes = serialize(&TransportMessage::Heartbeat);
    assert_eq!(bytes, vec![10]);
    assert!(matches!(deserialize(&bytes), Some(TransportMessage::Heartbeat)));

    let bytes = serialize(&TransportMessage::HeartbeatAck);
    assert_eq!(bytes, vec![11]);
    assert!(matches!(deserialize(&bytes), Some(TransportMessage::HeartbeatAck)));
}

#[test]
fn test_deserialize_rejects_garbage() {
    assert!(deserialize(&Vec::new()).is_none());
    assert!(deserialize(&vec![9]).is_none());
    assert!(deserialize(&vec![1, 5, 0, 0]).is_none());
    // A heartbeat with trailing bytes is not a frame.
    assert!(deserialize(&vec![10, 0]).is_none());
    // Invalid UTF-8 in a string field is rejected.
    assert!(deserialize(&vec![1, 1, 0, 0, 0, 0, 0, 0, 0, 0xFF]).is_none());
}

#[test]
fn test_payload_round_trip() {
    for payload in [
        Payload::Empty,
        Payload::Text("værdi".to_string()),
        Payload::Flag(false),
        Payload::Number(u64::MAX),
    ] {
        let bytes = serialize_any(&payload);
        let back = deserialize_any(&bytes).expect("a serialized payload parses");
        assert_eq!(back, payload);
    }
    assert!(deserialize_any(&vec![7]).is_none());
}

#[test]
fn test_string_similarity_scores() {
    let a = "/users/list".to_string();
    assert_eq!(string_similarity(&a, &"/users/list".to_string()), 100);
    // One path contains the other.
    assert_eq!(string_similarity(&a, &"/users/list/all".to_string()), 90);
    // One shared segment of two.
    assert_eq!(string_similarity(&a, &"/users/lst".to_string()), 50);
    // No shared segments.
    assert_eq!(string_similarity(&a, &"/x/y".to_string()), 0);
    assert_eq!(string_similarity(&a, &"".to_string()), 0);
}

#[test]
fn test_split_segments_drops_empties() {
    let segs = split_segments(&"//a//b/c/".to_string());
    assert_eq!(segs, vec!["a".to_string(), "b".to_string(), "c".to_string()]);
    assert!(split_segments(&"".to_string()).is_empty());
    assert!(split_segments(&"///".to_string()).is_empty());
}

#[test]
fn test_find_similar_path_takes_first() {
    let keys = vec![
        "/api/v1/users".to_string(),
        "/api/v1/users/all".to_string(),
    ];
    let hit = find_similar_path(&keys, &"/api/v1/users/all/active".to_string(), 80);
    // Both clear the bar; the first in order wins.
    let (path, score) = hit.expect("a similar path exists");
    assert_eq!(path, "/api/v1/users".to_string());
    assert_eq!(score, 90);

    assert!(find_similar_path(&keys, &"/other".to_string(), 80).is_none());
}

#[test]
fn test_registry_lookup_and_fallback() {
    let mut reg = ApiRegistry::new();
    let mut metadata = MetaMap::new();
    metadata.insert("fallback".to_string(), "/old/name".to_string());
    reg.register(
        "/new/name".to_string(),
        Handler::Fixed(Payload::Text("renamed".to_string())),
        metadata,
    );

    assert!(reg.lookup(&"/new/name".to_string()).is_some());
    assert!(reg.lookup(&"/old/name".to_string()).is_none());

    let (owner, entry) = reg
        .lookup_fallback(&"/old/name".to_string())
        .expect("the alias declaration is found");
    assert_eq!(owner, &"/new/name".to_string());
    assert_eq!(entry.fallback_path, Some("/old/name".to_string()));

    assert!(reg.lookup_fallback(&"/new/name".to_string()).is_none());

    let (similar, score) = reg
        .lookup_similar(&"/new/name/x".to_string(), 80)
        .expect("containment clears the threshold");
    assert_eq!(similar, "/new/name".to_string());
    assert_eq!(score, 90);
}

#[test]
fn test_generate_uuid_shape() {
    let a = generate_uuid();
    let b = generate_uuid();
    assert_eq!(a.len(), 36);
    assert_eq!(b.len(), 36);
    assert_ne!(a, b);
}

#[test]
fn test_decimal_string_renders() {
    assert_eq!(decimal_string(0), "0".to_string());
    assert_eq!(decimal_string(7), "7".to_string());
    assert_eq!(decimal_string(12345), "12345".to_string());
    assert_eq!(decimal_string(u64::MAX), "18446744073709551615".to_string());
}

#[test]
fn test_clock_runs() {
    let a = current_time_millis();
    let b = current_time_millis();
    // The clock may jump, but it reports something.
    assert!(b >= a || b < a);
}

#[test]
fn test_tls_config_is_plain_data() {
    let config = TlsConfig {
        cert_path: "certs/cert.pem".to_string(),
        key_path: "certs/key.pem".to_string(),
        ca_path: None,
    };
    let copy = config.clone();
    assert_eq!(copy.cert_path, "certs/cert.pem".to_string());
    assert_eq!(copy.key_path, "certs/key.pem".to_string());
    assert!(copy.ca_path.is_none());
}

#[test]
fn test_metadata_insert_replaces() {
    let mut m = MetaMap::new();
    assert!(m.is_empty());
    m.insert("k".to_string(), "v1".to_string());
    m.insert("k".to_string(), "v2".to_string());
    m.insert("other".to_string(), "w".to_string());
    assert_eq!(m.get(&"k".to_string()), Some(&"v2".to_string()));
    assert_eq!(m.get(&"other".to_string()), Some(&"w".to_string()));
    assert_eq!(m.pair_count(), 2);
    assert!(!m.contains_key(&"missing".to_string()));
}
