use avi_device::clock::VectorClock;
use avi_device::context::AviContext;
use avi_device::error::{AviP2pError, StreamCloseReason};
use avi_device::events::{AviEvent, PeerId, StreamId};
use avi_device::json::JsonValue;
use avi_device::messages::StreamMessage;
use avi_device::path::get_nested_value;
use avi_device::runtime::{bootstrap_targets, context_supersedes, generate_stream_id, RuntimeState, StreamDirection, StreamIdCounter, StreamStatus, CONTEXT_TOPIC};

fn peer_text() -> String {
    libp2p::identity::Keypair::generate_ed25519().public().to_peer_id().to_base58()
}

fn fresh() -> RuntimeState {
    RuntimeState::new_at("local-node".to_string(), 100)
}

#[test]
fn new_runtime_has_skeleton_context_and_nothing_else() {
    let rt = fresh();
    assert_eq!(rt.local_context().device_id, "local-node");
    assert_eq!(rt.local_context().timestamp, 100);
    assert!(!rt.is_subscribed(CONTEXT_TOPIC));
    assert!(rt.connected_peers().is_empty());
    let live = RuntimeState::new("n".to_string());
    assert_eq!(live.local_context().device_id, "n");
}

#[test]
fn stream_ids_count_up_from_one() {
    let mut ids = StreamIdCounter::new();
    assert_eq!(generate_stream_id(&mut ids), StreamId(1));
    assert_eq!(generate_stream_id(&mut ids), StreamId(2));
}

#[test]
fn two_nodes_sharing_the_counter_never_reuse_a_number() {
    let mut ids = StreamIdCounter::new();
    let mut a = RuntimeState::new_at("a".to_string(), 1);
    let mut b = RuntimeState::new_at("b".to_string(), 1);
    let p = peer_text();
    let (s1, _) = a.request_stream(&mut ids, PeerId::new(&p), "x".to_string()).unwrap();
    let (s2, _) = b.request_stream(&mut ids, PeerId::new(&p), "x".to_string()).unwrap();
    let (s3, _) = a.request_stream(&mut ids, PeerId::new(&p), "y".to_string()).unwrap();
    assert_eq!((s1, s2, s3), (StreamId(1), StreamId(2), StreamId(3)));
}

#[test]
fn request_stream_to_a_valid_peer() {
    let mut rt = fresh();
    let mut ids = StreamIdCounter::new();
    let p = peer_text();
    let (sid, msg) = rt.request_stream(&mut ids, PeerId::new(&p), "audio".to_string()).unwrap();
    assert_eq!(sid, StreamId(1));
    assert_eq!(msg, StreamMessage::RequestStream { stream_id: 1, reason: "audio".to_string() });
    let (peer, data) = rt.send_stream_data(sid, vec![1, 2, 3]).unwrap();
    assert_eq!(peer.as_str(), p);
    assert_eq!(data, StreamMessage::StreamData { stream_id: 1, data: vec![1, 2, 3] });
    let (sid2, _) = rt.request_stream(&mut ids, PeerId::new(&p), "video".to_string()).unwrap();
    assert_eq!(sid2, StreamId(2));
}

#[test]
fn request_stream_to_an_invalid_peer_is_refused() {
    let mut rt = fresh();
    let mut ids = StreamIdCounter::new();
    match rt.request_stream(&mut ids, PeerId::new("not-a-peer"), "audio".to_string()) {
        Err(AviP2pError::PeerNotFound(p)) => assert_eq!(p.as_str(), "not-a-peer"),
        other => panic!("unexpected {:?}", other),
    }
    // The counter did not move.
    assert_eq!(generate_stream_id(&mut ids), StreamId(1));
}

#[test]
fn unknown_streams_are_reported() {
    let mut rt = fresh();
    assert!(matches!(rt.accept_stream(StreamId(9)), Err(AviP2pError::StreamNotFound(StreamId(9)))));
    assert!(matches!(rt.send_stream_data(StreamId(9), vec![]), Err(AviP2pError::StreamNotFound(StreamId(9)))));
    assert!(matches!(rt.close_stream(StreamId(9)), Err(AviP2pError::StreamNotFound(StreamId(9)))));
    assert!(matches!(rt.refuse_stream(StreamId(9), "no".to_string()), Err(AviP2pError::StreamNotFound(StreamId(9)))));
}

#[test]
fn inbound_stream_lifecycle() {
    let mut rt = fresh();
    let p = PeerId::new(&peer_text());
    let ev = rt.on_stream_message(p.clone(), StreamMessage::RequestStream { stream_id: 77, reason: "cam".to_string() });
    match ev {
        Some(AviEvent::StreamRequested { from, stream_id, reason }) => {
            assert_eq!(from, p);
            assert_eq!(stream_id, StreamId(77));
            assert_eq!(reason, "cam");
        }
        other => panic!("unexpected {:?}", other),
    }
    let (to, accept) = rt.accept_stream(StreamId(77)).unwrap();
    assert_eq!(to, p);
    assert_eq!(accept, StreamMessage::AcceptStream { stream_id: 77 });
    let ev = rt.on_stream_message(p.clone(), StreamMessage::StreamData { stream_id: 77, data: vec![9] });
    assert!(matches!(ev, Some(AviEvent::StreamData { stream_id: StreamId(77), .. })));
    let (to, close) = rt.close_stream(StreamId(77)).unwrap();
    assert_eq!(to, p);
    assert_eq!(close, StreamMessage::CloseStream { stream_id: 77 });
    assert!(rt.close_stream(StreamId(77)).is_err());
}

#[test]
fn refusing_forgets_the_stream() {
    let mut rt = fresh();
    let p = PeerId::new(&peer_text());
    rt.on_stream_message(p.clone(), StreamMessage::RequestStream { stream_id: 5, reason: "x".to_string() });
    let (to, msg) = rt.refuse_stream(StreamId(5), "busy".to_string()).unwrap();
    assert_eq!(to, p);
    assert_eq!(msg, StreamMessage::RejectStream { stream_id: 5, reason: "busy".to_string() });
    assert!(rt.send_stream_data(StreamId(5), vec![]).is_err());
}

#[test]
fn remote_accept_reject_close_and_unknown_data() {
    let mut rt = fresh();
    let mut ids = StreamIdCounter::new();
    let p = PeerId::new(&peer_text());
    let (sid, _) = rt.request_stream(&mut ids, p.clone(), "a".to_string()).unwrap();
    let ev = rt.on_stream_message(p.clone(), StreamMessage::AcceptStream { stream_id: sid.0 });
    assert!(matches!(ev, Some(AviEvent::StreamAccepted { stream_id, .. }) if stream_id == sid));
    assert!(rt.on_stream_message(p.clone(), StreamMessage::AcceptStream { stream_id: 999 }).is_none());
    assert!(rt.on_stream_message(p.clone(), StreamMessage::StreamData { stream_id: 999, data: vec![] }).is_none());
    let ev = rt.on_stream_message(p.clone(), StreamMessage::CloseStream { stream_id: sid.0 });
    assert!(matches!(ev, Some(AviEvent::StreamClosed { reason: StreamCloseReason::RemoteClose, .. })));
    let (sid2, _) = rt.request_stream(&mut ids, p.clone(), "b".to_string()).unwrap();
    let ev = rt.on_stream_message(p.clone(), StreamMessage::RejectStream { stream_id: sid2.0, reason: "no".to_string() });
    assert!(matches!(ev, Some(AviEvent::StreamRejected { reason, .. }) if reason == "no"));
    assert!(rt.send_stream_data(sid2, vec![]).is_err());
}

#[test]
fn started_is_reported_once() {
    let mut rt = fresh();
    let me = PeerId::new("me");
    let first = rt.on_new_listen_addr(me.clone(), "/ip4/0.0.0.0/tcp/1".to_string());
    match first {
        Some(AviEvent::Started { local_peer_id, listen_addresses }) => {
            assert_eq!(local_peer_id, me);
            assert_eq!(listen_addresses, vec!["/ip4/0.0.0.0/tcp/1".to_string()]);
        }
        other => panic!("unexpected {:?}", other),
    }
    assert!(rt.on_new_listen_addr(me, "/ip4/0.0.0.0/tcp/2".to_string()).is_none());
}

#[test]
fn discovery_is_reported_once_per_peer() {
    let mut rt = fresh();
    let p = PeerId::new("p1");
    assert!(matches!(rt.on_peer_found(p.clone()), Some(AviEvent::PeerDiscovered { .. })));
    assert!(rt.on_peer_found(p).is_none());
}

#[test]
fn connections_and_disconnections() {
    let mut rt = fresh();
    let p = PeerId::new(&peer_text());
    let (must_sub, ev) = rt.on_connection_established(p.clone(), "/ip4/1.2.3.4/tcp/5".to_string(), 1);
    assert!(must_sub);
    assert!(matches!(ev, Some(AviEvent::PeerConnected { .. })));
    assert!(rt.is_subscribed(CONTEXT_TOPIC));
    assert_eq!(rt.connected_peers(), vec![p.clone()]);
    let (again, none) = rt.on_connection_established(p.clone(), "x".to_string(), 2);
    assert!(!again && none.is_none());

    rt.on_stream_message(p.clone(), StreamMessage::RequestStream { stream_id: 4, reason: "r".to_string() });
    assert!(rt.on_connection_closed(p.clone(), 1).is_empty());
    let events = rt.on_connection_closed(p.clone(), 0);
    assert_eq!(events.len(), 2);
    assert!(matches!(&events[0], AviEvent::StreamClosed { stream_id: StreamId(4), reason: StreamCloseReason::RemoteClose, .. }));
    assert!(matches!(&events[1], AviEvent::PeerDisconnected { peer_id } if *peer_id == p));
    assert!(rt.connected_peers().is_empty());
    assert!(rt.send_stream_data(StreamId(4), vec![]).is_err());
}

#[test]
fn subscriptions_are_recorded() {
    let mut rt = fresh();
    rt.record_subscribed("t".to_string());
    assert!(rt.is_subscribed("t"));
    rt.record_unsubscribed("t");
    assert!(!rt.is_subscribed("t"));
}

#[test]
fn updating_our_context_bumps_our_clock() {
    let mut rt = fresh();
    let patch = JsonValue::Object(vec![("k".to_string(), JsonValue::Bool(true))]);
    assert!(rt.update_self_context(patch, 200));
    assert_eq!(rt.local_context().timestamp, 200);
    assert_eq!(rt.local_context().vector_clock.get("local-node"), 1);
    assert!(get_nested_value(&rt.local_context().data, "k").unwrap().same_as(&JsonValue::Bool(true)));
    assert!(!rt.update_self_context(JsonValue::new_object(), 201));
    assert_eq!(rt.local_context().vector_clock.get("local-node"), 2);
    let own = rt.peer_context(None).unwrap();
    assert!(own.same_as(&rt.local_context().data));
}

fn context(device: &str, ts: u64, clock: &[(&str, u64)]) -> AviContext {
    let mut c = AviContext::new_at(device.to_string(), ts);
    let mut vc = VectorClock::new();
    for (a, n) in clock {
        vc.set(a, *n);
    }
    c.vector_clock = vc;
    c
}

#[test]
fn peer_contexts_are_kept_when_newer() {
    let mut rt = fresh();
    assert!(matches!(rt.peer_context(Some(PeerId::new("peer"))), Err(AviP2pError::PeerNotFound(_))));
    let first = context("peer", 10, &[("peer", 1)]);
    assert!(matches!(rt.on_context_update(first.duplicate()), Some(AviEvent::ContextUpdated { .. })));
    assert!(rt.on_context_update(first.duplicate()).is_none());
    let older = context("peer", 50, &[]);
    assert!(rt.on_context_update(older).is_none());
    let mut newer = context("peer", 5, &[("peer", 2)]);
    newer.replace_data_at(JsonValue::Str("v2".to_string()), 5);
    assert!(rt.on_context_update(newer).is_some());
    let stored = rt.peer_context(Some(PeerId::new("peer"))).unwrap();
    assert!(stored.same_as(&JsonValue::Str("v2".to_string())));
}

#[test]
fn supersession_rules() {
    let a = context("x", 10, &[("x", 2)]);
    let b = context("x", 20, &[("x", 1)]);
    assert!(context_supersedes(&a, &b));
    assert!(!context_supersedes(&b, &a));
    assert!(!context_supersedes(&a, &a));
    let c1 = context("x", 30, &[("x", 1)]);
    let c2 = context("x", 20, &[("y", 1)]);
    assert!(context_supersedes(&c1, &c2));
    assert!(!context_supersedes(&c2, &c1));
}

#[test]
fn stream_state_kinds_compare() {
    assert_ne!(StreamStatus::Requested, StreamStatus::Active);
    assert_ne!(StreamDirection::Inbound, StreamDirection::Outbound);
}

#[test]
fn bootstrap_keeps_addresses_that_name_a_peer_in_order() {
    let p1 = peer_text();
    let p2 = peer_text();
    let a1 = format!("/ip4/10.0.0.1/tcp/4001/p2p/{}", p1);
    let a2 = format!("/dns4/example.org/tcp/4001/p2p/{}", p2);
    let peers = vec![
        a1.clone(),
        "/ip4/10.0.0.2/tcp/4001".to_string(),
        "not a multiaddr".to_string(),
        a2.clone(),
    ];
    assert_eq!(bootstrap_targets(&peers), vec![(a1, p1), (a2, p2)]);
    assert!(bootstrap_targets(&vec![]).is_empty());
}

#[test]
fn known_peers_are_redialled_only_while_disconnected() {
    let mut rt = fresh();
    let p = PeerId::new(&peer_text());
    let q = PeerId::new(&peer_text());
    assert!(rt.redial_targets().is_empty());
    rt.note_known_address(p.clone(), "/ip4/1.1.1.1/tcp/1".to_string());
    rt.note_known_address(q.clone(), "/ip4/2.2.2.2/tcp/2".to_string());
    rt.note_known_address(p.clone(), "/ip4/1.1.1.1/tcp/9".to_string());
    let mut targets = rt.redial_targets();
    targets.sort();
    let mut expected = vec![
        (p.to_string(), "/ip4/1.1.1.1/tcp/9".to_string()),
        (q.to_string(), "/ip4/2.2.2.2/tcp/2".to_string()),
    ];
    expected.sort();
    assert_eq!(targets, expected);
    rt.on_connection_established(p.clone(), "/ip4/1.1.1.1/tcp/9".to_string(), 1);
    assert_eq!(rt.redial_targets(), vec![(q.to_string(), "/ip4/2.2.2.2/tcp/2".to_string())]);
    rt.on_connection_closed(p.clone(), 0);
    assert_eq!(rt.redial_targets().len(), 2);
}

#[test]
fn stream_traffic_leaves_peers_and_contexts_alone() {
    let mut rt = fresh();
    let p = PeerId::new(&peer_text());
    rt.on_connection_established(p.clone(), "a".to_string(), 1);
    let ctx = AviContext::new_at("peer".to_string(), 3);
    rt.on_context_update(ctx);
    rt.on_stream_message(p.clone(), StreamMessage::RequestStream { stream_id: 1, reason: "r".to_string() });
    rt.on_stream_message(p.clone(), StreamMessage::CloseStream { stream_id: 1 });
    assert_eq!(rt.connected_peers(), vec![p]);
    assert!(rt.peer_context(Some(PeerId::new("peer"))).is_ok());
}

#[test]
fn stream_ids_stay_distinct_and_increasing_over_many_calls() {
    let mut ids = StreamIdCounter::new();
    let mut seen = std::collections::HashSet::new();
    let mut prev = 0u64;
    for k in 1..=10_000u64 {
        let StreamId(id) = generate_stream_id(&mut ids);
        assert_eq!(id, k);
        assert!(id > prev);
        assert!(seen.insert(id));
        prev = id;
    }
    assert_eq!(seen.len(), 10_000);
}
