use avi_device::capability::{CapabilityBuilder, HealthCapability, SensorCapability};
use avi_device::config::AviP2pConfig;
use avi_device::device::{caps_path, context_with, core_id_of, AviDeviceType, DeviceState, CORE_PATH};
use avi_device::dispatch::{no_factory_message, no_handler_message, StreamRegistry};
use avi_device::error::AviP2pError;
use avi_device::events::{AviEvent, PeerId, StreamId};
use avi_device::json::JsonValue;
use avi_device::messages::{frame, frame_length, length_prefix, StreamMessage, MAX_FRAME_LEN};
use avi_device::path::get_nested_value;
use avi_device::query::{combine, has_capability, select_matching, CapabilityType, CombineMode};
use avi_device::bridge::integral_reading;
use avi_device::protocol::SensorValue;
use avi_device::text::join2;

#[test]
fn config_defaults() {
    let c = AviP2pConfig::default();
    assert_eq!(c.node_name, "avi-node");
    assert_eq!(c.listen_port, 0);
    assert!(c.bootstrap_peers.is_empty());
    assert!(c.enable_mdns && c.enable_kad);
    assert_eq!(c.max_peers, 50);
    assert_eq!(c.max_streams, 10);
    let n = AviP2pConfig::new("kitchen");
    assert_eq!(n.node_name, "kitchen");
    assert_eq!(n.max_peers, 50);
}

#[test]
fn device_type_default_is_node() {
    assert_eq!(AviDeviceType::default(), AviDeviceType::NODE);
}

#[test]
fn device_events_plan_capability_updates() {
    let mut st = DeviceState::new();
    let plan = st.on_event(&AviEvent::PeerConnected { peer_id: PeerId::new("x"), address: "a".to_string() }, AviDeviceType::NODE);
    assert!(plan.update_caps_at.is_none() && !plan.try_claim_core);
    let me = PeerId::new("me");
    let plan = st.on_event(&AviEvent::Started { local_peer_id: me.clone(), listen_addresses: vec![] }, AviDeviceType::CORE);
    assert_eq!(plan.update_caps_at.as_deref(), Some("avi.device.caps.me"));
    assert!(plan.try_claim_core);
    assert_eq!(st.local_peer_id, Some(me));
    let plan = st.on_event(&AviEvent::PeerConnected { peer_id: PeerId::new("x"), address: "a".to_string() }, AviDeviceType::CORE);
    assert_eq!(plan.update_caps_at.as_deref(), Some("avi.device.caps.me"));
    assert!(!plan.try_claim_core);
    let plan = st.on_event(&AviEvent::PeerDisconnected { peer_id: PeerId::new("x") }, AviDeviceType::CORE);
    assert!(plan.update_caps_at.is_none() && !plan.try_claim_core);
    let node = DeviceState::new().on_event(&AviEvent::Started { local_peer_id: PeerId::new("n"), listen_addresses: vec![] }, AviDeviceType::NODE);
    assert!(!node.try_claim_core);
}

#[test]
fn context_paths_and_core_id() {
    assert_eq!(caps_path("peer1"), "avi.device.caps.peer1");
    let doc = context_with(JsonValue::new_object(), CORE_PATH, JsonValue::Str("core-peer".to_string())).unwrap();
    let core = get_nested_value(&doc, CORE_PATH).unwrap();
    assert_eq!(core_id_of(&core), "core-peer");
    let bad = context_with(JsonValue::Object(vec![("avi".to_string(), JsonValue::Bool(true))]), "avi.core.x", JsonValue::Null);
    assert!(matches!(bad, Err(AviP2pError::InvalidPath(m)) if m == "Failed to navigate to key: core"));
}

#[test]
fn registry_accepts_only_registered_reasons() {
    let mut reg = StreamRegistry::new();
    assert_eq!(reg.decide_incoming("audio"), Err("No handler registered for reason: audio".to_string()));
    reg.register_handler("audio".to_string());
    assert!(reg.handles("audio"));
    assert_eq!(reg.decide_incoming("audio"), Ok(()));
    assert!(!reg.handles("video"));
}

#[test]
fn registry_tracks_live_streams() {
    let mut reg = StreamRegistry::new();
    let p = PeerId::new("p");
    assert_eq!(reg.on_data(StreamId(3)).err(), Some("No handler found for stream 3".to_string()));
    reg.record_active(StreamId(3), "audio".to_string(), p.clone());
    let a = reg.on_data(StreamId(3)).unwrap();
    assert_eq!(a.reason, "audio");
    assert_eq!(a.peer, p);
    let q = PeerId::new("q");
    assert!(reg.on_accepted(q.clone(), StreamId(3)).is_ok());
    assert_eq!(reg.on_data(StreamId(3)).unwrap().peer, q);
    assert_eq!(reg.on_accepted(q.clone(), StreamId(4)), Err("No handler found for stream 4".to_string()));
    let done = reg.on_finished(StreamId(3)).unwrap();
    assert_eq!(done.reason, "audio");
    assert!(reg.on_finished(StreamId(3)).is_err());
    assert_eq!(no_factory_message("x"), "No handler registered for reason: x");
    assert_eq!(no_handler_message(StreamId(12)), "No handler found for stream 12");
}

#[test]
fn query_parts() {
    let caps = CapabilityBuilder::new()
        .sensor("cam", SensorCapability::Imu { present: true, axes: 3, update_rate_hz: 10 })
        .health(HealthCapability { uptime_s: 1, thermal_headroom_pct: 1, cpu_load_pct: 1, memory_pressure_pct: 1, network_stability_pct: 1 })
        .build();
    assert!(has_capability(&CapabilityType::Health, &caps));
    assert!(!has_capability(&CapabilityType::Compute, &caps));
    assert!(has_capability(&CapabilityType::Sensor("cam".to_string()), &caps));
    assert!(!has_capability(&CapabilityType::Sensor("mic".to_string()), &caps));
    assert!(!has_capability(&CapabilityType::Connectivity("wifi".to_string()), &caps));
    assert!(has_capability(&CapabilityType::Any, &caps));

    assert!(combine(CombineMode::All, &vec![]));
    assert!(combine(CombineMode::Any, &vec![]));
    assert!(combine(CombineMode::All, &vec![true, true]));
    assert!(!combine(CombineMode::All, &vec![true, false]));
    assert!(combine(CombineMode::Any, &vec![false, true]));
    assert!(!combine(CombineMode::Any, &vec![false, false]));

    let devices = vec![("a".to_string(), caps.clone()), ("b".to_string(), caps.clone()), ("c".to_string(), caps)];
    assert_eq!(select_matching(&devices, &vec![true, false, true]), vec!["a".to_string(), "c".to_string()]);
}

#[test]
fn framing() {
    assert_eq!(length_prefix(0), [0, 0, 0, 0]);
    assert_eq!(length_prefix(258), [0, 0, 1, 2]);
    assert_eq!(frame_length([0, 0, 1, 2]), Some(258));
    assert_eq!(frame_length(length_prefix(MAX_FRAME_LEN)), Some(MAX_FRAME_LEN));
    assert_eq!(frame_length(length_prefix(MAX_FRAME_LEN + 1)), None);
    assert_eq!(frame(&vec![9, 8, 7]), vec![0, 0, 0, 3, 9, 8, 7]);
    let m = StreamMessage::RejectStream { stream_id: 5, reason: "r".to_string() };
    assert_eq!(m.stream_id(), StreamId(5));
    assert_eq!(StreamMessage::StreamData { stream_id: 8, data: vec![] }.stream_id(), StreamId(8));
}

#[test]
fn decimal_text() {
    assert_eq!(no_handler_message(StreamId(0)), "No handler found for stream 0");
    assert_eq!(no_handler_message(StreamId(u64::MAX)), "No handler found for stream 18446744073709551615");
    assert!(integral_reading(SensorValue::Raw(-42)).unwrap().same_as(&JsonValue::Number("-42".to_string())));
    assert!(integral_reading(SensorValue::Raw(i32::MIN)).unwrap().same_as(&JsonValue::Number("-2147483648".to_string())));
    assert_eq!(join2("ab", "cd"), "abcd");
    assert_eq!(PeerId::new("z").to_string(), "z");
}
