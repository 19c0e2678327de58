use avi_device::bridge::{button_payload, integral_reading, sensor_payload, BridgeConfig, BridgeState, BridgeStep, DeviceSession};
use avi_device::events::StreamId;
use avi_device::json::JsonValue;
use avi_device::path::get_nested_value;
use avi_device::protocol::{press_type_name, sensor_unit, DownlinkMessage, PressType, SensorValue, UplinkMessage};

const ADDR: &str = "192.168.1.50:4000";

fn hello(b: &mut BridgeState, id: u64) {
    let step = b.on_uplink(ADDR, UplinkMessage::Hello { device_id: id });
    assert!(matches!(step, BridgeStep::Reply { message: DownlinkMessage::Welcome }));
}

#[test]
fn unknown_devices_are_ignored_until_hello() {
    let mut b = BridgeState::new();
    assert!(matches!(b.on_uplink(ADDR, UplinkMessage::Subscribe { topic: "t".to_string() }), BridgeStep::Ignore));
    assert!(matches!(b.on_uplink(ADDR, UplinkMessage::Publish { topic: "t".to_string(), data: vec![] }), BridgeStep::Ignore));
    assert!(matches!(
        b.on_uplink(ADDR, UplinkMessage::ButtonPress { button_id: 1, press_type: PressType::Single, custom_data: String::new() }),
        BridgeStep::Ignore
    ));
    hello(&mut b, 1234);
    assert!(matches!(
        b.on_uplink(ADDR, UplinkMessage::Subscribe { topic: "t".to_string() }),
        BridgeStep::Subscribe { topic } if topic == "t"
    ));
}

#[test]
fn subscriptions_are_tracked_per_device() {
    let mut b = BridgeState::new();
    hello(&mut b, 1);
    assert!(b.recipients("news").is_empty());
    let ack = b.subscribed(ADDR, "news".to_string());
    assert!(matches!(ack, Some(DownlinkMessage::SubscribeAck { topic }) if topic == "news"));
    assert_eq!(b.recipients("news"), vec![ADDR.to_string()]);
    assert!(b.subscribed("elsewhere:1", "news".to_string()).is_none());
    let step = b.on_uplink(ADDR, UplinkMessage::Unsubscribe { topic: "news".to_string() });
    assert!(matches!(step, BridgeStep::Unsubscribe { topic } if topic == "news"));
    assert!(b.recipients("news").is_empty());
}

#[test]
fn a_second_hello_starts_a_fresh_session() {
    let mut b = BridgeState::new();
    hello(&mut b, 1);
    b.subscribed(ADDR, "x".to_string());
    hello(&mut b, 2);
    assert!(b.recipients("x").is_empty());
}

#[test]
fn other_devices_keep_their_sessions() {
    let other = "10.0.0.9:5000";
    let mut b = BridgeState::new();
    assert!(matches!(b.on_uplink(other, UplinkMessage::Hello { device_id: 9 }), BridgeStep::Reply { .. }));
    b.subscribed(other, "news".to_string());
    b.stream_opened(other, 1, StreamId(77));
    hello(&mut b, 1);
    b.subscribed(ADDR, "news".to_string());
    b.on_uplink(ADDR, UplinkMessage::Unsubscribe { topic: "news".to_string() });
    hello(&mut b, 1);
    assert_eq!(b.recipients("news"), vec![other.to_string()]);
    assert!(matches!(
        b.on_uplink(other, UplinkMessage::StreamData { local_stream_id: 1, data: vec![3] }),
        BridgeStep::SendStreamData { stream_id: StreamId(77), .. }
    ));
}

#[test]
fn streams_map_local_numbers_to_mesh_streams() {
    let mut b = BridgeState::new();
    hello(&mut b, 1);
    let step = b.on_uplink(
        ADDR,
        UplinkMessage::StreamStart { local_stream_id: 3, target_peer_id: "peer".to_string(), reason: "audio".to_string() },
    );
    match step {
        BridgeStep::OpenStream { local_stream_id, peer, reason } => {
            assert_eq!(local_stream_id, 3);
            assert_eq!(peer.as_str(), "peer");
            assert_eq!(reason, "audio");
        }
        other => panic!("unexpected {:?}", other),
    }
    assert!(matches!(b.on_uplink(ADDR, UplinkMessage::StreamData { local_stream_id: 3, data: vec![1] }), BridgeStep::Ignore));
    b.stream_opened(ADDR, 3, StreamId(42));
    assert!(matches!(
        b.on_uplink(ADDR, UplinkMessage::StreamData { local_stream_id: 3, data: vec![1] }),
        BridgeStep::SendStreamData { stream_id: StreamId(42), data } if data == vec![1]
    ));
    assert!(matches!(b.on_uplink(ADDR, UplinkMessage::StreamClose { local_stream_id: 3 }), BridgeStep::CloseStream { stream_id: StreamId(42) }));
    assert!(matches!(b.on_uplink(ADDR, UplinkMessage::StreamClose { local_stream_id: 3 }), BridgeStep::Ignore));
    let empty_target = UplinkMessage::StreamStart { local_stream_id: 4, target_peer_id: String::new(), reason: "x".to_string() };
    assert!(matches!(b.on_uplink(ADDR, empty_target), BridgeStep::Ignore));
}

#[test]
fn button_and_sensor_topics() {
    let mut b = BridgeState::new();
    hello(&mut b, 1234);
    match b.on_uplink(ADDR, UplinkMessage::ButtonPress { button_id: 1, press_type: PressType::Double, custom_data: "x".to_string() }) {
        BridgeStep::PublishButton { topic, button_id, press_type, custom_data } => {
            assert_eq!(topic, "avi/devices/1234/events");
            assert_eq!(button_id, 1);
            assert_eq!(press_type, PressType::Double);
            assert_eq!(custom_data, "x");
        }
        other => panic!("unexpected {:?}", other),
    }
    match b.on_uplink(ADDR, UplinkMessage::SensorUpdate { sensor_name: "temp".to_string(), data: SensorValue::Battery(80), custom_data: String::new() }) {
        BridgeStep::PublishSensor { topic, context_path, sensor_name, data, .. } => {
            assert_eq!(topic, "avi/devices/1234/events");
            assert_eq!(context_path, "avi.sensors.1234.temp");
            assert_eq!(sensor_name, "temp");
            assert_eq!(data, SensorValue::Battery(80));
        }
        other => panic!("unexpected {:?}", other),
    }
}

#[test]
fn payloads() {
    let p = button_payload(7, PressType::Long, "extra", 1700000000);
    assert!(get_nested_value(&p, "button_id").unwrap().same_as(&JsonValue::Number("7".to_string())));
    assert!(get_nested_value(&p, "type").unwrap().same_as(&JsonValue::Str("Long".to_string())));
    assert!(get_nested_value(&p, "data").unwrap().same_as(&JsonValue::Str("extra".to_string())));
    assert!(get_nested_value(&p, "ts").unwrap().same_as(&JsonValue::Number("1700000000".to_string())));

    let s = sensor_payload("hum", JsonValue::Bool(true), "%", "", 5);
    assert!(get_nested_value(&s, "name").unwrap().same_as(&JsonValue::Str("hum".to_string())));
    assert!(get_nested_value(&s, "data.value").unwrap().same_as(&JsonValue::Bool(true)));
    assert!(get_nested_value(&s, "data.unit").unwrap().same_as(&JsonValue::Str("%".to_string())));
    assert!(get_nested_value(&s, "data.custom").unwrap().same_as(&JsonValue::Str(String::new())));
    assert!(get_nested_value(&s, "ts").unwrap().same_as(&JsonValue::Number("5".to_string())));
}

#[test]
fn readings_and_units() {
    assert!(integral_reading(SensorValue::Battery(90)).unwrap().same_as(&JsonValue::Number("90".to_string())));
    assert!(integral_reading(SensorValue::Raw(-12)).unwrap().same_as(&JsonValue::Number("-12".to_string())));
    assert!(integral_reading(SensorValue::Status(false)).unwrap().same_as(&JsonValue::Bool(false)));
    assert!(integral_reading(SensorValue::Temperature(1.0f32.to_bits())).is_none());
    assert_eq!(sensor_unit(SensorValue::Temperature(0)), "C");
    assert_eq!(sensor_unit(SensorValue::Humidity(0)), "%");
    assert_eq!(sensor_unit(SensorValue::Raw(0)), "");
    assert_eq!(press_type_name(PressType::Single), "Single");
}

#[test]
fn sessions_and_config() {
    let s = DeviceSession::new(99);
    assert_eq!(s.device_id(), 99);
    assert!(!s.is_subscribed("any"));
    let c = BridgeConfig { udp_port: 8888 };
    assert_eq!(c.udp_port, 8888);
}
