use avi_device::embedded::{
    bounded_bytes, c_text, command_message, drain_commands, send_command, AviCommand, AviCommandQueue, AviEmbedded,
    AviEmbeddedConfig, CAviEmbeddedConfig, MessageHandler, NAME_CAPACITY, PUBLISH_CAPACITY, QUEUE_SIZE,
    STREAM_DATA_CAPACITY, TEXT_CAPACITY,
};
use avi_device::protocol::{press_type_from_code, DownlinkMessage, PressType, SensorValue, UplinkMessage};

#[derive(Default)]
struct Recorder {
    seen: Vec<(String, Vec<u8>)>,
}

impl MessageHandler for Recorder {
    fn on_message(&mut self, topic: &str, data: &[u8]) {
        self.seen.push((topic.to_string(), data.to_vec()));
    }
}

struct Count<'a>(&'a mut Vec<String>);

impl<'a> MessageHandler for Count<'a> {
    fn on_message(&mut self, topic: &str, data: &[u8]) {
        self.0.push(format!("{}:{}", topic, data.len()));
    }
}

#[test]
fn a_new_device_is_not_connected_and_says_hello() {
    let dev = AviEmbedded::new(AviEmbeddedConfig { device_id: 1234 });
    assert!(!dev.is_connected());
    assert_eq!(dev.device_id(), 1234);
    assert!(matches!(dev.hello(), UplinkMessage::Hello { device_id: 1234 }));
    let c = CAviEmbeddedConfig { device_id: 7 };
    assert_eq!(c.device_id, 7);
}

#[test]
fn handshake_connects_only_on_welcome() {
    let mut dev = AviEmbedded::new(AviEmbeddedConfig { device_id: 1 });
    dev.on_handshake_reply(Some(DownlinkMessage::Welcome));
    assert!(dev.is_connected());
    dev.on_handshake_reply(None);
    assert!(!dev.is_connected());
    dev.on_handshake_reply(Some(DownlinkMessage::Error { reason: 3 }));
    assert!(!dev.is_connected());
}

#[test]
fn polling_delivers_messages_and_reconnects_on_welcome() {
    let mut dev = AviEmbedded::new(AviEmbeddedConfig { device_id: 1 });
    assert_eq!(
        dev.on_downlink(DownlinkMessage::Message { topic: "t".to_string(), data: vec![1, 2] }),
        Some(("t".to_string(), vec![1, 2]))
    );
    assert!(!dev.is_connected());
    assert_eq!(dev.on_downlink(DownlinkMessage::SubscribeAck { topic: "t".to_string() }), None);
    assert_eq!(dev.on_downlink(DownlinkMessage::Welcome), None);
    assert!(dev.is_connected());
    assert_eq!(dev.on_downlink(DownlinkMessage::UnsubscribeAck { topic: "t".to_string() }), None);
    assert_eq!(dev.on_downlink(DownlinkMessage::Error { reason: 0 }), None);
    assert!(dev.is_connected());
}

#[test]
fn handler_receives_forwarded_topic_and_data() {
    let mut log = Vec::new();
    let mut recorder = Recorder::default();
    {
        let mut handler = Count(&mut log);
        let mut dev = AviEmbedded::new(AviEmbeddedConfig { device_id: 1 });
        let incoming = vec![
            DownlinkMessage::Message { topic: "a/b".to_string(), data: vec![0; 5] },
            DownlinkMessage::Welcome,
            DownlinkMessage::SubscribeAck { topic: "a/b".to_string() },
            DownlinkMessage::Message { topic: "c".to_string(), data: vec![9, 8] },
            DownlinkMessage::Error { reason: 2 },
        ];
        for m in incoming {
            if let Some((topic, data)) = dev.on_downlink(m) {
                handler.on_message(&topic, &data);
                recorder.on_message(&topic, &data);
            }
        }
    }
    assert_eq!(log, vec!["a/b:5".to_string(), "c:2".to_string()]);
    assert_eq!(recorder.seen, vec![("a/b".to_string(), vec![0; 5]), ("c".to_string(), vec![9, 8])]);
}

#[test]
fn queue_is_first_in_first_out_and_bounded() {
    let mut q = AviCommandQueue::new();
    assert!(drain_commands(&mut q).is_empty());
    for i in 0..QUEUE_SIZE {
        assert_eq!(send_command(&mut q, AviCommand::CloseStream { local_stream_id: i as u8 }), 0);
    }
    assert_eq!(send_command(&mut q, AviCommand::CloseStream { local_stream_id: 99 }), -2);
    let all = drain_commands(&mut q);
    assert_eq!(all.len(), QUEUE_SIZE);
    for (i, c) in all.iter().enumerate() {
        assert!(matches!(c, AviCommand::CloseStream { local_stream_id } if *local_stream_id as usize == i));
    }
    assert!(drain_commands(&mut q).is_empty());
    assert_eq!(send_command(&mut q, AviCommand::Connect { device_id: 3 }), 0);
    assert_eq!(drain_commands(&mut q).len(), 1);
}

#[test]
fn commands_become_uplink_messages() {
    assert!(command_message(AviCommand::Connect { device_id: 1 }).is_none());
    assert!(matches!(
        command_message(AviCommand::Subscribe { topic: "t".to_string() }),
        Some(UplinkMessage::Subscribe { topic }) if topic == "t"
    ));
    assert!(matches!(
        command_message(AviCommand::Publish { topic: "t".to_string(), data: vec![1] }),
        Some(UplinkMessage::Publish { topic, data }) if topic == "t" && data == vec![1]
    ));
    assert!(matches!(
        command_message(AviCommand::ButtonPress { button_id: 2, press_type: PressType::Long }),
        Some(UplinkMessage::ButtonPress { button_id: 2, press_type: PressType::Long, custom_data }) if custom_data.is_empty()
    ));
    let t = 21.5f32.to_bits();
    assert!(matches!(
        command_message(AviCommand::SensorTemperature { sensor_name: "room".to_string(), value: t }),
        Some(UplinkMessage::SensorUpdate { sensor_name, data: SensorValue::Temperature(v), .. }) if sensor_name == "room" && v == t
    ));
    assert!(matches!(
        command_message(AviCommand::SensorRaw { sensor_name: "r".to_string(), value: -4 }),
        Some(UplinkMessage::SensorUpdate { data: SensorValue::Raw(-4), .. })
    ));
    assert!(matches!(
        command_message(AviCommand::StartStream { local_stream_id: 1, target_peer_id: "p".to_string(), reason: "audio".to_string() }),
        Some(UplinkMessage::StreamStart { local_stream_id: 1, .. })
    ));
}

#[test]
fn c_text_rules() {
    assert_eq!(c_text(b"hello", TEXT_CAPACITY), Some("hello".to_string()));
    let long = vec![b'a'; TEXT_CAPACITY + 1];
    assert_eq!(c_text(&long, TEXT_CAPACITY), None);
    let exact = vec![b'a'; NAME_CAPACITY];
    assert_eq!(c_text(&exact, NAME_CAPACITY).map(|s| s.len()), Some(NAME_CAPACITY));
    // Not UTF-8: an invalid parameter, however short.
    assert_eq!(c_text(&[0xffu8], NAME_CAPACITY), None);
    assert_eq!(c_text(&[0xc3u8, 0x28], TEXT_CAPACITY), None);
    assert_eq!(c_text(b"", TEXT_CAPACITY), Some(String::new()));
    // Multi-byte characters count by their encoded length.
    let snow = "é".repeat(17);
    assert_eq!(c_text(snow.as_bytes(), NAME_CAPACITY), None);
    assert_eq!(c_text("é".repeat(16).as_bytes(), NAME_CAPACITY), Some("é".repeat(16)));
}

#[test]
fn payload_limits() {
    assert_eq!(bounded_bytes(&[1, 2, 3], PUBLISH_CAPACITY), Some(vec![1, 2, 3]));
    assert_eq!(bounded_bytes(&vec![0; PUBLISH_CAPACITY + 1], PUBLISH_CAPACITY), None);
    assert_eq!(bounded_bytes(&vec![7; STREAM_DATA_CAPACITY], STREAM_DATA_CAPACITY).map(|v| v.len()), Some(STREAM_DATA_CAPACITY));
}

#[test]
fn press_codes() {
    assert_eq!(press_type_from_code(0), Some(PressType::Single));
    assert_eq!(press_type_from_code(1), Some(PressType::Double));
    assert_eq!(press_type_from_code(2), Some(PressType::Long));
    assert_eq!(press_type_from_code(3), None);
}

#[test]
fn polling_never_disconnects() {
    let mut dev = AviEmbedded::new(AviEmbeddedConfig { device_id: 5 });
    let msgs = vec![
        DownlinkMessage::SubscribeAck { topic: "t".to_string() },
        DownlinkMessage::Welcome,
        DownlinkMessage::Error { reason: 1 },
        DownlinkMessage::UnsubscribeAck { topic: "t".to_string() },
    ];
    let mut seen = Vec::new();
    for m in msgs {
        dev.on_downlink(m);
        seen.push(dev.is_connected());
    }
    assert_eq!(seen, vec![false, true, true, true]);
}
