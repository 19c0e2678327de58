//! The embedded-device side of the bridge protocol: the link state a device
//! keeps, what it sends for each queued command, and the checks its C
//! interface applies to arguments.
use vstd::prelude::*;
use crate::protocol::{DownlinkMessage, PressType, SensorValue, UplinkMessage};
use vstd::string::StringSliceAdditionalSpecFns;
use embassy_sync::blocking_mutex::raw::NoopRawMutex;
use embassy_sync::channel::{Channel, TrySendError};
use vstd::utf8::{encode_utf8, valid_utf8};

verus! {

pub struct AviEmbeddedConfig {
    pub device_id: u64,
}

/// Receives messages the gateway forwards to the device.
pub trait MessageHandler {
    fn on_message(&mut self, topic: &str, data: &[u8]);
}

/// Whether the device is connected after the handshake got `reply`
/// (`None` when nothing decodable came back): only a welcome connects it.
pub open spec fn connected_after_reply(reply: Option<DownlinkMessage>) -> bool {
    reply matches Some(DownlinkMessage::Welcome)
}

/// Whether the device is connected after polling `msg`: a welcome connects
/// it, and nothing disconnects it.
pub open spec fn connected_after_downlink(connected: bool, msg: DownlinkMessage) -> bool {
    connected || msg is Welcome
}

/// Whether the device is connected after polling `msgs` in turn.
pub open spec fn connected_after_all(connected: bool, msgs: Seq<DownlinkMessage>) -> bool
    decreases msgs.len(),
{
    if msgs.len() == 0 {
        connected
    } else {
        connected_after_all(connected_after_downlink(connected, msgs[0]), msgs.drop_first())
    }
}

/// Polling never disconnects the device: after any run of polled messages
/// it is connected exactly when it was before or one of them was a welcome.
pub proof fn lemma_polling_only_connects(connected: bool, msgs: Seq<DownlinkMessage>)
    ensures
        connected_after_all(connected, msgs) == (connected || exists|i: int| 0 <= i < msgs.len() && (#[trigger] msgs[i]) is Welcome),
    decreases msgs.len(),
{
    if msgs.len() > 0 {
        let rest = msgs.drop_first();
        lemma_polling_only_connects(connected_after_downlink(connected, msgs[0]), rest);
        if exists|i: int| 0 <= i < rest.len() && (#[trigger] rest[i]) is Welcome {
            let i = choose|i: int| 0 <= i < rest.len() && (#[trigger] rest[i]) is Welcome;
            assert(msgs[i + 1] == rest[i]);
        }
        if exists|i: int| 0 <= i < msgs.len() && (#[trigger] msgs[i]) is Welcome {
            let i = choose|i: int| 0 <= i < msgs.len() && (#[trigger] msgs[i]) is Welcome;
            if i > 0 {
                assert(rest[i - 1] == msgs[i]);
            }
        }
    }
}

/// A device's connection over its life. It starts disconnected (`new`),
/// and only `on_handshake_reply` and `on_downlink` take the link mutably, so
/// only a handshake reply and polled messages change it: after a handshake
/// answered with `reply`, followed by polls of `msgs`, the device is
/// connected exactly when the reply or one of the polled messages was a
/// welcome.
pub proof fn lemma_connection_history(reply: Option<DownlinkMessage>, msgs: Seq<DownlinkMessage>)
    ensures
        connected_after_all(connected_after_reply(reply), msgs)
            == ((reply matches Some(DownlinkMessage::Welcome)) || exists|i: int| 0 <= i < msgs.len() && (#[trigger] msgs[i]) is Welcome),
{
    lemma_polling_only_connects(connected_after_reply(reply), msgs);
}

/// A forwarded mesh message's destination on the device: its topic and
/// payload, exactly as the gateway sent them, or nothing for every other kind
/// of downlink message.
pub open spec fn delivery_of(msg: DownlinkMessage) -> Option<(String, Vec<u8>)> {
    match msg {
        DownlinkMessage::Message { topic, data } => Some((topic, data)),
        _ => None,
    }
}

/// The device's side of the link to the gateway: who it is and whether the
/// gateway has welcomed it. Sending and receiving datagrams is left to the
/// caller, which reports what arrived and hands each delivery that
/// `on_downlink` returns to its `MessageHandler`.
pub struct AviEmbedded {
    config: AviEmbeddedConfig,
    is_connected: bool,
}

impl AviEmbedded {
    pub closed spec fn connected_spec(&self) -> bool {
        self.is_connected
    }

    pub closed spec fn id(&self) -> u64 {
        self.config.device_id
    }

    pub fn new(config: AviEmbeddedConfig) -> (r: Self)
        ensures
            r.id() == config.device_id,
            !r.connected_spec(),
    {
        AviEmbedded { config, is_connected: false }
    }

    pub fn device_id(&self) -> (r: u64)
        ensures
            r == self.id(),
    {
        self.config.device_id
    }

    pub fn is_connected(&self) -> (r: bool)
        ensures
            r == self.connected_spec(),
    {
        self.is_connected
    }

    /// The greeting that opens the handshake.
    pub fn hello(&self) -> (r: UplinkMessage)
        ensures
            r == (UplinkMessage::Hello { device_id: self.id() }),
    {
        UplinkMessage::Hello { device_id: self.config.device_id }
    }

    /// The handshake's answer arrived (or nothing decodable did): the device
    /// is connected exactly when the gateway welcomed it.
    pub fn on_handshake_reply(&mut self, reply: Option<DownlinkMessage>)
        ensures
            final(self).connected_spec() == connected_after_reply(reply),
            final(self).id() == old(self).id(),
    {
        self.is_connected = match reply {
            Some(DownlinkMessage::Welcome) => true,
            _ => false,
        };
    }

    /// A message arrived while polling: a welcome (re)connects the device,
    /// acknowledgements and errors are taken silently, and a forwarded mesh
    /// message comes back as the topic and payload to hand to the message
    /// handler. Nothing else is returned, so the handler is called once per
    /// forwarded message and for nothing else.
    pub fn on_downlink(&mut self, msg: DownlinkMessage) -> (r: Option<(String, Vec<u8>)>)
        ensures
            final(self).id() == old(self).id(),
            r == delivery_of(msg),
            final(self).connected_spec() == connected_after_downlink(old(self).connected_spec(), msg),
    {
        match msg {
            DownlinkMessage::Welcome => {
                self.is_connected = true;
                None
            },
            DownlinkMessage::Message { topic, data } => Some((topic, data)),
            _ => None,
        }
    }
}

/// The handle the C interface gives out; its contents stay on the Rust side.
pub struct CAviEmbedded {
    _private: [u8; 0],
}

/// The device's configuration as C passes it.
pub struct CAviEmbeddedConfig {
    pub device_id: u64,
}

/// A request queued through the C interface; `SensorTemperature` and
/// `SensorHumidity` carry `f32` bits.
#[derive(Debug)]
pub enum AviCommand {
    Connect { device_id: u64 },
    Subscribe { topic: String },
    Unsubscribe { topic: String },
    Publish { topic: String, data: Vec<u8> },
    StartStream { local_stream_id: u8, target_peer_id: String, reason: String },
    SendStreamData { local_stream_id: u8, data: Vec<u8> },
    CloseStream { local_stream_id: u8 },
    ButtonPress { button_id: u8, press_type: PressType },
    SensorTemperature { sensor_name: String, value: u32 },
    SensorHumidity { sensor_name: String, value: u32 },
    SensorBattery { sensor_name: String, value: u8 },
    SensorStatus { sensor_name: String, value: bool },
    SensorRaw { sensor_name: String, value: i32 },
}

/// Capacity, in bytes, of a topic, peer id or reason passed through the C
/// interface.
pub const TEXT_CAPACITY: usize = 64;
/// Capacity, in bytes, of a sensor name passed through the C interface.
pub const NAME_CAPACITY: usize = 32;
/// Largest payload of a queued publish.
pub const PUBLISH_CAPACITY: usize = 256;
/// Largest payload of queued stream data.
pub const STREAM_DATA_CAPACITY: usize = 512;

/// How many commands wait at most for the next poll.
pub const QUEUE_SIZE: usize = 16;

/// The commands queued through the C interface, in the order they were
/// queued, held in a private `embassy_sync` channel; what the channel holds
/// is `queued_commands`.
#[verifier::external_body]
pub struct AviCommandQueue {
    channel: Channel<NoopRawMutex, AviCommand, QUEUE_SIZE>,
}

/// The commands waiting in a queue, oldest first.
pub uninterp spec fn queued_commands(queue: AviCommandQueue) -> Seq<AviCommand>;

impl AviCommandQueue {
    /// `Channel::new`: an empty channel.
    #[verifier::external_body]
    pub fn new() -> (r: Self)
        ensures
            queued_commands(r) == Seq::<AviCommand>::empty(),
    {
        AviCommandQueue { channel: Channel::new() }
    }

    /// `Channel::try_send`: appends the command unless the channel already
    /// holds `QUEUE_SIZE` of them, in which case the command comes back and
    /// the channel is unchanged.
    #[verifier::external_body]
    fn try_send(&mut self, cmd: AviCommand) -> (rejected: Option<AviCommand>)
        ensures
            rejected is None <==> queued_commands(*old(self)).len() < QUEUE_SIZE,
            rejected is None ==> queued_commands(*final(self)) == queued_commands(*old(self)).push(cmd),
            rejected is Some ==> rejected == Some(cmd),
            rejected is Some ==> queued_commands(*final(self)) == queued_commands(*old(self)),
    {
        match self.channel.try_send(cmd) {
            Ok(()) => None,
            Err(TrySendError::Full(back)) => Some(back),
        }
    }

    /// `Channel::try_receive`: takes the oldest command, if any.
    #[verifier::external_body]
    fn try_receive(&mut self) -> (r: Option<AviCommand>)
        ensures
            queued_commands(*old(self)).len() > 0 ==> r == Some(queued_commands(*old(self))[0])
                && queued_commands(*final(self)) == queued_commands(*old(self)).drop_first(),
            queued_commands(*old(self)).len() == 0 ==> r is None
                && queued_commands(*final(self)) == queued_commands(*old(self)),
    {
        self.channel.try_receive().ok()
    }
}

/// Queues a command for the next poll: `0` once queued, `-2` when the queue
/// is full (the command is then dropped).
pub fn send_command(queue: &mut AviCommandQueue, cmd: AviCommand) -> (r: i32)
    ensures
        queued_commands(*old(queue)).len() < QUEUE_SIZE ==> r == 0
            && queued_commands(*final(queue)) == queued_commands(*old(queue)).push(cmd),
        queued_commands(*old(queue)).len() >= QUEUE_SIZE ==> r == -2
            && queued_commands(*final(queue)) == queued_commands(*old(queue)),
{
    match queue.try_send(cmd) {
        None => 0,
        Some(_) => -2,
    }
}

/// Empties the queue, returning its commands in the order they were queued.
pub fn drain_commands(queue: &mut AviCommandQueue) -> (r: Vec<AviCommand>)
    ensures
        r@ == queued_commands(*old(queue)),
        queued_commands(*final(queue)) == Seq::<AviCommand>::empty(),
{
    let ghost all = queued_commands(*queue);
    let mut out: Vec<AviCommand> = Vec::new();
    loop
        invariant
            all == queued_commands(*old(queue)),
            out@ + queued_commands(*queue) == all,
        decreases queued_commands(*queue).len(),
    {
        let ghost before = queued_commands(*queue);
        match queue.try_receive() {
            Some(cmd) => {
                proof { assert(out@.push(cmd) + queued_commands(*queue) =~= out@ + before); }
                out.push(cmd);
            },
            None => {
                proof { assert(out@ + queued_commands(*queue) =~= out@); }
                return out;
            },
        }
    }
}

/// The uplink message that carries out a queued command (`Connect` runs the
/// handshake instead). Button presses and sensor updates carry no custom
/// data.
pub fn command_message(cmd: AviCommand) -> (r: Option<UplinkMessage>)
    ensures
        match cmd {
            AviCommand::Connect { .. } => r is None,
            AviCommand::Subscribe { topic } => r == Some(UplinkMessage::Subscribe { topic }),
            AviCommand::Unsubscribe { topic } => r == Some(UplinkMessage::Unsubscribe { topic }),
            AviCommand::Publish { topic, data } => r == Some(UplinkMessage::Publish { topic, data }),
            AviCommand::StartStream { local_stream_id, target_peer_id, reason } =>
                r == Some(UplinkMessage::StreamStart { local_stream_id, target_peer_id, reason }),
            AviCommand::SendStreamData { local_stream_id, data } =>
                r == Some(UplinkMessage::StreamData { local_stream_id, data }),
            AviCommand::CloseStream { local_stream_id } => r == Some(UplinkMessage::StreamClose { local_stream_id }),
            AviCommand::ButtonPress { button_id, press_type } =>
                r matches Some(UplinkMessage::ButtonPress { button_id: b, press_type: p, custom_data: c })
                    && b == button_id && p == press_type && c@.len() == 0,
            AviCommand::SensorTemperature { sensor_name, value } =>
                r matches Some(UplinkMessage::SensorUpdate { sensor_name: n, data: SensorValue::Temperature(v), custom_data: c })
                    && n == sensor_name && v == value && c@.len() == 0,
            AviCommand::SensorHumidity { sensor_name, value } =>
                r matches Some(UplinkMessage::SensorUpdate { sensor_name: n, data: SensorValue::Humidity(v), custom_data: c })
                    && n == sensor_name && v == value && c@.len() == 0,
            AviCommand::SensorBattery { sensor_name, value } =>
                r matches Some(UplinkMessage::SensorUpdate { sensor_name: n, data: SensorValue::Battery(v), custom_data: c })
                    && n == sensor_name && v == value && c@.len() == 0,
            AviCommand::SensorStatus { sensor_name, value } =>
                r matches Some(UplinkMessage::SensorUpdate { sensor_name: n, data: SensorValue::Status(v), custom_data: c })
                    && n == sensor_name && v == value && c@.len() == 0,
            AviCommand::SensorRaw { sensor_name, value } =>
                r matches Some(UplinkMessage::SensorUpdate { sensor_name: n, data: SensorValue::Raw(v), custom_data: c })
                    && n == sensor_name && v == value && c@.len() == 0,
        },
{
    match cmd {
        AviCommand::Connect { .. } => None,
        AviCommand::Subscribe { topic } => Some(UplinkMessage::Subscribe { topic }),
        AviCommand::Unsubscribe { topic } => Some(UplinkMessage::Unsubscribe { topic }),
        AviCommand::Publish { topic, data } => Some(UplinkMessage::Publish { topic, data }),
        AviCommand::StartStream { local_stream_id, target_peer_id, reason } =>
            Some(UplinkMessage::StreamStart { local_stream_id, target_peer_id, reason }),
        AviCommand::SendStreamData { local_stream_id, data } => Some(UplinkMessage::StreamData { local_stream_id, data }),
        AviCommand::CloseStream { local_stream_id } => Some(UplinkMessage::StreamClose { local_stream_id }),
        AviCommand::ButtonPress { button_id, press_type } =>
            Some(UplinkMessage::ButtonPress { button_id, press_type, custom_data: String::new() }),
        AviCommand::SensorTemperature { sensor_name, value } =>
            Some(UplinkMessage::SensorUpdate { sensor_name, data: SensorValue::Temperature(value), custom_data: String::new() }),
        AviCommand::SensorHumidity { sensor_name, value } =>
            Some(UplinkMessage::SensorUpdate { sensor_name, data: SensorValue::Humidity(value), custom_data: String::new() }),
        AviCommand::SensorBattery { sensor_name, value } =>
            Some(UplinkMessage::SensorUpdate { sensor_name, data: SensorValue::Battery(value), custom_data: String::new() }),
        AviCommand::SensorStatus { sensor_name, value } =>
            Some(UplinkMessage::SensorUpdate { sensor_name, data: SensorValue::Status(value), custom_data: String::new() }),
        AviCommand::SensorRaw { sensor_name, value } =>
            Some(UplinkMessage::SensorUpdate { sensor_name, data: SensorValue::Raw(value), custom_data: String::new() }),
    }
}

/// `core::str::from_utf8`: the bytes read as text, exactly when they are
/// valid UTF-8; the text's encoding is then the bytes themselves.
#[verifier::external_body]
fn utf8_text(bytes: &[u8]) -> (r: Option<&str>)
    ensures
        r is Some <==> valid_utf8(bytes@),
        r matches Some(t) ==> t.spec_bytes() == bytes@,
{
    core::str::from_utf8(bytes).ok()
}

/// Text passed through the C interface, as a buffer of `capacity` bytes
/// receives it: bytes that are not UTF-8, and text whose encoding is longer
/// than the buffer, are invalid parameters (`None`, error `-1`).
pub fn c_text(bytes: &[u8], capacity: usize) -> (r: Option<String>)
    ensures
        valid_utf8(bytes@) && bytes@.len() <= capacity ==> (r matches Some(t) && encode_utf8(t@) == bytes@),
        !valid_utf8(bytes@) || bytes@.len() > capacity ==> r is None,
{
    match utf8_text(bytes) {
        Some(text) => {
            assert(text.spec_bytes().len() == bytes.len());
            if text.len() <= capacity {
                Some(text.to_owned())
            } else {
                None
            }
        },
        None => None,
    }
}

/// A payload that fits a buffer of `capacity` bytes; `None` (error `-1`)
/// when it is longer.
pub fn bounded_bytes(data: &[u8], capacity: usize) -> (r: Option<Vec<u8>>)
    ensures
        data@.len() <= capacity ==> (r matches Some(v) && v@ == data@),
        data@.len() > capacity ==> r is None,
{
    if data.len() <= capacity {
        let mut v: Vec<u8> = Vec::new();
        let mut i: usize = 0;
        while i < data.len()
            invariant
                i <= data.len(),
                v@ == data@.take(i as int),
            decreases data.len() - i,
        {
            proof { assert(data@.take(i + 1) =~= data@.take(i as int).push(data@[i as int])); }
            v.push(data[i]);
            i += 1;
        }
        proof { assert(data@.take(data@.len() as int) =~= data@); }
        Some(v)
    } else {
        None
    }
}

} // verus!
