//! Messages between embedded devices and the UDP gateway bridge.
//!
//! Uplink messages go from a device to the gateway, downlink messages the
//! other way. Sensor readings that are floating point travel as their
//! `f32` bit patterns.
use vstd::prelude::*;

verus! {

/// How a button was pressed.
#[derive(Debug, Clone, Copy, PartialEq, Eq, Structural)]
pub enum PressType {
    Single,
    Double,
    Long,
}

/// A sensor reading; `Temperature` and `Humidity` hold `f32` bits.
#[derive(Debug, Clone, Copy, PartialEq, Eq, Structural)]
pub enum SensorValue {
    Temperature(u32),
    Humidity(u32),
    Battery(u8),
    Status(bool),
    Raw(i32),
}

/// From a device to the gateway.
#[derive(Debug, Clone)]
pub enum UplinkMessage {
    Hello { device_id: u64 },
    Subscribe { topic: String },
    Unsubscribe { topic: String },
    Publish { topic: String, data: Vec<u8> },
    StreamStart { local_stream_id: u8, target_peer_id: String, reason: String },
    StreamData { local_stream_id: u8, data: Vec<u8> },
    StreamClose { local_stream_id: u8 },
    ButtonPress { button_id: u8, press_type: PressType, custom_data: String },
    SensorUpdate { sensor_name: String, data: SensorValue, custom_data: String },
}

/// From the gateway to a device.
#[derive(Debug, Clone)]
pub enum DownlinkMessage {
    Welcome,
    Message { topic: String, data: Vec<u8> },
    SubscribeAck { topic: String },
    UnsubscribeAck { topic: String },
    Error { reason: u8 },
}

/// The press type a C caller names by number: 0 single, 1 double, 2 long.
pub fn press_type_from_code(code: u8) -> (r: Option<PressType>)
    ensures
        code == 0 ==> r == Some(PressType::Single),
        code == 1 ==> r == Some(PressType::Double),
        code == 2 ==> r == Some(PressType::Long),
        code > 2 ==> r is None,
{
    match code {
        0 => Some(PressType::Single),
        1 => Some(PressType::Double),
        2 => Some(PressType::Long),
        _ => None,
    }
}

pub open spec fn press_type_text(p: PressType) -> Seq<char> {
    match p {
        PressType::Single => "Single"@,
        PressType::Double => "Double"@,
        PressType::Long => "Long"@,
    }
}

/// Each press type is reported under its own variant name, as `{:?}`
/// prints it, so different press types are never reported alike: a double
/// press reads "Double", never "Single".
pub proof fn lemma_press_type_names(a: PressType, b: PressType)
    ensures
        press_type_text(PressType::Single) == "Single"@,
        press_type_text(PressType::Double) == "Double"@,
        press_type_text(PressType::Long) == "Long"@,
        press_type_text(a) == press_type_text(b) ==> a == b,
{
    reveal_strlit("Single");
    reveal_strlit("Double");
    reveal_strlit("Long");
    if press_type_text(a) == press_type_text(b) && a != b {
        match (a, b) {
            (PressType::Single, PressType::Double) | (PressType::Double, PressType::Single) => {
                assert("Single"@[0] != "Double"@[0]);
            },
            (PressType::Long, _) | (_, PressType::Long) => {
                assert("Long"@.len() != "Single"@.len());
                assert("Long"@.len() != "Double"@.len());
            },
            _ => {},
        }
    }
}

/// The press type's name as reported to the mesh.
pub fn press_type_name(p: PressType) -> (r: String)
    ensures
        r@ == press_type_text(p),
{
    match p {
        PressType::Single => "Single".to_owned(),
        PressType::Double => "Double".to_owned(),
        PressType::Long => "Long".to_owned(),
    }
}

pub open spec fn unit_text(v: SensorValue) -> Seq<char> {
    match v {
        SensorValue::Temperature(_) => "C"@,
        SensorValue::Humidity(_) => "%"@,
        _ => ""@,
    }
}

/// The unit of a reading: `C` for temperature, `%` for humidity, none
/// otherwise.
pub fn sensor_unit(v: SensorValue) -> (r: String)
    ensures
        r@ == unit_text(v),
{
    match v {
        SensorValue::Temperature(_) => "C".to_owned(),
        SensorValue::Humidity(_) => "%".to_owned(),
        _ => "".to_owned(),
    }
}

} // verus!
