//! The gateway side of the embedded-device bridge: one session per device
//! address, and what each uplink message from a device asks the gateway to
//! do on the mesh.
use vstd::prelude::*;
use crate::events::{PeerId, StreamId};
use std::collections::HashMap;
use crate::json::{JsonValue, JsonModel, members_model, put_member, object_of};
use crate::keyed::{entry_map, find_key, remove_named};
use crate::protocol::{DownlinkMessage, PressType, SensorValue, UplinkMessage, press_type_text, press_type_name};
use crate::text::{decimal, join2, u64_decimal};

verus! {

/// Where the bridge listens for devices.
pub struct BridgeConfig {
    pub udp_port: u16,
}

/// What the gateway knows of one connected device.
#[derive(Debug)]
pub struct DeviceSession {
    device_id: u64,
    active_streams: HashMap<u8, StreamId>,
    subscriptions: Vec<(String, ())>,
}

impl DeviceSession {
    pub closed spec fn device(&self) -> u64 {
        self.device_id
    }

    pub fn device_id(&self) -> (r: u64)
        ensures
            r == self.device(),
    {
        self.device_id
    }

    /// Mesh stream for each of the device's local stream numbers.
    pub closed spec fn streams(&self) -> Map<u8, StreamId> {
        self.active_streams@
    }

    pub closed spec fn subscriptions(&self) -> Set<Seq<char>> {
        entry_map(self.subscriptions@).dom()
    }

    pub fn new(device_id: u64) -> (r: Self)
        ensures
            r.device() == device_id,
            r.streams() == Map::<u8, StreamId>::empty(),
            r.subscriptions() == Set::<Seq<char>>::empty(),
    {
        let r = DeviceSession { device_id, active_streams: HashMap::new(), subscriptions: Vec::new() };
        proof {
            assert(entry_map(r.subscriptions@).dom() =~= Set::<Seq<char>>::empty());
        }
        r
    }

    pub fn is_subscribed(&self, topic: &str) -> (r: bool)
        ensures
            r == self.subscriptions().contains(topic@),
    {
        find_key(&self.subscriptions, topic).is_some()
    }
}

/// What the gateway must do for an uplink message.
#[derive(Debug)]
pub enum BridgeStep {
    /// Nothing (unknown device, or nothing to do).
    Ignore,
    /// Answer the device.
    Reply { message: DownlinkMessage },
    /// Subscribe on the mesh; on success call `subscribed`.
    Subscribe { topic: String },
    /// Unsubscribe on the mesh, then acknowledge with `UnsubscribeAck`.
    Unsubscribe { topic: String },
    /// Publish on the mesh.
    Publish { topic: String, data: Vec<u8> },
    /// Request a mesh stream; on success call `stream_opened`.
    OpenStream { local_stream_id: u8, peer: PeerId, reason: String },
    SendStreamData { stream_id: StreamId, data: Vec<u8> },
    CloseStream { stream_id: StreamId },
    /// Publish the button event (`button_payload`) on `topic`.
    PublishButton { topic: String, button_id: u8, press_type: PressType, custom_data: String },
    /// Publish the reading (`sensor_payload`) on `topic`, and store the same
    /// payload in the context at `context_path`.
    PublishSensor { topic: String, context_path: String, sensor_name: String, data: SensorValue, custom_data: String },
}

/// Where the bridge publishes a device's button presses and sensor
/// readings: `avi/devices/<ID>/events`.
pub open spec fn events_topic(device_id: u64) -> Seq<char> {
    "avi/devices/"@ + decimal(device_id as nat) + "/events"@
}

/// Every session but the one at `addr` is still there, unchanged.
pub open spec fn others_unchanged(before: Map<Seq<char>, DeviceSession>, after: Map<Seq<char>, DeviceSession>, addr: Seq<char>) -> bool {
    forall|k: Seq<char>| k != addr && #[trigger] before.dom().contains(k) ==> after.dom().contains(k) && after[k] == before[k]
}

pub open spec fn sensor_context_path(device_id: u64, name: Seq<char>) -> Seq<char> {
    "avi.sensors."@ + decimal(device_id as nat) + "."@ + name
}

/// All connected devices, by address.
pub struct BridgeState {
    sessions: Vec<(String, DeviceSession)>,
}

impl BridgeState {
    pub closed spec fn sessions(&self) -> Map<Seq<char>, DeviceSession> {
        entry_map(self.sessions@)
    }

    pub fn new() -> (r: Self)
        ensures
            r.sessions() == Map::<Seq<char>, DeviceSession>::empty(),
    {
        let r = BridgeState { sessions: Vec::new() };
        proof { assert(entry_map(r.sessions@) =~= Map::<Seq<char>, DeviceSession>::empty()); }
        r
    }

    /// Puts back, at position `i`, a session taken out of `before` there,
    /// possibly changed: only the session at `name` is affected.
    fn put_back(&mut self, i: usize, name: String, session: DeviceSession, Ghost(before): Ghost<Seq<(String, DeviceSession)>>)
        requires
            old(self).sessions@ == before.remove(i as int),
            crate::keyed::first_at(before, name@, i as int),
        ensures
            final(self).sessions() == entry_map(before).insert(name@, session),
    {
        proof {
            crate::keyed::lemma_update(before, i as int, name, session);
            assert(self.sessions@.insert(i as int, (name, session)) =~= before.update(i as int, (name, session)));
        }
        self.sessions.insert(i, (name, session));
    }

    /// Handles one uplink message from the device at `addr`. Only `Hello`
    /// is heard from an unknown address: it opens a fresh session.
    pub fn on_uplink(&mut self, addr: &str, msg: UplinkMessage) -> (r: BridgeStep)
        ensures
            ({
                let known = old(self).sessions().dom().contains(addr@);
                let s = old(self).sessions()[addr@];
                match msg {
                    UplinkMessage::Hello { device_id } => {
                        &&& final(self).sessions().dom() == old(self).sessions().dom().insert(addr@)
                        &&& final(self).sessions()[addr@].device() == device_id
                        &&& final(self).sessions()[addr@].streams() == Map::<u8, StreamId>::empty()
                        &&& final(self).sessions()[addr@].subscriptions() == Set::<Seq<char>>::empty()
                        &&& others_unchanged(old(self).sessions(), final(self).sessions(), addr@)
                        &&& r matches BridgeStep::Reply { message: DownlinkMessage::Welcome }
                    },
                    UplinkMessage::Unsubscribe { topic } => if known {
                        &&& final(self).sessions().dom() == old(self).sessions().dom()
                        &&& final(self).sessions()[addr@].subscriptions() == s.subscriptions().remove(topic@)
                        &&& final(self).sessions()[addr@].streams() == s.streams()
                        &&& final(self).sessions()[addr@].device() == s.device()
                        &&& others_unchanged(old(self).sessions(), final(self).sessions(), addr@)
                        &&& r matches BridgeStep::Unsubscribe { topic: t } && t@ == topic@
                    } else {
                        final(self).sessions() == old(self).sessions() && r is Ignore
                    },
                    UplinkMessage::StreamClose { local_stream_id } =>
                        if known && s.streams().dom().contains(local_stream_id) {
                            &&& final(self).sessions().dom() == old(self).sessions().dom()
                            &&& final(self).sessions()[addr@].streams() == s.streams().remove(local_stream_id)
                            &&& final(self).sessions()[addr@].subscriptions() == s.subscriptions()
                            &&& final(self).sessions()[addr@].device() == s.device()
                            &&& others_unchanged(old(self).sessions(), final(self).sessions(), addr@)
                            &&& r matches BridgeStep::CloseStream { stream_id } && stream_id == s.streams()[local_stream_id]
                        } else {
                            final(self).sessions() == old(self).sessions() && r is Ignore
                        },
                    _ => {
                        &&& final(self).sessions() == old(self).sessions()
                        &&& !known ==> r is Ignore
                        &&& known ==> match msg {
                            UplinkMessage::Subscribe { topic } => r matches BridgeStep::Subscribe { topic: t } && t == topic,
                            UplinkMessage::Publish { topic, data } =>
                                r matches BridgeStep::Publish { topic: t, data: d } && t == topic && d == data,
                            UplinkMessage::StreamStart { local_stream_id, target_peer_id, reason } =>
                                if target_peer_id@.len() == 0 {
                                    r is Ignore
                                } else {
                                    r matches BridgeStep::OpenStream { local_stream_id: l, peer: p, reason: why }
                                        && l == local_stream_id && p.0 == target_peer_id && why == reason
                                },
                            UplinkMessage::StreamData { local_stream_id, data } =>
                                if s.streams().dom().contains(local_stream_id) {
                                    r matches BridgeStep::SendStreamData { stream_id, data: d }
                                        && stream_id == s.streams()[local_stream_id] && d == data
                                } else {
                                    r is Ignore
                                },
                            UplinkMessage::ButtonPress { button_id, press_type, custom_data } =>
                                r matches BridgeStep::PublishButton { topic, button_id: b, press_type: p, custom_data: c }
                                    && topic@ == events_topic(s.device()) && b == button_id && p == press_type
                                    && c == custom_data,
                            UplinkMessage::SensorUpdate { sensor_name, data, custom_data } =>
                                r matches BridgeStep::PublishSensor { topic, context_path, sensor_name: n, data: d, custom_data: c }
                                    && topic@ == events_topic(s.device())
                                    && context_path@ == sensor_context_path(s.device(), sensor_name@)
                                    && n == sensor_name && d == data && c == custom_data,
                            _ => true,
                        }
                    },
                }
            }),
    {
        match msg {
            UplinkMessage::Hello { device_id } => {
                let ghost k = addr@;
                crate::keyed::put(&mut self.sessions, addr.to_owned(), DeviceSession::new(device_id));
                BridgeStep::Reply { message: DownlinkMessage::Welcome }
            },
            UplinkMessage::Subscribe { topic } => {
                if find_key(&self.sessions, addr).is_some() {
                    BridgeStep::Subscribe { topic }
                } else {
                    BridgeStep::Ignore
                }
            },
            UplinkMessage::Unsubscribe { topic } => {
                match find_key(&self.sessions, addr) {
                    Some(i) => {
                        proof { crate::keyed::lemma_first_unique(self.sessions@, addr@, i as int); }
                        let ghost before = self.sessions@;
                        let (name, mut session) = self.sessions.remove(i);
                        let ghost old_subs = session.subscriptions@;
                        remove_named(&mut session.subscriptions, topic.as_str());
                        proof {
                            assert(entry_map(session.subscriptions@).dom() =~= entry_map(old_subs).dom().remove(topic@));
                        }
                        self.put_back(i, name, session, Ghost(before));
                        BridgeStep::Unsubscribe { topic }
                    },
                    None => BridgeStep::Ignore,
                }
            },
            UplinkMessage::Publish { topic, data } => {
                if find_key(&self.sessions, addr).is_some() {
                    BridgeStep::Publish { topic, data }
                } else {
                    BridgeStep::Ignore
                }
            },
            UplinkMessage::StreamStart { local_stream_id, target_peer_id, reason } => {
                if find_key(&self.sessions, addr).is_some() {
                    if target_peer_id.as_str().is_empty() {
                        BridgeStep::Ignore
                    } else {
                        BridgeStep::OpenStream { local_stream_id, peer: PeerId(target_peer_id), reason }
                    }
                } else {
                    BridgeStep::Ignore
                }
            },
            UplinkMessage::StreamData { local_stream_id, data } => {
                match crate::keyed::get(&self.sessions, addr) {
                    Some(session) => match session.active_streams.get(&local_stream_id) {
                        Some(mesh_id) => BridgeStep::SendStreamData { stream_id: *mesh_id, data },
                        None => BridgeStep::Ignore,
                    },
                    None => BridgeStep::Ignore,
                }
            },
            UplinkMessage::StreamClose { local_stream_id } => {
                match find_key(&self.sessions, addr) {
                    Some(i) => {
                        proof { crate::keyed::lemma_first_unique(self.sessions@, addr@, i as int); }
                        match self.sessions[i].1.active_streams.get(&local_stream_id) {
                            Some(mesh) => {
                                let mesh_id = *mesh;
                                let ghost before = self.sessions@;
                                let (name, mut session) = self.sessions.remove(i);
                                session.active_streams.remove(&local_stream_id);
                                self.put_back(i, name, session, Ghost(before));
                                BridgeStep::CloseStream { stream_id: mesh_id }
                            },
                            None => BridgeStep::Ignore,
                        }
                    },
                    None => BridgeStep::Ignore,
                }
            },
            UplinkMessage::ButtonPress { button_id, press_type, custom_data } => {
                match crate::keyed::get(&self.sessions, addr) {
                    Some(session) => {
                        let id = u64_decimal(session.device_id);
                        let head = join2("avi/devices/", id.as_str());
                        let topic = join2(head.as_str(), "/events");
                        BridgeStep::PublishButton { topic, button_id, press_type, custom_data }
                    },
                    None => BridgeStep::Ignore,
                }
            },
            UplinkMessage::SensorUpdate { sensor_name, data, custom_data } => {
                match crate::keyed::get(&self.sessions, addr) {
                    Some(session) => {
                        let id = u64_decimal(session.device_id);
                        let head = join2("avi/devices/", id.as_str());
                        let topic = join2(head.as_str(), "/events");
                        let p1 = join2("avi.sensors.", id.as_str());
                        let p2 = join2(p1.as_str(), ".");
                        let context_path = join2(p2.as_str(), sensor_name.as_str());
                        BridgeStep::PublishSensor { topic, context_path, sensor_name, data, custom_data }
                    },
                    None => BridgeStep::Ignore,
                }
            },
        }
    }

    /// The mesh accepted the subscription of the device at `addr`: record it
    /// and acknowledge (nothing when the session is gone).
    pub fn subscribed(&mut self, addr: &str, topic: String) -> (r: Option<DownlinkMessage>)
        ensures
            old(self).sessions().dom().contains(addr@) ==> {
                &&& final(self).sessions().dom() == old(self).sessions().dom()
                &&& final(self).sessions()[addr@].subscriptions() == old(self).sessions()[addr@].subscriptions().insert(topic@)
                &&& final(self).sessions()[addr@].streams() == old(self).sessions()[addr@].streams()
                &&& final(self).sessions()[addr@].device() == old(self).sessions()[addr@].device()
                &&& others_unchanged(old(self).sessions(), final(self).sessions(), addr@)
                &&& r matches Some(DownlinkMessage::SubscribeAck { topic: t }) && t@ == topic@
            },
            !old(self).sessions().dom().contains(addr@) ==> r is None && final(self).sessions() == old(self).sessions(),
    {
        match find_key(&self.sessions, addr) {
            Some(i) => {
                proof { crate::keyed::lemma_first_unique(self.sessions@, addr@, i as int); }
                let ghost before = self.sessions@;
                let (name, mut session) = self.sessions.remove(i);
                let ghost old_subs = session.subscriptions@;
                let ghost t = topic@;
                crate::keyed::put(&mut session.subscriptions, topic.clone(), ());
                proof {
                    assert(entry_map(session.subscriptions@).dom() =~= entry_map(old_subs).dom().insert(t));
                }
                self.put_back(i, name, session, Ghost(before));
                Some(DownlinkMessage::SubscribeAck { topic })
            },
            None => None,
        }
    }

    /// The mesh opened stream `mesh_id` for the device's local stream.
    pub fn stream_opened(&mut self, addr: &str, local_stream_id: u8, mesh_id: StreamId)
        ensures
            old(self).sessions().dom().contains(addr@) ==> {
                &&& final(self).sessions().dom() == old(self).sessions().dom()
                &&& final(self).sessions()[addr@].streams() == old(self).sessions()[addr@].streams().insert(local_stream_id, mesh_id)
                &&& final(self).sessions()[addr@].subscriptions() == old(self).sessions()[addr@].subscriptions()
                &&& final(self).sessions()[addr@].device() == old(self).sessions()[addr@].device()
                &&& others_unchanged(old(self).sessions(), final(self).sessions(), addr@)
            },
            !old(self).sessions().dom().contains(addr@) ==> final(self).sessions() == old(self).sessions(),
    {
        match find_key(&self.sessions, addr) {
            Some(i) => {
                proof { crate::keyed::lemma_first_unique(self.sessions@, addr@, i as int); }
                let ghost before = self.sessions@;
                let (name, mut session) = self.sessions.remove(i);
                session.active_streams.insert(local_stream_id, mesh_id);
                self.put_back(i, name, session, Ghost(before));
            },
            None => {},
        }
    }

    /// Addresses of the devices subscribed to `topic` (where a mesh message
    /// on it is forwarded), each once.
    pub fn recipients(&self, topic: &str) -> (r: Vec<String>)
        ensures
            forall|i: int| 0 <= i < r.len() ==> {
                let a = #[trigger] r@[i]@;
                self.sessions().dom().contains(a) && self.sessions()[a].subscriptions().contains(topic@)
            },
            forall|a: Seq<char>| self.sessions().dom().contains(a) && #[trigger] self.sessions()[a].subscriptions().contains(topic@)
                ==> exists|i: int| 0 <= i < r.len() && (#[trigger] r@[i])@ == a,
            forall|a: int, b: int| 0 <= a < b < r.len() ==> (#[trigger] r@[a])@ != (#[trigger] r@[b])@,
    {
        let mut out: Vec<String> = Vec::new();
        let ghost mut srcs: Seq<int> = Seq::empty();
        let mut i: usize = 0;
        while i < self.sessions.len()
            invariant
                i <= self.sessions.len(),
                srcs.len() == out.len(),
                forall|j: int| 0 <= j < out.len() ==> 0 <= #[trigger] srcs[j] < i
                    && crate::keyed::first_at(self.sessions@, out@[j]@, srcs[j])
                    && self.sessions@[srcs[j]].1.subscriptions().contains(topic@),
                forall|a: int, b: int| 0 <= a < b < out.len() ==> #[trigger] srcs[a] < #[trigger] srcs[b],
                forall|j: int| 0 <= j < i && crate::keyed::first_at(self.sessions@, (#[trigger] self.sessions@[j]).0@, j)
                    && self.sessions@[j].1.subscriptions().contains(topic@)
                    ==> exists|m: int| 0 <= m < out.len() && srcs[m] == j,
            decreases self.sessions.len() - i,
        {
            let first = find_key(&self.sessions, self.sessions[i].0.as_str()) == Some(i);
            if first && self.sessions[i].1.is_subscribed(topic) {
                let ghost before = srcs;
                out.push(self.sessions[i].0.clone());
                proof {
                    srcs = srcs.push(i as int);
                    assert forall|j: int| 0 <= j < i + 1 && crate::keyed::first_at(self.sessions@, (#[trigger] self.sessions@[j]).0@, j)
                        && self.sessions@[j].1.subscriptions().contains(topic@)
                        implies exists|m: int| 0 <= m < out.len() && srcs[m] == j by {
                        if j < i {
                            let m = choose|m: int| 0 <= m < before.len() && before[m] == j;
                            assert(srcs[m] == before[m]);
                        } else {
                            assert(srcs[out.len() - 1] == j);
                        }
                    }
                }
            } else {
                proof {
                    if crate::keyed::first_at(self.sessions@, self.sessions@[i as int].0@, i as int) {
                        crate::keyed::lemma_first_unique(self.sessions@, self.sessions@[i as int].0@, i as int);
                    }
                }
            }
            i += 1;
        }
        proof {
            assert forall|j: int| 0 <= j < out.len() implies {
                let a = #[trigger] out@[j]@;
                self.sessions().dom().contains(a) && self.sessions()[a].subscriptions().contains(topic@)
            } by {
                let a = out@[j]@;
                assert(crate::keyed::first_at(self.sessions@, a, srcs[j]));
                crate::keyed::lemma_first_unique(self.sessions@, a, srcs[j]);
            }
            assert forall|a: Seq<char>| self.sessions().dom().contains(a) && #[trigger] self.sessions()[a].subscriptions().contains(topic@)
                implies exists|i: int| 0 <= i < out.len() && (#[trigger] out@[i])@ == a by {
                crate::keyed::lemma_first_exists(self.sessions@, a);
                let j = crate::keyed::key_index(self.sessions@, a);
                crate::keyed::lemma_first_unique(self.sessions@, a, j);
                assert(crate::keyed::first_at(self.sessions@, self.sessions@[j].0@, j));
                let m = choose|m: int| 0 <= m < out.len() && srcs[m] == j;
                assert(out@[m]@ == a);
            }
            assert forall|a: int, b: int| 0 <= a < b < out.len() implies (#[trigger] out@[a])@ != (#[trigger] out@[b])@ by {
                assert(srcs[a] < srcs[b]);
                assert(crate::keyed::first_at(self.sessions@, out@[b]@, srcs[b]));
                assert(crate::keyed::first_at(self.sessions@, out@[a]@, srcs[a]));
                assert(self.sessions@[srcs[a]].0@ == out@[a]@);
            }
        }
        out
    }
}

/// The payload published for a button press.
pub open spec fn button_payload_model(button_id: u8, press_type: PressType, custom_data: Seq<char>, ts: u64) -> JsonModel {
    JsonModel::Object(Map::empty()
        .insert("button_id"@, JsonModel::Number(decimal(button_id as nat)))
        .insert("type"@, JsonModel::Str(press_type_text(press_type)))
        .insert("data"@, JsonModel::Str(custom_data))
        .insert("ts"@, JsonModel::Number(decimal(ts as nat))))
}

pub fn button_payload(button_id: u8, press_type: PressType, custom_data: &str, ts: u64) -> (r: JsonValue)
    ensures
        r@ == button_payload_model(button_id, press_type, custom_data@, ts),
{
    let mut m: Vec<(String, JsonValue)> = Vec::new();
    proof { assert(members_model(m@) =~= Map::<Seq<char>, JsonModel>::empty()); }
    put_member(&mut m, "button_id", JsonValue::Number(u64_decimal(button_id as u64)));
    put_member(&mut m, "type", JsonValue::Str(press_type_name(press_type)));
    put_member(&mut m, "data", JsonValue::Str(custom_data.to_owned()));
    put_member(&mut m, "ts", JsonValue::Number(u64_decimal(ts)));
    object_of(m)
}

/// The payload published (and stored in the context) for a sensor reading.
pub open spec fn sensor_payload_model(name: Seq<char>, value: JsonModel, unit: Seq<char>, custom_data: Seq<char>, ts: u64) -> JsonModel {
    JsonModel::Object(Map::empty()
        .insert("name"@, JsonModel::Str(name))
        .insert("data"@, JsonModel::Object(Map::empty()
            .insert("value"@, value)
            .insert("unit"@, JsonModel::Str(unit))
            .insert("custom"@, JsonModel::Str(custom_data))))
        .insert("ts"@, JsonModel::Number(decimal(ts as nat))))
}

pub fn sensor_payload(name: &str, value: JsonValue, unit: &str, custom_data: &str, ts: u64) -> (r: JsonValue)
    ensures
        r@ == sensor_payload_model(name@, value@, unit@, custom_data@, ts),
{
    let mut d: Vec<(String, JsonValue)> = Vec::new();
    proof { assert(members_model(d@) =~= Map::<Seq<char>, JsonModel>::empty()); }
    put_member(&mut d, "value", value);
    put_member(&mut d, "unit", JsonValue::Str(unit.to_owned()));
    put_member(&mut d, "custom", JsonValue::Str(custom_data.to_owned()));
    let mut m: Vec<(String, JsonValue)> = Vec::new();
    proof { assert(members_model(m@) =~= Map::<Seq<char>, JsonModel>::empty()); }
    put_member(&mut m, "name", JsonValue::Str(name.to_owned()));
    put_member(&mut m, "data", object_of(d));
    put_member(&mut m, "ts", JsonValue::Number(u64_decimal(ts)));
    object_of(m)
}

/// The JSON value of a reading that is not floating point (floating-point
/// readings are rendered by the caller).
pub fn integral_reading(v: SensorValue) -> (r: Option<JsonValue>)
    ensures
        match v {
            SensorValue::Battery(b) => r matches Some(j) && j@ == JsonModel::Number(decimal(b as nat)),
            SensorValue::Status(b) => r matches Some(j) && j@ == JsonModel::Bool(b),
            SensorValue::Raw(x) => r matches Some(j) && j@ == JsonModel::Number(crate::text::signed_decimal(x as int)),
            _ => r is None,
        },
{
    match v {
        SensorValue::Battery(b) => Some(JsonValue::Number(u64_decimal(b as u64))),
        SensorValue::Status(b) => Some(JsonValue::Bool(b)),
        SensorValue::Raw(x) => Some(JsonValue::Number(crate::text::i64_decimal(x as i64))),
        _ => None,
    }
}

} // verus!
