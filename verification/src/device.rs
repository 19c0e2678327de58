//! Device-level decisions: where a device publishes its capabilities in the
//! shared context, who claims the core role, and what each network event
//! asks the device to do.
use vstd::prelude::*;
use crate::capability::DeviceCapabilities;
use crate::error::AviP2pError;
use crate::events::{AviEvent, PeerId};
use crate::json::JsonValue;
use crate::path::{set_nested_value, set_path, failure_text};
use crate::text::join2;

verus! {

/// Whether a device coordinates the mesh or is an ordinary node.
#[derive(Debug, Clone, Copy, PartialEq, Eq, Structural)]
pub enum AviDeviceType {
    CORE,
    NODE,
}

impl Default for AviDeviceType {
    fn default() -> (r: Self)
        ensures
            r == AviDeviceType::NODE,
    {
        AviDeviceType::NODE
    }
}

#[derive(Clone, Debug)]
pub struct AviDeviceConfig {
    pub node_name: String,
    pub device_type: AviDeviceType,
    pub can_gateway_embedded: bool,
    pub capabilities: DeviceCapabilities,
}

/// Context path at which the core device's peer id is kept.
pub const CORE_PATH: &'static str = "avi.core";

/// Context path under which every device's capabilities are kept.
pub const CAPS_ROOT: &'static str = "avi.device.caps";

/// UDP port of the embedded-device bridge.
pub const BRIDGE_UDP_PORT: u16 = 8888;

/// Context path of one device's capabilities.
pub open spec fn caps_path_text(peer: Seq<char>) -> Seq<char> {
    "avi.device.caps."@ + peer
}

pub fn caps_path(local_peer_id: &str) -> (r: String)
    ensures
        r@ == caps_path_text(local_peer_id@),
{
    join2("avi.device.caps.", local_peer_id)
}

/// What the device must do in response to an event, beyond handing it to
/// the callbacks the application registered.
pub struct EventPlan {
    /// Publish our capabilities at this context path.
    pub update_caps_at: Option<String>,
    /// Record ourselves as core at `CORE_PATH` unless a core is recorded.
    pub try_claim_core: bool,
}

/// What a device remembers between events.
pub struct DeviceState {
    pub local_peer_id: Option<PeerId>,
}

impl DeviceState {
    pub fn new() -> (r: Self)
        ensures
            r.local_peer_id is None,
    {
        DeviceState { local_peer_id: None }
    }

    /// Plans the response to `event`: on start the device learns its id,
    /// publishes its capabilities and, when it is a core device, tries to
    /// claim the core role; whenever a peer connects it republishes its
    /// capabilities (once its id is known).
    pub fn on_event(&mut self, event: &AviEvent, device_type: AviDeviceType) -> (r: EventPlan)
        ensures
            match *event {
                AviEvent::Started { local_peer_id, .. } => {
                    &&& final(self).local_peer_id == Some(local_peer_id)
                    &&& r.update_caps_at matches Some(p) && p@ == caps_path_text(local_peer_id.0@)
                    &&& r.try_claim_core == (device_type == AviDeviceType::CORE)
                },
                AviEvent::PeerConnected { .. } => {
                    &&& final(self).local_peer_id == old(self).local_peer_id
                    &&& !r.try_claim_core
                    &&& match old(self).local_peer_id {
                        Some(id) => r.update_caps_at matches Some(p) && p@ == caps_path_text(id.0@),
                        None => r.update_caps_at is None,
                    }
                },
                _ => {
                    &&& final(self).local_peer_id == old(self).local_peer_id
                    &&& r.update_caps_at is None
                    &&& !r.try_claim_core
                },
            },
    {
        match event {
            AviEvent::Started { local_peer_id, .. } => {
                self.local_peer_id = Some(local_peer_id.clone());
                EventPlan {
                    update_caps_at: Some(caps_path(local_peer_id.0.as_str())),
                    try_claim_core: device_type == AviDeviceType::CORE,
                }
            },
            AviEvent::PeerConnected { .. } => {
                let path = match &self.local_peer_id {
                    Some(id) => Some(caps_path(id.0.as_str())),
                    None => None,
                };
                EventPlan { update_caps_at: path, try_claim_core: false }
            },
            _ => EventPlan { update_caps_at: None, try_claim_core: false },
        }
    }
}

/// The context after writing `value` at `path` into the current context
/// `current` (as `update_ctx` sends it to the mesh).
pub fn context_with(current: JsonValue, path: &str, value: JsonValue) -> (r: Result<JsonValue, AviP2pError>)
    ensures
        match set_path(current@, path@, value@) {
            Ok(m) => r matches Ok(v) && v@ == m,
            Err(f) => r matches Err(AviP2pError::InvalidPath(msg)) && msg@ == failure_text(f),
        },
{
    let mut data = current;
    match set_nested_value(&mut data, path, value) {
        Ok(()) => Ok(data),
        Err(e) => Err(e),
    }
}

/// The core device's peer id, as recorded in the context.
pub fn core_id_of(v: &JsonValue) -> (r: String)
    requires
        v@ is Str,
    ensures
        r@ == v@->Str_0,
{
    match v {
        JsonValue::Str(s) => s.clone(),
        _ => {
            assert(false);
            String::new()
        },
    }
}

} // verus!
