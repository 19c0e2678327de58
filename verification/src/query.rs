//! The parts of a device query that do not depend on the caller's
//! predicates: which capability a filter needs, how filter outcomes combine,
//! and which devices are selected.
use vstd::prelude::*;
use crate::capability::DeviceCapabilities;
use crate::keyed::find_key;
use crate::path::texts;

verus! {

/// The capability a filter looks at.
#[derive(Debug, Clone)]
pub enum CapabilityType {
    Compute,
    Health,
    Power,
    Display,
    Audio,
    Sensor(String),
    Connectivity(String),
    Extended(String),
    Any,
}

/// Whether every filter must pass, or one is enough.
#[derive(Debug, Clone, Copy, PartialEq, Eq, Structural)]
pub enum CombineMode {
    All,
    Any,
}

/// The device has the capability the filter looks at.
pub open spec fn has_capability_spec(t: CapabilityType, caps: DeviceCapabilities) -> bool {
    match t {
        CapabilityType::Compute => caps.compute is Some,
        CapabilityType::Health => caps.health is Some,
        CapabilityType::Power => caps.power is Some,
        CapabilityType::Display => caps.display is Some,
        CapabilityType::Audio => caps.audio is Some,
        CapabilityType::Sensor(name) => caps.sensor_map().dom().contains(name@),
        CapabilityType::Connectivity(name) => caps.connectivity_map().dom().contains(name@),
        CapabilityType::Extended(key) => caps.extended_map().dom().contains(key@),
        CapabilityType::Any => true,
    }
}

/// A capability filter passes exactly when the device declares the
/// capability it names, and looks at nothing else: a device passes the
/// power filter iff it declares a power capability, whatever else it has or
/// lacks (a device with power and no health passes it; one with health and
/// no power does not); likewise compute, health, display and audio; a
/// sensor, connectivity or extended filter passes iff a capability under
/// that name is declared; `Any` passes every device.
pub proof fn lemma_filter_needs_its_capability(caps: DeviceCapabilities, name: String)
    ensures
        has_capability_spec(CapabilityType::Compute, caps) <==> caps.compute is Some,
        has_capability_spec(CapabilityType::Health, caps) <==> caps.health is Some,
        has_capability_spec(CapabilityType::Power, caps) <==> caps.power is Some,
        has_capability_spec(CapabilityType::Display, caps) <==> caps.display is Some,
        has_capability_spec(CapabilityType::Audio, caps) <==> caps.audio is Some,
        has_capability_spec(CapabilityType::Sensor(name), caps) <==> caps.sensor_map().dom().contains(name@),
        has_capability_spec(CapabilityType::Connectivity(name), caps) <==> caps.connectivity_map().dom().contains(name@),
        has_capability_spec(CapabilityType::Extended(name), caps) <==> caps.extended_map().dom().contains(name@),
        has_capability_spec(CapabilityType::Any, caps),
{
}

/// Giving a device one more fixed capability makes that capability's filter
/// pass and leaves every other filter's answer as it was; taking it away
/// makes that filter fail, again changing no other answer.
pub proof fn lemma_filters_independent(caps: DeviceCapabilities, t: CapabilityType, p: crate::capability::PowerCapability)
    ensures
        has_capability_spec(CapabilityType::Power, DeviceCapabilities { power: Some(p), ..caps }),
        !has_capability_spec(CapabilityType::Power, DeviceCapabilities { power: None, ..caps }),
        !(t is Power) ==> has_capability_spec(t, DeviceCapabilities { power: Some(p), ..caps }) == has_capability_spec(t, caps),
        !(t is Power) ==> has_capability_spec(t, DeviceCapabilities { power: None, ..caps }) == has_capability_spec(t, caps),
        !(t is Health) ==> has_capability_spec(t, DeviceCapabilities { health: None, ..caps }) == has_capability_spec(t, caps),
        !(t is Compute) ==> has_capability_spec(t, DeviceCapabilities { compute: None, ..caps }) == has_capability_spec(t, caps),
        !(t is Display) ==> has_capability_spec(t, DeviceCapabilities { display: None, ..caps }) == has_capability_spec(t, caps),
        !(t is Audio) ==> has_capability_spec(t, DeviceCapabilities { audio: None, ..caps }) == has_capability_spec(t, caps),
{
}

/// Whether `caps` has the capability of kind `t`.
pub fn has_capability(t: &CapabilityType, caps: &DeviceCapabilities) -> (r: bool)
    ensures
        r == has_capability_spec(*t, *caps),
{
    match t {
        CapabilityType::Compute => caps.compute.is_some(),
        CapabilityType::Health => caps.health.is_some(),
        CapabilityType::Power => caps.power.is_some(),
        CapabilityType::Display => caps.display.is_some(),
        CapabilityType::Audio => caps.audio.is_some(),
        CapabilityType::Sensor(name) => find_key(&caps.sensors, name.as_str()).is_some(),
        CapabilityType::Connectivity(name) => find_key(&caps.connectivity, name.as_str()).is_some(),
        CapabilityType::Extended(key) => find_key(&caps.extended, key.as_str()).is_some(),
        CapabilityType::Any => true,
    }
}

/// A query with no filters matches every device; otherwise `All` needs
/// every outcome true and `Any` needs one.
pub open spec fn combined(mode: CombineMode, outcomes: Seq<bool>) -> bool {
    if outcomes.len() == 0 {
        true
    } else {
        match mode {
            CombineMode::All => forall|i: int| 0 <= i < outcomes.len() ==> #[trigger] outcomes[i],
            CombineMode::Any => exists|i: int| 0 <= i < outcomes.len() && #[trigger] outcomes[i],
        }
    }
}

/// Combines the outcomes of a query's filters for one device.
pub fn combine(mode: CombineMode, outcomes: &Vec<bool>) -> (r: bool)
    ensures
        r == combined(mode, outcomes@),
{
    if outcomes.len() == 0 {
        return true;
    }
    let mut i: usize = 0;
    while i < outcomes.len()
        invariant
            i <= outcomes.len(),
            mode == CombineMode::All ==> forall|j: int| 0 <= j < i ==> #[trigger] outcomes@[j],
            mode == CombineMode::Any ==> forall|j: int| 0 <= j < i ==> !#[trigger] outcomes@[j],
        decreases outcomes.len() - i,
    {
        match mode {
            CombineMode::All => {
                if !outcomes[i] {
                    return false;
                }
            },
            CombineMode::Any => {
                if outcomes[i] {
                    return true;
                }
            },
        }
        i += 1;
    }
    match mode {
        CombineMode::All => true,
        CombineMode::Any => false,
    }
}

/// The ids of the devices whose outcome is true, in order.
pub open spec fn selected(devices: Seq<(String, DeviceCapabilities)>, matched: Seq<bool>) -> Seq<Seq<char>>
    decreases devices.len(),
{
    if devices.len() == 0 || matched.len() == 0 {
        Seq::empty()
    } else {
        let rest = selected(devices.drop_last(), matched.drop_last());
        if matched.last() { rest.push(devices.last().0@) } else { rest }
    }
}

/// How many devices have an outcome: outcomes are paired with devices from
/// the first one on.
pub open spec fn paired_len(devices: Seq<(String, DeviceCapabilities)>, matched: Seq<bool>) -> int {
    if devices.len() <= matched.len() { devices.len() as int } else { matched.len() as int }
}

/// The ids of the devices whose outcome is true, in order.
pub fn select_matching(devices: &Vec<(String, DeviceCapabilities)>, matched: &Vec<bool>) -> (r: Vec<String>)
    ensures
        texts(r@) == selected(devices@.take(paired_len(devices@, matched@)), matched@.take(paired_len(devices@, matched@))),
{
    let mut out: Vec<String> = Vec::new();
    let mut j: usize = 0;
    proof {
        assert(texts(out@) =~= Seq::<Seq<char>>::empty());
    }
    while j < devices.len() && j < matched.len()
        invariant
            j <= devices.len(),
            j <= matched.len(),
            texts(out@) == selected(devices@.take(j as int), matched@.take(j as int)),
        decreases devices.len() - j,
    {
        proof {
            assert(devices@.take(j + 1).drop_last() =~= devices@.take(j as int));
            assert(matched@.take(j + 1).drop_last() =~= matched@.take(j as int));
        }
        if matched[j] {
            let name = devices[j].0.clone();
            proof { assert(texts(out@.push(name)) =~= texts(out@).push(name@)); }
            out.push(name);
        }
        j += 1;
    }
    out
}

} // verus!
