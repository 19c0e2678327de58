//! What a device can do: compute, sensors, connectivity, power, health,
//! display, audio and free-form extensions, and a builder for them.
//!
//! Floating-point readings are kept as their IEEE-754 bit patterns
//! (`f32::to_bits` / `f64::to_bits`), so the values travel unchanged.
use vstd::prelude::*;
use crate::json::JsonValue;
use crate::keyed::entry_map;

verus! {

#[derive(Debug, Clone)]
pub struct DeviceCapabilities {
    pub compute: Option<ComputeCapability>,
    pub sensors: Vec<(String, SensorCapability)>,
    pub connectivity: Vec<(String, ConnectivityCapability)>,
    pub power: Option<PowerCapability>,
    pub health: Option<HealthCapability>,
    pub display: Option<DisplayCapability>,
    pub audio: Option<AudioCapability>,
    pub extended: Vec<(String, ExtendedCapability)>,
}

#[derive(Debug, Clone)]
pub struct ComputeCapability {
    pub cpu: CpuInfo,
    pub gpu: Option<GpuInfo>,
    pub npu: Option<NpuInfo>,
    pub ram: RamInfo,
    pub storage: StorageInfo,
}

#[derive(Debug, Clone)]
pub struct CpuInfo {
    pub cores: u8,
    pub architecture: String,
    pub features: Vec<String>,
    pub nominal_mhz: u32,
    pub current_mhz: u32,
}

#[derive(Debug, Clone)]
pub struct GpuInfo {
    pub present: bool,
    pub gpu_type: String,
    /// Bits of the `f32` throughput in teraflops.
    pub tflops_bits: u32,
    pub memory_mb: u32,
}

#[derive(Debug, Clone)]
pub struct NpuInfo {
    pub present: bool,
    /// Bits of the `f32` throughput in tera-operations per second.
    pub tops_bits: u32,
    pub supported_precisions: Vec<String>,
}

#[derive(Debug, Clone)]
pub struct RamInfo {
    pub total_mb: u32,
    pub free_mb: u32,
    pub ram_type: String,
}

#[derive(Debug, Clone)]
pub struct StorageInfo {
    pub total_gb: u32,
    pub free_gb: u32,
    pub storage_type: String,
    pub throughput_mbps: u32,
}

/// A sensor; `_bits` fields hold `f32` bit patterns.
#[derive(Debug, Clone)]
pub enum SensorCapability {
    Microphone { present: bool, array_size: u8, sampling_rate_khz: u32, max_spl_db: u8 },
    Camera { present: bool, resolution_mp: u8, fov_degrees: u16, features: Vec<String> },
    Temperature { present: bool, accuracy_celsius_bits: u32, current_value_bits: Option<u32> },
    Imu { present: bool, axes: u8, update_rate_hz: u32 },
    Lidar { present: bool, points_per_second: u32, max_range_m: u8 },
    Proximity { present: bool, max_range_cm: u16, accuracy_cm_bits: u32 },
    AmbientLight { present: bool, max_lux: u32, current_value_bits: Option<u32> },
    Pressure { present: bool, range_hpa_bits: [u32; 2], accuracy_hpa_bits: u32 },
    Humidity { present: bool, accuracy_pct_bits: u32, current_value_bits: Option<u32> },
}

#[derive(Debug, Clone)]
pub enum ConnectivityCapability {
    Wifi { present: bool, standards: Vec<String>, bands: Vec<String>, mimo_streams: u8, rssi_dbm: Option<i8> },
    Bluetooth { present: bool, version: String, features: Vec<String>, rssi_dbm: Option<i8> },
    Ethernet { present: bool, speed_mbps: u32, full_duplex: bool },
    Cellular { present: bool, technology: String, signal_strength_dbm: Option<i8>, carrier: String },
    Uwb { present: bool, ranging_supported: bool, max_range_m: u8 },
    Zigbee { present: bool, protocol_version: String, network_role: String },
    Thread { present: bool, network_role: String },
}

#[derive(Debug, Clone)]
pub struct PowerCapability {
    pub source: PowerSource,
    pub battery_pct: Option<u8>,
    pub estimated_runtime_mins: Option<u32>,
    pub charging: bool,
    /// Bits of the `f32` maximum draw in watts.
    pub max_power_draw_w_bits: u32,
    /// Bits of the `f32` current draw in watts.
    pub current_power_draw_w_bits: u32,
}

#[derive(Debug, Clone, Copy, PartialEq, Eq, Structural)]
pub enum PowerSource {
    Battery,
    Wired,
    Solar,
    Hybrid,
}

#[derive(Debug, Clone, Copy)]
pub struct HealthCapability {
    pub uptime_s: u64,
    pub thermal_headroom_pct: u8,
    pub cpu_load_pct: u8,
    pub memory_pressure_pct: u8,
    pub network_stability_pct: u8,
}

#[derive(Debug, Clone, Copy)]
pub struct DisplayCapability {
    pub present: bool,
    pub resolution: (u16, u16),
    pub refresh_rate_hz: u8,
    pub touch_capable: bool,
    pub brightness_nits: u16,
    pub current_brightness_pct: u8,
}

#[derive(Debug, Clone)]
pub struct AudioCapability {
    pub output: Option<AudioOutput>,
    pub spatial_audio: bool,
    pub formats: Vec<String>,
}

#[derive(Debug, Clone, Copy)]
pub struct AudioOutput {
    pub present: bool,
    pub channels: u8,
    pub max_spl_db: u8,
    pub frequency_response: (u32, u32),
}

/// A free-form capability; `Number` holds the bits of an `f64`.
#[derive(Debug, Clone)]
pub enum ExtendedCapability {
    Boolean(bool),
    Number(u64),
    Text(String),
    List(Vec<String>),
    Object(Vec<(String, JsonValue)>),
}

impl DeviceCapabilities {
    /// Sensors by name (the first entry with a name counts).
    pub open spec fn sensor_map(&self) -> Map<Seq<char>, SensorCapability> {
        entry_map(self.sensors@)
    }

    pub open spec fn connectivity_map(&self) -> Map<Seq<char>, ConnectivityCapability> {
        entry_map(self.connectivity@)
    }

    pub open spec fn extended_map(&self) -> Map<Seq<char>, ExtendedCapability> {
        entry_map(self.extended@)
    }

    /// No capability at all.
    pub open spec fn is_empty_spec(&self) -> bool {
        &&& self.compute is None
        &&& self.sensors@.len() == 0
        &&& self.connectivity@.len() == 0
        &&& self.power is None
        &&& self.health is None
        &&& self.display is None
        &&& self.audio is None
        &&& self.extended@.len() == 0
    }
}

/// Builds a `DeviceCapabilities` one capability at a time; naming a sensor,
/// link or extension again replaces the earlier one.
pub struct CapabilityBuilder {
    caps: DeviceCapabilities,
}

impl CapabilityBuilder {
    /// What `build` will return.
    pub closed spec fn current(&self) -> DeviceCapabilities {
        self.caps
    }

    pub fn new() -> (r: Self)
        ensures
            r.current().is_empty_spec(),
    {
        CapabilityBuilder {
            caps: DeviceCapabilities {
                compute: None,
                sensors: Vec::new(),
                connectivity: Vec::new(),
                power: None,
                health: None,
                display: None,
                audio: None,
                extended: Vec::new(),
            },
        }
    }

    pub fn compute(self, compute: ComputeCapability) -> (r: Self)
        ensures
            r.current() == (DeviceCapabilities { compute: Some(compute), ..self.current() }),
    {
        let mut caps = self.caps;
        caps.compute = Some(compute);
        CapabilityBuilder { caps }
    }

    pub fn sensor(self, name: &str, sensor: SensorCapability) -> (r: Self)
        ensures
            r.current().sensor_map() == self.current().sensor_map().insert(name@, sensor),
            r.current() == (DeviceCapabilities { sensors: r.current().sensors, ..self.current() }),
    {
        let mut caps = self.caps;
        crate::keyed::put(&mut caps.sensors, name.to_owned(), sensor);
        CapabilityBuilder { caps }
    }

    pub fn connectivity(self, name: &str, conn: ConnectivityCapability) -> (r: Self)
        ensures
            r.current().connectivity_map() == self.current().connectivity_map().insert(name@, conn),
            r.current() == (DeviceCapabilities { connectivity: r.current().connectivity, ..self.current() }),
    {
        let mut caps = self.caps;
        crate::keyed::put(&mut caps.connectivity, name.to_owned(), conn);
        CapabilityBuilder { caps }
    }

    pub fn power(self, power: PowerCapability) -> (r: Self)
        ensures
            r.current() == (DeviceCapabilities { power: Some(power), ..self.current() }),
    {
        let mut caps = self.caps;
        caps.power = Some(power);
        CapabilityBuilder { caps }
    }

    pub fn health(self, health: HealthCapability) -> (r: Self)
        ensures
            r.current() == (DeviceCapabilities { health: Some(health), ..self.current() }),
    {
        let mut caps = self.caps;
        caps.health = Some(health);
        CapabilityBuilder { caps }
    }

    pub fn display(self, display: DisplayCapability) -> (r: Self)
        ensures
            r.current() == (DeviceCapabilities { display: Some(display), ..self.current() }),
    {
        let mut caps = self.caps;
        caps.display = Some(display);
        CapabilityBuilder { caps }
    }

    pub fn audio(self, audio: AudioCapability) -> (r: Self)
        ensures
            r.current() == (DeviceCapabilities { audio: Some(audio), ..self.current() }),
    {
        let mut caps = self.caps;
        caps.audio = Some(audio);
        CapabilityBuilder { caps }
    }

    pub fn extended(self, name: &str, value: ExtendedCapability) -> (r: Self)
        ensures
            r.current().extended_map() == self.current().extended_map().insert(name@, value),
            r.current() == (DeviceCapabilities { extended: r.current().extended, ..self.current() }),
    {
        let mut caps = self.caps;
        crate::keyed::put(&mut caps.extended, name.to_owned(), value);
        CapabilityBuilder { caps }
    }

    pub fn build(self) -> (r: DeviceCapabilities)
        ensures
            r == self.current(),
    {
        self.caps
    }
}

impl Default for CapabilityBuilder {
    fn default() -> (r: Self)
        ensures
            r.current().is_empty_spec(),
    {
        Self::new()
    }
}

} // verus!
