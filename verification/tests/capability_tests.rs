use avi_device::capability::{
    CapabilityBuilder, ComputeCapability, ConnectivityCapability, CpuInfo, ExtendedCapability, GpuInfo,
    HealthCapability, NpuInfo, PowerCapability, PowerSource, RamInfo, SensorCapability, StorageInfo,
};

#[test]
fn test_capability_builder() {
    let caps = CapabilityBuilder::new()
        .compute(ComputeCapability {
            cpu: CpuInfo {
                cores: 8,
                architecture: "arm64".to_string(),
                features: vec!["neon".to_string(), "sve".to_string()],
                nominal_mhz: 2400,
                current_mhz: 1800,
            },
            gpu: Some(GpuInfo {
                present: true,
                gpu_type: "integrated".to_string(),
                tflops_bits: 1.2f32.to_bits(),
                memory_mb: 2048,
            }),
            npu: Some(NpuInfo {
                present: true,
                tops_bits: 5.0f32.to_bits(),
                supported_precisions: vec!["int8".to_string(), "fp16".to_string()],
            }),
            ram: RamInfo { total_mb: 8192, free_mb: 4096, ram_type: "lpddr5".to_string() },
            storage: StorageInfo {
                total_gb: 128,
                free_gb: 75,
                storage_type: "ufs".to_string(),
                throughput_mbps: 800,
            },
        })
        .sensor(
            "microphone",
            SensorCapability::Microphone { present: true, array_size: 4, sampling_rate_khz: 48, max_spl_db: 120 },
        )
        .sensor(
            "temperature",
            SensorCapability::Temperature {
                present: true,
                accuracy_celsius_bits: 0.5f32.to_bits(),
                current_value_bits: Some(22.5f32.to_bits()),
            },
        )
        .connectivity(
            "wifi",
            ConnectivityCapability::Wifi {
                present: true,
                standards: vec!["802.11ax".to_string(), "802.11ac".to_string()],
                bands: vec!["2.4".to_string(), "5".to_string()],
                mimo_streams: 2,
                rssi_dbm: Some(-65),
            },
        )
        .power(PowerCapability {
            source: PowerSource::Battery,
            battery_pct: Some(85),
            estimated_runtime_mins: Some(480),
            charging: false,
            max_power_draw_w_bits: 15.0f32.to_bits(),
            current_power_draw_w_bits: 5.2f32.to_bits(),
        })
        .health(HealthCapability {
            uptime_s: 7200,
            thermal_headroom_pct: 70,
            cpu_load_pct: 25,
            memory_pressure_pct: 40,
            network_stability_pct: 98,
        })
        .extended("device_orientation", ExtendedCapability::Text("landscape".to_string()))
        .extended("attention_detection", ExtendedCapability::Boolean(true))
        .build();

    assert!(caps.compute.is_some());
}

#[test]
fn builder_starts_empty() {
    let caps = CapabilityBuilder::new().build();
    assert!(caps.compute.is_none());
    assert!(caps.sensors.is_empty());
    assert!(caps.connectivity.is_empty());
    assert!(caps.power.is_none());
    assert!(caps.health.is_none());
    assert!(caps.display.is_none());
    assert!(caps.audio.is_none());
    assert!(caps.extended.is_empty());
    let d = CapabilityBuilder::default().build();
    assert!(d.compute.is_none() && d.sensors.is_empty());
}

#[test]
fn naming_a_sensor_again_replaces_it() {
    let caps = CapabilityBuilder::new()
        .sensor("imu", SensorCapability::Imu { present: true, axes: 6, update_rate_hz: 100 })
        .sensor("lidar", SensorCapability::Lidar { present: true, points_per_second: 1000, max_range_m: 10 })
        .sensor("imu", SensorCapability::Imu { present: true, axes: 9, update_rate_hz: 200 })
        .build();
    let imus: Vec<_> = caps.sensors.iter().filter(|(n, _)| n == "imu").collect();
    assert_eq!(imus.len(), 1);
    match &imus[0].1 {
        SensorCapability::Imu { axes, update_rate_hz, .. } => {
            assert_eq!(*axes, 9);
            assert_eq!(*update_rate_hz, 200);
        }
        other => panic!("unexpected sensor {:?}", other),
    }
    assert_eq!(caps.sensors.len(), 2);
}

#[test]
fn extended_capability_replaced_by_name() {
    let caps = CapabilityBuilder::new()
        .extended("mode", ExtendedCapability::Text("a".to_string()))
        .extended("mode", ExtendedCapability::Boolean(false))
        .build();
    assert_eq!(caps.extended.len(), 1);
    assert!(matches!(caps.extended[0].1, ExtendedCapability::Boolean(false)));
}
