use phys_rs::gpu::{
    gpu_kind_of, scalar_buffer_size, sph_workgroup_count, vec4_buffer_size, AdapterDeviceType,
    GpuAdapterInfo, GpuConfig, GpuKind, PowerPreference,
};

#[test]
fn workgroups_cover_all_particles() {
    assert_eq!(sph_workgroup_count(0), 0);
    assert_eq!(sph_workgroup_count(1), 1);
    assert_eq!(sph_workgroup_count(256), 1);
    assert_eq!(sph_workgroup_count(257), 2);
    assert_eq!(sph_workgroup_count(1000), 4);
}

#[test]
fn buffer_sizes() {
    assert_eq!(scalar_buffer_size(100), 400);
    assert_eq!(vec4_buffer_size(100), 1600);
    assert_eq!(vec4_buffer_size(u32::MAX), 16 * u32::MAX as u64);
}

#[test]
fn adapter_classification() {
    assert_eq!(gpu_kind_of(AdapterDeviceType::DiscreteGpu), GpuKind::Discrete);
    assert_eq!(gpu_kind_of(AdapterDeviceType::IntegratedGpu), GpuKind::Integrated);
    assert_eq!(gpu_kind_of(AdapterDeviceType::Cpu), GpuKind::Cpu);
    assert_eq!(gpu_kind_of(AdapterDeviceType::VirtualGpu), GpuKind::Virtual);
    assert_eq!(gpu_kind_of(AdapterDeviceType::Other), GpuKind::Other);
}

#[test]
fn gpu_defaults() {
    let info = GpuAdapterInfo::default();
    assert_eq!(info.name, "none");
    assert_eq!(info.kind, GpuKind::NoAdapter);
    assert_eq!(info.device_type, "none");
    assert_eq!(info.backend, "none");
    assert!(!info.has_f64);
    let c = GpuConfig::default();
    assert!(c.prefer_high_performance);
    assert_eq!(c.power_preference(), PowerPreference::HighPerformance);
    let low = GpuConfig { prefer_high_performance: false };
    assert_eq!(low.power_preference(), PowerPreference::LowPower);
}
