//! GPU compute support for SPH: adapter classification, buffer sizes and
//! dispatch sizes.
use vstd::prelude::*;

verus! {

/// Number of invocations in one compute workgroup of the SPH shaders.
pub const SPH_WORKGROUP_SIZE: u32 = 256;

/// Bytes per particle of a buffer holding one `f32` per particle.
pub const SCALAR_STRIDE: u64 = 4;

/// Bytes per particle of a buffer holding one `vec4<f32>` per particle.
pub const VEC4_STRIDE: u64 = 16;

/// Number of workgroups that covers `num_particles` invocations
/// (`ceil(num_particles / 256)`).
pub fn sph_workgroup_count(num_particles: u32) -> (groups: u32)
    requires
        num_particles + 255 <= u32::MAX,
    ensures
        groups == (num_particles + 255) / 256,
        groups * 256 >= num_particles,
        groups == 0 || (groups - 1) * 256 < num_particles,
{
    (num_particles + 255) / 256
}

/// Size in bytes of a density or pressure buffer for `count` particles.
pub fn scalar_buffer_size(count: u32) -> (size: u64)
    ensures
        size == count * SCALAR_STRIDE,
{
    (count as u64) * SCALAR_STRIDE
}

/// Size in bytes of a force buffer for `count` particles.
pub fn vec4_buffer_size(count: u32) -> (size: u64)
    ensures
        size == count * VEC4_STRIDE,
{
    (count as u64) * VEC4_STRIDE
}

/// Kind of graphics adapter, as the adapter reports it.
#[derive(Clone, Copy, PartialEq, Eq, Structural, Debug)]
pub enum AdapterDeviceType {
    Other,
    IntegratedGpu,
    DiscreteGpu,
    VirtualGpu,
    Cpu,
}

/// Kind of GPU the simulation runs its compute passes on.
#[derive(Clone, Copy, PartialEq, Eq, Structural, Debug)]
pub enum GpuKind {
    Discrete,
    Integrated,
    Cpu,
    Virtual,
    Other,
    /// No adapter was found.
    NoAdapter,
}

/// The kind of GPU an adapter of the given device type is.
pub open spec fn gpu_kind(device_type: AdapterDeviceType) -> GpuKind {
    match device_type {
        AdapterDeviceType::DiscreteGpu => GpuKind::Discrete,
        AdapterDeviceType::IntegratedGpu => GpuKind::Integrated,
        AdapterDeviceType::Cpu => GpuKind::Cpu,
        AdapterDeviceType::VirtualGpu => GpuKind::Virtual,
        AdapterDeviceType::Other => GpuKind::Other,
    }
}

/// Classifies an adapter by its reported device type.
pub fn gpu_kind_of(device_type: AdapterDeviceType) -> (kind: GpuKind)
    ensures
        kind == gpu_kind(device_type),
        device_type == AdapterDeviceType::DiscreteGpu ==> kind == GpuKind::Discrete,
        device_type == AdapterDeviceType::IntegratedGpu ==> kind == GpuKind::Integrated,
        device_type == AdapterDeviceType::Cpu ==> kind == GpuKind::Cpu,
        device_type == AdapterDeviceType::VirtualGpu ==> kind == GpuKind::Virtual,
        device_type == AdapterDeviceType::Other ==> kind == GpuKind::Other,
{
    match device_type {
        AdapterDeviceType::DiscreteGpu => GpuKind::Discrete,
        AdapterDeviceType::IntegratedGpu => GpuKind::Integrated,
        AdapterDeviceType::Cpu => GpuKind::Cpu,
        AdapterDeviceType::VirtualGpu => GpuKind::Virtual,
        AdapterDeviceType::Other => GpuKind::Other,
    }
}

/// Description of the adapter in use.
#[derive(Clone, Debug)]
pub struct GpuAdapterInfo {
    pub name: String,
    pub kind: GpuKind,
    pub device_type: String,
    pub backend: String,
    pub has_f64: bool,
}

impl Default for GpuAdapterInfo {
    /// The description used when no adapter is available.
    fn default() -> (info: Self)
        ensures
            info.name@ == "none"@,
            info.kind == GpuKind::NoAdapter,
            info.device_type@ == "none"@,
            info.backend@ == "none"@,
            !info.has_f64,
    {
        GpuAdapterInfo {
            name: String::from_str("none"),
            kind: GpuKind::NoAdapter,
            device_type: String::from_str("none"),
            backend: String::from_str("none"),
            has_f64: false,
        }
    }
}

/// Power preference asked of the adapter.
#[derive(Clone, Copy, PartialEq, Eq, Structural, Debug)]
pub enum PowerPreference {
    HighPerformance,
    LowPower,
}

/// GPU selection settings.
#[derive(Clone, Copy, PartialEq, Eq, Structural, Debug)]
pub struct GpuConfig {
    pub prefer_high_performance: bool,
}

impl Default for GpuConfig {
    /// High-performance adapters are preferred by default.
    fn default() -> (c: Self)
        ensures
            c.prefer_high_performance,
    {
        GpuConfig { prefer_high_performance: true }
    }
}

impl GpuConfig {
    /// The power preference to request from the adapter.
    pub fn power_preference(&self) -> (p: PowerPreference)
        ensures
            p == (if self.prefer_high_performance {
                PowerPreference::HighPerformance
            } else {
                PowerPreference::LowPower
            }),
    {
        if self.prefer_high_performance {
            PowerPreference::HighPerformance
        } else {
            PowerPreference::LowPower
        }
    }
}

/// Every reported adapter kind is classified as a kind of its own, and an
/// adapter that was found is never classified as missing.
pub proof fn lemma_gpu_kinds_distinct(a: AdapterDeviceType, b: AdapterDeviceType)
    ensures
        gpu_kind(a) != GpuKind::NoAdapter,
        gpu_kind(a) == gpu_kind(b) ==> a == b,
{
}

} // verus!
