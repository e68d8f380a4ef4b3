//! The hardware and software stamp recorded with every result.
//!
//! Every field that results are filtered on gets a column of its own, and
//! the adapter's full description is kept as JSON as well, so no field is
//! lost. The facts are read from the adapter and the host by the caller and
//! handed in as plain values; this module decides what is recorded.

use vstd::prelude::*;

use crate::chars::{chars_of, strip_chars, trimmed};

verus! {

/// Kind of graphics adapter.
#[derive(Clone, Copy, Debug, PartialEq, Eq, Structural)]
pub enum DeviceType {
    Other,
    IntegratedGpu,
    DiscreteGpu,
    VirtualGpu,
    Cpu,
}

/// Graphics API through which an adapter is driven.
#[derive(Clone, Copy, Debug, PartialEq, Eq, Structural)]
pub enum Backend {
    Noop,
    Vulkan,
    Metal,
    Dx12,
    Gl,
    BrowserWebGpu,
}

/// The name recorded for a kind of adapter.
pub open spec fn device_type_name(t: DeviceType) -> Seq<char> {
    match t {
        DeviceType::Other => "Other"@,
        DeviceType::IntegratedGpu => "Integrated"@,
        DeviceType::DiscreteGpu => "Discrete"@,
        DeviceType::VirtualGpu => "Virtual"@,
        DeviceType::Cpu => "Cpu"@,
    }
}

/// The name recorded for a graphics API.
pub open spec fn backend_name(b: Backend) -> Seq<char> {
    match b {
        Backend::Noop => "Noop"@,
        Backend::Vulkan => "Vulkan"@,
        Backend::Metal => "Metal"@,
        Backend::Dx12 => "Dx12"@,
        Backend::Gl => "Gl"@,
        Backend::BrowserWebGpu => "BrowserWebGpu"@,
    }
}

fn device_type_str(t: DeviceType) -> (s: &'static str)
    ensures
        s@ == device_type_name(t),
{
    match t {
        DeviceType::Other => "Other",
        DeviceType::IntegratedGpu => "Integrated",
        DeviceType::DiscreteGpu => "Discrete",
        DeviceType::VirtualGpu => "Virtual",
        DeviceType::Cpu => "Cpu",
    }
}

fn backend_str(b: Backend) -> (s: &'static str)
    ensures
        s@ == backend_name(b),
{
    match b {
        Backend::Noop => "Noop",
        Backend::Vulkan => "Vulkan",
        Backend::Metal => "Metal",
        Backend::Dx12 => "Dx12",
        Backend::Gl => "Gl",
        Backend::BrowserWebGpu => "BrowserWebGpu",
    }
}

/// Everything about the machine and the GPU that stamps a result row.
pub struct HardwareInfo {
    pub gpu_name: String,
    pub gpu_vendor_id: u32,
    pub gpu_device_id: u32,
    pub gpu_driver: String,
    pub gpu_driver_info: String,
    /// Discrete, Integrated, Virtual, Cpu or Other.
    pub gpu_device_type: String,
    /// Vulkan, Metal, Dx12, Gl, BrowserWebGpu or Noop.
    pub backend: String,
    pub raw_adapter_json: String,
    pub wgpu_version: String,
    pub os_name: String,
    pub os_version: String,
    pub cpu_brand: String,
    pub cpu_cores: u32,
    pub total_ram_bytes: u64,
}

/// What the graphics adapter reports about itself.
pub struct AdapterFacts {
    pub name: String,
    pub vendor: u32,
    pub device: u32,
    pub driver: String,
    pub driver_info: String,
    pub device_type: DeviceType,
    pub backend: Backend,
    /// The adapter's whole description as JSON, `None` where it could not be
    /// serialized.
    pub json: Option<String>,
}

/// What the host operating system reports.
pub struct HostFacts {
    /// Brand string of the first CPU, as reported (untrimmed); `None` when no
    /// CPU is listed.
    pub first_cpu_brand: Option<String>,
    pub physical_core_count: Option<usize>,
    pub logical_cpu_count: usize,
    pub os_name: Option<String>,
    pub long_os_version: Option<String>,
    pub os_version: Option<String>,
    pub total_memory: u64,
}

/// The JSON recorded when the adapter description cannot be serialized.
pub open spec fn serialize_failed_json() -> Seq<char> {
    "{\"error\":\"serialize failed\"}"@
}

pub open spec fn text_or_unknown(s: Option<String>) -> Seq<char> {
    match s {
        Some(t) => t@,
        None => "unknown"@,
    }
}

fn string_or_unknown(s: Option<String>) -> (r: String)
    ensures
        r@ == text_or_unknown(s),
{
    match s {
        Some(t) => t,
        None => "unknown".to_owned(),
    }
}

/// Builds the full stamp from the adapter's and the host's facts and the
/// version of the GPU library in use.
pub fn collect(adapter: AdapterFacts, host: HostFacts, wgpu_version: String) -> (r: HardwareInfo)
    ensures
        r.gpu_name@ == adapter.name@,
        r.gpu_vendor_id == adapter.vendor,
        r.gpu_device_id == adapter.device,
        r.gpu_driver@ == adapter.driver@,
        r.gpu_driver_info@ == adapter.driver_info@,
        r.gpu_device_type@ == device_type_name(adapter.device_type),
        r.backend@ == backend_name(adapter.backend),
        r.raw_adapter_json@ == (match adapter.json {
            Some(j) => j@,
            None => serialize_failed_json(),
        }),
        r.wgpu_version@ == wgpu_version@,
        r.os_name@ == text_or_unknown(host.os_name),
        r.os_version@ == (match host.long_os_version {
            Some(v) => v@,
            None => text_or_unknown(host.os_version),
        }),
        r.cpu_brand@ == (match host.first_cpu_brand {
            Some(b) => trimmed(b@),
            None => "unknown"@,
        }),
        r.cpu_cores == (match host.physical_core_count {
            Some(c) => c,
            None => host.logical_cpu_count,
        }) as u32,
        r.total_ram_bytes == host.total_memory,
{
    let raw_adapter_json = match adapter.json {
        Some(j) => j,
        None => "{\"error\":\"serialize failed\"}".to_owned(),
    };
    let cpu_brand = match &host.first_cpu_brand {
        Some(b) => {
            let chars = chars_of(b.as_str());
            assert(chars@.subrange(0, chars@.len() as int) =~= b@);
            strip_chars(&chars, 0, chars.len(), false)
        },
        None => "unknown".to_owned(),
    };
    let cores = match host.physical_core_count {
        Some(c) => c,
        None => host.logical_cpu_count,
    };
    let os_version = match host.long_os_version {
        Some(v) => v,
        None => string_or_unknown(host.os_version),
    };
    HardwareInfo {
        gpu_name: adapter.name,
        gpu_vendor_id: adapter.vendor,
        gpu_device_id: adapter.device,
        gpu_driver: adapter.driver,
        gpu_driver_info: adapter.driver_info,
        gpu_device_type: device_type_str(adapter.device_type).to_owned(),
        backend: backend_str(adapter.backend).to_owned(),
        raw_adapter_json,
        wgpu_version,
        os_name: string_or_unknown(host.os_name),
        os_version,
        cpu_brand,
        cpu_cores: cores as u32,
        total_ram_bytes: host.total_memory,
    }
}

} // verus!
