use gpu_probe::hardware::{collect, AdapterFacts, Backend, DeviceType, HostFacts};

fn adapter(device_type: DeviceType, backend: Backend, json: Option<String>) -> AdapterFacts {
    AdapterFacts {
        name: "Quadro M1000M".to_string(),
        vendor: 0x10de,
        device: 0x13b1,
        driver: "NVIDIA".to_string(),
        driver_info: "535.54".to_string(),
        device_type,
        backend,
        json,
    }
}

fn host() -> HostFacts {
    HostFacts {
        first_cpu_brand: Some("  Intel(R) Core(TM) i7-6820HQ CPU @ 2.70GHz \n".to_string()),
        physical_core_count: Some(4),
        logical_cpu_count: 8,
        os_name: Some("Ubuntu".to_string()),
        long_os_version: Some("Linux 22.04 Ubuntu".to_string()),
        os_version: Some("22.04".to_string()),
        total_memory: 16 * 1024 * 1024 * 1024,
    }
}

#[test]
fn collect_copies_and_names_fields() {
    let info = collect(
        adapter(DeviceType::DiscreteGpu, Backend::Vulkan, Some("{\"name\":\"x\"}".to_string())),
        host(),
        "30.0.1".to_string(),
    );
    assert_eq!(info.gpu_name, "Quadro M1000M");
    assert_eq!(info.gpu_vendor_id, 0x10de);
    assert_eq!(info.gpu_device_id, 0x13b1);
    assert_eq!(info.gpu_driver, "NVIDIA");
    assert_eq!(info.gpu_driver_info, "535.54");
    assert_eq!(info.gpu_device_type, "Discrete");
    assert_eq!(info.backend, "Vulkan");
    assert_eq!(info.raw_adapter_json, "{\"name\":\"x\"}");
    assert_eq!(info.wgpu_version, "30.0.1");
    assert_eq!(info.os_name, "Ubuntu");
    assert_eq!(info.os_version, "Linux 22.04 Ubuntu");
    assert_eq!(info.cpu_brand, "Intel(R) Core(TM) i7-6820HQ CPU @ 2.70GHz");
    assert_eq!(info.cpu_cores, 4);
    assert_eq!(info.total_ram_bytes, 16 * 1024 * 1024 * 1024);
}

#[test]
fn every_device_type_and_backend_name() {
    let names = [
        (DeviceType::Other, "Other"),
        (DeviceType::IntegratedGpu, "Integrated"),
        (DeviceType::DiscreteGpu, "Discrete"),
        (DeviceType::VirtualGpu, "Virtual"),
        (DeviceType::Cpu, "Cpu"),
    ];
    for (t, name) in names {
        assert_eq!(collect(adapter(t, Backend::Gl, None), host(), String::new()).gpu_device_type, name);
    }
    let backends = [
        (Backend::Noop, "Noop"),
        (Backend::Vulkan, "Vulkan"),
        (Backend::Metal, "Metal"),
        (Backend::Dx12, "Dx12"),
        (Backend::Gl, "Gl"),
        (Backend::BrowserWebGpu, "BrowserWebGpu"),
    ];
    for (b, name) in backends {
        assert_eq!(collect(adapter(DeviceType::Other, b, None), host(), String::new()).backend, name);
    }
}

#[test]
fn collect_fallbacks() {
    let facts = HostFacts {
        first_cpu_brand: None,
        physical_core_count: None,
        logical_cpu_count: 12,
        os_name: None,
        long_os_version: None,
        os_version: Some("14.5".to_string()),
        total_memory: 0,
    };
    let info = collect(adapter(DeviceType::Cpu, Backend::Metal, None), facts, "30.0.1".to_string());
    assert_eq!(info.raw_adapter_json, "{\"error\":\"serialize failed\"}");
    assert_eq!(info.cpu_brand, "unknown");
    assert_eq!(info.cpu_cores, 12);
    assert_eq!(info.os_name, "unknown");
    assert_eq!(info.os_version, "14.5");

    let facts = HostFacts {
        first_cpu_brand: Some("\u{3000}\t".to_string()),
        physical_core_count: Some(usize::MAX),
        logical_cpu_count: 1,
        os_name: None,
        long_os_version: None,
        os_version: None,
        total_memory: 1,
    };
    let info = collect(adapter(DeviceType::Cpu, Backend::Metal, None), facts, "30.0.1".to_string());
    assert_eq!(info.cpu_brand, "");
    assert_eq!(info.cpu_cores, usize::MAX as u32);
    assert_eq!(info.os_version, "unknown");
}
