use tauri_plugin_system::macos::{
    cpu_tick_deltas, diskutil_kind, display_entries, gpu_fields, macos_disk_candidate,
    power_entries, mac_from_link, macos_battery, macos_cpu_info, macos_disk_entry,
    macos_displays, macos_gpu, macos_memory_info, macos_os_info, macos_power_summary,
    memory_stats, parse_macos_resolution, strip_trailing_nuls, swap_usage, sysctl_width,
    ChargeLevel, CpuLoadSnapshot, MacDisplayEntry, MacOSSystemInfo, PowerEntry, SysctlWidth,
    VMStatistics64, XswUsage,
};
use tauri_plugin_system::json::JsonValue;
use tauri_plugin_system::models::{BatteryStatus, DiskKind, MemoryInfo};

fn s(t: &str) -> Option<String> {
    Some(t.to_string())
}

fn no_power() -> PowerEntry {
    PowerEntry {
        has_charge_info: false,
        current_capacity: None,
        max_capacity: None,
        is_charging: None,
        has_health_info: false,
        cycle_count: None,
        has_ac_info: false,
        charger_connected: None,
        has_model_info: false,
        design_capacity: None,
        health_text: None,
    }
}

#[test]
fn macos_source_is_constructed() {
    let _ = MacOSSystemInfo::new();
}

#[test]
fn sysctl_strings_lose_trailing_nuls_only() {
    assert_eq!(strip_trailing_nuls(vec![b'a', b'b', 0, 0]), vec![b'a', b'b']);
    assert_eq!(strip_trailing_nuls(vec![0, b'a', 0]), vec![0, b'a']);
    assert_eq!(strip_trailing_nuls(vec![0, 0]), Vec::<u8>::new());
    assert_eq!(strip_trailing_nuls(vec![b'x']), vec![b'x']);
}

#[test]
fn sysctl_integer_widths() {
    assert_eq!(sysctl_width(4), Ok(SysctlWidth::Bits32));
    assert_eq!(sysctl_width(8), Ok(SysctlWidth::Bits64));
    assert_eq!(sysctl_width(2), Err(2));
    assert_eq!(sysctl_width(0), Err(0));
}

#[test]
fn macos_os_record() {
    let os = macos_os_info(s("14.2"), s("23C64"), s("mac"), "aarch64", Some(100), 250, s("bob"));
    assert_eq!(os.name, "macOS");
    assert_eq!(os.version, "14.2");
    assert_eq!(os.full_version, "macOS 14.2 (23C64)");
    assert_eq!(os.hostname, "mac");
    assert_eq!(os.arch, "aarch64");
    assert_eq!(os.uptime_secs, 150);
    assert_eq!(os.username, "bob");
    let unknown = macos_os_info(None, None, None, "x86_64", Some(300), 250, None);
    assert_eq!(unknown.version, "unknown");
    assert_eq!(unknown.full_version, "macOS unknown (unknown)");
    assert_eq!(unknown.hostname, "unknown");
    assert_eq!(unknown.username, "unknown");
    assert_eq!(unknown.uptime_secs, 0);
    let no_boot = macos_os_info(None, None, None, "x86_64", None, 250, None);
    assert_eq!(no_boot.uptime_secs, 0);
}

#[test]
fn macos_cpu_record() {
    let c = macos_cpu_info(s("Apple M2"), None, Some(8), Some(8), None, "aarch64");
    assert_eq!(c.model, "Apple M2");
    assert_eq!(c.vendor, "Apple");
    assert_eq!(c.cores, 8);
    assert_eq!(c.threads, 8);
    assert_eq!(c.frequency_mhz, 0);
    let i = macos_cpu_info(
        s("Intel(R) Core(TM) i7"),
        s("GenuineIntel"),
        Some((1u64 << 32) + 3),
        None,
        Some(3_200_000_000),
        "x86_64",
    );
    assert_eq!(i.vendor, "GenuineIntel");
    assert_eq!(i.cores, 3);
    assert_eq!(i.threads, 0);
    assert_eq!(i.frequency_mhz, 3200);
    let u = macos_cpu_info(None, None, None, None, None, "x86_64");
    assert_eq!(u.model, "Unknown CPU");
    assert_eq!(u.vendor, "Unknown");
}

#[test]
fn cpu_ticks_between_samples_wrap() {
    let a = CpuLoadSnapshot { per_cpu: vec![[10, 20, 30, 40]] };
    let b = CpuLoadSnapshot { per_cpu: vec![[15, 20, 31, 5], [1, 1, 1, 1]] };
    let d = cpu_tick_deltas(&a, &b);
    assert_eq!(d, vec![[5, 0, 1, 5u32.wrapping_sub(40)]]);
    assert_eq!(d[0][3], 4294967261);
}

#[test]
fn macos_memory_from_pages() {
    let vm = VMStatistics64 {
        free_count: 100,
        speculative_count: 20,
        inactive_count: 30,
        purgeable_count: 10,
        active_count: 7,
        wire_count: 9,
        ..VMStatistics64::default()
    };
    let st = memory_stats(&vm, 4096);
    assert_eq!(st.free_count, 100);
    assert_eq!(st.page_size, 4096);
    let sw = swap_usage(&XswUsage { xsu_total: 10, xsu_used: 3, ..XswUsage::default() });
    assert_eq!(sw, (10, 3));
    let m = macos_memory_info(1_000_000, &st, Some(sw));
    assert_eq!(
        m,
        MemoryInfo {
            total_bytes: 1_000_000,
            used_bytes: 344_640,
            free_bytes: 491_520,
            available_bytes: 655_360,
            swap_total_bytes: 10,
            swap_used_bytes: 3,
        }
    );
    let small = macos_memory_info(1000, &st, None);
    assert_eq!(small.used_bytes, 0);
    assert_eq!(small.swap_total_bytes, 0);
}

#[test]
fn macos_disks_from_mounts() {
    let root = macos_disk_entry("apfs", "/dev/disk3s1", "/", 4096, 100, 40, DiskKind::Ssd).unwrap();
    assert_eq!(root.name, "Macintosh HD");
    assert_eq!(root.mount_point, "/");
    assert_eq!(root.fs_type, "apfs");
    assert_eq!(root.kind, DiskKind::Ssd);
    assert_eq!(root.total_bytes, 409_600);
    assert_eq!(root.free_bytes, 163_840);
    assert_eq!(root.used_bytes, 245_760);
    assert!(!root.is_removable);
    let usb = macos_disk_entry("msdos", "/dev/disk4s1", "/Volumes/USB", 512, 10, 5, DiskKind::Hdd).unwrap();
    assert_eq!(usb.kind, DiskKind::Hdd);
    assert_eq!(usb.name, "USB");
    assert!(usb.is_removable);
    assert!(macos_disk_entry("devfs", "/dev/disk1", "/dev", 512, 1, 1, DiskKind::Ssd).is_none());
    assert!(macos_disk_entry("autofs", "map auto_home", "/home", 512, 1, 1, DiskKind::Ssd).is_none());
    assert!(macos_disk_entry("apfs", "map auto_home", "/home", 512, 1, 1, DiskKind::Ssd).is_none());
}

#[test]
fn macos_gpu_records() {
    let m = macos_gpu(s("Apple M2"), s("sppci_vendor_Apple"), s("8 GB"), s("spdisplays_metal3"));
    assert_eq!(m.name, "Apple M2");
    assert_eq!(m.vendor, "Apple");
    assert_eq!(m.vram_mb, 8192);
    assert_eq!(m.driver_version, "spdisplays_metal3");
    let a = macos_gpu(s("AMD Radeon Pro 5500M"), s("sppci_vendor_amd"), s("1536 MB"), None);
    assert_eq!(a.vendor, "AMD");
    assert_eq!(a.vram_mb, 1536);
    assert_eq!(a.driver_version, "");
    let u = macos_gpu(None, None, s("4096"), None);
    assert_eq!(u.name, "Unknown GPU");
    assert_eq!(u.vendor, "Unknown");
    assert_eq!(u.vram_mb, 4096);
    let w = macos_gpu(s("Mystery"), s("weird"), s("lots"), None);
    assert_eq!(w.vendor, "weird");
    assert_eq!(w.vram_mb, 0);
    let n = macos_gpu(s("NVIDIA GeForce GT 750M"), None, s("2 gb"), None);
    assert_eq!(n.vendor, "NVIDIA");
    assert_eq!(n.vram_mb, 2048);
}

#[test]
fn macos_power_entries_make_a_battery() {
    let charge = PowerEntry {
        has_charge_info: true,
        current_capacity: Some(80),
        max_capacity: Some(100),
        is_charging: Some(false),
        ..no_power()
    };
    let health = PowerEntry { has_health_info: true, cycle_count: Some(300), ..no_power() };
    let ac = PowerEntry { has_ac_info: true, charger_connected: Some(true), ..no_power() };
    let model = PowerEntry { has_model_info: true, design_capacity: Some(5000), ..no_power() };
    let sum = macos_power_summary(&vec![charge, health, ac, model]);
    assert!(sum.has_battery);
    assert_eq!(sum.charge, Some(ChargeLevel { current: 80, max: 100 }));
    assert!(!sum.is_charging);
    assert!(sum.is_connected);
    assert_eq!(sum.cycle_count, Some(300));
    assert_eq!(sum.max_capacity, Some(100));
    assert_eq!(sum.design_capacity, Some(5000));
    let b = macos_battery(&sum, false).unwrap();
    assert_eq!(b.status, BatteryStatus::NotCharging);
    assert_eq!(b.cycle_count, Some(300));
    assert_eq!(b.design_capacity_mwh, Some(5000));
    assert_eq!(b.full_charge_capacity_mwh, Some(100));
    assert_eq!(b.time_to_empty_secs, None);
    assert_eq!(macos_battery(&sum, true).unwrap().status, BatteryStatus::Full);
}

#[test]
fn macos_power_later_entries_override() {
    let first = PowerEntry {
        has_charge_info: true,
        current_capacity: Some(50),
        max_capacity: Some(90),
        is_charging: Some(true),
        ..no_power()
    };
    let zero_max = PowerEntry {
        has_charge_info: true,
        current_capacity: Some(10),
        max_capacity: Some(0),
        ..no_power()
    };
    let sum = macos_power_summary(&vec![first, zero_max]);
    assert_eq!(sum.charge, Some(ChargeLevel { current: 50, max: 90 }));
    assert_eq!(sum.max_capacity, Some(0));
    assert!(sum.is_charging);
    assert_eq!(macos_battery(&sum, false).unwrap().status, BatteryStatus::Charging);
    let ac_only = macos_power_summary(&vec![PowerEntry {
        has_ac_info: true,
        charger_connected: Some(true),
        ..no_power()
    }]);
    assert!(macos_battery(&ac_only, false).is_none());
    assert!(macos_battery(&macos_power_summary(&vec![]), false).is_none());
    let discharging = macos_power_summary(&vec![PowerEntry { has_health_info: true, ..no_power() }]);
    assert_eq!(macos_battery(&discharging, false).unwrap().status, BatteryStatus::Discharging);
}

#[test]
fn macos_resolution_texts() {
    let r = parse_macos_resolution("3456 x 2234 @ 120.00Hz");
    assert_eq!((r.width, r.height), (3456, 2234));
    assert_eq!(r.refresh, Some("120.00".to_string()));
    let f = parse_macos_resolution("1920 x 1080 (1080p FHD - Full High Definition)");
    assert_eq!((f.width, f.height), (1920, 1080));
    assert_eq!(f.refresh, None);
    let g = parse_macos_resolution("garbage");
    assert_eq!((g.width, g.height), (0, 0));
    assert_eq!(g.refresh, None);
}

#[test]
fn macos_display_list() {
    let entries = vec![
        MacDisplayEntry {
            name: s("Built-in Liquid Retina XDR Display"),
            resolution: s("3024 x 1964 @ 120.00Hz"),
            retina: s("spdisplays_yes"),
            main: None,
        },
        MacDisplayEntry { name: None, resolution: s("bad"), retina: None, main: None },
        MacDisplayEntry {
            name: s("DELL U2720Q"),
            resolution: s("2560 x 1440"),
            retina: None,
            main: s("spdisplays_yes"),
        },
        MacDisplayEntry { name: None, resolution: s("800 x 600"), retina: s("spdisplays_no"), main: None },
    ];
    let ds = macos_displays(&entries);
    assert_eq!(ds.len(), 3);
    assert_eq!(ds[0].name, "Built-in Liquid Retina XDR Display");
    assert_eq!((ds[0].width, ds[0].height, ds[0].dpi), (3024, 1964, 144));
    assert_eq!(ds[0].refresh, Some("120.00".to_string()));
    assert!(ds[0].is_primary);
    assert_eq!(ds[1].name, "DELL U2720Q");
    assert_eq!((ds[1].width, ds[1].height, ds[1].dpi), (2560, 1440, 72));
    assert!(ds[1].is_primary);
    assert_eq!(ds[2].name, "Unknown Display");
    assert!(!ds[2].is_primary);
    assert_eq!(ds[2].dpi, 72);
}

#[test]
fn macos_link_level_mac() {
    let data = vec![b'e', b'n', 0x00, 0x1a, 0x2b, 0x3c, 0x4d, 0x5e, 0, 0, 0, 0];
    assert_eq!(mac_from_link(6, 2, &data), Some("00:1a:2b:3c:4d:5e".to_string()));
    assert_eq!(mac_from_link(0, 2, &data), None);
}

fn jstr(t: &str) -> JsonValue {
    JsonValue::Str(t.to_string())
}

fn obj(ms: Vec<(&str, JsonValue)>) -> JsonValue {
    JsonValue::Object(ms.into_iter().map(|(k, v)| (k.to_string(), v)).collect())
}

#[test]
fn disk_candidates_and_solid_state() {
    assert!(macos_disk_candidate("apfs", "/dev/disk3s1"));
    assert!(!macos_disk_candidate("devfs", "/dev/disk3s1"));
    assert!(!macos_disk_candidate("apfs", "map auto_home"));
    let ssd = "   Device Node:               /dev/disk3s1\n   Solid State:               Yes\n";
    assert_eq!(diskutil_kind(Some(ssd)), DiskKind::Ssd);
    assert_eq!(diskutil_kind(Some("   Solid State:   No\n")), DiskKind::Hdd);
    assert_eq!(diskutil_kind(Some("   Solid State:   Info not available\n")), DiskKind::Unknown);
    assert_eq!(diskutil_kind(Some("   Device Node: /dev/disk2\n")), DiskKind::Unknown);
    assert_eq!(diskutil_kind(None), DiskKind::Unknown);
}

#[test]
fn power_document_entries() {
    let doc = obj(vec![(
        "SPPowerDataType",
        JsonValue::Array(vec![
            obj(vec![(
                "sppower_battery_charge_info",
                obj(vec![
                    ("sppower_battery_current_capacity", JsonValue::UInt(80)),
                    ("sppower_battery_max_capacity", jstr("100")),
                    ("sppower_battery_is_charging", jstr("FALSE")),
                ]),
            )]),
            obj(vec![(
                "sppower_battery_health_info",
                obj(vec![
                    ("sppower_battery_cycle_count", jstr("x")),
                    ("sppower_battery_health_maximum_capacity", jstr("91%")),
                ]),
            )]),
            obj(vec![(
                "sppower_ac_charger_information",
                obj(vec![("sppower_battery_charger_connected", JsonValue::Bool(true))]),
            )]),
            obj(vec![(
                "sppower_battery_model_info",
                obj(vec![
                    ("sppower_battery_design_capacity", JsonValue::UInt(5000)),
                    ("sppower_battery_design_capacity", JsonValue::UInt(6000)),
                ]),
            )]),
            jstr("not an object"),
        ]),
    )]);
    let es = power_entries(&doc).unwrap();
    assert_eq!(es.len(), 5);
    assert!(es[0].has_charge_info);
    assert_eq!(es[0].current_capacity, Some(80));
    assert_eq!(es[0].max_capacity, Some(100));
    assert_eq!(es[0].is_charging, Some(false));
    assert!(es[1].has_health_info);
    assert_eq!(es[1].cycle_count, None);
    assert_eq!(es[1].health_text, Some("91".to_string()));
    assert_eq!(es[2].charger_connected, Some(true));
    assert_eq!(es[3].design_capacity, Some(6000));
    assert!(!es[4].has_charge_info && !es[4].has_health_info && !es[4].has_model_info);
    let sum = macos_power_summary(&es);
    assert_eq!(sum.charge, Some(ChargeLevel { current: 80, max: 100 }));
    assert!(sum.is_connected);
    assert_eq!(power_entries(&obj(vec![("SPPowerDataType", jstr("none"))])).map(|v| v.len()), None);
    assert!(power_entries(&obj(vec![])).is_none());
    assert!(power_entries(&JsonValue::Null).is_none());
    let numeric = obj(vec![(
        "SPPowerDataType",
        JsonValue::Array(vec![obj(vec![(
            "sppower_battery_health_info",
            obj(vec![("sppower_battery_health_maximum_capacity", JsonValue::UInt(88))]),
        )])]),
    )]);
    assert_eq!(power_entries(&numeric).unwrap()[0].health_text, Some("88".to_string()));
}

#[test]
fn display_document_fields() {
    let doc = obj(vec![(
        "SPDisplaysDataType",
        JsonValue::Array(vec![
            obj(vec![
                ("_name", jstr("kHW_AppleM2Item")),
                ("sppci_model", jstr("Apple M2")),
                ("sppci_vendor", jstr("sppci_vendor_Apple")),
                ("spdisplays_metal", jstr("spdisplays_metal3")),
                (
                    "spdisplays_ndrvs",
                    JsonValue::Array(vec![
                        obj(vec![
                            ("_name", jstr("Built-in")),
                            ("_spdisplays_resolution", jstr("3024 x 1964 @ 120.00Hz")),
                            ("spdisplays_retina", jstr("spdisplays_yes")),
                        ]),
                        obj(vec![("_name", JsonValue::UInt(3))]),
                    ]),
                ),
            ]),
            obj(vec![
                ("_name", jstr("Radeon")),
                ("sppci_model", JsonValue::UInt(1)),
                ("_spdisplays_vram", jstr("4 GB")),
                ("spdisplays_ndrvs", jstr("none")),
            ]),
            obj(vec![
                ("spdisplays_ndrvs", JsonValue::Array(vec![obj(vec![("spdisplays_main", jstr("spdisplays_yes"))])])),
            ]),
        ]),
    )]);
    let g = gpu_fields(&doc);
    assert_eq!(g.len(), 3);
    assert_eq!(g[0], (Some("Apple M2".to_string()), Some("sppci_vendor_Apple".to_string()), None, Some("spdisplays_metal3".to_string())));
    assert_eq!(g[1], (None, None, Some("4 GB".to_string()), None));
    assert_eq!(g[2], (None, None, None, None));
    let d = display_entries(&doc);
    assert_eq!(d.len(), 3);
    assert_eq!(d[0].name, Some("Built-in".to_string()));
    assert_eq!(d[0].resolution, Some("3024 x 1964 @ 120.00Hz".to_string()));
    assert_eq!(d[0].retina, Some("spdisplays_yes".to_string()));
    assert_eq!(d[1].name, None);
    assert_eq!(d[2].main, Some("spdisplays_yes".to_string()));
    assert!(gpu_fields(&obj(vec![])).is_empty());
    assert!(display_entries(&JsonValue::Null).is_empty());
}

#[test]
fn link_addresses_after_long_names() {
    let mut data: Vec<u8> = b"bridge0".to_vec();
    data.extend_from_slice(&[0x02, 0, 0, 0, 0, 0x01]);
    data.extend_from_slice(&[0, 0, 0]);
    assert_eq!(mac_from_link(6, 7, &data), Some("02:00:00:00:00:01".to_string()));
    assert_eq!(mac_from_link(6, 7, &data[..12].to_vec()), None);
    assert_eq!(mac_from_link(6, 0, &vec![]), None);
}
