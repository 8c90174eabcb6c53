use tauri_plugin_system::linux::display::{drm_displays, parse_xrandr, DrmConnector};
use tauri_plugin_system::linux::gpu::{
    amd_vram_mb, card_vram_mb, driver_version, driver_version_source, gpu_label, gpu_vendor_id,
    gpus_from_lspci,
    is_drm_card, linux_gpu_name, linux_gpu_vendor, lspci_device_name, nvidia_vram_mb,
    pci_slot_name, DriverSource,
};
use tauri_plugin_system::linux::power::{
    battery_status, hwmon_reading, hwmon_temp_index, is_battery_type, is_thermal_zone,
    linux_battery, thermal_zone_reading, BatteryFiles, TripPoint,
};
use tauri_plugin_system::linux::{
    cpu_time_deltas, is_up_from_operstate, linux_base_device, linux_cpu_info, linux_disk_entry,
    linux_memory_info, linux_net_table, linux_os_info, mac_from_address_file, mount_entries,
    parse_os_release, parse_proc_cpuinfo, parse_proc_stat, uptime_field, CpuTimes, FsStat,
    LinuxSystemInfo, MountEntry, MountError, SampleError,
};
use tauri_plugin_system::models::{BatteryStatus, DiskKind};

fn s(v: &[char]) -> String {
    v.iter().collect()
}

#[test]
fn os_release_entries_strip_quotes_and_keep_order() {
    let e = parse_os_release("NAME=\"Ubuntu\"\nVERSION_ID='22.04'\nBAD LINE\nID=ubuntu\n");
    let pairs: Vec<(String, String)> = e.iter().map(|(k, v)| (s(k), s(v))).collect();
    assert_eq!(
        pairs,
        vec![
            ("NAME".to_string(), "Ubuntu".to_string()),
            ("VERSION_ID".to_string(), "22.04".to_string()),
            ("ID".to_string(), "ubuntu".to_string()),
        ]
    );
}

#[test]
fn linux_os_info_prefers_pretty_name_and_version() {
    let text = "NAME=\"Ubuntu\"\nVERSION=\"22.04.3 LTS (Jammy Jellyfish)\"\nVERSION_ID=\"22.04\"\nPRETTY_NAME=\"Ubuntu 22.04.3 LTS\"\n";
    let info = linux_os_info(text, None, Some("myhost\n"), "x86_64", 42, Some("alice".to_string()));
    assert_eq!(info.name, "Ubuntu 22.04.3 LTS");
    assert_eq!(info.version, "22.04");
    assert_eq!(info.full_version, "Ubuntu 22.04.3 LTS (Jammy Jellyfish)");
    assert_eq!(info.hostname, "myhost");
    assert_eq!(info.arch, "x86_64");
    assert_eq!(info.uptime_secs, 42);
    assert_eq!(info.username, "alice");
}

#[test]
fn linux_os_info_falls_back_to_kernel_release() {
    let info = linux_os_info(
        "NAME=Arch\n",
        Some("Linux version 6.1.0-arch1 (gcc) #1 SMP\n"),
        None,
        "aarch64",
        0,
        None,
    );
    assert_eq!(info.name, "Arch");
    assert_eq!(info.version, "unknown");
    assert_eq!(info.full_version, "Arch (kernel 6.1.0-arch1)");
    assert_eq!(info.hostname, "unknown");
    assert_eq!(info.username, "unknown");
    let bare = linux_os_info("", None, None, "x86", 0, None);
    assert_eq!(bare.name, "Linux");
    assert_eq!(bare.full_version, "Linux");
    let short = linux_os_info("", Some("Linux"), None, "x86", 0, None);
    assert_eq!(short.full_version, "Linux (kernel unknown)");
}

#[test]
fn later_os_release_entry_overrides_earlier() {
    let info = linux_os_info("NAME=A\nNAME=B\n", None, None, "x", 0, None);
    assert_eq!(info.name, "B");
}

#[test]
fn uptime_field_is_first_word() {
    assert_eq!(uptime_field("12345.67 54321.00\n"), Some("12345.67".to_string()));
    assert_eq!(uptime_field("   \n"), None);
}

const CPUINFO: &str = "processor\t: 0\nvendor_id\t: GenuineIntel\nmodel name\t: Intel(R) Core(TM) i7\ncpu MHz\t\t: 2400.000\ncore id\t\t: 0\ncpu cores\t: 2\n\nprocessor\t: 1\nvendor_id\t: GenuineIntel\nmodel name\t: Other\ncpu MHz\t\t: 1800.000\ncore id\t\t: 1\n\nprocessor\t: 2\ncore id\t\t: 0\n";

#[test]
fn cpuinfo_counts_threads_and_distinct_cores() {
    let f = parse_proc_cpuinfo(CPUINFO);
    assert_eq!(f.model, "Intel(R) Core(TM) i7");
    assert_eq!(f.vendor, "GenuineIntel");
    assert_eq!(f.threads, 3);
    assert_eq!(f.cores, 2);
    assert_eq!(f.mhz_values, vec!["2400.000".to_string(), "1800.000".to_string()]);
}

#[test]
fn cpuinfo_cores_fall_back_to_cpu_cores_then_threads() {
    let f = parse_proc_cpuinfo("processor : 0\ncpu cores : x\ncpu cores : 4\nprocessor : 1\n");
    assert_eq!(f.cores, 4);
    assert_eq!(f.threads, 2);
    let g = parse_proc_cpuinfo("processor : 0\nprocessor : 1\nprocessor : 2\n");
    assert_eq!(g.cores, 3);
    let h = parse_proc_cpuinfo("model name :\nmodel name : Late\n");
    assert_eq!(h.model, "Late");
}

#[test]
fn linux_cpu_info_defaults_and_frequency() {
    let f = parse_proc_cpuinfo("processor : 0\ncpu MHz : 0.5\ncpu MHz : 3000.1\n");
    let info = linux_cpu_info(f, &vec![0, 3000], None, "x86_64");
    assert_eq!(info.model, "Unknown CPU");
    assert_eq!(info.vendor, "Unknown");
    assert_eq!(info.frequency_mhz, 3000);
    let g = parse_proc_cpuinfo("processor : 0\n");
    let info2 = linux_cpu_info(g, &vec![], Some("3600000\n"), "x86_64");
    assert_eq!(info2.frequency_mhz, 3600);
    let h = parse_proc_cpuinfo("processor : 0\n");
    let info3 = linux_cpu_info(h, &vec![], Some("garbage"), "x86_64");
    assert_eq!(info3.frequency_mhz, 0);
}

#[test]
fn proc_stat_skips_total_line_and_sums_fields() {
    let text = "cpu  10 10 10 10 10 10 10 10 0 0\ncpu0 1 2 3 4 5 6 7 8 0 0\ncpu1 1 1 1 1 1 1 1\ncpu2 1 x 1 1 1 1 1\nintr 5\n";
    let t = parse_proc_stat(text);
    assert_eq!(
        t,
        vec![
            CpuTimes { total: 36, idle_total: 9 },
            CpuTimes { total: 7, idle_total: 2 },
            CpuTimes { total: 6, idle_total: 2 }
        ]
    );
}

#[test]
fn proc_stat_sum_wraps() {
    let t = parse_proc_stat("cpu0 18446744073709551615 1 0 0 0 0 0\n");
    assert_eq!(t, vec![CpuTimes { total: 0, idle_total: 0 }]);
}

#[test]
fn cpu_time_deltas_floor_at_zero_and_detect_count_change() {
    let a = vec![CpuTimes { total: 100, idle_total: 50 }];
    let b = vec![CpuTimes { total: 150, idle_total: 40 }];
    assert_eq!(cpu_time_deltas(&a, &b), Ok(vec![(50, 0)]));
    assert_eq!(cpu_time_deltas(&a, &vec![]), Err(SampleError::CpuCountChanged));
}

#[test]
fn meminfo_gives_memory_record() {
    let text = "MemTotal:       16384000 kB\nMemFree:         1000000 kB\nMemAvailable:    8000000 kB\nSwapTotal:       2000000 kB\nSwapFree:        1500000 kB\n";
    let m = linux_memory_info(text);
    assert_eq!(m.total_bytes, 16384000 * 1024);
    assert_eq!(m.free_bytes, 1000000 * 1024);
    assert_eq!(m.available_bytes, 8000000 * 1024);
    assert_eq!(m.used_bytes, (16384000 - 8000000) * 1024);
    assert_eq!(m.swap_total_bytes, 2000000 * 1024);
    assert_eq!(m.swap_used_bytes, 500000 * 1024);
}

#[test]
fn meminfo_available_falls_back_to_free() {
    let m = linux_memory_info("MemTotal: 100 kB\nMemFree: 300 kB\nBogus: x kB\nEmpty:\n");
    assert_eq!(m.available_bytes, 300 * 1024);
    assert_eq!(m.used_bytes, 0);
    assert_eq!(m.swap_used_bytes, 0);
}

#[test]
fn mount_entries_skip_pseudo_and_non_devices() {
    let text = "proc /proc proc rw 0 0\n/dev/sda1 / ext4 rw,relatime 0 0\ntmpfs /tmp tmpfs rw 0 0\n/dev/nvme0n1p2 /home btrfs rw 0 0\nshort line\n";
    let m = mount_entries(text).unwrap();
    let got: Vec<(String, String, String)> = m
        .iter()
        .map(|e| (e.device.clone(), e.mount_point.clone(), e.fs_type.clone()))
        .collect();
    assert_eq!(
        got,
        vec![
            ("/dev/sda1".to_string(), "/".to_string(), "ext4".to_string()),
            ("/dev/nvme0n1p2".to_string(), "/home".to_string(), "btrfs".to_string()),
        ]
    );
}

#[test]
fn mount_entries_reject_nul_in_mount_point() {
    let r = mount_entries("/dev/sda1 /a\0b ext4 rw 0 0\n");
    assert_eq!(r.err(), Some(MountError::NulByte { position: 2 }));
    let first = mount_entries("/dev/sda1 /mnt/\u{e9}\0x ext4 rw 0 0\n/dev/sdb1 /b\0 ext4 rw 0 0\n");
    assert_eq!(first.err(), Some(MountError::NulByte { position: 7 }));
    let skipped = mount_entries("proc /p\0 proc rw 0 0\n/dev/sda1 / ext4 rw 0 0\n");
    assert_eq!(skipped.map(|v| v.len()), Ok(1));
}

#[test]
fn base_device_strips_partitions() {
    assert_eq!(linux_base_device("/dev/sda1"), "sda");
    assert_eq!(linux_base_device("/dev/nvme0n1p1"), "nvme0n1");
    assert_eq!(linux_base_device("/dev/mmcblk0p2"), "mmcblk0");
    assert_eq!(linux_base_device("/dev/nvme0n1"), "nvme0n1");
    assert_eq!(linux_base_device("/dev/mapper/root"), "root");
    assert_eq!(linux_base_device("vda12"), "vda");
}

#[test]
fn disk_entry_sizes_kind_and_removable() {
    let e = MountEntry {
        device: "/dev/sda1".to_string(),
        mount_point: "/".to_string(),
        fs_type: "ext4".to_string(),
    };
    let st = FsStat { block_size: 4096, blocks: 1000, blocks_free: 250 };
    let d = linux_disk_entry(&e, Some(st), Some("0\n"), Some("1\n")).unwrap();
    assert_eq!(d.name, "sda1");
    assert_eq!(d.total_bytes, 4096000);
    assert_eq!(d.free_bytes, 1024000);
    assert_eq!(d.used_bytes, 3072000);
    assert_eq!(d.kind, DiskKind::Ssd);
    assert!(d.is_removable);
    let h = linux_disk_entry(&e, Some(st), Some("1"), None).unwrap();
    assert_eq!(h.kind, DiskKind::Hdd);
    assert!(!h.is_removable);
    let u = linux_disk_entry(&e, Some(st), Some("2"), Some("0")).unwrap();
    assert_eq!(u.kind, DiskKind::Unknown);
    assert!(linux_disk_entry(&e, None, None, None).is_none());
    let empty = FsStat { block_size: 4096, blocks: 0, blocks_free: 0 };
    assert!(linux_disk_entry(&e, Some(empty), None, None).is_none());
}

#[test]
fn drm_cards_and_vendor_ids() {
    assert!(is_drm_card("card0"));
    assert!(is_drm_card("card"));
    assert!(!is_drm_card("card0-HDMI-A-1"));
    assert!(!is_drm_card("renderD128"));
    assert_eq!(gpu_vendor_id(Some("0x10de\n")), 0x10de);
    assert_eq!(gpu_vendor_id(Some("0x0x1002")), 0x1002);
    assert_eq!(gpu_vendor_id(Some("zz")), 0);
    assert_eq!(gpu_vendor_id(None), 0);
}

#[test]
fn linux_gpu_vendor_names() {
    assert_eq!(linux_gpu_vendor(0x10de), "NVIDIA");
    assert_eq!(linux_gpu_vendor(0x1002), "AMD");
    assert_eq!(linux_gpu_vendor(0x8086), "Intel");
    assert_eq!(linux_gpu_vendor(0x106b), "Apple");
    assert_eq!(linux_gpu_vendor(0x1a03), "ASPEED");
    assert_eq!(linux_gpu_vendor(0), "Unknown");
    assert_eq!(linux_gpu_vendor(0x1af4), "Unknown (0x1af4)");
    assert_eq!(linux_gpu_vendor(0xab), "Unknown (0x00ab)");
}

#[test]
fn gpu_names_from_label_lspci_or_vendor() {
    assert_eq!(pci_slot_name("DRIVER=i915\nPCI_SLOT_NAME=0000:00:02.0\n"), Some("0000:00:02.0".to_string()));
    assert_eq!(pci_slot_name("DRIVER=i915\n"), None);
    let out = "00:02.0 VGA compatible controller: Intel Corporation UHD Graphics 620\n";
    assert_eq!(lspci_device_name(out), Some("Intel Corporation UHD Graphics 620".to_string()));
    assert_eq!(linux_gpu_name(Some("  My Card \n"), Some(out), "Intel"), "My Card");
    assert_eq!(linux_gpu_name(Some("  "), Some(out), "Intel"), "Intel Corporation UHD Graphics 620");
    assert_eq!(linux_gpu_name(None, Some("no colon"), "AMD"), "AMD GPU");
    assert_eq!(linux_gpu_name(None, None, "NVIDIA"), "NVIDIA GPU");
}

#[test]
fn gpu_memory_sizes() {
    assert_eq!(amd_vram_mb("8589934592\n"), Some(8192));
    assert_eq!(amd_vram_mb("n/a"), None);
    let info = "Model: \t GeForce\nVideo BIOS Memory: 99 MB\nFB Size: 8192 MB\nMemory: 4 MB\n";
    assert_eq!(nvidia_vram_mb(info), Some(8192));
    assert_eq!(nvidia_vram_mb("Memory: lots\n"), None);
}

#[test]
fn driver_versions() {
    assert_eq!(driver_version_source(0x10de), DriverSource::NvidiaModule);
    assert_eq!(driver_version_source(0x1002), DriverSource::AmdgpuModule);
    assert_eq!(driver_version_source(0x8086), DriverSource::KernelRelease);
    assert_eq!(driver_version(DriverSource::NvidiaModule, Some("535.54\n")), "535.54");
    assert_eq!(driver_version(DriverSource::AmdgpuModule, None), "");
    assert_eq!(driver_version(DriverSource::KernelRelease, Some("Linux version 6.5.0 x")), "6.5.0");
    assert_eq!(driver_version(DriverSource::KernelRelease, Some("Linux version")), "");
}

#[test]
fn gpus_from_lspci_output() {
    let out = "00:00.0 Host bridge: Intel Corporation X\n00:02.0 VGA compatible controller: Intel Corporation UHD\n01:00.0 3D controller: NVIDIA Corporation GA107\n02:00.0 Display controller: Advanced Micro Devices [AMD/ATI] Navi\n";
    let g = gpus_from_lspci(out);
    let got: Vec<(String, String)> = g.iter().map(|x| (x.name.clone(), x.vendor.clone())).collect();
    assert_eq!(
        got,
        vec![
            ("Intel Corporation UHD".to_string(), "Intel".to_string()),
            ("NVIDIA Corporation GA107".to_string(), "NVIDIA".to_string()),
            ("Advanced Micro Devices [AMD/ATI] Navi".to_string(), "AMD".to_string()),
        ]
    );
    assert!(g.iter().all(|x| x.vram_mb == 0 && x.driver_version.is_empty()));
}

fn no_files() -> BatteryFiles {
    BatteryFiles {
        status: None,
        cycle_count: None,
        energy_full_design: None,
        charge_full_design: None,
        voltage_min_design: None,
        energy_full: None,
        charge_full: None,
        time_to_empty_avg: None,
        time_to_full_avg: None,
        energy_now: None,
        power_now: None,
    }
}

#[test]
fn battery_type_and_status() {
    assert!(is_battery_type("Battery\n"));
    assert!(!is_battery_type("Mains\n"));
    assert_eq!(battery_status(Some("Charging\n")), BatteryStatus::Charging);
    assert_eq!(battery_status(Some("Discharging")), BatteryStatus::Discharging);
    assert_eq!(battery_status(Some("Full")), BatteryStatus::Full);
    assert_eq!(battery_status(Some("Not charging")), BatteryStatus::NotCharging);
    assert_eq!(battery_status(Some("Weird")), BatteryStatus::Unknown);
    assert_eq!(battery_status(None), BatteryStatus::Unknown);
}

#[test]
fn battery_capacities_and_times_while_discharging() {
    let mut f = no_files();
    f.status = Some("Discharging\n".to_string());
    f.cycle_count = Some("42\n".to_string());
    f.energy_full_design = Some("50000000\n".to_string());
    f.energy_full = Some("45000000\n".to_string());
    f.energy_now = Some("22500000\n".to_string());
    f.power_now = Some("11250000\n".to_string());
    let r = linux_battery(&f);
    assert_eq!(r.status, BatteryStatus::Discharging);
    assert_eq!(r.cycle_count, Some(42));
    assert_eq!(r.design_capacity_mwh, Some(50000));
    assert_eq!(r.full_charge_capacity_mwh, Some(45000));
    assert_eq!(r.time_to_empty_secs, Some(7200));
    assert_eq!(r.time_to_full_secs, None);
}

#[test]
fn battery_charge_based_capacity_and_time_to_full() {
    let mut f = no_files();
    f.status = Some("Charging".to_string());
    f.charge_full_design = Some("5000000".to_string());
    f.charge_full = Some("4000000".to_string());
    f.voltage_min_design = Some("7400000".to_string());
    f.energy_now = Some("10000000".to_string());
    f.energy_full = Some("40000000".to_string());
    f.power_now = Some("15000000".to_string());
    let r = linux_battery(&f);
    assert_eq!(r.design_capacity_mwh, Some(37000));
    assert_eq!(r.full_charge_capacity_mwh, Some(40000000 / 1000));
    assert_eq!(r.time_to_full_secs, Some(7200));
    assert_eq!(r.time_to_empty_secs, None);
    let mut g = no_files();
    g.charge_full_design = Some("1000000".to_string());
    assert_eq!(linux_battery(&g).design_capacity_mwh, Some(3700));
    let mut h = no_files();
    h.status = Some("Discharging".to_string());
    h.energy_now = Some("100".to_string());
    h.power_now = Some("0".to_string());
    assert_eq!(linux_battery(&h).time_to_empty_secs, None);
    h.time_to_empty_avg = Some("77".to_string());
    assert_eq!(linux_battery(&h).time_to_empty_secs, Some(77));
}

#[test]
fn thermal_zone_readings() {
    assert!(is_thermal_zone("thermal_zone0"));
    assert!(!is_thermal_zone("cooling_device0"));
    let trips = vec![
        TripPoint { kind: Some("passive\n".to_string()), temp: Some("90000".to_string()) },
        TripPoint { kind: Some("critical\n".to_string()), temp: Some("bad".to_string()) },
        TripPoint { kind: Some("critical\n".to_string()), temp: Some("105000\n".to_string()) },
    ];
    let r = thermal_zone_reading("thermal_zone0", Some("45000\n"), Some("x86_pkg_temp\n"), &trips).unwrap();
    assert_eq!(r.label, "x86_pkg_temp");
    assert_eq!(r.millidegrees, 45000);
    assert_eq!(r.critical_millidegrees, Some(105000));
    let n = thermal_zone_reading("thermal_zone1", Some("-5000"), None, &vec![]).unwrap();
    assert_eq!(n.label, "thermal_zone1");
    assert_eq!(n.millidegrees, -5000);
    assert_eq!(n.critical_millidegrees, None);
    assert!(thermal_zone_reading("z", Some("hot"), None, &vec![]).is_none());
    assert!(thermal_zone_reading("z", None, None, &vec![]).is_none());
}

#[test]
fn hwmon_readings() {
    assert_eq!(hwmon_temp_index("temp1_input"), Some("1".to_string()));
    assert_eq!(hwmon_temp_index("temp_input"), Some("".to_string()));
    assert_eq!(hwmon_temp_index("temp1_label"), None);
    assert_eq!(hwmon_temp_index("fan1_input"), None);
    let r = hwmon_reading(Some("52000\n"), None, Some("coretemp\n"), "hwmon3", Some("100000")).unwrap();
    assert_eq!(r.label, "coretemp");
    assert_eq!(r.millidegrees, 52000);
    assert_eq!(r.critical_millidegrees, Some(100000));
    let l = hwmon_reading(Some("1"), Some("Core 0\n"), Some("coretemp"), "hwmon3", None).unwrap();
    assert_eq!(l.label, "Core 0");
    let e = hwmon_reading(Some("1"), None, None, "hwmon3", Some("x")).unwrap();
    assert_eq!(e.label, "hwmon3");
    assert_eq!(e.critical_millidegrees, None);
}

#[test]
fn net_dev_table_records_counters() {
    let text = "Inter-|   Receive                                                |  Transmit\n face |bytes    packets errs drop fifo frame compressed multicast|bytes    packets errs drop fifo colls carrier compressed\n    lo: 1000 10 0 0 0 0 0 0 2000 20 0 0 0 0 0 0\n  eth0: 5 1 0 0 0 0 0 0 7 1 0 0 0 0 0 0\n  eth0: 9 1 0 0 0 0 0 0 11 1 0 0 0 0 0 0\n  wlan0: 3\n";
    let t = linux_net_table(text);
    let v = t.into_vec();
    let got: Vec<(String, u64, u64, bool)> =
        v.iter().map(|n| (n.name.clone(), n.rx_bytes, n.tx_bytes, n.is_up)).collect();
    assert_eq!(
        got,
        vec![
            ("lo".to_string(), 1000, 2000, false),
            ("eth0".to_string(), 9, 11, false),
            ("wlan0".to_string(), 3, 0, false),
        ]
    );
    assert!(linux_net_table("only one line").into_vec().is_empty());
}

#[test]
fn link_files() {
    assert_eq!(mac_from_address_file("aa:bb:cc:dd:ee:ff\n"), "aa:bb:cc:dd:ee:ff");
    assert!(is_up_from_operstate("up\n"));
    assert!(!is_up_from_operstate("down\n"));
}

#[test]
fn xrandr_output_is_read() {
    let out = "Screen 0: minimum 320 x 200, current 5760 x 2160, maximum 16384 x 16384\neDP-1 connected primary 1920x1080+0+0 (normal left inverted right x axis y axis) 344mm x 193mm\n   1920x1080     60.00*+  59.97    59.96\n   1680x1050     59.95\nHDMI-1 connected 3840x2160+1920+0 (normal left inverted right x axis y axis) 600mm x 340mm\n   3840x2160     30.00 +  60.00*\nDP-1 disconnected (normal left inverted right x axis y axis)\nVIRTUAL connected (normal)\n   800x600      75.00*\n";
    let d = parse_xrandr(out);
    assert_eq!(d.len(), 3);
    assert_eq!(d[0].name, "eDP-1");
    assert_eq!((d[0].width, d[0].height), (1920, 1080));
    assert_eq!(d[0].width_mm, Some("344".to_string()));
    assert_eq!(d[0].refresh, Some("60.00".to_string()));
    assert!(d[0].is_primary);
    assert_eq!(d[1].name, "HDMI-1");
    assert_eq!((d[1].width, d[1].height), (3840, 2160));
    assert_eq!(d[1].refresh, Some("60.00".to_string()));
    assert!(!d[1].is_primary);
    assert_eq!(d[2].name, "VIRTUAL");
    assert_eq!((d[2].width, d[2].height), (800, 600));
    assert_eq!(d[2].width_mm, None);
}

#[test]
fn drm_connectors_give_displays() {
    let cs = vec![
        DrmConnector { name: "card0".to_string(), status: None, modes: None },
        DrmConnector {
            name: "card0-DP-1".to_string(),
            status: Some("disconnected\n".to_string()),
            modes: None,
        },
        DrmConnector {
            name: "card0-eDP-1".to_string(),
            status: Some("connected\n".to_string()),
            modes: Some("2560x1600\n1920x1200\n".to_string()),
        },
        DrmConnector {
            name: "card1-HDMI-A-1".to_string(),
            status: Some("connected".to_string()),
            modes: Some("1920x1080".to_string()),
        },
        DrmConnector {
            name: "card1-HDMI-A-2".to_string(),
            status: Some("connected".to_string()),
            modes: Some("".to_string()),
        },
    ];
    let d = drm_displays(&cs);
    let got: Vec<(String, u32, u32, bool)> =
        d.iter().map(|x| (x.name.clone(), x.width, x.height, x.is_primary)).collect();
    assert_eq!(
        got,
        vec![
            ("eDP-1".to_string(), 2560, 1600, true),
            ("HDMI-A-1".to_string(), 1920, 1080, false),
        ]
    );
}

#[test]
fn linux_source_is_made() {
    let _source = LinuxSystemInfo::new();
}

#[test]
fn gpu_labels_and_card_memory() {
    assert_eq!(gpu_label(Some("  Radeon RX 6800 \n")), Some("Radeon RX 6800".to_string()));
    assert_eq!(gpu_label(Some("  \n")), None);
    assert_eq!(gpu_label(None), None);
    let infos = vec![
        "Model: GeForce\nVideo BIOS: 90.04\n".to_string(),
        "Model: GeForce\nFB Size: 8192 MB\n".to_string(),
        "FB Size: 4096 MB\n".to_string(),
    ];
    assert_eq!(card_vram_mb(Some("17163091968\n"), &infos), 16368);
    assert_eq!(card_vram_mb(Some("n/a"), &infos), 8192);
    assert_eq!(card_vram_mb(None, &infos), 8192);
    assert_eq!(card_vram_mb(None, &vec![]), 0);
}
