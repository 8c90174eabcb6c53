use tauri_plugin_system::models::{BatteryStatus, DiskKind, MemoryInfo};
use tauri_plugin_system::windows::{
    arch_name, disk_kind_from_seek_penalty, drive_letter, drive_strings, is_software_adapter,
    processor_core_count, select_driver_version, vram_mb, wide_until_nul, windows_battery,
    windows_cpu_deltas, windows_cpu_info, windows_disk, windows_display, windows_gpu_vendor,
    windows_memory_info, windows_os_info, windows_version, DriverKey, WindowsBattery,
    WindowsSystemInfo,
};

fn wide(t: &str) -> Vec<u16> {
    t.encode_utf16().collect()
}

#[test]
fn windows_source_is_constructed() {
    let _ = WindowsSystemInfo::new();
}

#[test]
fn windows_architecture_names() {
    assert_eq!(arch_name(9), "x86_64");
    assert_eq!(arch_name(12), "aarch64");
    assert_eq!(arch_name(5), "arm");
    assert_eq!(arch_name(0), "x86");
    assert_eq!(arch_name(6), "ia64");
    assert_eq!(arch_name(99), "unknown");
}

#[test]
fn windows_version_names() {
    let w11 = windows_version(10, 0, 22631);
    assert_eq!(w11.name, "Windows 11");
    assert_eq!(w11.version, "10.0.22631");
    assert_eq!(w11.full_version, "Windows 11 (Build 22631)");
    assert_eq!(windows_version(10, 0, 19045).name, "Windows 10");
    assert_eq!(windows_version(10, 0, 22000).name, "Windows 11");
    assert_eq!(windows_version(6, 3, 9600).name, "Windows 8.1");
    assert_eq!(windows_version(6, 2, 9200).name, "Windows 8");
    assert_eq!(windows_version(6, 1, 7601).name, "Windows 7");
    assert_eq!(windows_version(6, 0, 6002).name, "Windows Vista");
    let xp = windows_version(5, 1, 2600);
    assert_eq!(xp.name, "Windows 5.1");
    assert_eq!(xp.full_version, "Windows 5.1 (Build 2600)");
}

#[test]
fn wide_strings_end_at_nul() {
    assert_eq!(wide_until_nul(&vec![72, 105, 0, 88]), vec![72, 105]);
    assert_eq!(wide_until_nul(&vec![72, 105]), vec![72, 105]);
    assert_eq!(wide_until_nul(&vec![0, 1]), Vec::<u16>::new());
}

#[test]
fn windows_cpu_record() {
    let c = windows_cpu_info(
        Some("  Intel(R) Core(TM) i7-10700  ".to_string()),
        None,
        Some(2904),
        16,
        None,
        "x86_64".to_string(),
    );
    assert_eq!(c.model, "Intel(R) Core(TM) i7-10700");
    assert_eq!(c.vendor, "Unknown");
    assert_eq!(c.cores, 16);
    assert_eq!(c.threads, 16);
    assert_eq!(c.frequency_mhz, 2904);
    let d = windows_cpu_info(None, Some("AuthenticAMD ".to_string()), None, 12, Some(6), "x86_64".to_string());
    assert_eq!(d.model, "Unknown CPU");
    assert_eq!(d.vendor, "AuthenticAMD");
    assert_eq!(d.cores, 6);
    assert_eq!(d.frequency_mhz, 0);
}

#[test]
fn windows_cpu_time_deltas() {
    let a = vec![(1, 2, 3)];
    let b = vec![(11, 12, 13), (0, 0, 0)];
    assert_eq!(windows_cpu_deltas(&a, &b), vec![(10, 10, 10)]);
    let w = windows_cpu_deltas(&vec![(i64::MAX, 0, 5)], &vec![(i64::MIN, 0, 2)]);
    assert_eq!(w, vec![(1, 0, -3)]);
}

#[test]
fn windows_memory_record() {
    let m = windows_memory_info(16, 6, 20, 8);
    assert_eq!(
        m,
        MemoryInfo {
            total_bytes: 16,
            used_bytes: 10,
            free_bytes: 6,
            available_bytes: 6,
            swap_total_bytes: 4,
            swap_used_bytes: 2,
        }
    );
    let odd = windows_memory_info(16, 20, 10, 9);
    assert_eq!(odd.used_bytes, 0);
    assert_eq!(odd.swap_total_bytes, 0);
    assert_eq!(odd.swap_used_bytes, 1);
}

#[test]
fn logical_drive_strings() {
    let buf = wide("C:\\\0D:\\\0\0");
    assert_eq!(drive_strings(&buf), vec![wide("C:\\"), wide("D:\\")]);
    assert_eq!(drive_strings(&wide("\0\0")), Vec::<Vec<u16>>::new());
    assert_eq!(drive_strings(&wide("E:\\")), Vec::<Vec<u16>>::new());
}

#[test]
fn drive_letters() {
    assert_eq!(drive_letter("C:\\"), Some('C'));
    assert_eq!(drive_letter("z:"), Some('z'));
    assert_eq!(drive_letter("1:"), None);
    assert_eq!(drive_letter(""), None);
}

#[test]
fn seek_penalty_kinds() {
    assert_eq!(disk_kind_from_seek_penalty(true, 12, 0), DiskKind::Ssd);
    assert_eq!(disk_kind_from_seek_penalty(true, 12, 1), DiskKind::Hdd);
    assert_eq!(disk_kind_from_seek_penalty(false, 12, 0), DiskKind::Unknown);
    assert_eq!(disk_kind_from_seek_penalty(true, 0, 0), DiskKind::Unknown);
}

#[test]
fn windows_disk_records() {
    let c = windows_disk(
        "C:\\",
        3,
        Some(("System".to_string(), "NTFS".to_string())),
        Some((1000, 400)),
        DiskKind::Ssd,
    )
    .unwrap();
    assert_eq!(c.name, "System");
    assert_eq!(c.mount_point, "C:");
    assert_eq!(c.fs_type, "NTFS");
    assert_eq!(c.kind, DiskKind::Ssd);
    assert_eq!((c.total_bytes, c.used_bytes, c.free_bytes), (1000, 600, 400));
    assert!(!c.is_removable);
    let e = windows_disk("E:\\", 2, None, Some((10, 20)), DiskKind::Unknown).unwrap();
    assert_eq!(e.name, "E:");
    assert_eq!(e.fs_type, "");
    assert_eq!(e.used_bytes, 0);
    assert!(e.is_removable);
    let cd = windows_disk("F:\\", 5, Some((String::new(), "CDFS".to_string())), Some((1, 1)), DiskKind::Unknown).unwrap();
    assert_eq!(cd.name, "F:");
    assert!(cd.is_removable);
    assert!(windows_disk("G:\\", 1, None, Some((1, 1)), DiskKind::Unknown).is_none());
    assert!(windows_disk("G:\\", 3, None, None, DiskKind::Unknown).is_none());
}

#[test]
fn windows_gpu_vendor_names() {
    assert_eq!(windows_gpu_vendor(0x10DE), "NVIDIA");
    assert_eq!(windows_gpu_vendor(0x1002), "AMD");
    assert_eq!(windows_gpu_vendor(0x1022), "AMD");
    assert_eq!(windows_gpu_vendor(0x8086), "Intel");
    assert_eq!(windows_gpu_vendor(0x106B), "Apple");
    assert_eq!(windows_gpu_vendor(0x1414), "Microsoft");
    assert_eq!(windows_gpu_vendor(0x5143), "Qualcomm");
    assert_eq!(windows_gpu_vendor(0xABC), "Unknown (0x0ABC)");
    assert_eq!(windows_gpu_vendor(0x12345), "Unknown (0x12345)");
}

#[test]
fn windows_adapter_flags_and_memory() {
    assert!(is_software_adapter(2));
    assert!(is_software_adapter(3));
    assert!(!is_software_adapter(1));
    assert_eq!(vram_mb(8 * 1048576 + 5), 8);
    assert_eq!(vram_mb(1048575), 0);
}

#[test]
fn windows_driver_versions() {
    let keys = vec![
        DriverKey { desc: Some("Intel UHD".to_string()), version: Some("1.0".to_string()) },
        DriverKey { desc: Some("other".to_string()), version: None },
        DriverKey {
            desc: Some("NVIDIA GeForce RTX 3080".to_string()),
            version: Some("31.0.15".to_string()),
        },
    ];
    assert_eq!(select_driver_version("NVIDIA GeForce RTX 3080", 1, &keys), "31.0.15");
    assert_eq!(select_driver_version("NVIDIA GeForce RTX 3080", 0, &keys), "1.0");
    assert_eq!(select_driver_version("Intel UHD Graphics 630", 7, &keys), "1.0");
    assert_eq!(select_driver_version("Matrox", 7, &keys), "");
}

#[test]
fn windows_battery_readings() {
    assert_eq!(
        windows_battery(1, 8, 50, u32::MAX, 7200),
        Some(WindowsBattery {
            charge_percent: 50,
            status: BatteryStatus::Charging,
            time_to_empty_secs: None,
            full_lifetime_secs: Some(7200),
        })
    );
    assert_eq!(windows_battery(0, 128, 50, 10, 20), None);
    assert_eq!(windows_battery(1, 0, 100, u32::MAX, u32::MAX).unwrap().status, BatteryStatus::Full);
    assert_eq!(windows_battery(1, 0, 60, u32::MAX, u32::MAX).unwrap().status, BatteryStatus::NotCharging);
    let d = windows_battery(0, 0, 255, 3600, u32::MAX).unwrap();
    assert_eq!(d.charge_percent, 0);
    assert_eq!(d.status, BatteryStatus::Discharging);
    assert_eq!(d.time_to_empty_secs, Some(3600));
    assert_eq!(d.full_lifetime_secs, None);
    assert_eq!(windows_battery(255, 0, 40, 1, 1).unwrap().status, BatteryStatus::Unknown);
    assert_eq!(windows_battery(1, 8, 100, 1, 7200).unwrap().full_lifetime_secs, None);
}

#[test]
fn windows_display_records() {
    let d = windows_display("\\\\.\\DISPLAY1".to_string(), Some("Dell".to_string()), 1 | 4, 2560, 1440, 144, 0)
        .unwrap();
    assert_eq!(d.name, "Dell");
    assert_eq!((d.width, d.height), (2560, 1440));
    assert_eq!(d.refresh_hz, Some(144));
    assert_eq!(d.dpi, 96);
    assert!(d.is_primary);
    let e = windows_display("\\\\.\\DISPLAY2".to_string(), Some(String::new()), 1, 1920, 1080, 1, 120).unwrap();
    assert_eq!(e.name, "\\\\.\\DISPLAY2");
    assert_eq!(e.refresh_hz, None);
    assert_eq!(e.dpi, 120);
    assert!(!e.is_primary);
    assert!(windows_display("x".to_string(), None, 4, 1, 1, 60, 96).is_none());
}

#[test]
fn windows_os_record() {
    let os = windows_os_info(10, 0, 22631, "desk".to_string(), 9, 3_725_999, Some("ada".to_string()));
    assert_eq!(os.name, "Windows 11");
    assert_eq!(os.version, "10.0.22631");
    assert_eq!(os.full_version, "Windows 11 (Build 22631)");
    assert_eq!(os.hostname, "desk");
    assert_eq!(os.arch, "x86_64");
    assert_eq!(os.uptime_secs, 3725);
    assert_eq!(os.username, "ada");
    assert_eq!(windows_os_info(6, 1, 7601, String::new(), 0, 999, None).username, "unknown");
}

fn record(size: u32) -> Vec<u8> {
    let mut r = vec![0u8; size as usize];
    r[4..8].copy_from_slice(&size.to_le_bytes());
    r
}

#[test]
fn processor_core_records_are_counted() {
    let mut buf = Vec::new();
    for _ in 0..4 {
        buf.extend(record(48));
    }
    assert_eq!(processor_core_count(&buf, buf.len() as u32), Some(4));
    assert_eq!(processor_core_count(&buf, 100), Some(3));
    assert_eq!(processor_core_count(&buf, 0), Some(0));
    let mut mixed = record(16);
    mixed.extend(record(32));
    assert_eq!(processor_core_count(&mixed, 48), Some(2));
    assert_eq!(processor_core_count(&vec![0u8; 16], 16), None);
    assert_eq!(processor_core_count(&record(16), 20), None);
}
