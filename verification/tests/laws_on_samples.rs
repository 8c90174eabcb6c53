use tauri_plugin_system::linux::display::{drm_displays, parse_xrandr, DrmConnector};
use tauri_plugin_system::linux::power::{linux_battery, BatteryFiles};
use tauri_plugin_system::linux::{lookup_key, parse_os_release, parse_proc_stat};
use tauri_plugin_system::macos::{cpu_tick_deltas, macos_displays, CpuLoadSnapshot, MacDisplayEntry};
use tauri_plugin_system::models::BatteryStatus;
use tauri_plugin_system::network::NetTable;
use tauri_plugin_system::windows::windows_cpu_deltas;

fn text(v: &[char]) -> String {
    v.iter().collect()
}

#[test]
fn os_release_last_definition_decides() {
    let e = parse_os_release("ID=debian\nVERSION_ID=\"11\"\nID=\"ubuntu\"\nNAME=x\n");
    assert_eq!(lookup_key(&e, "ID").map(|v| text(&v)), Some("ubuntu".to_string()));
    assert_eq!(lookup_key(&e, "VERSION_ID").map(|v| text(&v)), Some("11".to_string()));
    assert_eq!(lookup_key(&e, "PRETTY_NAME"), None);
}

#[test]
fn recording_counters_twice_keeps_the_second() {
    let mut twice = NetTable::new();
    twice.insert_counters("lo".to_string(), 1, 1);
    twice.insert_counters("eth0".to_string(), 5, 6);
    twice.insert_counters("eth0".to_string(), 7, 8);
    let mut once = NetTable::new();
    once.insert_counters("lo".to_string(), 1, 1);
    once.insert_counters("eth0".to_string(), 7, 8);
    let a: Vec<(String, u64, u64)> =
        twice.into_vec().iter().map(|n| (n.name.clone(), n.rx_bytes, n.tx_bytes)).collect();
    let b: Vec<(String, u64, u64)> =
        once.into_vec().iter().map(|n| (n.name.clone(), n.rx_bytes, n.tx_bytes)).collect();
    assert_eq!(a, b);
    assert_eq!(a.len(), 2);
}

#[test]
fn table_names_stay_distinct() {
    let mut t = NetTable::new();
    for (n, rx) in [("a", 1), ("b", 2), ("a", 3), ("c", 4), ("b", 5)] {
        t.insert_counters(n.to_string(), rx, rx);
    }
    let i = t.entry("a", true);
    assert_eq!(i, 0);
    let v = t.into_vec();
    let names: Vec<String> = v.iter().map(|n| n.name.clone()).collect();
    assert_eq!(names, vec!["a", "b", "c"]);
    assert_eq!(v[0].rx_bytes, 3);
    assert_eq!(v[1].rx_bytes, 5);
}

#[test]
fn idle_ticks_are_part_of_the_total() {
    let t = parse_proc_stat("cpu0 100 5 50 1000 20 3 4 0 0 0\ncpu1 1 1 1 900 99 1 1 1\n");
    assert_eq!(t.len(), 2);
    for c in &t {
        assert!(c.idle_total <= c.total);
    }
}

#[test]
fn tick_deltas_added_back_give_the_second_sample() {
    let a = CpuLoadSnapshot { per_cpu: vec![[u32::MAX - 1, 10, 20, 30], [0, 0, 0, 0]] };
    let b = CpuLoadSnapshot { per_cpu: vec![[3, 15, 20, 31], [1, 2, 3, 4]] };
    let d = cpu_tick_deltas(&a, &b);
    for (i, row) in d.iter().enumerate() {
        for k in 0..4 {
            assert_eq!(a.per_cpu[i][k].wrapping_add(row[k]), b.per_cpu[i][k]);
        }
    }
    assert_eq!(cpu_tick_deltas(&a, &a), vec![[0; 4], [0; 4]]);
    let w1 = vec![(i64::MAX, -5, 0)];
    let w2 = vec![(i64::MIN + 2, 7, 0)];
    let wd = windows_cpu_deltas(&w1, &w2);
    assert_eq!(w1[0].0.wrapping_add(wd[0].0), w2[0].0);
    assert_eq!(w1[0].1.wrapping_add(wd[0].1), w2[0].1);
    assert_eq!(windows_cpu_deltas(&w1, &w1), vec![(0, 0, 0)]);
}

#[test]
fn every_reported_display_has_a_size() {
    let out = "A connected 0x0+0+0 0mm x 0mm\n   0x0     60.00*\nB connected (normal)\n   1024x768     60.00*\n";
    let x = parse_xrandr(out);
    assert_eq!(x.len(), 1);
    assert!(x.iter().all(|d| d.width > 0 && d.height > 0));
    let cs = vec![
        DrmConnector {
            name: "card0-DP-1".to_string(),
            status: Some("connected".to_string()),
            modes: Some("0x1080".to_string()),
        },
        DrmConnector {
            name: "card0-DP-2".to_string(),
            status: Some("connected".to_string()),
            modes: Some("1280x720".to_string()),
        },
    ];
    let d = drm_displays(&cs);
    assert_eq!(d.len(), 1);
    assert!(d.iter().all(|x| x.width > 0 && x.height > 0));
    assert_eq!(d.iter().filter(|x| x.is_primary).count(), 1);
    let es = vec![
        MacDisplayEntry { name: None, resolution: Some("0 x 900".to_string()), retina: None, main: None },
        MacDisplayEntry { name: None, resolution: Some("1440 x 900".to_string()), retina: None, main: None },
    ];
    let m = macos_displays(&es);
    assert_eq!(m.len(), 1);
    assert!(m.iter().all(|x| x.width > 0 && x.height > 0 && (x.dpi == 72 || x.dpi == 144)));
}

#[test]
fn battery_estimates_need_the_matching_status() {
    let f = BatteryFiles {
        status: Some("Charging".to_string()),
        cycle_count: None,
        energy_full_design: None,
        charge_full_design: None,
        voltage_min_design: None,
        energy_full: Some("40000000".to_string()),
        charge_full: None,
        time_to_empty_avg: None,
        time_to_full_avg: None,
        energy_now: Some("10000000".to_string()),
        power_now: Some("15000000".to_string()),
    };
    let r = linux_battery(&f);
    assert_eq!(r.status, BatteryStatus::Charging);
    assert_eq!(r.time_to_empty_secs, None);
    assert!(r.time_to_full_secs.is_some());
    let g = BatteryFiles { status: Some("Full".to_string()), ..f };
    let q = linux_battery(&g);
    assert_eq!(q.time_to_empty_secs, None);
    assert_eq!(q.time_to_full_secs, None);
}

#[test]
fn hardware_address_pairs_read_back() {
    let bytes = vec![0x00, 0x1a, 0xff, 0x3c, 0x4d, 0x5e];
    for upper in [false, true] {
        let t = tauri_plugin_system::network::mac_string(&bytes, upper);
        assert_eq!(t.len(), 17);
        let parts: Vec<&str> = t.split(':').collect();
        assert_eq!(parts.len(), 6);
        for (p, b) in parts.iter().zip(bytes.iter()) {
            assert_eq!(p.len(), 2);
            assert_eq!(u32::from_str_radix(p, 16), Ok(*b as u32));
        }
    }
}

#[test]
fn ipv4_text_reads_back() {
    for (a, b, c, d) in [(0u8, 0u8, 0u8, 0u8), (10, 0, 0, 255), (192, 168, 1, 17)] {
        let t = tauri_plugin_system::network::ipv4_string(a, b, c, d);
        let back: Vec<u8> = t.split('.').map(|p| p.parse::<u8>().unwrap()).collect();
        assert_eq!(back, vec![a, b, c, d]);
    }
}
