use tauri_plugin_system::linux::display::{linux_displays, DrmConnector, LinuxDisplays};
use tauri_plugin_system::linux::gpu::{linux_gpu_list, DrmCard, DriverFiles};
use tauri_plugin_system::linux::power::first_battery;
use tauri_plugin_system::network::{IfAddress, IfRecord, NetTable};

fn card(name: &str, vendor: Option<&str>, label: Option<&str>, vram: Option<&str>) -> DrmCard {
    DrmCard {
        name: name.to_string(),
        vendor: vendor.map(|s| s.to_string()),
        label: label.map(|s| s.to_string()),
        lspci: None,
        vram_total: vram.map(|s| s.to_string()),
    }
}

fn drivers() -> DriverFiles {
    DriverFiles {
        nvidia: Some("535.54\n".to_string()),
        amdgpu: None,
        proc_version: Some("Linux version 6.5.0 (builder)".to_string()),
    }
}

const LSPCI: &str = "00:02.0 VGA compatible controller: Intel Corporation UHD\n01:00.0 3D controller: NVIDIA Corporation GA107\n";

#[test]
fn gpu_list_has_one_adapter_per_card() {
    let entries = vec![
        card("card0", Some("0x10de\n"), Some("GeForce RTX\n"), None),
        card("card0-HDMI-A-1", None, None, None),
        card("renderD128", None, None, None),
        card("card1", Some("0x1002"), None, Some("8589934592\n")),
    ];
    let infos = vec!["FB Size: 4096 MB\n".to_string()];
    let g = linux_gpu_list(&entries, &infos, &drivers(), Some(LSPCI));
    let got: Vec<(String, String, u64, String)> = g
        .iter()
        .map(|x| (x.name.clone(), x.vendor.clone(), x.vram_mb, x.driver_version.clone()))
        .collect();
    assert_eq!(
        got,
        vec![
            ("GeForce RTX".to_string(), "NVIDIA".to_string(), 4096, "535.54".to_string()),
            ("AMD GPU".to_string(), "AMD".to_string(), 8192, "".to_string()),
        ]
    );
}

#[test]
fn gpu_list_reads_lspci_only_without_cards() {
    let entries = vec![card("renderD128", None, None, None)];
    let g = linux_gpu_list(&entries, &vec![], &drivers(), Some(LSPCI));
    let names: Vec<String> = g.iter().map(|x| x.name.clone()).collect();
    assert_eq!(names, vec!["Intel Corporation UHD".to_string(), "NVIDIA Corporation GA107".to_string()]);
    assert!(g.iter().all(|x| x.vram_mb == 0 && x.driver_version.is_empty()));
    assert!(linux_gpu_list(&vec![], &vec![], &drivers(), None).is_empty());
}

#[test]
fn first_power_supply_that_is_a_battery() {
    let types = vec![None, Some("Mains\n".to_string()), Some("Battery\n".to_string()), Some("Battery".to_string())];
    assert_eq!(first_battery(&types), Some(2));
    assert_eq!(first_battery(&vec![Some("USB".to_string()), None]), None);
    assert_eq!(first_battery(&vec![]), None);
}

fn connectors() -> Vec<DrmConnector> {
    vec![DrmConnector {
        name: "card0-eDP-1".to_string(),
        status: Some("connected\n".to_string()),
        modes: Some("2560x1600\n".to_string()),
    }]
}

#[test]
fn displays_from_xrandr_when_it_reports_some() {
    let out = "eDP-1 connected primary 1920x1080+0+0 (normal) 344mm x 193mm\n   1920x1080     60.00*+\n";
    match linux_displays(Some(out), &connectors()) {
        LinuxDisplays::Xrandr(v) => {
            assert_eq!(v.len(), 1);
            assert_eq!(v[0].name, "eDP-1");
            assert!(v[0].is_primary);
        }
        LinuxDisplays::Drm(_) => panic!("expected the xrandr displays"),
    }
}

#[test]
fn displays_fall_back_to_drm() {
    for out in [None, Some("DP-1 disconnected (normal)\n")] {
        match linux_displays(out, &connectors()) {
            LinuxDisplays::Drm(v) => {
                assert_eq!(v.len(), 1);
                assert_eq!((v[0].name.as_str(), v[0].width, v[0].height), ("eDP-1", 2560, 1600));
            }
            LinuxDisplays::Xrandr(_) => panic!("expected the drm displays"),
        }
    }
}

#[test]
fn xrandr_primary_follows_its_own_header() {
    let out = "A connected 800x600+0+0\n   800x600  60.00*\nB connected primary 1024x768+800+0\n   1024x768  60.00*\nC connected 640x480+0+0\nD connected\n   640x480  75.00*\n";
    match linux_displays(Some(out), &vec![]) {
        LinuxDisplays::Xrandr(v) => {
            let got: Vec<(String, bool)> = v.iter().map(|d| (d.name.clone(), d.is_primary)).collect();
            assert_eq!(
                got,
                vec![("A".to_string(), false), ("B".to_string(), true), ("D".to_string(), false)]
            );
        }
        LinuxDisplays::Drm(_) => panic!("expected the xrandr displays"),
    }
}

fn rec(name: &str, up: bool, address: IfAddress) -> IfRecord {
    IfRecord { name: name.to_string(), up, address }
}

fn link(mac: [u8; 6], name_len: u8, counters: Option<(u64, u64)>) -> IfAddress {
    let mut data = vec![0u8; 12];
    for (k, b) in mac.iter().enumerate() {
        data[name_len as usize + k] = *b;
    }
    IfAddress::Link { addr_len: 6, name_len, data, counters }
}

fn six_to_four() -> Vec<u8> {
    vec![0xfe, 0x80, 0, 0, 0, 0, 0, 0, 0, 0, 0, 0, 0, 0, 0, 1]
}

#[test]
fn interface_records_gather_by_name() {
    let records = vec![
        rec("lo0", true, IfAddress::Inet(127, 0, 0, 1)),
        rec("en0", false, IfAddress::Missing),
        rec("en0", true, link([0, 0x1a, 0x2b, 0x3c, 0x4d, 0x5e], 3, Some((1000, 2000)))),
        rec("en0", true, IfAddress::Inet(192, 168, 1, 2)),
        rec("lo0", false, IfAddress::Inet6(six_to_four())),
        rec("en0", true, IfAddress::Inet(10, 0, 0, 1)),
        rec("utun0", true, IfAddress::Other),
    ];
    let mut t = NetTable::new();
    t.add_records(&records, true);
    let v = t.into_vec();
    let names: Vec<&str> = v.iter().map(|n| n.name.as_str()).collect();
    assert_eq!(names, vec!["lo0", "en0", "utun0"]);
    assert_eq!(v[0].ipv4, vec!["127.0.0.1".to_string()]);
    assert_eq!(v[0].ipv6, vec!["fe80:0:0:0:0:0:0:1".to_string()]);
    assert!(v[0].is_up);
    assert_eq!(v[1].mac_address, "00:1a:2b:3c:4d:5e");
    assert_eq!((v[1].rx_bytes, v[1].tx_bytes), (1000, 2000));
    assert_eq!(v[1].ipv4, vec!["192.168.1.2".to_string(), "10.0.0.1".to_string()]);
    assert!(!v[1].is_up);
    assert_eq!(v[2].mac_address, "");
    assert!(v[2].ipv4.is_empty());
}

#[test]
fn records_without_an_address_can_be_passed_over() {
    let records = vec![
        rec("eth0", false, IfAddress::Missing),
        rec("wlan0", true, IfAddress::Inet(10, 1, 2, 3)),
        rec("eth0", true, IfAddress::Inet(10, 0, 0, 9)),
    ];
    let mut t = NetTable::new();
    t.add_records(&records, false);
    let v = t.into_vec();
    let got: Vec<(String, bool)> = v.iter().map(|n| (n.name.clone(), n.is_up)).collect();
    assert_eq!(got, vec![("wlan0".to_string(), true), ("eth0".to_string(), true)]);
}

#[test]
fn short_link_addresses_set_no_hardware_address() {
    let data = vec![0u8; 12];
    let records = vec![rec(
        "gif0",
        true,
        IfAddress::Link { addr_len: 0, name_len: 4, data, counters: None },
    )];
    let mut t = NetTable::new();
    t.add_records(&records, true);
    let v = t.into_vec();
    assert_eq!(v.len(), 1);
    assert_eq!(v[0].mac_address, "");
    assert_eq!((v[0].rx_bytes, v[0].tx_bytes), (0, 0));
}

#[test]
fn long_interface_names_keep_their_hardware_address() {
    let mut data: Vec<u8> = b"bridge100".to_vec();
    data.extend_from_slice(&[0x36, 0xa1, 0x0b, 0x0c, 0x0d, 0xfe]);
    let records = vec![rec(
        "bridge100",
        true,
        IfAddress::Link { addr_len: 6, name_len: 9, data, counters: Some((5, 6)) },
    )];
    let mut t = NetTable::new();
    t.add_records(&records, true);
    let v = t.into_vec();
    assert_eq!(v[0].mac_address, "36:a1:0b:0c:0d:fe");
    assert_eq!((v[0].rx_bytes, v[0].tx_bytes), (5, 6));
}
