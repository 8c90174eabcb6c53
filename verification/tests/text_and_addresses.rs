use tauri_plugin_system::network::{ipv4_string, ipv6_string, mac_string, NetTable};
use tauri_plugin_system::numbers::{
    decimal, hex_padded, mul_wrap, parse_hex_u32, parse_i64, parse_u32, parse_u64,
    trim_hex_prefixes,
};
use tauri_plugin_system::text::{
    after_last_char, chars_of, contains, ends_with, find_char_from, first_word, lines,
    split_once, split_once_str, split_whitespace, starts_with, trim,
    trim_end_char, trim_end_digits, trim_end_str, trim_matches,
};

fn cv(t: &str) -> Vec<char> {
    t.chars().collect()
}

fn st(v: &Vec<char>) -> String {
    v.iter().collect()
}

#[test]
fn ipv4_dotted_decimal() {
    assert_eq!(ipv4_string(192, 168, 0, 1), "192.168.0.1");
    assert_eq!(ipv4_string(0, 0, 0, 0), "0.0.0.0");
    assert_eq!(ipv4_string(255, 255, 255, 255), "255.255.255.255");
}

#[test]
fn ipv6_groups_without_elision() {
    let b = vec![0xfe, 0x80, 0, 0, 0, 0, 0, 0, 0, 1, 0, 2, 0, 3, 0x0a, 0xbc];
    assert_eq!(ipv6_string(&b), "fe80:0:0:0:1:2:3:abc");
    assert_eq!(ipv6_string(&vec![0; 16]), "0:0:0:0:0:0:0:0");
}

#[test]
fn mac_address_text() {
    let m = vec![0x00, 0x1a, 0x2b, 0x3c, 0x4d, 0x5e];
    assert_eq!(mac_string(&m, false), "00:1a:2b:3c:4d:5e");
    assert_eq!(mac_string(&m, true), "00:1A:2B:3C:4D:5E");
    assert_eq!(mac_string(&vec![], false), "");
    assert_eq!(mac_string(&vec![7], false), "07");
}

#[test]
fn interface_table_keeps_one_entry_per_name() {
    let mut t = NetTable::new();
    assert_eq!(t.len(), 0);
    t.insert_counters("eth0".to_string(), 10, 20);
    t.insert_counters("lo".to_string(), 1, 1);
    assert_eq!(t.len(), 2);
    assert_eq!(t.entry("eth0", true), 0);
    assert_eq!(t.len(), 2);
    assert_eq!(t.entry("wlan0", true), 2);
    assert_eq!(t.len(), 3);
    assert_eq!(t.find("lo"), Some(1));
    assert_eq!(t.find("docker0"), None);
    assert_eq!(t.name_at(2), "wlan0");
    t.set_mac(0, "aa:bb:cc:dd:ee:ff".to_string());
    t.set_up(0, true);
    t.push_ipv4(0, "10.0.0.2".to_string());
    t.push_ipv4(0, "10.0.0.3".to_string());
    t.push_ipv6(0, "fe80:0:0:0:0:0:0:1".to_string());
    t.set_counters(1, 5, 6);
    let v = t.into_vec();
    assert_eq!(v.len(), 3);
    assert_eq!(v[0].name, "eth0");
    assert_eq!(v[0].mac_address, "aa:bb:cc:dd:ee:ff");
    assert!(v[0].is_up);
    assert_eq!(v[0].ipv4, vec!["10.0.0.2".to_string(), "10.0.0.3".to_string()]);
    assert_eq!(v[0].ipv6, vec!["fe80:0:0:0:0:0:0:1".to_string()]);
    assert_eq!((v[0].rx_bytes, v[0].tx_bytes), (10, 20));
    assert_eq!((v[1].rx_bytes, v[1].tx_bytes), (5, 6));
    assert!(!v[1].is_up);
    assert_eq!(v[2].name, "wlan0");
    assert!(v[2].is_up);
    assert_eq!((v[2].rx_bytes, v[2].tx_bytes), (0, 0));
}

#[test]
fn interface_counters_replace_an_earlier_record() {
    let mut t = NetTable::new();
    t.insert_counters("eth0".to_string(), 10, 20);
    let i = t.entry("eth0", true);
    t.set_mac(i, "aa".to_string());
    t.push_ipv4(i, "10.0.0.2".to_string());
    t.insert_counters("eth0".to_string(), 30, 40);
    let v = t.into_vec();
    assert_eq!(v.len(), 1);
    assert_eq!(v[0].mac_address, "");
    assert!(v[0].ipv4.is_empty());
    assert_eq!((v[0].rx_bytes, v[0].tx_bytes), (30, 40));
    assert!(!v[0].is_up);
}

#[test]
fn unsigned_parsing_follows_std() {
    assert_eq!(parse_u64(&cv("42")), Some(42));
    assert_eq!(parse_u64(&cv("+42")), Some(42));
    assert_eq!(parse_u64(&cv("-1")), None);
    assert_eq!(parse_u64(&cv("")), None);
    assert_eq!(parse_u64(&cv("+")), None);
    assert_eq!(parse_u64(&cv(" 1")), None);
    assert_eq!(parse_u64(&cv("18446744073709551615")), Some(u64::MAX));
    assert_eq!(parse_u64(&cv("18446744073709551616")), None);
    assert_eq!(parse_u32(&cv("4294967295")), Some(u32::MAX));
    assert_eq!(parse_u32(&cv("4294967296")), None);
    assert_eq!(parse_u32(&cv("007")), Some(7));
}

#[test]
fn hex_and_signed_parsing_follow_std() {
    assert_eq!(parse_hex_u32(&cv("10de")), Some(0x10de));
    assert_eq!(parse_hex_u32(&cv("10DE")), Some(0x10de));
    assert_eq!(parse_hex_u32(&cv("0x10de")), None);
    assert_eq!(parse_hex_u32(&cv("100000000")), None);
    assert_eq!(trim_hex_prefixes(&cv("0x10de")), cv("10de"));
    assert_eq!(trim_hex_prefixes(&cv("0x0x1")), cv("1"));
    assert_eq!(trim_hex_prefixes(&cv("10de")), cv("10de"));
    assert_eq!(parse_i64(&cv("-5")), Some(-5));
    assert_eq!(parse_i64(&cv("+5")), Some(5));
    assert_eq!(parse_i64(&cv("-9223372036854775808")), Some(i64::MIN));
    assert_eq!(parse_i64(&cv("9223372036854775808")), None);
    assert_eq!(parse_i64(&cv("-")), None);
}

#[test]
fn number_formatting_follows_std() {
    assert_eq!(st(&decimal(0)), "0");
    assert_eq!(st(&decimal(1234)), "1234");
    assert_eq!(st(&decimal(u64::MAX)), u64::MAX.to_string());
    assert_eq!(st(&hex_padded(0xab, 4, true)), "00AB");
    assert_eq!(st(&hex_padded(0xab, 4, false)), format!("{:04x}", 0xab));
    assert_eq!(st(&hex_padded(0x12345, 4, false)), "12345");
    assert_eq!(st(&hex_padded(0, 0, false)), "0");
}

#[test]
fn decimal_round_trip_on_samples() {
    for n in [0u64, 7, 10, 99, 1_000_000, u64::MAX] {
        assert_eq!(parse_u64(&decimal(n)), Some(n));
    }
    for n in [0u32, 0xab, 0x10de, u32::MAX] {
        assert_eq!(parse_hex_u32(&hex_padded(n as u64, 8, true)), Some(n));
        assert_eq!(parse_hex_u32(&hex_padded(n as u64, 0, false)), Some(n));
    }
}

#[test]
fn wrapping_multiplication() {
    assert_eq!(mul_wrap(u64::MAX, 2), u64::MAX - 1);
    assert_eq!(mul_wrap(3, 4), 12);
}

#[test]
fn trimming_and_splitting_follow_std() {
    assert_eq!(st(&trim(&cv("  a b \t"))), "a b");
    assert_eq!(st(&trim(&cv("\u{3000}x\u{a0}"))), "x");
    assert_eq!(st(&trim(&cv("   "))), "");
    let ws: Vec<String> = split_whitespace(&cv("  a  bb\tc \n")).iter().map(st).collect();
    assert_eq!(ws, vec!["a", "bb", "c"]);
    assert_eq!(first_word(&cv("  foo bar")).map(|w| st(&w)), Some("foo".to_string()));
    assert_eq!(first_word(&cv("   ")), None);
    let ls: Vec<String> = lines(&cv("a\r\nb\n\nc")).iter().map(st).collect();
    assert_eq!(ls, vec!["a", "b", "", "c"]);
    let ls2: Vec<String> = lines(&cv("x\n")).iter().map(st).collect();
    assert_eq!(ls2, vec!["x"]);
    assert!(lines(&cv("")).is_empty());
    let (k, v) = split_once(&cv("k=v=w"), '=').unwrap();
    assert_eq!((st(&k), st(&v)), ("k".to_string(), "v=w".to_string()));
    assert!(split_once(&cv("kv"), '=').is_none());
    let (a, b) = split_once_str(&cv("1920 x 1080 x 2"), " x ").unwrap();
    assert_eq!((st(&a), st(&b)), ("1920".to_string(), "1080 x 2".to_string()));
}

#[test]
fn prefixes_suffixes_and_infixes() {
    assert!(starts_with(&cv("cpu0 1"), "cpu"));
    assert!(!starts_with(&cv("cp"), "cpu"));
    assert!(ends_with(&cv("60.00Hz"), "Hz"));
    assert!(contains(&cv("Apple M2"), "Apple"));
    assert!(!contains(&cv("apple"), "Apple"));
    assert_eq!(find_char_from(&cv("a(b(c"), '(', 0), 1);
    assert_eq!(find_char_from(&cv("a(b(c"), '(', 2), 3);
    assert_eq!(find_char_from(&cv("abc"), '(', 0), 3);
    assert_eq!(st(&after_last_char(&cv("/Volumes/USB"), '/')), "USB");
    assert_eq!(st(&after_last_char(&cv("plain"), '/')), "plain");
    assert_eq!(st(&trim_matches(&cv("\"quoted\""), '"')), "quoted");
    assert_eq!(st(&trim_end_char(&cv("C:\\\\"), '\\')), "C:");
    assert_eq!(st(&trim_end_digits(&cv("nvme0n1p12"))), "nvme0n1p");
    assert_eq!(st(&trim_end_str(&cv("60HzHz"), "Hz")), "60");
    assert_eq!(st(&tauri_plugin_system::text::concat(&cv("ab"), &cv("cd"))), "abcd");
    assert_eq!(chars_of("héllo"), cv("héllo"));
    assert_eq!(tauri_plugin_system::linux::mac_from_address_file(" aé:b\n"), "aé:b");
}
