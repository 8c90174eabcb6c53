//! Properties of the library that hold across its functions and inputs.
use vstd::prelude::*;
use crate::linux::{field_or_zero, lookup, os_release_entries, os_release_value, stat_times};
use crate::linux::power::{
    critical_of, file_millis, opt_string, file_num, time_to_empty_of, time_to_full_of, BatteryFiles,
    TripPoint,
};
use crate::linux::{mount_candidate, pseudo_fs_names};
use crate::models::BatteryStatus;
use crate::text::words_of;
use crate::linux::display::{
    connected_resolution, dimensions_of, drm_found, xrandr_scan, xrandr_start, xrandr_step,
};
use crate::macos::{mac_displays_of, macos_gpu_vendor_of, wrapping_sub32};
use crate::network::{
    address_step, addressed, counters_recorded, fresh_view, has_name, ipv4_text, join_colon,
    mac_groups, mac_text, names_distinct, record_counts, record_step, records_view, with_entry,
    IfAddress, IfRecord, NetView,
};
use crate::numbers::{
    digits_in, hex_u32_of, law_decimal_round_trip, law_hex_round_trip, u64_of, zero_padded,
};
use crate::text::{has_infix, has_prefix, index_of, lemma_index_of, split_once_at, trimmed};
use crate::windows::{windows_battery_of, wrapping_sub_i64};

verus! {

// ───────────────────────────── os-release ─────────────────────────────

/// In `/etc/os-release`, a line `KEY=value` decides what `KEY` reads as,
/// whatever came before it: the value, without its quotes.
pub proof fn law_os_release_later_line_wins(
    ls: Seq<Seq<char>>,
    key: Seq<char>,
    value: Seq<char>,
)
    requires
        !key.contains('='),
    ensures
        lookup(os_release_entries(ls.push(key + seq!['='] + value)), key) == Some(
            os_release_value(value),
        ),
{
    let line = key + seq!['='] + value;
    assert forall|i: int| 0 <= i < key.len() implies line[i] != '=' by {
        assert(line[i] == key[i]);
        if key[i] == '=' {
            assert(key.contains('='));
        }
    }
    assert(line[key.len() as int] == '=');
    lemma_index_of_at(line, '=', key.len() as int);
    assert(line.take(key.len() as int) =~= key);
    assert(line.skip(key.len() as int + 1) =~= value);
    assert(split_once_at(line, '=') == Some((key, value)));
    assert(ls.push(line).drop_last() =~= ls);
}

/// In `/etc/os-release`, a line that does not define `key` leaves what `key`
/// reads as unchanged.
pub proof fn law_os_release_other_line_keeps(ls: Seq<Seq<char>>, line: Seq<char>, key: Seq<char>)
    requires
        split_once_at(line, '=') matches Some((k, _)) ==> k != key,
    ensures
        lookup(os_release_entries(ls.push(line)), key) == lookup(os_release_entries(ls), key),
{
    assert(ls.push(line).drop_last() =~= ls);
    let rest = os_release_entries(ls);
    match split_once_at(line, '=') {
        Some((k, v)) => {
            let p = (k, os_release_value(v));
            assert(os_release_entries(ls.push(line)) == rest.push(p));
            assert(rest.push(p).drop_last() =~= rest);
        },
        None => {},
    }
}

proof fn lemma_index_of_at(s: Seq<char>, c: char, k: int)
    requires
        0 <= k < s.len(),
        s[k] == c,
        forall|i: int| 0 <= i < k ==> s[i] != c,
    ensures
        index_of(s, c) == k,
{
    lemma_index_of(s, c);
    if index_of(s, c) < k {
        assert(s[index_of(s, c) as int] == c);
    }
}

// ───────────────────────────── network table ─────────────────────────────

/// Recording an interface's traffic twice is recording the second reading: a
/// later `/proc/net/dev` entry for a name replaces an earlier one.
pub proof fn law_later_counters_replace_earlier(
    v: Seq<NetView>,
    name: Seq<char>,
    rx1: u64,
    tx1: u64,
    rx2: u64,
    tx2: u64,
)
    ensures
        counters_recorded(counters_recorded(v, name, rx1, tx1), name, rx2, tx2)
            == counters_recorded(v, name, rx2, tx2),
{
    let w = counters_recorded(v, name, rx1, tx1);
    if has_name(v, name) {
        let i = choose|i: int| 0 <= i < v.len() && (#[trigger] v[i]).name == name;
        assert(w[i].name == name);
        assert(has_name(w, name));
        assert(counters_recorded(w, name, rx2, tx2) =~= counters_recorded(v, name, rx2, tx2));
    } else {
        assert(w[v.len() as int].name == name);
        assert(has_name(w, name));
        assert(counters_recorded(w, name, rx2, tx2) =~= counters_recorded(v, name, rx2, tx2));
    }
}

/// Recording traffic keeps one entry per name, and afterwards the entry of
/// that name is the one recorded.
pub proof fn law_counters_keep_one_entry_per_name(
    v: Seq<NetView>,
    name: Seq<char>,
    rx: u64,
    tx: u64,
)
    requires
        names_distinct(v),
    ensures
        names_distinct(counters_recorded(v, name, rx, tx)),
        has_name(counters_recorded(v, name, rx, tx), name),
        forall|i: int|
            0 <= i < counters_recorded(v, name, rx, tx).len() && (#[trigger] counters_recorded(
                v,
                name,
                rx,
                tx,
            )[i]).name == name ==> counters_recorded(v, name, rx, tx)[i] == fresh_view(
                name,
                rx,
                tx,
                false,
            ),
{
    let w = counters_recorded(v, name, rx, tx);
    if has_name(v, name) {
        let i = choose|i: int| 0 <= i < v.len() && (#[trigger] v[i]).name == name;
        assert(w[i].name == name);
    } else {
        assert(w[v.len() as int].name == name);
        assert forall|i: int, j: int| 0 <= i < j < w.len() implies (#[trigger] w[i]).name != (
        #[trigger] w[j]).name by {
            if j == v.len() {
                assert(w[i] == v[i]);
                if v[i].name == name {
                    assert(has_name(v, name));
                }
            } else {
                assert(w[i] == v[i] && w[j] == v[j]);
            }
        }
    }
}

/// An IPv4 address is written as four numbers without a dot in them, joined
/// by dots, each of which reads back as its byte.
pub proof fn law_ipv4_text_reads_back(a: u8, b: u8, c: u8, d: u8)
    ensures
        ({
            let p = seq![
                digits_in(a as nat, 10, false),
                digits_in(b as nat, 10, false),
                digits_in(c as nat, 10, false),
                digits_in(d as nat, 10, false),
            ];
            &&& ipv4_text(a, b, c, d) == p[0] + "."@ + p[1] + "."@ + p[2] + "."@ + p[3]
            &&& u64_of(p[0]) == Some(a as u64) && u64_of(p[1]) == Some(b as u64) && u64_of(p[2])
                == Some(c as u64) && u64_of(p[3]) == Some(d as u64)
            &&& forall|i: int| 0 <= i < 4 ==> !(#[trigger] p[i]).contains('.')
        }),
{
    let p = seq![
        digits_in(a as nat, 10, false),
        digits_in(b as nat, 10, false),
        digits_in(c as nat, 10, false),
        digits_in(d as nat, 10, false),
    ];
    law_decimal_round_trip(a as u64);
    law_decimal_round_trip(b as u64);
    law_decimal_round_trip(c as u64);
    law_decimal_round_trip(d as u64);
    assert forall|i: int| 0 <= i < 4 implies !(#[trigger] p[i]).contains('.') by {
        lemma_number_has_no_dot(p[i]);
    }
}

proof fn lemma_number_has_no_dot(s: Seq<char>)
    requires
        u64_of(s) is Some,
    ensures
        !s.contains('.'),
{
    let d = crate::numbers::unsigned_digits(s);
    if s.contains('.') {
        let j = choose|j: int| 0 <= j < s.len() && s[j] == '.';
        if s.len() > 0 && s[0] == '+' {
            assert(d[j - 1] == s[j]);
        } else {
            assert(d[j] == s[j]);
        }
        assert(crate::numbers::digit_of('.') == 99);
    }
}

/// A hardware address of `n` bytes is written in `3n - 1` characters: each
/// byte as two hexadecimal digits that read back as the byte, and a colon
/// between each two.
pub proof fn law_mac_text_reads_back(bytes: Seq<u8>, upper: bool)
    requires
        bytes.len() > 0,
    ensures
        mac_text(bytes, upper).len() == 3 * bytes.len() - 1,
        forall|k: int|
            0 <= k < bytes.len() ==> hex_u32_of(#[trigger] mac_text(bytes, upper).subrange(
                3 * k,
                3 * k + 2,
            )) == Some(bytes[k] as u32),
        forall|k: int| 0 <= k < bytes.len() - 1 ==> #[trigger] mac_text(bytes, upper)[3 * k + 2] == ':',
{
    let g = mac_groups(bytes, upper);
    assert forall|k: int| 0 <= k < g.len() implies (#[trigger] g[k]).len() == 2 && hex_u32_of(g[k])
        == Some(bytes[k] as u32) by {
        lemma_byte_digits(bytes[k], upper);
        law_hex_round_trip(bytes[k] as u32, 2, upper);
    }
    lemma_join_pairs(g);
}

proof fn lemma_byte_digits(b: u8, upper: bool)
    ensures
        zero_padded(digits_in(b as nat, 16, upper), 2).len() == 2,
{
    let n = b as nat;
    if n >= 16 {
        assert(n / 16 < 16) by (nonlinear_arith)
            requires
                n < 256,
        ;
        assert(digits_in(n / 16, 16, upper).len() == 1);
    }
}

proof fn lemma_join_pairs(parts: Seq<Seq<char>>)
    requires
        parts.len() > 0,
        forall|k: int| 0 <= k < parts.len() ==> (#[trigger] parts[k]).len() == 2,
    ensures
        join_colon(parts).len() == 3 * parts.len() - 1,
        forall|k: int|
            0 <= k < parts.len() ==> #[trigger] join_colon(parts).subrange(3 * k, 3 * k + 2)
                == parts[k],
        forall|k: int| 0 <= k < parts.len() - 1 ==> #[trigger] join_colon(parts)[3 * k + 2] == ':',
    decreases parts.len(),
{
    let j = join_colon(parts);
    if parts.len() == 1 {
        assert(j == parts[0]);
        assert(j.subrange(0, 2) =~= parts[0]);
    } else {
        let init = parts.drop_last();
        lemma_join_pairs(init);
        let ji = join_colon(init);
        assert(j == ji + seq![':'] + parts.last());
        let n = parts.len() as int;
        assert forall|k: int| 0 <= k < n implies #[trigger] j.subrange(3 * k, 3 * k + 2)
            == parts[k] by {
            if k < n - 1 {
                assert(init[k] == parts[k]);
                assert(j.subrange(3 * k, 3 * k + 2) =~= ji.subrange(3 * k, 3 * k + 2));
            } else {
                assert(j.subrange(3 * k, 3 * k + 2) =~= parts.last());
            }
        }
        assert forall|k: int| 0 <= k < n - 1 implies #[trigger] j[3 * k + 2] == ':' by {
            if k < n - 2 {
                assert(j[3 * k + 2] == ji[3 * k + 2]);
            }
        }
    }
}

// ───────────────────────────── processor samples ─────────────────────────────

/// The ticks between two macOS samples, added back to the first sample in
/// 32-bit arithmetic, give the second: no tick is lost when a counter wraps.
pub proof fn law_tick_delta_restores_sample(first: u32, second: u32)
    ensures
        (first + wrapping_sub32(second, first)) % 0x1_0000_0000 == second,
        wrapping_sub32(first, first) == 0,
{
}

/// The times between two Windows samples, added back to the first sample in
/// 64-bit arithmetic, give the second; a sample against itself gives zero.
pub proof fn law_time_delta_restores_sample(first: i64, second: i64)
    ensures
        ({
            let s = first + wrapping_sub_i64(second, first);
            s == second || s == second + 0x1_0000_0000_0000_0000 || s == second
                - 0x1_0000_0000_0000_0000
        }),
        wrapping_sub_i64(first, first) == 0,
{
}

/// The idle ticks of a processor line of `/proc/stat` are part of its total,
/// as long as the sum of its fields fits in 64 bits.
pub proof fn law_idle_ticks_within_total(line: Seq<char>)
    requires
        stat_times(line) is Some,
        ({
            let ws = words_of(line);
            field_or_zero(ws[1]) + field_or_zero(ws[2]) + field_or_zero(ws[3]) + field_or_zero(
                ws[4],
            ) + field_or_zero(ws[5]) + field_or_zero(ws[6]) + field_or_zero(ws[7]) + (if ws.len()
                > 8 {
                field_or_zero(ws[8]) as int
            } else {
                0
            }) <= u64::MAX
        }),
    ensures
        stat_times(line)->0.idle_total <= stat_times(line)->0.total,
{
}

// ───────────────────────────── battery ─────────────────────────────

/// Without the kernel's own averages, a Linux battery is given a time until
/// empty only while discharging, and a time until full only while charging.
pub proof fn law_battery_estimates_follow_status(f: BatteryFiles, status: BatteryStatus)
    ensures
        file_num(opt_string(f.time_to_empty_avg)) is None && time_to_empty_of(f, status) is Some
            ==> status == BatteryStatus::Discharging,
        file_num(opt_string(f.time_to_full_avg)) is None && time_to_full_of(f, status) is Some
            ==> status == BatteryStatus::Charging,
{
}

// ───────────────────────────── displays ─────────────────────────────

/// Every display that `xrandr` output yields has a positive width and height.
pub proof fn law_xrandr_displays_have_a_size(ls: Seq<Seq<char>>)
    ensures
        forall|i: int|
            0 <= i < xrandr_scan(ls).displays.len() ==> (#[trigger] xrandr_scan(ls).displays[i]).width
                > 0 && xrandr_scan(ls).displays[i].height > 0,
    decreases ls.len(),
{
    if ls.len() > 0 {
        law_xrandr_displays_have_a_size(ls.drop_last());
        let s = xrandr_scan(ls.drop_last());
        assert(xrandr_scan(ls) == xrandr_step(s, ls.last()));
    } else {
        assert(xrandr_scan(ls) == xrandr_start());
    }
}

/// Every display found through `/sys/class/drm` has a positive width and height.
pub proof fn law_drm_displays_have_a_size(cs: Seq<crate::linux::display::DrmConnector>)
    ensures
        forall|i: int|
            0 <= i < drm_found(cs).len() ==> (#[trigger] drm_found(cs)[i]).1 > 0 && drm_found(
                cs,
            )[i].2 > 0,
    decreases cs.len(),
{
    if cs.len() > 0 {
        law_drm_displays_have_a_size(cs.drop_last());
        let prev = drm_found(cs.drop_last());
        match crate::linux::display::drm_display_of(cs.last()) {
            Some(d) => {
                assert(drm_found(cs) == prev.push(d));
                assert forall|i: int| 0 <= i < drm_found(cs).len() implies (
                #[trigger] drm_found(cs)[i]).1 > 0 && drm_found(cs)[i].2 > 0 by {
                    if i < prev.len() {
                        assert(drm_found(cs)[i] == prev[i]);
                    }
                }
            },
            None => {},
        }
    }
}

/// Every display of a Mac has a positive width and height, and a density of
/// 72 or 144 dots per inch.
pub proof fn law_mac_displays_have_a_size(es: Seq<crate::macos::MacDisplayEntry>)
    ensures
        forall|i: int|
            0 <= i < mac_displays_of(es).len() ==> (#[trigger] mac_displays_of(es)[i]).1 > 0
                && mac_displays_of(es)[i].2 > 0 && (mac_displays_of(es)[i].4 == 72
                || mac_displays_of(es)[i].4 == 144),
    decreases es.len(),
{
    if es.len() > 0 {
        law_mac_displays_have_a_size(es.drop_last());
        let prev = mac_displays_of(es.drop_last());
        match crate::macos::mac_display_of(es.last(), es.len() - 1) {
            Some(d) => {
                assert(mac_displays_of(es) == prev.push(d));
                assert forall|i: int| 0 <= i < mac_displays_of(es).len() implies (
                #[trigger] mac_displays_of(es)[i]).1 > 0 && mac_displays_of(es)[i].2 > 0 && (
                mac_displays_of(es)[i].4 == 72 || mac_displays_of(es)[i].4 == 144) by {
                    if i < prev.len() {
                        assert(mac_displays_of(es)[i] == prev[i]);
                    }
                }
            },
            None => {},
        }
    }
}


// ───────────────────────────── interface records ─────────────────────────────

/// An address never changes an entry's name or state.
proof fn lemma_address_step_keeps(e: NetView, a: IfAddress)
    ensures
        address_step(e, a).name == e.name,
        address_step(e, a).up == e.up,
{
}

/// One record keeps every entry's name and state and, at most, adds its own
/// interface at the end, with the record's state.
proof fn lemma_record_step_shape(v: Seq<NetView>, r: IfRecord, f: bool)
    ensures
        ({
            let w = record_step(v, r, f);
            &&& forall|j: int| 0 <= j < v.len() ==> #[trigger] w[j].name == v[j].name && w[j].up
                == v[j].up
            &&& if record_counts(r, f) && !has_name(v, r.name@) {
                w.len() == v.len() + 1 && w[v.len() as int].name == r.name@ && w[v.len() as int].up
                    == r.up
            } else {
                w.len() == v.len()
            }
        }),
{
    let w = record_step(v, r, f);
    if record_counts(r, f) {
        let u = with_entry(v, r.name@, r.up);
        assert forall|j: int| 0 <= j < u.len() implies #[trigger] addressed(u, r.name@, r.address)[j].name
            == u[j].name && addressed(u, r.name@, r.address)[j].up == u[j].up by {
            lemma_address_step_keeps(u[j], r.address);
        }
        assert forall|j: int| 0 <= j < v.len() implies #[trigger] w[j].name == v[j].name && w[j].up
            == v[j].up by {
            assert(u[j] == v[j]);
        }
    }
}

/// Whether some record of `rs` that counts names the interface `n`.
pub open spec fn listed(rs: Seq<IfRecord>, n: Seq<char>, with_unaddressed: bool) -> bool {
    exists|k: int| 0 <= k < rs.len() && (#[trigger] rs[k]).name@ == n && record_counts(
        rs[k],
        with_unaddressed,
    )
}

/// After the records of the system's interface list, the table names exactly
/// the interfaces it named before and those of the records that count, each
/// once.
pub proof fn law_records_name_each_interface_once(
    v: Seq<NetView>,
    rs: Seq<IfRecord>,
    with_unaddressed: bool,
    n: Seq<char>,
)
    requires
        names_distinct(v),
    ensures
        names_distinct(records_view(v, rs, with_unaddressed)),
        has_name(records_view(v, rs, with_unaddressed), n) <==> has_name(v, n) || listed(
            rs,
            n,
            with_unaddressed,
        ),
    decreases rs.len(),
{
    if rs.len() > 0 {
        let f = with_unaddressed;
        let before = rs.drop_last();
        let r = rs.last();
        law_records_name_each_interface_once(v, before, f, n);
        law_records_name_each_interface_once(v, before, f, r.name@);
        let p = records_view(v, before, f);
        let w = records_view(v, rs, f);
        lemma_record_step_shape(p, r, f);
        assert(w == record_step(p, r, f));
        // the names stay distinct
        assert forall|a: int, b: int| 0 <= a < b < w.len() implies (#[trigger] w[a]).name != (
        #[trigger] w[b]).name by {
            if b < p.len() {
                assert(p[a].name != p[b].name);
            } else {
                if p[a].name == r.name@ {
                    assert(has_name(p, r.name@));
                }
            }
        }
        // which names there are
        if has_name(w, n) {
            let j = choose|j: int| 0 <= j < w.len() && (#[trigger] w[j]).name == n;
            if j < p.len() {
                assert(p[j].name == n);
            } else {
                assert(rs[rs.len() - 1] == r);
            }
        }
        if listed(rs, n, f) {
            let k = choose|k: int|
                0 <= k < rs.len() && (#[trigger] rs[k]).name@ == n && record_counts(rs[k], f);
            if k < rs.len() - 1 {
                assert(before[k] == rs[k]);
            } else if has_name(p, n) {
            } else {
                assert(w[p.len() as int].name == n);
            }
        }
        if has_name(p, n) {
            let j = choose|j: int| 0 <= j < p.len() && (#[trigger] p[j]).name == n;
            assert(w[j].name == n);
        }
        if listed(before, n, f) {
            let k = choose|k: int|
                0 <= k < before.len() && (#[trigger] before[k]).name@ == n && record_counts(
                    before[k],
                    f,
                );
            assert(rs[k] == before[k]);
        }
    }
}

/// Starting from an empty table, each interface's state is that of the first
/// record that counts for it.
pub proof fn law_records_state_from_first(rs: Seq<IfRecord>, with_unaddressed: bool, j: int, k: int)
    requires
        0 <= j < records_view(Seq::empty(), rs, with_unaddressed).len(),
        0 <= k < rs.len(),
        rs[k].name@ == records_view(Seq::empty(), rs, with_unaddressed)[j].name,
        record_counts(rs[k], with_unaddressed),
        forall|m: int|
            0 <= m < k ==> !((#[trigger] rs[m]).name@ == rs[k].name@ && record_counts(
                rs[m],
                with_unaddressed,
            )),
    ensures
        records_view(Seq::empty(), rs, with_unaddressed)[j].up == rs[k].up,
    decreases rs.len(),
{
    let f = with_unaddressed;
    let e = Seq::<NetView>::empty();
    let before = rs.drop_last();
    let r = rs.last();
    let n = rs[k].name@;
    let p = records_view(e, before, f);
    let w = records_view(e, rs, f);
    assert(names_distinct(e));
    lemma_record_step_shape(p, r, f);
    assert(w == record_step(p, r, f));
    if k < rs.len() - 1 {
        law_records_name_each_interface_once(e, before, f, n);
        assert(before[k] == rs[k]);
        assert(listed(before, n, f));
        if j >= p.len() {
            assert(has_name(p, n));
        }
        assert forall|m: int| 0 <= m < k implies !((#[trigger] before[m]).name@ == before[k].name@
            && record_counts(before[m], f)) by {
            assert(before[m] == rs[m]);
        }
        law_records_state_from_first(before, f, j, k);
    } else {
        law_records_name_each_interface_once(e, before, f, n);
        if listed(before, n, f) {
            let m = choose|m: int|
                0 <= m < before.len() && (#[trigger] before[m]).name@ == n && record_counts(
                    before[m],
                    f,
                );
            assert(rs[m] == before[m]);
        }
        if j < p.len() {
            assert(p[j].name == n);
            assert(has_name(p, n));
        }
    }
}


// ───────────────────────────── xrandr outputs ─────────────────────────────

/// Whether a line of `xrandr` output is the header of a connected output.
pub open spec fn is_connected_header(line: Seq<char>) -> bool {
    has_infix(line, " connected"@)
}

/// The name an output header gives: its first word.
pub open spec fn header_name(line: Seq<char>) -> Seq<char> {
    let ws = words_of(line);
    if ws.len() > 0 {
        ws[0]
    } else {
        "Unknown"@
    }
}

/// The index of the last connected-output header among the lines, or -1.
pub open spec fn last_header(ls: Seq<Seq<char>>) -> int
    decreases ls.len(),
{
    if ls.len() == 0 {
        -1
    } else if is_connected_header(ls.last()) {
        ls.len() - 1
    } else {
        last_header(ls.drop_last())
    }
}

/// For each display that `xrandr` output yields, the index of its header
/// line and of the mode line marked `*` that reported it.
pub open spec fn display_lines(ls: Seq<Seq<char>>) -> Seq<(int, int)>
    decreases ls.len(),
{
    if ls.len() == 0 {
        seq![]
    } else {
        let p = ls.drop_last();
        let s = xrandr_scan(p);
        if xrandr_step(s, ls.last()).displays.len() > s.displays.len() {
            display_lines(p).push((last_header(p), ls.len() - 1))
        } else {
            display_lines(p)
        }
    }
}

proof fn lemma_last_header(ls: Seq<Seq<char>>)
    ensures
        -1 <= last_header(ls) < ls.len(),
        last_header(ls) >= 0 ==> is_connected_header(ls[last_header(ls)]),
        forall|q: int| last_header(ls) < q < ls.len() ==> !is_connected_header(#[trigger] ls[q]),
    decreases ls.len(),
{
    if ls.len() > 0 {
        let p = ls.drop_last();
        lemma_last_header(p);
        assert forall|q: int| last_header(ls) < q < ls.len() implies !is_connected_header(
            #[trigger] ls[q],
        ) by {
            if q < p.len() {
                assert(ls[q] == p[q]);
            }
        }
    }
}

/// Whether the pair `(h, m)` of line indices is a header followed by a mode
/// line marked `*`, with no header between them.
pub open spec fn header_and_mode(ls: Seq<Seq<char>>, h: int, m: int) -> bool {
    &&& 0 <= h < m < ls.len()
    &&& is_connected_header(ls[h])
    &&& ls[m].contains('*')
    &&& forall|q: int| h < q < m ==> !is_connected_header(#[trigger] ls[q])
}

/// Whether a display's size is that of its header's `WIDTHxHEIGHT+X+Y` word
/// when both of its sides are positive, and else that of the first word of
/// its mode line.
pub open spec fn size_from_header_first(ls: Seq<Seq<char>>, h: int, m: int, width: u32, height: u32) -> bool {
    let hr = connected_resolution(words_of(ls[h]));
    if hr.0 > 0 && hr.1 > 0 {
        width == hr.0 && height == hr.1
    } else {
        words_of(trimmed(ls[m])).len() > 0 && dimensions_of(words_of(trimmed(ls[m]))[0]) == Some(
            (width, height),
        )
    }
}

proof fn lemma_xrandr_lines(ls: Seq<Seq<char>>)
    ensures
        ({
            let s = xrandr_scan(ls);
            let hs = display_lines(ls);
            let h = last_header(ls);
            &&& hs.len() == s.displays.len()
            &&& forall|i: int|
                0 <= i < hs.len() ==> header_and_mode(ls, (#[trigger] hs[i]).0, hs[i].1)
                    && s.displays[i].is_primary == has_infix(ls[hs[i].0], " primary "@)
                    && s.displays[i].name == header_name(ls[hs[i].0]) && hs[i].0 <= h && (
                s.in_output ==> hs[i].0 < h) && size_from_header_first(
                    ls,
                    hs[i].0,
                    hs[i].1,
                    s.displays[i].width,
                    s.displays[i].height,
                )
            &&& forall|i: int, j: int| 0 <= i < j < hs.len() ==> (#[trigger] hs[i]).0 < (
            #[trigger] hs[j]).0
            &&& s.in_output ==> h >= 0
            &&& h >= 0 ==> s.primary == has_infix(ls[h], " primary "@) && s.name == header_name(
                ls[h],
            )
            &&& s.in_output ==> (s.width, s.height) == connected_resolution(words_of(ls[h]))
        }),
    decreases ls.len(),
{
    if ls.len() > 0 {
        let p = ls.drop_last();
        let line = ls.last();
        let n = ls.len() - 1;
        lemma_xrandr_lines(p);
        lemma_last_header(p);
        lemma_last_header(ls);
        let s = xrandr_scan(p);
        let t = xrandr_scan(ls);
        assert(t == xrandr_step(s, line));
        let hp = display_lines(p);
        let hs = display_lines(ls);
        let h0 = last_header(p);
        assert forall|q: int| 0 <= q < p.len() implies #[trigger] ls[q] == p[q] by {}
        assert forall|i: int| 0 <= i < hp.len() implies header_and_mode(ls, (#[trigger] hp[i]).0, hp[i].1) by {
            assert(header_and_mode(p, hp[i].0, hp[i].1));
            assert forall|q: int| hp[i].0 < q < hp[i].1 implies !is_connected_header(#[trigger] ls[q]) by {
                assert(ls[q] == p[q]);
            }
        }
        if is_connected_header(line) {
            assert(hs == hp);
            assert(last_header(ls) == n);
        } else if t.displays.len() > s.displays.len() {
            assert(hs == hp.push((h0, n)));
            assert(last_header(ls) == h0);
            assert forall|q: int| h0 < q < n implies !is_connected_header(#[trigger] ls[q]) by {
                assert(ls[q] == p[q]);
            }
            assert(header_and_mode(ls, h0, n));
        } else {
            assert(hs == hp);
            assert(last_header(ls) == h0);
        }
    }
}

/// Each display that `xrandr` output yields comes from its own connected
/// output: a header line, followed before the next header by a mode line
/// marked `*`. The display is primary exactly when that header holds
/// `" primary "`, and is named by the header's first word. Its size is the
/// header's `WIDTHxHEIGHT+X+Y` when both sides are positive, whatever the mode
/// line says; the mode line gives the size only when the header has none.
/// The headers of successive displays come in the order of the output.
pub proof fn law_xrandr_display_per_connected_output(ls: Seq<Seq<char>>)
    ensures
        display_lines(ls).len() == xrandr_scan(ls).displays.len(),
        forall|i: int|
            0 <= i < display_lines(ls).len() ==> header_and_mode(
                ls,
                (#[trigger] display_lines(ls)[i]).0,
                display_lines(ls)[i].1,
            ) && xrandr_scan(ls).displays[i].is_primary == has_infix(
                ls[display_lines(ls)[i].0],
                " primary "@,
            ) && xrandr_scan(ls).displays[i].name == header_name(ls[display_lines(ls)[i].0])
                && size_from_header_first(
                ls,
                display_lines(ls)[i].0,
                display_lines(ls)[i].1,
                xrandr_scan(ls).displays[i].width,
                xrandr_scan(ls).displays[i].height,
            ),
        forall|i: int, j: int|
            0 <= i < j < display_lines(ls).len() ==> (#[trigger] display_lines(ls)[i]).0 < (
            #[trigger] display_lines(ls)[j]).0,
{
    lemma_xrandr_lines(ls);
}


// ───────────────────────────── graphics vendors on macOS ─────────────────────────────

/// Whether the vendor field or the name of an adapter shows Apple, AMD (ATI,
/// Radeon) or NVIDIA (GeForce).
pub open spec fn shows_other_than_intel(vendor_raw: Seq<char>, name: Seq<char>) -> bool {
    ||| has_infix(vendor_raw, "apple"@)
    ||| has_infix(name, "Apple"@)
    ||| has_infix(vendor_raw, "amd"@)
    ||| has_infix(vendor_raw, "ATI"@)
    ||| has_infix(name, "AMD"@)
    ||| has_infix(name, "Radeon"@)
    ||| has_infix(vendor_raw, "nvidia"@)
    ||| has_infix(name, "NVIDIA"@)
    ||| has_infix(name, "GeForce"@)
}

/// Whether the vendor field or the name of an adapter shows a known vendor.
pub open spec fn shows_known_vendor(vendor_raw: Seq<char>, name: Seq<char>) -> bool {
    shows_other_than_intel(vendor_raw, name) || has_infix(vendor_raw, "intel"@) || has_infix(
        name,
        "Intel"@,
    )
}

/// An adapter whose vendor field (not empty) says `intel`, or whose name says
/// `Intel`, and that shows no other known vendor, is an Intel adapter.
pub proof fn law_gpu_intel_is_recognised(vendor_raw: Seq<char>, name: Seq<char>)
    requires
        vendor_raw.len() > 0,
        has_infix(vendor_raw, "intel"@) || has_infix(name, "Intel"@),
        !shows_other_than_intel(vendor_raw, name),
    ensures
        macos_gpu_vendor_of(vendor_raw, name) == "Intel"@,
{
}

/// The vendor reported for an adapter is one of the known vendors whenever
/// its vendor field or name shows one; the vendor field itself is reported
/// only when it shows none.
pub proof fn law_gpu_raw_vendor_only_when_unrecognised(vendor_raw: Seq<char>, name: Seq<char>)
    ensures
        shows_known_vendor(vendor_raw, name) ==> {
            let v = macos_gpu_vendor_of(vendor_raw, name);
            v == "Apple"@ || v == "AMD"@ || v == "NVIDIA"@ || v == "Intel"@
        },
        vendor_raw.len() > 0 && !shows_known_vendor(vendor_raw, name) ==> macos_gpu_vendor_of(
            vendor_raw,
            name,
        ) == vendor_raw,
{
    if vendor_raw.len() == 0 {
        reveal_strlit("apple");
        reveal_strlit("amd");
        reveal_strlit("ATI");
        reveal_strlit("nvidia");
        reveal_strlit("intel");
        assert forall|p: Seq<char>| p.len() > 0 implies !has_infix(vendor_raw, p) by {
            if has_infix(vendor_raw, p) {
                let i = choose|i: int| crate::text::occurs_at(vendor_raw, p, i);
            }
        }
        assert(!has_infix(vendor_raw, "apple"@));
        assert(!has_infix(vendor_raw, "amd"@));
        assert(!has_infix(vendor_raw, "ATI"@));
        assert(!has_infix(vendor_raw, "nvidia"@));
        assert(!has_infix(vendor_raw, "intel"@));
    }
}

/// The known vendors take precedence in a fixed order: Apple, then AMD (ATI,
/// Radeon), then NVIDIA (GeForce), then Intel; an adapter with an empty vendor
/// field whose name shows none of them is of an unknown vendor.
pub proof fn law_gpu_vendor_precedence(vendor_raw: Seq<char>, name: Seq<char>)
    ensures
        has_infix(vendor_raw, "apple"@) || has_infix(name, "Apple"@) ==> macos_gpu_vendor_of(
            vendor_raw,
            name,
        ) == "Apple"@,
        !(has_infix(vendor_raw, "apple"@) || has_infix(name, "Apple"@)) && (has_infix(
            vendor_raw,
            "amd"@,
        ) || has_infix(vendor_raw, "ATI"@) || has_infix(name, "AMD"@) || has_infix(name, "Radeon"@))
            ==> macos_gpu_vendor_of(vendor_raw, name) == "AMD"@,
        !(has_infix(vendor_raw, "apple"@) || has_infix(name, "Apple"@) || has_infix(
            vendor_raw,
            "amd"@,
        ) || has_infix(vendor_raw, "ATI"@) || has_infix(name, "AMD"@) || has_infix(name, "Radeon"@))
            && (has_infix(vendor_raw, "nvidia"@) || has_infix(name, "NVIDIA"@) || has_infix(
            name,
            "GeForce"@,
        )) ==> macos_gpu_vendor_of(vendor_raw, name) == "NVIDIA"@,
        vendor_raw.len() == 0 && !shows_known_vendor(vendor_raw, name) ==> macos_gpu_vendor_of(
            vendor_raw,
            name,
        ) == "Unknown"@,
{
    law_gpu_raw_vendor_only_when_unrecognised(vendor_raw, name);
    if vendor_raw.len() == 0 {
        reveal_strlit("apple");
        reveal_strlit("amd");
        reveal_strlit("ATI");
        reveal_strlit("nvidia");
        assert forall|p: Seq<char>| p.len() > 0 implies !has_infix(vendor_raw, p) by {
            if has_infix(vendor_raw, p) {
                let i = choose|i: int| crate::text::occurs_at(vendor_raw, p, i);
            }
        }
        assert(!has_infix(vendor_raw, "apple"@));
        assert(!has_infix(vendor_raw, "amd"@));
        assert(!has_infix(vendor_raw, "ATI"@));
        assert(!has_infix(vendor_raw, "nvidia"@));
    }
}

// ───────────────────────────── Windows battery ─────────────────────────────

/// Whenever the charging bit (8) of the battery flags is set, and the flags do
/// not say there is no battery, the battery is charging, whatever the other
/// bits; the full battery life is then reported when it is known and the
/// charge is strictly between 0 and 100.
pub proof fn law_windows_charging_bit_means_charging(
    ac_line: u8,
    flag: u8,
    life_percent: u8,
    life_time: u32,
    full_life_time: u32,
)
    requires
        flag != 128,
        flag & 8 != 0,
    ensures
        windows_battery_of(ac_line, flag, life_percent, life_time, full_life_time) matches Some(b)
            && b.status == BatteryStatus::Charging && (full_life_time != u32::MAX && 0
            < b.charge_percent < 100 ==> b.full_lifetime_secs == Some(full_life_time)),
{
}

/// Without the charging bit, the battery is never reported as charging.
pub proof fn law_windows_charging_only_with_bit(
    ac_line: u8,
    flag: u8,
    life_percent: u8,
    life_time: u32,
    full_life_time: u32,
)
    requires
        flag & 8 == 0,
    ensures
        windows_battery_of(ac_line, flag, life_percent, life_time, full_life_time) matches Some(b)
            ==> b.status != BatteryStatus::Charging && b.full_lifetime_secs is None,
{
}

/// Without the charging bit, the charger line decides: off line, discharging;
/// on line, full at 100 % and more, else not charging. The time left is
/// reported unless it is unknown (`u32::MAX`), and an unknown charge (255)
/// reads as 0.
pub proof fn law_windows_status_without_charging_bit(
    ac_line: u8,
    flag: u8,
    life_percent: u8,
    life_time: u32,
    full_life_time: u32,
)
    requires
        flag != 128,
        flag & 8 == 0,
    ensures
        windows_battery_of(ac_line, flag, life_percent, life_time, full_life_time) matches Some(b)
            && (life_percent == 255 ==> b.charge_percent == 0) && (life_percent != 255
            ==> b.charge_percent == life_percent) && (ac_line == 0 ==> b.status
            == BatteryStatus::Discharging) && (ac_line == 1 && b.charge_percent >= 100 ==> b.status
            == BatteryStatus::Full) && (ac_line == 1 && b.charge_percent < 100 ==> b.status
            == BatteryStatus::NotCharging) && (ac_line > 1 ==> b.status == BatteryStatus::Unknown)
            && (life_time != u32::MAX ==> b.time_to_empty_secs == Some(life_time as u64)) && (
        life_time == u32::MAX ==> b.time_to_empty_secs is None),
{
}

/// The flags value 128 says there is no battery.
pub proof fn law_windows_no_battery_flag(
    ac_line: u8,
    life_percent: u8,
    life_time: u32,
    full_life_time: u32,
)
    ensures
        windows_battery_of(ac_line, 128, life_percent, life_time, full_life_time) is None,
{
}

// ───────────────────────────── mounts ─────────────────────────────

/// The file systems that live on block devices.
pub open spec fn block_device_fs(t: Seq<char>) -> bool {
    ||| t == "ext2"@
    ||| t == "ext3"@
    ||| t == "ext4"@
    ||| t == "xfs"@
    ||| t == "btrfs"@
    ||| t == "vfat"@
    ||| t == "ntfs"@
    ||| t == "exfat"@
    ||| t == "f2fs"@
    ||| t == "jfs"@
    ||| t == "reiserfs"@
    ||| t == "zfs"@
}

/// The file systems that hold no disk, and whose mounts are passed over.
pub open spec fn diskless_fs_types() -> Seq<Seq<char>> {
    seq![
        "proc"@,
        "sysfs"@,
        "devtmpfs"@,
        "tmpfs"@,
        "cgroup"@,
        "cgroup2"@,
        "pstore"@,
        "debugfs"@,
        "securityfs"@,
        "configfs"@,
        "fusectl"@,
        "mqueue"@,
        "hugetlbfs"@,
        "devpts"@,
        "autofs"@,
        "binfmt_misc"@,
        "tracefs"@,
        "efivarfs"@,
        "bpf"@,
        "overlay"@,
        "nsfs"@,
        "ramfs"@,
        "rpc_pipefs"@,
        "nfsd"@,
        "fuse.portal"@,
        "fuse.gvfsd-fuse"@,
    ]
}

/// A line of `/proc/mounts` with at least four fields and a device under
/// `/dev/` is a mount entry exactly when its file system is not one of the
/// disk-less ones; its device, mount point and type are its first three fields.
pub proof fn law_mounts_skip_exactly_diskless_fs(line: Seq<char>)
    requires
        words_of(line).len() >= 4,
        has_prefix(words_of(line)[0], "/dev/"@),
    ensures
        diskless_fs_types().contains(words_of(line)[2]) ==> mount_candidate(line) is None,
        !diskless_fs_types().contains(words_of(line)[2]) ==> mount_candidate(line) == Some(
            (words_of(line)[0], words_of(line)[1], words_of(line)[2]),
        ),
{
    assert(pseudo_fs_names() =~= diskless_fs_types());
}

/// A line of `/proc/mounts` with at least four fields, a device under `/dev/`
/// and a block-device file system (ext4, xfs, btrfs, vfat, …) is always a
/// mount entry.
pub proof fn law_block_device_mounts_are_kept(line: Seq<char>)
    requires
        words_of(line).len() >= 4,
        has_prefix(words_of(line)[0], "/dev/"@),
        block_device_fs(words_of(line)[2]),
    ensures
        mount_candidate(line) == Some((words_of(line)[0], words_of(line)[1], words_of(line)[2])),
{
    let t = words_of(line)[2];
    let names = diskless_fs_types();
    assert(!names.contains(t)) by {
        reveal_strlit("ext2");
        reveal_strlit("ext3");
        reveal_strlit("ext4");
        reveal_strlit("xfs");
        reveal_strlit("btrfs");
        reveal_strlit("vfat");
        reveal_strlit("ntfs");
        reveal_strlit("exfat");
        reveal_strlit("f2fs");
        reveal_strlit("jfs");
        reveal_strlit("reiserfs");
        reveal_strlit("zfs");
        reveal_strlit("proc");
        reveal_strlit("sysfs");
        reveal_strlit("devtmpfs");
        reveal_strlit("tmpfs");
        reveal_strlit("cgroup");
        reveal_strlit("cgroup2");
        reveal_strlit("pstore");
        reveal_strlit("debugfs");
        reveal_strlit("securityfs");
        reveal_strlit("configfs");
        reveal_strlit("fusectl");
        reveal_strlit("mqueue");
        reveal_strlit("hugetlbfs");
        reveal_strlit("devpts");
        reveal_strlit("autofs");
        reveal_strlit("binfmt_misc");
        reveal_strlit("tracefs");
        reveal_strlit("efivarfs");
        reveal_strlit("bpf");
        reveal_strlit("overlay");
        reveal_strlit("nsfs");
        reveal_strlit("ramfs");
        reveal_strlit("rpc_pipefs");
        reveal_strlit("nfsd");
        reveal_strlit("fuse.portal");
        reveal_strlit("fuse.gvfsd-fuse");
        assert forall|i: int| 0 <= i < names.len() implies names[i] != t by {
            if names[i] == t {
                assert(names[i].len() == t.len());
                assert(names[i][0] == t[0]);
                assert(names[i][1] == t[1]);
            }
        }
    }
    law_mounts_skip_exactly_diskless_fs(line);
}

// ───────────────────────────── critical temperatures ─────────────────────────────

/// The critical temperature a trip point gives: its temperature, when its
/// type is `critical` and the temperature reads as a number.
pub open spec fn trip_critical(t: TripPoint) -> Option<i64> {
    match opt_string(t.kind) {
        Some(k) => if trimmed(k) == "critical"@ {
            file_millis(opt_string(t.temp))
        } else {
            None
        },
        None => None,
    }
}

/// A zone's critical temperature is that of its first trip point, counting
/// from trip point 0, that gives one.
pub proof fn law_critical_from_first_critical_trip(trips: Seq<TripPoint>, i: int)
    requires
        0 <= i < trips.len(),
        trip_critical(trips[i]) is Some,
        forall|j: int| 0 <= j < i ==> trip_critical(#[trigger] trips[j]) is None,
    ensures
        critical_of(trips) == trip_critical(trips[i]),
    decreases i,
{
    if i > 0 {
        let rest = trips.drop_first();
        assert forall|j: int| 0 <= j < i - 1 implies trip_critical(#[trigger] rest[j]) is None by {
            assert(rest[j] == trips[j + 1]);
        }
        assert(trip_critical(trips[0]) is None);
        assert(rest[i - 1] == trips[i]);
        law_critical_from_first_critical_trip(rest, i - 1);
    }
}

/// A zone none of whose trip points gives a critical temperature has none.
pub proof fn law_no_critical_trip_no_critical(trips: Seq<TripPoint>)
    requires
        forall|j: int| 0 <= j < trips.len() ==> trip_critical(#[trigger] trips[j]) is None,
    ensures
        critical_of(trips) is None,
    decreases trips.len(),
{
    if trips.len() > 0 {
        let rest = trips.drop_first();
        assert forall|j: int| 0 <= j < rest.len() implies trip_critical(#[trigger] rest[j]) is None by {
            assert(rest[j] == trips[j + 1]);
        }
        assert(trip_critical(trips[0]) is None);
        law_no_critical_trip_no_critical(rest);
    }
}

} // verus!
