//! Linux batteries (`/sys/class/power_supply`) and temperature sensors
//! (`/sys/class/thermal`, `/sys/class/hwmon`).
use vstd::prelude::*;
use crate::linux::{opt_chars, sat_sub};
use crate::models::{BatteryReading, BatteryStatus, ThermalReading};
use crate::numbers::{i64_of, mul_wrap, parse_i64, parse_u32, parse_u64, u32_of, u64_of, wrap64};
use crate::text::{
    chars_of, eq_str, has_prefix, has_suffix, string_from_chars, subvec, trim, trimmed,
};

verus! {

// ───────────────────────────── batteries ─────────────────────────────

/// Whether the text of a power supply's `type` file names a battery.
pub fn is_battery_type(text: &str) -> (r: bool)
    ensures
        r == (trimmed(text@) == "Battery"@),
{
    eq_str(&trim(&chars_of(text)), "Battery")
}

/// The status that the text of a battery's `status` file names (`None` when it
/// cannot be read, which counts as empty).
pub open spec fn status_of(text: Option<Seq<char>>) -> BatteryStatus {
    let s = match text {
        Some(t) => trimmed(t),
        None => trimmed(seq![]),
    };
    if s == "Charging"@ {
        BatteryStatus::Charging
    } else if s == "Discharging"@ {
        BatteryStatus::Discharging
    } else if s == "Full"@ {
        BatteryStatus::Full
    } else if s == "Not charging"@ {
        BatteryStatus::NotCharging
    } else {
        BatteryStatus::Unknown
    }
}

/// The status of a battery from the text of its `status` file.
pub fn battery_status(text: Option<&str>) -> (r: BatteryStatus)
    ensures
        r == status_of(opt_chars(text)),
{
    let t = match text {
        Some(t) => chars_of(t),
        None => Vec::new(),
    };
    assert(text is None ==> t@ =~= Seq::<char>::empty());
    let s = trim(&t);
    if eq_str(&s, "Charging") {
        BatteryStatus::Charging
    } else if eq_str(&s, "Discharging") {
        BatteryStatus::Discharging
    } else if eq_str(&s, "Full") {
        BatteryStatus::Full
    } else if eq_str(&s, "Not charging") {
        BatteryStatus::NotCharging
    } else {
        BatteryStatus::Unknown
    }
}

/// The texts of a battery's files in `/sys/class/power_supply/<name>`, each
/// `None` when it cannot be read.
pub struct BatteryFiles {
    pub status: Option<String>,
    pub cycle_count: Option<String>,
    pub energy_full_design: Option<String>,
    pub charge_full_design: Option<String>,
    pub voltage_min_design: Option<String>,
    pub energy_full: Option<String>,
    pub charge_full: Option<String>,
    pub time_to_empty_avg: Option<String>,
    pub time_to_full_avg: Option<String>,
    pub energy_now: Option<String>,
    pub power_now: Option<String>,
}

/// The characters of an optional string.
pub open spec fn opt_string(o: Option<String>) -> Option<Seq<char>> {
    match o {
        Some(s) => Some(s@),
        None => None,
    }
}

/// The number a file holds, trimmed; none when it cannot be read or does not
/// read as a `u64`.
pub open spec fn file_num(text: Option<Seq<char>>) -> Option<u64> {
    match text {
        Some(t) => u64_of(trimmed(t)),
        None => None,
    }
}

/// A capacity in mWh: the energy file (µWh) divided by 1000, else the charge
/// file (µAh) times the minimum design voltage (µV, 3.7 V when unknown), in
/// wrapping arithmetic, divided by 10⁹.
pub open spec fn capacity_mwh(
    energy: Option<Seq<char>>,
    charge: Option<Seq<char>>,
    voltage: Option<Seq<char>>,
) -> Option<u64> {
    match file_num(energy) {
        Some(uwh) => Some((uwh / 1000) as u64),
        None => match file_num(charge) {
            Some(uah) => {
                let uv: u64 = match file_num(voltage) {
                    Some(v) => v,
                    None => 3_700_000,
                };
                Some((wrap64(uah * uv) / 1_000_000_000) as u64)
            },
            None => None,
        },
    }
}

/// The power draw in µW when it reads as a positive number.
pub open spec fn positive_power(f: BatteryFiles) -> Option<u64> {
    match file_num(opt_string(f.power_now)) {
        Some(p) => if p > 0 {
            Some(p)
        } else {
            None
        },
        None => None,
    }
}

/// Seconds until empty: `time_to_empty_avg`, else, while discharging, the
/// energy left over the power draw.
pub open spec fn time_to_empty_of(f: BatteryFiles, status: BatteryStatus) -> Option<u64> {
    match file_num(opt_string(f.time_to_empty_avg)) {
        Some(s) => Some(s),
        None => if status != BatteryStatus::Discharging {
            None
        } else {
            match (file_num(opt_string(f.energy_now)), positive_power(f)) {
                (Some(e), Some(p)) => Some((wrap64(e * 3600) / p) as u64),
                _ => None,
            }
        },
    }
}

/// Seconds until full: `time_to_full_avg`, else, while charging, the energy
/// missing over the power draw.
pub open spec fn time_to_full_of(f: BatteryFiles, status: BatteryStatus) -> Option<u64> {
    match file_num(opt_string(f.time_to_full_avg)) {
        Some(s) => Some(s),
        None => if status != BatteryStatus::Charging {
            None
        } else {
            match (
                file_num(opt_string(f.energy_now)),
                file_num(opt_string(f.energy_full)),
                positive_power(f),
            ) {
                (Some(e), Some(full), Some(p)) => Some(
                    (wrap64(sat_sub(full, e) * 3600) / p) as u64,
                ),
                _ => None,
            }
        },
    }
}

fn num_file(text: &Option<String>) -> (r: Option<u64>)
    ensures
        r == file_num(opt_string(*text)),
{
    match text {
        Some(t) => parse_u64(&trim(&chars_of(t.as_str()))),
        None => None,
    }
}

fn capacity(energy: &Option<String>, charge: &Option<String>, voltage: &Option<String>) -> (r:
    Option<u64>)
    ensures
        r == capacity_mwh(opt_string(*energy), opt_string(*charge), opt_string(*voltage)),
{
    match num_file(energy) {
        Some(uwh) => Some(uwh / 1000),
        None => match num_file(charge) {
            Some(uah) => {
                let uv = match num_file(voltage) {
                    Some(v) => v,
                    None => 3_700_000,
                };
                Some(mul_wrap(uah, uv) / 1_000_000_000)
            },
            None => None,
        },
    }
}

/// Whether the text of a power supply's `type` file says `Battery`.
pub open spec fn supply_is_battery(t: Option<String>) -> bool {
    match t {
        Some(s) => trimmed(s@) == "Battery"@,
        None => false,
    }
}

/// The index of the first power supply, of those of `/sys/class/power_supply`
/// in order, whose `type` file (`None` when it cannot be read) says `Battery`.
pub fn first_battery(types: &Vec<Option<String>>) -> (r: Option<usize>)
    ensures
        r matches Some(i) ==> i < types@.len() && supply_is_battery(types@[i as int]) && forall|k: int|
            0 <= k < i ==> !supply_is_battery(#[trigger] types@[k]),
        r is None ==> forall|k: int| 0 <= k < types@.len() ==> !supply_is_battery(#[trigger] types@[k]),
{
    let mut i: usize = 0;
    while i < types.len()
        invariant
            i <= types.len(),
            forall|k: int| 0 <= k < i ==> !supply_is_battery(#[trigger] types@[k]),
        decreases types.len() - i,
    {
        match &types[i] {
            Some(t) => {
                if is_battery_type(t.as_str()) {
                    return Some(i);
                }
            },
            None => {},
        }
        i += 1;
    }
    None
}

/// The Linux reading of a battery, from the texts of its files: status, cycle
/// count, capacities and the times until empty and until full.
pub fn linux_battery(files: &BatteryFiles) -> (r: BatteryReading)
    ensures
        r.status == status_of(opt_string(files.status)),
        r.cycle_count == match opt_string(files.cycle_count) {
            Some(t) => u32_of(trimmed(t)),
            None => None,
        },
        r.design_capacity_mwh == capacity_mwh(
            opt_string(files.energy_full_design),
            opt_string(files.charge_full_design),
            opt_string(files.voltage_min_design),
        ),
        r.full_charge_capacity_mwh == capacity_mwh(
            opt_string(files.energy_full),
            opt_string(files.charge_full),
            opt_string(files.voltage_min_design),
        ),
        r.time_to_empty_secs == time_to_empty_of(*files, r.status),
        r.time_to_full_secs == time_to_full_of(*files, r.status),
{
    let status = match &files.status {
        Some(t) => battery_status(Some(t.as_str())),
        None => battery_status(None),
    };
    let cycle_count = match &files.cycle_count {
        Some(t) => parse_u32(&trim(&chars_of(t.as_str()))),
        None => None,
    };
    let design = capacity(
        &files.energy_full_design,
        &files.charge_full_design,
        &files.voltage_min_design,
    );
    let full = capacity(&files.energy_full, &files.charge_full, &files.voltage_min_design);
    let power = match num_file(&files.power_now) {
        Some(p) => if p > 0 {
            Some(p)
        } else {
            None
        },
        None => None,
    };
    let tte = match num_file(&files.time_to_empty_avg) {
        Some(s) => Some(s),
        None => if status != BatteryStatus::Discharging {
            None
        } else {
            match (num_file(&files.energy_now), power) {
                (Some(e), Some(p)) => Some(mul_wrap(e, 3600) / p),
                _ => None,
            }
        },
    };
    let ttf = match num_file(&files.time_to_full_avg) {
        Some(s) => Some(s),
        None => if status != BatteryStatus::Charging {
            None
        } else {
            match (num_file(&files.energy_now), num_file(&files.energy_full), power) {
                (Some(e), Some(f), Some(p)) => Some(mul_wrap(f.saturating_sub(e), 3600) / p),
                _ => None,
            }
        },
    };
    BatteryReading {
        status,
        cycle_count,
        design_capacity_mwh: design,
        full_charge_capacity_mwh: full,
        time_to_empty_secs: tte,
        time_to_full_secs: ttf,
    }
}

// ───────────────────────────── temperatures ─────────────────────────────

/// Whether an entry of `/sys/class/thermal` is a thermal zone.
pub fn is_thermal_zone(name: &str) -> (r: bool)
    ensures
        r == has_prefix(name@, "thermal_zone"@),
{
    crate::text::starts_with(&chars_of(name), "thermal_zone")
}

/// A millidegree figure in a file, trimmed.
pub open spec fn file_millis(text: Option<Seq<char>>) -> Option<i64> {
    match text {
        Some(t) => i64_of(trimmed(t)),
        None => None,
    }
}

/// The texts of a trip point's `trip_point_<i>_type` and `trip_point_<i>_temp`
/// files, each `None` when it cannot be read.
pub struct TripPoint {
    pub kind: Option<String>,
    pub temp: Option<String>,
}

/// The critical temperature of a zone: that of the first trip point whose type
/// is `critical` and whose temperature reads as a number.
pub open spec fn critical_of(trips: Seq<TripPoint>) -> Option<i64>
    decreases trips.len(),
{
    if trips.len() == 0 {
        None
    } else {
        let t = trips[0];
        let here = match opt_string(t.kind) {
            Some(k) => if trimmed(k) == "critical"@ {
                file_millis(opt_string(t.temp))
            } else {
                None
            },
            None => None,
        };
        match here {
            Some(c) => Some(c),
            None => critical_of(trips.drop_first()),
        }
    }
}

fn millis_file(text: &Option<String>) -> (r: Option<i64>)
    ensures
        r == file_millis(opt_string(*text)),
{
    match text {
        Some(t) => parse_i64(&trim(&chars_of(t.as_str()))),
        None => None,
    }
}

fn critical_from(trips: &Vec<TripPoint>) -> (r: Option<i64>)
    ensures
        r == critical_of(trips@),
{
    let mut i: usize = 0;
    assert(trips@.skip(0) =~= trips@);
    while i < trips.len()
        invariant
            i <= trips.len(),
            critical_of(trips@.skip(i as int)) == critical_of(trips@),
        decreases trips.len() - i,
    {
        let ghost rest = trips@.skip(i as int);
        assert(rest[0] == trips@[i as int]);
        let here = match &trips[i].kind {
            Some(k) => if eq_str(&trim(&chars_of(k.as_str())), "critical") {
                millis_file(&trips[i].temp)
            } else {
                None
            },
            None => None,
        };
        if here.is_some() {
            return here;
        }
        assert(rest.drop_first() =~= trips@.skip(i + 1));
        i += 1;
    }
    None
}

/// The reading of a thermal zone, from its entry name, the texts of its `temp`
/// and `type` files, and of its trip points 0 to 19 in order; none when the
/// temperature cannot be read as a number.
pub fn thermal_zone_reading(
    zone_name: &str,
    temp: Option<&str>,
    kind: Option<&str>,
    trips: &Vec<TripPoint>,
) -> (r: Option<ThermalReading>)
    ensures
        match file_millis(opt_chars(temp)) {
            None => r is None,
            Some(t) => r matches Some(z) && z.millidegrees == t && z.label@ == trimmed(
                match kind {
                    Some(k) => k@,
                    None => zone_name@,
                },
            ) && z.critical_millidegrees == critical_of(trips@),
        },
{
    let t = match temp {
        Some(s) => match parse_i64(&trim(&chars_of(s))) {
            Some(v) => v,
            None => return None,
        },
        None => return None,
    };
    let label_src = match kind {
        Some(k) => chars_of(k),
        None => chars_of(zone_name),
    };
    let critical = critical_from(trips);
    Some(
        ThermalReading {
            label: string_from_chars(&trim(&label_src)),
            millidegrees: t,
            critical_millidegrees: critical,
        },
    )
}

/// The index in the name of a `temp<i>_input` file of a hardware monitor.
pub open spec fn hwmon_index_of(name: Seq<char>) -> Option<Seq<char>> {
    if has_prefix(name, "temp"@) && has_suffix(name, "_input"@) {
        Some(name.subrange(4, name.len() - 6))
    } else {
        None
    }
}

/// The index in the name of a `temp<i>_input` file (`temp1_input` → `1`).
pub fn hwmon_temp_index(name: &str) -> (r: Option<String>)
    ensures
        r matches Some(i) ==> hwmon_index_of(name@) == Some(i@),
        r is None ==> hwmon_index_of(name@) is None,
{
    let n = chars_of(name);
    proof {
        reveal_strlit("temp");
        reveal_strlit("_input");
    }
    if crate::text::starts_with(&n, "temp") && crate::text::ends_with(&n, "_input") {
        proof {
            if n.len() < 10 {
                let k = n@.len() - 6;
                assert(n@.take(4)[k] == n@[k]);
                assert(n@.skip(n@.len() - 6)[0] == n@[k]);
                assert(false);
            }
        }
        let idx = subvec(&n, 4, n.len() - 6);
        Some(string_from_chars(&idx))
    } else {
        None
    }
}

/// The reading of a hardware monitor's sensor, from the texts of its
/// `temp<i>_input`, `temp<i>_label` and `temp<i>_crit` files, of the monitor's
/// `name` file, and the monitor's entry name; the label is the sensor's label,
/// else the monitor's name, else the entry name, trimmed; none when the
/// temperature cannot be read as a number.
pub fn hwmon_reading(
    temp: Option<&str>,
    label: Option<&str>,
    monitor_name: Option<&str>,
    entry_name: &str,
    crit: Option<&str>,
) -> (r: Option<ThermalReading>)
    ensures
        match file_millis(opt_chars(temp)) {
            None => r is None,
            Some(t) => r matches Some(z) && z.millidegrees == t && z.label@ == trimmed(
                match label {
                    Some(l) => l@,
                    None => match monitor_name {
                        Some(m) => m@,
                        None => entry_name@,
                    },
                },
            ) && z.critical_millidegrees == file_millis(opt_chars(crit)),
        },
{
    let t = match temp {
        Some(s) => match parse_i64(&trim(&chars_of(s))) {
            Some(v) => v,
            None => return None,
        },
        None => return None,
    };
    let src = match label {
        Some(l) => chars_of(l),
        None => match monitor_name {
            Some(m) => chars_of(m),
            None => chars_of(entry_name),
        },
    };
    let critical = match crit {
        Some(c) => parse_i64(&trim(&chars_of(c))),
        None => None,
    };
    Some(
        ThermalReading {
            label: string_from_chars(&trim(&src)),
            millidegrees: t,
            critical_millidegrees: critical,
        },
    )
}

} // verus!
