//! The records that the library hands out, and the integer readings from which
//! the floating-point ones (battery, thermal, display) are made.
use vstd::prelude::*;

verus! {

/// The operating system.
#[derive(Debug)]
pub struct OsInfo {
    pub name: String,
    pub version: String,
    pub full_version: String,
    pub hostname: String,
    pub arch: String,
    pub uptime_secs: u64,
    pub username: String,
}

/// The processor.
#[derive(Debug)]
pub struct CpuInfo {
    pub model: String,
    pub vendor: String,
    pub cores: u32,
    pub threads: u32,
    pub arch: String,
    pub frequency_mhz: u64,
}

/// Physical memory and swap, in bytes.
#[derive(Debug, Clone, Copy, PartialEq, Eq, Structural)]
pub struct MemoryInfo {
    pub total_bytes: u64,
    pub used_bytes: u64,
    pub free_bytes: u64,
    pub available_bytes: u64,
    pub swap_total_bytes: u64,
    pub swap_used_bytes: u64,
}

/// A mounted file system.
#[derive(Debug)]
pub struct DiskInfo {
    pub name: String,
    pub mount_point: String,
    pub fs_type: String,
    pub kind: DiskKind,
    pub total_bytes: u64,
    pub used_bytes: u64,
    pub free_bytes: u64,
    pub is_removable: bool,
}

/// Whether a disk is solid state or rotating.
#[derive(Debug, Clone, Copy, PartialEq, Eq, Structural)]
pub enum DiskKind {
    Ssd,
    Hdd,
    Unknown,
}

/// A graphics adapter.
#[derive(Debug)]
pub struct GpuInfo {
    pub name: String,
    pub vendor: String,
    pub vram_mb: u64,
    pub driver_version: String,
}

/// What a battery is doing.
#[derive(Debug, Clone, Copy, PartialEq, Eq, Structural)]
pub enum BatteryStatus {
    Charging,
    Discharging,
    Full,
    NotCharging,
    Unknown,
}

/// A network interface.
#[derive(Debug)]
pub struct NetworkInfo {
    pub name: String,
    pub mac_address: String,
    pub ipv4: Vec<String>,
    pub ipv6: Vec<String>,
    pub rx_bytes: u64,
    pub tx_bytes: u64,
    pub is_up: bool,
}

/// The integer part of a battery's report: everything but the charge and
/// health percentages, which are fractions.
#[derive(Debug, Clone, Copy, PartialEq, Eq, Structural)]
pub struct BatteryReading {
    pub status: BatteryStatus,
    pub cycle_count: Option<u32>,
    pub design_capacity_mwh: Option<u64>,
    pub full_charge_capacity_mwh: Option<u64>,
    pub time_to_empty_secs: Option<u64>,
    pub time_to_full_secs: Option<u64>,
}

/// A temperature sensor, with temperatures in thousandths of a degree Celsius.
#[derive(Debug)]
pub struct ThermalReading {
    pub label: String,
    pub millidegrees: i64,
    pub critical_millidegrees: Option<i64>,
}

} // verus!
