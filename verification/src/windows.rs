//! Windows: the records built from what the Win32 API reports.
use vstd::prelude::*;
use crate::linux::sat_sub;
use crate::macos::string_or;
use crate::models::{BatteryStatus, CpuInfo, DiskInfo, DiskKind, MemoryInfo, OsInfo};
use crate::numbers::{decimal, digits_in, hex_padded, zero_padded};
use crate::text::{chars_of, concat, has_infix, owned, string_from_chars, subvec, trim, trimmed};

verus! {

/// The Windows source of system information.
pub struct WindowsSystemInfo;

impl WindowsSystemInfo {
    /// A new source.
    pub fn new() -> (r: Self) {
        WindowsSystemInfo
    }
}

// ───────────────────────────── OS ─────────────────────────────

/// The architecture named by a `wProcessorArchitecture` code.
pub open spec fn arch_of(code: u16) -> Seq<char> {
    if code == 9 {
        "x86_64"@
    } else if code == 12 {
        "aarch64"@
    } else if code == 5 {
        "arm"@
    } else if code == 0 {
        "x86"@
    } else if code == 6 {
        "ia64"@
    } else {
        "unknown"@
    }
}

/// The architecture named by a `wProcessorArchitecture` code.
pub fn arch_name(code: u16) -> (r: String)
    ensures
        r@ == arch_of(code),
{
    if code == 9 {
        owned("x86_64")
    } else if code == 12 {
        owned("aarch64")
    } else if code == 5 {
        owned("arm")
    } else if code == 0 {
        owned("x86")
    } else if code == 6 {
        owned("ia64")
    } else {
        owned("unknown")
    }
}

/// `n` in decimal.
pub open spec fn dec(n: u32) -> Seq<char> {
    digits_in(n as nat, 10, false)
}

/// The product name of a Windows version.
pub open spec fn windows_name_of(major: u32, minor: u32, build: u32) -> Seq<char> {
    if major >= 10 {
        if build >= 22000 {
            "Windows 11"@
        } else {
            "Windows 10"@
        }
    } else if major == 6 && minor == 3 {
        "Windows 8.1"@
    } else if major == 6 && minor == 2 {
        "Windows 8"@
    } else if major == 6 && minor == 1 {
        "Windows 7"@
    } else if major == 6 && minor == 0 {
        "Windows Vista"@
    } else {
        "Windows "@ + dec(major) + "."@ + dec(minor)
    }
}

/// The names of a Windows version.
pub struct WindowsVersion {
    /// `Windows 11`, `Windows 7`, …
    pub name: String,
    /// `major.minor.build`.
    pub version: String,
    /// The name and ` (Build <build>)`.
    pub full_version: String,
}

/// The names of the Windows version that `RtlGetVersion` reports.
pub fn windows_version(major: u32, minor: u32, build: u32) -> (r: WindowsVersion)
    ensures
        r.name@ == windows_name_of(major, minor, build),
        r.version@ == dec(major) + "."@ + dec(minor) + "."@ + dec(build),
        r.full_version@ == windows_name_of(major, minor, build) + " (Build "@ + dec(build) + ")"@,
{
    let name = if major >= 10 {
        if build >= 22000 {
            chars_of("Windows 11")
        } else {
            chars_of("Windows 10")
        }
    } else if major == 6 && minor == 3 {
        chars_of("Windows 8.1")
    } else if major == 6 && minor == 2 {
        chars_of("Windows 8")
    } else if major == 6 && minor == 1 {
        chars_of("Windows 7")
    } else if major == 6 && minor == 0 {
        chars_of("Windows Vista")
    } else {
        let w = concat(&chars_of("Windows "), &decimal(major as u64));
        crate::text::join3(&w, ".", &decimal(minor as u64))
    };
    let mm = crate::text::join3(&decimal(major as u64), ".", &decimal(minor as u64));
    let version = crate::text::join3(&mm, ".", &decimal(build as u64));
    let fv = crate::text::join3(&name, " (Build ", &decimal(build as u64));
    let full = concat(&fv, &chars_of(")"));
    WindowsVersion {
        name: string_from_chars(&name),
        version: string_from_chars(&version),
        full_version: string_from_chars(&full),
    }
}

/// The Windows record of the operating system, from the version that
/// `RtlGetVersion` reports, the DNS host name, the `wProcessorArchitecture`
/// code, the milliseconds since boot (`GetTickCount64`) and the `USERNAME`
/// variable.
pub fn windows_os_info(
    major: u32,
    minor: u32,
    build: u32,
    hostname: String,
    arch_code: u16,
    tick_ms: u64,
    username: Option<String>,
) -> (r: OsInfo)
    ensures
        r.name@ == windows_name_of(major, minor, build),
        r.version@ == dec(major) + "."@ + dec(minor) + "."@ + dec(build),
        r.full_version@ == windows_name_of(major, minor, build) + " (Build "@ + dec(build) + ")"@,
        r.hostname@ == hostname@,
        r.arch@ == arch_of(arch_code),
        r.uptime_secs == tick_ms / 1000,
        r.username@ == string_or(username, "unknown"@),
{
    let v = windows_version(major, minor, build);
    OsInfo {
        name: v.name,
        version: v.version,
        full_version: v.full_version,
        hostname,
        arch: arch_name(arch_code),
        uptime_secs: tick_ms / 1000,
        username: match username {
            Some(u) => u,
            None => owned("unknown"),
        },
    }
}

/// The index of the first zero of `s`, or its length.
pub open spec fn zero_index(s: Seq<u16>) -> nat
    decreases s.len(),
{
    if s.len() == 0 {
        0
    } else if s[0] == 0 {
        0
    } else {
        1 + zero_index(s.drop_first())
    }
}

proof fn lemma_zero_index_is(s: Seq<u16>, k: int)
    requires
        0 <= k <= s.len(),
        forall|i: int| 0 <= i < k ==> #[trigger] s[i] != 0,
        k == s.len() || s[k] == 0,
    ensures
        zero_index(s) == k,
    decreases s.len(),
{
    if s.len() > 0 && s[0] != 0 {
        assert forall|i: int| 0 <= i < k - 1 implies #[trigger] s.drop_first()[i] != 0 by {
            assert(s.drop_first()[i] == s[i + 1]);
        }
        lemma_zero_index_is(s.drop_first(), k - 1);
    }
}

/// A wide string up to its first NUL (all of it when there is none).
pub fn wide_until_nul(v: &Vec<u16>) -> (r: Vec<u16>)
    ensures
        r@ == v@.take(zero_index(v@) as int),
{
    let mut i: usize = 0;
    while i < v.len() && v[i] != 0
        invariant
            i <= v.len(),
            forall|k: int| 0 <= k < i ==> #[trigger] v@[k] != 0,
        decreases v.len() - i,
    {
        i += 1;
    }
    proof {
        lemma_zero_index_is(v@, i as int);
    }
    let mut r: Vec<u16> = Vec::new();
    let mut j: usize = 0;
    while j < i
        invariant
            j <= i <= v.len(),
            r@ =~= v@.take(j as int),
        decreases i - j,
    {
        r.push(v[j]);
        j += 1;
    }
    r
}

// ───────────────────────────── CPU ─────────────────────────────

/// The Windows record of the processor, from the registry's
/// `ProcessorNameString`, `VendorIdentifier` and `~MHz` values (`None` when
/// they cannot be read), the number of logical processors, the number of
/// physical cores (`None` when it cannot be counted) and the architecture.
pub fn windows_cpu_info(
    model: Option<String>,
    vendor: Option<String>,
    mhz: Option<u32>,
    threads: u32,
    cores: Option<u32>,
    arch: String,
) -> (r: CpuInfo)
    ensures
        r.model@ == trimmed(string_or(model, "Unknown CPU"@)),
        r.vendor@ == trimmed(string_or(vendor, "Unknown"@)),
        r.cores == match cores {
            Some(c) => c,
            None => threads,
        },
        r.threads == threads,
        r.arch@ == arch@,
        r.frequency_mhz == match mhz {
            Some(m) => m as u64,
            None => 0,
        },
{
    let m = match model {
        Some(s) => chars_of(s.as_str()),
        None => chars_of("Unknown CPU"),
    };
    let v = match vendor {
        Some(s) => chars_of(s.as_str()),
        None => chars_of("Unknown"),
    };
    CpuInfo {
        model: string_from_chars(&trim(&m)),
        vendor: string_from_chars(&trim(&v)),
        cores: match cores {
            Some(c) => c,
            None => threads,
        },
        threads,
        arch,
        frequency_mhz: match mhz {
            Some(x) => x as u64,
            None => 0,
        },
    }
}

/// The little-endian 32-bit number at `off` in `b`.
pub open spec fn le32(b: Seq<u8>, off: int) -> nat {
    (b[off] as nat) + (b[off + 1] as nat) * 0x100 + (b[off + 2] as nat) * 0x1_0000 + (b[off
        + 3] as nat) * 0x100_0000
}

/// The number of records from `off` to `len` in a buffer of
/// `SYSTEM_LOGICAL_PROCESSOR_INFORMATION_EX` records, each holding its size
/// at its byte 4; none when a record reached does not hold its size within the
/// buffer, or holds a size of 0 (a walk that would never end).
pub open spec fn record_count(b: Seq<u8>, off: nat, len: nat) -> Option<nat>
    decreases len - off,
{
    if off >= len {
        Some(0)
    } else if off + 8 > b.len() {
        None
    } else {
        let size = le32(b, off as int + 4);
        if size == 0 {
            None
        } else if off + size >= len {
            Some(1)
        } else {
            match record_count(b, off + size, len) {
                Some(n) => Some(n + 1),
                None => None,
            }
        }
    }
}

/// The number of physical cores: the number of records that
/// `GetLogicalProcessorInformationEx` wrote for `RelationProcessorCore` in the
/// first `length` bytes of `buf`; none when the records cannot be walked.
pub fn processor_core_count(buf: &Vec<u8>, length: u32) -> (r: Option<u32>)
    ensures
        match record_count(buf@, 0, length as nat) {
            Some(n) => r == Some(n as u32),
            None => r is None,
        },
{
    let mut off: u64 = 0;
    let mut count: u32 = 0;
    while off < length as u64
        invariant
            off <= u32::MAX + u32::MAX,
            count <= off,
            record_count(buf@, 0, length as nat) == match record_count(buf@, off as nat, length as nat) {
                Some(n) => Some((n + count) as nat),
                None => None::<nat>,
            },
        decreases if off <= length { length - off } else { 0 },
    {
        if off + 8 > buf.len() as u64 {
            return None;
        }
        let o = off as usize;
        let size: u64 = buf[o + 4] as u64 + buf[o + 5] as u64 * 0x100 + buf[o + 6] as u64 * 0x1_0000
            + buf[o + 7] as u64 * 0x100_0000;
        assert(size == le32(buf@, off + 4));
        if size == 0 {
            return None;
        }
        assert(count + 1 <= off + 1 <= u32::MAX);
        count = count + 1;
        off = off + size;
    }
    Some(count)
}

/// `a - b` in wrapping 64-bit signed arithmetic.
pub open spec fn wrapping_sub_i64(a: i64, b: i64) -> i64 {
    let d = a - b;
    if d > i64::MAX {
        (d - 0x1_0000_0000_0000_0000) as i64
    } else if d < i64::MIN {
        (d + 0x1_0000_0000_0000_0000) as i64
    } else {
        d as i64
    }
}

fn sub_wrap_i64(a: i64, b: i64) -> (r: i64)
    ensures
        r == wrapping_sub_i64(a, b),
{
    let d: i128 = a as i128 - b as i128;
    if d > i64::MAX as i128 {
        (d - 0x1_0000_0000_0000_0000i128) as i64
    } else if d < i64::MIN as i128 {
        (d + 0x1_0000_0000_0000_0000i128) as i64
    } else {
        d as i64
    }
}

/// The idle, kernel and user time of each processor that passed between two
/// samples of `NtQuerySystemInformation` (each an idle, kernel, user triple,
/// the second sample covering at least the processors of the first), in
/// wrapping arithmetic.
pub fn windows_cpu_deltas(first: &Vec<(i64, i64, i64)>, second: &Vec<(i64, i64, i64)>) -> (r: Vec<
    (i64, i64, i64),
>)
    requires
        second@.len() >= first@.len(),
    ensures
        r@.len() == first@.len(),
        forall|i: int|
            0 <= i < r@.len() ==> #[trigger] r@[i] == (
                wrapping_sub_i64(second@[i].0, first@[i].0),
                wrapping_sub_i64(second@[i].1, first@[i].1),
                wrapping_sub_i64(second@[i].2, first@[i].2),
            ),
{
    let mut r: Vec<(i64, i64, i64)> = Vec::new();
    let mut i: usize = 0;
    while i < first.len()
        invariant
            i <= first@.len(),
            second@.len() >= first@.len(),
            r@.len() == i,
            forall|k: int|
                0 <= k < i ==> #[trigger] r@[k] == (
                    wrapping_sub_i64(second@[k].0, first@[k].0),
                    wrapping_sub_i64(second@[k].1, first@[k].1),
                    wrapping_sub_i64(second@[k].2, first@[k].2),
                ),
        decreases first.len() - i,
    {
        let (i1, k1, u1) = first[i];
        let (i2, k2, u2) = second[i];
        r.push((sub_wrap_i64(i2, i1), sub_wrap_i64(k2, k1), sub_wrap_i64(u2, u1)));
        i += 1;
    }
    r
}

// ───────────────────────────── memory ─────────────────────────────

/// The Windows record of memory, from `GlobalMemoryStatusEx`: physical total
/// and available memory, and the total and available page file, which counts
/// the physical memory too.
pub fn windows_memory_info(total: u64, available: u64, page_total: u64, page_available: u64) -> (r:
    MemoryInfo)
    ensures
        r == (MemoryInfo {
            total_bytes: total,
            used_bytes: sat_sub(total, available),
            free_bytes: available,
            available_bytes: available,
            swap_total_bytes: sat_sub(page_total, total),
            swap_used_bytes: sat_sub(sat_sub(page_total, page_available), sat_sub(total, available)),
        }),
        r.used_bytes <= r.total_bytes,
{
    let used = total.saturating_sub(available);
    let swap_total = page_total.saturating_sub(total);
    let page_used = page_total.saturating_sub(page_available);
    MemoryInfo {
        total_bytes: total,
        used_bytes: used,
        free_bytes: available,
        available_bytes: available,
        swap_total_bytes: swap_total,
        swap_used_bytes: page_used.saturating_sub(used),
    }
}

// ───────────────────────────── disks ─────────────────────────────

/// The drive strings of a `GetLogicalDriveStringsW` buffer (`C:\`, NUL, `D:\`,
/// NUL, …): the non-empty runs that a NUL ends.
pub open spec fn drive_strings_of(buf: Seq<u16>) -> Seq<Seq<u16>>
    decreases buf.len(),
{
    let z = zero_index(buf);
    if z >= buf.len() {
        seq![]
    } else {
        let rest = drive_strings_of(buf.skip(z as int + 1));
        if z > 0 {
            seq![buf.take(z as int)] + rest
        } else {
            rest
        }
    }
}

proof fn lemma_zero_index_bound(s: Seq<u16>)
    ensures
        zero_index(s) <= s.len(),
    decreases s.len(),
{
    if s.len() > 0 && s[0] != 0 {
        lemma_zero_index_bound(s.drop_first());
    }
}

/// The drive strings of a `GetLogicalDriveStringsW` buffer.
pub fn drive_strings(buf: &Vec<u16>) -> (r: Vec<Vec<u16>>)
    ensures
        r@.map_values(|v: Vec<u16>| v@) == drive_strings_of(buf@),
{
    let mut out: Vec<Vec<u16>> = Vec::new();
    let mut start: usize = 0;
    let mut i: usize = 0;
    assert(buf@.skip(0) =~= buf@);
    while i < buf.len()
        invariant
            start <= i <= buf.len(),
            forall|k: int| start <= k < i ==> #[trigger] buf@[k] != 0,
            out@.map_values(|v: Vec<u16>| v@) + drive_strings_of(buf@.skip(start as int))
                == drive_strings_of(buf@),
        decreases buf.len() - i,
    {
        if buf[i] == 0 {
            let ghost rest = buf@.skip(start as int);
            proof {
                assert forall|k: int| 0 <= k < i - start implies #[trigger] rest[k] != 0 by {
                    assert(rest[k] == buf@[k + start]);
                }
                lemma_zero_index_is(rest, i - start);
                assert(rest.skip(i - start + 1) =~= buf@.skip(i + 1));
            }
            let ghost before = out@.map_values(|v: Vec<u16>| v@);
            if i > start {
                let mut seg: Vec<u16> = Vec::new();
                let mut j = start;
                while j < i
                    invariant
                        start <= j <= i < buf.len(),
                        seg@ =~= buf@.subrange(start as int, j as int),
                    decreases i - j,
                {
                    seg.push(buf[j]);
                    j += 1;
                }
                assert(seg@ =~= rest.take(i - start));
                out.push(seg);
                assert(out@.map_values(|v: Vec<u16>| v@) =~= before.push(rest.take(i - start)));
                assert(before.push(rest.take(i - start)) + drive_strings_of(buf@.skip(i + 1))
                    =~= before + drive_strings_of(rest));
            }
            start = i + 1;
        }
        i += 1;
    }
    proof {
        let rest = buf@.skip(start as int);
        assert forall|k: int| 0 <= k < rest.len() implies #[trigger] rest[k] != 0 by {
            assert(rest[k] == buf@[k + start]);
        }
        lemma_zero_index_is(rest, rest.len() as int);
        assert(out@.map_values(|v: Vec<u16>| v@) + drive_strings_of(rest) =~= out@.map_values(
            |v: Vec<u16>| v@,
        ));
    }
    out
}

/// The letter that begins a drive string, if it is an ASCII letter.
pub fn drive_letter(drive: &str) -> (r: Option<char>)
    ensures
        r matches Some(c) ==> drive@.len() > 0 && c == drive@[0] && (('a' <= c <= 'z') || ('A'
            <= c <= 'Z')),
        r is None ==> drive@.len() == 0 || !(('a' <= drive@[0] <= 'z') || ('A' <= drive@[0]
            <= 'Z')),
{
    let c = chars_of(drive);
    if c.len() > 0 && (('a' <= c[0] && c[0] <= 'z') || ('A' <= c[0] && c[0] <= 'Z')) {
        Some(c[0])
    } else {
        None
    }
}

/// The kind of a disk from a seek penalty query: solid state when the device
/// answered and reports no seek penalty, rotating when it reports one.
pub fn disk_kind_from_seek_penalty(answered: bool, bytes_returned: u32, incurs_seek_penalty: u8) -> (r:
    DiskKind)
    ensures
        r == if answered && bytes_returned > 0 {
            if incurs_seek_penalty == 0 {
                DiskKind::Ssd
            } else {
                DiskKind::Hdd
            }
        } else {
            DiskKind::Unknown
        },
{
    if answered && bytes_returned > 0 {
        if incurs_seek_penalty == 0 {
            DiskKind::Ssd
        } else {
            DiskKind::Hdd
        }
    } else {
        DiskKind::Unknown
    }
}

/// The Windows record of a drive, from its drive string (`C:\`), its drive
/// type, its volume name and file system (`None` when
/// `GetVolumeInformationW` failed), its total and free bytes (`None` when
/// `GetDiskFreeSpaceExW` failed) and its kind; none for an unknown drive type
/// (0 or 1) or a drive whose space is unknown.
pub fn windows_disk(
    drive: &str,
    drive_type: u32,
    volume: Option<(String, String)>,
    space: Option<(u64, u64)>,
    kind: DiskKind,
) -> (r: Option<DiskInfo>)
    ensures
        drive_type <= 1 || space is None ==> r is None,
        !(drive_type <= 1 || space is None) ==> (r matches Some(d) && {
            let (total, free) = space->0;
            let (vol, fs) = match volume {
                Some((v, f)) => (v@, f@),
                None => (seq![], seq![]),
            };
            let mount = crate::text::strip_trailing(drive@, '\\');
            &&& d.name@ == if vol.len() == 0 {
                mount
            } else {
                vol
            }
            &&& d.mount_point@ == mount
            &&& d.fs_type@ == fs
            &&& d.kind == kind
            &&& d.total_bytes == total
            &&& d.used_bytes == sat_sub(total, free)
            &&& d.free_bytes == free
            &&& d.is_removable == (drive_type == 2 || drive_type == 5)
        }),
        r matches Some(d) ==> d.used_bytes <= d.total_bytes,
{
    if drive_type <= 1 {
        return None;
    }
    let (total, free) = match space {
        Some(s) => s,
        None => return None,
    };
    let (vol, fs) = match volume {
        Some((v, f)) => (v, f),
        None => (string_from_chars(&Vec::new()), string_from_chars(&Vec::new())),
    };
    let mount = crate::text::trim_end_char(&chars_of(drive), '\\');
    let name = if vol.as_str().is_empty() {
        string_from_chars(&mount)
    } else {
        vol
    };
    Some(
        DiskInfo {
            name,
            mount_point: string_from_chars(&mount),
            fs_type: fs,
            kind,
            total_bytes: total,
            used_bytes: total.saturating_sub(free),
            free_bytes: free,
            is_removable: drive_type == 2 || drive_type == 5,
        },
    )
}

// ───────────────────────────── GPU ─────────────────────────────

/// The vendor's name for a PCI vendor id, as Windows reports it.
pub open spec fn windows_vendor_of(id: u32) -> Seq<char> {
    if id == 0x10DE {
        "NVIDIA"@
    } else if id == 0x1002 || id == 0x1022 {
        "AMD"@
    } else if id == 0x8086 {
        "Intel"@
    } else if id == 0x106B {
        "Apple"@
    } else if id == 0x1414 {
        "Microsoft"@
    } else if id == 0x5143 {
        "Qualcomm"@
    } else {
        "Unknown (0x"@ + zero_padded(digits_in(id as nat, 16, true), 4) + ")"@
    }
}

/// The vendor's name for a PCI vendor id.
pub fn windows_gpu_vendor(id: u32) -> (r: String)
    ensures
        r@ == windows_vendor_of(id),
{
    if id == 0x10DE {
        owned("NVIDIA")
    } else if id == 0x1002 || id == 0x1022 {
        owned("AMD")
    } else if id == 0x8086 {
        owned("Intel")
    } else if id == 0x106B {
        owned("Apple")
    } else if id == 0x1414 {
        owned("Microsoft")
    } else if id == 0x5143 {
        owned("Qualcomm")
    } else {
        let h = hex_padded(id as u64, 4, true);
        let r = concat(&concat(&chars_of("Unknown (0x"), &h), &chars_of(")"));
        string_from_chars(&r)
    }
}

/// Whether an adapter is a software renderer (`DXGI_ADAPTER_FLAG_SOFTWARE`).
pub fn is_software_adapter(flags: u32) -> (r: bool)
    ensures
        r == (flags & 2 != 0),
{
    flags & 2 != 0
}

/// Dedicated video memory in MiB.
pub fn vram_mb(bytes: u64) -> (r: u64)
    ensures
        r == bytes / 1048576,
{
    bytes / 1048576
}

/// The `DriverDesc` and `DriverVersion` values of one subkey of the display
/// adapter class, each `None` when it cannot be read.
pub struct DriverKey {
    pub desc: Option<String>,
    pub version: Option<String>,
}

/// Whether the subkey at `i` gives the driver version of the adapter called
/// `name` at position `pos`: it has a version, and it is at that position or
/// its description and the name contain one another.
pub open spec fn driver_key_matches(k: DriverKey, i: int, name: Seq<char>, pos: int) -> bool {
    &&& k.version is Some
    &&& (i == pos || (k.desc matches Some(d) && (has_infix(name, d@) || has_infix(d@, name))))
}

/// The version of the first matching subkey from index `i` on.
pub open spec fn driver_version_from(ks: Seq<DriverKey>, i: int, name: Seq<char>, pos: int) -> Seq<
    char,
>
    decreases ks.len() - i,
{
    if i < 0 || i >= ks.len() {
        seq![]
    } else if driver_key_matches(ks[i], i, name, pos) {
        ks[i].version->0@
    } else {
        driver_version_from(ks, i + 1, name, pos)
    }
}

/// The driver version of the adapter called `name` at position `pos` in the
/// enumeration, from the subkeys `0000`, `0001`, … of the display adapter
/// class; empty when none matches.
pub fn select_driver_version(name: &str, pos: u32, keys: &Vec<DriverKey>) -> (r: String)
    ensures
        r@ == driver_version_from(keys@, 0, name@, pos as int),
{
    let n = chars_of(name);
    let mut i: usize = 0;
    while i < keys.len()
        invariant
            i <= keys.len(),
            n@ == name@,
            driver_version_from(keys@, i as int, name@, pos as int) == driver_version_from(
                keys@,
                0,
                name@,
                pos as int,
            ),
        decreases keys.len() - i,
    {
        let k = &keys[i];
        match &k.version {
            Some(v) => {
                let at_pos = i as u64 == pos as u64;
                let named = match &k.desc {
                    Some(d) => {
                        let dc = chars_of(d.as_str());
                        crate::text::contains(&n, d.as_str()) || crate::text::contains(
                            &dc,
                            name,
                        )
                    },
                    None => false,
                };
                if at_pos || named {
                    return owned(v.as_str());
                }
            },
            None => {},
        }
        i += 1;
    }
    string_from_chars(&Vec::new())
}

// ───────────────────────────── battery ─────────────────────────────

/// What `GetSystemPowerStatus` says of the battery, in whole numbers.
#[derive(Debug, Clone, Copy, PartialEq, Eq, Structural)]
pub struct WindowsBattery {
    /// The charge in percent (0 when unknown).
    pub charge_percent: u8,
    pub status: BatteryStatus,
    pub time_to_empty_secs: Option<u64>,
    /// The full battery life in seconds, when the time until full is to be
    /// estimated from it: charging, with a charge strictly between 0 and 100.
    pub full_lifetime_secs: Option<u32>,
}

/// The status from the charger line status and the battery flags.
pub open spec fn windows_status_of(ac_line: u8, flag: u8, charge: u8) -> BatteryStatus {
    if flag & 8 != 0 {
        BatteryStatus::Charging
    } else if ac_line == 1 {
        if charge >= 100 {
            BatteryStatus::Full
        } else {
            BatteryStatus::NotCharging
        }
    } else if ac_line == 0 {
        BatteryStatus::Discharging
    } else {
        BatteryStatus::Unknown
    }
}

/// The Windows reading of the battery from `SYSTEM_POWER_STATUS`: none when
/// the flags say there is no battery (128).
pub open spec fn windows_battery_of(
    ac_line: u8,
    flag: u8,
    life_percent: u8,
    life_time: u32,
    full_life_time: u32,
) -> Option<WindowsBattery> {
    if flag == 128 {
        None
    } else {
        Some(
            {
                let charge: u8 = if life_percent == 255 {
                    0
                } else {
                    life_percent
                };
                let status = windows_status_of(ac_line, flag, charge);
                WindowsBattery {
                    charge_percent: charge,
                    status,
                    time_to_empty_secs: if life_time != u32::MAX {
                        Some(life_time as u64)
                    } else {
                        None
                    },
                    full_lifetime_secs: if full_life_time != u32::MAX && status
                        == BatteryStatus::Charging && 0 < charge < 100 {
                        Some(full_life_time)
                    } else {
                        None
                    },
                }
            },
        )
    }
}

/// The Windows reading of the battery from `SYSTEM_POWER_STATUS`: none when
/// the flags say there is no battery (128).
pub fn windows_battery(
    ac_line: u8,
    flag: u8,
    life_percent: u8,
    life_time: u32,
    full_life_time: u32,
) -> (r: Option<WindowsBattery>)
    ensures
        r == windows_battery_of(ac_line, flag, life_percent, life_time, full_life_time),
{
    if flag == 128 {
        return None;
    }
    let charge: u8 = if life_percent == 255 {
        0
    } else {
        life_percent
    };
    let status = if flag & 8 != 0 {
        BatteryStatus::Charging
    } else if ac_line == 1 {
        if charge >= 100 {
            BatteryStatus::Full
        } else {
            BatteryStatus::NotCharging
        }
    } else if ac_line == 0 {
        BatteryStatus::Discharging
    } else {
        BatteryStatus::Unknown
    };
    let tte = if life_time != u32::MAX {
        Some(life_time as u64)
    } else {
        None
    };
    let full = if full_life_time != u32::MAX && status == BatteryStatus::Charging && 0 < charge
        && charge < 100 {
        Some(full_life_time)
    } else {
        None
    };
    Some(
        WindowsBattery {
            charge_percent: charge,
            status,
            time_to_empty_secs: tte,
            full_lifetime_secs: full,
        },
    )
}

// ───────────────────────────── displays ─────────────────────────────

/// A display of Windows, with its refresh rate in Hz and density in dots per inch.
#[derive(Debug)]
pub struct WindowsDisplay {
    pub name: String,
    pub width: u32,
    pub height: u32,
    pub refresh_hz: Option<u32>,
    pub dpi: u32,
    pub is_primary: bool,
}

/// The Windows record of a display device, from its device name, the string of
/// its monitor (`None` when there is none), its state flags, its current width,
/// height and frequency, and the system DPI; none for an inactive device.
pub fn windows_display(
    device_name: String,
    monitor: Option<String>,
    state_flags: u32,
    width: u32,
    height: u32,
    frequency: u32,
    system_dpi: u32,
) -> (r: Option<WindowsDisplay>)
    ensures
        state_flags & 1 == 0 ==> r is None,
        state_flags & 1 != 0 ==> (r matches Some(d) && d.name@ == (match monitor {
            Some(m) => if m@.len() > 0 {
                m@
            } else {
                device_name@
            },
            None => device_name@,
        }) && d.width == width && d.height == height && d.refresh_hz == (if frequency > 0
            && frequency != 1 {
            Some(frequency)
        } else {
            None
        }) && d.dpi == (if system_dpi > 0 {
            system_dpi
        } else {
            96
        }) && d.is_primary == (state_flags & 4 != 0)),
{
    if state_flags & 1 == 0 {
        return None;
    }
    let name = match monitor {
        Some(m) => if m.as_str().is_empty() {
            device_name
        } else {
            m
        },
        None => device_name,
    };
    Some(
        WindowsDisplay {
            name,
            width,
            height,
            refresh_hz: if frequency > 0 && frequency != 1 {
                Some(frequency)
            } else {
                None
            },
            dpi: if system_dpi > 0 {
                system_dpi
            } else {
                96
            },
            is_primary: state_flags & 4 != 0,
        },
    )
}

} // verus!
