//! macOS: the records built from what `sysctl`, the Mach host statistics,
//! `getmntinfo` and `system_profiler` report.
use vstd::prelude::*;
use crate::linux::{opt_chars, sat_sub};
use crate::linux::display::opt_view;
use crate::json::{
    get_count, get_flag, get_member, get_text_member, json_count, json_flag, json_get, json_items,
    text_member, JsonValue,
};
use crate::models::{BatteryReading, BatteryStatus, CpuInfo, DiskInfo, DiskKind, GpuInfo, MemoryInfo, OsInfo};
use crate::numbers::{decimal, digits_in, mul_wrap, parse_u64, u64_of, wrap64};
use crate::text::{
    after_last, chars_of, concat, has_infix, has_prefix, owned, split_once, split_once_at,
    split_whitespace, string_from_chars, subvec, trim, trimmed, views, words_of,
};

verus! {

/// The macOS source of system information.
pub struct MacOSSystemInfo;

impl MacOSSystemInfo {
    /// A new source.
    pub fn new() -> (r: Self) {
        MacOSSystemInfo
    }
}

// ───────────────────────────── sysctl ─────────────────────────────

/// `b` without its trailing zero bytes.
pub open spec fn without_trailing_nuls(b: Seq<u8>) -> Seq<u8>
    decreases b.len(),
{
    if b.len() > 0 && b.last() == 0 {
        without_trailing_nuls(b.drop_last())
    } else {
        b
    }
}

/// The bytes of a string that `sysctl` returned, without its trailing NULs.
pub fn strip_trailing_nuls(mut buf: Vec<u8>) -> (r: Vec<u8>)
    ensures
        r@ == without_trailing_nuls(buf@),
{
    let ghost orig = buf@;
    while buf.len() > 0 && buf[buf.len() - 1] == 0
        invariant
            without_trailing_nuls(buf@) == without_trailing_nuls(orig),
        decreases buf.len(),
    {
        let ghost before = buf@;
        buf.pop();
        assert(buf@ =~= before.drop_last());
    }
    buf
}

/// The width of an integer `sysctl` value.
#[derive(Debug, Clone, Copy, PartialEq, Eq, Structural)]
pub enum SysctlWidth {
    Bits32,
    Bits64,
}

/// The width of an integer `sysctl` value of `size` bytes; an error, naming
/// the size, when it is neither 4 nor 8.
pub fn sysctl_width(size: usize) -> (r: Result<SysctlWidth, usize>)
    ensures
        size == 4 ==> r == Ok::<SysctlWidth, usize>(SysctlWidth::Bits32),
        size == 8 ==> r == Ok::<SysctlWidth, usize>(SysctlWidth::Bits64),
        size != 4 && size != 8 ==> r == Err::<SysctlWidth, usize>(size),
{
    if size == 4 {
        Ok(SysctlWidth::Bits32)
    } else if size == 8 {
        Ok(SysctlWidth::Bits64)
    } else {
        Err(size)
    }
}

// ───────────────────────────── OS ─────────────────────────────

/// The characters of an optional string, or `default`.
pub open spec fn string_or(o: Option<String>, default: Seq<char>) -> Seq<char> {
    match o {
        Some(s) => s@,
        None => default,
    }
}

fn string_or_exec(o: Option<String>, default: &str) -> (r: String)
    ensures
        r@ == string_or(o, default@),
{
    match o {
        Some(s) => s,
        None => owned(default),
    }
}

/// The seconds since boot: `now - boot` when the boot time is known and earlier.
pub open spec fn uptime_of(boot: Option<i64>, now: i64) -> u64 {
    match boot {
        Some(b) => if now > b {
            (now - b) as u64
        } else {
            0
        },
        None => 0,
    }
}

/// The macOS record of the operating system, from `kern.osproductversion`,
/// `kern.osversion` (the build) and `kern.hostname` (each `None` when it cannot
/// be read), the architecture, the boot time in seconds (`kern.boottime`), the
/// current time in seconds and the `USER` variable.
pub fn macos_os_info(
    version: Option<String>,
    build: Option<String>,
    hostname: Option<String>,
    arch: &str,
    boot_secs: Option<i64>,
    now_secs: i64,
    username: Option<String>,
) -> (r: OsInfo)
    ensures
        r.name@ == "macOS"@,
        r.version@ == string_or(version, "unknown"@),
        r.full_version@ == "macOS "@ + string_or(version, "unknown"@) + " ("@ + string_or(
            build,
            "unknown"@,
        ) + ")"@,
        r.hostname@ == string_or(hostname, "unknown"@),
        r.arch@ == arch@,
        r.uptime_secs == uptime_of(boot_secs, now_secs),
        r.username@ == string_or(username, "unknown"@),
{
    let v = string_or_exec(version, "unknown");
    let b = string_or_exec(build, "unknown");
    let head = crate::text::join3(&chars_of("macOS "), "", &chars_of(v.as_str()));
    proof {
        reveal_strlit("");
    }
    let mid = crate::text::join3(&head, " (", &chars_of(b.as_str()));
    let full = concat(&mid, &chars_of(")"));
    let uptime_secs: u64 = match boot_secs {
        Some(bt) => if now_secs > bt {
            (now_secs as i128 - bt as i128) as u64
        } else {
            0
        },
        None => 0,
    };
    OsInfo {
        name: owned("macOS"),
        version: v,
        full_version: string_from_chars(&full),
        hostname: string_or_exec(hostname, "unknown"),
        arch: owned(arch),
        uptime_secs,
        username: string_or_exec(username, "unknown"),
    }
}

// ───────────────────────────── CPU ─────────────────────────────

/// `n` reduced to 32 bits, as `as u32` leaves it.
pub open spec fn wrap32(n: u64) -> u32 {
    (n % 0x1_0000_0000) as u32
}

/// The macOS record of the processor, from `machdep.cpu.brand_string`,
/// `machdep.cpu.vendor`, `hw.physicalcpu`, `hw.logicalcpu` and
/// `hw.cpufrequency` (Hz), each `None` when it cannot be read, and the
/// architecture.
pub fn macos_cpu_info(
    model: Option<String>,
    vendor: Option<String>,
    physical_cpus: Option<u64>,
    logical_cpus: Option<u64>,
    frequency_hz: Option<u64>,
    arch: &str,
) -> (r: CpuInfo)
    ensures
        r.model@ == string_or(model, "Unknown CPU"@),
        r.vendor@ == match vendor {
            Some(v) => v@,
            None => if has_infix(string_or(model, "Unknown CPU"@), "Apple"@) {
                "Apple"@
            } else {
                "Unknown"@
            },
        },
        r.cores == wrap32(
            match physical_cpus {
                Some(c) => c,
                None => 0,
            },
        ),
        r.threads == wrap32(
            match logical_cpus {
                Some(c) => c,
                None => 0,
            },
        ),
        r.arch@ == arch@,
        r.frequency_mhz == match frequency_hz {
            Some(hz) => (hz / 1_000_000) as u64,
            None => 0,
        },
{
    let m = string_or_exec(model, "Unknown CPU");
    let v = match vendor {
        Some(v) => v,
        None => if crate::text::contains(&chars_of(m.as_str()), "Apple") {
            owned("Apple")
        } else {
            owned("Unknown")
        },
    };
    let cores = (match physical_cpus {
        Some(c) => c,
        None => 0,
    } % 0x1_0000_0000) as u32;
    let threads = (match logical_cpus {
        Some(c) => c,
        None => 0,
    } % 0x1_0000_0000) as u32;
    let frequency_mhz = match frequency_hz {
        Some(hz) => hz / 1_000_000,
        None => 0,
    };
    CpuInfo { model: m, vendor: v, cores, threads, arch: owned(arch), frequency_mhz }
}

/// One sample of the load ticks of each processor: user, system, idle, nice.
pub struct CpuLoadSnapshot {
    pub per_cpu: Vec<[u32; 4]>,
}

/// `a - b` in wrapping 32-bit arithmetic.
pub open spec fn wrapping_sub32(a: u32, b: u32) -> u32 {
    if a >= b {
        (a - b) as u32
    } else {
        (a - b + 0x1_0000_0000) as u32
    }
}

/// The ticks of each kind that passed between two samples, for each processor
/// counted in both, in wrapping arithmetic (the counters wrap around).
pub fn cpu_tick_deltas(first: &CpuLoadSnapshot, second: &CpuLoadSnapshot) -> (r: Vec<[u32; 4]>)
    ensures
        r@.len() == if first.per_cpu@.len() <= second.per_cpu@.len() {
            first.per_cpu@.len()
        } else {
            second.per_cpu@.len()
        },
        forall|i: int, k: int|
            0 <= i < r@.len() && 0 <= k < 4 ==> #[trigger] r@[i]@[k] == wrapping_sub32(
                second.per_cpu@[i]@[k],
                first.per_cpu@[i]@[k],
            ),
{
    let n = if first.per_cpu.len() <= second.per_cpu.len() {
        first.per_cpu.len()
    } else {
        second.per_cpu.len()
    };
    let mut r: Vec<[u32; 4]> = Vec::new();
    let mut i: usize = 0;
    while i < n
        invariant
            i <= n,
            n <= first.per_cpu@.len(),
            n <= second.per_cpu@.len(),
            r@.len() == i,
            forall|j: int, k: int|
                0 <= j < i && 0 <= k < 4 ==> #[trigger] r@[j]@[k] == wrapping_sub32(
                    second.per_cpu@[j]@[k],
                    first.per_cpu@[j]@[k],
                ),
        decreases n - i,
    {
        let a = first.per_cpu[i];
        let b = second.per_cpu[i];
        let d: [u32; 4] = [
            b[0].wrapping_sub(a[0]),
            b[1].wrapping_sub(a[1]),
            b[2].wrapping_sub(a[2]),
            b[3].wrapping_sub(a[3]),
        ];
        assert forall|k: int| 0 <= k < 4 implies d@[k] == wrapping_sub32(b@[k], a@[k]) by {
            assert(d@[0] == b@[0].wrapping_sub(a@[0]));
        }
        r.push(d);
        i += 1;
    }
    r
}

// ───────────────────────────── memory ─────────────────────────────

/// The Mach `vm_statistics64` record.
#[derive(Debug, Clone, Copy, PartialEq, Eq, Structural, Default)]
pub struct VMStatistics64 {
    pub free_count: u32,
    pub active_count: u32,
    pub inactive_count: u32,
    pub wire_count: u32,
    pub zero_fill_count: u64,
    pub reactivations: u64,
    pub pageins: u64,
    pub pageouts: u64,
    pub faults: u64,
    pub cow_faults: u64,
    pub lookups: u64,
    pub hits: u64,
    pub purges: u64,
    pub purgeable_count: u32,
    pub speculative_count: u32,
    pub decompressions: u64,
    pub compressions: u64,
    pub swapins: u64,
    pub swapouts: u64,
    pub compressor_page_count: u32,
    pub throttled_count: u32,
    pub external_page_count: u32,
    pub internal_page_count: u32,
    pub total_uncompressed_pages_in_compressor: u64,
}

/// The `xsw_usage` record of `vm.swapusage`.
#[derive(Debug, Clone, Copy, PartialEq, Eq, Structural, Default)]
pub struct XswUsage {
    pub xsu_total: u64,
    pub xsu_avail: u64,
    pub xsu_used: u64,
    pub xsu_pagesize: u32,
    pub xsu_encrypted: bool,
}

/// The page counts that memory figures are made of, and the page size.
#[derive(Debug, Clone, Copy, PartialEq, Eq, Structural)]
pub struct MemoryStats {
    pub free_count: u64,
    pub active_count: u64,
    pub inactive_count: u64,
    pub wire_count: u64,
    pub purgeable_count: u64,
    pub speculative_count: u64,
    pub compressor_page_count: u64,
    pub page_size: u64,
}

/// The page counts of a `vm_statistics64` record, with the page size.
pub fn memory_stats(vm: &VMStatistics64, page_size: u32) -> (r: MemoryStats)
    ensures
        r == (MemoryStats {
            free_count: vm.free_count as u64,
            active_count: vm.active_count as u64,
            inactive_count: vm.inactive_count as u64,
            wire_count: vm.wire_count as u64,
            purgeable_count: vm.purgeable_count as u64,
            speculative_count: vm.speculative_count as u64,
            compressor_page_count: vm.compressor_page_count as u64,
            page_size: page_size as u64,
        }),
{
    MemoryStats {
        free_count: vm.free_count as u64,
        active_count: vm.active_count as u64,
        inactive_count: vm.inactive_count as u64,
        wire_count: vm.wire_count as u64,
        purgeable_count: vm.purgeable_count as u64,
        speculative_count: vm.speculative_count as u64,
        compressor_page_count: vm.compressor_page_count as u64,
        page_size: page_size as u64,
    }
}

/// The total swap and the swap used of a `vm.swapusage` record.
pub fn swap_usage(u: &XswUsage) -> (r: (u64, u64))
    ensures
        r == (u.xsu_total, u.xsu_used),
{
    (u.xsu_total, u.xsu_used)
}

/// The macOS record of memory, from `hw.memsize`, the page counts, and the
/// swap total and use (`None` when they cannot be read, counted as 0): free
/// memory is the free and speculative pages, available memory adds the
/// inactive and purgeable ones, in wrapping arithmetic, and used memory is the
/// rest of the total.
#[verifier::rlimit(40)]
pub fn macos_memory_info(total: u64, stats: &MemoryStats, swap: Option<(u64, u64)>) -> (r:
    MemoryInfo)
    ensures
        ({
            let free_pages = wrap64(stats.free_count + stats.speculative_count);
            let available = wrap64(
                wrap64(wrap64(free_pages + stats.inactive_count) + stats.purgeable_count)
                    * stats.page_size,
            );
            let (st, su) = match swap {
                Some(s) => s,
                None => (0u64, 0u64),
            };
            r == MemoryInfo {
                total_bytes: total,
                used_bytes: sat_sub(total, available),
                free_bytes: wrap64(free_pages * stats.page_size),
                available_bytes: available,
                swap_total_bytes: st,
                swap_used_bytes: su,
            }
        }),
        r.used_bytes <= r.total_bytes,
{
    let free_pages = stats.free_count.wrapping_add(stats.speculative_count);
    let pages = free_pages.wrapping_add(stats.inactive_count).wrapping_add(stats.purgeable_count);
    let available = mul_wrap(pages, stats.page_size);
    let free = mul_wrap(free_pages, stats.page_size);
    let (st, su) = match swap {
        Some(s) => s,
        None => (0, 0),
    };
    MemoryInfo {
        total_bytes: total,
        used_bytes: total.saturating_sub(available),
        free_bytes: free,
        available_bytes: available,
        swap_total_bytes: st,
        swap_used_bytes: su,
    }
}

// ───────────────────────────── disks ─────────────────────────────

/// The pseudo file systems of macOS, which hold no disk.
pub open spec fn macos_pseudo_fs(t: Seq<char>) -> bool {
    t == "devfs"@ || t == "autofs"@ || t == "nullfs"@ || t == "vmhgfs"@ || t == "ctfs"@ || t
        == "fdescfs"@ || t == "nfs"@ || t == "devpts"@ || t == "tmpfs"@
}

/// The file systems of removable media.
pub open spec fn macos_removable_fs(t: Seq<char>) -> bool {
    t == "msdos"@ || t == "exfat"@ || t == "udf"@
}

/// The name of a volume: `Macintosh HD` for `/`, else the last part of its
/// mount point.
pub open spec fn macos_volume_name(mount_point: Seq<char>) -> Seq<char> {
    if mount_point == "/"@ {
        "Macintosh HD"@
    } else {
        mount_point.skip(after_last(mount_point, '/') as int)
    }
}

/// Whether a mounted file system may hold a disk: not a pseudo file system,
/// and a device under `/dev/`.
pub open spec fn macos_disk_mount(fs_type: Seq<char>, device: Seq<char>) -> bool {
    !macos_pseudo_fs(fs_type) && has_prefix(device, "/dev/"@)
}

/// Whether a mounted file system, of the given type and device, may hold a disk.
pub fn macos_disk_candidate(fs_type: &str, device: &str) -> (r: bool)
    ensures
        r == macos_disk_mount(fs_type@, device@),
{
    let t = chars_of(fs_type);
    let pseudo = crate::text::eq_str(&t, "devfs") || crate::text::eq_str(&t, "autofs")
        || crate::text::eq_str(&t, "nullfs") || crate::text::eq_str(&t, "vmhgfs")
        || crate::text::eq_str(&t, "ctfs") || crate::text::eq_str(&t, "fdescfs")
        || crate::text::eq_str(&t, "nfs") || crate::text::eq_str(&t, "devpts")
        || crate::text::eq_str(&t, "tmpfs");
    !pseudo && crate::text::starts_with(&chars_of(device), "/dev/")
}

/// The kind of storage that `diskutil info <device>` reports: its last
/// `Solid State:` line says `Yes` (solid state) or `No` (rotating); anything
/// else, or no such line, leaves it unknown.
pub open spec fn solid_state_kind(output: Seq<char>) -> DiskKind {
    match crate::linux::lookup(crate::linux::colon_pairs(crate::text::lines_of(output)), "Solid State"@) {
        Some(v) => if v == "Yes"@ {
            DiskKind::Ssd
        } else if v == "No"@ {
            DiskKind::Hdd
        } else {
            DiskKind::Unknown
        },
        None => DiskKind::Unknown,
    }
}

/// The kind of storage of a device, from the output of a successful
/// `diskutil info <device>` (`None` when it could not be run).
pub fn diskutil_kind(output: Option<&str>) -> (r: DiskKind)
    ensures
        r == match output {
            Some(o) => solid_state_kind(o@),
            None => DiskKind::Unknown,
        },
{
    let o = match output {
        Some(o) => o,
        None => return DiskKind::Unknown,
    };
    let ls = crate::text::lines(&chars_of(o));
    let ps = crate::linux::pairs_of_lines(&ls);
    match crate::linux::lookup_key(&ps, "Solid State") {
        Some(v) => if crate::text::eq_str(&v, "Yes") {
            DiskKind::Ssd
        } else if crate::text::eq_str(&v, "No") {
            DiskKind::Hdd
        } else {
            DiskKind::Unknown
        },
        None => DiskKind::Unknown,
    }
}

/// The macOS record of a mounted file system from `getmntinfo`, from its type,
/// device, mount point, block size and total and free blocks, and the kind of
/// its storage; none for a pseudo file system or a device not under `/dev/`.
pub fn macos_disk_entry(
    fs_type: &str,
    device: &str,
    mount_point: &str,
    block_size: u64,
    blocks: u64,
    blocks_free: u64,
    kind: DiskKind,
) -> (r: Option<DiskInfo>)
    ensures
        !macos_disk_mount(fs_type@, device@) ==> r is None,
        macos_disk_mount(fs_type@, device@) ==> (r matches Some(d) && d.name@ == macos_volume_name(
            mount_point@,
        ) && d.mount_point@ == mount_point@ && d.fs_type@ == fs_type@ && d.kind == kind
            && d.total_bytes == wrap64(blocks * block_size) && d.free_bytes == wrap64(
            blocks_free * block_size,
        ) && d.used_bytes == sat_sub(wrap64(blocks * block_size), wrap64(blocks_free * block_size))
            && d.is_removable == macos_removable_fs(fs_type@)),
        r matches Some(d) ==> d.used_bytes <= d.total_bytes,
{
    if !macos_disk_candidate(fs_type, device) {
        return None;
    }
    let t = chars_of(fs_type);
    let total = mul_wrap(blocks, block_size);
    let free = mul_wrap(blocks_free, block_size);
    let mp = chars_of(mount_point);
    let name = if crate::text::eq_str(&mp, "/") {
        owned("Macintosh HD")
    } else {
        string_from_chars(&crate::text::after_last_char(&mp, '/'))
    };
    let is_removable = crate::text::eq_str(&t, "msdos") || crate::text::eq_str(&t, "exfat")
        || crate::text::eq_str(&t, "udf");
    Some(
        DiskInfo {
            name,
            mount_point: owned(mount_point),
            fs_type: owned(fs_type),
            kind,
            total_bytes: total,
            used_bytes: total.saturating_sub(free),
            free_bytes: free,
            is_removable,
        },
    )
}

// ───────────────────────────── GPU ─────────────────────────────

/// The vendor of an adapter that `system_profiler` lists, from its vendor field
/// (`sppci_vendor_apple` …) when not empty, else from its name.
pub open spec fn macos_gpu_vendor_of(vendor_raw: Seq<char>, name: Seq<char>) -> Seq<char> {
    if vendor_raw.len() > 0 {
        if has_infix(vendor_raw, "apple"@) || has_infix(name, "Apple"@) {
            "Apple"@
        } else if has_infix(vendor_raw, "amd"@) || has_infix(vendor_raw, "ATI"@) || has_infix(
            name,
            "AMD"@,
        ) || has_infix(name, "Radeon"@) {
            "AMD"@
        } else if has_infix(vendor_raw, "nvidia"@) || has_infix(name, "NVIDIA"@) || has_infix(
            name,
            "GeForce"@,
        ) {
            "NVIDIA"@
        } else if has_infix(vendor_raw, "intel"@) || has_infix(name, "Intel"@) {
            "Intel"@
        } else {
            vendor_raw
        }
    } else if has_infix(name, "Apple"@) {
        "Apple"@
    } else if has_infix(name, "AMD"@) || has_infix(name, "Radeon"@) {
        "AMD"@
    } else if has_infix(name, "NVIDIA"@) || has_infix(name, "GeForce"@) {
        "NVIDIA"@
    } else if has_infix(name, "Intel"@) {
        "Intel"@
    } else {
        "Unknown"@
    }
}

/// Whether a unit begins with `GB` in either case, as
/// `unit.to_uppercase().starts_with("GB")` tells.
pub open spec fn is_gigabytes(unit: Seq<char>) -> bool {
    unit.len() >= 2 && (unit[0] == 'g' || unit[0] == 'G') && (unit[1] == 'b' || unit[1] == 'B')
}

/// The memory in MiB of a `sppci_vram` text (`8 GB`, `1536 MB`, or a bare
/// number of MiB).
pub open spec fn macos_vram_of(s: Seq<char>) -> Option<u64> {
    let ws = words_of(s);
    if ws.len() >= 2 {
        match u64_of(ws[0]) {
            Some(n) => if is_gigabytes(ws[1]) {
                Some(wrap64(n * 1024))
            } else {
                Some(n)
            },
            None => None,
        }
    } else {
        u64_of(s)
    }
}

fn vram_exec(s: &str) -> (r: Option<u64>)
    ensures
        r == macos_vram_of(s@),
{
    let c = chars_of(s);
    let ws = split_whitespace(&c);
    if ws.len() >= 2 {
        assert(views(ws@)[0] == ws@[0]@ && views(ws@)[1] == ws@[1]@);
        match parse_u64(&ws[0]) {
            Some(n) => {
                let u = &ws[1];
                if u.len() >= 2 && (u[0] == 'g' || u[0] == 'G') && (u[1] == 'b' || u[1] == 'B') {
                    Some(mul_wrap(n, 1024))
                } else {
                    Some(n)
                }
            },
            None => None,
        }
    } else {
        parse_u64(&c)
    }
}

/// The macOS record of a graphics adapter that `system_profiler
/// SPDisplaysDataType` lists, from its name (`sppci_model`, else `_name`), its
/// `sppci_vendor`, its memory text (`sppci_vram`, else `_spdisplays_vram`) and
/// its `spdisplays_metal` field, each `None` when missing or not a string.
pub fn macos_gpu(
    name: Option<String>,
    vendor_raw: Option<String>,
    vram: Option<String>,
    metal: Option<String>,
) -> (r: GpuInfo)
    ensures
        r.name@ == string_or(name, "Unknown GPU"@),
        r.vendor@ == macos_gpu_vendor_of(string_or(vendor_raw, seq![]), r.name@),
        r.vram_mb == match vram {
            Some(v) => match macos_vram_of(v@) {
                Some(m) => m,
                None => 0,
            },
            None => 0,
        },
        r.driver_version@ == string_or(metal, seq![]),
{
    let n = string_or_exec(name, "Unknown GPU");
    let nc = chars_of(n.as_str());
    let raw = match vendor_raw {
        Some(v) => chars_of(v.as_str()),
        None => Vec::new(),
    };
    assert(vendor_raw is None ==> raw@ =~= Seq::<char>::empty());
    let vendor = if raw.len() > 0 {
        if crate::text::contains(&raw, "apple") || crate::text::contains(&nc, "Apple") {
            owned("Apple")
        } else if crate::text::contains(&raw, "amd") || crate::text::contains(&raw, "ATI")
            || crate::text::contains(&nc, "AMD") || crate::text::contains(&nc, "Radeon") {
            owned("AMD")
        } else if crate::text::contains(&raw, "nvidia") || crate::text::contains(&nc, "NVIDIA")
            || crate::text::contains(&nc, "GeForce") {
            owned("NVIDIA")
        } else if crate::text::contains(&raw, "intel") || crate::text::contains(&nc, "Intel") {
            owned("Intel")
        } else {
            string_from_chars(&raw)
        }
    } else if crate::text::contains(&nc, "Apple") {
        owned("Apple")
    } else if crate::text::contains(&nc, "AMD") || crate::text::contains(&nc, "Radeon") {
        owned("AMD")
    } else if crate::text::contains(&nc, "NVIDIA") || crate::text::contains(&nc, "GeForce") {
        owned("NVIDIA")
    } else if crate::text::contains(&nc, "Intel") {
        owned("Intel")
    } else {
        owned("Unknown")
    };
    let vram_mb = match vram {
        Some(v) => match vram_exec(v.as_str()) {
            Some(m) => m,
            None => 0,
        },
        None => 0,
    };
    let driver_version = match metal {
        Some(m) => m,
        None => string_from_chars(&Vec::new()),
    };
    GpuInfo { name: n, vendor, vram_mb, driver_version }
}

// ───────────────────────────── battery ─────────────────────────────

/// What one entry of `system_profiler SPPowerDataType` says, as plain values.
/// A field of a section is meaningful only when the section is present.
pub struct PowerEntry {
    /// `sppower_battery_charge_info` is present.
    pub has_charge_info: bool,
    /// Its `sppower_battery_current_capacity`, as a number or numeric text.
    pub current_capacity: Option<u64>,
    /// Its `sppower_battery_max_capacity`, as a number or numeric text.
    pub max_capacity: Option<u64>,
    /// Its `sppower_battery_is_charging`, when present: `TRUE` or `true`.
    pub is_charging: Option<bool>,
    /// `sppower_battery_health_info` is present.
    pub has_health_info: bool,
    /// Its `sppower_battery_cycle_count`, as a number or numeric text.
    pub cycle_count: Option<u64>,
    /// `sppower_ac_charger_information` is present.
    pub has_ac_info: bool,
    /// Its `sppower_battery_charger_connected`, when present: `TRUE` or `true`.
    pub charger_connected: Option<bool>,
    /// `sppower_battery_model_info` is present.
    pub has_model_info: bool,
    /// Its `sppower_battery_design_capacity`, as a number or numeric text.
    pub design_capacity: Option<u64>,
    /// The text of the health section's `sppower_battery_health_maximum_capacity`
    /// (a percentage), to be read as a fraction.
    pub health_text: Option<String>,
}

/// A battery's current and maximum capacity.
#[derive(Debug, Clone, Copy, PartialEq, Eq, Structural)]
pub struct ChargeLevel {
    pub current: u64,
    pub max: u64,
}

/// What the entries of `system_profiler SPPowerDataType` say of the battery.
#[derive(Debug, Clone, Copy, PartialEq, Eq, Structural)]
pub struct PowerSummary {
    pub has_battery: bool,
    /// The current and maximum capacity of the last charge section with a
    /// positive maximum.
    pub charge: Option<ChargeLevel>,
    pub is_charging: bool,
    pub is_connected: bool,
    pub cycle_count: Option<u32>,
    /// The last maximum capacity seen with a current capacity.
    pub max_capacity: Option<u64>,
    pub design_capacity: Option<u64>,
}

/// Nothing seen yet.
pub open spec fn power_start() -> PowerSummary {
    PowerSummary {
        has_battery: false,
        charge: None,
        is_charging: false,
        is_connected: false,
        cycle_count: None,
        max_capacity: None,
        design_capacity: None,
    }
}

/// What is known after one more entry.
pub open spec fn power_step(s: PowerSummary, e: PowerEntry) -> PowerSummary {
    let (charge, max_capacity) = if e.has_charge_info && e.current_capacity is Some
        && e.max_capacity is Some {
        let m = e.max_capacity->0;
        (
            if m > 0 {
                Some(ChargeLevel { current: e.current_capacity->0, max: m })
            } else {
                s.charge
            },
            Some(m),
        )
    } else {
        (s.charge, s.max_capacity)
    };
    PowerSummary {
        has_battery: s.has_battery || e.has_charge_info || e.has_health_info || e.has_model_info,
        charge,
        is_charging: if e.has_charge_info && e.is_charging is Some {
            e.is_charging->0
        } else {
            s.is_charging
        },
        is_connected: if e.has_ac_info && e.charger_connected is Some {
            e.charger_connected->0
        } else {
            s.is_connected
        },
        cycle_count: if e.has_health_info && e.cycle_count is Some {
            Some(wrap32(e.cycle_count->0))
        } else {
            s.cycle_count
        },
        max_capacity,
        design_capacity: if e.has_model_info && e.design_capacity is Some {
            e.design_capacity
        } else {
            s.design_capacity
        },
    }
}

/// What is known after all the given entries.
pub open spec fn power_summary_of(es: Seq<PowerEntry>) -> PowerSummary
    decreases es.len(),
{
    if es.len() == 0 {
        power_start()
    } else {
        power_step(power_summary_of(es.drop_last()), es.last())
    }
}

/// What the entries of `system_profiler SPPowerDataType` say of the battery, in
/// order, a later entry overriding an earlier one.
pub fn macos_power_summary(entries: &Vec<PowerEntry>) -> (r: PowerSummary)
    ensures
        r == power_summary_of(entries@),
{
    let mut s = PowerSummary {
        has_battery: false,
        charge: None,
        is_charging: false,
        is_connected: false,
        cycle_count: None,
        max_capacity: None,
        design_capacity: None,
    };
    let mut i: usize = 0;
    while i < entries.len()
        invariant
            i <= entries.len(),
            s == power_summary_of(entries@.take(i as int)),
        decreases entries.len() - i,
    {
        assert(entries@.take(i + 1).drop_last() =~= entries@.take(i as int));
        let e = &entries[i];
        if e.has_charge_info || e.has_health_info || e.has_model_info {
            s.has_battery = true;
        }
        if e.has_charge_info {
            match (e.current_capacity, e.max_capacity) {
                (Some(c), Some(m)) => {
                    s.max_capacity = Some(m);
                    if m > 0 {
                        s.charge = Some(ChargeLevel { current: c, max: m });
                    }
                },
                _ => {},
            }
            match e.is_charging {
                Some(c) => s.is_charging = c,
                None => {},
            }
        }
        if e.has_health_info {
            match e.cycle_count {
                Some(c) => s.cycle_count = Some((c % 0x1_0000_0000) as u32),
                None => {},
            }
        }
        if e.has_ac_info {
            match e.charger_connected {
                Some(c) => s.is_connected = c,
                None => {},
            }
        }
        if e.has_model_info {
            match e.design_capacity {
                Some(d) => s.design_capacity = Some(d),
                None => {},
            }
        }
        i += 1;
    }
    assert(entries@.take(entries.len() as int) =~= entries@);
    s
}

/// The status of a Mac battery: charging; else, on the charger, full when the
/// charge has reached 100 % and not charging otherwise; else discharging.
pub open spec fn macos_status_of(s: PowerSummary, charge_full: bool) -> BatteryStatus {
    if s.is_charging {
        BatteryStatus::Charging
    } else if s.is_connected {
        if charge_full {
            BatteryStatus::Full
        } else {
            BatteryStatus::NotCharging
        }
    } else {
        BatteryStatus::Discharging
    }
}

/// The macOS reading of the battery, from what the entries say and whether the
/// charge (`current / max × 100`, 0 when unknown) has reached 100; none when no
/// entry describes a battery. Capacities are passed on as reported; no time
/// estimate is available.
pub fn macos_battery(s: &PowerSummary, charge_full: bool) -> (r: Option<BatteryReading>)
    ensures
        !s.has_battery ==> r is None,
        s.has_battery ==> r == Some(
            BatteryReading {
                status: macos_status_of(*s, charge_full),
                cycle_count: s.cycle_count,
                design_capacity_mwh: s.design_capacity,
                full_charge_capacity_mwh: s.max_capacity,
                time_to_empty_secs: None,
                time_to_full_secs: None,
            },
        ),
{
    if !s.has_battery {
        return None;
    }
    let status = if s.is_charging {
        BatteryStatus::Charging
    } else if s.is_connected {
        if charge_full {
            BatteryStatus::Full
        } else {
            BatteryStatus::NotCharging
        }
    } else {
        BatteryStatus::Discharging
    };
    Some(
        BatteryReading {
            status,
            cycle_count: s.cycle_count,
            design_capacity_mwh: s.design_capacity,
            full_charge_capacity_mwh: s.max_capacity,
            time_to_empty_secs: None,
            time_to_full_secs: None,
        },
    )
}


// ───────────────────────────── displays ─────────────────────────────

/// The size and refresh text of a `_spdisplays_resolution` text
/// (`3456 x 2234 @ 120.00Hz`, or `1920 x 1080 (…)`): what precedes any `(`,
/// trimmed, split at ` x `, the height split from an `@`-introduced refresh
/// rate, whose text loses its `Hz`; (0, 0) and no rate without ` x `.
pub open spec fn resolution_of(s: Seq<char>) -> (u32, u32, Option<Seq<char>>) {
    let clean = trimmed(s.take(crate::text::index_of(s, '(') as int));
    match crate::text::split_once_str_at(clean, " x "@) {
        Some((w, rest)) => {
            let width = crate::linux::display::u32_or_zero(trimmed(w));
            match split_once_at(rest, '@') {
                Some((h, f)) => (
                    width,
                    crate::linux::display::u32_or_zero(trimmed(h)),
                    Some(trimmed(crate::text::strip_trailing_str(trimmed(f), "Hz"@))),
                ),
                None => (width, crate::linux::display::u32_or_zero(trimmed(rest)), None),
            }
        },
        None => (0, 0, None),
    }
}

/// The size of a display and the text of its refresh rate.
pub struct MacResolution {
    pub width: u32,
    pub height: u32,
    pub refresh: Option<String>,
}

fn u32_or_zero(v: &Vec<char>) -> (r: u32)
    ensures
        r == crate::linux::display::u32_or_zero(v@),
{
    match crate::numbers::parse_u32(v) {
        Some(x) => x,
        None => 0,
    }
}

/// The size and refresh text of a `_spdisplays_resolution` text.
pub fn parse_macos_resolution(s: &str) -> (r: MacResolution)
    ensures
        (r.width, r.height, opt_view(r.refresh)) == resolution_of(s@),
{
    let c = chars_of(s);
    let p = crate::text::find_char_from(&c, '(', 0);
    assert(c@.skip(0) =~= c@);
    let head = subvec(&c, 0, p);
    let clean = trim(&head);
    match crate::text::split_once_str(&clean, " x ") {
        Some((w, rest)) => {
            let width = u32_or_zero(&trim(&w));
            match split_once(&rest, '@') {
                Some((h, f)) => {
                    let ft = trim(&crate::text::trim_end_str(&trim(&f), "Hz"));
                    MacResolution {
                        width,
                        height: u32_or_zero(&trim(&h)),
                        refresh: Some(string_from_chars(&ft)),
                    }
                },
                None => MacResolution { width, height: u32_or_zero(&trim(&rest)), refresh: None },
            }
        },
        None => MacResolution { width: 0, height: 0, refresh: None },
    }
}

/// A display entry (`spdisplays_ndrvs`) of `system_profiler SPDisplaysDataType`:
/// its `_name`, `_spdisplays_resolution`, `spdisplays_retina` and
/// `spdisplays_main` fields, each `None` when missing or not a string.
pub struct MacDisplayEntry {
    pub name: Option<String>,
    pub resolution: Option<String>,
    pub retina: Option<String>,
    pub main: Option<String>,
}

/// A display of a Mac, with its density in dots per inch and the text of its
/// refresh rate.
pub struct MacDisplay {
    pub name: String,
    pub width: u32,
    pub height: u32,
    pub refresh: Option<String>,
    pub dpi: u32,
    pub is_primary: bool,
}

/// Whether a field holds `spdisplays_yes`.
pub open spec fn says_yes(f: Option<String>) -> bool {
    match f {
        Some(t) => has_infix(t@, "spdisplays_yes"@),
        None => false,
    }
}

/// The display of the `k`-th entry (over all adapters): none when its size has
/// a zero side; 144 dpi when Retina, else 72; primary when it is the main
/// display or the very first entry.
pub open spec fn mac_display_of(e: MacDisplayEntry, k: int) -> Option<
    (Seq<char>, u32, u32, Option<Seq<char>>, u32, bool),
> {
    let (w, h, rf) = match e.resolution {
        Some(t) => resolution_of(t@),
        None => (0u32, 0u32, None),
    };
    if w > 0 && h > 0 {
        Some(
            (
                string_or(e.name, "Unknown Display"@),
                w,
                h,
                rf,
                if says_yes(e.retina) {
                    144u32
                } else {
                    72u32
                },
                says_yes(e.main) || k == 0,
            ),
        )
    } else {
        None
    }
}

/// The displays of the given entries, in order.
pub open spec fn mac_displays_of(es: Seq<MacDisplayEntry>) -> Seq<
    (Seq<char>, u32, u32, Option<Seq<char>>, u32, bool),
>
    decreases es.len(),
{
    if es.len() == 0 {
        seq![]
    } else {
        match mac_display_of(es.last(), es.len() - 1) {
            Some(d) => mac_displays_of(es.drop_last()).push(d),
            None => mac_displays_of(es.drop_last()),
        }
    }
}

/// What a display record holds.
pub open spec fn mac_display_view(d: MacDisplay) -> (Seq<char>, u32, u32, Option<Seq<char>>, u32, bool) {
    (d.name@, d.width, d.height, opt_view(d.refresh), d.dpi, d.is_primary)
}

fn field_says_yes(f: &Option<String>) -> (r: bool)
    ensures
        r == says_yes(*f),
{
    match f {
        Some(t) => crate::text::contains(&chars_of(t.as_str()), "spdisplays_yes"),
        None => false,
    }
}

/// The displays of a Mac, from its display entries over all adapters in order.
pub fn macos_displays(entries: &Vec<MacDisplayEntry>) -> (r: Vec<MacDisplay>)
    ensures
        r@.map_values(|d: MacDisplay| mac_display_view(d)) == mac_displays_of(entries@),
{
    let mut out: Vec<MacDisplay> = Vec::new();
    let mut k: usize = 0;
    assert(out@.map_values(|d: MacDisplay| mac_display_view(d)) =~= mac_displays_of(
        entries@.take(0),
    ));
    while k < entries.len()
        invariant
            k <= entries.len(),
            out@.map_values(|d: MacDisplay| mac_display_view(d)) == mac_displays_of(
                entries@.take(k as int),
            ),
        decreases entries.len() - k,
    {
        let ghost pre = entries@.take(k as int);
        assert(entries@.take(k + 1).drop_last() =~= pre);
        assert(entries@.take(k + 1).last() == entries@[k as int]);
        let e = &entries[k];
        let res = match &e.resolution {
            Some(t) => parse_macos_resolution(t.as_str()),
            None => MacResolution { width: 0, height: 0, refresh: None },
        };
        if res.width > 0 && res.height > 0 {
            let name = match &e.name {
                Some(n) => owned(n.as_str()),
                None => owned("Unknown Display"),
            };
            let dpi: u32 = if field_says_yes(&e.retina) {
                144
            } else {
                72
            };
            let is_primary = field_says_yes(&e.main) || k == 0;
            let ghost before = out@.map_values(|d: MacDisplay| mac_display_view(d));
            let d = MacDisplay {
                name,
                width: res.width,
                height: res.height,
                refresh: res.refresh,
                dpi,
                is_primary,
            };
            let ghost dv = mac_display_view(d);
            out.push(d);
            assert(out@.map_values(|d: MacDisplay| mac_display_view(d)) =~= before.push(dv));
        }
        k += 1;
    }
    assert(entries@.take(entries.len() as int) =~= entries@);
    out
}

// ───────────────────────────── network ─────────────────────────────

/// The hardware address of a link-level address (`sockaddr_dl`): the six bytes
/// after the interface name in its data (the whole data, which runs past the
/// twelve bytes of the structure's declared array for long names), when the
/// address is six bytes long and the data holds them.
pub fn mac_from_link(addr_len: u8, name_len: u8, data: &Vec<u8>) -> (r: Option<String>)
    ensures
        opt_view(r) == crate::network::link_mac(addr_len, name_len, data@),
{
    if addr_len != 6 || data.len() < 6 || name_len as usize > data.len() - 6 {
        return None;
    }
    let start = name_len as usize;
    let mut bytes: Vec<u8> = Vec::new();
    let mut i: usize = 0;
    while i < 6
        invariant
            i <= 6,
            start + 6 <= data.len(),
            bytes@ =~= data@.subrange(start as int, start + i),
        decreases 6 - i,
    {
        bytes.push(data[start + i]);
        i += 1;
    }
    Some(crate::network::mac_string(&bytes, false))
}
// ───────────────────────────── system_profiler documents ─────────────────────────────

/// The elements of the array member `key` of a document, if it is one.
pub open spec fn doc_items(doc: JsonValue, key: Seq<char>) -> Option<Seq<JsonValue>> {
    match json_get(doc, key) {
        Some(x) => json_items(x),
        None => None,
    }
}

/// The count `key` of a section, when the section and the count are there.
pub open spec fn section_count_of(v: JsonValue, section: Seq<char>, key: Seq<char>) -> Option<u64> {
    match json_get(v, section) {
        Some(s) => match json_get(s, key) {
            Some(x) => json_count(x),
            None => None,
        },
        None => None,
    }
}

/// The flag `key` of a section, when the section and the flag are there.
pub open spec fn section_flag_of(v: JsonValue, section: Seq<char>, key: Seq<char>) -> Option<bool> {
    match json_get(v, section) {
        Some(s) => match json_get(s, key) {
            Some(x) => Some(json_flag(x)),
            None => None,
        },
        None => None,
    }
}

/// The text that a maximum capacity is read from as a fraction: a string
/// without its trailing `%`s, or the text of a number.
pub open spec fn health_text_of(v: JsonValue) -> Option<Seq<char>> {
    match v {
        JsonValue::Str(s) => Some(crate::text::strip_trailing(s@, '%')),
        JsonValue::UInt(n) => Some(digits_in(n as nat, 10, false)),
        JsonValue::OtherNumber(t) => Some(t@),
        _ => None,
    }
}

/// The maximum capacity text of an entry's health section.
pub open spec fn entry_health_text(v: JsonValue) -> Option<Seq<char>> {
    match json_get(v, "sppower_battery_health_info"@) {
        Some(h) => match json_get(h, "sppower_battery_health_maximum_capacity"@) {
            Some(x) => health_text_of(x),
            None => None,
        },
        None => None,
    }
}

/// Whether `e` holds what an entry `v` of `SPPowerDataType` says.
pub open spec fn power_entry_from(e: PowerEntry, v: JsonValue) -> bool {
    &&& e.has_charge_info == json_get(v, "sppower_battery_charge_info"@) is Some
    &&& e.current_capacity == section_count_of(
        v,
        "sppower_battery_charge_info"@,
        "sppower_battery_current_capacity"@,
    )
    &&& e.max_capacity == section_count_of(
        v,
        "sppower_battery_charge_info"@,
        "sppower_battery_max_capacity"@,
    )
    &&& e.is_charging == section_flag_of(
        v,
        "sppower_battery_charge_info"@,
        "sppower_battery_is_charging"@,
    )
    &&& e.has_health_info == json_get(v, "sppower_battery_health_info"@) is Some
    &&& e.cycle_count == section_count_of(
        v,
        "sppower_battery_health_info"@,
        "sppower_battery_cycle_count"@,
    )
    &&& e.has_ac_info == json_get(v, "sppower_ac_charger_information"@) is Some
    &&& e.charger_connected == section_flag_of(
        v,
        "sppower_ac_charger_information"@,
        "sppower_battery_charger_connected"@,
    )
    &&& e.has_model_info == json_get(v, "sppower_battery_model_info"@) is Some
    &&& e.design_capacity == section_count_of(
        v,
        "sppower_battery_model_info"@,
        "sppower_battery_design_capacity"@,
    )
    &&& opt_view(e.health_text) == entry_health_text(v)
}

fn section_count(v: &JsonValue, section: &str, key: &str) -> (r: Option<u64>)
    ensures
        r == section_count_of(*v, section@, key@),
{
    match get_member(v, section) {
        Some(s) => match get_member(s, key) {
            Some(x) => get_count(x),
            None => None,
        },
        None => None,
    }
}

fn section_flag(v: &JsonValue, section: &str, key: &str) -> (r: Option<bool>)
    ensures
        r == section_flag_of(*v, section@, key@),
{
    match get_member(v, section) {
        Some(s) => match get_member(s, key) {
            Some(x) => Some(get_flag(x)),
            None => None,
        },
        None => None,
    }
}

fn health_text(v: &JsonValue) -> (r: Option<String>)
    ensures
        opt_view(r) == entry_health_text(*v),
{
    match get_member(v, "sppower_battery_health_info") {
        Some(h) => match get_member(h, "sppower_battery_health_maximum_capacity") {
            Some(x) => match x {
                JsonValue::Str(s) => Some(
                    string_from_chars(&crate::text::trim_end_char(&chars_of(s.as_str()), '%')),
                ),
                JsonValue::UInt(n) => Some(string_from_chars(&decimal(*n))),
                JsonValue::OtherNumber(t) => Some(owned(t.as_str())),
                _ => None,
            },
            None => None,
        },
        None => None,
    }
}

fn power_entry(v: &JsonValue) -> (r: PowerEntry)
    ensures
        power_entry_from(r, *v),
{
    PowerEntry {
        has_charge_info: get_member(v, "sppower_battery_charge_info").is_some(),
        current_capacity: section_count(
            v,
            "sppower_battery_charge_info",
            "sppower_battery_current_capacity",
        ),
        max_capacity: section_count(v, "sppower_battery_charge_info", "sppower_battery_max_capacity"),
        is_charging: section_flag(v, "sppower_battery_charge_info", "sppower_battery_is_charging"),
        has_health_info: get_member(v, "sppower_battery_health_info").is_some(),
        cycle_count: section_count(v, "sppower_battery_health_info", "sppower_battery_cycle_count"),
        has_ac_info: get_member(v, "sppower_ac_charger_information").is_some(),
        charger_connected: section_flag(
            v,
            "sppower_ac_charger_information",
            "sppower_battery_charger_connected",
        ),
        has_model_info: get_member(v, "sppower_battery_model_info").is_some(),
        design_capacity: section_count(
            v,
            "sppower_battery_model_info",
            "sppower_battery_design_capacity",
        ),
        health_text: health_text(v),
    }
}

/// The entries of a `system_profiler SPPowerDataType -json` document, in
/// order; none when it has no `SPPowerDataType` array, which means that there
/// is no battery.
pub fn power_entries(doc: &JsonValue) -> (r: Option<Vec<PowerEntry>>)
    ensures
        match doc_items(*doc, "SPPowerDataType"@) {
            None => r is None,
            Some(items) => r matches Some(v) && v@.len() == items.len() && forall|i: int|
                0 <= i < items.len() ==> power_entry_from(#[trigger] v@[i], items[i]),
        },
{
    match get_member(doc, "SPPowerDataType") {
        Some(x) => match x {
            JsonValue::Array(items) => {
                let mut out: Vec<PowerEntry> = Vec::new();
                let mut i: usize = 0;
                while i < items.len()
                    invariant
                        i <= items.len(),
                        out@.len() == i,
                        forall|k: int| 0 <= k < i ==> power_entry_from(#[trigger] out@[k], items@[k]),
                    decreases items.len() - i,
                {
                    out.push(power_entry(&items[i]));
                    i += 1;
                }
                Some(out)
            },
            _ => None,
        },
        None => None,
    }
}

/// The name of an adapter entry: its `sppci_model` member when there is one,
/// else its `_name`; a member that is not a string gives none.
pub open spec fn gpu_name_member(v: JsonValue) -> Option<Seq<char>> {
    match json_get(v, "sppci_model"@) {
        Some(x) => crate::json::json_text(x),
        None => text_member(v, "_name"@),
    }
}

/// The memory text of an adapter entry: its `sppci_vram` member when there is
/// one, else its `_spdisplays_vram`; a member that is not a string gives none.
pub open spec fn gpu_vram_member(v: JsonValue) -> Option<Seq<char>> {
    match json_get(v, "sppci_vram"@) {
        Some(x) => crate::json::json_text(x),
        None => text_member(v, "_spdisplays_vram"@),
    }
}

/// The elements of the array member `key`, or none at all.
pub open spec fn items_or_none(doc: JsonValue, key: Seq<char>) -> Seq<JsonValue> {
    match doc_items(doc, key) {
        Some(items) => items,
        None => seq![],
    }
}

fn first_text_member(v: &JsonValue, first: &str, second: &str) -> (r: Option<String>)
    ensures
        opt_view(r) == match json_get(*v, first@) {
            Some(x) => crate::json::json_text(x),
            None => text_member(*v, second@),
        },
{
    match get_member(v, first) {
        Some(x) => crate::json::get_text(x),
        None => get_text_member(v, second),
    }
}

/// The name, vendor, memory text and `spdisplays_metal` text of each adapter
/// entry of a `system_profiler SPDisplaysDataType -json` document, in order
/// (none when it has no `SPDisplaysDataType` array).
pub fn gpu_fields(doc: &JsonValue) -> (r: Vec<(Option<String>, Option<String>, Option<String>, Option<String>)>)
    ensures
        ({
            let items = items_or_none(*doc, "SPDisplaysDataType"@);
            &&& r@.len() == items.len()
            &&& forall|i: int|
                0 <= i < items.len() ==> opt_view((#[trigger] r@[i]).0) == gpu_name_member(items[i])
                    && opt_view(r@[i].1) == text_member(items[i], "sppci_vendor"@) && opt_view(
                    r@[i].2,
                ) == gpu_vram_member(items[i]) && opt_view(r@[i].3) == text_member(
                    items[i],
                    "spdisplays_metal"@,
                )
        }),
{
    let mut out: Vec<(Option<String>, Option<String>, Option<String>, Option<String>)> = Vec::new();
    match get_member(doc, "SPDisplaysDataType") {
        Some(x) => match x {
            JsonValue::Array(items) => {
                let mut i: usize = 0;
                while i < items.len()
                    invariant
                        i <= items.len(),
                        items_or_none(*doc, "SPDisplaysDataType"@) == items@,
                        out@.len() == i,
                        forall|k: int|
                            0 <= k < i ==> opt_view((#[trigger] out@[k]).0) == gpu_name_member(
                                items@[k],
                            ) && opt_view(out@[k].1) == text_member(items@[k], "sppci_vendor"@)
                                && opt_view(out@[k].2) == gpu_vram_member(items@[k]) && opt_view(
                                out@[k].3,
                            ) == text_member(items@[k], "spdisplays_metal"@),
                    decreases items.len() - i,
                {
                    let e = &items[i];
                    out.push(
                        (
                            first_text_member(e, "sppci_model", "_name"),
                            get_text_member(e, "sppci_vendor"),
                            first_text_member(e, "sppci_vram", "_spdisplays_vram"),
                            get_text_member(e, "spdisplays_metal"),
                        ),
                    );
                    i += 1;
                }
            },
            _ => {},
        },
        None => {},
    }
    out
}

/// The display entries (`spdisplays_ndrvs`) of an adapter entry.
pub open spec fn adapter_displays(a: JsonValue) -> Seq<JsonValue> {
    match json_get(a, "spdisplays_ndrvs"@) {
        Some(x) => match json_items(x) {
            Some(ds) => ds,
            None => seq![],
        },
        None => seq![],
    }
}

/// The display entries of the given adapter entries, in order.
pub open spec fn all_displays(adapters: Seq<JsonValue>) -> Seq<JsonValue>
    decreases adapters.len(),
{
    if adapters.len() == 0 {
        seq![]
    } else {
        all_displays(adapters.drop_last()) + adapter_displays(adapters.last())
    }
}

/// Whether `d` holds what a display entry `v` says.
pub open spec fn display_entry_from(d: MacDisplayEntry, v: JsonValue) -> bool {
    &&& opt_view(d.name) == text_member(v, "_name"@)
    &&& opt_view(d.resolution) == text_member(v, "_spdisplays_resolution"@)
    &&& opt_view(d.retina) == text_member(v, "spdisplays_retina"@)
    &&& opt_view(d.main) == text_member(v, "spdisplays_main"@)
}

fn display_entry(v: &JsonValue) -> (r: MacDisplayEntry)
    ensures
        display_entry_from(r, *v),
{
    MacDisplayEntry {
        name: get_text_member(v, "_name"),
        resolution: get_text_member(v, "_spdisplays_resolution"),
        retina: get_text_member(v, "spdisplays_retina"),
        main: get_text_member(v, "spdisplays_main"),
    }
}

/// The display entries of all adapters of a `system_profiler
/// SPDisplaysDataType -json` document, in order.
pub fn display_entries(doc: &JsonValue) -> (r: Vec<MacDisplayEntry>)
    ensures
        ({
            let f = all_displays(items_or_none(*doc, "SPDisplaysDataType"@));
            &&& r@.len() == f.len()
            &&& forall|i: int| 0 <= i < f.len() ==> display_entry_from(#[trigger] r@[i], f[i])
        }),
{
    let mut out: Vec<MacDisplayEntry> = Vec::new();
    match get_member(doc, "SPDisplaysDataType") {
        Some(x) => match x {
            JsonValue::Array(items) => {
                let mut i: usize = 0;
                assert(all_displays(items@.take(0)) =~= Seq::<JsonValue>::empty());
                while i < items.len()
                    invariant
                        i <= items.len(),
                        items_or_none(*doc, "SPDisplaysDataType"@) == items@,
                        out@.len() == all_displays(items@.take(i as int)).len(),
                        forall|k: int|
                            0 <= k < out@.len() ==> display_entry_from(
                                #[trigger] out@[k],
                                all_displays(items@.take(i as int))[k],
                            ),
                    decreases items.len() - i,
                {
                    let ghost pre = all_displays(items@.take(i as int));
                    assert(items@.take(i + 1).drop_last() =~= items@.take(i as int));
                    assert(items@.take(i + 1).last() == items@[i as int]);
                    let a = &items[i];
                    match get_member(a, "spdisplays_ndrvs") {
                        Some(y) => match y {
                            JsonValue::Array(ds) => {
                                assert(adapter_displays(*a) == ds@);
                                let mut j: usize = 0;
                                while j < ds.len()
                                    invariant
                                        j <= ds.len(),
                                        out@.len() == pre.len() + j,
                                        forall|k: int|
                                            0 <= k < out@.len() ==> display_entry_from(
                                                #[trigger] out@[k],
                                                (pre + ds@)[k],
                                            ),
                                    decreases ds.len() - j,
                                {
                                    out.push(display_entry(&ds[j]));
                                    assert((pre + ds@)[pre.len() + j] == ds@[j as int]);
                                    j += 1;
                                }
                            },
                            _ => {
                                assert(adapter_displays(*a) =~= Seq::<JsonValue>::empty());
                                assert(pre + adapter_displays(*a) =~= pre);
                            },
                        },
                        None => {
                            assert(adapter_displays(*a) =~= Seq::<JsonValue>::empty());
                            assert(pre + adapter_displays(*a) =~= pre);
                        },
                    }
                    i += 1;
                }
                assert(items@.take(items.len() as int) =~= items@);
            },
            _ => {},
        },
        None => {},
    }
    out
}

} // verus!
