//! Linux graphics adapters: what `/sys/class/drm`, `/proc/driver/nvidia` and
//! `lspci` say of them.
use vstd::prelude::*;
use crate::linux::opt_chars;
use crate::linux::display::opt_view;
use crate::models::GpuInfo;
use crate::numbers::{
    digits_in, hex_padded, hex_u32_of, parse_hex_u32, parse_u64, strip_hex_prefixes,
    trim_hex_prefixes, u64_of, zero_padded,
};
use crate::text::{
    all_ascii_digits, chars_of, concat, eq_str, has_infix, has_prefix, lines, lines_of, owned,
    split_once, split_once_at, split_whitespace, string_from_chars, subvec, trim, trimmed, views,
    words_of,
};

verus! {

/// Whether an entry of `/sys/class/drm` is a card (`card0`, `card1`, …) rather
/// than one of its connectors (`card0-HDMI-A-1`).
pub open spec fn is_card_name(name: Seq<char>) -> bool {
    has_prefix(name, "card"@) && all_ascii_digits(name.skip(4))
}

/// Whether an entry of `/sys/class/drm` is a card.
pub fn is_drm_card(name: &str) -> (r: bool)
    ensures
        r == is_card_name(name@),
{
    let n = chars_of(name);
    proof {
        reveal_strlit("card");
    }
    if crate::text::starts_with(&n, "card") {
        crate::text::ascii_digits_from(&n, 4)
    } else {
        false
    }
}

/// The PCI vendor id in the text of a card's `device/vendor` file (`0x10de`),
/// 0 when it cannot be read or does not read as hexadecimal.
pub open spec fn vendor_id_of(text: Option<Seq<char>>) -> u32 {
    let t = match text {
        Some(t) => trimmed(t),
        None => seq![],
    };
    match hex_u32_of(strip_hex_prefixes(t)) {
        Some(id) => id,
        None => 0,
    }
}

/// The PCI vendor id in the text of a card's `device/vendor` file.
pub fn gpu_vendor_id(vendor_file: Option<&str>) -> (r: u32)
    ensures
        r == vendor_id_of(opt_chars(vendor_file)),
{
    let t = match vendor_file {
        Some(t) => trim(&chars_of(t)),
        None => Vec::new(),
    };
    assert(vendor_file is None ==> t@ =~= Seq::<char>::empty());
    match parse_hex_u32(&trim_hex_prefixes(&t)) {
        Some(id) => id,
        None => 0,
    }
}

/// The vendor's name for a PCI vendor id, as Linux reports it.
pub open spec fn linux_vendor_name(id: u32) -> Seq<char> {
    if id == 0x10de {
        "NVIDIA"@
    } else if id == 0x1002 {
        "AMD"@
    } else if id == 0x8086 {
        "Intel"@
    } else if id == 0x106b {
        "Apple"@
    } else if id == 0x1a03 {
        "ASPEED"@
    } else if id == 0 {
        "Unknown"@
    } else {
        "Unknown (0x"@ + zero_padded(digits_in(id as nat, 16, false), 4) + ")"@
    }
}

/// The vendor's name for a PCI vendor id.
pub fn linux_gpu_vendor(id: u32) -> (r: String)
    ensures
        r@ == linux_vendor_name(id),
{
    if id == 0x10de {
        owned("NVIDIA")
    } else if id == 0x1002 {
        owned("AMD")
    } else if id == 0x8086 {
        owned("Intel")
    } else if id == 0x106b {
        owned("Apple")
    } else if id == 0x1a03 {
        owned("ASPEED")
    } else if id == 0 {
        owned("Unknown")
    } else {
        let h = hex_padded(id as u64, 4, false);
        let r = concat(&concat(&chars_of("Unknown (0x"), &h), &chars_of(")"));
        string_from_chars(&r)
    }
}

/// The slot of a card in the text of its `device/uevent` file: the rest of the
/// first line that begins with `PCI_SLOT_NAME=`.
pub open spec fn pci_slot_of(ls: Seq<Seq<char>>) -> Option<Seq<char>>
    decreases ls.len(),
{
    if ls.len() == 0 {
        None
    } else if has_prefix(ls[0], "PCI_SLOT_NAME="@) {
        Some(ls[0].skip(14))
    } else {
        pci_slot_of(ls.drop_first())
    }
}

/// The slot of a card in the text of its `device/uevent` file.
pub fn pci_slot_name(uevent: &str) -> (r: Option<String>)
    ensures
        r matches Some(s) ==> pci_slot_of(lines_of(uevent@)) == Some(s@),
        r is None ==> pci_slot_of(lines_of(uevent@)) is None,
{
    let ls = lines(&chars_of(uevent));
    let mut i: usize = 0;
    proof {
        reveal_strlit("PCI_SLOT_NAME=");
    }
    assert(views(ls@).skip(0) =~= views(ls@));
    while i < ls.len()
        invariant
            i <= ls.len(),
            views(ls@) == lines_of(uevent@),
            pci_slot_of(views(ls@).skip(i as int)) == pci_slot_of(lines_of(uevent@)),
        decreases ls.len() - i,
    {
        let ghost rest = views(ls@).skip(i as int);
        assert(rest[0] == ls@[i as int]@);
        proof {
            reveal_strlit("PCI_SLOT_NAME=");
        }
        if crate::text::starts_with(&ls[i], "PCI_SLOT_NAME=") {
            let s = subvec(&ls[i], 14, ls[i].len());
            assert(s@ =~= ls@[i as int]@.skip(14));
            return Some(string_from_chars(&s));
        }
        assert(rest.drop_first() =~= views(ls@).skip(i + 1));
        i += 1;
    }
    None
}

/// The device's name in the output of `lspci -s <slot>`
/// (`00:02.0 VGA compatible controller: Intel Corporation …`): what follows the
/// second colon, trimmed.
pub open spec fn lspci_name_of(out: Seq<char>) -> Option<Seq<char>> {
    match split_once_at(out, ':') {
        Some((_, rest)) => match split_once_at(rest, ':') {
            Some((_, name)) => Some(trimmed(name)),
            None => None,
        },
        None => None,
    }
}

fn lspci_name(out: &Vec<char>) -> (r: Option<Vec<char>>)
    ensures
        r matches Some(n) ==> lspci_name_of(out@) == Some(n@),
        r is None ==> lspci_name_of(out@) is None,
{
    match split_once(out, ':') {
        Some((_, rest)) => match split_once(&rest, ':') {
            Some((_, name)) => Some(trim(&name)),
            None => None,
        },
        None => None,
    }
}

/// The device's name in the output of `lspci -s <slot>`.
pub fn lspci_device_name(output: &str) -> (r: Option<String>)
    ensures
        r matches Some(n) ==> lspci_name_of(output@) == Some(n@),
        r is None ==> lspci_name_of(output@) is None,
{
    match lspci_name(&chars_of(output)) {
        Some(n) => Some(string_from_chars(&n)),
        None => None,
    }
}

/// A card's name: its `device/label` file, trimmed, when not empty; else the
/// name that `lspci` gives of its slot; else the vendor followed by ` GPU`.
pub open spec fn linux_gpu_name_of(
    label: Option<Seq<char>>,
    lspci_output: Option<Seq<char>>,
    vendor: Seq<char>,
) -> Seq<char> {
    if label is Some && trimmed(label->0).len() > 0 {
        trimmed(label->0)
    } else {
        match lspci_output {
            Some(out) => match lspci_name_of(out) {
                Some(n) => n,
                None => vendor + " GPU"@,
            },
            None => vendor + " GPU"@,
        }
    }
}

/// A card's name from its `device/label` file alone: the text trimmed, when not
/// empty. When there is none, the name comes from `lspci` or the vendor.
pub fn gpu_label(label: Option<&str>) -> (r: Option<String>)
    ensures
        r matches Some(n) ==> label is Some && trimmed(label->0@).len() > 0 && n@ == trimmed(
            label->0@,
        ),
        r is None ==> label is None || trimmed(label->0@).len() == 0,
{
    match label {
        Some(l) => {
            let t = trim(&chars_of(l));
            if t.len() > 0 {
                Some(string_from_chars(&t))
            } else {
                None
            }
        },
        None => None,
    }
}

/// A card's name, from the text of its `device/label` file, the output of a
/// successful `lspci -s <slot>` for the slot its `device/uevent` names (`None`
/// when there is no slot, or `lspci` failed), and its vendor's name.
pub fn linux_gpu_name(label: Option<&str>, lspci_output: Option<&str>, vendor: &str) -> (r: String)
    ensures
        r@ == linux_gpu_name_of(opt_chars(label), opt_chars(lspci_output), vendor@),
{
    match label {
        Some(l) => {
            let t = trim(&chars_of(l));
            if t.len() > 0 {
                return string_from_chars(&t);
            }
        },
        None => {},
    }
    let fallback = concat(&chars_of(vendor), &chars_of(" GPU"));
    match lspci_output {
        Some(out) => match lspci_name(&chars_of(out)) {
            Some(n) => string_from_chars(&n),
            None => string_from_chars(&fallback),
        },
        None => string_from_chars(&fallback),
    }
}

/// A card's memory in MiB from the text of its `device/mem_info_vram_total` file
/// (bytes, as AMD drivers report it), if it reads as a number.
pub open spec fn amd_vram_of(text: Seq<char>) -> Option<u64> {
    match u64_of(trimmed(text)) {
        Some(b) => Some(b / 1048576u64),
        None => None,
    }
}

/// A card's memory in MiB from the text of its `device/mem_info_vram_total` file.
pub fn amd_vram_mb(text: &str) -> (r: Option<u64>)
    ensures
        r == amd_vram_of(text@),
{
    match parse_u64(&trim(&chars_of(text))) {
        Some(b) => Some(b / (1024 * 1024)),
        None => None,
    }
}

/// The memory size that one line of an NVIDIA `information` file gives: a line
/// that does not begin with `Video BIOS`, mentions `Memory` or `FB Size`, has a
/// colon, and whose first word after the colon is a number (of MiB).
pub open spec fn nvidia_line_vram(line: Seq<char>) -> Option<u64> {
    if has_prefix(line, "Video BIOS"@) {
        None
    } else if has_infix(line, "Memory"@) || has_infix(line, "FB Size"@) {
        match split_once_at(line, ':') {
            Some((_, v)) => {
                let ws = words_of(trimmed(v));
                if ws.len() > 0 {
                    u64_of(ws[0])
                } else {
                    None
                }
            },
            None => None,
        }
    } else {
        None
    }
}

/// The first memory size that a line of the given ones gives.
pub open spec fn first_vram(ls: Seq<Seq<char>>) -> Option<u64>
    decreases ls.len(),
{
    if ls.len() == 0 {
        None
    } else {
        match nvidia_line_vram(ls[0]) {
            Some(v) => Some(v),
            None => first_vram(ls.drop_first()),
        }
    }
}

fn nvidia_line(line: &Vec<char>) -> (r: Option<u64>)
    ensures
        r == nvidia_line_vram(line@),
{
    if crate::text::starts_with(line, "Video BIOS") {
        return None;
    }
    if crate::text::contains(line, "Memory") || crate::text::contains(line, "FB Size") {
        match split_once(line, ':') {
            Some((_, v)) => {
                let ws = split_whitespace(&trim(&v));
                if ws.len() > 0 {
                    assert(views(ws@)[0] == ws@[0]@);
                    parse_u64(&ws[0])
                } else {
                    None
                }
            },
            None => None,
        }
    } else {
        None
    }
}

/// The memory in MiB that the text of an NVIDIA `information` file (under
/// `/proc/driver/nvidia/gpus`) gives, if any.
pub fn nvidia_vram_mb(info: &str) -> (r: Option<u64>)
    ensures
        r == first_vram(lines_of(info@)),
{
    let ls = lines(&chars_of(info));
    let mut i: usize = 0;
    assert(views(ls@).skip(0) =~= views(ls@));
    while i < ls.len()
        invariant
            i <= ls.len(),
            views(ls@) == lines_of(info@),
            first_vram(views(ls@).skip(i as int)) == first_vram(lines_of(info@)),
        decreases ls.len() - i,
    {
        let ghost rest = views(ls@).skip(i as int);
        assert(rest[0] == ls@[i as int]@);
        match nvidia_line(&ls[i]) {
            Some(v) => return Some(v),
            None => {},
        }
        assert(rest.drop_first() =~= views(ls@).skip(i + 1));
        i += 1;
    }
    None
}

/// The memory size that the first of the given NVIDIA `information` texts that
/// gives one gives.
pub open spec fn first_info_vram(infos: Seq<Seq<char>>) -> Option<u64>
    decreases infos.len(),
{
    if infos.len() == 0 {
        None
    } else {
        match first_vram(lines_of(infos[0])) {
            Some(v) => Some(v),
            None => first_info_vram(infos.drop_first()),
        }
    }
}

/// A card's memory in MiB from the text of its `device/mem_info_vram_total`
/// file, else from the first NVIDIA `information` text that gives one, else 0.
pub open spec fn card_vram_of(vram_total: Option<Seq<char>>, infos: Seq<Seq<char>>) -> u64 {
    match vram_total {
        Some(t) => match amd_vram_of(t) {
            Some(m) => m,
            None => match first_info_vram(infos) {
                Some(m) => m,
                None => 0,
            },
        },
        None => match first_info_vram(infos) {
            Some(m) => m,
            None => 0,
        },
    }
}

/// A card's memory in MiB: from its `device/mem_info_vram_total` file (`None`
/// when it cannot be read), else from the first of the NVIDIA `information`
/// files under `/proc/driver/nvidia/gpus` that gives one, else 0.
pub fn card_vram_mb(vram_total: Option<&str>, nvidia_infos: &Vec<String>) -> (r: u64)
    ensures
        r == card_vram_of(opt_chars(vram_total), crate::network::string_views(nvidia_infos@)),
{
    let amd = match vram_total {
        Some(t) => amd_vram_mb(t),
        None => None,
    };
    match amd {
        Some(m) => m,
        None => {
            let ghost all = crate::network::string_views(nvidia_infos@);
            let mut i: usize = 0;
            assert(all.skip(0) =~= all);
            while i < nvidia_infos.len()
                invariant
                    i <= nvidia_infos.len(),
                    all == crate::network::string_views(nvidia_infos@),
                    first_info_vram(all.skip(i as int)) == first_info_vram(all),
                    match vram_total {
                        Some(t) => amd_vram_of(t@) is None,
                        None => true,
                    },
                decreases nvidia_infos.len() - i,
            {
                let ghost rest = all.skip(i as int);
                assert(rest[0] == nvidia_infos@[i as int]@);
                match nvidia_vram_mb(nvidia_infos[i].as_str()) {
                    Some(m) => return m,
                    None => {},
                }
                assert(rest.drop_first() =~= all.skip(i + 1));
                i += 1;
            }
            0
        },
    }
}

/// Where a card's driver version is found.
#[derive(Debug, Clone, Copy, PartialEq, Eq, Structural)]
pub enum DriverSource {
    /// `/sys/module/nvidia/version`.
    NvidiaModule,
    /// `/sys/module/amdgpu/version`.
    AmdgpuModule,
    /// The kernel release in `/proc/version`.
    KernelRelease,
}

/// Where the driver version of a card with the given vendor id is found:
/// the NVIDIA or amdgpu module, else the kernel release.
pub open spec fn driver_source_of(vendor_id: u32) -> DriverSource {
    if vendor_id == 0x10de {
        DriverSource::NvidiaModule
    } else if vendor_id == 0x1002 {
        DriverSource::AmdgpuModule
    } else {
        DriverSource::KernelRelease
    }
}

/// Where the driver version of a card with the given vendor id is found.
pub fn driver_version_source(vendor_id: u32) -> (r: DriverSource)
    ensures
        r == driver_source_of(vendor_id),
{
    if vendor_id == 0x10de {
        DriverSource::NvidiaModule
    } else if vendor_id == 0x1002 {
        DriverSource::AmdgpuModule
    } else {
        DriverSource::KernelRelease
    }
}

/// The driver version in the text of the file that `source` names: a module
/// file trimmed, or the third word of `/proc/version`; empty when there is none.
pub open spec fn driver_text_of(source: DriverSource, text: Option<Seq<char>>) -> Seq<char> {
    match source {
        DriverSource::KernelRelease => match text {
            Some(t) => if words_of(t).len() > 2 {
                words_of(t)[2]
            } else {
                seq![]
            },
            None => seq![],
        },
        _ => match text {
            Some(t) => trimmed(t),
            None => trimmed(seq![]),
        },
    }
}

/// The driver version from the text of the file its source names (`None` when
/// it cannot be read): a module file trimmed, or the third word of
/// `/proc/version`; empty when there is none.
pub fn driver_version(source: DriverSource, text: Option<&str>) -> (r: String)
    ensures
        r@ == driver_text_of(source, opt_chars(text)),
{
    match source {
        DriverSource::KernelRelease => match text {
            Some(t) => {
                let ws = split_whitespace(&chars_of(t));
                if ws.len() > 2 {
                    assert(views(ws@)[2] == ws@[2]@);
                    string_from_chars(&ws[2])
                } else {
                    let e: Vec<char> = Vec::new();
                    string_from_chars(&e)
                }
            },
            None => {
                let e: Vec<char> = Vec::new();
                string_from_chars(&e)
            },
        },
        _ => {
            let t = match text {
                Some(t) => chars_of(t),
                None => Vec::new(),
            };
            string_from_chars(&trim(&t))
        },
    }
}

/// Whether a line of `lspci` output is that of a display adapter.
pub open spec fn is_display_line(line: Seq<char>) -> bool {
    has_infix(line, "VGA"@) || has_infix(line, "3D controller"@) || has_infix(
        line,
        "Display controller"@,
    )
}

/// The vendor that a device name mentions.
pub open spec fn vendor_from_name(name: Seq<char>) -> Seq<char> {
    if has_infix(name, "NVIDIA"@) || has_infix(name, "GeForce"@) {
        "NVIDIA"@
    } else if has_infix(name, "AMD"@) || has_infix(name, "Radeon"@) || has_infix(name, "ATI"@) {
        "AMD"@
    } else if has_infix(name, "Intel"@) {
        "Intel"@
    } else {
        "Unknown"@
    }
}

/// The adapter that a display line of `lspci` output describes: its name (what
/// follows the second colon, trimmed, else the whole line) and its vendor.
pub open spec fn lspci_line_gpu(line: Seq<char>) -> (Seq<char>, Seq<char>) {
    let name = match lspci_name_of(line) {
        Some(n) => n,
        None => line,
    };
    (name, vendor_from_name(name))
}

/// The adapters of the display lines of the given lines, in order.
pub open spec fn lspci_gpus(ls: Seq<Seq<char>>) -> Seq<(Seq<char>, Seq<char>)>
    decreases ls.len(),
{
    if ls.len() == 0 {
        seq![]
    } else if is_display_line(ls.last()) {
        lspci_gpus(ls.drop_last()).push(lspci_line_gpu(ls.last()))
    } else {
        lspci_gpus(ls.drop_last())
    }
}

/// The adapters listed in the output of `lspci`, each with no memory size and
/// no driver version.
pub fn gpus_from_lspci(output: &str) -> (r: Vec<GpuInfo>)
    ensures
        ({
            let g = lspci_gpus(lines_of(output@));
            &&& r@.len() == g.len()
            &&& forall|i: int|
                0 <= i < g.len() ==> (#[trigger] r@[i]).name@ == g[i].0 && r@[i].vendor@
                    == g[i].1 && r@[i].vram_mb == 0 && r@[i].driver_version@.len() == 0
        }),
{
    let ls = lines(&chars_of(output));
    let mut out: Vec<GpuInfo> = Vec::new();
    let mut i: usize = 0;
    while i < ls.len()
        invariant
            i <= ls.len(),
            views(ls@) == lines_of(output@),
            ({
                let g = lspci_gpus(views(ls@).take(i as int));
                &&& out@.len() == g.len()
                &&& forall|k: int|
                    0 <= k < g.len() ==> (#[trigger] out@[k]).name@ == g[k].0 && out@[k].vendor@
                        == g[k].1 && out@[k].vram_mb == 0 && out@[k].driver_version@.len() == 0
            }),
        decreases ls.len() - i,
    {
        assert(views(ls@).take(i + 1).drop_last() =~= views(ls@).take(i as int));
        assert(views(ls@).take(i + 1).last() == ls@[i as int]@);
        let line = &ls[i];
        if crate::text::contains(line, "VGA") || crate::text::contains(line, "3D controller")
            || crate::text::contains(line, "Display controller") {
            let name = match lspci_name(line) {
                Some(n) => n,
                None => {
                    let l = subvec(line, 0, line.len());
                    assert(l@ =~= line@);
                    l
                },
            };
            assert(name@ == lspci_line_gpu(line@).0);
            let vendor = if crate::text::contains(&name, "NVIDIA") || crate::text::contains(
                &name,
                "GeForce",
            ) {
                owned("NVIDIA")
            } else if crate::text::contains(&name, "AMD") || crate::text::contains(&name, "Radeon")
                || crate::text::contains(&name, "ATI") {
                owned("AMD")
            } else if crate::text::contains(&name, "Intel") {
                owned("Intel")
            } else {
                owned("Unknown")
            };
            let e: Vec<char> = Vec::new();
            out.push(
                GpuInfo {
                    name: string_from_chars(&name),
                    vendor,
                    vram_mb: 0,
                    driver_version: string_from_chars(&e),
                },
            );
        }
        i += 1;
    }
    assert(views(ls@).take(ls.len() as int) =~= views(ls@));
    out
}

/// An entry of `/sys/class/drm`, with the texts of its card's files (each
/// `None` when it cannot be read): `device/vendor`, `device/label`,
/// `device/mem_info_vram_total`, and the output of a successful
/// `lspci -s <slot>` for the slot that `device/uevent` names (read only when
/// the label gives no name).
pub struct DrmCard {
    pub name: String,
    pub vendor: Option<String>,
    pub label: Option<String>,
    pub lspci: Option<String>,
    pub vram_total: Option<String>,
}

/// The texts of the files that driver versions are read from (each `None`
/// when it cannot be read): `/sys/module/nvidia/version`,
/// `/sys/module/amdgpu/version` and `/proc/version`.
pub struct DriverFiles {
    pub nvidia: Option<String>,
    pub amdgpu: Option<String>,
    pub proc_version: Option<String>,
}

/// The text of the file that `source` names.
pub open spec fn driver_file(d: DriverFiles, source: DriverSource) -> Option<Seq<char>> {
    match source {
        DriverSource::NvidiaModule => opt_view(d.nvidia),
        DriverSource::AmdgpuModule => opt_view(d.amdgpu),
        DriverSource::KernelRelease => opt_view(d.proc_version),
    }
}

/// The name, vendor, memory and driver version of a card.
pub open spec fn card_gpu_of(c: DrmCard, infos: Seq<Seq<char>>, d: DriverFiles) -> (
    Seq<char>,
    Seq<char>,
    u64,
    Seq<char>,
) {
    let id = vendor_id_of(opt_view(c.vendor));
    let vendor = linux_vendor_name(id);
    (
        linux_gpu_name_of(opt_view(c.label), opt_view(c.lspci), vendor),
        vendor,
        card_vram_of(opt_view(c.vram_total), infos),
        driver_text_of(driver_source_of(id), driver_file(d, driver_source_of(id))),
    )
}

/// The cards among the entries (`card0`, `card1`, …), in order.
pub open spec fn drm_cards(es: Seq<DrmCard>) -> Seq<DrmCard>
    decreases es.len(),
{
    if es.len() == 0 {
        seq![]
    } else if is_card_name(es.last().name@) {
        drm_cards(es.drop_last()).push(es.last())
    } else {
        drm_cards(es.drop_last())
    }
}

/// What an adapter record holds.
pub open spec fn gpu_view(g: GpuInfo) -> (Seq<char>, Seq<char>, u64, Seq<char>) {
    (g.name@, g.vendor@, g.vram_mb, g.driver_version@)
}

fn as_opt_str(o: &Option<String>) -> (r: Option<&str>)
    ensures
        opt_chars(r) == opt_view(*o),
{
    match o {
        Some(s) => Some(s.as_str()),
        None => None,
    }
}

fn card_gpu(c: &DrmCard, infos: &Vec<String>, d: &DriverFiles) -> (r: GpuInfo)
    ensures
        gpu_view(r) == card_gpu_of(*c, crate::network::string_views(infos@), *d),
{
    let id = gpu_vendor_id(as_opt_str(&c.vendor));
    let vendor = linux_gpu_vendor(id);
    let name = linux_gpu_name(as_opt_str(&c.label), as_opt_str(&c.lspci), vendor.as_str());
    let vram_mb = card_vram_mb(as_opt_str(&c.vram_total), infos);
    let source = driver_version_source(id);
    let text = match source {
        DriverSource::NvidiaModule => as_opt_str(&d.nvidia),
        DriverSource::AmdgpuModule => as_opt_str(&d.amdgpu),
        DriverSource::KernelRelease => as_opt_str(&d.proc_version),
    };
    let driver = driver_version(source, text);
    GpuInfo { name, vendor, vram_mb, driver_version: driver }
}

/// The graphics adapters of a Linux system: one per card among the entries of
/// `/sys/class/drm`, in order; when there is no card, those that the output of
/// `lspci` lists (none when it could not be run).
pub fn linux_gpu_list(
    entries: &Vec<DrmCard>,
    nvidia_infos: &Vec<String>,
    drivers: &DriverFiles,
    lspci_listing: Option<&str>,
) -> (r: Vec<GpuInfo>)
    ensures
        ({
            let cards = drm_cards(entries@);
            if cards.len() > 0 {
                &&& r@.len() == cards.len()
                &&& forall|i: int|
                    0 <= i < cards.len() ==> gpu_view(#[trigger] r@[i]) == card_gpu_of(
                        cards[i],
                        crate::network::string_views(nvidia_infos@),
                        *drivers,
                    )
            } else {
                match lspci_listing {
                    Some(o) => {
                        let g = lspci_gpus(lines_of(o@));
                        &&& r@.len() == g.len()
                        &&& forall|i: int|
                            0 <= i < g.len() ==> (#[trigger] r@[i]).name@ == g[i].0 && r@[i].vendor@
                                == g[i].1 && r@[i].vram_mb == 0 && r@[i].driver_version@.len() == 0
                    },
                    None => r@.len() == 0,
                }
            }
        }),
{
    let ghost infos = crate::network::string_views(nvidia_infos@);
    let mut out: Vec<GpuInfo> = Vec::new();
    let mut i: usize = 0;
    while i < entries.len()
        invariant
            i <= entries.len(),
            infos == crate::network::string_views(nvidia_infos@),
            out@.len() == drm_cards(entries@.take(i as int)).len(),
            forall|k: int|
                0 <= k < out@.len() ==> gpu_view(#[trigger] out@[k]) == card_gpu_of(
                    drm_cards(entries@.take(i as int))[k],
                    infos,
                    *drivers,
                ),
        decreases entries.len() - i,
    {
        assert(entries@.take(i + 1).drop_last() =~= entries@.take(i as int));
        assert(entries@.take(i + 1).last() == entries@[i as int]);
        if is_drm_card(entries[i].name.as_str()) {
            out.push(card_gpu(&entries[i], nvidia_infos, drivers));
        }
        i += 1;
    }
    assert(entries@.take(entries.len() as int) =~= entries@);
    if out.len() > 0 {
        out
    } else {
        match lspci_listing {
            Some(o) => gpus_from_lspci(o),
            None => out,
        }
    }
}

} // verus!
