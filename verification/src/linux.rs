//! Linux: what `/etc/os-release`, `/proc` and `/sys` files say, read from their
//! text, and the records built from it.
pub mod gpu;
pub mod display;
pub mod power;

use vstd::prelude::*;
use crate::models::{CpuInfo, DiskInfo, DiskKind, MemoryInfo, OsInfo};
use crate::numbers::{mul_wrap, parse_u32, parse_u64, u32_of, u64_of, wrap64};
use crate::text::{
    chars_of, concat, first_word, join3, lines, lines_of, owned, split_once, split_once_at,
    split_whitespace, string_from_chars, strip_both, trim, trim_matches, trimmed, views,
    words_of,
};

verus! {

/// The Linux source of system information.
pub struct LinuxSystemInfo;

impl LinuxSystemInfo {
    /// A new source.
    pub fn new() -> (r: Self) {
        LinuxSystemInfo
    }
}

// ───────────────────────────── shared views ─────────────────────────────

/// The character sequences of a list of key/value pairs.
pub open spec fn pair_views(v: Seq<(Vec<char>, Vec<char>)>) -> Seq<(Seq<char>, Seq<char>)> {
    v.map_values(|p: (Vec<char>, Vec<char>)| (p.0@, p.1@))
}

/// The characters of an optional string slice.
pub open spec fn opt_chars(o: Option<&str>) -> Option<Seq<char>> {
    match o {
        Some(s) => Some(s@),
        None => None,
    }
}

/// The value of the last pair whose key is `key`: what a map filled from the
/// pairs in order holds for `key`.
pub open spec fn lookup(entries: Seq<(Seq<char>, Seq<char>)>, key: Seq<char>) -> Option<
    Seq<char>,
>
    decreases entries.len(),
{
    if entries.len() == 0 {
        None
    } else if entries.last().0 == key {
        Some(entries.last().1)
    } else {
        lookup(entries.drop_last(), key)
    }
}

/// The value for `key` in `entries`, if any.
pub fn lookup_key(entries: &Vec<(Vec<char>, Vec<char>)>, key: &str) -> (r: Option<Vec<char>>)
    ensures
        r matches Some(v) ==> lookup(pair_views(entries@), key@) == Some(v@),
        r is None ==> lookup(pair_views(entries@), key@) is None,
{
    let k = chars_of(key);
    let mut i = entries.len();
    assert(entries@.take(i as int) =~= entries@);
    while i > 0
        invariant
            i <= entries.len(),
            k@ == key@,
            lookup(pair_views(entries@), key@) == lookup(
                pair_views(entries@.take(i as int)),
                key@,
            ),
        decreases i,
    {
        let ghost pv = pair_views(entries@.take(i as int));
        assert(pv.drop_last() =~= pair_views(entries@.take(i - 1)));
        assert(pv.last() == (entries@[i - 1].0@, entries@[i - 1].1@));
        if crate::text::eq_chars(&entries[i - 1].0, &k) {
            let v = crate::text::subvec(&entries[i - 1].1, 0, entries[i - 1].1.len());
            assert(v@ =~= entries@[i - 1].1@);
            return Some(v);
        }
        i -= 1;
    }
    assert(pair_views(entries@.take(0)) =~= Seq::<(Seq<char>, Seq<char>)>::empty());
    None
}

// ───────────────────────────── /etc/os-release ─────────────────────────────

/// A value of `/etc/os-release` without its surrounding double, then single, quotes.
pub open spec fn os_release_value(v: Seq<char>) -> Seq<char> {
    strip_both(strip_both(v, '"'), '\'')
}

/// The `KEY=value` pairs of the given lines, in order.
pub open spec fn os_release_entries(ls: Seq<Seq<char>>) -> Seq<(Seq<char>, Seq<char>)>
    decreases ls.len(),
{
    if ls.len() == 0 {
        seq![]
    } else {
        let rest = os_release_entries(ls.drop_last());
        match split_once_at(ls.last(), '=') {
            Some((k, v)) => rest.push((k, os_release_value(v))),
            None => rest,
        }
    }
}

/// The `KEY=value` pairs of the text of `/etc/os-release`, in order; a later
/// pair for a key overrides an earlier one.
pub fn parse_os_release(content: &str) -> (r: Vec<(Vec<char>, Vec<char>)>)
    ensures
        pair_views(r@) == os_release_entries(lines_of(content@)),
{
    let text = chars_of(content);
    let ls = lines(&text);
    let mut out: Vec<(Vec<char>, Vec<char>)> = Vec::new();
    let mut i: usize = 0;
    while i < ls.len()
        invariant
            i <= ls.len(),
            views(ls@) == lines_of(content@),
            pair_views(out@) == os_release_entries(views(ls@).take(i as int)),
        decreases ls.len() - i,
    {
        let ghost before = pair_views(out@);
        assert(views(ls@).take(i + 1).drop_last() =~= views(ls@).take(i as int));
        assert(views(ls@).take(i + 1).last() == ls@[i as int]@);
        match split_once(&ls[i], '=') {
            Some((k, v)) => {
                let v1 = trim_matches(&v, '"');
                let v2 = trim_matches(&v1, '\'');
                out.push((k, v2));
                assert(pair_views(out@) =~= before.push((k@, v2@)));
            },
            None => {},
        }
        i += 1;
    }
    assert(views(ls@).take(ls.len() as int) =~= views(ls@));
    out
}

// ───────────────────────────── OS ─────────────────────────────

/// The value of `key`, or `default`.
pub open spec fn value_or(entries: Seq<(Seq<char>, Seq<char>)>, key: Seq<char>, default: Seq<char>) -> Seq<char> {
    match lookup(entries, key) {
        Some(v) => v,
        None => default,
    }
}

/// The third word of the text of `/proc/version` (the kernel release), if any.
pub open spec fn kernel_release(proc_version: Seq<char>) -> Option<Seq<char>> {
    if words_of(proc_version).len() > 2 {
        Some(words_of(proc_version)[2])
    } else {
        None
    }
}

/// The full version: `NAME` and `VERSION`, or `NAME` and the kernel release
/// from `/proc/version`, or `NAME` alone.
pub open spec fn linux_full_version(
    entries: Seq<(Seq<char>, Seq<char>)>,
    proc_version: Option<Seq<char>>,
) -> Seq<char> {
    let name = value_or(entries, "NAME"@, "Linux"@);
    match lookup(entries, "VERSION"@) {
        Some(ver) => name + " "@ + ver,
        None => match proc_version {
            Some(pv) => name + " (kernel "@ + match kernel_release(pv) {
                Some(k) => k,
                None => "unknown"@,
            } + ")"@,
            None => name,
        },
    }
}

/// The Linux record of the operating system, from the text of
/// `/etc/os-release` (empty when it cannot be read), of `/proc/version` and of
/// `/proc/sys/kernel/hostname` (each `None` when it cannot be read), the
/// architecture the program was built for, the uptime in whole seconds and the
/// `USER` variable.
pub fn linux_os_info(
    os_release: &str,
    proc_version: Option<&str>,
    hostname: Option<&str>,
    arch: &str,
    uptime_secs: u64,
    username: Option<String>,
) -> (r: OsInfo)
    ensures
        ({
            let e = os_release_entries(lines_of(os_release@));
            &&& r.name@ == match lookup(e, "PRETTY_NAME"@) {
                Some(n) => n,
                None => value_or(e, "NAME"@, "Linux"@),
            }
            &&& r.version@ == value_or(e, "VERSION_ID"@, "unknown"@)
            &&& r.full_version@ == linux_full_version(e, opt_chars(proc_version))
            &&& r.hostname@ == match hostname {
                Some(h) => trimmed(h@),
                None => "unknown"@,
            }
            &&& r.arch@ == arch@
            &&& r.uptime_secs == uptime_secs
            &&& r.username@ == match username {
                Some(u) => u@,
                None => "unknown"@,
            }
        }),
{
    let e = parse_os_release(os_release);
    let name = match lookup_key(&e, "PRETTY_NAME") {
        Some(n) => n,
        None => match lookup_key(&e, "NAME") {
            Some(n) => n,
            None => chars_of("Linux"),
        },
    };
    let version = match lookup_key(&e, "VERSION_ID") {
        Some(v) => v,
        None => chars_of("unknown"),
    };
    let os_name = match lookup_key(&e, "NAME") {
        Some(n) => n,
        None => chars_of("Linux"),
    };
    let full_version = match lookup_key(&e, "VERSION") {
        Some(ver) => join3(&os_name, " ", &ver),
        None => match proc_version {
            Some(pv) => {
                let pvc = chars_of(pv);
                let ws = split_whitespace(&pvc);
                let k = if ws.len() > 2 {
                    let w = crate::text::subvec(&ws[2], 0, ws[2].len());
                    assert(w@ =~= views(ws@)[2]);
                    w
                } else {
                    chars_of("unknown")
                };
                let tail = chars_of(")");
                let head = join3(&os_name, " (kernel ", &k);
                concat(&head, &tail)
            },
            None => os_name,
        },
    };
    let host = match hostname {
        Some(h) => {
            let hc = chars_of(h);
            string_from_chars(&trim(&hc))
        },
        None => owned("unknown"),
    };
    let user = match username {
        Some(u) => u,
        None => owned("unknown"),
    };
    OsInfo {
        name: string_from_chars(&name),
        version: string_from_chars(&version),
        full_version: string_from_chars(&full_version),
        hostname: host,
        arch: owned(arch),
        uptime_secs,
        username: user,
    }
}

/// The first word of the text of `/proc/uptime` (seconds since boot, with a
/// fraction), if any.
pub fn uptime_field(content: &str) -> (r: Option<String>)
    ensures
        r matches Some(w) ==> words_of(content@).len() > 0 && w@ == words_of(content@)[0],
        r is None ==> words_of(content@).len() == 0,
{
    let c = chars_of(content);
    match first_word(&c) {
        Some(w) => Some(string_from_chars(&w)),
        None => None,
    }
}


// ───────────────────────────── /proc/cpuinfo ─────────────────────────────

/// The `key: value` pair of a line of `/proc/cpuinfo`, both trimmed.
pub open spec fn colon_pair(line: Seq<char>) -> Option<(Seq<char>, Seq<char>)> {
    match split_once_at(trimmed(line), ':') {
        Some((k, v)) => Some((trimmed(k), trimmed(v))),
        None => None,
    }
}

/// The pairs of the given lines, in order.
pub open spec fn colon_pairs(ls: Seq<Seq<char>>) -> Seq<(Seq<char>, Seq<char>)>
    decreases ls.len(),
{
    if ls.len() == 0 {
        seq![]
    } else {
        match colon_pair(ls.last()) {
            Some(p) => colon_pairs(ls.drop_last()).push(p),
            None => colon_pairs(ls.drop_last()),
        }
    }
}

/// The first non-empty value for `key` (empty if there is none).
pub open spec fn first_nonempty(ps: Seq<(Seq<char>, Seq<char>)>, key: Seq<char>) -> Seq<char>
    decreases ps.len(),
{
    if ps.len() == 0 {
        seq![]
    } else {
        let f = first_nonempty(ps.drop_last(), key);
        if f.len() > 0 {
            f
        } else if ps.last().0 == key {
            ps.last().1
        } else {
            f
        }
    }
}

/// How many pairs have the key `key`.
pub open spec fn key_count(ps: Seq<(Seq<char>, Seq<char>)>, key: Seq<char>) -> nat
    decreases ps.len(),
{
    if ps.len() == 0 {
        0
    } else {
        key_count(ps.drop_last(), key) + if ps.last().0 == key {
            1nat
        } else {
            0nat
        }
    }
}

/// The set of the values for `key`.
pub open spec fn value_set(ps: Seq<(Seq<char>, Seq<char>)>, key: Seq<char>) -> Set<Seq<char>>
    decreases ps.len(),
{
    if ps.len() == 0 {
        Set::empty()
    } else if ps.last().0 == key {
        value_set(ps.drop_last(), key).insert(ps.last().1)
    } else {
        value_set(ps.drop_last(), key)
    }
}

/// The values for `key`, in order.
pub open spec fn values_for(ps: Seq<(Seq<char>, Seq<char>)>, key: Seq<char>) -> Seq<Seq<char>>
    decreases ps.len(),
{
    if ps.len() == 0 {
        seq![]
    } else if ps.last().0 == key {
        values_for(ps.drop_last(), key).push(ps.last().1)
    } else {
        values_for(ps.drop_last(), key)
    }
}

/// The first value for `key` that reads as a `u32`.
pub open spec fn first_u32(ps: Seq<(Seq<char>, Seq<char>)>, key: Seq<char>) -> Option<u32>
    decreases ps.len(),
{
    if ps.len() == 0 {
        None
    } else {
        let f = first_u32(ps.drop_last(), key);
        if f is Some {
            f
        } else if ps.last().0 == key {
            u32_of(ps.last().1)
        } else {
            None
        }
    }
}

/// The number of physical cores: the distinct `core id` values, else the
/// first readable `cpu cores` value, else the number of `processor` entries.
pub open spec fn cpuinfo_cores(ps: Seq<(Seq<char>, Seq<char>)>) -> nat {
    let ids = value_set(ps, "core id"@);
    if ids.len() > 0 {
        ids.len()
    } else {
        match first_u32(ps, "cpu cores"@) {
            Some(c) => c as nat,
            None => key_count(ps, "processor"@),
        }
    }
}

/// What `/proc/cpuinfo` says of the processor.
pub struct CpuInfoFields {
    /// The first non-empty `model name`.
    pub model: String,
    /// The first non-empty `vendor_id`.
    pub vendor: String,
    /// Physical cores.
    pub cores: u32,
    /// Logical processors: the number of `processor` entries.
    pub threads: u32,
    /// The `cpu MHz` values, in order, as written.
    pub mhz_values: Vec<String>,
}

proof fn lemma_pairs_len(ls: Seq<Seq<char>>)
    ensures
        colon_pairs(ls).len() <= ls.len(),
    decreases ls.len(),
{
    if ls.len() > 0 {
        lemma_pairs_len(ls.drop_last());
    }
}

proof fn lemma_key_count_len(ps: Seq<(Seq<char>, Seq<char>)>, key: Seq<char>)
    ensures
        key_count(ps, key) <= ps.len(),
    decreases ps.len(),
{
    if ps.len() > 0 {
        lemma_key_count_len(ps.drop_last(), key);
    }
}

proof fn lemma_value_set_finite(ps: Seq<(Seq<char>, Seq<char>)>, key: Seq<char>)
    ensures
        value_set(ps, key).finite(),
        value_set(ps, key).len() <= ps.len(),
    decreases ps.len(),
{
    if ps.len() > 0 {
        lemma_value_set_finite(ps.drop_last(), key);
        if ps.last().0 == key {
            let s = value_set(ps.drop_last(), key);
            if s.contains(ps.last().1) {
                assert(s.insert(ps.last().1) =~= s);
            }
        }
    }
}

/// Whether `ids` holds `x`.
fn holds(ids: &Vec<Vec<char>>, x: &Vec<char>) -> (r: bool)
    ensures
        r == views(ids@).contains(x@),
{
    let mut i: usize = 0;
    while i < ids.len()
        invariant
            i <= ids.len(),
            forall|k: int| 0 <= k < i ==> views(ids@)[k] != x@,
        decreases ids.len() - i,
    {
        if crate::text::eq_chars(&ids[i], x) {
            assert(views(ids@)[i as int] == x@);
            return true;
        }
        i += 1;
    }
    false
}

/// The pairs of the lines of a text, as exec vectors.
pub(crate) fn pairs_of_lines(ls: &Vec<Vec<char>>) -> (r: Vec<(Vec<char>, Vec<char>)>)
    ensures
        pair_views(r@) == colon_pairs(views(ls@)),
{
    let mut out: Vec<(Vec<char>, Vec<char>)> = Vec::new();
    let mut i: usize = 0;
    while i < ls.len()
        invariant
            i <= ls.len(),
            pair_views(out@) == colon_pairs(views(ls@).take(i as int)),
        decreases ls.len() - i,
    {
        let ghost before = pair_views(out@);
        assert(views(ls@).take(i + 1).drop_last() =~= views(ls@).take(i as int));
        assert(views(ls@).take(i + 1).last() == ls@[i as int]@);
        let t = trim(&ls[i]);
        match split_once(&t, ':') {
            Some((k, v)) => {
                let kt = trim(&k);
                let vt = trim(&v);
                out.push((kt, vt));
                assert(pair_views(out@) =~= before.push((kt@, vt@)));
            },
            None => {},
        }
        i += 1;
    }
    assert(views(ls@).take(ls.len() as int) =~= views(ls@));
    out
}

/// What `/proc/cpuinfo` says of the processor, from its text (of at most
/// `u32::MAX` lines, so that no count overflows).
pub fn parse_proc_cpuinfo(content: &str) -> (r: CpuInfoFields)
    requires
        lines_of(content@).len() <= u32::MAX,
    ensures
        ({
            let ps = colon_pairs(lines_of(content@));
            &&& r.model@ == first_nonempty(ps, "model name"@)
            &&& r.vendor@ == first_nonempty(ps, "vendor_id"@)
            &&& r.threads == key_count(ps, "processor"@)
            &&& r.cores == cpuinfo_cores(ps)
            &&& r.mhz_values@.len() == values_for(ps, "cpu MHz"@).len()
            &&& forall|i: int|
                0 <= i < r.mhz_values@.len() ==> #[trigger] r.mhz_values@[i]@ == values_for(
                    ps,
                    "cpu MHz"@,
                )[i]
        }),
{
    let text = chars_of(content);
    let ls = lines(&text);
    let ps = pairs_of_lines(&ls);
    let ghost gps = pair_views(ps@);
    proof {
        lemma_pairs_len(views(ls@));
    }
    let k_model = chars_of("model name");
    let k_vendor = chars_of("vendor_id");
    let k_mhz = chars_of("cpu MHz");
    let k_proc = chars_of("processor");
    let k_core = chars_of("core id");
    let k_cores = chars_of("cpu cores");
    let mut model: Vec<char> = Vec::new();
    let mut vendor: Vec<char> = Vec::new();
    let mut threads: u32 = 0;
    let mut ids: Vec<Vec<char>> = Vec::new();
    let mut cpu_cores: Option<u32> = None;
    let mut mhz: Vec<Vec<char>> = Vec::new();
    let mut i: usize = 0;
    assert(views(ids@).to_set() =~= Set::<Seq<char>>::empty());
    while i < ps.len()
        invariant
            i <= ps.len(),
            ps@.len() <= u32::MAX,
            gps == pair_views(ps@),
            k_model@ == "model name"@,
            k_vendor@ == "vendor_id"@,
            k_mhz@ == "cpu MHz"@,
            k_proc@ == "processor"@,
            k_core@ == "core id"@,
            k_cores@ == "cpu cores"@,
            model@ == first_nonempty(gps.take(i as int), "model name"@),
            vendor@ == first_nonempty(gps.take(i as int), "vendor_id"@),
            threads == key_count(gps.take(i as int), "processor"@),
            views(ids@).no_duplicates(),
            views(ids@).to_set() == value_set(gps.take(i as int), "core id"@),
            ids@.len() <= i,
            cpu_cores == first_u32(gps.take(i as int), "cpu cores"@),
            views(mhz@) == values_for(gps.take(i as int), "cpu MHz"@),
        decreases ps.len() - i,
    {
        let ghost pre = gps.take(i as int);
        let ghost cur = gps.take(i + 1);
        assert(cur.drop_last() =~= pre);
        assert(cur.last() == (ps@[i as int].0@, ps@[i as int].1@));
        proof {
            lemma_key_count_len(pre, "processor"@);
        }
        let key = &ps[i].0;
        let value = &ps[i].1;
        if crate::text::eq_chars(key, &k_model) && model.len() == 0 {
            model = crate::text::subvec(value, 0, value.len());
            assert(model@ =~= value@);
        }
        if crate::text::eq_chars(key, &k_vendor) && vendor.len() == 0 {
            vendor = crate::text::subvec(value, 0, value.len());
            assert(vendor@ =~= value@);
        }
        if crate::text::eq_chars(key, &k_mhz) {
            let ghost before = views(mhz@);
            let nv = crate::text::subvec(value, 0, value.len());
            assert(nv@ =~= value@);
            mhz.push(nv);
            assert(views(mhz@) =~= before.push(value@));
        }
        if crate::text::eq_chars(key, &k_proc) {
            threads = threads + 1;
        }
        if crate::text::eq_chars(key, &k_core) {
            if !holds(&ids, value) {
                let ghost before = views(ids@);
                let nv = crate::text::subvec(value, 0, value.len());
                assert(nv@ =~= value@);
                ids.push(nv);
                assert(views(ids@) =~= before.push(value@));
                proof {
                    before.lemma_push_to_set_commute(value@);
                    assert forall|a: int, b: int|
                        0 <= a < b < views(ids@).len() implies views(ids@)[a] != views(
                            ids@,
                        )[b] by {
                        if b == views(ids@).len() - 1 {
                            assert(before.contains(views(ids@)[a]));
                        }
                    }
                }
            } else {
                assert(value_set(pre, "core id"@).insert(value@) =~= value_set(
                    pre,
                    "core id"@,
                ));
            }
        }
        if crate::text::eq_chars(key, &k_cores) && cpu_cores.is_none() {
            cpu_cores = parse_u32(value);
        }
        i += 1;
    }
    assert(gps.take(ps.len() as int) =~= gps);
    proof {
        views(ids@).unique_seq_to_set();
        lemma_value_set_finite(gps, "core id"@);
    }
    let cores: u32 = if ids.len() > 0 {
        ids.len() as u32
    } else {
        match cpu_cores {
            Some(c) => c,
            None => threads,
        }
    };
    let mhz_values = crate::text::strings_of(&mhz);
    CpuInfoFields {
        model: string_from_chars(&model),
        vendor: string_from_chars(&vendor),
        cores,
        threads,
        mhz_values,
    }
}

/// The first non-zero of `values`.
pub open spec fn first_nonzero(values: Seq<u64>) -> Option<u64>
    decreases values.len(),
{
    if values.len() == 0 {
        None
    } else {
        let f = first_nonzero(values.drop_last());
        if f is Some {
            f
        } else if values.last() != 0 {
            Some(values.last())
        } else {
            None
        }
    }
}

/// The processor frequency in MHz: the first non-zero `cpu MHz` value, else
/// the maximum frequency of `cpu0` (in kHz, from
/// `/sys/devices/system/cpu/cpu0/cpufreq/cpuinfo_max_freq`) divided by 1000,
/// else 0.
pub open spec fn linux_frequency(mhz: Seq<u64>, max_freq: Option<Seq<char>>) -> u64 {
    match first_nonzero(mhz) {
        Some(f) => f,
        None => match max_freq {
            Some(t) => match u64_of(trimmed(t)) {
                Some(khz) => (khz / 1000) as u64,
                None => 0,
            },
            None => 0,
        },
    }
}

/// The Linux record of the processor, from what `/proc/cpuinfo` says, the
/// `cpu MHz` values read as whole numbers (0 for one that does not read as a
/// number), the text of the `cpuinfo_max_freq` file, and the architecture.
pub fn linux_cpu_info(
    fields: CpuInfoFields,
    mhz: &Vec<u64>,
    max_freq: Option<&str>,
    arch: &str,
) -> (r: CpuInfo)
    ensures
        r.model@ == if fields.model@.len() == 0 {
            "Unknown CPU"@
        } else {
            fields.model@
        },
        r.vendor@ == if fields.vendor@.len() == 0 {
            "Unknown"@
        } else {
            fields.vendor@
        },
        r.cores == fields.cores,
        r.threads == fields.threads,
        r.arch@ == arch@,
        r.frequency_mhz == linux_frequency(mhz@, opt_chars(max_freq)),
{
    let mut f: Option<u64> = None;
    let mut i: usize = 0;
    while i < mhz.len()
        invariant
            i <= mhz.len(),
            f == first_nonzero(mhz@.take(i as int)),
        decreases mhz.len() - i,
    {
        assert(mhz@.take(i + 1).drop_last() =~= mhz@.take(i as int));
        if f.is_none() && mhz[i] != 0 {
            f = Some(mhz[i]);
        }
        i += 1;
    }
    assert(mhz@.take(mhz.len() as int) =~= mhz@);
    let frequency_mhz = match f {
        Some(v) => v,
        None => match max_freq {
            Some(t) => {
                let tc = chars_of(t);
                match parse_u64(&trim(&tc)) {
                    Some(khz) => khz / 1000,
                    None => 0,
                }
            },
            None => 0,
        },
    };
    let model = if fields.model.as_str().is_empty() {
        owned("Unknown CPU")
    } else {
        fields.model
    };
    let vendor = if fields.vendor.as_str().is_empty() {
        owned("Unknown")
    } else {
        fields.vendor
    };
    CpuInfo {
        model,
        vendor,
        cores: fields.cores,
        threads: fields.threads,
        arch: owned(arch),
        frequency_mhz,
    }
}

// ───────────────────────────── /proc/stat ─────────────────────────────

/// A number read from a field, 0 when it does not read as a `u64`.
pub open spec fn field_or_zero(w: Seq<char>) -> u64 {
    match u64_of(w) {
        Some(v) => v,
        None => 0,
    }
}

/// Whether a line of `/proc/stat` is that of one processor (`cpu0`, `cpu1`, …,
/// not the `cpu ` total).
pub open spec fn is_cpu_line(line: Seq<char>) -> bool {
    crate::text::has_prefix(line, "cpu"@) && !crate::text::has_prefix(line, "cpu "@)
}

/// The ticks of one processor: all of them, and the idle ones.
#[derive(Debug, Clone, Copy, PartialEq, Eq, Structural)]
pub struct CpuTimes {
    /// user + nice + system + idle + iowait + irq + softirq + steal.
    pub total: u64,
    /// idle + iowait.
    pub idle_total: u64,
}

/// The times of a processor line with at least eight fields: the sums, in
/// wrapping arithmetic, of fields 1 to 7 and field 8 (steal) when present, and
/// of fields 4 and 5 (idle and iowait).
pub open spec fn stat_times(line: Seq<char>) -> Option<CpuTimes> {
    let ws = words_of(line);
    if is_cpu_line(line) && ws.len() >= 8 {
        let steal: int = if ws.len() > 8 {
            field_or_zero(ws[8]) as int
        } else {
            0
        };
        Some(
            CpuTimes {
                total: wrap64(
                    field_or_zero(ws[1]) + field_or_zero(ws[2]) + field_or_zero(ws[3])
                        + field_or_zero(ws[4]) + field_or_zero(ws[5]) + field_or_zero(ws[6])
                        + field_or_zero(ws[7]) + steal,
                ),
                idle_total: wrap64(field_or_zero(ws[4]) + field_or_zero(ws[5])),
            },
        )
    } else {
        None
    }
}

/// The times of every processor line, in order.
pub open spec fn stat_entries(ls: Seq<Seq<char>>) -> Seq<CpuTimes>
    decreases ls.len(),
{
    if ls.len() == 0 {
        seq![]
    } else {
        match stat_times(ls.last()) {
            Some(t) => stat_entries(ls.drop_last()).push(t),
            None => stat_entries(ls.drop_last()),
        }
    }
}

fn field_value(w: &Vec<char>) -> (r: u64)
    ensures
        r == field_or_zero(w@),
{
    match parse_u64(w) {
        Some(v) => v,
        None => 0,
    }
}

/// The ticks of each processor, from the text of `/proc/stat`.
pub fn parse_proc_stat(content: &str) -> (r: Vec<CpuTimes>)
    ensures
        r@ == stat_entries(lines_of(content@)),
{
    let text = chars_of(content);
    let ls = lines(&text);
    let mut out: Vec<CpuTimes> = Vec::new();
    let mut i: usize = 0;
    while i < ls.len()
        invariant
            i <= ls.len(),
            views(ls@) == lines_of(content@),
            out@ == stat_entries(views(ls@).take(i as int)),
        decreases ls.len() - i,
    {
        assert(views(ls@).take(i + 1).drop_last() =~= views(ls@).take(i as int));
        assert(views(ls@).take(i + 1).last() == ls@[i as int]@);
        let line = &ls[i];
        if crate::text::starts_with(line, "cpu") && !crate::text::starts_with(line, "cpu ") {
            let ws = split_whitespace(line);
            if ws.len() >= 8 {
                let ghost g = views(ws@);
                assert(g[1] == ws@[1]@ && g[2] == ws@[2]@ && g[3] == ws@[3]@ && g[4] == ws@[4]@);
                assert(g[5] == ws@[5]@ && g[6] == ws@[6]@ && g[7] == ws@[7]@);
                let user = field_value(&ws[1]);
                let nice = field_value(&ws[2]);
                let system = field_value(&ws[3]);
                let idle = field_value(&ws[4]);
                let iowait = field_value(&ws[5]);
                let irq = field_value(&ws[6]);
                let softirq = field_value(&ws[7]);
                let steal: u64 = if ws.len() > 8 {
                    assert(g[8] == ws@[8]@);
                    field_value(&ws[8])
                } else {
                    0
                };
                let sum: u128 = user as u128 + nice as u128 + system as u128 + idle as u128
                    + iowait as u128 + irq as u128 + softirq as u128 + steal as u128;
                let total = (sum % 0x1_0000_0000_0000_0000u128) as u64;
                let idle_sum: u128 = idle as u128 + iowait as u128;
                let idle_total = (idle_sum % 0x1_0000_0000_0000_0000u128) as u64;
                out.push(CpuTimes { total, idle_total });
            }
        }
        i += 1;
    }
    assert(views(ls@).take(ls.len() as int) =~= views(ls@));
    out
}

/// The processors counted in the two samples differ.
#[derive(Debug, Clone, Copy, PartialEq, Eq, Structural)]
pub enum SampleError {
    CpuCountChanged,
}

/// The ticks that passed between two samples, for each processor: all of them
/// and the idle ones, each floored at 0; an error when the samples count
/// different processors.
pub fn cpu_time_deltas(before: &Vec<CpuTimes>, after: &Vec<CpuTimes>) -> (r: Result<
    Vec<(u64, u64)>,
    SampleError,
>)
    ensures
        r is Err <==> before@.len() != after@.len(),
        r matches Ok(d) ==> d@.len() == before@.len() && forall|i: int|
            0 <= i < d@.len() ==> #[trigger] d@[i] == (
                if after@[i].total >= before@[i].total {
                    (after@[i].total - before@[i].total) as u64
                } else {
                    0u64
                },
                if after@[i].idle_total >= before@[i].idle_total {
                    (after@[i].idle_total - before@[i].idle_total) as u64
                } else {
                    0u64
                },
            ),
{
    if before.len() != after.len() {
        return Err(SampleError::CpuCountChanged);
    }
    let mut d: Vec<(u64, u64)> = Vec::new();
    let mut i: usize = 0;
    while i < before.len()
        invariant
            before@.len() == after@.len(),
            i <= before@.len(),
            d@.len() == i,
            forall|k: int|
                0 <= k < i ==> #[trigger] d@[k] == (
                    if after@[k].total >= before@[k].total {
                        (after@[k].total - before@[k].total) as u64
                    } else {
                        0u64
                    },
                    if after@[k].idle_total >= before@[k].idle_total {
                        (after@[k].idle_total - before@[k].idle_total) as u64
                    } else {
                        0u64
                    },
                ),
        decreases before.len() - i,
    {
        let t = after[i].total.saturating_sub(before[i].total);
        let idle = after[i].idle_total.saturating_sub(before[i].idle_total);
        d.push((t, idle));
        i += 1;
    }
    Ok(d)
}

// ───────────────────────────── /proc/meminfo ─────────────────────────────

/// The `(key, bytes)` pair of a line of `/proc/meminfo`: the trimmed key, and
/// the first word after the colon (`"0"` if there is none) read as kibibytes,
/// times 1024 in wrapping arithmetic; none when that word is not a number.
pub open spec fn meminfo_entry(line: Seq<char>) -> Option<(Seq<char>, u64)> {
    match split_once_at(line, ':') {
        Some((k, rest)) => {
            let ws = words_of(trimmed(rest));
            let w = if ws.len() > 0 {
                ws[0]
            } else {
                "0"@
            };
            match u64_of(w) {
                Some(kb) => Some((trimmed(k), wrap64(kb * 1024))),
                None => None,
            }
        },
        None => None,
    }
}

/// The pairs of the given lines, in order.
pub open spec fn meminfo_entries(ls: Seq<Seq<char>>) -> Seq<(Seq<char>, u64)>
    decreases ls.len(),
{
    if ls.len() == 0 {
        seq![]
    } else {
        match meminfo_entry(ls.last()) {
            Some(e) => meminfo_entries(ls.drop_last()).push(e),
            None => meminfo_entries(ls.drop_last()),
        }
    }
}

/// The number of the last pair for `key`, if any.
pub open spec fn lookup_num(entries: Seq<(Seq<char>, u64)>, key: Seq<char>) -> Option<u64>
    decreases entries.len(),
{
    if entries.len() == 0 {
        None
    } else if entries.last().0 == key {
        Some(entries.last().1)
    } else {
        lookup_num(entries.drop_last(), key)
    }
}

/// The number for `key`, or `default`.
pub open spec fn num_or(entries: Seq<(Seq<char>, u64)>, key: Seq<char>, default: u64) -> u64 {
    match lookup_num(entries, key) {
        Some(v) => v,
        None => default,
    }
}

/// The character sequences of a list of `(key, number)` pairs.
pub open spec fn num_pair_views(v: Seq<(Vec<char>, u64)>) -> Seq<(Seq<char>, u64)> {
    v.map_values(|p: (Vec<char>, u64)| (p.0@, p.1))
}

/// The `(key, bytes)` pairs of the text of `/proc/meminfo`, in order.
pub fn parse_proc_meminfo(content: &str) -> (r: Vec<(Vec<char>, u64)>)
    ensures
        num_pair_views(r@) == meminfo_entries(lines_of(content@)),
{
    let text = chars_of(content);
    let ls = lines(&text);
    let mut out: Vec<(Vec<char>, u64)> = Vec::new();
    let mut i: usize = 0;
    while i < ls.len()
        invariant
            i <= ls.len(),
            views(ls@) == lines_of(content@),
            num_pair_views(out@) == meminfo_entries(views(ls@).take(i as int)),
        decreases ls.len() - i,
    {
        assert(views(ls@).take(i + 1).drop_last() =~= views(ls@).take(i as int));
        assert(views(ls@).take(i + 1).last() == ls@[i as int]@);
        let ghost before = num_pair_views(out@);
        match split_once(&ls[i], ':') {
            Some((k, rest)) => {
                let ws = split_whitespace(&trim(&rest));
                let w = if ws.len() > 0 {
                    let w0 = crate::text::subvec(&ws[0], 0, ws[0].len());
                    assert(w0@ =~= views(ws@)[0]);
                    w0
                } else {
                    chars_of("0")
                };
                match parse_u64(&w) {
                    Some(kb) => {
                        let bytes = ((kb as u128 * 1024) % 0x1_0000_0000_0000_0000u128) as u64;
                        let kt = trim(&k);
                        out.push((kt, bytes));
                        assert(num_pair_views(out@) =~= before.push((kt@, bytes)));
                    },
                    None => {},
                }
            },
            None => {},
        }
        i += 1;
    }
    assert(views(ls@).take(ls.len() as int) =~= views(ls@));
    out
}

fn lookup_num_exec(entries: &Vec<(Vec<char>, u64)>, key: &str) -> (r: Option<u64>)
    ensures
        r == lookup_num(num_pair_views(entries@), key@),
{
    let k = chars_of(key);
    let mut i = entries.len();
    assert(entries@.take(i as int) =~= entries@);
    while i > 0
        invariant
            i <= entries.len(),
            k@ == key@,
            lookup_num(num_pair_views(entries@), key@) == lookup_num(
                num_pair_views(entries@.take(i as int)),
                key@,
            ),
        decreases i,
    {
        let ghost pv = num_pair_views(entries@.take(i as int));
        assert(pv.drop_last() =~= num_pair_views(entries@.take(i - 1)));
        assert(pv.last() == (entries@[i - 1].0@, entries@[i - 1].1));
        if crate::text::eq_chars(&entries[i - 1].0, &k) {
            return Some(entries[i - 1].1);
        }
        i -= 1;
    }
    assert(num_pair_views(entries@.take(0)) =~= Seq::<(Seq<char>, u64)>::empty());
    None
}

/// `a - b`, floored at 0.
pub open spec fn sat_sub(a: u64, b: u64) -> u64 {
    if a >= b {
        (a - b) as u64
    } else {
        0
    }
}

/// The Linux record of memory, from the text of `/proc/meminfo`: total, free
/// and swap figures as written (0 when missing), available memory as written
/// or else the free memory, and the used figures as the differences.
pub fn linux_memory_info(content: &str) -> (r: MemoryInfo)
    ensures
        ({
            let e = meminfo_entries(lines_of(content@));
            let total = num_or(e, "MemTotal"@, 0);
            let free = num_or(e, "MemFree"@, 0);
            let available = num_or(e, "MemAvailable"@, free);
            let swap_total = num_or(e, "SwapTotal"@, 0);
            let swap_free = num_or(e, "SwapFree"@, 0);
            r == MemoryInfo {
                total_bytes: total,
                used_bytes: sat_sub(total, available),
                free_bytes: free,
                available_bytes: available,
                swap_total_bytes: swap_total,
                swap_used_bytes: sat_sub(swap_total, swap_free),
            }
        }),
        r.used_bytes <= r.total_bytes,
        r.swap_used_bytes <= r.swap_total_bytes,
{
    let e = parse_proc_meminfo(content);
    let total = match lookup_num_exec(&e, "MemTotal") {
        Some(v) => v,
        None => 0,
    };
    let free = match lookup_num_exec(&e, "MemFree") {
        Some(v) => v,
        None => 0,
    };
    let available = match lookup_num_exec(&e, "MemAvailable") {
        Some(v) => v,
        None => free,
    };
    let swap_total = match lookup_num_exec(&e, "SwapTotal") {
        Some(v) => v,
        None => 0,
    };
    let swap_free = match lookup_num_exec(&e, "SwapFree") {
        Some(v) => v,
        None => 0,
    };
    MemoryInfo {
        total_bytes: total,
        used_bytes: total.saturating_sub(available),
        free_bytes: free,
        available_bytes: available,
        swap_total_bytes: swap_total,
        swap_used_bytes: swap_total.saturating_sub(swap_free),
    }
}

// ───────────────────────────── disks ─────────────────────────────

/// The pseudo file systems, which hold no disk.
pub open spec fn pseudo_fs_names() -> Seq<Seq<char>> {
    seq![
        "proc"@,
        "sysfs"@,
        "devtmpfs"@,
        "tmpfs"@,
        "cgroup"@,
        "cgroup2"@,
        "pstore"@,
        "debugfs"@,
        "securityfs"@,
        "configfs"@,
        "fusectl"@,
        "mqueue"@,
        "hugetlbfs"@,
        "devpts"@,
        "autofs"@,
        "binfmt_misc"@,
        "tracefs"@,
        "efivarfs"@,
        "bpf"@,
        "overlay"@,
        "nsfs"@,
        "ramfs"@,
        "rpc_pipefs"@,
        "nfsd"@,
        "fuse.portal"@,
        "fuse.gvfsd-fuse"@,
    ]
}

/// Whether `t` names a pseudo file system.
pub fn is_pseudo_fs(t: &Vec<char>) -> (r: bool)
    ensures
        r == pseudo_fs_names().contains(t@),
{
    let names = [
        "proc",
        "sysfs",
        "devtmpfs",
        "tmpfs",
        "cgroup",
        "cgroup2",
        "pstore",
        "debugfs",
        "securityfs",
        "configfs",
        "fusectl",
        "mqueue",
        "hugetlbfs",
        "devpts",
        "autofs",
        "binfmt_misc",
        "tracefs",
        "efivarfs",
        "bpf",
        "overlay",
        "nsfs",
        "ramfs",
        "rpc_pipefs",
        "nfsd",
        "fuse.portal",
        "fuse.gvfsd-fuse",
    ];
    let ghost g = pseudo_fs_names();
    let mut i: usize = 0;
    while i < 26
        invariant
            i <= 26,
            g == pseudo_fs_names(),
            forall|k: int| 0 <= k < 26 ==> #[trigger] names@[k]@ == g[k],
            forall|k: int| 0 <= k < i ==> g[k] != t@,
        decreases 26 - i,
    {
        if crate::text::eq_str(t, names[i]) {
            assert(g[i as int] == t@);
            return true;
        }
        i += 1;
    }
    false
}

/// A mounted block device that may hold a disk.
pub struct MountEntry {
    pub device: String,
    pub mount_point: String,
    pub fs_type: String,
}

/// The device, mount point and file system type of a line of `/proc/mounts`
/// that has at least four fields, a file system that is not a pseudo one and a
/// device under `/dev/`.
pub open spec fn mount_candidate(line: Seq<char>) -> Option<(Seq<char>, Seq<char>, Seq<char>)> {
    let ws = words_of(line);
    if ws.len() < 4 {
        None
    } else if pseudo_fs_names().contains(ws[2]) {
        None
    } else if !crate::text::has_prefix(ws[0], "/dev/"@) {
        None
    } else {
        Some((ws[0], ws[1], ws[2]))
    }
}

/// The candidates of the given lines, in order.
pub open spec fn mount_candidates(ls: Seq<Seq<char>>) -> Seq<(Seq<char>, Seq<char>, Seq<char>)>
    decreases ls.len(),
{
    if ls.len() == 0 {
        seq![]
    } else {
        match mount_candidate(ls.last()) {
            Some(c) => mount_candidates(ls.drop_last()).push(c),
            None => mount_candidates(ls.drop_last()),
        }
    }
}

/// The character sequences of a list of mount entries.
pub open spec fn mount_views(v: Seq<MountEntry>) -> Seq<(Seq<char>, Seq<char>, Seq<char>)> {
    v.map_values(|m: MountEntry| (m.device@, m.mount_point@, m.fs_type@))
}

/// A mount point holds a NUL character, at the given index, so that it cannot
/// be handed to the system.
#[derive(Debug, Clone, Copy, PartialEq, Eq, Structural)]
pub enum MountError {
    NulByte { position: usize },
}

/// The number of bytes of the UTF-8 encoding of `s`, or `usize::MAX` when it
/// has more.
pub open spec fn utf8_offset(s: Seq<char>) -> usize {
    let n = vstd::utf8::encode_utf8(s).len();
    if n <= usize::MAX {
        n as usize
    } else {
        usize::MAX
    }
}

proof fn lemma_encode_utf8_push(s: Seq<char>, c: char)
    ensures
        vstd::utf8::encode_utf8(s.push(c)) == vstd::utf8::encode_utf8(s)
            + vstd::utf8::encode_scalar(c as u32),
    decreases s.len(),
{
    if s.len() == 0 {
        let t = s.push(c);
        assert(t[0] == c);
        assert(t.drop_first() =~= Seq::<char>::empty());
        assert(vstd::utf8::encode_utf8(t.drop_first()) =~= Seq::<u8>::empty());
        assert(vstd::utf8::encode_utf8(s) =~= Seq::<u8>::empty());
        assert(vstd::utf8::encode_utf8(t) == vstd::utf8::encode_scalar(t[0] as u32)
            + vstd::utf8::encode_utf8(t.drop_first()));
        assert(vstd::utf8::encode_utf8(t) =~= vstd::utf8::encode_scalar(c as u32));
    } else {
        lemma_encode_utf8_push(s.drop_first(), c);
        assert(s.push(c).drop_first() =~= s.drop_first().push(c));
        assert(s.push(c)[0] == s[0]);
        assert(vstd::utf8::encode_utf8(s.push(c)) =~= vstd::utf8::encode_scalar(s[0] as u32) + (
        vstd::utf8::encode_utf8(s.drop_first()) + vstd::utf8::encode_scalar(c as u32)));
    }
}

/// The number of bytes of the UTF-8 encoding of `c`.
fn utf8_width(c: char) -> (w: usize)
    ensures
        w == vstd::utf8::encode_scalar(c as u32).len(),
{
    proof {
        vstd::utf8::char_is_scalar(c);
    }
    let u = c as u32;
    if u < 0x80 {
        1
    } else if u < 0x800 {
        2
    } else if u < 0x10000 {
        3
    } else {
        4
    }
}

/// The byte offset of the character at `k` in `v`, as `CString::new` reports
/// the position of a NUL.
fn byte_offset(v: &Vec<char>, k: usize) -> (r: usize)
    requires
        k <= v.len(),
    ensures
        r == utf8_offset(v@.take(k as int)),
{
    let mut pos: usize = 0;
    let mut j: usize = 0;
    assert(v@.take(0) =~= Seq::<char>::empty());
    while j < k
        invariant
            j <= k <= v.len(),
            pos == utf8_offset(v@.take(j as int)),
        decreases k - j,
    {
        proof {
            lemma_encode_utf8_push(v@.take(j as int), v@[j as int]);
            assert(v@.take(j + 1) =~= v@.take(j as int).push(v@[j as int]));
        }
        pos = pos.saturating_add(utf8_width(v[j]));
        j += 1;
    }
    pos
}

/// The mounts of the text of `/proc/mounts` that may hold a disk, in order; an
/// error, naming the byte offset of the NUL, when the mount point of one of them
/// holds a NUL character (the first such one).
pub fn mount_entries(content: &str) -> (r: Result<Vec<MountEntry>, MountError>)
    ensures
        ({
            let c = mount_candidates(lines_of(content@));
            &&& r is Ok <==> forall|i: int| 0 <= i < c.len() ==> !(#[trigger] c[i]).1.contains(
                '\0',
            )
            &&& r matches Ok(v) ==> mount_views(v@) == c
            &&& r matches Err(MountError::NulByte { position }) ==> exists|i: int, k: int|
                #![trigger c[i].1[k]]
                0 <= i < c.len() && 0 <= k < c[i].1.len() && c[i].1[k] == '\0' && (forall|m: int|
                    0 <= m < k ==> c[i].1[m] != '\0') && (forall|j: int|
                    0 <= j < i ==> !(#[trigger] c[j]).1.contains('\0')) && position == utf8_offset(
                    c[i].1.take(k),
                )
        }),
{
    let text = chars_of(content);
    let ls = lines(&text);
    let mut out: Vec<MountEntry> = Vec::new();
    let mut i: usize = 0;
    let ghost mut cand: Seq<(Seq<char>, Seq<char>, Seq<char>)> = seq![];
    while i < ls.len()
        invariant
            i <= ls.len(),
            views(ls@) == lines_of(content@),
            mount_views(out@) == mount_candidates(views(ls@).take(i as int)),
            forall|k: int|
                0 <= k < mount_views(out@).len() ==> !(#[trigger] mount_views(out@)[k]).1.contains(
                    '\0',
                ),
        decreases ls.len() - i,
    {
        assert(views(ls@).take(i + 1).drop_last() =~= views(ls@).take(i as int));
        assert(views(ls@).take(i + 1).last() == ls@[i as int]@);
        let ghost before = mount_views(out@);
        let ws = split_whitespace(&ls[i]);
        if ws.len() >= 4 {
            let ghost g = views(ws@);
            assert(g[0] == ws@[0]@ && g[1] == ws@[1]@ && g[2] == ws@[2]@);
            if !is_pseudo_fs(&ws[2]) && crate::text::starts_with(&ws[0], "/dev/") {
                let mp = &ws[1];
                let nul = crate::text::find_char_from(mp, '\0', 0);
                proof {
                    assert(mp@.skip(0) =~= mp@);
                    crate::text::lemma_index_of(mp@, '\0');
                }
                if nul < mp.len() {
                    proof {
                        let c = mount_candidates(lines_of(content@));
                        lemma_candidates_prefix(views(ls@), i as int);
                        lemma_candidates_take(views(ls@), i as int);
                        assert(c[before.len() as int] == (g[0], g[1], g[2]));
                        assert forall|j: int| 0 <= j < before.len() implies !(
                        #[trigger] c[j]).1.contains('\0') by {
                            assert(c[j] == before[j]);
                        }
                    }
                    let position = byte_offset(mp, nul);
                    proof {
                        let c = mount_candidates(lines_of(content@));
                        let i0 = before.len() as int;
                        let k0 = nul as int;
                        assert(c[i0].1 == mp@);
                        assert(c[i0].1[k0] == '\0');
                        assert(forall|m: int| 0 <= m < k0 ==> c[i0].1[m] != '\0');
                        assert(position == utf8_offset(c[i0].1.take(k0)));
                    }
                    return Err(MountError::NulByte { position });
                }
                proof {
                    if mp@.contains('\0') {
                        let j = choose|j: int| 0 <= j < mp@.len() && mp@[j] == '\0';
                        assert(false);
                    }
                }
                let e = MountEntry {
                    device: string_from_chars(&ws[0]),
                    mount_point: string_from_chars(&ws[1]),
                    fs_type: string_from_chars(&ws[2]),
                };
                out.push(e);
                assert(mount_views(out@) =~= before.push((g[0], g[1], g[2])));
            }
        }
        i += 1;
    }
    assert(views(ls@).take(ls.len() as int) =~= views(ls@));
    Ok(out)
}

proof fn lemma_candidates_take(ls: Seq<Seq<char>>, i: int)
    requires
        0 <= i <= ls.len(),
    ensures
        mount_candidates(ls.take(i)).len() <= mount_candidates(ls).len(),
        forall|k: int|
            0 <= k < mount_candidates(ls.take(i)).len() ==> mount_candidates(ls)[k]
                == #[trigger] mount_candidates(ls.take(i))[k],
    decreases ls.len(),
{
    if i == ls.len() {
        assert(ls.take(i) =~= ls);
    } else {
        lemma_candidates_take(ls.drop_last(), i);
        assert(ls.drop_last().take(i) =~= ls.take(i));
    }
}

proof fn lemma_candidates_prefix(ls: Seq<Seq<char>>, i: int)
    requires
        0 <= i < ls.len(),
        mount_candidate(ls[i]) is Some,
    ensures
        mount_candidates(ls).len() > mount_candidates(ls.take(i)).len(),
        mount_candidates(ls)[mount_candidates(ls.take(i)).len() as int] == mount_candidate(
            ls[i],
        )->0,
    decreases ls.len(),
{
    if ls.len() == i + 1 {
        assert(ls.drop_last() =~= ls.take(i));
    } else {
        lemma_candidates_prefix(ls.drop_last(), i);
        assert(ls.drop_last().take(i) =~= ls.take(i));
        assert(ls.drop_last()[i] == ls[i]);
    }
}

/// The name of a device without its directories, as `rsplit('/').next()` gives it.
pub open spec fn device_name(dev: Seq<char>) -> Seq<char> {
    dev.skip(crate::text::after_last(dev, '/') as int)
}

/// The whole disk that a partition's device name belongs to: an NVMe or MMC
/// name loses a final `p` and the digits after it (`nvme0n1p1` → `nvme0n1`),
/// another name its trailing digits (`sda1` → `sda`).
pub open spec fn base_device(name: Seq<char>) -> Seq<char> {
    if crate::text::has_prefix(name, "nvme"@) || crate::text::has_prefix(name, "mmcblk"@) {
        let p = crate::text::after_last(name, 'p');
        if p > 0 && crate::text::all_ascii_digits(name.skip(p as int)) {
            name.take(p - 1)
        } else {
            name
        }
    } else {
        crate::text::strip_trailing_digits(name)
    }
}

/// The name of the whole disk of a device path, under which `/sys/block` lists it.
pub fn linux_base_device(device: &str) -> (r: String)
    ensures
        r@ == base_device(device_name(device@)),
{
    let d = chars_of(device);
    let name = crate::text::after_last_char(&d, '/');
    let base = if crate::text::starts_with(&name, "nvme") || crate::text::starts_with(
        &name,
        "mmcblk",
    ) {
        let p = crate::text::after_last_char(&name, 'p');
        let k = name.len() - p.len();
        proof {
            crate::text::lemma_after_last_bound(name@, 'p');
        }
        if k > 0 && crate::text::ascii_digits_from(&name, k) {
            crate::text::subvec(&name, 0, k - 1)
        } else {
            name
        }
    } else {
        crate::text::trim_end_digits(&name)
    };
    string_from_chars(&base)
}

/// The sizes that `statvfs` reports of a file system.
#[derive(Debug, Clone, Copy, PartialEq, Eq, Structural)]
pub struct FsStat {
    /// The fragment size (`f_frsize`), in bytes.
    pub block_size: u64,
    /// The size in fragments (`f_blocks`).
    pub blocks: u64,
    /// The free fragments (`f_bfree`).
    pub blocks_free: u64,
}

/// The kind of disk that the text of `/sys/block/<disk>/queue/rotational` tells.
pub open spec fn kind_of_rotational(t: Option<Seq<char>>) -> DiskKind {
    match t {
        Some(v) => if trimmed(v) == "0"@ {
            DiskKind::Ssd
        } else if trimmed(v) == "1"@ {
            DiskKind::Hdd
        } else {
            DiskKind::Unknown
        },
        None => DiskKind::Unknown,
    }
}

/// The Linux record of a disk, from its mount, what `statvfs` reported (`None`
/// when it failed), and the text of its `rotational` and `removable` files in
/// `/sys/block`; none when `statvfs` failed or the file system has no size.
pub fn linux_disk_entry(
    entry: &MountEntry,
    stat: Option<FsStat>,
    rotational: Option<&str>,
    removable: Option<&str>,
) -> (r: Option<DiskInfo>)
    ensures
        match stat {
            None => r is None,
            Some(st) => {
                let total = wrap64(st.blocks * st.block_size);
                let free = wrap64(st.blocks_free * st.block_size);
                if total == 0 {
                    r is None
                } else {
                    r matches Some(d) && d.name@ == device_name(entry.device@) && d.mount_point@
                        == entry.mount_point@ && d.fs_type@ == entry.fs_type@ && d.kind
                        == kind_of_rotational(opt_chars(rotational)) && d.total_bytes == total
                        && d.free_bytes == free && d.used_bytes == sat_sub(total, free)
                        && d.is_removable == (match removable {
                        Some(t) => trimmed(t@) == "1"@,
                        None => false,
                    })
                }
            },
        },
        r matches Some(d) ==> d.used_bytes <= d.total_bytes && d.total_bytes > 0,
{
    let st = match stat {
        Some(st) => st,
        None => return None,
    };
    let total = mul_wrap(st.blocks, st.block_size);
    let free = mul_wrap(st.blocks_free, st.block_size);
    if total == 0 {
        return None;
    }
    let kind = match rotational {
        Some(t) => {
            let tc = trim(&chars_of(t));
            if crate::text::eq_str(&tc, "0") {
                DiskKind::Ssd
            } else if crate::text::eq_str(&tc, "1") {
                DiskKind::Hdd
            } else {
                DiskKind::Unknown
            }
        },
        None => DiskKind::Unknown,
    };
    let is_removable = match removable {
        Some(t) => crate::text::eq_str(&trim(&chars_of(t)), "1"),
        None => false,
    };
    let dev = chars_of(entry.device.as_str());
    let name = crate::text::after_last_char(&dev, '/');
    Some(
        DiskInfo {
            name: string_from_chars(&name),
            mount_point: owned(entry.mount_point.as_str()),
            fs_type: owned(entry.fs_type.as_str()),
            kind,
            total_bytes: total,
            used_bytes: total.saturating_sub(free),
            free_bytes: free,
            is_removable,
        },
    )
}

// ───────────────────────────── /proc/net/dev ─────────────────────────────

/// The words of `ws` that read as `u64`, read, in order.
pub open spec fn numbers_of(ws: Seq<Seq<char>>) -> Seq<u64>
    decreases ws.len(),
{
    if ws.len() == 0 {
        seq![]
    } else {
        match u64_of(ws.last()) {
            Some(v) => numbers_of(ws.drop_last()).push(v),
            None => numbers_of(ws.drop_last()),
        }
    }
}

/// The interface, bytes received and bytes sent of a line of `/proc/net/dev`
/// (`eth0: 1234 …`): the trimmed name before the colon, and the first and ninth
/// of the numbers after it (0 for a missing one).
pub open spec fn net_dev_entry(line: Seq<char>) -> Option<(Seq<char>, u64, u64)> {
    match split_once_at(trimmed(line), ':') {
        Some((n, rest)) => {
            let v = numbers_of(words_of(rest));
            Some(
                (
                    trimmed(n),
                    if v.len() > 0 {
                        v[0]
                    } else {
                        0
                    },
                    if v.len() > 8 {
                        v[8]
                    } else {
                        0
                    },
                ),
            )
        },
        None => None,
    }
}

/// The lines of `/proc/net/dev` after its two header lines.
pub open spec fn net_dev_lines(content: Seq<char>) -> Seq<Seq<char>> {
    let ls = lines_of(content);
    if ls.len() >= 2 {
        ls.skip(2)
    } else {
        seq![]
    }
}

/// The table after the interfaces of the given lines were recorded in turn.
pub open spec fn net_dev_table(ls: Seq<Seq<char>>) -> Seq<crate::network::NetView>
    decreases ls.len(),
{
    if ls.len() == 0 {
        seq![]
    } else {
        let t = net_dev_table(ls.drop_last());
        match net_dev_entry(ls.last()) {
            Some((n, rx, tx)) => crate::network::counters_recorded(t, n, rx, tx),
            None => t,
        }
    }
}

fn numbers_in(ws: &Vec<Vec<char>>) -> (r: Vec<u64>)
    ensures
        r@ == numbers_of(views(ws@)),
{
    let mut r: Vec<u64> = Vec::new();
    let mut i: usize = 0;
    while i < ws.len()
        invariant
            i <= ws.len(),
            r@ == numbers_of(views(ws@).take(i as int)),
        decreases ws.len() - i,
    {
        assert(views(ws@).take(i + 1).drop_last() =~= views(ws@).take(i as int));
        assert(views(ws@).take(i + 1).last() == ws@[i as int]@);
        match parse_u64(&ws[i]) {
            Some(v) => r.push(v),
            None => {},
        }
        i += 1;
    }
    assert(views(ws@).take(ws.len() as int) =~= views(ws@));
    r
}

/// The interfaces and their traffic, from the text of `/proc/net/dev`: each
/// line after the two headers records its interface, with no address and down,
/// in place of any earlier one of the same name.
pub fn linux_net_table(content: &str) -> (r: crate::network::NetTable)
    ensures
        r@ == net_dev_table(net_dev_lines(content@)),
{
    let ls = lines(&chars_of(content));
    let mut table = crate::network::NetTable::new();
    if ls.len() < 2 {
        assert(net_dev_lines(content@) =~= Seq::<Seq<char>>::empty());
        return table;
    }
    let ghost body = views(ls@).skip(2);
    let mut i: usize = 2;
    assert(body.take(0) =~= Seq::<Seq<char>>::empty());
    while i < ls.len()
        invariant
            2 <= i <= ls.len(),
            views(ls@) == lines_of(content@),
            body == views(ls@).skip(2),
            table@ == net_dev_table(body.take(i - 2)),
        decreases ls.len() - i,
    {
        assert(body.take(i - 1).drop_last() =~= body.take(i - 2));
        assert(body.take(i - 1).last() == ls@[i as int]@);
        match split_once(&trim(&ls[i]), ':') {
            Some((n, rest)) => {
                let v = numbers_in(&split_whitespace(&rest));
                let rx = if v.len() > 0 {
                    v[0]
                } else {
                    0
                };
                let tx = if v.len() > 8 {
                    v[8]
                } else {
                    0
                };
                table.insert_counters(string_from_chars(&trim(&n)), rx, tx);
                proof {
                    crate::network::lemma_counters_recorded(
                        net_dev_table(body.take(i - 2)),
                        trimmed(n@),
                        rx,
                        tx,
                    );
                }
            },
            None => {},
        }
        i += 1;
    }
    assert(body.take(ls.len() - 2) =~= body);
    table
}

/// The hardware address in the text of `/sys/class/net/<if>/address`.
pub fn mac_from_address_file(text: &str) -> (r: String)
    ensures
        r@ == trimmed(text@),
{
    string_from_chars(&trim(&chars_of(text)))
}

/// Whether the text of `/sys/class/net/<if>/operstate` says the interface is up.
pub fn is_up_from_operstate(text: &str) -> (r: bool)
    ensures
        r == (trimmed(text@) == "up"@),
{
    crate::text::eq_str(&trim(&chars_of(text)), "up")
}
} // verus!
