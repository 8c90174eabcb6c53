//! Linux displays: the output of `xrandr --query`, or the connectors that
//! `/sys/class/drm` lists.
use vstd::prelude::*;
use crate::numbers::{parse_u32, u32_of};
use crate::text::{
    chars_of, has_infix, has_prefix, has_suffix, lines, lines_of, split_once, split_once_at,
    split_whitespace, string_from_chars, subvec, trim, trimmed, views, words_of,
};

verus! {

// ───────────────────────────── helpers ─────────────────────────────

/// `s` without every trailing `"mm"`, as `trim_end_matches("mm")` gives it.
pub open spec fn strip_mm(s: Seq<char>) -> Seq<char>
    decreases s.len(),
{
    if s.len() >= 2 && s[s.len() - 2] == 'm' && s[s.len() - 1] == 'm' {
        strip_mm(s.take(s.len() - 2))
    } else {
        s
    }
}

fn strip_mm_exec(v: &Vec<char>) -> (r: Vec<char>)
    ensures
        r@ == strip_mm(v@),
{
    let mut k = v.len();
    assert(v@.take(k as int) =~= v@);
    while k >= 2 && v[k - 2] == 'm' && v[k - 1] == 'm'
        invariant
            k <= v.len(),
            strip_mm(v@.take(k as int)) == strip_mm(v@),
        decreases k,
    {
        assert(v@.take(k as int).take(k - 2) =~= v@.take(k - 2));
        k -= 2;
    }
    subvec(v, 0, k)
}

/// `s` without any `'*'` or `'+'`.
pub open spec fn without_marks(s: Seq<char>) -> Seq<char>
    decreases s.len(),
{
    if s.len() == 0 {
        seq![]
    } else if s.last() == '*' || s.last() == '+' {
        without_marks(s.drop_last())
    } else {
        without_marks(s.drop_last()).push(s.last())
    }
}

fn without_marks_exec(v: &Vec<char>) -> (r: Vec<char>)
    ensures
        r@ == without_marks(v@),
{
    let mut r: Vec<char> = Vec::new();
    let mut i: usize = 0;
    while i < v.len()
        invariant
            i <= v.len(),
            r@ == without_marks(v@.take(i as int)),
        decreases v.len() - i,
    {
        assert(v@.take(i + 1).drop_last() =~= v@.take(i as int));
        if v[i] != '*' && v[i] != '+' {
            r.push(v[i]);
        }
        i += 1;
    }
    assert(v@.take(v.len() as int) =~= v@);
    r
}

/// A number read from text as a `u32`, 0 when it does not read.
pub open spec fn u32_or_zero(s: Seq<char>) -> u32 {
    match u32_of(s) {
        Some(v) => v,
        None => 0,
    }
}

fn u32_or_zero_exec(v: &Vec<char>) -> (r: u32)
    ensures
        r == u32_or_zero(v@),
{
    match parse_u32(v) {
        Some(x) => x,
        None => 0,
    }
}

/// The width and height of a `WIDTHxHEIGHT` text, if it has an `x`.
pub open spec fn dimensions_of(s: Seq<char>) -> Option<(u32, u32)> {
    match split_once_at(s, 'x') {
        Some((w, h)) => Some((u32_or_zero(w), u32_or_zero(h))),
        None => None,
    }
}

fn dimensions(v: &Vec<char>) -> (r: Option<(u32, u32)>)
    ensures
        r == dimensions_of(v@),
{
    match split_once(v, 'x') {
        Some((w, h)) => Some((u32_or_zero_exec(&w), u32_or_zero_exec(&h))),
        None => None,
    }
}

// ───────────────────────────── xrandr ─────────────────────────────

/// The physical width text of a connected output line: the first word `<n>mm`
/// followed by `x` and another `<m>mm`, without its `mm`.
pub open spec fn width_mm_of(ws: Seq<Seq<char>>) -> Option<Seq<char>>
    decreases ws.len(),
{
    if ws.len() < 3 {
        None
    } else if has_suffix(ws[0], "mm"@) && ws[1] == "x"@ && has_suffix(ws[2], "mm"@) {
        Some(strip_mm(ws[0]))
    } else {
        width_mm_of(ws.drop_first())
    }
}

/// The resolution of a connected output line: that of the first word with both
/// `x` and `+` (`1920x1080+0+0`), read before its first `+`; (0, 0) when there
/// is none, or no `x` before the `+`.
pub open spec fn connected_resolution(ws: Seq<Seq<char>>) -> (u32, u32)
    decreases ws.len(),
{
    if ws.len() == 0 {
        (0, 0)
    } else if ws[0].contains('x') && ws[0].contains('+') {
        let head = ws[0].take(crate::text::index_of(ws[0], '+') as int);
        match dimensions_of(head) {
            Some(d) => d,
            None => (0, 0),
        }
    } else {
        connected_resolution(ws.drop_first())
    }
}

/// The refresh rate text of an active mode line: the first word after the
/// first that holds `*`, without its `*` and `+` marks.
pub open spec fn refresh_of(ws: Seq<Seq<char>>) -> Option<Seq<char>>
    decreases ws.len(),
{
    if ws.len() == 0 {
        None
    } else if ws[0].contains('*') {
        Some(without_marks(ws[0]))
    } else {
        refresh_of(ws.drop_first())
    }
}

/// A display that `xrandr` reports, with the texts of its physical width (in
/// millimetres) and refresh rate as written.
pub struct XrandrView {
    pub name: Seq<char>,
    pub width: u32,
    pub height: u32,
    pub width_mm: Option<Seq<char>>,
    pub refresh: Option<Seq<char>>,
    pub is_primary: bool,
}

/// Where a reading of `xrandr` output stands after some lines.
pub struct XrandrScan {
    pub in_output: bool,
    pub found_mode: bool,
    pub name: Seq<char>,
    pub primary: bool,
    pub width_mm: Option<Seq<char>>,
    pub width: u32,
    pub height: u32,
    pub displays: Seq<XrandrView>,
}

/// The reading before any line.
pub open spec fn xrandr_start() -> XrandrScan {
    XrandrScan {
        in_output: false,
        found_mode: false,
        name: seq![],
        primary: false,
        width_mm: None,
        width: 0,
        height: 0,
        displays: seq![],
    }
}

/// The reading after one more line: a `connected` line starts an output, a
/// `disconnected` line ends one, and the first mode line marked `*` of an
/// output completes its resolution if need be and reports it when both sides
/// are positive.
pub open spec fn xrandr_step(s: XrandrScan, line: Seq<char>) -> XrandrScan {
    if has_infix(line, " connected"@) {
        let ws = words_of(line);
        let res = connected_resolution(ws);
        XrandrScan {
            in_output: true,
            found_mode: false,
            name: if ws.len() > 0 {
                ws[0]
            } else {
                "Unknown"@
            },
            primary: has_infix(line, " primary "@),
            width_mm: width_mm_of(ws),
            width: res.0,
            height: res.1,
            ..s
        }
    } else if has_infix(line, " disconnected"@) {
        XrandrScan { in_output: false, ..s }
    } else if s.in_output && !s.found_mode && line.contains('*') {
        let t = trimmed(line);
        let tw = words_of(t);
        let (w, h) = if s.width == 0 || s.height == 0 {
            if tw.len() > 0 {
                match dimensions_of(tw[0]) {
                    Some(d) => d,
                    None => (s.width, s.height),
                }
            } else {
                (s.width, s.height)
            }
        } else {
            (s.width, s.height)
        };
        let d = XrandrView {
            name: s.name,
            width: w,
            height: h,
            width_mm: s.width_mm,
            refresh: if tw.len() > 0 {
                refresh_of(tw.drop_first())
            } else {
                None
            },
            is_primary: s.primary,
        };
        XrandrScan {
            in_output: false,
            found_mode: true,
            width: w,
            height: h,
            displays: if w > 0 && h > 0 {
                s.displays.push(d)
            } else {
                s.displays
            },
            ..s
        }
    } else {
        s
    }
}

/// The reading after all the given lines.
pub open spec fn xrandr_scan(ls: Seq<Seq<char>>) -> XrandrScan
    decreases ls.len(),
{
    if ls.len() == 0 {
        xrandr_start()
    } else {
        xrandr_step(xrandr_scan(ls.drop_last()), ls.last())
    }
}

/// A display that `xrandr` reports, with the texts of its physical width (in
/// millimetres) and of its refresh rate as written, to be read as numbers with
/// fractions.
pub struct XrandrDisplay {
    pub name: String,
    pub width: u32,
    pub height: u32,
    pub width_mm: Option<String>,
    pub refresh: Option<String>,
    pub is_primary: bool,
}

/// The characters of an optional string.
pub open spec fn opt_view(o: Option<String>) -> Option<Seq<char>> {
    match o {
        Some(s) => Some(s@),
        None => None,
    }
}

/// What a display record holds.
pub open spec fn xrandr_view(d: XrandrDisplay) -> XrandrView {
    XrandrView {
        name: d.name@,
        width: d.width,
        height: d.height,
        width_mm: opt_view(d.width_mm),
        refresh: opt_view(d.refresh),
        is_primary: d.is_primary,
    }
}

fn opt_chars_string(o: &Option<Vec<char>>) -> (r: Option<String>)
    ensures
        opt_view(r) == match *o {
            Some(v) => Some(v@),
            None => None::<Seq<char>>,
        },
{
    match o {
        Some(v) => Some(string_from_chars(v)),
        None => None,
    }
}

fn width_mm_exec(ws: &Vec<Vec<char>>) -> (r: Option<Vec<char>>)
    ensures
        match r {
            Some(v) => width_mm_of(views(ws@)) == Some(v@),
            None => width_mm_of(views(ws@)) is None,
        },
{
    let mut i: usize = 0;
    assert(views(ws@).skip(0) =~= views(ws@));
    while ws.len() >= 3 && i < ws.len() - 2
        invariant
            i <= ws.len(),
            width_mm_of(views(ws@).skip(i as int)) == width_mm_of(views(ws@)),
        decreases ws.len() - i,
    {
        let ghost rest = views(ws@).skip(i as int);
        assert(rest[0] == ws@[i as int]@ && rest[1] == ws@[i + 1]@ && rest[2] == ws@[i + 2]@);
        if crate::text::ends_with(&ws[i], "mm") && crate::text::eq_str(&ws[i + 1], "x")
            && crate::text::ends_with(&ws[i + 2], "mm") {
            return Some(strip_mm_exec(&ws[i]));
        }
        assert(rest.drop_first() =~= views(ws@).skip(i + 1));
        i += 1;
    }
    None
}

fn resolution_exec(ws: &Vec<Vec<char>>) -> (r: (u32, u32))
    ensures
        r == connected_resolution(views(ws@)),
{
    let mut i: usize = 0;
    assert(views(ws@).skip(0) =~= views(ws@));
    while i < ws.len()
        invariant
            i <= ws.len(),
            connected_resolution(views(ws@).skip(i as int)) == connected_resolution(views(ws@)),
        decreases ws.len() - i,
    {
        let ghost rest = views(ws@).skip(i as int);
        assert(rest[0] == ws@[i as int]@);
        let w = &ws[i];
        if crate::text::contains_char(w, 'x') && crate::text::contains_char(w, '+') {
            let p = crate::text::find_char_from(w, '+', 0);
            assert(w@.skip(0) =~= w@);
            let head = subvec(w, 0, p);
            assert(head@ =~= w@.take(crate::text::index_of(w@, '+') as int));
            return match dimensions(&head) {
                Some(d) => d,
                None => (0, 0),
            };
        }
        assert(rest.drop_first() =~= views(ws@).skip(i + 1));
        i += 1;
    }
    (0, 0)
}

fn refresh_exec(ws: &Vec<Vec<char>>, from: usize) -> (r: Option<Vec<char>>)
    requires
        from <= ws.len(),
    ensures
        match r {
            Some(v) => refresh_of(views(ws@).skip(from as int)) == Some(v@),
            None => refresh_of(views(ws@).skip(from as int)) is None,
        },
{
    let mut i: usize = from;
    while i < ws.len()
        invariant
            from <= i <= ws.len(),
            refresh_of(views(ws@).skip(i as int)) == refresh_of(views(ws@).skip(from as int)),
        decreases ws.len() - i,
    {
        let ghost rest = views(ws@).skip(i as int);
        assert(rest[0] == ws@[i as int]@);
        if crate::text::contains_char(&ws[i], '*') {
            return Some(without_marks_exec(&ws[i]));
        }
        assert(rest.drop_first() =~= views(ws@).skip(i + 1));
        i += 1;
    }
    None
}

/// The displays that the output of `xrandr --query` reports, in order.
pub fn parse_xrandr(output: &str) -> (r: Vec<XrandrDisplay>)
    ensures
        r@.map_values(|d: XrandrDisplay| xrandr_view(d)) == xrandr_scan(lines_of(output@)).displays,
{
    let ls = lines(&chars_of(output));
    let mut out: Vec<XrandrDisplay> = Vec::new();
    let mut in_output = false;
    let mut found_mode = false;
    let mut name: Vec<char> = Vec::new();
    let mut primary = false;
    let mut width_mm: Option<Vec<char>> = None;
    let mut width: u32 = 0;
    let mut height: u32 = 0;
    let mut i: usize = 0;
    assert(views(ls@).take(0) =~= Seq::<Seq<char>>::empty());
    assert(out@.map_values(|d: XrandrDisplay| xrandr_view(d)) =~= Seq::<XrandrView>::empty());
    while i < ls.len()
        invariant
            i <= ls.len(),
            views(ls@) == lines_of(output@),
            ({
                let s = xrandr_scan(views(ls@).take(i as int));
                &&& s.in_output == in_output
                &&& s.found_mode == found_mode
                &&& s.name == name@
                &&& s.primary == primary
                &&& s.width_mm == match width_mm {
                    Some(v) => Some(v@),
                    None => None::<Seq<char>>,
                }
                &&& s.width == width
                &&& s.height == height
                &&& s.displays == out@.map_values(|d: XrandrDisplay| xrandr_view(d))
            }),
        decreases ls.len() - i,
    {
        assert(views(ls@).take(i + 1).drop_last() =~= views(ls@).take(i as int));
        assert(views(ls@).take(i + 1).last() == ls@[i as int]@);
        let line = &ls[i];
        if crate::text::contains(line, " connected") {
            let ws = split_whitespace(line);
            in_output = true;
            found_mode = false;
            primary = crate::text::contains(line, " primary ");
            name = if ws.len() > 0 {
                let n = subvec(&ws[0], 0, ws[0].len());
                assert(n@ =~= views(ws@)[0]);
                n
            } else {
                chars_of("Unknown")
            };
            width_mm = width_mm_exec(&ws);
            let res = resolution_exec(&ws);
            width = res.0;
            height = res.1;
        } else if crate::text::contains(line, " disconnected") {
            in_output = false;
        } else if in_output && !found_mode && crate::text::contains_char(line, '*') {
            found_mode = true;
            let t = trim(line);
            let tw = split_whitespace(&t);
            if width == 0 || height == 0 {
                if tw.len() > 0 {
                    assert(views(tw@)[0] == tw@[0]@);
                    match dimensions(&tw[0]) {
                        Some(d) => {
                            width = d.0;
                            height = d.1;
                        },
                        None => {},
                    }
                }
            }
            let refresh = if tw.len() > 0 {
                assert(views(tw@).skip(1) =~= views(tw@).drop_first());
                match refresh_exec(&tw, 1) {
                    Some(v) => Some(string_from_chars(&v)),
                    None => None,
                }
            } else {
                None
            };
            if width > 0 && height > 0 {
                let ghost before = out@.map_values(|d: XrandrDisplay| xrandr_view(d));
                let d = XrandrDisplay {
                    name: string_from_chars(&name),
                    width,
                    height,
                    width_mm: opt_chars_string(&width_mm),
                    refresh,
                    is_primary: primary,
                };
                let ghost dv = xrandr_view(d);
                out.push(d);
                assert(out@.map_values(|d: XrandrDisplay| xrandr_view(d)) =~= before.push(dv));
            }
            in_output = false;
        }
        i += 1;
    }
    assert(views(ls@).take(ls.len() as int) =~= views(ls@));
    out
}

// ───────────────────────────── /sys/class/drm ─────────────────────────────

/// A connector of `/sys/class/drm`: its entry name and the texts of its
/// `status` and `modes` files, each `None` when it cannot be read.
pub struct DrmConnector {
    pub name: String,
    pub status: Option<String>,
    pub modes: Option<String>,
}

/// A display found through `/sys/class/drm`, at its preferred mode.
#[derive(Debug)]
pub struct DrmDisplay {
    pub name: String,
    pub width: u32,
    pub height: u32,
    pub is_primary: bool,
}

/// The display of a connector, if it is a connected `card…-…` entry whose first
/// mode has both sides positive: its name after the first `-`, and the size.
pub open spec fn drm_display_of(c: DrmConnector) -> Option<(Seq<char>, u32, u32)> {
    let name = c.name@;
    let status = match opt_view(c.status) {
        Some(s) => trimmed(s),
        None => trimmed(seq![]),
    };
    let modes = match opt_view(c.modes) {
        Some(m) => m,
        None => seq![],
    };
    let first = if lines_of(modes).len() > 0 {
        lines_of(modes)[0]
    } else {
        seq![]
    };
    if !(name.contains('-') && has_prefix(name, "card"@)) {
        None
    } else if status != "connected"@ {
        None
    } else {
        match dimensions_of(first) {
            Some((w, h)) => if w == 0 || h == 0 {
                None
            } else {
                match split_once_at(name, '-') {
                    Some((_, rest)) => Some((rest, w, h)),
                    None => Some((name, w, h)),
                }
            },
            None => None,
        }
    }
}

/// The displays of the given connectors, in order, each as its name and size.
pub open spec fn drm_found(cs: Seq<DrmConnector>) -> Seq<(Seq<char>, u32, u32)>
    decreases cs.len(),
{
    if cs.len() == 0 {
        seq![]
    } else {
        match drm_display_of(cs.last()) {
            Some(d) => drm_found(cs.drop_last()).push(d),
            None => drm_found(cs.drop_last()),
        }
    }
}

fn drm_display(c: &DrmConnector) -> (r: Option<(Vec<char>, u32, u32)>)
    ensures
        match r {
            Some((n, w, h)) => drm_display_of(*c) == Some((n@, w, h)),
            None => drm_display_of(*c) is None,
        },
{
    let name = chars_of(c.name.as_str());
    if !(crate::text::contains_char(&name, '-') && crate::text::starts_with(&name, "card")) {
        return None;
    }
    let status = match &c.status {
        Some(s) => chars_of(s.as_str()),
        None => Vec::new(),
    };
    assert(c.status is None ==> status@ =~= Seq::<char>::empty());
    if !crate::text::eq_str(&trim(&status), "connected") {
        return None;
    }
    let modes = match &c.modes {
        Some(m) => chars_of(m.as_str()),
        None => Vec::new(),
    };
    assert(c.modes is None ==> modes@ =~= Seq::<char>::empty());
    let ml = lines(&modes);
    let first = if ml.len() > 0 {
        let f = subvec(&ml[0], 0, ml[0].len());
        assert(f@ =~= views(ml@)[0]);
        f
    } else {
        Vec::new()
    };
    match dimensions(&first) {
        Some((w, h)) => {
            if w == 0 || h == 0 {
                None
            } else {
                match split_once(&name, '-') {
                    Some((_, rest)) => Some((rest, w, h)),
                    None => Some((name, w, h)),
                }
            }
        },
        None => None,
    }
}

/// The displays of the connectors of `/sys/class/drm`, in the order given; the
/// first one found is the primary one.
pub fn drm_displays(connectors: &Vec<DrmConnector>) -> (r: Vec<DrmDisplay>)
    ensures
        ({
            let f = drm_found(connectors@);
            &&& r@.len() == f.len()
            &&& forall|i: int|
                0 <= i < f.len() ==> (#[trigger] r@[i]).name@ == f[i].0 && r@[i].width == f[i].1
                    && r@[i].height == f[i].2 && r@[i].is_primary == (i == 0)
        }),
{
    let mut out: Vec<DrmDisplay> = Vec::new();
    let mut i: usize = 0;
    while i < connectors.len()
        invariant
            i <= connectors.len(),
            ({
                let f = drm_found(connectors@.take(i as int));
                &&& out@.len() == f.len()
                &&& forall|k: int|
                    0 <= k < f.len() ==> (#[trigger] out@[k]).name@ == f[k].0 && out@[k].width
                        == f[k].1 && out@[k].height == f[k].2 && out@[k].is_primary == (k == 0)
            }),
        decreases connectors.len() - i,
    {
        assert(connectors@.take(i + 1).drop_last() =~= connectors@.take(i as int));
        assert(connectors@.take(i + 1).last() == connectors@[i as int]);
        match drm_display(&connectors[i]) {
            Some((n, w, h)) => {
                let first = out.len() == 0;
                out.push(
                    DrmDisplay { name: string_from_chars(&n), width: w, height: h, is_primary: first },
                );
            },
            None => {},
        }
        i += 1;
    }
    assert(connectors@.take(connectors.len() as int) =~= connectors@);
    out
}

/// The displays of a Linux system: those that `xrandr` reports, or, when it
/// could not be run or reports none, those found through `/sys/class/drm`.
pub enum LinuxDisplays {
    Xrandr(Vec<XrandrDisplay>),
    Drm(Vec<DrmDisplay>),
}

/// The displays of a Linux system, from the output of a successful
/// `xrandr --query` (`None` when it could not be run) and the connectors of
/// `/sys/class/drm`.
pub fn linux_displays(xrandr_output: Option<&str>, connectors: &Vec<DrmConnector>) -> (r:
    LinuxDisplays)
    ensures
        ({
            let x = match xrandr_output {
                Some(o) => xrandr_scan(lines_of(o@)).displays,
                None => seq![],
            };
            if x.len() > 0 {
                r matches LinuxDisplays::Xrandr(v) && v@.map_values(|d: XrandrDisplay| xrandr_view(d))
                    == x
            } else {
                r matches LinuxDisplays::Drm(v) && {
                    let f = drm_found(connectors@);
                    &&& v@.len() == f.len()
                    &&& forall|i: int|
                        0 <= i < f.len() ==> (#[trigger] v@[i]).name@ == f[i].0 && v@[i].width
                            == f[i].1 && v@[i].height == f[i].2 && v@[i].is_primary == (i == 0)
                }
            }
        }),
{
    match xrandr_output {
        Some(o) => {
            let x = parse_xrandr(o);
            if x.len() > 0 {
                return LinuxDisplays::Xrandr(x);
            }
            assert(x@.map_values(|d: XrandrDisplay| xrandr_view(d)).len() == 0);
        },
        None => {},
    }
    LinuxDisplays::Drm(drm_displays(connectors))
}

} // verus!
