//! Network interfaces: the table in which they are gathered, one entry per
//! name, and the text forms of their addresses.
use vstd::prelude::*;
use crate::models::NetworkInfo;
use crate::numbers::{decimal, digits_in, hex_padded, zero_padded};
use crate::text::{chars_of, concat, string_from_chars, views};

verus! {

// ───────────────────────────── address text ─────────────────────────────

/// The parts joined with `':'` between them.
pub open spec fn join_colon(parts: Seq<Seq<char>>) -> Seq<char>
    decreases parts.len(),
{
    if parts.len() == 0 {
        seq![]
    } else if parts.len() == 1 {
        parts[0]
    } else {
        join_colon(parts.drop_last()) + seq![':'] + parts.last()
    }
}

fn join_with_colons(parts: &Vec<Vec<char>>) -> (r: Vec<char>)
    ensures
        r@ == join_colon(views(parts@)),
{
    let mut r: Vec<char> = Vec::new();
    let mut i: usize = 0;
    assert(views(parts@).take(0) =~= Seq::<Seq<char>>::empty());
    while i < parts.len()
        invariant
            i <= parts.len(),
            r@ == join_colon(views(parts@).take(i as int)),
        decreases parts.len() - i,
    {
        let ghost t = views(parts@).take(i + 1);
        assert(t.drop_last() =~= views(parts@).take(i as int));
        assert(t.last() == parts@[i as int]@);
        if i == 0 {
            r = concat(&r, &parts[0]);
            assert(t =~= seq![parts@[0]@]);
        } else {
            let mut sep: Vec<char> = Vec::new();
            sep.push(':');
            let rs = concat(&r, &sep);
            r = concat(&rs, &parts[i]);
            assert(sep@ =~= seq![':']);
        }
        i += 1;
    }
    assert(views(parts@).take(parts.len() as int) =~= views(parts@));
    r
}

/// An IPv4 address in dotted decimal form (`192.168.0.1`).
pub open spec fn ipv4_text(a: u8, b: u8, c: u8, d: u8) -> Seq<char> {
    join_colon_with_dots(
        seq![
            digits_in(a as nat, 10, false),
            digits_in(b as nat, 10, false),
            digits_in(c as nat, 10, false),
            digits_in(d as nat, 10, false),
        ],
    )
}

/// Four parts joined with dots.
pub open spec fn join_colon_with_dots(p: Seq<Seq<char>>) -> Seq<char> {
    p[0] + "."@ + p[1] + "."@ + p[2] + "."@ + p[3]
}

/// An IPv4 address in dotted decimal form, from its four bytes in network order.
pub fn ipv4_string(a: u8, b: u8, c: u8, d: u8) -> (r: String)
    ensures
        r@ == ipv4_text(a, b, c, d),
{
    let da = decimal(a as u64);
    let db = decimal(b as u64);
    let dc = decimal(c as u64);
    let dd = decimal(d as u64);
    let x = crate::text::join3(&da, ".", &db);
    let y = crate::text::join3(&x, ".", &dc);
    let z = crate::text::join3(&y, ".", &dd);
    string_from_chars(&z)
}

/// The eight groups of an IPv6 address, each the hexadecimal form (lower case,
/// no leading zeros) of two bytes.
pub open spec fn ipv6_groups(bytes: Seq<u8>) -> Seq<Seq<char>> {
    Seq::new(
        8,
        |i: int| digits_in((bytes[2 * i] as nat) * 256 + bytes[2 * i + 1] as nat, 16, false),
    )
}

/// An IPv6 address as eight colon-separated groups, with no group elided
/// (`fe80:0:0:0:1:2:3:4`).
pub open spec fn ipv6_text(bytes: Seq<u8>) -> Seq<char> {
    join_colon(ipv6_groups(bytes))
}

/// An IPv6 address in text, from its sixteen bytes in network order.
pub fn ipv6_string(bytes: &Vec<u8>) -> (r: String)
    requires
        bytes@.len() == 16,
    ensures
        r@ == ipv6_text(bytes@),
{
    let mut parts: Vec<Vec<char>> = Vec::new();
    let mut i: usize = 0;
    while i < 8
        invariant
            i <= 8,
            bytes@.len() == 16,
            views(parts@) =~= ipv6_groups(bytes@).take(i as int),
        decreases 8 - i,
    {
        let v: u64 = bytes[2 * i] as u64 * 256 + bytes[2 * i + 1] as u64;
        let g = crate::numbers::hex_padded(v, 0, false);
        let ghost before = views(parts@);
        parts.push(g);
        assert(views(parts@) =~= before.push(g@));
        i += 1;
    }
    assert(ipv6_groups(bytes@).take(8) =~= ipv6_groups(bytes@));
    string_from_chars(&join_with_colons(&parts))
}

/// Each byte of a hardware address as two hexadecimal digits.
pub open spec fn mac_groups(bytes: Seq<u8>, upper: bool) -> Seq<Seq<char>> {
    Seq::new(bytes.len(), |i: int| zero_padded(digits_in(bytes[i] as nat, 16, upper), 2))
}

/// A hardware address as colon-separated pairs of hexadecimal digits
/// (`00:1a:2b:3c:4d:5e`, or upper case).
pub open spec fn mac_text(bytes: Seq<u8>, upper: bool) -> Seq<char> {
    join_colon(mac_groups(bytes, upper))
}

/// A hardware address in text, in lower or upper case.
pub fn mac_string(bytes: &Vec<u8>, upper: bool) -> (r: String)
    ensures
        r@ == mac_text(bytes@, upper),
{
    let mut parts: Vec<Vec<char>> = Vec::new();
    let mut i: usize = 0;
    while i < bytes.len()
        invariant
            i <= bytes.len(),
            views(parts@) =~= mac_groups(bytes@, upper).take(i as int),
        decreases bytes.len() - i,
    {
        let g = hex_padded(bytes[i] as u64, 2, upper);
        let ghost before = views(parts@);
        parts.push(g);
        assert(views(parts@) =~= before.push(g@));
        i += 1;
    }
    assert(mac_groups(bytes@, upper).take(bytes@.len() as int) =~= mac_groups(bytes@, upper));
    string_from_chars(&join_with_colons(&parts))
}

// ───────────────────────────── the table ─────────────────────────────

/// What an interface record holds, as character sequences.
pub struct NetView {
    pub name: Seq<char>,
    pub mac: Seq<char>,
    pub ipv4: Seq<Seq<char>>,
    pub ipv6: Seq<Seq<char>>,
    pub rx: u64,
    pub tx: u64,
    pub up: bool,
}

/// The character sequences of a list of strings.
pub open spec fn string_views(v: Seq<String>) -> Seq<Seq<char>> {
    v.map_values(|s: String| s@)
}

/// What an interface record holds.
pub open spec fn net_view(n: NetworkInfo) -> NetView {
    NetView {
        name: n.name@,
        mac: n.mac_address@,
        ipv4: string_views(n.ipv4@),
        ipv6: string_views(n.ipv6@),
        rx: n.rx_bytes,
        tx: n.tx_bytes,
        up: n.is_up,
    }
}

/// The records of a list of interfaces.
pub open spec fn net_views(v: Seq<NetworkInfo>) -> Seq<NetView> {
    v.map_values(|n: NetworkInfo| net_view(n))
}

/// A new interface with no address and no traffic.
pub open spec fn fresh_view(name: Seq<char>, rx: u64, tx: u64, up: bool) -> NetView {
    NetView { name, mac: seq![], ipv4: seq![], ipv6: seq![], rx, tx, up }
}

/// Whether some interface of `v` has the name `name`.
pub open spec fn has_name(v: Seq<NetView>, name: Seq<char>) -> bool {
    exists|i: int| 0 <= i < v.len() && (#[trigger] v[i]).name == name
}

/// Whether no two interfaces of `v` share a name.
pub open spec fn names_distinct(v: Seq<NetView>) -> bool {
    forall|i: int, j: int| 0 <= i < j < v.len() ==> (#[trigger] v[i]).name != (#[trigger] v[j]).name
}

/// The table after an interface's traffic was recorded: the interface, with no
/// address and down, in place of any of the same name, else at the end.
pub open spec fn counters_recorded(v: Seq<NetView>, name: Seq<char>, rx: u64, tx: u64) -> Seq<
    NetView,
> {
    if has_name(v, name) {
        Seq::new(
            v.len(),
            |j: int|
                if v[j].name == name {
                    fresh_view(name, rx, tx, false)
                } else {
                    v[j]
                },
        )
    } else {
        v.push(fresh_view(name, rx, tx, false))
    }
}

/// What `insert_counters` promises is `counters_recorded`.
pub proof fn lemma_counters_recorded(v: Seq<NetView>, name: Seq<char>, rx: u64, tx: u64)
    ensures
        forall|w: Seq<NetView>|
            (has_name(v, name) ==> w.len() == v.len() && forall|j: int|
                0 <= j < v.len() ==> #[trigger] w[j] == if v[j].name == name {
                    fresh_view(name, rx, tx, false)
                } else {
                    v[j]
                }) && (!has_name(v, name) ==> w == v.push(fresh_view(name, rx, tx, false)))
                ==> w == counters_recorded(v, name, rx, tx),
{
    assert forall|w: Seq<NetView>|
        (has_name(v, name) ==> w.len() == v.len() && forall|j: int|
            0 <= j < v.len() ==> #[trigger] w[j] == if v[j].name == name {
                fresh_view(name, rx, tx, false)
            } else {
                v[j]
            }) && (!has_name(v, name) ==> w == v.push(
            fresh_view(name, rx, tx, false),
        )) implies w == counters_recorded(v, name, rx, tx) by {
        if has_name(v, name) {
            assert(w =~= counters_recorded(v, name, rx, tx));
        }
    }
}

/// The interfaces of a system, one per name, in the order they were first seen.
pub struct NetTable {
    entries: Vec<NetworkInfo>,
}

impl View for NetTable {
    type V = Seq<NetView>;

    closed spec fn view(&self) -> Seq<NetView> {
        net_views(self.entries@)
    }
}

fn fresh(name: String, rx: u64, tx: u64, up: bool) -> (r: NetworkInfo)
    ensures
        net_view(r) == fresh_view(name@, rx, tx, up),
{
    let e: Vec<char> = Vec::new();
    let r = NetworkInfo {
        name,
        mac_address: string_from_chars(&e),
        ipv4: Vec::new(),
        ipv6: Vec::new(),
        rx_bytes: rx,
        tx_bytes: tx,
        is_up: up,
    };
    assert(string_views(r.ipv4@) =~= Seq::<Seq<char>>::empty());
    assert(string_views(r.ipv6@) =~= Seq::<Seq<char>>::empty());
    r
}

impl NetTable {
    #[verifier::type_invariant]
    closed spec fn distinct(&self) -> bool {
        names_distinct(net_views(self.entries@))
    }

    /// An empty table.
    pub fn new() -> (r: Self)
        ensures
            r@ == Seq::<NetView>::empty(),
    {
        let r = NetTable { entries: Vec::new() };
        assert(r@ =~= Seq::<NetView>::empty());
        r
    }

    /// How many interfaces the table holds.
    pub fn len(&self) -> (r: usize)
        ensures
            r == self@.len(),
    {
        self.entries.len()
    }

    /// The name of the interface at `i`.
    pub fn name_at(&self, i: usize) -> (r: String)
        requires
            i < self@.len(),
        ensures
            r@ == self@[i as int].name,
    {
        crate::text::owned(self.entries[i].name.as_str())
    }

    /// The index of the interface called `name`, if any.
    pub fn find(&self, name: &str) -> (r: Option<usize>)
        ensures
            r matches Some(i) ==> i < self@.len() && self@[i as int].name == name@,
            r is None ==> !has_name(self@, name@),
    {
        let n = chars_of(name);
        let mut i: usize = 0;
        while i < self.entries.len()
            invariant
                i <= self.entries.len(),
                n@ == name@,
                forall|k: int| 0 <= k < i ==> net_views(self.entries@)[k].name != name@,
            decreases self.entries.len() - i,
        {
            let c = chars_of(self.entries[i].name.as_str());
            if crate::text::eq_chars(&c, &n) {
                return Some(i);
            }
            i += 1;
        }
        None
    }

    /// Records an interface's traffic as `/proc/net/dev` lists it: the
    /// interface, with no address and down, replaces any of the same name, or
    /// is added at the end.
    pub fn insert_counters(&mut self, name: String, rx: u64, tx: u64)
        ensures
            has_name(old(self)@, name@) ==> final(self)@.len() == old(self)@.len() && forall|
                j: int,
            |
                0 <= j < old(self)@.len() ==> #[trigger] final(self)@[j] == if old(self)@[j].name
                    == name@ {
                    fresh_view(name@, rx, tx, false)
                } else {
                    old(self)@[j]
                },
            !has_name(old(self)@, name@) ==> final(self)@ == old(self)@.push(
                fresh_view(name@, rx, tx, false),
            ),
    {
        proof {
            use_type_invariant(&*self);
        }
        let ghost n = name@;
        match self.find(name.as_str()) {
            Some(i) => {
                let ghost before = self@;
                let e = fresh(name, rx, tx, false);
                self.replace_at(i, e);
                proof {
                    assert forall|j: int| 0 <= j < before.len() implies #[trigger] self@[j]
                        == if before[j].name == n {
                        fresh_view(n, rx, tx, false)
                    } else {
                        before[j]
                    } by {
                        if j != i && before[j].name == n {
                            if j < i {
                                assert(before[j].name != before[i as int].name);
                            } else {
                                assert(before[i as int].name != before[j].name);
                            }
                        }
                    }
                }
            },
            None => {
                let e = fresh(name, rx, tx, false);
                self.push_new(e);
            },
        }
    }

    /// The index of the interface called `name`, which is added, with no
    /// address, no traffic and the given state, when there is none.
    pub fn entry(&mut self, name: &str, up: bool) -> (r: usize)
        ensures
            r < final(self)@.len(),
            final(self)@[r as int].name == name@,
            has_name(old(self)@, name@) ==> final(self)@ == old(self)@,
            !has_name(old(self)@, name@) ==> final(self)@ == old(self)@.push(
                fresh_view(name@, 0, 0, up),
            ) && r == old(self)@.len(),
    {
        match self.find(name) {
            Some(i) => i,
            None => {
                let e = fresh(crate::text::owned(name), 0, 0, up);
                let i = self.entries.len();
                self.push_new(e);
                i
            },
        }
    }

    /// Sets the hardware address of the interface at `i`.
    pub fn set_mac(&mut self, i: usize, mac: String)
        requires
            i < old(self)@.len(),
        ensures
            final(self)@ == old(self)@.update(
                i as int,
                NetView { mac: mac@, ..old(self)@[i as int] },
            ),
    {
        let e = self.remove_at(i);
        let e2 = NetworkInfo {
            name: e.name,
            mac_address: mac,
            ipv4: e.ipv4,
            ipv6: e.ipv6,
            rx_bytes: e.rx_bytes,
            tx_bytes: e.tx_bytes,
            is_up: e.is_up,
        };
        self.insert_at(i, e2);
    }

    /// Sets whether the interface at `i` is up.
    pub fn set_up(&mut self, i: usize, up: bool)
        requires
            i < old(self)@.len(),
        ensures
            final(self)@ == old(self)@.update(i as int, NetView { up, ..old(self)@[i as int] }),
    {
        let e = self.remove_at(i);
        let e2 = NetworkInfo {
            name: e.name,
            mac_address: e.mac_address,
            ipv4: e.ipv4,
            ipv6: e.ipv6,
            rx_bytes: e.rx_bytes,
            tx_bytes: e.tx_bytes,
            is_up: up,
        };
        self.insert_at(i, e2);
    }

    /// Sets the traffic counters of the interface at `i`.
    pub fn set_counters(&mut self, i: usize, rx: u64, tx: u64)
        requires
            i < old(self)@.len(),
        ensures
            final(self)@ == old(self)@.update(
                i as int,
                NetView { rx, tx, ..old(self)@[i as int] },
            ),
    {
        let e = self.remove_at(i);
        let e2 = NetworkInfo {
            name: e.name,
            mac_address: e.mac_address,
            ipv4: e.ipv4,
            ipv6: e.ipv6,
            rx_bytes: rx,
            tx_bytes: tx,
            is_up: e.is_up,
        };
        self.insert_at(i, e2);
    }

    /// Adds an IPv4 address, in text, to the interface at `i`.
    pub fn push_ipv4(&mut self, i: usize, addr: String)
        requires
            i < old(self)@.len(),
        ensures
            final(self)@ == old(self)@.update(
                i as int,
                NetView { ipv4: old(self)@[i as int].ipv4.push(addr@), ..old(self)@[i as int] },
            ),
    {
        let e = self.remove_at(i);
        let ghost a = addr@;
        let mut v4 = e.ipv4;
        let ghost before = string_views(v4@);
        v4.push(addr);
        assert(string_views(v4@) =~= before.push(a));
        let e2 = NetworkInfo {
            name: e.name,
            mac_address: e.mac_address,
            ipv4: v4,
            ipv6: e.ipv6,
            rx_bytes: e.rx_bytes,
            tx_bytes: e.tx_bytes,
            is_up: e.is_up,
        };
        self.insert_at(i, e2);
    }

    /// Adds an IPv6 address, in text, to the interface at `i`.
    pub fn push_ipv6(&mut self, i: usize, addr: String)
        requires
            i < old(self)@.len(),
        ensures
            final(self)@ == old(self)@.update(
                i as int,
                NetView { ipv6: old(self)@[i as int].ipv6.push(addr@), ..old(self)@[i as int] },
            ),
    {
        let e = self.remove_at(i);
        let ghost a = addr@;
        let mut v6 = e.ipv6;
        let ghost before = string_views(v6@);
        v6.push(addr);
        assert(string_views(v6@) =~= before.push(a));
        let e2 = NetworkInfo {
            name: e.name,
            mac_address: e.mac_address,
            ipv4: e.ipv4,
            ipv6: v6,
            rx_bytes: e.rx_bytes,
            tx_bytes: e.tx_bytes,
            is_up: e.is_up,
        };
        self.insert_at(i, e2);
    }

    /// The interfaces, in order; no two share a name.
    pub fn into_vec(self) -> (r: Vec<NetworkInfo>)
        ensures
            net_views(r@) == self@,
            names_distinct(net_views(r@)),
    {
        proof {
            use_type_invariant(&self);
        }
        self.entries
    }

    fn push_new(&mut self, e: NetworkInfo)
        requires
            !has_name(old(self)@, net_view(e).name),
        ensures
            final(self)@ == old(self)@.push(net_view(e)),
    {
        proof {
            use_type_invariant(&*self);
        }
        let ghost before = self@;
        let ghost v = net_view(e);
        let mut entries: Vec<NetworkInfo> = Vec::new();
        std::mem::swap(&mut entries, &mut self.entries);
        entries.push(e);
        assert(net_views(entries@) =~= before.push(v));
        proof {
            assert forall|i: int, j: int|
                0 <= i < j < net_views(entries@).len() implies (#[trigger] net_views(
                entries@,
            )[i]).name != (#[trigger] net_views(entries@)[j]).name by {
                if j == before.len() {
                    assert(before[i].name != v.name);
                } else {
                    assert(before[i].name != before[j].name);
                }
            }
        }
        self.entries = entries;
    }

    fn replace_at(&mut self, i: usize, e: NetworkInfo)
        requires
            i < old(self)@.len(),
            net_view(e).name == old(self)@[i as int].name,
        ensures
            final(self)@ == old(self)@.update(i as int, net_view(e)),
    {
        let _old_entry = self.remove_at(i);
        self.insert_at(i, e);
    }
}

impl NetTable {
    /// Takes out the entry at `i`, leaving the others in a table whose view
    /// still shows the old entry.
    fn remove_at(&mut self, i: usize) -> (r: NetworkInfo)
        requires
            i < old(self)@.len(),
        ensures
            net_view(r) == old(self)@[i as int],
            final(self)@ == old(self)@.remove(i as int),
            final(self).gap_ok(i as int, r),
    {
        proof {
            use_type_invariant(&*self);
        }
        let ghost before = self@;
        let mut entries: Vec<NetworkInfo> = Vec::new();
        std::mem::swap(&mut entries, &mut self.entries);
        let e = entries.remove(i);
        assert(net_views(entries@) =~= before.remove(i as int));
        proof {
            assert forall|a: int, b: int|
                0 <= a < b < net_views(entries@).len() implies (#[trigger] net_views(
                entries@,
            )[a]).name != (#[trigger] net_views(entries@)[b]).name by {
                if b < i {
                    assert(before[a].name != before[b].name);
                } else if a < i {
                    assert(before[a].name != before[b + 1].name);
                } else {
                    assert(before[a + 1].name != before[b + 1].name);
                }
            }
        }
        proof {
            assert forall|k: int| 0 <= k < net_views(entries@).len() implies (#[trigger] net_views(
                entries@,
            )[k]).name != net_view(e).name by {
                if k < i {
                    assert(before[k].name != before[i as int].name);
                } else {
                    assert(before[i as int].name != before[k + 1].name);
                }
            }
        }
        self.entries = entries;
        e
    }

    /// Whether putting back an entry named as `e` at `i` keeps the names distinct.
    closed spec fn gap_ok(&self, i: int, e: NetworkInfo) -> bool {
        &&& 0 <= i <= self@.len()
        &&& !has_name(self@, net_view(e).name)
    }

    /// Puts an entry back where one of the same name was taken out.
    fn insert_at(&mut self, i: usize, e: NetworkInfo)
        requires
            old(self).gap_ok(i as int, e),
        ensures
            final(self)@ == old(self)@.insert(i as int, net_view(e)),
    {
        proof {
            use_type_invariant(&*self);
        }
        let ghost before = self@;
        let ghost v = net_view(e);
        let mut entries: Vec<NetworkInfo> = Vec::new();
        std::mem::swap(&mut entries, &mut self.entries);
        entries.insert(i, e);
        assert(net_views(entries@) =~= before.insert(i as int, v));
        proof {
            assert forall|a: int, b: int|
                0 <= a < b < net_views(entries@).len() implies (#[trigger] net_views(
                entries@,
            )[a]).name != (#[trigger] net_views(entries@)[b]).name by {
                if b < i {
                    assert(before[a].name != before[b].name);
                } else if b == i {
                    assert(before[a].name != v.name);
                } else if a < i {
                    assert(before[a].name != before[b - 1].name);
                } else if a == i {
                    assert(before[b - 1].name != v.name);
                } else {
                    assert(before[a - 1].name != before[b - 1].name);
                }
            }
        }
        self.entries = entries;
    }
}


// ───────────────────────────── interface address records ─────────────────────────────

/// The address that one record of the system's interface list carries.
pub enum IfAddress {
    /// The record has no address.
    Missing,
    /// An IPv4 address, its bytes in network order.
    Inet(u8, u8, u8, u8),
    /// An IPv6 address, its sixteen bytes in network order.
    Inet6(Vec<u8>),
    /// A link-level record: the length of the hardware address, the length of
    /// the interface name that precedes it, the data bytes that hold both
    /// (all of them, however long the name), and the byte counters when the record carries them.
    Link { addr_len: u8, name_len: u8, data: Vec<u8>, counters: Option<(u64, u64)> },
    /// An address of another family.
    Other,
}

/// One record of the system's interface list: the interface's name, whether
/// it is up, and one address.
pub struct IfRecord {
    pub name: String,
    pub up: bool,
    pub address: IfAddress,
}

/// Whether a record is well formed: an IPv6 address has sixteen bytes.
pub open spec fn record_ok(r: IfRecord) -> bool {
    match r.address {
        IfAddress::Inet6(bytes) => bytes@.len() == 16,
        _ => true,
    }
}

/// The hardware address of a link record, in text: the six bytes after the
/// interface name in its data, when the address is six bytes long and the
/// data holds them.
pub open spec fn link_mac(addr_len: u8, name_len: u8, data: Seq<u8>) -> Option<Seq<char>> {
    if addr_len == 6 && name_len + 6 <= data.len() {
        Some(mac_text(data.subrange(name_len as int, name_len + 6), false))
    } else {
        None
    }
}

/// What one address adds to an interface's entry: an IPv4 or IPv6 address
/// in text at the end of its list; from a link record, the hardware address
/// when it is six bytes long and there, and the byte counters when there are any.
pub open spec fn address_step(e: NetView, a: IfAddress) -> NetView {
    match a {
        IfAddress::Inet(p, q, r, s) => NetView { ipv4: e.ipv4.push(ipv4_text(p, q, r, s)), ..e },
        IfAddress::Inet6(bytes) => NetView { ipv6: e.ipv6.push(ipv6_text(bytes@)), ..e },
        IfAddress::Link { addr_len, name_len, data, counters } => {
            let e1 = match link_mac(addr_len, name_len, data@) {
                Some(mac) => NetView { mac, ..e },
                None => e,
            };
            match counters {
                Some(c) => NetView { rx: c.0, tx: c.1, ..e1 },
                None => e1,
            }
        },
        _ => e,
    }
}

/// The table with an entry named `name`: unchanged when there is one, else
/// with a new entry, with no address, no traffic and the given state, at the end.
pub open spec fn with_entry(v: Seq<NetView>, name: Seq<char>, up: bool) -> Seq<NetView> {
    if has_name(v, name) {
        v
    } else {
        v.push(fresh_view(name, 0, 0, up))
    }
}

/// The table with the address `a` added to the entries named `name`.
pub open spec fn addressed(v: Seq<NetView>, name: Seq<char>, a: IfAddress) -> Seq<NetView> {
    Seq::new(v.len(), |j: int| if v[j].name == name { address_step(v[j], a) } else { v[j] })
}

/// Whether a record leaves its interface in the table: one with an address
/// always does, one without only when such records are counted.
pub open spec fn record_counts(r: IfRecord, with_unaddressed: bool) -> bool {
    !(r.address is Missing) || with_unaddressed
}

/// The table after one record.
pub open spec fn record_step(v: Seq<NetView>, r: IfRecord, with_unaddressed: bool) -> Seq<NetView> {
    if record_counts(r, with_unaddressed) {
        addressed(with_entry(v, r.name@, r.up), r.name@, r.address)
    } else {
        v
    }
}

/// The table after the records, taken in order.
pub open spec fn records_view(v: Seq<NetView>, rs: Seq<IfRecord>, with_unaddressed: bool) -> Seq<
    NetView,
>
    decreases rs.len(),
{
    if rs.len() == 0 {
        v
    } else {
        record_step(records_view(v, rs.drop_last(), with_unaddressed), rs.last(), with_unaddressed)
    }
}

/// With distinct names, adding an address to the entries named as the one at
/// `i` changes that entry alone.
pub proof fn lemma_addressed_at(v: Seq<NetView>, i: int, a: IfAddress)
    requires
        names_distinct(v),
        0 <= i < v.len(),
    ensures
        addressed(v, v[i].name, a) == v.update(i, address_step(v[i], a)),
{
    assert forall|j: int| 0 <= j < v.len() && j != i implies v[j].name != v[i].name by {
        if j < i {
            assert(v[j].name != v[i].name);
        } else {
            assert(v[i].name != v[j].name);
        }
    }
    assert(addressed(v, v[i].name, a) =~= v.update(i, address_step(v[i], a)));
}

impl NetTable {
    /// Takes in one record of the system's interface list.
    fn add_record(&mut self, r: &IfRecord, with_unaddressed: bool)
        requires
            record_ok(*r),
        ensures
            final(self)@ == record_step(old(self)@, *r, with_unaddressed),
    {
        if !with_unaddressed && matches!(r.address, IfAddress::Missing) {
            return ;
        }
        let ghost w = with_entry(self@, r.name@, r.up);
        let i = self.entry(r.name.as_str(), r.up);
        proof {
            use_type_invariant(&*self);
            assert(self@ == w);
            lemma_addressed_at(w, i as int, r.address);
        }
        match &r.address {
            IfAddress::Inet(p, q, s, t) => {
                let text = ipv4_string(*p, *q, *s, *t);
                self.push_ipv4(i, text);
            },
            IfAddress::Inet6(bytes) => {
                let text = ipv6_string(bytes);
                self.push_ipv6(i, text);
            },
            IfAddress::Link { addr_len, name_len, data, counters } => {
                let ghost e0 = self@[i as int];
                if let Some(mac) = crate::macos::mac_from_link(*addr_len, *name_len, data) {
                    self.set_mac(i, mac);
                }
                if let Some(c) = counters {
                    self.set_counters(i, c.0, c.1);
                }
                assert(self@ =~= w.update(i as int, address_step(e0, r.address)));
            },
            _ => {
                assert(self@ =~= w.update(i as int, address_step(w[i as int], r.address)));
            },
        }
    }

    /// Takes in the records of the system's interface list, in order: each
    /// record's interface gets an entry, the first time with that record's
    /// state, and each address is added to the entry of its interface.
    /// Records without an address are passed over unless `with_unaddressed`.
    pub fn add_records(&mut self, records: &Vec<IfRecord>, with_unaddressed: bool)
        requires
            forall|k: int| 0 <= k < records@.len() ==> record_ok(#[trigger] records@[k]),
        ensures
            final(self)@ == records_view(old(self)@, records@, with_unaddressed),
    {
        let ghost start = self@;
        let mut k: usize = 0;
        while k < records.len()
            invariant
                k <= records@.len(),
                forall|m: int| 0 <= m < records@.len() ==> record_ok(#[trigger] records@[m]),
                self@ == records_view(start, records@.take(k as int), with_unaddressed),
            decreases records@.len() - k,
        {
            self.add_record(&records[k], with_unaddressed);
            assert(records@.take(k + 1).drop_last() =~= records@.take(k as int));
            k += 1;
        }
        assert(records@.take(records@.len() as int) =~= records@);
    }
}

} // verus!
