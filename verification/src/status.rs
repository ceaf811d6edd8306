use vstd::prelude::*;
pub use crate::human::{bytes_human, relative_seconds};
use crate::human::{bytes_human_spec, relative_seconds_spec};
use crate::keyed::{first_key, lemma_first_key_prefix, lemma_first_key_range};
use crate::wg::NameMap;
use crate::config::{clone_opt, Config};
use crate::profile::{conf_ids, discover_ids};
use crate::sorted::{insert_sorted, strictly_sorted, strs};
use crate::text::{
    chars_of, lines, lines_of, parse_uint, parse_uint_chars, push_all, rows, split_chars, split_on,
    string_from_chars, trim_end, trimmed_end, is_ws, occurs_at, contains_seq,
};

verus! {

/// The character sequence of an optional string.
pub open spec fn opt_str(o: Option<String>) -> Option<Seq<char>> {
    match o {
        Some(s) => Some(s@),
        None => None,
    }
}

/// What `wg show all dump` reports of an interface.
#[derive(Debug, Clone)]
pub struct InterfaceInfo {
    pub public_key: Option<String>,
    pub listen_port: Option<u16>,
}

pub struct InterfaceView {
    pub public_key: Option<Seq<char>>,
    pub listen_port: Option<u16>,
}

impl View for InterfaceInfo {
    type V = InterfaceView;

    open spec fn view(&self) -> InterfaceView {
        InterfaceView { public_key: opt_str(self.public_key), listen_port: self.listen_port }
    }
}

/// What `wg show all dump` reports of a peer, with the handshake's age once known.
#[derive(Debug, Clone)]
pub struct PeerInfo {
    pub public_key: Option<String>,
    pub endpoint: Option<String>,
    pub allowed_ips: Option<String>,
    pub last_handshake: Option<u64>,
    pub last_handshake_ago_seconds: Option<u64>,
    pub last_handshake_ago_human: Option<String>,
    pub rx_bytes: Option<u64>,
    pub tx_bytes: Option<u64>,
}

pub struct PeerView {
    pub public_key: Option<Seq<char>>,
    pub endpoint: Option<Seq<char>>,
    pub allowed_ips: Option<Seq<char>>,
    pub last_handshake: Option<u64>,
    pub last_handshake_ago_seconds: Option<u64>,
    pub last_handshake_ago_human: Option<Seq<char>>,
    pub rx_bytes: Option<u64>,
    pub tx_bytes: Option<u64>,
}

impl View for PeerInfo {
    type V = PeerView;

    open spec fn view(&self) -> PeerView {
        PeerView {
            public_key: opt_str(self.public_key),
            endpoint: opt_str(self.endpoint),
            allowed_ips: opt_str(self.allowed_ips),
            last_handshake: self.last_handshake,
            last_handshake_ago_seconds: self.last_handshake_ago_seconds,
            last_handshake_ago_human: opt_str(self.last_handshake_ago_human),
            rx_bytes: self.rx_bytes,
            tx_bytes: self.tx_bytes,
        }
    }
}

pub open spec fn opt_iface_view(o: Option<InterfaceInfo>) -> Option<InterfaceView> {
    match o {
        Some(i) => Some(i@),
        None => None,
    }
}

pub open spec fn peers_view(p: Seq<PeerInfo>) -> Seq<PeerView> {
    p.map_values(|x: PeerInfo| x@)
}

/// Everything the dump holds of one interface name.
#[derive(Debug, Clone)]
pub struct IfaceDump {
    pub iface: String,
    pub interface: Option<InterfaceInfo>,
    pub peers: Vec<PeerInfo>,
}

pub struct IfaceDumpView {
    pub iface: Seq<char>,
    pub interface: Option<InterfaceView>,
    pub peers: Seq<PeerView>,
}

impl View for IfaceDump {
    type V = IfaceDumpView;

    open spec fn view(&self) -> IfaceDumpView {
        IfaceDumpView {
            iface: self.iface@,
            interface: opt_iface_view(self.interface),
            peers: peers_view(self.peers@),
        }
    }
}

pub open spec fn dump_view(d: Seq<IfaceDump>) -> Seq<IfaceDumpView> {
    d.map_values(|x: IfaceDump| x@)
}

/// No interface name occurs twice.
pub open spec fn distinct_ifaces(d: Seq<IfaceDumpView>) -> bool {
    forall|i: int, j: int|
        0 <= i < d.len() && 0 <= j < d.len() && i != j ==> #[trigger] d[i].iface != #[trigger] d[j].iface
}

pub open spec fn has_iface(d: Seq<IfaceDumpView>, name: Seq<char>) -> bool {
    exists|i: int| 0 <= i < d.len() && #[trigger] d[i].iface == name
}

pub open spec fn iface_index(d: Seq<IfaceDumpView>, name: Seq<char>) -> int {
    choose|i: int| 0 <= i < d.len() && #[trigger] d[i].iface == name
}

pub open spec fn empty_entry(name: Seq<char>) -> IfaceDumpView {
    IfaceDumpView { iface: name, interface: None, peers: Seq::empty() }
}

/// `HashMap::entry(name).or_default()`: the entries with one for `name`, and where it stands.
pub open spec fn entry_or_new(d: Seq<IfaceDumpView>, name: Seq<char>) -> (Seq<IfaceDumpView>, int) {
    if has_iface(d, name) {
        (d, iface_index(d, name))
    } else {
        (d.push(empty_entry(name)), d.len() as int)
    }
}

pub open spec fn none_marker() -> Seq<char> {
    seq!['(', 'n', 'o', 'n', 'e', ')']
}

/// A dump column: absent when it reads `(none)`.
pub open spec fn unless_none(c: Seq<char>) -> Option<Seq<char>> {
    if c == none_marker() {
        None
    } else {
        Some(c)
    }
}

/// A numeric dump column: absent when it does not parse or reads zero.
pub open spec fn nonzero(v: Option<nat>) -> Option<nat> {
    match v {
        Some(n) => if n == 0 {
            None
        } else {
            Some(n)
        },
        None => None,
    }
}

pub open spec fn opt_u16(v: Option<nat>) -> Option<u16> {
    match v {
        Some(n) => Some(n as u16),
        None => None,
    }
}

pub open spec fn opt_u64(v: Option<nat>) -> Option<u64> {
    match v {
        Some(n) => Some(n as u64),
        None => None,
    }
}

/// The interface described by an interface line's five columns.
pub open spec fn interface_of_cols(c: Seq<Seq<char>>) -> InterfaceView {
    InterfaceView {
        public_key: unless_none(c[2]),
        listen_port: opt_u16(nonzero(parse_uint(c[3], 65535))),
    }
}

/// The peer described by a peer line's nine columns.
pub open spec fn peer_of_cols(c: Seq<Seq<char>>) -> PeerView {
    PeerView {
        public_key: unless_none(c[1]),
        endpoint: unless_none(c[3]),
        allowed_ips: unless_none(c[4]),
        last_handshake: opt_u64(nonzero(parse_uint(c[5], 0xffff_ffff_ffff_ffff))),
        last_handshake_ago_seconds: None,
        last_handshake_ago_human: None,
        rx_bytes: opt_u64(parse_uint(c[6], 0xffff_ffff_ffff_ffff)),
        tx_bytes: opt_u64(parse_uint(c[7], 0xffff_ffff_ffff_ffff)),
    }
}

/// One line of `wg show all dump`: five tab-separated columns describe an interface,
/// nine describe a peer, anything else is ignored.
pub open spec fn apply_dump_line(d: Seq<IfaceDumpView>, line: Seq<char>) -> Seq<IfaceDumpView> {
    let c = split_on(line, '\t');
    if c.len() == 5 {
        let (d2, k) = entry_or_new(d, c[0]);
        d2.update(
            k,
            IfaceDumpView { iface: d2[k].iface, interface: Some(interface_of_cols(c)), peers: d2[k].peers },
        )
    } else if c.len() == 9 {
        let (d2, k) = entry_or_new(d, c[0]);
        d2.update(
            k,
            IfaceDumpView {
                iface: d2[k].iface,
                interface: d2[k].interface,
                peers: d2[k].peers.push(peer_of_cols(c)),
            },
        )
    } else {
        d
    }
}

/// The dump's lines taken in order.
pub open spec fn dump_of_lines(ls: Seq<Seq<char>>) -> Seq<IfaceDumpView>
    decreases ls.len(),
{
    if ls.len() == 0 {
        Seq::empty()
    } else {
        apply_dump_line(dump_of_lines(ls.drop_last()), ls.last())
    }
}

/// What `wg show all dump` output says, interface by interface, in order of first mention.
pub open spec fn dump_of_text(text: Seq<char>) -> Seq<IfaceDumpView> {
    dump_of_lines(lines_of(text))
}

pub proof fn lemma_apply_dump_line_distinct(d: Seq<IfaceDumpView>, line: Seq<char>)
    requires
        distinct_ifaces(d),
    ensures
        distinct_ifaces(apply_dump_line(d, line)),
{
    let c = split_on(line, '\t');
    if c.len() == 5 || c.len() == 9 {
        let (d2, k) = entry_or_new(d, c[0]);
        assert(distinct_ifaces(d2));
    }
}

pub proof fn lemma_dump_of_lines_distinct(ls: Seq<Seq<char>>)
    ensures
        distinct_ifaces(dump_of_lines(ls)),
    decreases ls.len(),
{
    if ls.len() > 0 {
        lemma_dump_of_lines_distinct(ls.drop_last());
        lemma_apply_dump_line_distinct(dump_of_lines(ls.drop_last()), ls.last());
    }
}

/// A text column read as optional: absent exactly when it reads `(none)`.
pub open spec fn col_text(c: Seq<char>) -> Option<Seq<char>> {
    if c == "(none)"@ {
        None
    } else {
        Some(c)
    }
}

/// How the entry that a dump line names stands once the line is read.
proof fn lemma_dump_line_entry(d0: Seq<IfaceDumpView>, line: Seq<char>)
    requires
        distinct_ifaces(d0),
        split_on(line, '\t').len() == 5 || split_on(line, '\t').len() == 9,
    ensures
        ({
            let c = split_on(line, '\t');
            let d = apply_dump_line(d0, line);
            let (d2, k0) = entry_or_new(d0, c[0]);
            &&& has_iface(d, c[0])
            &&& iface_index(d, c[0]) == k0
            &&& 0 <= k0 < d.len()
            &&& d2[k0].iface == c[0]
            &&& d2[k0] == parsed_for(d0, c[0])
        }),
{
    let c = split_on(line, '\t');
    let (d2, k0) = entry_or_new(d0, c[0]);
    if has_iface(d0, c[0]) {
        assert(d2[k0].iface == c[0]);
    } else {
        assert(d2[k0] == empty_entry(c[0]));
    }
    let d = apply_dump_line(d0, line);
    lemma_apply_dump_line_distinct(d0, line);
    assert(d[k0].iface == c[0]);
    assert(has_iface(d, c[0]));
    let q = iface_index(d, c[0]);
    assert(d[q].iface == c[0]);
}

/// Reading a peer line (nine tab-separated columns) adds one peer, last, to the entry
/// of the interface in its first column, taking each field from its own column: public
/// key 1, endpoint 3, allowed IPs 4 (each absent when it reads `(none)`), the latest
/// handshake 5 (absent when zero or unreadable), received bytes 6 and sent bytes 7
/// (absent when unreadable); the entry's earlier peers and interface stay.
pub proof fn lemma_dump_peer_columns(ls: Seq<Seq<char>>)
    requires
        ls.len() > 0,
        split_on(ls.last(), '\t').len() == 9,
    ensures
        ({
            let c = split_on(ls.last(), '\t');
            let before = parsed_for(dump_of_lines(ls.drop_last()), c[0]);
            let d = dump_of_lines(ls);
            let e = d[iface_index(d, c[0])];
            let p = e.peers.last();
            &&& has_iface(d, c[0])
            &&& e.peers.len() == before.peers.len() + 1
            &&& e.peers.drop_last() == before.peers
            &&& e.interface == before.interface
            &&& p.public_key == col_text(c[1])
            &&& p.endpoint == col_text(c[3])
            &&& p.allowed_ips == col_text(c[4])
            &&& p.last_handshake == match parse_uint(c[5], 0xffff_ffff_ffff_ffff) {
                Some(n) => if n == 0 {
                    None
                } else {
                    Some(n as u64)
                },
                None => None,
            }
            &&& p.rx_bytes == match parse_uint(c[6], 0xffff_ffff_ffff_ffff) {
                Some(n) => Some(n as u64),
                None => None,
            }
            &&& p.tx_bytes == match parse_uint(c[7], 0xffff_ffff_ffff_ffff) {
                Some(n) => Some(n as u64),
                None => None,
            }
            &&& p.last_handshake_ago_seconds is None
            &&& p.last_handshake_ago_human is None
        }),
{
    reveal_strlit("(none)");
    assert("(none)"@ =~= none_marker());
    let d0 = dump_of_lines(ls.drop_last());
    lemma_dump_of_lines_distinct(ls.drop_last());
    lemma_dump_line_entry(d0, ls.last());
    let c = split_on(ls.last(), '\t');
    let d = dump_of_lines(ls);
    let (d2, k0) = entry_or_new(d0, c[0]);
    assert(d == apply_dump_line(d0, ls.last()));
    assert(d[k0].peers == d2[k0].peers.push(peer_of_cols(c)));
    assert(d[k0].peers.drop_last() =~= d2[k0].peers);
}

/// Reading an interface line (five tab-separated columns) sets the interface of the
/// entry named in its first column from its columns: public key 2 (absent when it
/// reads `(none)`) and listening port 3 (absent when zero or unreadable); the entry's
/// peers stay.
pub proof fn lemma_dump_interface_columns(ls: Seq<Seq<char>>)
    requires
        ls.len() > 0,
        split_on(ls.last(), '\t').len() == 5,
    ensures
        ({
            let c = split_on(ls.last(), '\t');
            let before = parsed_for(dump_of_lines(ls.drop_last()), c[0]);
            let d = dump_of_lines(ls);
            let e = d[iface_index(d, c[0])];
            &&& has_iface(d, c[0])
            &&& e.peers == before.peers
            &&& e.interface matches Some(i) && i.public_key == col_text(c[2]) && i.listen_port
                == match parse_uint(c[3], 65535) {
                Some(n) => if n == 0 {
                    None
                } else {
                    Some(n as u16)
                },
                None => None,
            }
        }),
{
    reveal_strlit("(none)");
    assert("(none)"@ =~= none_marker());
    let d0 = dump_of_lines(ls.drop_last());
    lemma_dump_of_lines_distinct(ls.drop_last());
    lemma_dump_line_entry(d0, ls.last());
    let d = dump_of_lines(ls);
    assert(d == apply_dump_line(d0, ls.last()));
}

} // verus!

verus! {

/// Whether two character sequences are equal.
pub fn chars_eq(a: &[char], b: &[char]) -> (r: bool)
    ensures
        r == (a@ == b@),
{
    if a.len() != b.len() {
        return false;
    }
    let mut i: usize = 0;
    while i < a.len()
        invariant
            a@.len() == b@.len(),
            i <= a@.len(),
            forall|j: int| 0 <= j < i ==> a@[j] == b@[j],
        decreases a@.len() - i,
    {
        if a[i] != b[i] {
            return false;
        }
        i = i + 1;
    }
    assert(a@ =~= b@);
    true
}

/// The column as a string, unless it reads `(none)`.
pub fn unless_none_col(c: &[char]) -> (r: Option<String>)
    ensures
        opt_str(r) == unless_none(c@),
{
    let marker = ['(', 'n', 'o', 'n', 'e', ')'];
    assert(marker@ =~= none_marker());
    if chars_eq(c, &marker) {
        None
    } else {
        Some(string_from_chars(c))
    }
}

/// Where the entry for `name` stands, if there is one.
pub fn find_iface(d: &Vec<IfaceDump>, name: &String) -> (r: Option<usize>)
    requires
        distinct_ifaces(dump_view(d@)),
    ensures
        match r {
            Some(i) => has_iface(dump_view(d@), name@) && i == iface_index(dump_view(d@), name@)
                && i < d@.len(),
            None => !has_iface(dump_view(d@), name@),
        },
{
    let ghost dv = dump_view(d@);
    let mut i: usize = 0;
    while i < d.len()
        invariant
            dv == dump_view(d@),
            distinct_ifaces(dv),
            i <= d@.len(),
            forall|j: int| 0 <= j < i ==> #[trigger] dv[j].iface != name@,
        decreases d@.len() - i,
    {
        if d[i].iface == *name {
            assert(dv[i as int].iface == name@);
            let ghost k = iface_index(dv, name@);
            assert(dv[k].iface == name@);
            return Some(i);
        }
        i = i + 1;
    }
    None
}

/// `HashMap::entry(name).or_default()` on the dump's entries.
fn entry_for(d: &mut Vec<IfaceDump>, name: String) -> (k: usize)
    requires
        distinct_ifaces(dump_view(old(d)@)),
    ensures
        (dump_view(final(d)@), k as int) == entry_or_new(dump_view(old(d)@), name@),
        k < final(d)@.len(),
{
    match find_iface(d, &name) {
        Some(i) => i,
        None => {
            let ghost before = dump_view(d@);
            let ghost nm = name@;
            let k = d.len();
            let fresh = IfaceDump { iface: name, interface: None, peers: Vec::new() };
            assert(peers_view(fresh.peers@) =~= Seq::<PeerView>::empty());
            assert(fresh@ == empty_entry(nm));
            d.push(fresh);
            assert(dump_view(d@) =~= before.push(empty_entry(nm)));
            k
        },
    }
}

/// A numeric column as a `u16` that is not zero.
fn nonzero_u16_col(c: &[char]) -> (r: Option<u16>)
    ensures
        r == opt_u16(nonzero(parse_uint(c@, 65535))),
{
    match parse_uint_chars(c, 65535) {
        Some(v) => if v == 0 {
            None
        } else {
            Some(v as u16)
        },
        None => None,
    }
}

/// A numeric column as a `u64`.
fn u64_col(c: &[char]) -> (r: Option<u64>)
    ensures
        r == opt_u64(parse_uint(c@, 0xffff_ffff_ffff_ffff)),
{
    parse_uint_chars(c, 0xffff_ffff_ffff_ffff)
}

/// A numeric column as a `u64` that is not zero.
fn nonzero_u64_col(c: &[char]) -> (r: Option<u64>)
    ensures
        r == opt_u64(nonzero(parse_uint(c@, 0xffff_ffff_ffff_ffff))),
{
    match parse_uint_chars(c, 0xffff_ffff_ffff_ffff) {
        Some(v) => if v == 0 {
            None
        } else {
            Some(v)
        },
        None => None,
    }
}

/// Applies one dump line to the entries gathered so far.
fn apply_line(d: &mut Vec<IfaceDump>, line: &[char])
    requires
        distinct_ifaces(dump_view(old(d)@)),
    ensures
        dump_view(final(d)@) == apply_dump_line(dump_view(old(d)@), line@),
        distinct_ifaces(dump_view(final(d)@)),
{
    let cols = split_chars(line, '\t');
    let ghost c = rows(cols@);
    proof {
        lemma_apply_dump_line_distinct(dump_view(d@), line@);
        assert(c.len() == cols@.len());
    }
    if cols.len() == 5 {
        proof {
            assert(c[0] == cols@[0]@);
            assert(c[2] == cols@[2]@);
            assert(c[3] == cols@[3]@);
        }
        let iface = string_from_chars(cols[0].as_slice());
        let info = InterfaceInfo {
            public_key: unless_none_col(cols[2].as_slice()),
            listen_port: nonzero_u16_col(cols[3].as_slice()),
        };
        let ghost mid_before = dump_view(d@);
        let k = entry_for(d, iface);
        let ghost d2 = dump_view(d@);
        assert(info@ == interface_of_cols(c));
        d[k].interface = Some(info);
        assert(dump_view(d@) =~= d2.update(
            k as int,
            IfaceDumpView { iface: d2[k as int].iface, interface: Some(interface_of_cols(c)), peers: d2[k as int].peers },
        ));
    } else if cols.len() == 9 {
        proof {
            assert(c[0] == cols@[0]@);
            assert(c[1] == cols@[1]@);
            assert(c[3] == cols@[3]@);
            assert(c[4] == cols@[4]@);
            assert(c[5] == cols@[5]@);
            assert(c[6] == cols@[6]@);
            assert(c[7] == cols@[7]@);
        }
        let iface = string_from_chars(cols[0].as_slice());
        let peer = PeerInfo {
            public_key: unless_none_col(cols[1].as_slice()),
            endpoint: unless_none_col(cols[3].as_slice()),
            allowed_ips: unless_none_col(cols[4].as_slice()),
            last_handshake: nonzero_u64_col(cols[5].as_slice()),
            last_handshake_ago_seconds: None,
            last_handshake_ago_human: None,
            rx_bytes: u64_col(cols[6].as_slice()),
            tx_bytes: u64_col(cols[7].as_slice()),
        };
        let k = entry_for(d, iface);
        let ghost d2 = dump_view(d@);
        assert(peer@ == peer_of_cols(c));
        let ghost old_peers = d@[k as int].peers@;
        d[k].peers.push(peer);
        assert(peers_view(d@[k as int].peers@) =~= peers_view(old_peers).push(peer_of_cols(c)));
        assert(dump_view(d@) =~= d2.update(
            k as int,
            IfaceDumpView {
                iface: d2[k as int].iface,
                interface: d2[k as int].interface,
                peers: d2[k as int].peers.push(peer_of_cols(c)),
            },
        ));
    }
}

/// Parses the output of `wg show all dump`. Per line: five tab-separated columns
/// (interface, private key, public key, listen port, fwmark) describe an interface;
/// nine (interface, public key, preshared key, endpoint, allowed ips, latest handshake,
/// rx, tx, keepalive) describe a peer. Entries come in order of first mention.
pub fn parse_dump(text: &str) -> (r: Vec<IfaceDump>)
    ensures
        dump_view(r@) == dump_of_text(text@),
        distinct_ifaces(dump_view(r@)),
{
    let chars = crate::text::chars_of(text);
    let ls = lines(chars.as_slice());
    let ghost lv = rows(ls@);
    let mut d: Vec<IfaceDump> = Vec::new();
    let mut i: usize = 0;
    assert(lv.take(0) =~= Seq::<Seq<char>>::empty());
    assert(dump_view(d@) =~= Seq::<IfaceDumpView>::empty());
    while i < ls.len()
        invariant
            lv == rows(ls@),
            lv == lines_of(chars@),
            chars@ == text@,
            i <= ls@.len(),
            dump_view(d@) == dump_of_lines(lv.take(i as int)),
            distinct_ifaces(dump_view(d@)),
        decreases ls@.len() - i,
    {
        apply_line(&mut d, ls[i].as_slice());
        assert(lv.take(i + 1).drop_last() =~= lv.take(i as int));
        assert(lv.take(i + 1).last() == ls@[i as int]@);
        i = i + 1;
    }
    assert(lv.take(i as int) =~= lv);
    d
}

} // verus!

verus! {

/// The byte counters of one profile at one moment.
#[derive(Debug, Clone, Copy, PartialEq, Eq)]
pub struct Sample {
    pub rx: u64,
    pub tx: u64,
}

/// The counters sampled for one profile id.
#[derive(Debug, Clone)]
pub struct SampleEntry {
    pub id: String,
    pub sample: Sample,
}

/// The counters of the previous status run, kept to derive transfer rates.
#[derive(Debug, Clone)]
pub struct State {
    pub timestamp_ms: u64,
    pub samples: Vec<SampleEntry>,
}

pub open spec fn sample_ids(s: Seq<SampleEntry>) -> Seq<Seq<char>> {
    s.map_values(|e: SampleEntry| e.id@)
}

/// The sample kept for `id` (the first one for it).
pub open spec fn sample_of(st: State, id: Seq<char>) -> Option<Sample> {
    let i = first_key(sample_ids(st.samples@), id);
    if i >= 0 {
        Some(st.samples@[i].sample)
    } else {
        None
    }
}

impl State {
    /// The sample kept for `id`, if any.
    pub fn sample_for(&self, id: &String) -> (r: Option<Sample>)
        ensures
            r == sample_of(*self, id@),
    {
        let ghost keys = sample_ids(self.samples@);
        let mut i: usize = 0;
        assert(keys.take(0) =~= Seq::<Seq<char>>::empty());
        while i < self.samples.len()
            invariant
                keys == sample_ids(self.samples@),
                i <= self.samples@.len(),
                first_key(keys.take(i as int), id@) == -1,
            decreases self.samples@.len() - i,
        {
            proof {
                lemma_first_key_prefix(keys, id@, i as int);
            }
            if self.samples[i].id == *id {
                proof {
                    lemma_first_key_prefix(keys, id@, i + 1);
                }
                return Some(self.samples[i].sample);
            }
            i = i + 1;
        }
        assert(keys.take(i as int) =~= keys);
        None
    }
}

/// What a transfer rate is computed from: the counters' growth over the elapsed time.
#[derive(Debug, Clone, Copy, PartialEq, Eq)]
pub struct RateBasis {
    pub rx_delta: u64,
    pub tx_delta: u64,
    pub elapsed_ms: u64,
}

/// A rate can be derived when the previous run sampled `id` between 50 ms and ten
/// minutes ago and neither counter went backwards.
pub open spec fn rate_basis_spec(id: Seq<char>, rx: u64, tx: u64, now_ms: u64, prev: Option<State>) -> Option<RateBasis> {
    match prev {
        None => None,
        Some(p) => match sample_of(p, id) {
            None => None,
            Some(s) => {
                let delta = if now_ms >= p.timestamp_ms {
                    (now_ms - p.timestamp_ms) as u64
                } else {
                    0u64
                };
                if 50 <= delta <= 600_000 && rx >= s.rx && tx >= s.tx {
                    Some(RateBasis { rx_delta: (rx - s.rx) as u64, tx_delta: (tx - s.tx) as u64, elapsed_ms: delta })
                } else {
                    None
                }
            },
        },
    }
}

/// A rate is derived only from a sample taken 50 ms to ten minutes before, with
/// neither counter lower now, and then from exactly the counters' growth.
pub proof fn lemma_rate_basis_window(id: Seq<char>, rx: u64, tx: u64, now_ms: u64, prev: Option<State>)
    requires
        rate_basis_spec(id, rx, tx, now_ms, prev) is Some,
    ensures
        ({
            let b = rate_basis_spec(id, rx, tx, now_ms, prev)->Some_0;
            let p = prev->Some_0;
            let s = sample_of(p, id)->Some_0;
            &&& prev is Some && sample_of(p, id) is Some
            &&& 50 <= b.elapsed_ms <= 600_000
            &&& now_ms == p.timestamp_ms + b.elapsed_ms
            &&& rx == s.rx + b.rx_delta && tx == s.tx + b.tx_delta
        }),
{
}

/// Transfer totals of one active profile.
#[derive(Debug, Clone)]
pub struct Totals {
    pub rx_bytes: u64,
    pub tx_bytes: u64,
    pub rx_human: String,
    pub tx_human: String,
    pub rx_per_sec: Option<u64>,
    pub tx_per_sec: Option<u64>,
    pub rx_per_sec_human: Option<String>,
    pub tx_per_sec_human: Option<String>,
}

pub struct TotalsView {
    pub rx_bytes: u64,
    pub tx_bytes: u64,
    pub rx_human: Seq<char>,
    pub tx_human: Seq<char>,
    pub rx_per_sec: Option<u64>,
    pub tx_per_sec: Option<u64>,
    pub rx_per_sec_human: Option<Seq<char>>,
    pub tx_per_sec_human: Option<Seq<char>>,
}

impl View for Totals {
    type V = TotalsView;

    open spec fn view(&self) -> TotalsView {
        TotalsView {
            rx_bytes: self.rx_bytes,
            tx_bytes: self.tx_bytes,
            rx_human: self.rx_human@,
            tx_human: self.tx_human@,
            rx_per_sec: self.rx_per_sec,
            tx_per_sec: self.tx_per_sec,
            rx_per_sec_human: opt_str(self.rx_per_sec_human),
            tx_per_sec_human: opt_str(self.tx_per_sec_human),
        }
    }
}

/// Totals before any rate is known.
pub open spec fn base_totals(rx: u64, tx: u64) -> TotalsView {
    TotalsView {
        rx_bytes: rx,
        tx_bytes: tx,
        rx_human: bytes_human_spec(rx as nat),
        tx_human: bytes_human_spec(tx as nat),
        rx_per_sec: None,
        tx_per_sec: None,
        rx_per_sec_human: None,
        tx_per_sec_human: None,
    }
}

/// A rate as shown: `1.50 KiB/s`.
pub open spec fn per_sec_human(r: u64) -> Seq<char> {
    bytes_human_spec(r as nat) + seq!['/', 's']
}

/// Totals with the transfer rates set.
pub open spec fn with_rates(t: TotalsView, rx_rate: u64, tx_rate: u64) -> TotalsView {
    TotalsView {
        rx_bytes: t.rx_bytes,
        tx_bytes: t.tx_bytes,
        rx_human: t.rx_human,
        tx_human: t.tx_human,
        rx_per_sec: Some(rx_rate),
        tx_per_sec: Some(tx_rate),
        rx_per_sec_human: Some(per_sec_human(rx_rate)),
        tx_per_sec_human: Some(per_sec_human(tx_rate)),
    }
}

fn per_sec_text(r: u64) -> (s: String)
    ensures
        s@ == per_sec_human(r),
{
    let h = bytes_human(r);
    let mut v = crate::text::chars_of(h.as_str());
    v.push('/');
    v.push('s');
    assert(v@ =~= per_sec_human(r));
    string_from_chars(v.as_slice())
}

impl Totals {
    /// Sets the transfer rates, in bytes per second.
    pub fn set_rates(&mut self, rx_rate: u64, tx_rate: u64)
        ensures
            final(self)@ == with_rates(old(self)@, rx_rate, tx_rate),
    {
        self.rx_per_sec = Some(rx_rate);
        self.tx_per_sec = Some(tx_rate);
        self.rx_per_sec_human = Some(per_sec_text(rx_rate));
        self.tx_per_sec_human = Some(per_sec_text(tx_rate));
    }
}

/// The totals of profile `id` from its summed counters `totals_raw`, and what a rate
/// would be derived from when the previous run's sample allows one. The rate itself,
/// a float division, is left to the caller (`Totals::set_rates`).
pub fn build_totals(id: &String, totals_raw: (u64, u64), now_ms: u64, prev: &Option<State>) -> (r: (
    Totals,
    Option<RateBasis>,
))
    ensures
        r.0@ == base_totals(totals_raw.0, totals_raw.1),
        r.1 == rate_basis_spec(id@, totals_raw.0, totals_raw.1, now_ms, *prev),
{
    let (rx, tx) = totals_raw;
    let totals = Totals {
        rx_bytes: rx,
        tx_bytes: tx,
        rx_human: bytes_human(rx),
        tx_human: bytes_human(tx),
        rx_per_sec: None,
        tx_per_sec: None,
        rx_per_sec_human: None,
        tx_per_sec_human: None,
    };
    let basis = match prev {
        None => None,
        Some(p) => match p.sample_for(id) {
            None => None,
            Some(s) => {
                let delta = now_ms.saturating_sub(p.timestamp_ms);
                if 50 <= delta && delta <= 600_000 && rx >= s.rx && tx >= s.tx {
                    Some(RateBasis { rx_delta: rx - s.rx, tx_delta: tx - s.tx, elapsed_ms: delta })
                } else {
                    None
                }
            },
        },
    };
    (totals, basis)
}

/// A peer with its handshake's age filled in, when the handshake happened at or
/// before `now_secs`.
pub open spec fn enrich_peer_spec(p: PeerView, now_secs: u64) -> PeerView {
    match p.last_handshake {
        Some(hs) => if hs > 0 && now_secs >= hs {
            PeerView {
                public_key: p.public_key,
                endpoint: p.endpoint,
                allowed_ips: p.allowed_ips,
                last_handshake: p.last_handshake,
                last_handshake_ago_seconds: Some((now_secs - hs) as u64),
                last_handshake_ago_human: Some(relative_seconds_spec((now_secs - hs) as nat)),
                rx_bytes: p.rx_bytes,
                tx_bytes: p.tx_bytes,
            }
        } else {
            p
        },
        None => p,
    }
}

/// Fills in how long ago the peer's last handshake was.
pub fn enrich_peer(p: PeerInfo, now_secs: u64) -> (r: PeerInfo)
    ensures
        r@ == enrich_peer_spec(p@, now_secs),
{
    let mut p = p;
    if let Some(hs) = p.last_handshake {
        if hs > 0 && now_secs >= hs {
            let ago = now_secs - hs;
            p.last_handshake_ago_seconds = Some(ago);
            p.last_handshake_ago_human = Some(relative_seconds(ago));
        }
    }
    p
}

} // verus!

verus! {

/// The configuration name of kernel interface `iface`: its mapped name, else itself.
pub open spec fn config_name_for(map: Map<Seq<char>, Seq<char>>, iface: Seq<char>) -> Seq<char> {
    if map.contains_key(iface) {
        map[iface]
    } else {
        iface
    }
}

/// Files one interface's dump entry under its configuration name: the first interface
/// description seen stays, peers accumulate.
pub open spec fn merge_iface(
    out: Seq<IfaceDumpView>,
    e: IfaceDumpView,
    map: Map<Seq<char>, Seq<char>>,
) -> Seq<IfaceDumpView> {
    let (d2, k) = entry_or_new(out, config_name_for(map, e.iface));
    d2.update(
        k,
        IfaceDumpView {
            iface: d2[k].iface,
            interface: if d2[k].interface is None {
                e.interface
            } else {
                d2[k].interface
            },
            peers: d2[k].peers + e.peers,
        },
    )
}

/// The dump entries renamed from kernel interface to configuration name, in order.
pub open spec fn translated(raw: Seq<IfaceDumpView>, map: Map<Seq<char>, Seq<char>>) -> Seq<IfaceDumpView>
    decreases raw.len(),
{
    if raw.len() == 0 {
        Seq::empty()
    } else {
        merge_iface(translated(raw.drop_last(), map), raw.last(), map)
    }
}

pub proof fn lemma_merge_iface_distinct(out: Seq<IfaceDumpView>, e: IfaceDumpView, map: Map<Seq<char>, Seq<char>>)
    requires
        distinct_ifaces(out),
    ensures
        distinct_ifaces(merge_iface(out, e, map)),
{
    let (d2, k) = entry_or_new(out, config_name_for(map, e.iface));
    assert(distinct_ifaces(d2));
}

pub proof fn lemma_translated_distinct(raw: Seq<IfaceDumpView>, map: Map<Seq<char>, Seq<char>>)
    ensures
        distinct_ifaces(translated(raw, map)),
    decreases raw.len(),
{
    if raw.len() > 0 {
        lemma_translated_distinct(raw.drop_last(), map);
        lemma_merge_iface_distinct(translated(raw.drop_last(), map), raw.last(), map);
    }
}

/// With no interface name mapped to another and no name repeated, renaming changes
/// nothing: the entries come back as they were, in order.
pub proof fn lemma_translate_identity(raw: Seq<IfaceDumpView>, map: Map<Seq<char>, Seq<char>>)
    requires
        distinct_ifaces(raw),
        forall|i: int| 0 <= i < raw.len() ==> !map.contains_key(#[trigger] raw[i].iface),
    ensures
        translated(raw, map) == raw,
    decreases raw.len(),
{
    if raw.len() > 0 {
        let d = raw.drop_last();
        let e = raw.last();
        assert forall|i: int| 0 <= i < d.len() implies !map.contains_key(#[trigger] d[i].iface) by {
            assert(d[i] == raw[i]);
        }
        assert(distinct_ifaces(d)) by {
            assert forall|i: int, j: int|
                0 <= i < d.len() && 0 <= j < d.len() && i != j implies #[trigger] d[i].iface
                != #[trigger] d[j].iface by {
                assert(d[i] == raw[i] && d[j] == raw[j]);
            }
        }
        lemma_translate_identity(d, map);
        assert(!map.contains_key(raw[raw.len() - 1].iface));
        assert(config_name_for(map, e.iface) == e.iface);
        assert(!has_iface(d, e.iface)) by {
            if has_iface(d, e.iface) {
                let i = choose|i: int| 0 <= i < d.len() && #[trigger] d[i].iface == e.iface;
                assert(raw[i].iface == raw[raw.len() - 1].iface);
            }
        }
        let d2 = d.push(empty_entry(e.iface));
        let k = d.len() as int;
        assert(d2[k].peers + e.peers =~= e.peers);
        assert(merge_iface(d, e, map) =~= raw);
    }
}

/// Renames the dump's entries from kernel interface names to configuration names,
/// merging entries that land on one name.
pub fn translate_keys(raw: Vec<IfaceDump>, kernel_to_cfg: &NameMap) -> (r: Vec<IfaceDump>)
    ensures
        dump_view(r@) == translated(dump_view(raw@), kernel_to_cfg.as_map()),
        distinct_ifaces(dump_view(r@)),
{
    let ghost rv = dump_view(raw@);
    let ghost map = kernel_to_cfg.as_map();
    let mut rest = raw;
    let mut out: Vec<IfaceDump> = Vec::new();
    let mut i: usize = 0;
    let n = rest.len();
    assert(rv.take(0) =~= Seq::<IfaceDumpView>::empty());
    assert(dump_view(out@) =~= Seq::<IfaceDumpView>::empty());
    while rest.len() > 0
        invariant
            map == kernel_to_cfg.as_map(),
            rv.len() == n,
            i + rest@.len() == n,
            dump_view(rest@) == rv.skip(i as int),
            dump_view(out@) == translated(rv.take(i as int), map),
            distinct_ifaces(dump_view(out@)),
        decreases rest@.len(),
    {
        let ghost before_rest = dump_view(rest@);
        let ghost before_vec = rest@;
        let e = rest.remove(0);
        proof {
            assert(rest@ =~= before_vec.subrange(1, before_vec.len() as int));
            assert(dump_view(rest@) =~= before_rest.subrange(1, before_rest.len() as int));
            assert(e@ == rv[i as int]) by {
                assert(before_rest[0] == rv.skip(i as int)[0]);
            }
            assert(dump_view(rest@) =~= rv.skip(i + 1));
            assert(rv.take(i + 1).drop_last() =~= rv.take(i as int));
            assert(rv.take(i + 1).last() == rv[i as int]);
            lemma_merge_iface_distinct(dump_view(out@), e@, map);
        }
        let name = match kernel_to_cfg.get(&e.iface) {
            Some(c) => c.clone(),
            None => e.iface.clone(),
        };
        assert(name@ == config_name_for(map, e@.iface));
        let ghost ev = e@;
        let k = entry_for(&mut out, name);
        let ghost d2 = dump_view(out@);
        let IfaceDump { iface: _, interface, peers } = e;
        let mut peers = peers;
        if out[k].interface.is_none() {
            out[k].interface = interface;
        }
        let ghost old_peers = out@[k as int].peers@;
        out[k].peers.append(&mut peers);
        assert(peers_view(out@[k as int].peers@) =~= peers_view(old_peers) + ev.peers);
        assert(dump_view(out@) =~= d2.update(
            k as int,
            IfaceDumpView {
                iface: d2[k as int].iface,
                interface: if d2[k as int].interface is None {
                    ev.interface
                } else {
                    d2[k as int].interface
                },
                peers: d2[k as int].peers + ev.peers,
            },
        ));
        i = i + 1;
    }
    assert(rv.take(i as int) =~= rv);
    out
}

} // verus!

verus! {

/// An interface description equal to `x`.
pub fn copy_interface(x: &InterfaceInfo) -> (r: InterfaceInfo)
    ensures
        r == *x,
{
    InterfaceInfo { public_key: clone_opt(&x.public_key), listen_port: x.listen_port }
}

/// A peer equal to `p`.
pub fn copy_peer(p: &PeerInfo) -> (r: PeerInfo)
    ensures
        r == *p,
{
    PeerInfo {
        public_key: clone_opt(&p.public_key),
        endpoint: clone_opt(&p.endpoint),
        allowed_ips: clone_opt(&p.allowed_ips),
        last_handshake: p.last_handshake,
        last_handshake_ago_seconds: p.last_handshake_ago_seconds,
        last_handshake_ago_human: clone_opt(&p.last_handshake_ago_human),
        rx_bytes: p.rx_bytes,
        tx_bytes: p.tx_bytes,
    }
}

/// `a + b` wrapping around at 2^64 (release-build `u64` addition).
pub open spec fn wrap_add(a: u64, b: u64) -> u64 {
    ((a + b) % 0x1_0000_0000_0000_0000) as u64
}

fn wrapping_sum(a: u64, b: u64) -> (r: u64)
    ensures
        r == wrap_add(a, b),
{
    if a <= 0xffff_ffff_ffff_ffff - b {
        a + b
    } else {
        b - (0xffff_ffff_ffff_ffff - a) - 1
    }
}

pub open spec fn unwrap_or_zero(v: Option<u64>) -> u64 {
    match v {
        Some(x) => x,
        None => 0,
    }
}

/// The received bytes of all peers (an unknown count is zero).
pub open spec fn rx_sum(ps: Seq<PeerView>) -> u64
    decreases ps.len(),
{
    if ps.len() == 0 {
        0
    } else {
        wrap_add(rx_sum(ps.drop_last()), unwrap_or_zero(ps.last().rx_bytes))
    }
}

/// The sent bytes of all peers (an unknown count is zero).
pub open spec fn tx_sum(ps: Seq<PeerView>) -> u64
    decreases ps.len(),
{
    if ps.len() == 0 {
        0
    } else {
        wrap_add(tx_sum(ps.drop_last()), unwrap_or_zero(ps.last().tx_bytes))
    }
}

pub open spec fn enriched(ps: Seq<PeerView>, now_secs: u64) -> Seq<PeerView> {
    ps.map_values(|p: PeerView| enrich_peer_spec(p, now_secs))
}

/// The status of one profile.
#[derive(Debug)]
pub struct ProfileStatus {
    pub id: String,
    pub label: Option<String>,
    pub description: Option<String>,
    pub emoji: Option<String>,
    pub active: bool,
    pub interface: Option<InterfaceInfo>,
    pub totals: Option<Totals>,
    pub peers: Vec<PeerInfo>,
}

pub struct ProfileStatusView {
    pub id: Seq<char>,
    pub label: Option<Seq<char>>,
    pub description: Option<Seq<char>>,
    pub emoji: Option<Seq<char>>,
    pub active: bool,
    pub interface: Option<InterfaceView>,
    pub totals: Option<TotalsView>,
    pub peers: Seq<PeerView>,
}

pub open spec fn opt_totals_view(t: Option<Totals>) -> Option<TotalsView> {
    match t {
        Some(x) => Some(x@),
        None => None,
    }
}

impl View for ProfileStatus {
    type V = ProfileStatusView;

    open spec fn view(&self) -> ProfileStatusView {
        ProfileStatusView {
            id: self.id@,
            label: opt_str(self.label),
            description: opt_str(self.description),
            emoji: opt_str(self.emoji),
            active: self.active,
            interface: opt_iface_view(self.interface),
            totals: opt_totals_view(self.totals),
            peers: peers_view(self.peers@),
        }
    }
}

/// The current connection state.
#[derive(Debug)]
pub struct Snapshot {
    pub current: Option<String>,
    pub active: Vec<String>,
    pub profiles: Vec<ProfileStatus>,
}

pub open spec fn statuses_view(p: Seq<ProfileStatus>) -> Seq<ProfileStatusView> {
    p.map_values(|x: ProfileStatus| x@)
}

pub open spec fn status_ids(p: Seq<ProfileStatus>) -> Seq<Seq<char>> {
    p.map_values(|x: ProfileStatus| x.id@)
}

/// The dump entry of configuration `id`, or an empty one.
pub open spec fn parsed_for(d: Seq<IfaceDumpView>, id: Seq<char>) -> IfaceDumpView {
    if has_iface(d, id) {
        d[iface_index(d, id)]
    } else {
        empty_entry(id)
    }
}

/// The status of profile `id`: its metadata, and for an active profile its interface,
/// totals (without rates) and peers (with handshake ages); an inactive one shows none of these.
pub open spec fn status_of(
    cfg: Config,
    active: Seq<Seq<char>>,
    parsed: Seq<IfaceDumpView>,
    id: Seq<char>,
    now_ms: u64,
) -> ProfileStatusView {
    let meta = cfg.meta_of(id);
    let is_active = active.contains(id);
    let e = parsed_for(parsed, id);
    ProfileStatusView {
        id: id,
        label: match meta {
            Some(m) => opt_str(m.label),
            None => None,
        },
        description: match meta {
            Some(m) => opt_str(m.description),
            None => None,
        },
        emoji: match meta {
            Some(m) => opt_str(m.emoji),
            None => None,
        },
        active: is_active,
        interface: if is_active {
            e.interface
        } else {
            None
        },
        totals: if is_active {
            Some(base_totals(rx_sum(e.peers), tx_sum(e.peers)))
        } else {
            None
        },
        peers: if is_active {
            enriched(e.peers, (now_ms / 1000) as u64)
        } else {
            Seq::empty()
        },
    }
}

/// A profile's label, description and emoji are those of the first metadata entry
/// configured for its id, and all absent when none is configured; whether it is active,
/// what the dump holds and the time play no part in them.
pub proof fn lemma_status_metadata_from_config(
    cfg: Config,
    active: Seq<Seq<char>>,
    parsed: Seq<IfaceDumpView>,
    id: Seq<char>,
    now_ms: u64,
)
    ensures
        (forall|j: int| 0 <= j < cfg.profiles@.len() ==> #[trigger] cfg.profiles@[j].id@ != id) ==> ({
            let s = status_of(cfg, active, parsed, id, now_ms);
            &&& s.label is None
            &&& s.description is None
            &&& s.emoji is None
        }),
        forall|j: int|
            0 <= j < cfg.profiles@.len() && #[trigger] cfg.profiles@[j].id@ == id && (forall|k: int|
                0 <= k < j ==> cfg.profiles@[k].id@ != id) ==> ({
                let s = status_of(cfg, active, parsed, id, now_ms);
                let m = cfg.profiles@[j].meta;
                &&& s.label == opt_str(m.label)
                &&& s.description == opt_str(m.description)
                &&& s.emoji == opt_str(m.emoji)
            }),
        forall|a2: Seq<Seq<char>>, p2: Seq<IfaceDumpView>, t2: u64|
            {
                let s = status_of(cfg, active, parsed, id, now_ms);
                let s2 = #[trigger] status_of(cfg, a2, p2, id, t2);
                &&& s2.label == s.label
                &&& s2.description == s.description
                &&& s2.emoji == s.emoji
            },
{
    let keys = crate::config::entry_ids(cfg.profiles@);
    lemma_first_key_range(keys, id);
    assert forall|j: int| 0 <= j < keys.len() implies keys[j] == #[trigger] cfg.profiles@[j].id@ by {}
    if forall|j: int| 0 <= j < cfg.profiles@.len() ==> #[trigger] cfg.profiles@[j].id@ != id {
        assert(!keys.contains(id)) by {
            if keys.contains(id) {
                let j = choose|j: int| 0 <= j < keys.len() && keys[j] == id;
                assert(cfg.profiles@[j].id@ == id);
            }
        }
    }
    assert forall|j: int|
        0 <= j < cfg.profiles@.len() && #[trigger] cfg.profiles@[j].id@ == id && (forall|k: int|
            0 <= k < j ==> cfg.profiles@[k].id@ != id) implies cfg.meta_of(id) == Some(
        cfg.profiles@[j].meta,
    ) by {
        assert(keys[j] == id);
        assert(keys.contains(id));
        let f = first_key(keys, id);
        if f < j {
            assert(keys[f] == id);
            assert(cfg.profiles@[f].id@ != id);
        } else if f > j {
            assert(keys[j] != id);
        }
    }
}

/// The samples kept of a run over the profile ids `ids`: one per active profile, in order.
pub open spec fn samples_spec(ids: Seq<Seq<char>>, active: Seq<Seq<char>>, parsed: Seq<IfaceDumpView>) -> Seq<(Seq<char>, Sample)>
    decreases ids.len(),
{
    if ids.len() == 0 {
        Seq::empty()
    } else {
        let s = samples_spec(ids.drop_last(), active, parsed);
        let id = ids.last();
        if active.contains(id) {
            let e = parsed_for(parsed, id);
            s.push((id, Sample { rx: rx_sum(e.peers), tx: tx_sum(e.peers) }))
        } else {
            s
        }
    }
}

/// The rates left to compute: for each active profile that the previous run allows a
/// rate for, its position among the profiles and what the rate comes from.
pub open spec fn rates_spec(
    ids: Seq<Seq<char>>,
    active: Seq<Seq<char>>,
    parsed: Seq<IfaceDumpView>,
    now_ms: u64,
    prev: Option<State>,
) -> Seq<(int, RateBasis)>
    decreases ids.len(),
{
    if ids.len() == 0 {
        Seq::empty()
    } else {
        let s = rates_spec(ids.drop_last(), active, parsed, now_ms, prev);
        let id = ids.last();
        let e = parsed_for(parsed, id);
        if active.contains(id) {
            match rate_basis_spec(id, rx_sum(e.peers), tx_sum(e.peers), now_ms, prev) {
                Some(b) => s.push((ids.len() - 1, b)),
                None => s,
            }
        } else {
            s
        }
    }
}

/// A transfer rate still to compute for the profile at `index`.
#[derive(Debug, Clone, Copy)]
pub struct PendingRate {
    pub index: usize,
    pub basis: RateBasis,
}

/// A status run's outcome: the snapshot, the state to keep for the next run, and the
/// rates to fill in.
#[derive(Debug)]
pub struct Collected {
    pub snapshot: Snapshot,
    pub state: State,
    pub rates: Vec<PendingRate>,
}

pub open spec fn samples_view(s: Seq<SampleEntry>) -> Seq<(Seq<char>, Sample)> {
    s.map_values(|e: SampleEntry| (e.id@, e.sample))
}

pub open spec fn rates_view(r: Seq<PendingRate>) -> Seq<(int, RateBasis)> {
    r.map_values(|x: PendingRate| (x.index as int, x.basis))
}

/// The only active configuration, when exactly one is active.
pub open spec fn current_of(active: Seq<Seq<char>>) -> Option<Seq<char>> {
    if active.len() == 1 {
        Some(active[0])
    } else {
        None
    }
}

/// Whether `s` is among `v`.
pub fn contains_string(v: &Vec<String>, s: &String) -> (r: bool)
    ensures
        r == strs(v@).contains(s@),
{
    let mut i: usize = 0;
    while i < v.len()
        invariant
            i <= v@.len(),
            forall|j: int| 0 <= j < i ==> strs(v@)[j] != s@,
        decreases v@.len() - i,
    {
        if v[i] == *s {
            assert(strs(v@)[i as int] == s@);
            return true;
        }
        i = i + 1;
    }
    false
}

} // verus!

verus! {

/// The profile ids to report: those discovered among `conf_file_names` and the active
/// ones, sorted, each once.
pub fn all_ids(conf_file_names: &Vec<String>, active: &Vec<String>) -> (r: Vec<String>)
    ensures
        strictly_sorted(strs(r@)),
        strs(r@).to_set() == conf_ids(strs(conf_file_names@)) + strs(active@).to_set(),
{
    let mut ids = discover_ids(conf_file_names);
    let ghost base = conf_ids(strs(conf_file_names@));
    let ghost av = strs(active@);
    let mut i: usize = 0;
    assert(av.take(0).to_set() =~= Set::<Seq<char>>::empty());
    assert(strs(ids@).to_set() =~= base + av.take(0).to_set());
    while i < active.len()
        invariant
            base == conf_ids(strs(conf_file_names@)),
            av == strs(active@),
            i <= active@.len(),
            strictly_sorted(strs(ids@)),
            strs(ids@).to_set() == base + av.take(i as int).to_set(),
        decreases active@.len() - i,
    {
        let a = active[i].clone();
        assert(a@ == av[i as int]);
        insert_sorted(&mut ids, a);
        proof {
            assert(av.take(i + 1) =~= av.take(i as int).push(av[i as int]));
            av.take(i as int).lemma_push_to_set_commute(av[i as int]);
        }
        i = i + 1;
        assert(strs(ids@).to_set() =~= base + av.take(i as int).to_set());
    }
    assert(av.take(i as int) =~= av);
    ids
}

/// The counters of a peer list, summed.
fn sums(peers: &Vec<PeerInfo>) -> (r: (u64, u64))
    ensures
        r.0 == rx_sum(peers_view(peers@)),
        r.1 == tx_sum(peers_view(peers@)),
{
    let ghost pv = peers_view(peers@);
    let mut rx: u64 = 0;
    let mut tx: u64 = 0;
    let mut i: usize = 0;
    assert(pv.take(0) =~= Seq::<PeerView>::empty());
    while i < peers.len()
        invariant
            pv == peers_view(peers@),
            i <= peers@.len(),
            rx == rx_sum(pv.take(i as int)),
            tx == tx_sum(pv.take(i as int)),
        decreases peers@.len() - i,
    {
        let r = match peers[i].rx_bytes {
            Some(x) => x,
            None => 0,
        };
        let t = match peers[i].tx_bytes {
            Some(x) => x,
            None => 0,
        };
        assert(pv.take(i + 1).drop_last() =~= pv.take(i as int));
        assert(pv.take(i + 1).last() == pv[i as int]);
        rx = wrapping_sum(rx, r);
        tx = wrapping_sum(tx, t);
        i = i + 1;
    }
    assert(pv.take(i as int) =~= pv);
    (rx, tx)
}

/// The peers with their handshake ages filled in.
fn enrich_all(peers: &Vec<PeerInfo>, now_secs: u64) -> (r: Vec<PeerInfo>)
    ensures
        peers_view(r@) == enriched(peers_view(peers@), now_secs),
{
    let ghost pv = peers_view(peers@);
    let mut out: Vec<PeerInfo> = Vec::new();
    let mut i: usize = 0;
    while i < peers.len()
        invariant
            pv == peers_view(peers@),
            i <= peers@.len(),
            peers_view(out@) == enriched(pv.take(i as int), now_secs),
        decreases peers@.len() - i,
    {
        let p = enrich_peer(copy_peer(&peers[i]), now_secs);
        let ghost prev = peers_view(out@);
        out.push(p);
        assert(peers_view(out@) =~= prev.push(enrich_peer_spec(pv[i as int], now_secs)));
        assert(enriched(pv.take(i + 1), now_secs) =~= enriched(pv.take(i as int), now_secs).push(
            enrich_peer_spec(pv[i as int], now_secs),
        ));
        i = i + 1;
    }
    assert(pv.take(i as int) =~= pv);
    out
}

/// The status of one profile, with the sample to keep and the rate basis when active.
fn profile_status(
    cfg: &Config,
    active: &Vec<String>,
    parsed: &Vec<IfaceDump>,
    id: &String,
    now_ms: u64,
    prev: &Option<State>,
) -> (r: (ProfileStatus, Option<Sample>, Option<RateBasis>))
    requires
        distinct_ifaces(dump_view(parsed@)),
    ensures
        r.0@ == status_of(*cfg, strs(active@), dump_view(parsed@), id@, now_ms),
        r.1 == (if strs(active@).contains(id@) {
            let e = parsed_for(dump_view(parsed@), id@);
            Some(Sample { rx: rx_sum(e.peers), tx: tx_sum(e.peers) })
        } else {
            None::<Sample>
        }),
        r.2 == (if strs(active@).contains(id@) {
            let e = parsed_for(dump_view(parsed@), id@);
            rate_basis_spec(id@, rx_sum(e.peers), tx_sum(e.peers), now_ms, *prev)
        } else {
            None::<RateBasis>
        }),
{
    let meta = cfg.meta_or_empty(id.as_str());
    let is_active = contains_string(active, id);
    let ghost pv = dump_view(parsed@);
    let found = find_iface(parsed, id);
    let (interface, peers_raw): (Option<InterfaceInfo>, Vec<PeerInfo>) = match found {
        Some(k) => {
            let iface = match &parsed[k].interface {
                Some(x) => Some(copy_interface(x)),
                None => None,
            };
            let mut ps: Vec<PeerInfo> = Vec::new();
            let mut j: usize = 0;
            while j < parsed[k].peers.len()
                invariant
                    k < parsed@.len(),
                    j <= parsed@[k as int].peers@.len(),
                    ps@ == parsed@[k as int].peers@.take(j as int),
                decreases parsed@[k as int].peers@.len() - j,
            {
                ps.push(copy_peer(&parsed[k].peers[j]));
                j = j + 1;
                assert(ps@ =~= parsed@[k as int].peers@.take(j as int));
            }
            assert(ps@ =~= parsed@[k as int].peers@);
            (iface, ps)
        },
        None => {
            assert(peers_view(Seq::<PeerInfo>::empty()) =~= Seq::<PeerView>::empty());
            (None, Vec::new())
        },
    };
    let ghost e = parsed_for(pv, id@);
    assert(opt_iface_view(interface) == e.interface);
    assert(peers_view(peers_raw@) == e.peers);
    if is_active {
        let (rx, tx) = sums(&peers_raw);
        let (totals, basis) = build_totals(id, (rx, tx), now_ms, prev);
        let peers = enrich_all(&peers_raw, now_ms / 1000);
        let st = ProfileStatus {
            id: id.clone(),
            label: meta.label,
            description: meta.description,
            emoji: meta.emoji,
            active: true,
            interface,
            totals: Some(totals),
            peers,
        };
        (st, Some(Sample { rx, tx }), basis)
    } else {
        let st = ProfileStatus {
            id: id.clone(),
            label: meta.label,
            description: meta.description,
            emoji: meta.emoji,
            active: false,
            interface: None,
            totals: None,
            peers: Vec::new(),
        };
        assert(peers_view(st.peers@) =~= Seq::<PeerView>::empty());
        (st, None, None)
    }
}

} // verus!

verus! {

/// One status run, from what the system told: the configured metadata `cfg`, the
/// `active` configuration names, the kernel-to-configuration map, the entries of the
/// WireGuard directories, `wg show all dump` output, the time, and the previous run's
/// state. Reports every discovered or active profile, sorted by id.
pub fn collect(
    cfg: &Config,
    active: &Vec<String>,
    kernel_to_cfg: &NameMap,
    conf_file_names: &Vec<String>,
    dump: &str,
    now_ms: u64,
    prev: &Option<State>,
) -> (r: Collected)
    ensures
        ({
            let ids = status_ids(r.snapshot.profiles@);
            let parsed = translated(dump_of_text(dump@), kernel_to_cfg.as_map());
            &&& strictly_sorted(ids)
            &&& ids.to_set() == conf_ids(strs(conf_file_names@)) + strs(active@).to_set()
            &&& forall|i: int|
                0 <= i < ids.len() ==> #[trigger] statuses_view(r.snapshot.profiles@)[i] == status_of(
                    *cfg,
                    strs(active@),
                    parsed,
                    ids[i],
                    now_ms,
                )
            &&& strs(r.snapshot.active@) == strs(active@)
            &&& opt_str(r.snapshot.current) == current_of(strs(active@))
            &&& r.state.timestamp_ms == now_ms
            &&& samples_view(r.state.samples@) == samples_spec(ids, strs(active@), parsed)
            &&& rates_view(r.rates@) == rates_spec(ids, strs(active@), parsed, now_ms, *prev)
        }),
{
    let ids = all_ids(conf_file_names, active);
    let raw = parse_dump(dump);
    let parsed = translate_keys(raw, kernel_to_cfg);
    let ghost idv = strs(ids@);
    let ghost av = strs(active@);
    let ghost pv = dump_view(parsed@);
    let mut profiles: Vec<ProfileStatus> = Vec::new();
    let mut samples: Vec<SampleEntry> = Vec::new();
    let mut rates: Vec<PendingRate> = Vec::new();
    let mut i: usize = 0;
    assert(idv.take(0) =~= Seq::<Seq<char>>::empty());
    assert(samples_view(samples@) =~= Seq::<(Seq<char>, Sample)>::empty());
    assert(rates_view(rates@) =~= Seq::<(int, RateBasis)>::empty());
    while i < ids.len()
        invariant
            idv == strs(ids@),
            av == strs(active@),
            pv == dump_view(parsed@),
            pv == translated(dump_of_text(dump@), kernel_to_cfg.as_map()),
            distinct_ifaces(pv),
            i <= ids@.len(),
            profiles@.len() == i,
            forall|j: int|
                0 <= j < i ==> #[trigger] profiles@[j].id@ == idv[j] && profiles@[j]@ == status_of(
                    *cfg,
                    av,
                    pv,
                    idv[j],
                    now_ms,
                ),
            samples_view(samples@) == samples_spec(idv.take(i as int), av, pv),
            rates_view(rates@) == rates_spec(idv.take(i as int), av, pv, now_ms, *prev),
        decreases ids@.len() - i,
    {
        let id = &ids[i];
        assert(id@ == idv[i as int]);
        let (st, sample, basis) = profile_status(cfg, active, &parsed, id, now_ms, prev);
        proof {
            assert(idv.take(i + 1).drop_last() =~= idv.take(i as int));
            assert(idv.take(i + 1).last() == idv[i as int]);
        }
        if let Some(s) = sample {
            let ghost before = samples_view(samples@);
            samples.push(SampleEntry { id: id.clone(), sample: s });
            assert(samples_view(samples@) =~= before.push((id@, s)));
        }
        if let Some(b) = basis {
            let ghost before = rates_view(rates@);
            rates.push(PendingRate { index: i, basis: b });
            assert(rates_view(rates@) =~= before.push((i as int, b)));
        }
        profiles.push(st);
        i = i + 1;
    }
    assert(idv.take(i as int) =~= idv);
    let current = if active.len() == 1 {
        Some(active[0].clone())
    } else {
        None
    };
    let mut active_copy: Vec<String> = Vec::new();
    let mut j: usize = 0;
    while j < active.len()
        invariant
            j <= active@.len(),
            strs(active_copy@) == strs(active@).take(j as int),
        decreases active@.len() - j,
    {
        let a = active[j].clone();
        let ghost before = strs(active_copy@);
        active_copy.push(a);
        assert(strs(active_copy@) =~= before.push(strs(active@)[j as int]));
        assert(strs(active@).take(j + 1) =~= strs(active@).take(j as int).push(strs(active@)[j as int]));
        j = j + 1;
    }
    assert(strs(active@).take(j as int) =~= strs(active@));
    let snapshot = Snapshot { current, active: active_copy, profiles };
    proof {
        assert(status_ids(snapshot.profiles@) =~= idv);
    }
    Collected { snapshot, state: State { timestamp_ms: now_ms, samples }, rates }
}

impl Snapshot {
    /// Fills in the transfer rates of the profile at `index`, when it has totals.
    pub fn apply_rate(&mut self, index: usize, rx_rate: u64, tx_rate: u64)
        ensures
            final(self).current == old(self).current,
            final(self).active == old(self).active,
            final(self).profiles@.len() == old(self).profiles@.len(),
            forall|j: int|
                0 <= j < old(self).profiles@.len() && j != index ==> #[trigger] final(self).profiles@[j]
                    == old(self).profiles@[j],
            index < old(self).profiles@.len() ==> ({
                let o = old(self).profiles@[index as int];
                let n = final(self).profiles@[index as int];
                &&& n.id == o.id && n.label == o.label && n.description == o.description
                &&& n.emoji == o.emoji && n.active == o.active && n.interface == o.interface
                &&& n.peers == o.peers
                &&& match o.totals {
                    Some(t) => n.totals matches Some(nt) && nt@ == with_rates(t@, rx_rate, tx_rate),
                    None => n.totals is None,
                }
            }),
    {
        if index < self.profiles.len() {
            if let Some(t) = &mut self.profiles[index].totals {
                t.set_rates(rx_rate, tx_rate);
            }
        }
    }
}

} // verus!

verus! {

pub open spec fn or_empty(o: Option<Seq<char>>) -> Seq<char> {
    match o {
        Some(s) => s,
        None => Seq::empty(),
    }
}

pub open spec fn or_else(o: Option<Seq<char>>, d: Seq<char>) -> Seq<char> {
    match o {
        Some(s) => s,
        None => d,
    }
}

/// A profile's heading: `● <emoji> <label>  (<id>)`, hollow when inactive, the label
/// falling back to the id.
pub open spec fn heading_line(p: ProfileStatusView) -> Seq<char> {
    let emoji = or_empty(p.emoji);
    let sep = if emoji.len() == 0 {
        Seq::empty()
    } else {
        seq![' ']
    };
    (if p.active {
        "●"@
    } else {
        "○"@
    }) + seq![' '] + emoji + sep + or_else(p.label, p.id) + "  ("@ + p.id + ")\n"@
}

/// The totals lines: bytes moved, and the speed when both rates are known.
pub open spec fn totals_lines(t: Option<TotalsView>) -> Seq<char> {
    match t {
        None => Seq::empty(),
        Some(t) => "    total:    ↓ "@ + t.rx_human + " / ↑ "@ + t.tx_human + "\n"@ + match (
            t.rx_per_sec_human,
            t.tx_per_sec_human,
        ) {
            (Some(rxh), Some(txh)) => "    speed:    ↓ "@ + rxh + " / ↑ "@ + txh + "\n"@,
            _ => Seq::empty(),
        },
    }
}

/// One peer's line: its endpoint and how long ago its last handshake was.
pub open spec fn peer_line(p: PeerView) -> Seq<char> {
    "    peer:     "@ + or_else(p.endpoint, "(none)"@) + "  •  handshake: "@ + or_else(
        p.last_handshake_ago_human,
        "never"@,
    ) + "\n"@
}

pub open spec fn peer_lines(ps: Seq<PeerView>) -> Seq<char>
    decreases ps.len(),
{
    if ps.len() == 0 {
        Seq::empty()
    } else {
        peer_lines(ps.drop_last()) + peer_line(ps.last())
    }
}

/// A profile's block: its heading, and for an active profile its totals and peers.
pub open spec fn profile_block(p: ProfileStatusView) -> Seq<char> {
    heading_line(p) + if p.active {
        totals_lines(p.totals) + peer_lines(p.peers)
    } else {
        Seq::empty()
    }
}

pub open spec fn blocks(ps: Seq<ProfileStatusView>) -> Seq<char>
    decreases ps.len(),
{
    if ps.len() == 0 {
        Seq::empty()
    } else {
        blocks(ps.drop_last()) + profile_block(ps.last())
    }
}

/// The text form of a snapshot: `(no profiles)`, or each profile's block with the
/// trailing whitespace trimmed.
pub open spec fn to_text_spec(ps: Seq<ProfileStatusView>) -> Seq<char> {
    if ps.len() == 0 {
        "(no profiles)"@
    } else {
        trim_end(blocks(ps))
    }
}

/// Each profile's block stands in the joined blocks after the blocks of those before it.
proof fn lemma_blocks_has_block(ps: Seq<ProfileStatusView>, j: int)
    requires
        0 <= j < ps.len(),
    ensures
        occurs_at(blocks(ps), profile_block(ps[j]), blocks(ps.take(j)).len() as int),
    decreases ps.len(),
{
    let b = blocks(ps);
    let pre = blocks(ps.drop_last());
    assert(b == pre + profile_block(ps.last()));
    if j == ps.len() - 1 {
        assert(ps.take(j) =~= ps.drop_last());
        assert(b.subrange(pre.len() as int, b.len() as int) =~= profile_block(ps.last()));
    } else {
        lemma_blocks_has_block(ps.drop_last(), j);
        assert(ps.drop_last().take(j) =~= ps.take(j));
        assert(ps.drop_last()[j] == ps[j]);
        let q = blocks(ps.take(j)).len() as int;
        let n = profile_block(ps[j]).len() as int;
        assert(b.subrange(q, q + n) =~= pre.subrange(q, q + n));
    }
}

/// Trimming trailing whitespace keeps everything up to the last character that is not
/// whitespace.
proof fn lemma_trim_end_keeps(s: Seq<char>, k: int)
    requires
        0 <= k < s.len(),
        !is_ws(s[k]),
    ensures
        trim_end(s).len() > k,
        trim_end(s).len() <= s.len(),
        trim_end(s) =~= s.take(trim_end(s).len() as int),
    decreases s.len(),
{
    if s.len() > 0 && is_ws(s.last()) {
        assert(k < s.len() - 1);
        assert(s.drop_last()[k] == s[k]);
        lemma_trim_end_keeps(s.drop_last(), k);
        let t = trim_end(s.drop_last());
        assert(s.drop_last().take(t.len() as int) =~= s.take(t.len() as int));
    } else {
        assert(s.take(s.len() as int) =~= s);
    }
}

/// The line of a profile's byte totals.
pub open spec fn total_line(t: TotalsView) -> Seq<char> {
    "    total:    ↓ "@ + t.rx_human + " / ↑ "@ + t.tx_human
}

/// The line of a profile's transfer rates.
pub open spec fn speed_line(rx: Seq<char>, tx: Seq<char>) -> Seq<char> {
    "    speed:    ↓ "@ + rx + " / ↑ "@ + tx
}

/// The text of a snapshot shows, for every active profile with totals, its totals line
/// `    total:    ↓ <received> / ↑ <sent>` whether or not its rates are known, and its
/// speed line as well when both rates are known. (The shown amounts end in a
/// non-whitespace character, as `bytes_human` output does.)
#[verifier::spinoff_prover]
#[verifier::rlimit(40)]
pub proof fn lemma_text_shows_totals(ps: Seq<ProfileStatusView>, i: int)
    requires
        0 <= i < ps.len(),
        ps[i].active,
        ps[i].totals is Some,
        ps[i].totals->0.tx_human.len() > 0,
        !is_ws(ps[i].totals->0.tx_human.last()),
    ensures
        contains_seq(to_text_spec(ps), total_line(ps[i].totals->0)),
        ({
            let t = ps[i].totals->0;
            t.rx_per_sec_human is Some && t.tx_per_sec_human is Some && t.tx_per_sec_human->0.len() > 0
                && !is_ws(t.tx_per_sec_human->0.last()) ==> contains_seq(
                to_text_spec(ps),
                speed_line(t.rx_per_sec_human->0, t.tx_per_sec_human->0),
            )
        }),
{
    let p = ps[i];
    let t = p.totals->0;
    let b = blocks(ps);
    lemma_blocks_has_block(ps, i);
    let q0 = blocks(ps.take(i)).len() as int;
    let blk = profile_block(p);
    let h = heading_line(p);
    let tl = total_line(t);
    let rest = match (t.rx_per_sec_human, t.tx_per_sec_human) {
        (Some(rxh), Some(txh)) => "    speed:    ↓ "@ + rxh + " / ↑ "@ + txh + "\n"@,
        _ => Seq::empty(),
    };
    assert(totals_lines(p.totals) =~= tl + "\n"@ + rest);
    assert(blk =~= h + tl + "\n"@ + rest + peer_lines(p.peers));
    let tr = trim_end(b);
    assert(to_text_spec(ps) == tr);
    // the totals line
    assert(occurs_at(blk, tl, h.len() as int)) by {
        assert(blk.subrange(h.len() as int, (h.len() + tl.len()) as int) =~= tl);
    }
    lemma_occurs_within(b, blk, tl, q0, h.len() as int);
    let q = q0 + h.len();
    assert(tl.last() == t.tx_human.last());
    assert(b[q + tl.len() - 1] == tl[tl.len() - 1]) by {
        assert(b.subrange(q, q + tl.len())[tl.len() - 1] == tl[tl.len() - 1]);
    }
    lemma_trim_end_keeps(b, q + tl.len() - 1);
    lemma_occurs_in_prefix(b, tr, tl, q);
    // the speed line
    if t.rx_per_sec_human is Some && t.tx_per_sec_human is Some && t.tx_per_sec_human->0.len() > 0
        && !is_ws(t.tx_per_sec_human->0.last()) {
        let sl = speed_line(t.rx_per_sec_human->0, t.tx_per_sec_human->0);
        assert(rest =~= sl + "\n"@);
        reveal_strlit("\n");
        let off = (h.len() + tl.len() + 1) as int;
        assert(occurs_at(blk, sl, off)) by {
            assert(blk.subrange(off, off + sl.len()) =~= sl);
        }
        lemma_occurs_within(b, blk, sl, q0, off);
        let q2 = q0 + off;
        assert(b[q2 + sl.len() - 1] == sl[sl.len() - 1]) by {
            assert(b.subrange(q2, q2 + sl.len())[sl.len() - 1] == sl[sl.len() - 1]);
        }
        lemma_trim_end_keeps(b, q2 + sl.len() - 1);
        lemma_occurs_in_prefix(b, tr, sl, q2);
    }
}

/// What occurs inside a part occurs in the whole.
proof fn lemma_occurs_within(b: Seq<char>, x: Seq<char>, y: Seq<char>, q0: int, r: int)
    requires
        occurs_at(b, x, q0),
        occurs_at(x, y, r),
    ensures
        occurs_at(b, y, q0 + r),
{
    assert forall|k: int| 0 <= k < y.len() implies b.subrange(q0 + r, q0 + r + y.len())[k] == y[k] by {
        assert(b.subrange(q0, q0 + x.len())[r + k] == x[r + k]);
        assert(x.subrange(r, r + y.len())[k] == y[k]);
    }
    assert(b.subrange(q0 + r, q0 + r + y.len()) =~= y);
}

/// What occurs before the end of a prefix occurs in the prefix.
proof fn lemma_occurs_in_prefix(b: Seq<char>, pre: Seq<char>, y: Seq<char>, q: int)
    requires
        occurs_at(b, y, q),
        pre =~= b.take(pre.len() as int),
        pre.len() <= b.len(),
        q + y.len() <= pre.len(),
    ensures
        occurs_at(pre, y, q),
{
    assert(pre.subrange(q, q + y.len()) =~= b.subrange(q, q + y.len()));
}

fn push_str(out: &mut Vec<char>, s: &str)
    ensures
        final(out)@ == old(out)@ + s@,
{
    let c = chars_of(s);
    push_all(out, c.as_slice());
}

fn push_heading(out: &mut Vec<char>, p: &ProfileStatus)
    ensures
        final(out)@ == old(out)@ + heading_line(p@),
{
    if p.active {
        push_str(out, "●");
    } else {
        push_str(out, "○");
    }
    out.push(' ');
    let ghost at_emoji = out@;
    let emoji = match &p.emoji {
        Some(e) => chars_of(e.as_str()),
        None => Vec::new(),
    };
    assert(emoji@ == or_empty(opt_str(p.emoji)));
    push_all(out, emoji.as_slice());
    if emoji.len() > 0 {
        out.push(' ');
    }
    match &p.label {
        Some(l) => push_str(out, l.as_str()),
        None => push_str(out, p.id.as_str()),
    }
    push_str(out, "  (");
    push_str(out, p.id.as_str());
    push_str(out, ")\n");
    assert(final(out)@ =~= old(out)@ + heading_line(p@));
}

fn push_totals(out: &mut Vec<char>, t: &Option<Totals>)
    ensures
        final(out)@ == old(out)@ + totals_lines(opt_totals_view(*t)),
{
    match t {
        None => {
            assert(final(out)@ =~= old(out)@ + totals_lines(opt_totals_view(*t)));
        },
        Some(t) => {
            push_str(out, "    total:    ↓ ");
            push_str(out, t.rx_human.as_str());
            push_str(out, " / ↑ ");
            push_str(out, t.tx_human.as_str());
            push_str(out, "\n");
            match (&t.rx_per_sec_human, &t.tx_per_sec_human) {
                (Some(rxh), Some(txh)) => {
                    push_str(out, "    speed:    ↓ ");
                    push_str(out, rxh.as_str());
                    push_str(out, " / ↑ ");
                    push_str(out, txh.as_str());
                    push_str(out, "\n");
                },
                _ => {},
            }
            assert(final(out)@ =~= old(out)@ + totals_lines(opt_totals_view(Some(*t))));
        },
    }
}

fn push_peer(out: &mut Vec<char>, p: &PeerInfo)
    ensures
        final(out)@ == old(out)@ + peer_line(p@),
{
    push_str(out, "    peer:     ");
    match &p.endpoint {
        Some(e) => push_str(out, e.as_str()),
        None => push_str(out, "(none)"),
    }
    push_str(out, "  •  handshake: ");
    match &p.last_handshake_ago_human {
        Some(h) => push_str(out, h.as_str()),
        None => push_str(out, "never"),
    }
    push_str(out, "\n");
    assert(final(out)@ =~= old(out)@ + peer_line(p@));
}

fn push_block(out: &mut Vec<char>, p: &ProfileStatus)
    ensures
        final(out)@ == old(out)@ + profile_block(p@),
{
    push_heading(out, p);
    if p.active {
        let ghost mid = out@;
        push_totals(out, &p.totals);
        let ghost pv = peers_view(p.peers@);
        let ghost start = out@;
        let mut i: usize = 0;
        assert(pv.take(0) =~= Seq::<PeerView>::empty());
        assert(out@ =~= start + peer_lines(pv.take(0)));
        while i < p.peers.len()
            invariant
                pv == peers_view(p.peers@),
                i <= p.peers@.len(),
                out@ == start + peer_lines(pv.take(i as int)),
            decreases p.peers@.len() - i,
        {
            push_peer(out, &p.peers[i]);
            assert(pv.take(i + 1).drop_last() =~= pv.take(i as int));
            assert(pv.take(i + 1).last() == pv[i as int]);
            i = i + 1;
            assert(out@ =~= start + peer_lines(pv.take(i as int)));
        }
        assert(pv.take(i as int) =~= pv);
        assert(final(out)@ =~= old(out)@ + profile_block(p@));
    } else {
        assert(final(out)@ =~= old(out)@ + profile_block(p@));
    }
}

impl Snapshot {
    /// The snapshot as text, a block per profile.
    pub fn to_text(&self) -> (r: String)
        ensures
            r@ == to_text_spec(statuses_view(self.profiles@)),
    {
        if self.profiles.len() == 0 {
            return String::from_str("(no profiles)");
        }
        let ghost sv = statuses_view(self.profiles@);
        let mut out: Vec<char> = Vec::new();
        let mut i: usize = 0;
        assert(sv.take(0) =~= Seq::<ProfileStatusView>::empty());
        while i < self.profiles.len()
            invariant
                sv == statuses_view(self.profiles@),
                i <= self.profiles@.len(),
                out@ == blocks(sv.take(i as int)),
            decreases self.profiles@.len() - i,
        {
            push_block(&mut out, &self.profiles[i]);
            assert(sv.take(i + 1).drop_last() =~= sv.take(i as int));
            assert(sv.take(i + 1).last() == sv[i as int]);
            i = i + 1;
        }
        assert(sv.take(i as int) =~= sv);
        let t = trimmed_end(out.as_slice());
        string_from_chars(t.as_slice())
    }
}

} // verus!

verus! {

/// An inactive profile's status carries no interface, totals or peers.
pub proof fn lemma_inactive_status_is_bare(
    cfg: Config,
    active: Seq<Seq<char>>,
    parsed: Seq<IfaceDumpView>,
    id: Seq<char>,
    now_ms: u64,
)
    requires
        !active.contains(id),
    ensures
        ({
            let s = status_of(cfg, active, parsed, id, now_ms);
            &&& !s.active
            &&& s.interface is None
            &&& s.totals is None
            &&& s.peers.len() == 0
        }),
{
}

/// An active profile's status always carries totals, and one peer entry per peer that
/// the dump lists under its configuration name.
pub proof fn lemma_active_status_has_totals(
    cfg: Config,
    active: Seq<Seq<char>>,
    parsed: Seq<IfaceDumpView>,
    id: Seq<char>,
    now_ms: u64,
)
    requires
        active.contains(id),
    ensures
        ({
            let s = status_of(cfg, active, parsed, id, now_ms);
            &&& s.active
            &&& s.totals is Some
            &&& s.peers.len() == parsed_for(parsed, id).peers.len()
        }),
{
}

/// The number of peers the entries hold.
pub open spec fn peer_count(d: Seq<IfaceDumpView>) -> nat
    decreases d.len(),
{
    if d.len() == 0 {
        0
    } else {
        peer_count(d.drop_last()) + d.last().peers.len()
    }
}

proof fn lemma_peer_count_push(d: Seq<IfaceDumpView>, e: IfaceDumpView)
    ensures
        peer_count(d.push(e)) == peer_count(d) + e.peers.len(),
{
    assert(d.push(e).drop_last() =~= d);
}

proof fn lemma_peer_count_update(d: Seq<IfaceDumpView>, k: int, e: IfaceDumpView)
    requires
        0 <= k < d.len(),
    ensures
        peer_count(d.update(k, e)) + d[k].peers.len() == peer_count(d) + e.peers.len(),
    decreases d.len(),
{
    if k == d.len() - 1 {
        assert(d.update(k, e).drop_last() =~= d.drop_last());
    } else {
        lemma_peer_count_update(d.drop_last(), k, e);
        assert(d.update(k, e).drop_last() =~= d.drop_last().update(k, e));
    }
}

proof fn lemma_entry_or_new_count(d: Seq<IfaceDumpView>, name: Seq<char>)
    ensures
        peer_count(entry_or_new(d, name).0) == peer_count(d),
        0 <= entry_or_new(d, name).1 < entry_or_new(d, name).0.len(),
{
    if !has_iface(d, name) {
        lemma_peer_count_push(d, empty_entry(name));
    }
}

/// Renaming dump entries to configuration names loses no peer and invents none.
pub proof fn lemma_translate_keeps_peers(raw: Seq<IfaceDumpView>, map: Map<Seq<char>, Seq<char>>)
    ensures
        peer_count(translated(raw, map)) == peer_count(raw),
    decreases raw.len(),
{
    if raw.len() > 0 {
        lemma_translate_keeps_peers(raw.drop_last(), map);
        let out = translated(raw.drop_last(), map);
        let e = raw.last();
        let (d2, k) = entry_or_new(out, config_name_for(map, e.iface));
        lemma_entry_or_new_count(out, config_name_for(map, e.iface));
        let ne = IfaceDumpView {
            iface: d2[k].iface,
            interface: if d2[k].interface is None {
                e.interface
            } else {
                d2[k].interface
            },
            peers: d2[k].peers + e.peers,
        };
        lemma_peer_count_update(d2, k, ne);
    }
}

/// The number of dump lines that describe a peer (nine tab-separated columns).
pub open spec fn peer_line_count(ls: Seq<Seq<char>>) -> nat
    decreases ls.len(),
{
    if ls.len() == 0 {
        0
    } else {
        peer_line_count(ls.drop_last()) + if split_on(ls.last(), '\t').len() == 9 {
            1nat
        } else {
            0nat
        }
    }
}

/// Parsing the dump yields exactly one peer per peer line.
pub proof fn lemma_dump_peer_per_line(ls: Seq<Seq<char>>)
    ensures
        peer_count(dump_of_lines(ls)) == peer_line_count(ls),
    decreases ls.len(),
{
    if ls.len() > 0 {
        lemma_dump_peer_per_line(ls.drop_last());
        let d = dump_of_lines(ls.drop_last());
        let c = split_on(ls.last(), '\t');
        if c.len() == 5 || c.len() == 9 {
            let (d2, k) = entry_or_new(d, c[0]);
            lemma_entry_or_new_count(d, c[0]);
            if c.len() == 5 {
                lemma_peer_count_update(
                    d2,
                    k,
                    IfaceDumpView { iface: d2[k].iface, interface: Some(interface_of_cols(c)), peers: d2[k].peers },
                );
            } else {
                lemma_peer_count_update(
                    d2,
                    k,
                    IfaceDumpView {
                        iface: d2[k].iface,
                        interface: d2[k].interface,
                        peers: d2[k].peers.push(peer_of_cols(c)),
                    },
                );
            }
        }
    }
}

} // verus!
