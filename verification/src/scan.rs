//! Network discovery: merging neighbor-table snapshots from the discovery
//! phases into a deduplicated device list, enriching it, and sorting it by
//! address.

use vstd::prelude::*;

use crate::interfaces::{not_found_message, spec_not_found_msg, CustomNetworkInterface};
use crate::ip::{
    Ipv4, format_ipv4, ip_le, lemma_ip_le_total, lemma_ip_le_trans, lemma_parse_format_roundtrip,
    parse_ipv4, spec_in_subnet24, spec_ipv4_str, spec_parse_ipv4, spec_subnet24,
};
use crate::text::{
    clean_hostname, contains_substr, find_substr, find_substr_at, has_substr, lemma_lex_le_refl,
    lemma_lex_le_total, lemma_lex_le_trans, lex_le, spec_clean_hostname, spec_tokens,
    split_at_char, split_char, split_tokens, str_lex_le,
};
use vstd::multiset::Multiset;

verus! {

/// A host discovered on the local subnet.
#[derive(Debug, Clone)]
pub struct NetworkDevice {
    pub ip: String,
    pub mac: String,
    pub hostname: String,
    pub vendor: String,
}

/// Looks a MAC address up in a vendor database. No database is wired in, so
/// the lookup never resolves and callers keep their fallback label, the
/// discovery-method tag.
pub fn get_vendor_from_mac(_mac: &str) -> (r: Option<String>)
    ensures
        r is None,
{
    None
}

/// The lowercase hexadecimal digit character for a value below sixteen.
pub open spec fn hex_char(k: int) -> char {
    if k == 0 {
        '0'
    } else if k == 1 {
        '1'
    } else if k == 2 {
        '2'
    } else if k == 3 {
        '3'
    } else if k == 4 {
        '4'
    } else if k == 5 {
        '5'
    } else if k == 6 {
        '6'
    } else if k == 7 {
        '7'
    } else if k == 8 {
        '8'
    } else if k == 9 {
        '9'
    } else if k == 10 {
        'a'
    } else if k == 11 {
        'b'
    } else if k == 12 {
        'c'
    } else if k == 13 {
        'd'
    } else if k == 14 {
        'e'
    } else {
        'f'
    }
}

/// A byte as two lowercase hexadecimal digits.
pub open spec fn spec_byte_hex(b: u8) -> Seq<char> {
    seq![hex_char(b as int / 16), hex_char(b as int % 16)]
}

/// Six bytes as a lowercase colon-separated MAC address.
pub open spec fn spec_mac6_str(bs: Seq<u8>) -> Seq<char> {
    spec_byte_hex(bs[0]) + seq![':'] + spec_byte_hex(bs[1]) + seq![':'] + spec_byte_hex(bs[2])
        + seq![':'] + spec_byte_hex(bs[3]) + seq![':'] + spec_byte_hex(bs[4]) + seq![':']
        + spec_byte_hex(bs[5])
}

/// The all-zero sentinel MAC that stands in for a missing or malformed one.
pub open spec fn zero_mac_str() -> Seq<char> {
    "00:00:00:00:00:00"@
}

fn hex_str(k: u8) -> (r: &'static str)
    requires
        k < 16,
    ensures
        r@ =~= seq![hex_char(k as int)],
{
    proof {
        reveal_strlit("0");
        reveal_strlit("1");
        reveal_strlit("2");
        reveal_strlit("3");
        reveal_strlit("4");
        reveal_strlit("5");
        reveal_strlit("6");
        reveal_strlit("7");
        reveal_strlit("8");
        reveal_strlit("9");
        reveal_strlit("a");
        reveal_strlit("b");
        reveal_strlit("c");
        reveal_strlit("d");
        reveal_strlit("e");
        reveal_strlit("f");
    }
    match k {
        0 => "0",
        1 => "1",
        2 => "2",
        3 => "3",
        4 => "4",
        5 => "5",
        6 => "6",
        7 => "7",
        8 => "8",
        9 => "9",
        10 => "a",
        11 => "b",
        12 => "c",
        13 => "d",
        14 => "e",
        _ => "f",
    }
}

/// Formats physical-address bytes as a lowercase colon-separated MAC. Any
/// length other than six degrades to the all-zero sentinel rather than an
/// error.
pub fn format_mac_bytes(bytes: &Vec<u8>) -> (r: String)
    ensures
        bytes@.len() == 6 ==> r@ == spec_mac6_str(bytes@),
        bytes@.len() != 6 ==> r@ == zero_mac_str(),
{
    if bytes.len() != 6 {
        return String::from_str("00:00:00:00:00:00");
    }
    proof {
        reveal_strlit(":");
    }
    let mut s = String::new();
    let mut i: usize = 0;
    while i < 6
        invariant
            i <= 6,
            bytes@.len() == 6,
            s@ == spec_mac_prefix(bytes@, i as int),
        decreases 6 - i,
    {
        if i > 0 {
            s.append(":");
        }
        s.append(hex_str(bytes[i] / 16));
        s.append(hex_str(bytes[i] % 16));
        i = i + 1;
        proof {
            reveal_strlit(":");
            let b = bytes@[i - 1];
            assert(seq![hex_char(b as int / 16)] + seq![hex_char(b as int % 16)] =~= spec_byte_hex(
                b,
            ));
            if i == 1 {
                assert(spec_mac_prefix(bytes@, 1) == spec_byte_hex(bytes@[0]));
                assert(s@ =~= spec_byte_hex(bytes@[0]));
            } else {
                assert(spec_mac_prefix(bytes@, i as int) == spec_mac_prefix(bytes@, i - 1)
                    + seq![':'] + spec_byte_hex(b));
                assert(s@ =~= spec_mac_prefix(bytes@, i - 1) + seq![':'] + spec_byte_hex(b));
            }
        }
    }
    proof {
        reveal_with_fuel(spec_mac_prefix, 8);
        assert(spec_mac_prefix(bytes@, 6) =~= spec_mac6_str(bytes@));
    }
    s
}

/// The first `k` bytes of a MAC rendering, colon-separated.
pub open spec fn spec_mac_prefix(bs: Seq<u8>, k: int) -> Seq<char>
    decreases k,
{
    if k <= 0 {
        Seq::<char>::empty()
    } else if k == 1 {
        spec_byte_hex(bs[0])
    } else {
        spec_mac_prefix(bs, k - 1) + seq![':'] + spec_byte_hex(bs[k - 1])
    }
}

/// How the neighbor table classifies an entry. Entries classified invalid are
/// excluded from discovery; the other kinds are kept.
#[derive(Debug, Clone, Copy, PartialEq, Eq, Structural)]
pub enum NeighborKind {
    Other,
    Invalid,
    Dynamic,
    Static,
}

/// One usable neighbor-table observation: an address and its formatted MAC.
#[derive(Debug, Clone)]
pub struct NeighborRecord {
    pub ip: Ipv4,
    pub mac: String,
}

/// Turns one raw neighbor-table row into a record: rows classified invalid
/// are dropped; a malformed physical-address length degrades to the all-zero
/// sentinel MAC.
pub fn neighbor_record_from_raw(ip: Ipv4, mac_bytes: &Vec<u8>, kind: NeighborKind) -> (r: Option<
    NeighborRecord,
>)
    ensures
        match r {
            Some(rec) => {
                &&& kind != NeighborKind::Invalid
                &&& rec.ip == ip
                &&& mac_bytes@.len() == 6 ==> rec.mac@ == spec_mac6_str(mac_bytes@)
                &&& mac_bytes@.len() != 6 ==> rec.mac@ == zero_mac_str()
            },
            None => kind == NeighborKind::Invalid,
        },
{
    match kind {
        NeighborKind::Invalid => None,
        _ => Some(NeighborRecord { ip, mac: format_mac_bytes(mac_bytes) }),
    }
}

/// One entry of the merged discovery map: the device's address, its MAC, and
/// the discovery method that last observed it.
#[derive(Debug, Clone)]
pub struct MergedEntry {
    pub ip: Ipv4,
    pub mac: String,
    pub method: String,
}

/// No two entries share an address.
pub open spec fn unique_ips(s: Seq<MergedEntry>) -> bool {
    forall|i: int, j: int| 0 <= i < j < s.len() ==> s[i].ip != s[j].ip
}

/// A well-formed merge state: unique addresses, all inside the scanned
/// subnet, never the scanning host itself.
pub open spec fn entries_wf(s: Seq<MergedEntry>, base: Ipv4, local: Ipv4) -> bool {
    &&& unique_ips(s)
    &&& forall|i: int|
        0 <= i < s.len() ==> spec_in_subnet24(base, #[trigger] s[i].ip) && s[i].ip != local
}

/// Whether some entry carries the given address.
pub open spec fn has_ip(s: Seq<MergedEntry>, ip: Ipv4) -> bool {
    exists|i: int| 0 <= i < s.len() && s[i].ip == ip
}

/// The entry carrying the given address; meaningful under `unique_ips`.
pub open spec fn get_entry(s: Seq<MergedEntry>, ip: Ipv4) -> MergedEntry {
    s[choose|i: int| 0 <= i < s.len() && s[i].ip == ip]
}

/// Whether a discovered address takes part in the merge: inside the scanned
/// subnet and not the scanning host.
pub open spec fn record_qualifies(ip: Ipv4, base: Ipv4, local: Ipv4) -> bool {
    spec_in_subnet24(base, ip) && ip != local
}

/// Whether a phase observed the given address.
pub open spec fn found_has(found: Seq<NeighborRecord>, ip: Ipv4) -> bool {
    exists|i: int| 0 <= i < found.len() && found[i].ip == ip
}

/// The MAC of the last observation of `ip` within one phase; meaningful when
/// the phase observed `ip`.
pub open spec fn last_mac(found: Seq<NeighborRecord>, ip: Ipv4) -> String
    decreases found.len(),
{
    if found.len() == 0 {
        arbitrary()
    } else if found.last().ip == ip {
        found.last().mac
    } else {
        last_mac(found.drop_last(), ip)
    }
}

/// Under `unique_ips`, any entry holding `ip` is the entry for `ip`.
pub proof fn lemma_get_entry(s: Seq<MergedEntry>, ip: Ipv4, i: int)
    requires
        unique_ips(s),
        0 <= i < s.len(),
        s[i].ip == ip,
    ensures
        get_entry(s, ip) == s[i],
{
    let w = choose|w: int| 0 <= w < s.len() && s[w].ip == ip;
    if w < i {
        assert(s[w].ip != s[i].ip);
    } else if w > i {
        assert(s[i].ip != s[w].ip);
    }
}

/// Records one observation: overwrites the entry with the same address, or
/// appends a new one.
fn merge_record(entries: &mut Vec<MergedEntry>, rec: &NeighborRecord, method: &str) -> (i: usize)
    requires
        unique_ips(old(entries)@),
    ensures
        unique_ips(final(entries)@),
        final(entries)@.len() == old(entries)@.len() + (if has_ip(old(entries)@, rec.ip) {
            0int
        } else {
            1int
        }),
        i < final(entries)@.len(),
        final(entries)@[i as int].ip == rec.ip,
        final(entries)@[i as int].mac == rec.mac,
        final(entries)@[i as int].method@ == method@,
        forall|j: int|
            0 <= j < final(entries)@.len() && j != i ==> j < old(entries)@.len() && final(entries)@[j] == old(entries)@[j],
        has_ip(old(entries)@, rec.ip) ==> i < old(entries)@.len() && old(entries)@[i as int].ip
            == rec.ip,
        !has_ip(old(entries)@, rec.ip) ==> i == old(entries)@.len(),
{
    let n = entries.len();
    let mut k: usize = 0;
    while k < n
        invariant
            k <= n,
            n == entries@.len(),
            forall|j: int| 0 <= j < k ==> entries@[j].ip != rec.ip,
            entries@ == old(entries)@,
            unique_ips(entries@),
        decreases n - k,
    {
        if entries[k].ip == rec.ip {
            let new_entry = MergedEntry {
                ip: rec.ip,
                mac: rec.mac.clone(),
                method: String::from_str(method),
            };
            entries.remove(k);
            entries.insert(k, new_entry);
            proof {
                assert(entries@ =~= old(entries)@.update(k as int, entries@[k as int]));
                assert(forall|j: int|
                    0 <= j < entries@.len() && j != k ==> entries@[j] == old(entries)@[j]);
                assert(has_ip(old(entries)@, rec.ip));
                assert(entries@[k as int].ip == old(entries)@[k as int].ip);
                assert forall|a: int, b: int| 0 <= a < b < entries@.len() implies entries@[a].ip
                    != entries@[b].ip by {
                    assert(old(entries)@[a].ip != old(entries)@[b].ip);
                }
            }
            return k;
        }
        k = k + 1;
    }
    let new_entry = MergedEntry {
        ip: rec.ip,
        mac: rec.mac.clone(),
        method: String::from_str(method),
    };
    entries.push(new_entry);
    let i = entries.len() - 1;
    proof {
        assert(!has_ip(old(entries)@, rec.ip));
        assert(entries@[entries@.len() - 1].ip == rec.ip);
        assert(forall|j: int|
            0 <= j < entries@.len() && j != entries@.len() - 1 ==> entries@[j] == old(entries)@[j]);
        assert forall|a: int, b: int| 0 <= a < b < entries@.len() implies entries@[a].ip
            != entries@[b].ip by {
            if b < entries@.len() - 1 {
                assert(old(entries)@[a].ip != old(entries)@[b].ip);
            } else {
                assert(old(entries)@[a].ip != rec.ip);
            }
        }
    }
    i
}

/// Merges one discovery phase into the map. Every observation of an address
/// inside the subnet, other than the scanning host, overwrites or creates the
/// entry for that address and tags it with this phase's method; within the
/// phase the last observation of an address wins. Entries for other addresses
/// are untouched. Phases merged later therefore overwrite earlier ones.
#[verifier::loop_isolation(false)]
pub fn merge_phase(
    entries: &mut Vec<MergedEntry>,
    found: &Vec<NeighborRecord>,
    method: &str,
    base: &Ipv4,
    local: &Ipv4,
)
    requires
        entries_wf(old(entries)@, *base, *local),
    ensures
        entries_wf(final(entries)@, *base, *local),
        forall|ip: Ipv4|
            #![trigger found_has(found@, ip)]
            record_qualifies(ip, *base, *local) && found_has(found@, ip) ==> has_ip(
                final(entries)@,
                ip,
            ) && get_entry(final(entries)@, ip).mac == last_mac(found@, ip) && get_entry(
                final(entries)@,
                ip,
            ).method@ == method@,
        forall|ip: Ipv4|
            #![trigger found_has(found@, ip)]
            !(record_qualifies(ip, *base, *local) && found_has(found@, ip)) ==> (has_ip(
                final(entries)@,
                ip,
            ) == has_ip(old(entries)@, ip)) && (has_ip(old(entries)@, ip) ==> get_entry(
                final(entries)@,
                ip,
            ) == get_entry(old(entries)@, ip)),
{
    let n = found.len();
    let mut k: usize = 0;
    while k < n
        invariant
            k <= n,
            n == found@.len(),
            entries_wf(entries@, *base, *local),
            forall|ip: Ipv4|
                #![trigger found_has(found@.subrange(0, k as int), ip)]
                record_qualifies(ip, *base, *local) && found_has(
                    found@.subrange(0, k as int),
                    ip,
                ) ==> has_ip(entries@, ip) && get_entry(entries@, ip).mac == last_mac(
                    found@.subrange(0, k as int),
                    ip,
                ) && get_entry(entries@, ip).method@ == method@,
            forall|ip: Ipv4|
                #![trigger found_has(found@.subrange(0, k as int), ip)]
                !(record_qualifies(ip, *base, *local) && found_has(
                    found@.subrange(0, k as int),
                    ip,
                )) ==> (has_ip(entries@, ip) == has_ip(old(entries)@, ip)) && (has_ip(
                    old(entries)@,
                    ip,
                ) ==> get_entry(entries@, ip) == get_entry(old(entries)@, ip)),
        decreases n - k,
    {
        let ghost prev = entries@;
        let ghost prefix = found@.subrange(0, k as int);
        let rec = &found[k];
        let qualifies = rec.ip.in_subnet24(base) && !(rec.ip == *local);
        let mut at: usize = 0;
        if qualifies {
            at = merge_record(entries, rec, method);
        }
        k = k + 1;
        proof {
            let prefix2 = found@.subrange(0, k as int);
            assert(prefix2.drop_last() =~= prefix);
            assert(prefix2.last() == found@[k - 1]);
            assert forall|ip: Ipv4|
                #![trigger found_has(found@.subrange(0, k as int), ip)]
                record_qualifies(ip, *base, *local) && found_has(
                    found@.subrange(0, k as int),
                    ip,
                ) implies has_ip(entries@, ip) && get_entry(entries@, ip).mac == last_mac(
                found@.subrange(0, k as int),
                ip,
            ) && get_entry(entries@, ip).method@ == method@ by {
                assert(found_has(prefix2, ip));
                if ip == rec.ip {
                    assert(qualifies);
                    let i = at as int;
                    lemma_get_entry(entries@, ip, i);
                    assert(last_mac(prefix2, ip) == rec.mac);
                } else {
                    // the phase observed ip earlier in the prefix
                    let w = choose|w: int| 0 <= w < prefix2.len() && prefix2[w].ip == ip;
                    assert(prefix[w].ip == ip);
                    assert(found_has(prefix, ip));
                    assert(has_ip(prev, ip) && get_entry(prev, ip).mac == last_mac(prefix, ip)
                        && get_entry(prev, ip).method@ == method@);
                    assert(last_mac(prefix2, ip) == last_mac(prefix, ip));
                    let e = choose|e: int| 0 <= e < prev.len() && prev[e].ip == ip;
                    lemma_get_entry(prev, ip, e);
                    if qualifies {
                        let i = at as int;
                        assert(e != i);
                        assert(entries@[e] == prev[e]);
                        lemma_get_entry(entries@, ip, e);
                    } else {
                        assert(entries@ == prev);
                        lemma_get_entry(entries@, ip, e);
                    }
                }
            }
            assert forall|ip: Ipv4|
                #![trigger found_has(found@.subrange(0, k as int), ip)]
                !(record_qualifies(ip, *base, *local) && found_has(
                    found@.subrange(0, k as int),
                    ip,
                )) implies (has_ip(entries@, ip) == has_ip(old(entries)@, ip)) && (has_ip(
                old(entries)@,
                ip,
            ) ==> get_entry(entries@, ip) == get_entry(old(entries)@, ip)) by {
                assert(!found_has(prefix2, ip) || !record_qualifies(ip, *base, *local));
                assert(!found_has(prefix, ip) || !record_qualifies(ip, *base, *local)) by {
                    if found_has(prefix, ip) {
                        let w = choose|w: int| 0 <= w < prefix.len() && prefix[w].ip == ip;
                        assert(prefix2[w].ip == ip);
                        assert(found_has(prefix2, ip));
                    }
                }
                if qualifies && ip == rec.ip {
                    assert(prefix2[k - 1].ip == ip);
                    assert(found_has(prefix2, ip));
                    assert(record_qualifies(ip, *base, *local));
                } else {
                    if qualifies {
                        let i = at as int;
                        assert(has_ip(entries@, ip) == has_ip(prev, ip)) by {
                            if has_ip(prev, ip) {
                                let e = choose|e: int| 0 <= e < prev.len() && prev[e].ip == ip;
                                if e == i && entries@.len() == prev.len() {
                                    assert(prev[i].ip == rec.ip);
                                } else {
                                    assert(entries@[e] == prev[e]);
                                }
                            }
                            if has_ip(entries@, ip) {
                                let e = choose|e: int|
                                    0 <= e < entries@.len() && entries@[e].ip == ip;
                                assert(e != i);
                                assert(entries@[e] == prev[e]);
                            }
                        }
                        if has_ip(prev, ip) {
                            let e = choose|e: int| 0 <= e < prev.len() && prev[e].ip == ip;
                            if e == i && entries@.len() == prev.len() {
                                assert(prev[i].ip == rec.ip);
                                assert(false);
                            }
                            assert(entries@[e] == prev[e]);
                            lemma_get_entry(prev, ip, e);
                            lemma_get_entry(entries@, ip, e);
                        }
                    } else {
                        assert(entries@ == prev);
                    }
                }
            }
        }
    }
    proof {
        assert(found@.subrange(0, n as int) =~= found@);
    }
}

/// The order the device list is sorted by: ascending numeric address where
/// both addresses parse, raw string comparison otherwise.
pub open spec fn device_le(a: NetworkDevice, b: NetworkDevice) -> bool {
    match (spec_parse_ipv4(a.ip@), spec_parse_ipv4(b.ip@)) {
        (Some(x), Some(y)) => ip_le(x, y),
        _ => lex_le(a.ip@, b.ip@),
    }
}

/// Any two devices are comparable.
pub proof fn lemma_device_le_total(a: NetworkDevice, b: NetworkDevice)
    ensures
        device_le(a, b) || device_le(b, a),
{
    match (spec_parse_ipv4(a.ip@), spec_parse_ipv4(b.ip@)) {
        (Some(x), Some(y)) => lemma_ip_le_total(x, y),
        _ => lemma_lex_le_total(a.ip@, b.ip@),
    }
}

fn device_le_exec(a: &NetworkDevice, b: &NetworkDevice) -> (r: bool)
    ensures
        r == device_le(*a, *b),
{
    let pa = parse_ipv4(a.ip.as_str());
    let pb = parse_ipv4(b.ip.as_str());
    match (pa, pb) {
        (Some(x), Some(y)) => x.le(&y),
        _ => str_lex_le(a.ip.as_str(), b.ip.as_str()),
    }
}

/// Sorts a device list: each adjacent pair is ordered by `device_le`, and the
/// devices themselves are exactly those given. Where every address parses,
/// the whole list is in ascending numeric order; unparseable addresses fall
/// back to raw string order.
#[verifier::loop_isolation(false)]
pub fn sort_devices(devices: Vec<NetworkDevice>) -> (r: Vec<NetworkDevice>)
    ensures
        r@.len() == devices@.len(),
        forall|i: int| 0 <= i && i + 1 < r@.len() ==> device_le(#[trigger] r@[i], r@[i + 1]),
        r@.to_multiset() == devices@.to_multiset(),
{
    broadcast use vstd::seq_lib::to_multiset_build;
    broadcast use vstd::seq_lib::to_multiset_remove;
    broadcast use vstd::seq_lib::to_multiset_insert;
    broadcast use vstd::seq_lib::to_multiset_len;
    broadcast use vstd::seq_lib::to_multiset_contains;
    broadcast use vstd::multiset::group_multiset_axioms;

    let mut rest = devices;
    let mut out: Vec<NetworkDevice> = Vec::new();
    while rest.len() > 0
        invariant
            forall|i: int|
                0 <= i && i + 1 < out@.len() ==> device_le(#[trigger] out@[i], out@[i + 1]),
            out@.to_multiset().add(rest@.to_multiset()) == devices@.to_multiset(),
        decreases rest@.len(),
    {
        let ghost out0 = out@;
        let ghost rest0 = rest@;
        let x = match rest.pop() {
            Some(x) => x,
            None => {
                proof {
                    assert(false);
                }
                unreached()
            },
        };
        proof {
            assert(rest@.push(x) =~= rest0);
        }
        let p = insert_pos(&out, &x);
        let ghost broke_at = p as int;
        out.insert(p, x);
        proof {
            assert forall|i: int|
                0 <= i && i + 1 < out@.len() implies device_le(#[trigger] out@[i], out@[i + 1]) by {
                if i + 1 < broke_at {
                    assert(out@[i] == out0[i] && out@[i + 1] == out0[i + 1]);
                } else if i + 1 == broke_at {
                    assert(out@[i] == out0[i] && out@[i + 1] == x);
                } else if i == broke_at {
                    assert(out@[i] == x && out@[i + 1] == out0[i]);
                    assert(!device_le(out0[i], x));
                    lemma_device_le_total(out0[i], x);
                } else {
                    assert(out@[i] == out0[i - 1] && out@[i + 1] == out0[i]);
                }
            }
            assert(out@.to_multiset().add(rest@.to_multiset()) =~= devices@.to_multiset());
        }
    }
    proof {
        broadcast use vstd::seq_lib::to_multiset_len;

        assert(rest@.to_multiset() =~= Multiset::<NetworkDevice>::empty());
        assert(out@.to_multiset() =~= devices@.to_multiset());
        assert(out@.to_multiset().len() == out@.len());
        assert(devices@.to_multiset().len() == devices@.len());
    }
    out
}

/// How a device of the final list renders a merged entry: dotted-quad
/// address, the entry's MAC, the resolved hostname or "Unknown", and the
/// vendor label, which falls back to the discovery method that last observed
/// the entry.
pub open spec fn device_of_entry(d: NetworkDevice, e: MergedEntry, h: Option<String>) -> bool {
    &&& d.ip@ == spec_ipv4_str(e.ip)
    &&& d.mac == e.mac
    &&& d.vendor == e.method
    &&& match h {
        Some(hn) => d.hostname == hn,
        None => d.hostname@ == "Unknown"@,
    }
}

/// The synthetic entry for the scanning host itself.
pub open spec fn is_local_device(d: NetworkDevice, local_ip: Ipv4, local_mac: Seq<char>) -> bool {
    &&& d.ip@ == spec_ipv4_str(local_ip)
    &&& d.mac@ == local_mac
    &&& d.hostname@ == "Local Machine"@
    &&& d.vendor@ == "Local"@
}

/// Pairwise-adjacent order in a list whose addresses all parse gives global
/// ascending numeric order.
pub proof fn lemma_ip_chain(devs: Seq<NetworkDevice>, i: int, j: int)
    requires
        forall|m: int| 0 <= m < devs.len() ==> spec_parse_ipv4(#[trigger] devs[m].ip@) is Some,
        forall|m: int| 0 <= m && m + 1 < devs.len() ==> device_le(#[trigger] devs[m], devs[m + 1]),
        0 <= i <= j < devs.len(),
    ensures
        ip_le(spec_parse_ipv4(devs[i].ip@).unwrap(), spec_parse_ipv4(devs[j].ip@).unwrap()),
    decreases j - i,
{
    if i < j {
        lemma_ip_chain(devs, i, j - 1);
        assert(device_le(devs[j - 1], devs[j]));
        lemma_ip_le_trans(
            spec_parse_ipv4(devs[i].ip@).unwrap(),
            spec_parse_ipv4(devs[j - 1].ip@).unwrap(),
            spec_parse_ipv4(devs[j].ip@).unwrap(),
        );
    }
}

/// Pairwise-adjacent order in a list where no address parses gives global
/// raw-string order: such devices sort by string comparison among themselves.
pub proof fn lemma_lex_chain(devs: Seq<NetworkDevice>, i: int, j: int)
    requires
        forall|m: int| 0 <= m < devs.len() ==> spec_parse_ipv4(#[trigger] devs[m].ip@) is None,
        forall|m: int| 0 <= m && m + 1 < devs.len() ==> device_le(#[trigger] devs[m], devs[m + 1]),
        0 <= i <= j < devs.len(),
    ensures
        lex_le(devs[i].ip@, devs[j].ip@),
    decreases j - i,
{
    if i < j {
        lemma_lex_chain(devs, i, j - 1);
        assert(device_le(devs[j - 1], devs[j]));
        lemma_lex_le_trans(devs[i].ip@, devs[j - 1].ip@, devs[j].ip@);
    } else {
        lemma_lex_le_refl(devs[i].ip@);
    }
}

/// Builds the final device list from the merged map: renders each entry as a
/// device, appends the scanning host itself, and sorts ascending by numeric
/// address. The result covers every entry exactly once, holds no duplicate
/// addresses, and every address in it parses.
#[verifier::rlimit(100)]
#[verifier::spinoff_prover]
#[verifier::loop_isolation(false)]
pub fn build_device_list(
    entries: &Vec<MergedEntry>,
    hostnames: &Vec<Option<String>>,
    base: &Ipv4,
    local_ip: &Ipv4,
    local_mac: &str,
) -> (r: Vec<NetworkDevice>)
    requires
        entries_wf(entries@, *base, *local_ip),
        hostnames@.len() == entries@.len(),
    ensures
        r@.len() == entries@.len() + 1,
        forall|m: int| 0 <= m < r@.len() ==> spec_parse_ipv4(#[trigger] r@[m].ip@) is Some,
        forall|i: int, j: int|
            0 <= i < j < r@.len() ==> ip_le(
                spec_parse_ipv4(r@[i].ip@).unwrap(),
                spec_parse_ipv4(r@[j].ip@).unwrap(),
            ),
        forall|i: int, j: int| 0 <= i < j < r@.len() ==> r@[i].ip@ != r@[j].ip@,
        forall|m: int|
            0 <= m < r@.len() ==> is_local_device(#[trigger] r@[m], *local_ip, local_mac@) || (
            exists|e: int|
                0 <= e < entries@.len() && device_of_entry(r@[m], entries@[e], hostnames@[e])),
        forall|e: int|
            0 <= e < entries@.len() ==> exists|m: int|
                0 <= m < r@.len() && device_of_entry(r@[m], #[trigger] entries@[e], hostnames@[e]),
        exists|m: int| 0 <= m < r@.len() && is_local_device(r@[m], *local_ip, local_mac@),
{
    broadcast use vstd::seq_lib::to_multiset_contains;
    broadcast use vstd::seq_lib::to_multiset_remove;
    broadcast use vstd::seq_lib::to_multiset_len;
    broadcast use vstd::multiset::group_multiset_axioms;

    let n = entries.len();
    let mut devices: Vec<NetworkDevice> = Vec::new();
    let mut k: usize = 0;
    while k < n
        invariant
            k <= n,
            devices@.len() == k,
            forall|m: int|
                0 <= m < k ==> device_of_entry(#[trigger] devices@[m], entries@[m], hostnames@[m]),
        decreases n - k,
    {
        let entry = &entries[k];
        let hostname = match &hostnames[k] {
            Some(h) => h.clone(),
            None => String::from_str("Unknown"),
        };
        let vendor = match get_vendor_from_mac(entry.mac.as_str()) {
            Some(v) => v,
            None => entry.method.clone(),
        };
        devices.push(
            NetworkDevice { ip: format_ipv4(&entry.ip), mac: entry.mac.clone(), hostname, vendor },
        );
        k = k + 1;
    }
    devices.push(
        NetworkDevice {
            ip: format_ipv4(local_ip),
            mac: String::from_str(local_mac),
            hostname: String::from_str("Local Machine"),
            vendor: String::from_str("Local"),
        },
    );
    let ghost devices0 = devices@;
    proof {
        assert(is_local_device(devices0[n as int], *local_ip, local_mac@));
        assert forall|m: int| 0 <= m < devices0.len() implies spec_parse_ipv4(
            #[trigger] devices0[m].ip@,
        ) is Some by {
            if m < n {
                lemma_parse_format_roundtrip(entries@[m].ip);
            } else {
                lemma_parse_format_roundtrip(*local_ip);
            }
        }
        assert forall|i: int, j: int| 0 <= i < j < devices0.len() implies devices0[i].ip@
            != devices0[j].ip@ by {
            let x = if i < n {
                entries@[i].ip
            } else {
                *local_ip
            };
            let y = if j < n {
                entries@[j].ip
            } else {
                *local_ip
            };
            lemma_parse_format_roundtrip(x);
            lemma_parse_format_roundtrip(y);
            if devices0[i].ip@ == devices0[j].ip@ {
                assert(spec_parse_ipv4(devices0[i].ip@) == spec_parse_ipv4(devices0[j].ip@));
                assert(x == y);
                if j < n {
                    assert(entries@[i].ip != entries@[j].ip);
                } else {
                    assert(entries@[i].ip != *local_ip);
                }
            }
        }
        assert(devices0.no_duplicates()) by {
            assert forall|i: int, j: int|
                0 <= i < devices0.len() && 0 <= j < devices0.len() && i != j implies devices0[i]
                != devices0[j] by {
                if i < j {
                    assert(devices0[i].ip@ != devices0[j].ip@);
                } else {
                    assert(devices0[j].ip@ != devices0[i].ip@);
                }
            }
        }
        devices0.lemma_multiset_has_no_duplicates();
    }
    let r = sort_devices(devices);
    proof {
        assert forall|m: int| 0 <= m < r@.len() implies (exists|k2: int|
            0 <= k2 < devices0.len() && devices0[k2] == #[trigger] r@[m]) by {
            assert(r@[m] == r@.index(m));
            assert(r@.contains(r@[m]));
            assert(r@.to_multiset().count(r@[m]) > 0);
            assert(devices0.to_multiset().count(r@[m]) > 0);
            assert(devices0.contains(r@[m]));
        }
        assert forall|m: int| 0 <= m < r@.len() implies spec_parse_ipv4(
            #[trigger] r@[m].ip@,
        ) is Some by {
            let k2 = choose|k2: int| 0 <= k2 < devices0.len() && devices0[k2] == r@[m];
        }
        assert forall|m: int| 0 <= m < r@.len() implies is_local_device(
            #[trigger] r@[m],
            *local_ip,
            local_mac@,
        ) || (exists|e: int|
            0 <= e < entries@.len() && device_of_entry(r@[m], entries@[e], hostnames@[e])) by {
            let k2 = choose|k2: int| 0 <= k2 < devices0.len() && devices0[k2] == r@[m];
            if k2 < n {
                assert(device_of_entry(devices0[k2], entries@[k2], hostnames@[k2]));
            }
        }
        assert forall|e: int| 0 <= e < entries@.len() implies exists|m: int|
            0 <= m < r@.len() && device_of_entry(r@[m], #[trigger] entries@[e], hostnames@[e]) by {
            assert(devices0.contains(devices0[e]));
            assert(devices0.to_multiset().count(devices0[e]) > 0);
            assert(r@.to_multiset().count(devices0[e]) > 0);
            assert(r@.contains(devices0[e]));
            let m = choose|m: int| 0 <= m < r@.len() && r@[m] == devices0[e];
            assert(device_of_entry(r@[m], entries@[e], hostnames@[e]));
        }
        assert(exists|m: int| 0 <= m < r@.len() && is_local_device(r@[m], *local_ip, local_mac@))
            by {
            assert(devices0.contains(devices0[n as int]));
            assert(devices0.to_multiset().count(devices0[n as int]) > 0);
            assert(r@.to_multiset().count(devices0[n as int]) > 0);
            assert(r@.contains(devices0[n as int]));
            let m = choose|m: int| 0 <= m < r@.len() && r@[m] == devices0[n as int];
            assert(is_local_device(r@[m], *local_ip, local_mac@));
        }
        assert forall|i: int, j: int| 0 <= i < j < r@.len() implies r@[i].ip@ != r@[j].ip@ by {
            if r@[i].ip@ == r@[j].ip@ {
                let k1 = choose|k2: int| 0 <= k2 < devices0.len() && devices0[k2] == r@[i];
                let k2 = choose|k2: int| 0 <= k2 < devices0.len() && devices0[k2] == r@[j];
                assert(devices0[k1].ip@ == devices0[k2].ip@);
                assert(k1 == k2);
                assert(r@[i] == r@[j]);
                assert(r@.remove(i).to_multiset() == r@.to_multiset().remove(r@[i]));
                assert(r@.remove(i)[j - 1] == r@[j]);
                assert(r@.remove(i).contains(r@[j]));
                assert(r@.remove(i).to_multiset().count(r@[j]) > 0);
                assert(r@.to_multiset().count(r@[i]) >= 2);
                assert(devices0.to_multiset().count(r@[i]) >= 2);
                assert(devices0.to_multiset().count(r@[i]) <= 1);
            }
        }
        assert forall|i: int, j: int| 0 <= i < j < r@.len() implies ip_le(
            spec_parse_ipv4(r@[i].ip@).unwrap(),
            spec_parse_ipv4(r@[j].ip@).unwrap(),
        ) by {
            lemma_ip_chain(r@, i, j);
        }
    }
    r
}

/// What one neighbor-discovery line reports: reachable or stale lines only,
/// their first word the address, their second its MAC.
pub open spec fn spec_neighbor_line(line: Seq<char>) -> Option<(Ipv4, Seq<char>)> {
    if has_substr(line, "Reachable"@) || has_substr(line, "Stale"@) {
        let toks = spec_tokens(line);
        if toks.len() >= 2 {
            match spec_parse_ipv4(toks[0]) {
                Some(ip) => Some((ip, toks[1])),
                None => None,
            }
        } else {
            None
        }
    } else {
        None
    }
}

/// The neighbors a discovery listing reports, line by line.
pub open spec fn spec_neighbors(lines: Seq<Seq<char>>) -> Seq<(Ipv4, Seq<char>)>
    decreases lines.len(),
{
    if lines.len() == 0 {
        Seq::<(Ipv4, Seq<char>)>::empty()
    } else {
        let p = spec_neighbors(lines.drop_last());
        match spec_neighbor_line(lines.last()) {
            Some(e) => p.push(e),
            None => p,
        }
    }
}

/// Reads a neighbor-discovery listing into records: one per reachable or
/// stale line whose first word parses as an address. Restriction to the
/// scanned subnet happens when the records are merged.
#[verifier::loop_isolation(false)]
pub fn parse_neighbor_output(output: &str) -> (r: Vec<NeighborRecord>)
    ensures
        r@.map_values(|n: NeighborRecord| (n.ip, n.mac@)) == spec_neighbors(
            split_char(output@, '\n'),
        ),
{
    let lines = split_at_char(output, '\n');
    let n = lines.len();
    let mut r: Vec<NeighborRecord> = Vec::new();
    let mut k: usize = 0;
    proof {
        assert(lines@.subrange(0, 0).map_values(|x: String| x@) =~= Seq::<Seq<char>>::empty());
        assert(r@.map_values(|x: NeighborRecord| (x.ip, x.mac@)) =~~= spec_neighbors(
            lines@.subrange(0, 0).map_values(|x: String| x@),
        ));
    }
    while k < n
        invariant
            k <= n,
            n == lines@.len(),
            lines@.map_values(|x: String| x@) == split_char(output@, '\n'),
            r@.map_values(|x: NeighborRecord| (x.ip, x.mac@)) == spec_neighbors(
                lines@.subrange(0, k as int).map_values(|x: String| x@),
            ),
        decreases n - k,
    {
        let line = &lines[k];
        if contains_substr(line.as_str(), "Reachable") || contains_substr(line.as_str(), "Stale") {
            let toks = split_tokens(line.as_str());
            if toks.len() >= 2 {
                proof {
                    assert(toks@.map_values(|x: String| x@)[0] == toks@[0]@);
                    assert(toks@.map_values(|x: String| x@)[1] == toks@[1]@);
                }
                match parse_ipv4(toks[0].as_str()) {
                    Some(ip) => {
                        r.push(NeighborRecord { ip, mac: toks[1].clone() });
                    },
                    None => {},
                }
            }
        }
        k = k + 1;
        proof {
            let ml = lines@.subrange(0, k as int).map_values(|x: String| x@);
            assert(ml.drop_last() =~~= lines@.subrange(0, k - 1).map_values(|x: String| x@));
            assert(ml.last() == lines@[k - 1]@);
            assert(r@.map_values(|x: NeighborRecord| (x.ip, x.mac@)) =~~= spec_neighbors(ml));
        }
    }
    proof {
        assert(lines@.subrange(0, n as int) =~= lines@);
        assert(lines@.subrange(0, n as int).map_values(|x: String| x@) =~~= split_char(
            output@,
            '\n',
        ));
    }
    r
}

/// What a scan of one interface works with: the interface's first address,
/// the /24 subnet around it, and the interface's MAC.
#[derive(Debug, Clone)]
pub struct ScanTarget {
    pub local_ip: Ipv4,
    pub base: Ipv4,
    pub mac: String,
}

/// Resolves the named interface for a scan: its first listed address, parsed,
/// the /24 subnet containing that address (a fixed prefix length, a
/// deliberate simplification that ignores the interface's own mask), and the
/// interface's MAC. Fails exactly when the interface is absent, has no
/// address, or its first address does not parse.
pub fn resolve_scan_target(interfaces: &Vec<CustomNetworkInterface>, interface_name: &str) -> (r:
    Result<ScanTarget, String>)
    ensures
        match r {
            Ok(t) => exists|k: int|
                0 <= k < interfaces@.len() && (#[trigger] interfaces@[k]).name@ == interface_name@
                    && interfaces@[k].ips@.len() >= 1 && spec_parse_ipv4(interfaces@[k].ips@[0]@)
                    == Some(t.local_ip) && t.base == spec_subnet24(t.local_ip) && t.mac
                    == interfaces@[k].mac,
            Err(m) => {
                ||| (forall|k: int|
                    0 <= k < interfaces@.len() ==> (#[trigger] interfaces@[k]).name@
                        != interface_name@) && m@ == spec_not_found_msg(interface_name@)
                ||| (exists|k: int|
                    0 <= k < interfaces@.len() && (#[trigger] interfaces@[k]).name@
                        == interface_name@ && interfaces@[k].ips@.len() == 0) && m@
                    == "No IPv4 address found on interface"@
                ||| (exists|k: int|
                    0 <= k < interfaces@.len() && (#[trigger] interfaces@[k]).name@
                        == interface_name@ && interfaces@[k].ips@.len() >= 1 && spec_parse_ipv4(
                        interfaces@[k].ips@[0]@,
                    ) is None) && m@ == "Invalid IP address"@
            },
        },
{
    let idx = match crate::interfaces::find_interface(interfaces, interface_name) {
        Some(i) => i,
        None => {
            return Err(not_found_message(interface_name));
        },
    };
    let iface = &interfaces[idx];
    if iface.ips.len() == 0 {
        return Err(String::from_str("No IPv4 address found on interface"));
    }
    match parse_ipv4(iface.ips[0].as_str()) {
        Some(local_ip) => {
            let base = local_ip.subnet24();
            Ok(ScanTarget { local_ip, base, mac: iface.mac.clone() })
        },
        None => Err(String::from_str("Invalid IP address")),
    }
}

/// Merges the three discovery phases in their fixed order: the neighbor-table
/// snapshot read before active probing, tagged "ARP Table"; the snapshot read
/// after it, tagged "ARP Scan"; and the neighbor-discovery listing, tagged
/// "Neighbor Discovery". Later phases overwrite earlier ones per address, so
/// a device's tag names the last phase that observed it; addresses outside
/// the subnet, and the scanning host itself, never enter.
#[verifier::loop_isolation(false)]
pub fn merge_scan_phases(
    before: &Vec<NeighborRecord>,
    after: &Vec<NeighborRecord>,
    neighbors: &Vec<NeighborRecord>,
    base: &Ipv4,
    local: &Ipv4,
) -> (r: Vec<MergedEntry>)
    ensures
        entries_wf(r@, *base, *local),
        forall|ip: Ipv4|
            #![trigger has_ip(r@, ip)]
            if record_qualifies(ip, *base, *local) {
                if found_has(neighbors@, ip) {
                    has_ip(r@, ip) && get_entry(r@, ip).mac == last_mac(neighbors@, ip)
                        && get_entry(r@, ip).method@ == "Neighbor Discovery"@
                } else if found_has(after@, ip) {
                    has_ip(r@, ip) && get_entry(r@, ip).mac == last_mac(after@, ip) && get_entry(
                        r@,
                        ip,
                    ).method@ == "ARP Scan"@
                } else if found_has(before@, ip) {
                    has_ip(r@, ip) && get_entry(r@, ip).mac == last_mac(before@, ip) && get_entry(
                        r@,
                        ip,
                    ).method@ == "ARP Table"@
                } else {
                    !has_ip(r@, ip)
                }
            } else {
                !has_ip(r@, ip)
            },
{
    let mut entries: Vec<MergedEntry> = Vec::new();
    merge_phase(&mut entries, before, "ARP Table", base, local);
    let ghost s1 = entries@;
    merge_phase(&mut entries, after, "ARP Scan", base, local);
    let ghost s2 = entries@;
    merge_phase(&mut entries, neighbors, "Neighbor Discovery", base, local);
    proof {
        assert forall|ip: Ipv4|
            record_qualifies(ip, *base, *local) implies (if found_has(neighbors@, ip) {
            has_ip(entries@, ip) && get_entry(entries@, ip).mac == last_mac(neighbors@, ip)
                && get_entry(entries@, ip).method@ == "Neighbor Discovery"@
        } else if found_has(after@, ip) {
            has_ip(entries@, ip) && get_entry(entries@, ip).mac == last_mac(after@, ip)
                && get_entry(entries@, ip).method@ == "ARP Scan"@
        } else if found_has(before@, ip) {
            has_ip(entries@, ip) && get_entry(entries@, ip).mac == last_mac(before@, ip)
                && get_entry(entries@, ip).method@ == "ARP Table"@
        } else {
            !has_ip(entries@, ip)
        }) by {
            assert(!has_ip(Seq::<MergedEntry>::empty(), ip));
            assert(found_has(before@, ip) || !found_has(before@, ip));
            assert(found_has(after@, ip) || !found_has(after@, ip));
            assert(found_has(neighbors@, ip) || !found_has(neighbors@, ip));
        }
        assert forall|ip: Ipv4|
            !record_qualifies(ip, *base, *local) implies !has_ip(entries@, ip) by {
            assert(found_has(before@, ip) || !found_has(before@, ip));
            assert(found_has(after@, ip) || !found_has(after@, ip));
            assert(found_has(neighbors@, ip) || !found_has(neighbors@, ip));
            assert(!has_ip(Seq::<MergedEntry>::empty(), ip));
        }
    }
    entries
}


/// What one lookup line answers: the text after the first "name =", up to
/// the next "name =" if any, cleaned.
pub open spec fn spec_hostname_from_line(line: Seq<char>) -> Option<Seq<char>> {
    let pat = "name ="@;
    let o = find_substr(line, pat);
    if o < 0 {
        None
    } else {
        let rest = line.subrange(o + pat.len(), line.len() as int);
        let o2 = find_substr(rest, pat);
        let seg = if o2 < 0 {
            rest
        } else {
            rest.subrange(0, o2)
        };
        Some(spec_clean_hostname(seg))
    }
}

/// The hostname a lookup listing answers: taken from its first line that
/// carries an answer.
pub open spec fn spec_hostname(lines: Seq<Seq<char>>) -> Option<Seq<char>>
    decreases lines.len(),
{
    if lines.len() == 0 {
        None
    } else {
        match spec_hostname_from_line(lines[0]) {
            Some(h) => Some(h),
            None => spec_hostname(lines.drop_first()),
        }
    }
}

/// Reads a reverse-lookup listing: the answer of the first line that carries
/// a "name =" answer, trimmed and without trailing dots; nothing when no line
/// answers.
#[verifier::loop_isolation(false)]
pub fn parse_hostname_output(output: &str) -> (r: Option<String>)
    ensures
        match r {
            Some(h) => spec_hostname(split_char(output@, '\n')) == Some(h@),
            None => spec_hostname(split_char(output@, '\n')) is None,
        },
{
    let lines = split_at_char(output, '\n');
    let n = lines.len();
    let mut k: usize = 0;
    proof {
        assert(lines@.map_values(|x: String| x@).skip(0) =~~= lines@.map_values(|x: String| x@));
    }
    while k < n
        invariant
            k <= n,
            n == lines@.len(),
            lines@.map_values(|x: String| x@) == split_char(output@, '\n'),
            spec_hostname(split_char(output@, '\n')) == spec_hostname(
                lines@.map_values(|x: String| x@).skip(k as int),
            ),
        decreases n - k,
    {
        let line = &lines[k];
        proof {
            assert(lines@.map_values(|x: String| x@).skip(k as int)[0] == line@);
        }
        let pat = "name =";
        let patlen = pat.unicode_len();
        match find_substr_at(line.as_str(), pat) {
            Some(o) => {
                let line_len = line.as_str().unicode_len();
                let rest = line.as_str().substring_char(o + patlen, line_len);
                let rest_len = rest.unicode_len();
                let segend = match find_substr_at(rest, pat) {
                    Some(o2) => o2,
                    None => rest_len,
                };
                let seg = rest.substring_char(0, segend);
                let h = clean_hostname(seg);
                proof {
                    let lv = line@;
                    let sp = "name ="@;
                    let srest = lv.subrange(o + sp.len(), lv.len() as int);
                    assert(rest@ =~= srest);
                    let so2 = find_substr(srest, sp);
                    let sseg = if so2 < 0 {
                        srest
                    } else {
                        srest.subrange(0, so2)
                    };
                    assert(seg@ =~= sseg);
                    assert(spec_hostname_from_line(lv) == Some(spec_clean_hostname(sseg)));
                    assert(spec_hostname(lines@.map_values(|x: String| x@).skip(k as int))
                        == Some(h@));
                }
                return Some(h);
            },
            None => {
                proof {
                    assert(spec_hostname_from_line(line@) is None);
                    assert(lines@.map_values(|x: String| x@).skip(k as int).drop_first()
                        =~~= lines@.map_values(|x: String| x@).skip(k + 1));
                }
            },
        }
        k = k + 1;
    }
    proof {
        assert(lines@.map_values(|x: String| x@).skip(n as int) =~~= Seq::<Seq<char>>::empty());
    }
    None
}

/// The position before the first element that does not come at or before `x`.
fn insert_pos(out: &Vec<NetworkDevice>, x: &NetworkDevice) -> (p: usize)
    ensures
        p <= out@.len(),
        forall|q: int| 0 <= q < p ==> device_le(out@[q], *x),
        p < out@.len() ==> !device_le(out@[p as int], *x),
{
    let n = out.len();
    let mut p: usize = 0;
    while p < n
        invariant
            p <= n,
            n == out@.len(),
            forall|q: int| 0 <= q < p ==> device_le(out@[q], *x),
        decreases n - p,
    {
        if !device_le_exec(&out[p], x) {
            return p;
        }
        p = p + 1;
    }
    p
}

} // verus!
