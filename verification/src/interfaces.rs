//! Interface enumeration: the operating system's interface addresses come in
//! through trusted wrappers; grouping, filtering and MAC resolution are
//! verified. An interface is usable when it has at least one IPv4 address
//! that is neither loopback nor link-local.

use vstd::prelude::*;

use network_interface::NetworkInterfaceConfig;

use crate::ip::{Ipv4, format_ipv4, spec_ipv4_str, spec_is_link_local, spec_is_loopback, spec_parse_ipv4};
use crate::scan::zero_mac_str;
use crate::text::{starts_with, str_eq};

verus! {

/// An interface address: the four octets of an IPv4 address, or a marker for
/// an IPv6 one, which enumeration discards.
#[derive(Debug, Clone, Copy, PartialEq, Eq, Structural)]
pub enum RawIp {
    V4(Ipv4),
    V6,
}

/// One interface address as the operating system reports it.
#[derive(Debug, Clone)]
pub struct RawIfAddr {
    pub name: String,
    pub addr: RawIp,
}

/// Secondary interface information: a name and possibly a MAC address.
#[derive(Debug, Clone)]
pub struct RawIfInfo {
    pub name: String,
    pub mac: Option<String>,
}

/// A usable network interface: its name, a readable description, its MAC, and
/// its qualifying IPv4 addresses in dotted-quad form.
#[derive(Debug, Clone)]
pub struct CustomNetworkInterface {
    pub name: String,
    pub description: String,
    pub mac: String,
    pub ips: Vec<String>,
}

/// Whether an address counts toward enumeration: IPv4, not loopback, not
/// link-local.
pub open spec fn addr_qualifies(r: RawIfAddr) -> bool {
    match r.addr {
        RawIp::V4(ip) => !spec_is_loopback(ip) && !spec_is_link_local(ip),
        RawIp::V6 => false,
    }
}

/// The address of a qualifying entry.
pub open spec fn v4_of(r: RawIfAddr) -> Ipv4 {
    match r.addr {
        RawIp::V4(ip) => ip,
        RawIp::V6 => arbitrary(),
    }
}

/// The names of the qualifying addresses, each kept once, in first-seen
/// order.
pub open spec fn spec_group_names(raw: Seq<RawIfAddr>) -> Seq<Seq<char>>
    decreases raw.len(),
{
    if raw.len() == 0 {
        Seq::<Seq<char>>::empty()
    } else {
        let p = spec_group_names(raw.drop_last());
        if addr_qualifies(raw.last()) && !p.contains(raw.last().name@) {
            p.push(raw.last().name@)
        } else {
            p
        }
    }
}

/// The rendered qualifying addresses of the named interface, in order.
pub open spec fn spec_ips_for(raw: Seq<RawIfAddr>, name: Seq<char>) -> Seq<Seq<char>>
    decreases raw.len(),
{
    if raw.len() == 0 {
        Seq::<Seq<char>>::empty()
    } else {
        let p = spec_ips_for(raw.drop_last(), name);
        if addr_qualifies(raw.last()) && raw.last().name@ == name {
            p.push(spec_ipv4_str(v4_of(raw.last())))
        } else {
            p
        }
    }
}

/// The MAC resolved for the named interface: the first secondary entry with
/// that name, or the all-zero sentinel when none matches or the matching one
/// carries no MAC.
pub open spec fn spec_mac_for(infos: Seq<RawIfInfo>, name: Seq<char>) -> Seq<char>
    decreases infos.len(),
{
    if infos.len() == 0 {
        zero_mac_str()
    } else if infos[0].name@ == name {
        match infos[0].mac {
            Some(m) => m@,
            None => zero_mac_str(),
        }
    } else {
        spec_mac_for(infos.drop_first(), name)
    }
}

/// Addresses joined with a comma and a space.
pub open spec fn spec_join_comma(ips: Seq<Seq<char>>) -> Seq<char>
    decreases ips.len(),
{
    if ips.len() == 0 {
        Seq::<char>::empty()
    } else if ips.len() == 1 {
        ips[0]
    } else {
        spec_join_comma(ips.drop_last()) + ", "@ + ips.last()
    }
}

/// An interface's description: its name and its addresses.
pub open spec fn spec_description(name: Seq<char>, ips: Seq<Seq<char>>) -> Seq<char> {
    name + " - "@ + spec_join_comma(ips)
}

/// A name is grouped exactly when some qualifying address carries it.
proof fn lemma_group_names_complete(raw: Seq<RawIfAddr>, name: Seq<char>)
    ensures
        spec_group_names(raw).contains(name) <==> (exists|i: int|
            0 <= i < raw.len() && addr_qualifies(#[trigger] raw[i]) && raw[i].name@ == name),
    decreases raw.len(),
{
    if raw.len() > 0 {
        lemma_group_names_complete(raw.drop_last(), name);
        let p = spec_group_names(raw.drop_last());
        if addr_qualifies(raw.last()) && !p.contains(raw.last().name@) {
            assert(spec_group_names(raw) == p.push(raw.last().name@));
            if spec_group_names(raw).contains(name) {
                let w = choose|w: int|
                    0 <= w < spec_group_names(raw).len() && spec_group_names(raw)[w] == name;
                if w < p.len() {
                    assert(p.contains(name));
                    let i = choose|i: int|
                        0 <= i < raw.drop_last().len() && addr_qualifies(
                            #[trigger] raw.drop_last()[i],
                        ) && raw.drop_last()[i].name@ == name;
                    assert(raw[i] == raw.drop_last()[i]);
                } else {
                    assert(name == raw.last().name@);
                    assert(addr_qualifies(raw[raw.len() - 1]) && raw[raw.len() - 1].name@ == name);
                }
            }
            if exists|i: int|
                0 <= i < raw.len() && addr_qualifies(#[trigger] raw[i]) && raw[i].name@ == name {
                let i = choose|i: int|
                    0 <= i < raw.len() && addr_qualifies(#[trigger] raw[i]) && raw[i].name@
                        == name;
                if i < raw.len() - 1 {
                    assert(raw.drop_last()[i] == raw[i]);
                    assert(p.contains(name));
                    assert(spec_group_names(raw)[choose|w: int|
                        0 <= w < p.len() && p[w] == name] == name);
                } else {
                    assert(spec_group_names(raw).last() == name);
                }
            }
        } else {
            assert(spec_group_names(raw) == p);
            if spec_group_names(raw).contains(name) {
                let i = choose|i: int|
                    0 <= i < raw.drop_last().len() && addr_qualifies(#[trigger] raw.drop_last()[i])
                        && raw.drop_last()[i].name@ == name;
                assert(raw[i] == raw.drop_last()[i]);
                assert(addr_qualifies(raw[i]) && raw[i].name@ == name);
            }
            if exists|i: int|
                0 <= i < raw.len() && addr_qualifies(#[trigger] raw[i]) && raw[i].name@ == name {
                let i = choose|i: int|
                    0 <= i < raw.len() && addr_qualifies(#[trigger] raw[i]) && raw[i].name@
                        == name;
                if i == raw.len() - 1 {
                    if addr_qualifies(raw.last()) {
                        assert(p.contains(raw.last().name@));
                    }
                } else {
                    assert(raw.drop_last()[i] == raw[i]);
                }
            }
        }
    }
}

/// Grouped names are pairwise distinct: a name is only added when it is not
/// yet grouped.
proof fn lemma_group_names_distinct(raw: Seq<RawIfAddr>)
    ensures
        forall|k1: int, k2: int|
            0 <= k1 < k2 < spec_group_names(raw).len() ==> spec_group_names(raw)[k1]
                != spec_group_names(raw)[k2],
    decreases raw.len(),
{
    if raw.len() > 0 {
        lemma_group_names_distinct(raw.drop_last());
        let p = spec_group_names(raw.drop_last());
        if addr_qualifies(raw.last()) && !p.contains(raw.last().name@) {
            assert forall|k1: int, k2: int|
                0 <= k1 < k2 < spec_group_names(raw).len() implies spec_group_names(raw)[k1]
                != spec_group_names(raw)[k2] by {
                if k2 == spec_group_names(raw).len() - 1 {
                    assert(p[k1] != raw.last().name@);
                }
            }
        }
    }
}

/// Every rendered address of a grouped interface is a canonical dotted quad.
proof fn lemma_ips_for_parse(raw: Seq<RawIfAddr>, name: Seq<char>)
    ensures
        forall|j: int|
            0 <= j < spec_ips_for(raw, name).len() ==> spec_parse_ipv4(
                #[trigger] spec_ips_for(raw, name)[j],
            ) is Some,
    decreases raw.len(),
{
    if raw.len() > 0 {
        lemma_ips_for_parse(raw.drop_last(), name);
        if addr_qualifies(raw.last()) && raw.last().name@ == name {
            crate::ip::lemma_parse_format_roundtrip(v4_of(raw.last()));
        }
    }
}

/// A name no qualifying address carries has no rendered addresses.
proof fn lemma_ips_for_empty(raw: Seq<RawIfAddr>, name: Seq<char>)
    requires
        forall|i: int|
            0 <= i < raw.len() ==> !(addr_qualifies(#[trigger] raw[i]) && raw[i].name@ == name),
    ensures
        spec_ips_for(raw, name).len() == 0,
    decreases raw.len(),
{
    if raw.len() > 0 {
        assert(forall|i: int|
            0 <= i < raw.drop_last().len() ==> raw.drop_last()[i] == raw[i]);
        lemma_ips_for_empty(raw.drop_last(), name);
    }
}

fn find_name(names: &Vec<String>, name: &str) -> (r: Option<usize>)
    ensures
        match r {
            Some(i) => i < names@.len() && names@[i as int]@ == name@,
            None => forall|j: int| 0 <= j < names@.len() ==> names@[j]@ != name@,
        },
{
    let n = names.len();
    let mut i: usize = 0;
    while i < n
        invariant
            i <= n,
            n == names@.len(),
            forall|j: int| 0 <= j < i ==> names@[j]@ != name@,
        decreases n - i,
    {
        if str_eq(names[i].as_str(), name) {
            return Some(i);
        }
        i = i + 1;
    }
    None
}

/// Resolves the MAC for an interface name from the secondary source,
/// substituting the all-zero sentinel when nothing matches.
fn find_mac(infos: &Vec<RawIfInfo>, name: &str) -> (r: String)
    ensures
        r@ == spec_mac_for(infos@, name@),
{
    let n = infos.len();
    let mut i: usize = 0;
    proof {
        assert(infos@.skip(0) =~= infos@);
    }
    while i < n
        invariant
            i <= n,
            n == infos@.len(),
            spec_mac_for(infos@, name@) == spec_mac_for(infos@.skip(i as int), name@),
        decreases n - i,
    {
        proof {
            assert(infos@.skip(i as int)[0] == infos@[i as int]);
        }
        if str_eq(infos[i].name.as_str(), name) {
            match &infos[i].mac {
                Some(m) => {
                    return m.clone();
                },
                None => {
                    return String::from_str("00:00:00:00:00:00");
                },
            }
        }
        proof {
            assert(infos@.skip(i as int).drop_first() =~= infos@.skip(i + 1));
        }
        i = i + 1;
    }
    proof {
        assert(infos@.skip(i as int) =~= Seq::<RawIfInfo>::empty());
    }
    String::from_str("00:00:00:00:00:00")
}

/// Renders an interface's description: its name followed by its addresses.
fn build_description(name: &str, ips: &Vec<String>) -> (r: String)
    ensures
        r@ == spec_description(name@, ips@.map_values(|s: String| s@)),
{
    let mut s = String::from_str(name);
    s.append(" - ");
    proof {
        assert(ips@.subrange(0, 0).map_values(|x: String| x@) =~= Seq::<Seq<char>>::empty());
        assert(s@ =~= name@ + " - "@ + spec_join_comma(Seq::<Seq<char>>::empty()));
    }
    let n = ips.len();
    let mut i: usize = 0;
    while i < n
        invariant
            i <= n,
            n == ips@.len(),
            s@ == name@ + " - "@ + spec_join_comma(ips@.subrange(0, i as int).map_values(|x: String| x@)),
        decreases n - i,
    {
        if i > 0 {
            s.append(", ");
        }
        s.append(ips[i].as_str());
        i = i + 1;
        proof {
            reveal_strlit(", ");
            let mv = ips@.subrange(0, i as int).map_values(|x: String| x@);
            let mv0 = ips@.subrange(0, i - 1).map_values(|x: String| x@);
            assert(ips@.subrange(0, i as int).drop_last() =~= ips@.subrange(0, i - 1));
            assert(mv.drop_last() =~= mv0);
            assert(mv.last() == ips@[i - 1]@);
            if i == 1 {
                assert(spec_join_comma(mv) == mv[0]);
                assert(s@ =~= name@ + " - "@ + spec_join_comma(mv));
            } else {
                assert(spec_join_comma(mv) == spec_join_comma(mv0) + ", "@ + mv.last());
                assert(s@ =~= name@ + " - "@ + spec_join_comma(mv));
            }
        }
    }
    proof {
        assert(ips@.subrange(0, n as int) =~= ips@);
    }
    s
}

fn clone_strings(v: &Vec<String>) -> (r: Vec<String>)
    ensures
        r@ == v@,
{
    let n = v.len();
    let mut r: Vec<String> = Vec::new();
    let mut i: usize = 0;
    while i < n
        invariant
            i <= n,
            n == v@.len(),
            r@.len() == i,
            forall|j: int| 0 <= j < i ==> r@[j] == v@[j],
        decreases n - i,
    {
        r.push(v[i].clone());
        i = i + 1;
    }
    proof {
        assert(r@ =~= v@);
    }
    r
}

/// Groups the reported addresses into usable interfaces: qualifying addresses
/// only, grouped by interface name in first-seen order, each interface with
/// its resolved MAC and a description listing its addresses. Fails exactly
/// when no address qualifies.
#[verifier::loop_isolation(false)]
pub fn group_interfaces(raw: &Vec<RawIfAddr>, infos: &Vec<RawIfInfo>) -> (r: Result<
    Vec<CustomNetworkInterface>,
    String,
>)
    ensures
        match r {
            Ok(ifs) => {
                &&& ifs@.len() == spec_group_names(raw@).len()
                &&& ifs@.len() >= 1
                &&& forall|k: int|
                    0 <= k < ifs@.len() ==> (#[trigger] ifs@[k]).name@ == spec_group_names(raw@)[k]
                        && ifs@[k].ips@.map_values(|s: String| s@) == spec_ips_for(
                        raw@,
                        spec_group_names(raw@)[k],
                    ) && ifs@[k].ips@.len() >= 1 && ifs@[k].mac@ == spec_mac_for(
                        infos@,
                        spec_group_names(raw@)[k],
                    ) && ifs@[k].description@ == spec_description(
                        spec_group_names(raw@)[k],
                        spec_ips_for(raw@, spec_group_names(raw@)[k]),
                    )
            },
            Err(m) => {
                &&& forall|i: int| 0 <= i < raw@.len() ==> !addr_qualifies(#[trigger] raw@[i])
                &&& m@ == "No suitable network interfaces found"@
            },
        },
{
    let n = raw.len();
    let mut names: Vec<String> = Vec::new();
    let mut ip_lists: Vec<Vec<String>> = Vec::new();
    let mut k: usize = 0;
    while k < n
        invariant
            k <= n,
            n == raw@.len(),
            names@.len() == ip_lists@.len(),
            forall|t1: int, t2: int|
                0 <= t1 < t2 < names@.len() ==> names@[t1]@ != names@[t2]@,
            names@.map_values(|s: String| s@) == spec_group_names(raw@.subrange(0, k as int)),
            forall|t: int|
                0 <= t < names@.len() ==> (#[trigger] ip_lists@[t])@.map_values(|s: String| s@)
                    == spec_ips_for(raw@.subrange(0, k as int), names@[t]@),
            forall|t: int| 0 <= t < ip_lists@.len() ==> (#[trigger] ip_lists@[t])@.len() >= 1,
        decreases n - k,
    {
        let ghost prefix = raw@.subrange(0, k as int);
        let ghost prefix2 = raw@.subrange(0, k + 1);
        let ghost names0 = names@;
        let ghost lists0 = ip_lists@;
        proof {
            assert(prefix2.drop_last() =~= prefix);
            assert(prefix2.last() == raw@[k as int]);
        }
        let entry = &raw[k];
        match entry.addr {
            RawIp::V4(ip) => {
                if !ip.is_loopback() && !ip.is_link_local() {
                    let formatted = format_ipv4(&ip);
                    match find_name(&names, entry.name.as_str()) {
                        Some(idx) => {
                            let mut lst = ip_lists.remove(idx);
                            lst.push(formatted);
                            ip_lists.insert(idx, lst);
                            proof {
                                assert(names@.map_values(|s: String| s@).contains(
                                    entry.name@,
                                )) by {
                                    assert(names@.map_values(|s: String| s@)[idx as int]
                                        == entry.name@);
                                }
                                assert(names@.map_values(|s: String| s@) =~= spec_group_names(
                                    prefix2,
                                ));
                                assert(ip_lists@ =~= lists0.update(
                                    idx as int,
                                    ip_lists@[idx as int],
                                ));
                                assert forall|t: int| 0 <= t < names@.len() implies (
                                #[trigger] ip_lists@[t])@.map_values(|s: String| s@)
                                    == spec_ips_for(prefix2, names@[t]@) by {
                                    if t == idx {
                                        assert(ip_lists@[t]@ =~= lists0[t]@.push(
                                            ip_lists@[t]@.last(),
                                        ));
                                        assert(ip_lists@[t]@.last()@ == spec_ipv4_str(ip));
                                        assert(ip_lists@[t]@.map_values(|s: String| s@)
                                            =~= lists0[t]@.map_values(|s: String| s@).push(
                                            spec_ipv4_str(ip),
                                        ));
                                        assert(spec_ips_for(prefix2, names@[t]@) == spec_ips_for(
                                            prefix,
                                            names@[t]@,
                                        ).push(spec_ipv4_str(ip)));
                                    } else {
                                        assert(ip_lists@[t] == lists0[t]);
                                        assert(names@[t]@ != names@[idx as int]@);
                                        assert(spec_ips_for(prefix2, names@[t]@) == spec_ips_for(
                                            prefix,
                                            names@[t]@,
                                        ));
                                    }
                                }
                            }
                        },
                        None => {
                            names.push(entry.name.clone());
                            let mut lst: Vec<String> = Vec::new();
                            lst.push(formatted);
                            ip_lists.push(lst);
                            proof {
                                assert(!names0.map_values(|s: String| s@).contains(entry.name@));
                                assert(names@.map_values(|s: String| s@) =~= spec_group_names(
                                    prefix2,
                                ));
                                lemma_group_names_complete(prefix, entry.name@);
                                assert forall|i: int| 0 <= i < prefix.len() implies !(
                                addr_qualifies(#[trigger] prefix[i]) && prefix[i].name@
                                    == entry.name@) by {
                                    if addr_qualifies(prefix[i]) && prefix[i].name@
                                        == entry.name@ {
                                        assert(spec_group_names(prefix).contains(entry.name@));
                                    }
                                }
                                lemma_ips_for_empty(prefix, entry.name@);
                                assert forall|t: int| 0 <= t < names@.len() implies (
                                #[trigger] ip_lists@[t])@.map_values(|s: String| s@)
                                    == spec_ips_for(prefix2, names@[t]@) by {
                                    if t == names@.len() - 1 {
                                        assert(ip_lists@[t]@ =~= Seq::<String>::empty().push(
                                            ip_lists@[t]@.last(),
                                        ));
                                        assert(ip_lists@[t]@.last()@ == spec_ipv4_str(ip));
                                        assert(spec_ips_for(prefix2, names@[t]@) == spec_ips_for(
                                            prefix,
                                            names@[t]@,
                                        ).push(spec_ipv4_str(ip)));
                                        assert(ip_lists@[t]@.map_values(|s: String| s@)
                                            =~= spec_ips_for(prefix2, names@[t]@));
                                    } else {
                                        assert(ip_lists@[t] == lists0[t]);
                                        assert(names@[t]@ != entry.name@);
                                        assert(spec_ips_for(prefix2, names@[t]@) == spec_ips_for(
                                            prefix,
                                            names@[t]@,
                                        ));
                                        assert(ip_lists@[t]@.map_values(|s: String| s@)
                                            =~= spec_ips_for(prefix2, names@[t]@));
                                    }
                                }
                            }
                        },
                    }
                } else {
                    proof {
                        assert(!addr_qualifies(raw@[k as int]));
                        assert(names@.map_values(|s: String| s@) =~= spec_group_names(prefix2));
                        assert forall|t: int| 0 <= t < names@.len() implies (
                        #[trigger] ip_lists@[t])@.map_values(|s: String| s@) == spec_ips_for(
                            prefix2,
                            names@[t]@,
                        ) by {
                            assert(spec_ips_for(prefix2, names@[t]@) == spec_ips_for(
                                prefix,
                                names@[t]@,
                            ));
                        }
                    }
                }
            },
            RawIp::V6 => {
                proof {
                    assert(!addr_qualifies(raw@[k as int]));
                    assert(names@.map_values(|s: String| s@) =~= spec_group_names(prefix2));
                    assert forall|t: int| 0 <= t < names@.len() implies (
                    #[trigger] ip_lists@[t])@.map_values(|s: String| s@) == spec_ips_for(
                        prefix2,
                        names@[t]@,
                    ) by {
                        assert(spec_ips_for(prefix2, names@[t]@) == spec_ips_for(
                            prefix,
                            names@[t]@,
                        ));
                    }
                }
            },
        }
        k = k + 1;
    }
    proof {
        assert(raw@.subrange(0, n as int) =~= raw@);
    }
    if names.len() == 0 {
        proof {
            assert forall|i: int| 0 <= i < raw@.len() implies !addr_qualifies(
                #[trigger] raw@[i],
            ) by {
                lemma_group_names_complete(raw@, raw@[i].name@);
                if addr_qualifies(raw@[i]) {
                    assert(spec_group_names(raw@).contains(raw@[i].name@));
                }
            }
        }
        return Err(String::from_str("No suitable network interfaces found"));
    }
    let m = names.len();
    let mut interfaces: Vec<CustomNetworkInterface> = Vec::new();
    let mut t: usize = 0;
    while t < m
        invariant
            t <= m,
            m == names@.len(),
            names@.len() == ip_lists@.len(),
            names@.map_values(|s: String| s@) == spec_group_names(raw@),
            forall|u: int|
                0 <= u < names@.len() ==> (#[trigger] ip_lists@[u])@.map_values(|s: String| s@)
                    == spec_ips_for(raw@, names@[u]@),
            forall|u: int| 0 <= u < ip_lists@.len() ==> (#[trigger] ip_lists@[u])@.len() >= 1,
            interfaces@.len() == t,
            forall|u: int|
                0 <= u < t ==> (#[trigger] interfaces@[u]).name@ == names@[u]@
                    && interfaces@[u].ips@ == ip_lists@[u]@ && interfaces@[u].mac@ == spec_mac_for(
                    infos@,
                    names@[u]@,
                ) && interfaces@[u].description@ == spec_description(
                    names@[u]@,
                    ip_lists@[u]@.map_values(|s: String| s@),
                ),
        decreases m - t,
    {
        let name = &names[t];
        let mac = find_mac(infos, name.as_str());
        let description = build_description(name.as_str(), &ip_lists[t]);
        let ips = clone_strings(&ip_lists[t]);
        interfaces.push(CustomNetworkInterface { name: name.clone(), description, mac, ips });
        t = t + 1;
    }
    proof {
        assert forall|k2: int| 0 <= k2 < interfaces@.len() implies (#[trigger] interfaces@[k2]).name@
            == spec_group_names(raw@)[k2] && interfaces@[k2].ips@.map_values(|s: String| s@)
            == spec_ips_for(raw@, spec_group_names(raw@)[k2]) && interfaces@[k2].ips@.len() >= 1
            && interfaces@[k2].mac@ == spec_mac_for(infos@, spec_group_names(raw@)[k2])
            && interfaces@[k2].description@ == spec_description(
            spec_group_names(raw@)[k2],
            spec_ips_for(raw@, spec_group_names(raw@)[k2]),
        ) by {
            assert(names@.map_values(|s: String| s@)[k2] == names@[k2]@);
        }
    }
    Ok(interfaces)
}

/// Relies on if_addrs::get_if_addrs: the operating system's interface
/// addresses, each converted one to one into a name and an address. Which
/// addresses come back depends on the machine, so nothing is assumed of them.
#[verifier::external_body]
fn fetch_if_addrs() -> (r: Result<Vec<RawIfAddr>, String>)
    ensures
        r matches Err(m) ==> starts_with(m@, "Failed to get interfaces: "@),
{
    let conv = |i: if_addrs::Interface| match i.addr {
        if_addrs::IfAddr::V4(v4) => {
            let o = v4.ip.octets();
            RawIfAddr { name: i.name, addr: RawIp::V4(Ipv4 { a: o[0], b: o[1], c: o[2], d: o[3] }) }
        },
        if_addrs::IfAddr::V6(_) => RawIfAddr { name: i.name, addr: RawIp::V6 },
    };
    match if_addrs::get_if_addrs() {
        Ok(list) => Ok(list.into_iter().map(conv).collect()),
        Err(e) => Err(format!("Failed to get interfaces: {}", e)),
    }
}

/// Relies on network_interface::NetworkInterface::show: the system's
/// interface descriptions, each converted one to one into a name and an
/// optional MAC string. Which interfaces come back depends on the machine, so
/// nothing is assumed of them.
#[verifier::external_body]
fn fetch_interface_infos() -> (r: Result<Vec<RawIfInfo>, String>)
    ensures
        r matches Err(m) ==> starts_with(m@, "Failed to get network interfaces: "@),
{
    match network_interface::NetworkInterface::show() {
        Ok(list) => Ok(
            list.into_iter().map(|ni| RawIfInfo { name: ni.name, mac: ni.mac_addr }).collect(),
        ),
        Err(e) => Err(format!("Failed to get network interfaces: {}", e)),
    }
}

/// Enumerates the machine's usable network interfaces: every interface with
/// at least one IPv4 address that is neither loopback nor link-local, with
/// its addresses and its MAC. Fails when the system cannot be queried or no
/// interface qualifies; every interface returned has at least one address.
pub fn get_interfaces() -> (r: Result<Vec<CustomNetworkInterface>, String>)
    ensures
        match r {
            Ok(ifs) => {
                &&& ifs@.len() >= 1
                &&& forall|k: int| 0 <= k < ifs@.len() ==> (#[trigger] ifs@[k]).ips@.len() >= 1
                &&& forall|k1: int, k2: int|
                    0 <= k1 < k2 < ifs@.len() ==> ifs@[k1].name@ != ifs@[k2].name@
                &&& forall|k: int, j: int|
                    0 <= k < ifs@.len() && 0 <= j < ifs@[k].ips@.len() ==> spec_parse_ipv4(
                        #[trigger] ifs@[k].ips@[j]@,
                    ) is Some
                &&& forall|k: int|
                    0 <= k < ifs@.len() ==> (#[trigger] ifs@[k]).description@ == spec_description(
                        ifs@[k].name@,
                        ifs@[k].ips@.map_values(|s: String| s@),
                    )
            },
            Err(m) => m@ == "No suitable network interfaces found"@ || starts_with(
                m@,
                "Failed to get interfaces: "@,
            ) || starts_with(m@, "Failed to get network interfaces: "@),
        },
{
    let raw = match fetch_if_addrs() {
        Ok(raw) => raw,
        Err(e) => {
            return Err(e);
        },
    };
    let infos = match fetch_interface_infos() {
        Ok(infos) => infos,
        Err(e) => {
            return Err(e);
        },
    };
    match group_interfaces(&raw, &infos) {
        Ok(ifs) => {
            proof {
                lemma_group_names_distinct(raw@);
                assert forall|k1: int, k2: int|
                    0 <= k1 < k2 < ifs@.len() implies ifs@[k1].name@ != ifs@[k2].name@ by {
                    assert(spec_group_names(raw@)[k1] != spec_group_names(raw@)[k2]);
                }
                assert forall|k: int, j: int|
                    0 <= k < ifs@.len() && 0 <= j < ifs@[k].ips@.len() implies spec_parse_ipv4(
                    #[trigger] ifs@[k].ips@[j]@,
                ) is Some by {
                    lemma_ips_for_parse(raw@, spec_group_names(raw@)[k]);
                    assert(ifs@[k].ips@.map_values(|s: String| s@)[j] == ifs@[k].ips@[j]@);
                    assert(spec_ips_for(raw@, spec_group_names(raw@)[k])[j] == ifs@[k].ips@[j]@);
                }
                assert forall|k: int| 0 <= k < ifs@.len() implies (#[trigger] ifs@[k]).description@
                    == spec_description(
                    ifs@[k].name@,
                    ifs@[k].ips@.map_values(|s: String| s@),
                ) by {
                    assert(ifs@[k].ips@.map_values(|s: String| s@) == spec_ips_for(
                        raw@,
                        spec_group_names(raw@)[k],
                    ));
                }
            }
            Ok(ifs)
        },
        Err(e) => Err(e),
    }
}

/// The position of the named interface in an enumeration.
pub fn find_interface(interfaces: &Vec<CustomNetworkInterface>, name: &str) -> (r: Option<usize>)
    ensures
        match r {
            Some(i) => i < interfaces@.len() && interfaces@[i as int].name@ == name@ && (forall|
                j: int,
            |
                0 <= j < i ==> interfaces@[j].name@ != name@),
            None => forall|j: int| 0 <= j < interfaces@.len() ==> interfaces@[j].name@ != name@,
        },
{
    let n = interfaces.len();
    let mut i: usize = 0;
    while i < n
        invariant
            i <= n,
            n == interfaces@.len(),
            forall|j: int| 0 <= j < i ==> interfaces@[j].name@ != name@,
        decreases n - i,
    {
        if str_eq(interfaces[i].name.as_str(), name) {
            return Some(i);
        }
        i = i + 1;
    }
    None
}

/// The not-found message for an interface name.
pub open spec fn spec_not_found_msg(name: Seq<char>) -> Seq<char> {
    "Interface '"@ + name + "' not found"@
}

/// Renders the not-found message for an interface name.
pub fn not_found_message(name: &str) -> (r: String)
    ensures
        r@ == spec_not_found_msg(name@),
{
    let mut s = String::from_str("Interface '");
    s.append(name);
    s.append("' not found");
    proof {
        assert(s@ =~= spec_not_found_msg(name@));
    }
    s
}

/// The MAC of the named interface within an enumeration: the first interface
/// with that name yields its MAC; an absent name yields the not-found error.
pub fn find_interface_mac(interfaces: &Vec<CustomNetworkInterface>, name: &str) -> (r: Result<
    String,
    String,
>)
    ensures
        match r {
            Ok(mac) => exists|k: int|
                0 <= k < interfaces@.len() && (#[trigger] interfaces@[k]).name@ == name@ && (forall|
                    j: int,
                |
                    0 <= j < k ==> interfaces@[j].name@ != name@) && mac == interfaces@[k].mac,
            Err(m) => (forall|k: int|
                0 <= k < interfaces@.len() ==> (#[trigger] interfaces@[k]).name@ != name@) && m@
                == spec_not_found_msg(name@),
        },
{
    match find_interface(interfaces, name) {
        Some(i) => Ok(interfaces[i].mac.clone()),
        None => Err(not_found_message(name)),
    }
}

/// The MAC of the named interface, from a fresh enumeration. The exact
/// success and failure conditions over the enumerated list are those of
/// `find_interface_mac`, which this delegates to; any error is either that
/// lookup's not-found message or one of the enumeration's errors.
pub fn get_interface_mac(interface_name: &str) -> (r: Result<String, String>)
    ensures
        r matches Err(m) ==> m@ == spec_not_found_msg(interface_name@) || m@
            == "No suitable network interfaces found"@ || starts_with(
            m@,
            "Failed to get interfaces: "@,
        ) || starts_with(m@, "Failed to get network interfaces: "@),
{
    let interfaces = match get_interfaces() {
        Ok(ifs) => ifs,
        Err(e) => {
            return Err(e);
        },
    };
    find_interface_mac(&interfaces, interface_name)
}

} // verus!
