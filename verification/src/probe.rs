//! Active-probe planning. The probes themselves only trigger traffic so the
//! neighbor cache fills; the front end dispatches them. What is computed here
//! and verified is which addresses are probed, how they are batched to bound
//! concurrency, and which ports the port probe touches.

use vstd::prelude::*;

use crate::ip::{Ipv4, format_ipv4, spec_ipv4_str};

verus! {

/// The echo probe joins its workers in batches of this size.
pub const PING_BATCH: usize = 30;

/// The neighbor-resolution trigger joins its workers in batches of this size.
pub const ARP_BATCH: usize = 20;

/// The port probe joins its workers in batches of this size.
pub const PORT_BATCH: usize = 50;

/// The common service ports the port probe connects to.
pub open spec fn spec_common_ports() -> Seq<u16> {
    seq![80u16, 443u16, 22u16, 21u16, 23u16, 25u16, 53u16, 110u16, 995u16, 993u16, 143u16, 587u16]
}

/// The common service ports the port probe connects to.
pub fn common_ports() -> (r: Vec<u16>)
    ensures
        r@ == spec_common_ports(),
{
    let mut r: Vec<u16> = Vec::new();
    r.push(80);
    r.push(443);
    r.push(22);
    r.push(21);
    r.push(23);
    r.push(25);
    r.push(53);
    r.push(110);
    r.push(995);
    r.push(993);
    r.push(143);
    r.push(587);
    proof {
        assert(r@ =~= spec_common_ports());
    }
    r
}

/// The host address at the given offset in the subnet.
pub open spec fn spec_host_at(base: Ipv4, d: int) -> Ipv4 {
    Ipv4 { a: base.a, b: base.b, c: base.c, d: d as u8 }
}

/// The 254 host addresses a probe sweep covers: offsets 1 through 254 from
/// the subnet's network address, each rendered in dotted-quad form. The
/// network address itself is not probed.
pub fn probe_targets(base: &Ipv4) -> (r: Vec<String>)
    ensures
        r@.len() == 254,
        forall|i: int|
            0 <= i < 254 ==> (#[trigger] r@[i])@ == spec_ipv4_str(spec_host_at(*base, i + 1)),
{
    let mut r: Vec<String> = Vec::new();
    let mut d: usize = 1;
    while d <= 254
        invariant
            1 <= d <= 255,
            r@.len() == d - 1,
            forall|i: int|
                0 <= i < d - 1 ==> (#[trigger] r@[i])@ == spec_ipv4_str(spec_host_at(*base, i + 1)),
        decreases 255 - d,
    {
        let host = Ipv4 { a: base.a, b: base.b, c: base.c, d: d as u8 };
        r.push(format_ipv4(&host));
        d = d + 1;
    }
    r
}

/// Splits the targets into batches of at most `size`, keeping their order:
/// flattened, the batches give back exactly the target list. The front end
/// dispatches one batch of probe workers at a time and joins it before the
/// next, so never more than `size` workers are outstanding.
#[verifier::loop_isolation(false)]
pub fn batch_targets(targets: Vec<String>, size: usize) -> (r: Vec<Vec<String>>)
    requires
        size >= 1,
    ensures
        r@.map_values(|b: Vec<String>| b@).flatten() == targets@,
        forall|i: int| 0 <= i < r@.len() ==> (#[trigger] r@[i])@.len() <= size,
{
    let n = targets.len();
    let mut r: Vec<Vec<String>> = Vec::new();
    let mut cur: Vec<String> = Vec::new();
    let mut k: usize = 0;
    proof {
        assert(r@.map_values(|b: Vec<String>| b@).flatten() =~= Seq::<String>::empty());
        assert(targets@.subrange(0, 0) =~= Seq::<String>::empty());
    }
    while k < n
        invariant
            k <= n,
            n == targets@.len(),
            cur@.len() < size,
            r@.map_values(|b: Vec<String>| b@).flatten() + cur@ == targets@.subrange(0, k as int),
            forall|i: int| 0 <= i < r@.len() ==> (#[trigger] r@[i])@.len() <= size,
        decreases n - k,
    {
        let ghost rs0 = r@.map_values(|b: Vec<String>| b@);
        cur.push(targets[k].clone());
        k = k + 1;
        proof {
            assert(rs0.flatten() + cur@ =~= targets@.subrange(0, k as int));
        }
        if cur.len() == size {
            let full = cur;
            cur = Vec::new();
            r.push(full);
            proof {
                let rs = r@.map_values(|b: Vec<String>| b@);
                assert(rs =~= rs0.push(full@));
                vstd::seq_lib::lemma_flatten_concat(rs0, seq![full@]);
                assert(rs =~= rs0 + seq![full@]);
                assert(seq![full@].flatten() =~= full@) by {
                    assert(seq![full@].drop_first() =~= Seq::<Seq<String>>::empty());
                    assert(Seq::<Seq<String>>::empty().flatten() == Seq::<String>::empty());
                    assert(seq![full@].first() =~= full@);
                    assert(full@ + Seq::<String>::empty() =~= full@);
                }
                assert(rs.flatten() + cur@ =~= targets@.subrange(0, k as int));
            }
        }
    }
    if cur.len() > 0 {
        let ghost rs0 = r@.map_values(|b: Vec<String>| b@);
        let last = cur;
        r.push(last);
        proof {
            let rs = r@.map_values(|b: Vec<String>| b@);
            assert(rs =~= rs0.push(last@));
            vstd::seq_lib::lemma_flatten_concat(rs0, seq![last@]);
            assert(rs =~= rs0 + seq![last@]);
            assert(seq![last@].flatten() =~= last@) by {
                assert(seq![last@].drop_first() =~= Seq::<Seq<String>>::empty());
                    assert(Seq::<Seq<String>>::empty().flatten() == Seq::<String>::empty());
                    assert(seq![last@].first() =~= last@);
                    assert(last@ + Seq::<String>::empty() =~= last@);
            }
            assert(targets@.subrange(0, n as int) =~= targets@);
            assert(rs.flatten() =~= targets@);
        }
    } else {
        proof {
            assert(targets@.subrange(0, n as int) =~= targets@);
            assert(r@.map_values(|b: Vec<String>| b@).flatten() + cur@ =~= targets@);
            assert(r@.map_values(|b: Vec<String>| b@).flatten() =~= targets@);
        }
    }
    r
}

/// The connection attempts of the port probe: each target paired with every
/// common service port, targets in order, ports in order within a target.
pub fn port_probe_plan(targets: &Vec<String>) -> (r: Vec<(String, u16)>)
    ensures
        r@.len() == targets@.len() * 12,
        forall|i: int, p: int|
            0 <= i < targets@.len() && 0 <= p < 12 ==> (#[trigger] r@[i * 12 + p]).0
                == targets@[i] && r@[i * 12 + p].1 == spec_common_ports()[p],
{
    let ports = common_ports();
    let n = targets.len();
    let mut r: Vec<(String, u16)> = Vec::new();
    let mut i: usize = 0;
    while i < n
        invariant
            i <= n,
            n == targets@.len(),
            ports@ == spec_common_ports(),
            r@.len() == i * 12,
            forall|i2: int, p: int|
                0 <= i2 < i && 0 <= p < 12 ==> (#[trigger] r@[i2 * 12 + p]).0 == targets@[i2]
                    && r@[i2 * 12 + p].1 == spec_common_ports()[p],
        decreases n - i,
    {
        let mut p: usize = 0;
        while p < 12
            invariant
                p <= 12,
                i < n,
                n == targets@.len(),
                ports@ == spec_common_ports(),
                r@.len() == i * 12 + p,
                forall|i2: int, p2: int|
                    0 <= i2 < i && 0 <= p2 < 12 ==> (#[trigger] r@[i2 * 12 + p2]).0 == targets@[i2]
                        && r@[i2 * 12 + p2].1 == spec_common_ports()[p2],
                forall|p2: int|
                    0 <= p2 < p ==> (#[trigger] r@[i * 12 + p2]).0 == targets@[i as int]
                        && r@[i * 12 + p2].1 == spec_common_ports()[p2],
            decreases 12 - p,
        {
            r.push((targets[i].clone(), ports[p]));
            p = p + 1;
        }
        i = i + 1;
    }
    r
}

} // verus!
