//! The spoofing-session registry: starting, stopping and listing sessions,
//! and the per-cycle bookkeeping of each session's background loop.
//!
//! The registry itself is a plain value; the front end wraps it in a lock and
//! shares it between request handlers and the background loops. Entries are
//! never removed: a stopped session stays in the registry, inactive, until the
//! process exits.

use vstd::prelude::*;

use crate::ip::{parse_ipv4, spec_parse_ipv4};
use crate::scan::NetworkDevice;

verus! {

/// One spoofing session's externally visible state.
#[derive(Debug)]
pub struct SpoofingSession {
    pub id: String,
    pub target_ip: String,
    pub gateway_ip: String,
    pub interface: String,
    pub is_active: bool,
    pub packets_sent: u32,
}

/// A registry entry: the session and its cancellation signal. The background
/// loop polls `stop_flag` once per cycle and exits when it is set.
#[derive(Debug)]
pub struct SpoofingSessionInfo {
    pub session: SpoofingSession,
    pub stop_flag: bool,
}

/// The registry of all sessions ever started in this process.
#[derive(Debug)]
pub struct SpoofingSessions {
    pub infos: Vec<SpoofingSessionInfo>,
}

/// Whether some entry carries the given session id.
pub open spec fn contains_id(s: Seq<SpoofingSessionInfo>, id: Seq<char>) -> bool {
    exists|i: int| 0 <= i < s.len() && s[i].session.id@ == id
}

/// The entry that a fresh start registers.
pub open spec fn spec_new_info(
    id: String,
    target_ip: String,
    gateway_ip: String,
    interface: String,
) -> SpoofingSessionInfo {
    SpoofingSessionInfo {
        session: SpoofingSession {
            id: id,
            target_ip: target_ip,
            gateway_ip: gateway_ip,
            interface: interface,
            is_active: true,
            packets_sent: 0,
        },
        stop_flag: false,
    }
}

/// Whether `start_all` starts a session for a device: everything but the
/// gateway itself, provided both addresses parse.
pub open spec fn spoof_qualifies(d: NetworkDevice, gateway_ip: Seq<char>) -> bool {
    d.ip@ != gateway_ip && spec_parse_ipv4(d.ip@) is Some && spec_parse_ipv4(gateway_ip) is Some
}

/// How many devices of a list qualify for a bulk start.
pub open spec fn count_qualifying(devs: Seq<NetworkDevice>, gateway_ip: Seq<char>) -> int
    decreases devs.len(),
{
    if devs.len() == 0 {
        0
    } else {
        count_qualifying(devs.drop_last(), gateway_ip) + if spoof_qualifies(
            devs.last(),
            gateway_ip,
        ) {
            1int
        } else {
            0int
        }
    }
}

impl SpoofingSessions {
    /// Entries carry pairwise distinct session ids.
    pub open spec fn wf(self) -> bool {
        forall|i: int, j: int|
            0 <= i < j < self.infos@.len() ==> self.infos@[i].session.id@
                != self.infos@[j].session.id@
    }

    /// An empty registry.
    pub fn new() -> (r: SpoofingSessions)
        ensures
            r.infos@.len() == 0,
            r.wf(),
    {
        SpoofingSessions { infos: Vec::new() }
    }

    /// The underlying entries.
    pub fn inner(&self) -> (r: &Vec<SpoofingSessionInfo>)
        ensures
            r@ == self.infos@,
    {
        &self.infos
    }

    /// The position of the entry with the given id, if any.
    fn find_index(&self, id: &String) -> (r: Option<usize>)
        ensures
            match r {
                Some(i) => i < self.infos@.len() && self.infos@[i as int].session.id@ == id@,
                None => !contains_id(self.infos@, id@),
            },
    {
        let n = self.infos.len();
        let mut k: usize = 0;
        while k < n
            invariant
                k <= n,
                n == self.infos@.len(),
                forall|j: int| 0 <= j < k ==> self.infos@[j].session.id@ != id@,
            decreases n - k,
        {
            if self.infos[k].session.id == *id {
                return Some(k);
            }
            k = k + 1;
        }
        None
    }

    /// Draws session ids until one is not yet registered; in practice the
    /// first draw is fresh. Gives up after a fixed number of draws rather
    /// than loop unboundedly.
    fn fresh_session_id(&self) -> (r: Option<String>)
        ensures
            match r {
                Some(id) => !contains_id(self.infos@, id@) && id@.len() == 36,
                None => true,
            },
    {
        let mut attempts: usize = 0;
        while attempts < 16
            invariant
                attempts <= 16,
            decreases 16 - attempts,
        {
            let id = new_session_id();
            if self.find_index(&id).is_none() {
                return Some(id);
            }
            attempts = attempts + 1;
        }
        None
    }

    /// Validates both addresses, registers a fresh session (active, zero
    /// packets sent, stop signal clear) under a fresh, unused id, and returns
    /// the id. Rejects, changing nothing, when an address does not parse, or
    /// — should every drawn id collide with a registered one — when no fresh
    /// id could be allocated. The front end spawns the session's background
    /// loop after this returns.
    pub fn start_spoofing(
        &mut self,
        target_ip: String,
        gateway_ip: String,
        interface_name: String,
    ) -> (r: Result<String, String>)
        requires
            old(self).wf(),
        ensures
            final(self).wf(),
            match r {
                Ok(id) => {
                    &&& spec_parse_ipv4(target_ip@) is Some
                    &&& spec_parse_ipv4(gateway_ip@) is Some
                    &&& id@.len() == 36
                    &&& !contains_id(old(self).infos@, id@)
                    &&& contains_id(final(self).infos@, id@)
                    &&& final(self).infos@ == old(self).infos@.push(
                        spec_new_info(id, target_ip, gateway_ip, interface_name),
                    )
                    &&& forall|idq: Seq<char>|
                        contains_id(old(self).infos@, idq) ==> contains_id(
                            final(self).infos@,
                            idq,
                        )
                },
                Err(m) => {
                    &&& final(self).infos@ == old(self).infos@
                    &&& if spec_parse_ipv4(target_ip@) is None {
                        m@ == "Invalid target IP"@
                    } else if spec_parse_ipv4(gateway_ip@) is None {
                        m@ == "Invalid gateway IP"@
                    } else {
                        m@ == "Could not allocate a session id"@
                    }
                },
            },
    {
        if parse_ipv4(target_ip.as_str()).is_none() {
            return Err(String::from_str("Invalid target IP"));
        }
        if parse_ipv4(gateway_ip.as_str()).is_none() {
            return Err(String::from_str("Invalid gateway IP"));
        }
        let id = match self.fresh_session_id() {
            Some(id) => id,
            None => {
                return Err(String::from_str("Could not allocate a session id"));
            },
        };
        let session = SpoofingSession {
            id: id.clone(),
            target_ip: target_ip,
            gateway_ip: gateway_ip,
            interface: interface_name,
            is_active: true,
            packets_sent: 0,
        };
        let info = SpoofingSessionInfo { session, stop_flag: false };
        proof {
            assert(info == (spec_new_info(id, target_ip, gateway_ip, interface_name)));
        }
        let ghost ginfo = info;
        self.infos.push(info);
        proof {
            assert(self.infos@ =~= old(self).infos@.push(ginfo));
            assert(self.infos@[self.infos@.len() - 1].session.id@ == id@);
            assert forall|idq: Seq<char>|
                contains_id(old(self).infos@, idq) implies contains_id(self.infos@, idq) by {
                let w = choose|w: int|
                    0 <= w < old(self).infos@.len() && old(self).infos@[w].session.id@ == idq;
                assert(self.infos@[w] == old(self).infos@[w]);
            }
        }
        Ok(id)
    }

    /// Requests cancellation of a session: sets its stop signal and marks it
    /// inactive at once, without waiting for the loop to observe the signal.
    /// Fails, changing nothing, exactly when the id is unknown.
    pub fn stop_spoofing(&mut self, session_id: String) -> (r: Result<bool, String>)
        requires
            old(self).wf(),
        ensures
            final(self).wf(),
            match r {
                Ok(b) => {
                    &&& b == true
                    &&& exists|i: int|
                        0 <= i < old(self).infos@.len() && old(self).infos@[i].session.id@
                            == session_id@ && final(self).infos@ == old(self).infos@.update(
                            i,
                            spec_stopped(old(self).infos@[i]),
                        )
                },
                Err(m) => {
                    &&& !contains_id(old(self).infos@, session_id@)
                    &&& final(self).infos@ == old(self).infos@
                    &&& m@ == "Session not found"@
                },
            },
    {
        match self.find_index(&session_id) {
            Some(i) => {
                let old_info = self.infos.remove(i);
                let new_info = SpoofingSessionInfo {
                    session: SpoofingSession { is_active: false, ..old_info.session },
                    stop_flag: true,
                };
                self.infos.insert(i, new_info);
                proof {
                    assert(self.infos@ =~= old(self).infos@.update(
                        i as int,
                        spec_stopped(old(self).infos@[i as int]),
                    ));
                }
                Ok(true)
            },
            None => Err(String::from_str("Session not found")),
        }
    }

    /// A snapshot of every session's state, active and stopped alike, in
    /// registry order.
    pub fn get_active_sessions(&self) -> (r: Result<Vec<SpoofingSession>, String>)
        ensures
            match r {
                Ok(sessions) => {
                    &&& sessions@.len() == self.infos@.len()
                    &&& forall|i: int|
                        0 <= i < sessions@.len() ==> sessions@[i] == self.infos@[i].session
                },
                Err(_) => false,
            },
    {
        let n = self.infos.len();
        let mut sessions: Vec<SpoofingSession> = Vec::new();
        let mut k: usize = 0;
        while k < n
            invariant
                k <= n,
                n == self.infos@.len(),
                sessions@.len() == k,
                forall|i: int| 0 <= i < k ==> sessions@[i] == self.infos@[i].session,
            decreases n - k,
        {
            let s = &self.infos[k].session;
            sessions.push(
                SpoofingSession {
                    id: s.id.clone(),
                    target_ip: s.target_ip.clone(),
                    gateway_ip: s.gateway_ip.clone(),
                    interface: s.interface.clone(),
                    is_active: s.is_active,
                    packets_sent: s.packets_sent,
                },
            );
            k = k + 1;
        }
        Ok(sessions)
    }

    /// Whether a session's background loop should exit: its stop signal is
    /// set, or its entry is gone.
    pub fn spoof_should_stop(&self, session_id: &String) -> (r: bool)
        requires
            self.wf(),
        ensures
            r == !(exists|i: int|
                0 <= i < self.infos@.len() && self.infos@[i].session.id@ == session_id@
                    && !self.infos@[i].stop_flag),
    {
        match self.find_index(session_id) {
            Some(i) => {
                let f = self.infos[i].stop_flag;
                proof {
                    if f {
                        assert forall|j: int|
                            0 <= j < self.infos@.len() && self.infos@[j].session.id@
                                == session_id@ implies self.infos@[j].stop_flag by {
                            if j < i as int {
                                assert(self.infos@[j].session.id@ != self.infos@[
                                    i as int].session.id@);
                            } else if j > i as int {
                                assert(self.infos@[i as int].session.id@ != self.infos@[
                                    j].session.id@);
                            }
                        };
                    } else {
                        assert(0 <= i < self.infos@.len() && self.infos@[i as int].session.id@
                            == session_id@ && !self.infos@[i as int].stop_flag);
                    }
                }
                f
            },
            None => true,
        }
    }

    /// Credits a session with the directives that succeeded in one spoofing
    /// cycle: zero, one or two packets, counted monotonically and saturating
    /// at the counter's maximum. A session whose entry is gone is not
    /// credited.
    pub fn record_spoof_cycle(
        &mut self,
        session_id: &String,
        target_directive_ok: bool,
        gateway_directive_ok: bool,
    )
        requires
            old(self).wf(),
        ensures
            final(self).wf(),
            ({
                let inc: int = (if target_directive_ok {
                    1int
                } else {
                    0int
                }) + (if gateway_directive_ok {
                    1int
                } else {
                    0int
                });
                if contains_id(old(self).infos@, session_id@) {
                    exists|i: int|
                        0 <= i < old(self).infos@.len() && old(self).infos@[i].session.id@
                            == session_id@ && final(self).infos@ == old(self).infos@.update(
                            i,
                            spec_credited(old(self).infos@[i], inc),
                        )
                } else {
                    final(self).infos@ == old(self).infos@
                }
            }),
    {
        match self.find_index(session_id) {
            Some(i) => {
                let old_info = self.infos.remove(i);
                let sent = old_info.session.packets_sent;
                let mut inc: u32 = 0;
                if target_directive_ok {
                    inc = inc + 1;
                }
                if gateway_directive_ok {
                    inc = inc + 1;
                }
                let new_sent = if sent <= u32::MAX - inc {
                    sent + inc
                } else {
                    u32::MAX
                };
                let new_info = SpoofingSessionInfo {
                    session: SpoofingSession { packets_sent: new_sent, ..old_info.session },
                    stop_flag: old_info.stop_flag,
                };
                self.infos.insert(i, new_info);
                proof {
                    let inc_spec: int = (if target_directive_ok {
                        1int
                    } else {
                        0int
                    }) + (if gateway_directive_ok {
                        1int
                    } else {
                        0int
                    });
                    assert(self.infos@ =~= old(self).infos@.update(
                        i as int,
                        spec_credited(old(self).infos@[i as int], inc_spec),
                    ));
                }
            },
            None => {},
        }
    }

    /// Records that a session's background loop has exited: the session is
    /// marked inactive. A session whose entry is gone is left alone.
    pub fn mark_session_stopped(&mut self, session_id: &String)
        requires
            old(self).wf(),
        ensures
            final(self).wf(),
            if contains_id(old(self).infos@, session_id@) {
                exists|i: int|
                    0 <= i < old(self).infos@.len() && old(self).infos@[i].session.id@
                        == session_id@ && final(self).infos@ == old(self).infos@.update(
                        i,
                        spec_deactivated(old(self).infos@[i]),
                    )
            } else {
                final(self).infos@ == old(self).infos@
            },
    {
        match self.find_index(session_id) {
            Some(i) => {
                let old_info = self.infos.remove(i);
                let new_info = SpoofingSessionInfo {
                    session: SpoofingSession { is_active: false, ..old_info.session },
                    stop_flag: old_info.stop_flag,
                };
                self.infos.insert(i, new_info);
                proof {
                    assert(self.infos@ =~= old(self).infos@.update(
                        i as int,
                        spec_deactivated(old(self).infos@[i as int]),
                    ));
                }
            },
            None => {},
        }
    }
}

/// An entry that a bulk start created for the given gateway and interface:
/// fresh, active, and never targeting the gateway itself.
pub open spec fn bulk_created(
    info: SpoofingSessionInfo,
    devices: Seq<NetworkDevice>,
    gateway_ip: Seq<char>,
    interface: Seq<char>,
) -> bool {
    &&& info.session.target_ip@ != gateway_ip
    &&& exists|d: int| 0 <= d < devices.len() && devices[d].ip@ == info.session.target_ip@
    &&& info.session.gateway_ip@ == gateway_ip
    &&& info.session.interface@ == interface
    &&& info.session.is_active
    &&& info.session.packets_sent == 0
    &&& !info.stop_flag
}

impl SpoofingSessions {
    /// Starts a session for every listed device other than the gateway
    /// itself, skipping devices whose start fails without aborting the batch,
    /// and returns the ids of the sessions started: pairwise distinct, one
    /// new registry entry per id. Every session registered before the batch
    /// is still registered after it, and every entry the registry gains
    /// targets one of the devices and never the gateway.
    #[verifier::loop_isolation(false)]
    pub fn start_spoof_all(
        &mut self,
        devices: Vec<NetworkDevice>,
        gateway_ip: String,
        interface_name: String,
    ) -> (r: Result<Vec<String>, String>)
        requires
            old(self).wf(),
        ensures
            final(self).wf(),
            match r {
                Ok(ids) => {
                    &&& ids@.len() <= count_qualifying(devices@, gateway_ip@)
                    &&& final(self).infos@.len() == old(self).infos@.len() + ids@.len()
                    &&& forall|j: int|
                        0 <= j < old(self).infos@.len() ==> final(self).infos@[j] == old(
                            self,
                        ).infos@[j]
                    &&& forall|idq: Seq<char>|
                        contains_id(old(self).infos@, idq) ==> contains_id(
                            final(self).infos@,
                            idq,
                        )
                    &&& forall|k1: int, k2: int|
                        0 <= k1 < k2 < ids@.len() ==> ids@[k1]@ != ids@[k2]@
                    &&& forall|m: int|
                        0 <= m < ids@.len() ==> final(self).infos@[old(self).infos@.len() + m].session.id@
                            == (#[trigger] ids@[m])@ && bulk_created(
                            final(self).infos@[old(self).infos@.len() + m],
                            devices@,
                            gateway_ip@,
                            interface_name@,
                        )
                    &&& forall|j: int|
                        0 <= j < final(self).infos@.len() ==> ((exists|j0: int|
                            0 <= j0 < old(self).infos@.len() && final(self).infos@[j] == old(
                                self,
                            ).infos@[j0]) || bulk_created(
                            final(self).infos@[j],
                            devices@,
                            gateway_ip@,
                            interface_name@,
                        ))
                },
                Err(_) => false,
            },
    {
        let mut session_ids: Vec<String> = Vec::new();
        let n = devices.len();
        let mut k: usize = 0;
        while k < n
            invariant
                k <= n,
                n == devices@.len(),
                self.wf(),
                session_ids@.len() <= count_qualifying(
                    devices@.subrange(0, k as int),
                    gateway_ip@,
                ),
                self.infos@.len() == old(self).infos@.len() + session_ids@.len(),
                forall|j: int|
                    0 <= j < old(self).infos@.len() ==> self.infos@[j] == old(self).infos@[j],
                forall|idq: Seq<char>|
                    contains_id(old(self).infos@, idq) ==> contains_id(self.infos@, idq),
                forall|m: int|
                    0 <= m < session_ids@.len() ==> self.infos@[old(self).infos@.len()
                        + m].session.id@ == (#[trigger] session_ids@[m])@ && bulk_created(
                        self.infos@[old(self).infos@.len() + m],
                        devices@,
                        gateway_ip@,
                        interface_name@,
                    ),
                forall|j: int|
                    0 <= j < self.infos@.len() ==> ((exists|j0: int|
                        0 <= j0 < old(self).infos@.len() && self.infos@[j] == old(self).infos@[j0])
                        || bulk_created(
                        self.infos@[j],
                        devices@,
                        gateway_ip@,
                        interface_name@,
                    )),
            decreases n - k,
        {
            let ghost prev = self.infos@;
            let ghost prev_ids = session_ids@;
            let device = &devices[k];
            if !(device.ip == gateway_ip) {
                let started = self.start_spoofing(
                    device.ip.clone(),
                    gateway_ip.clone(),
                    interface_name.clone(),
                );
                match started {
                    Ok(session_id) => {
                        proof {
                            assert(!contains_id(prev, session_id@));
                            assert(self.infos@.last().session.id@ == session_id@);
                            assert(bulk_created(
                                self.infos@.last(),
                                devices@,
                                gateway_ip@,
                                interface_name@,
                            )) by {
                                assert(devices@[k as int].ip@ == self.infos@.last().session.target_ip@);
                                assert(devices@[k as int].ip@ != gateway_ip@);
                            };
                        }
                        session_ids.push(session_id);
                        proof {
                            assert forall|m: int|
                                0 <= m < session_ids@.len() implies self.infos@[old(
                                self,
                            ).infos@.len() + m].session.id@ == (#[trigger] session_ids@[m])@
                                && bulk_created(
                                self.infos@[old(self).infos@.len() + m],
                                devices@,
                                gateway_ip@,
                                interface_name@,
                            ) by {
                                if m < prev_ids.len() {
                                    assert(session_ids@[m] == prev_ids[m]);
                                    assert(self.infos@[old(self).infos@.len() + m] == prev[old(
                                        self,
                                    ).infos@.len() + m]);
                                } else {
                                    assert(self.infos@[self.infos@.len() - 1].session.id@
                                        == session_ids@[m]@);
                                }
                            }
                            assert forall|j: int| 0 <= j < self.infos@.len() implies ((exists|
                                j0: int,
                            |
                                0 <= j0 < old(self).infos@.len() && self.infos@[j] == old(
                                    self,
                                ).infos@[j0]) || bulk_created(
                                self.infos@[j],
                                devices@,
                                gateway_ip@,
                                interface_name@,
                            )) by {
                                if j < prev.len() {
                                    assert(self.infos@[j] == prev[j]);
                                }
                            }
                        }
                    },
                    Err(_) => {},
                }
            }
            k = k + 1;
            proof {
                assert(devices@.subrange(0, k as int).drop_last() =~= devices@.subrange(
                    0,
                    k - 1,
                ));
                assert(devices@.subrange(0, k as int).last() == devices@[k - 1]);
            }
        }
        proof {
            assert(devices@.subrange(0, n as int) =~= devices@);
            assert forall|k1: int, k2: int|
                0 <= k1 < k2 < session_ids@.len() implies session_ids@[k1]@
                != session_ids@[k2]@ by {
                let j1 = old(self).infos@.len() + k1;
                let j2 = old(self).infos@.len() + k2;
                assert(self.infos@[j1].session.id@ != self.infos@[j2].session.id@);
            }
        }
        Ok(session_ids)
    }
}

/// After a successful start, the registry holds the new session, active and
/// with no packets sent; since a snapshot returns every entry's session in
/// registry order, the snapshot taken after the start lists it.
pub proof fn lemma_started_session_listed(
    pre: SpoofingSessions,
    post: SpoofingSessions,
    id: String,
    target_ip: String,
    gateway_ip: String,
    interface: String,
)
    requires
        post.infos@ == pre.infos@.push(spec_new_info(id, target_ip, gateway_ip, interface)),
    ensures
        exists|i: int|
            0 <= i < post.infos@.len() && post.infos@[i].session == (spec_new_info(
                id,
                target_ip,
                gateway_ip,
                interface,
            ).session) && post.infos@[i].session.is_active && post.infos@[i].session.packets_sent
                == 0,
{
    assert(post.infos@[post.infos@.len() - 1].session == (spec_new_info(
        id,
        target_ip,
        gateway_ip,
        interface,
    ).session));
}

/// The entry as `stop_spoofing` leaves it: signal set, session inactive.
pub open spec fn spec_stopped(info: SpoofingSessionInfo) -> SpoofingSessionInfo {
    SpoofingSessionInfo {
        session: SpoofingSession { is_active: false, ..info.session },
        stop_flag: true,
    }
}

/// The entry after one spoofing cycle credited `inc` packets, saturating.
pub open spec fn spec_credited(info: SpoofingSessionInfo, inc: int) -> SpoofingSessionInfo {
    SpoofingSessionInfo {
        session: SpoofingSession {
            packets_sent: if info.session.packets_sent + inc <= u32::MAX {
                (info.session.packets_sent + inc) as u32
            } else {
                u32::MAX
            },
            ..info.session
        },
        stop_flag: info.stop_flag,
    }
}

/// The entry after the background loop exited: session inactive, signal kept.
pub open spec fn spec_deactivated(info: SpoofingSessionInfo) -> SpoofingSessionInfo {
    SpoofingSessionInfo {
        session: SpoofingSession { is_active: false, ..info.session },
        stop_flag: info.stop_flag,
    }
}

/// Relies on uuid::Uuid::new_v4 and its display form: a fresh random
/// identifier rendered as 36 hyphenated lowercase hexadecimal characters.
/// Nothing is assumed about which identifier comes back.
#[verifier::external_body]
fn new_session_id() -> (r: String)
    ensures
        r@.len() == 36,
{
    uuid::Uuid::new_v4().to_string()
}

} // verus!
