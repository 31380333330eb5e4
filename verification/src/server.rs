use vstd::prelude::*;

use crate::codec;
use crate::engine;
use crate::matchmaker;
use crate::matchmaker::{first_turn, second_side, spec_formation_messages, spec_initial_state};
use crate::model::{
    Address, Envelope, EnvelopeV, ErrorKind, InboundEvent, Match, Outbound, OutboundV, Outcome,
    ParticipantV, Phase, Reliability, Target, outbounds_view, owns, state_carrying,
    target_in_bounds,
};
use crate::registry::{ConnectionStatus, PeerStatus, Registry, spec_status};

verus! {

/// Every authoritative (state-carrying) message of the batch travels
/// reliable-ordered.
pub open spec fn state_carrying_reliable(outs: Seq<OutboundV>) -> bool {
    forall|k: int|
        0 <= k < outs.len() && state_carrying((#[trigger] outs[k]).envelope) ==> outs[k].mode
            == Reliability::ReliableOrdered
}

/// Rejections go back to `a` alone; they are never broadcast.
pub open spec fn rejection_only_to(outs: Seq<OutboundV>, a: Address) -> bool {
    forall|k: int|
        0 <= k < outs.len() && (#[trigger] outs[k]).envelope is Rejection ==> outs[k].to == a
}

/// No message of the batch is a rejection.
pub open spec fn no_rejection(outs: Seq<OutboundV>) -> bool {
    forall|k: int| 0 <= k < outs.len() ==> !((#[trigger] outs[k]).envelope is Rejection)
}

/// The single control-loop owner of all protocol state: the connection
/// registry, the matchmaking pool, and every match. One inbound transport
/// event goes in, the addressed datagrams to send come out; nothing here
/// blocks or touches a socket.
pub struct Server {
    pub protocol_version: u32,
    pub registry: Registry,
    pub pool: Vec<Address>,
    pub matches: Vec<Match>,
}

impl Server {
    /// Everything the control loop relies on between steps: every match is
    /// well formed, every match binding points at a real match, and the
    /// pool holds distinct, actually-pooled addresses.
    pub open spec fn wf(self) -> bool {
        &&& forall|k: int| 0 <= k < self.matches@.len() ==> (#[trigger] self.matches@[k]).wf()
        &&& forall|a: Address| #[trigger]
            self.registry@.contains_key(a) ==> (self.registry@[a] matches PeerStatus::InMatch(mid)
                ==> mid < self.matches@.len())
        &&& forall|k: int, l: int|
            0 <= k < l < self.pool@.len() ==> #[trigger] self.pool@[k] != #[trigger] self.pool@[l]
        &&& forall|k: int|
            0 <= k < self.pool@.len() ==> spec_status(self.registry@, #[trigger] self.pool@[k])
                == ConnectionStatus::Pooled
    }

    pub fn new(protocol_version: u32) -> (s: Server)
        ensures
            s.wf(),
            s.protocol_version == protocol_version,
            s.registry@ == Map::<Address, PeerStatus>::empty(),
            s.pool@.len() == 0,
            s.matches@.len() == 0,
    {
        Server { protocol_version, registry: Registry::new(), pool: Vec::new(), matches: Vec::new() }
    }

    /// Pairs the two most recently admitted pooled peers, if the pool holds
    /// at least two: exactly two leave the pool, exactly one new match is
    /// appended, both peers are bound to it, and the formation messages
    /// are returned.
    pub fn try_form_match(&mut self) -> (r: Option<Vec<Outbound>>)
        requires
            old(self).wf(),
        ensures
            final(self).wf(),
            final(self).protocol_version == old(self).protocol_version,
            old(self).pool@.len() < 2 ==> r is None && *final(self) == *old(self),
            old(self).pool@.len() >= 2 ==> (r matches Some(outs) && {
                let n = old(self).pool@.len() as int;
                let a1 = old(self).pool@[n - 1];
                let a2 = old(self).pool@[n - 2];
                let mid = old(self).matches@.len() as int;
                let nm = final(self).matches@[mid];
                &&& final(self).pool@ == old(self).pool@.take(n - 2)
                &&& final(self).matches@.len() == old(self).matches@.len() + 1
                &&& (forall|k: int|
                    0 <= k < mid ==> #[trigger] final(self).matches@[k] == old(self).matches@[k])
                &&& nm.participants@.len() == 2
                &&& (nm.participants@[0])@ == (ParticipantV {
                    address: a1,
                    ownership: seq![first_turn()],
                })
                &&& (nm.participants@[1])@ == (ParticipantV {
                    address: a2,
                    ownership: seq![second_side()],
                })
                &&& nm.spectators@.len() == 0
                &&& nm.combat_state@ == spec_initial_state()
                &&& nm.phase == Phase::AwaitingTurn(first_turn())
                &&& (forall|t: Target|
                    target_in_bounds(nm.combat_state, t) ==> owns(nm.participants@[0], t) || owns(
                        nm.participants@[1],
                        t,
                    ))
                &&& (forall|t: Target|
                    !(owns(nm.participants@[0], t) && owns(nm.participants@[1], t)))
                &&& final(self).registry@ == old(self).registry@.insert(
                    a1,
                    PeerStatus::InMatch(mid as usize),
                ).insert(a2, PeerStatus::InMatch(mid as usize))
                &&& outbounds_view(outs@) == spec_formation_messages(a1, a2)
            }),
    {
        if self.pool.len() < 2 {
            return None;
        }
        let a1 = self.pool.pop().unwrap();
        let a2 = self.pool.pop().unwrap();
        proof {
            let n = old(self).pool@.len() as int;
            assert(a1 == old(self).pool@[n - 1]);
            assert(a2 == old(self).pool@[n - 2]);
            assert(a1 != a2);
            assert(self.pool@ =~= old(self).pool@.take(n - 2));
            assert(spec_status(self.registry@, a1) == ConnectionStatus::Pooled);
            assert(spec_status(self.registry@, a2) == ConnectionStatus::Pooled);
        }
        let mid = self.matches.len();
        let (m, outs) = matchmaker::form_match(a1, a2);
        self.matches.push(m);
        self.registry.bind_to_match(a1, mid);
        self.registry.bind_to_match(a2, mid);
        proof {
            assert forall|k: int| 0 <= k < self.matches@.len() implies (
            #[trigger] self.matches@[k]).wf() by {
                if k < old(self).matches@.len() {
                    assert(self.matches@[k] == old(self).matches@[k]);
                }
            }
            assert forall|a: Address| #[trigger]
                self.registry@.contains_key(a) implies (self.registry@[a]
                matches PeerStatus::InMatch(m2) ==> m2 < self.matches@.len()) by {
                if a != a1 && a != a2 {
                    assert(self.registry@[a] == old(self).registry@[a]);
                    assert(old(self).registry@.contains_key(a));
                }
            }
            assert forall|k: int| 0 <= k < self.pool@.len() implies spec_status(
                self.registry@,
                #[trigger] self.pool@[k],
            ) == ConnectionStatus::Pooled by {
                let n = old(self).pool@.len() as int;
                assert(self.pool@[k] == old(self).pool@[k]);
                assert(self.pool@[k] != a1 && self.pool@[k] != a2);
                assert(spec_status(old(self).registry@, self.pool@[k])
                    == ConnectionStatus::Pooled);
            }
        }
        Some(outs)
    }

    /// Admits a handshaken peer to the pool, then pairs while the pool
    /// holds two or more. The pooled remainder (at most one peer) keeps
    /// waiting for the next admission.
    pub fn enroll(&mut self, a: Address) -> (r: Vec<Outbound>)
        requires
            old(self).wf(),
            spec_status(old(self).registry@, a) == ConnectionStatus::Pooled,
            !old(self).pool@.contains(a),
        ensures
            final(self).wf(),
            final(self).protocol_version == old(self).protocol_version,
            final(self).pool@.len() < 2,
            no_rejection(outbounds_view(r@)),
            state_carrying_reliable(outbounds_view(r@)),
            forall|k: int|
                0 <= k < r@.len() ==> (#[trigger] r@[k]).mode == Reliability::ReliableOrdered,
    {
        self.pool.push(a);
        proof {
            assert forall|k: int, l: int| 0 <= k < l < self.pool@.len() implies #[trigger] self.pool@[k]
                != #[trigger] self.pool@[l] by {
                if l == self.pool@.len() - 1 {
                    assert(self.pool@[k] == old(self).pool@[k]);
                    assert(old(self).pool@.contains(self.pool@[k]));
                }
            }
            assert forall|k: int| 0 <= k < self.pool@.len() implies spec_status(
                self.registry@,
                #[trigger] self.pool@[k],
            ) == ConnectionStatus::Pooled by {
                if k < self.pool@.len() - 1 {
                    assert(self.pool@[k] == old(self).pool@[k]);
                }
            }
            assert(self.wf());
        }
        let mut outs: Vec<Outbound> = Vec::new();
        while self.pool.len() >= 2
            invariant
                self.wf(),
                self.protocol_version == old(self).protocol_version,
                no_rejection(outbounds_view(outs@)),
                forall|k: int|
                    0 <= k < outs@.len() ==> (#[trigger] outs@[k]).mode
                        == Reliability::ReliableOrdered,
            decreases self.pool@.len(),
        {
            let ghost pre_len = self.pool@.len();
            let ghost pre_pool = self.pool@;
            let ghost pre_outs = outs@;
            match self.try_form_match() {
                Some(mut o) => {
                    let ghost ov_pre = o@;
                    outs.append(&mut o);
                    proof {
                        assert(self.pool@.len() < pre_len);
                        assert(outs@ == pre_outs + ov_pre);
                        let a1 = pre_pool[pre_pool.len() - 1];
                        let a2 = pre_pool[pre_pool.len() - 2];
                        let sm = spec_formation_messages(a1, a2);
                        assert(outbounds_view(ov_pre) == sm);
                        assert(outbounds_view(outs@) =~= outbounds_view(pre_outs)
                            + outbounds_view(ov_pre));
                        assert forall|j: int| 0 <= j < sm.len() implies !((
                        #[trigger] sm[j]).envelope is Rejection) && sm[j].mode
                            == Reliability::ReliableOrdered by {
                            assert(sm.len() == 4);
                        }
                        assert forall|k: int| 0 <= k < outs@.len() implies !((
                        #[trigger] outs@[k])@.envelope is Rejection) && outs@[k]@.mode
                            == Reliability::ReliableOrdered by {
                            assert(outs@[k]@ == outbounds_view(outs@)[k]);
                            if k < pre_outs.len() {
                                assert(outbounds_view(outs@)[k] == pre_outs[k]@);
                            } else {
                                assert(outbounds_view(outs@)[k] == sm[k - pre_outs.len()]);
                            }
                        }
                    }
                },
                None => {
                    proof {
                        assert(false);
                    }
                },
            }
        }
        proof {
            assert forall|k: int|
                0 <= k < outbounds_view(outs@).len() && (#[trigger] outbounds_view(
                    outs@,
                )[k]).envelope is Rejection implies false by {
                assert(outbounds_view(outs@)[k] == outs@[k]@);
            }
            assert forall|k: int|
                0 <= k < outbounds_view(outs@).len() && state_carrying(
                    (#[trigger] outbounds_view(outs@)[k]).envelope,
                ) implies outbounds_view(outs@)[k].mode == Reliability::ReliableOrdered by {
                assert(outbounds_view(outs@)[k] == outs@[k]@);
            }
        }
        outs
    }

    /// First contact from the transport: an unknown address is challenged
    /// with the protocol version (the only legal reply to a stranger); a
    /// known address is left alone.
    pub fn on_first_contact(&mut self, a: Address) -> (r: Vec<Outbound>)
        requires
            old(self).wf(),
        ensures
            final(self).wf(),
            final(self).protocol_version == old(self).protocol_version,
            final(self).pool == old(self).pool,
            final(self).matches == old(self).matches,
            no_rejection(outbounds_view(r@)),
            state_carrying_reliable(outbounds_view(r@)),
            spec_status(old(self).registry@, a) == ConnectionStatus::Unknown ==> final(self).registry@ == old(self).registry@.insert(a, PeerStatus::AwaitingHandshake)
                && outbounds_view(r@) == seq![
                (OutboundV {
                    to: a,
                    envelope: EnvelopeV::ProtocolVersion(old(self).protocol_version),
                    mode: Reliability::Reliable,
                }),
            ],
            spec_status(old(self).registry@, a) != ConnectionStatus::Unknown ==> final(self).registry@
                == old(self).registry@ && r@.len() == 0,
    {
        let prior = self.registry.register(a);
        let mut outs: Vec<Outbound> = Vec::new();
        if let ConnectionStatus::Unknown = prior {
            outs.push(
                Outbound {
                    to: a,
                    envelope: Envelope::ProtocolVersion(self.protocol_version),
                    mode: Reliability::Reliable,
                },
            );
            proof {
                assert(outbounds_view(outs@) =~= seq![
                    (OutboundV {
                        to: a,
                        envelope: EnvelopeV::ProtocolVersion(old(self).protocol_version),
                        mode: Reliability::Reliable,
                    }),
                ]);
                assert forall|k: int| 0 <= k < self.pool@.len() implies spec_status(
                    self.registry@,
                    #[trigger] self.pool@[k],
                ) == ConnectionStatus::Pooled by {
                    assert(spec_status(old(self).registry@, self.pool@[k])
                        == ConnectionStatus::Pooled);
                    assert(self.pool@[k] != a);
                }
            }
        }
        outs
    }

    /// The answer to a version challenge. A compatible version admits the
    /// peer to the pool (and may immediately pair it); an incompatible one
    /// is refused for good with a terminal rejection.
    pub fn on_handshake_reply(&mut self, a: Address, v: u32) -> (r: Vec<Outbound>)
        requires
            old(self).wf(),
            spec_status(old(self).registry@, a) == ConnectionStatus::AwaitingHandshake,
        ensures
            final(self).wf(),
            final(self).protocol_version == old(self).protocol_version,
            state_carrying_reliable(outbounds_view(r@)),
            rejection_only_to(outbounds_view(r@), a),
            v == old(self).protocol_version ==> no_rejection(outbounds_view(r@)),
            v != old(self).protocol_version ==> final(self).registry@ == old(self).registry@.insert(a, PeerStatus::Rejected) && final(self).pool == old(self).pool
                && final(self).matches == old(self).matches && outbounds_view(r@) == seq![
                (OutboundV {
                    to: a,
                    envelope: EnvelopeV::Rejection(
                        ErrorKind::IncompatibleProtocol,
                        codec::TAG_PROTOCOL_VERSION,
                    ),
                    mode: Reliability::Reliable,
                }),
            ],
    {
        if v == self.protocol_version {
            self.registry.complete_handshake(a);
            proof {
                assert forall|k: int| 0 <= k < self.pool@.len() implies spec_status(
                    self.registry@,
                    #[trigger] self.pool@[k],
                ) == ConnectionStatus::Pooled by {
                    assert(spec_status(old(self).registry@, self.pool@[k])
                        == ConnectionStatus::Pooled);
                }
                assert forall|k: int| 0 <= k < self.pool@.len() implies #[trigger] self.pool@[k]
                    != a by {
                    assert(spec_status(old(self).registry@, self.pool@[k])
                        == ConnectionStatus::Pooled);
                }
                assert(!self.pool@.contains(a));
                assert(self.wf());
            }
            self.enroll(a)
        } else {
            self.registry.reject(a);
            let mut outs: Vec<Outbound> = Vec::new();
            outs.push(
                Outbound {
                    to: a,
                    envelope: Envelope::Rejection(
                        ErrorKind::IncompatibleProtocol,
                        codec::TAG_PROTOCOL_VERSION,
                    ),
                    mode: Reliability::Reliable,
                },
            );
            proof {
                assert(outbounds_view(outs@) =~= seq![
                    (OutboundV {
                        to: a,
                        envelope: EnvelopeV::Rejection(
                            ErrorKind::IncompatibleProtocol,
                            codec::TAG_PROTOCOL_VERSION,
                        ),
                        mode: Reliability::Reliable,
                    }),
                ]);
                assert forall|k: int| 0 <= k < self.pool@.len() implies spec_status(
                    self.registry@,
                    #[trigger] self.pool@[k],
                ) == ConnectionStatus::Pooled by {
                    assert(spec_status(old(self).registry@, self.pool@[k])
                        == ConnectionStatus::Pooled);
                }
            }
            outs
        }
    }

    /// Routes one combat event to the match its sender is bound to. A
    /// validation failure answers the sender alone and leaves the match
    /// exactly as it was; success applies, broadcasts, and grants (or
    /// concludes), as the match engine says.
    pub fn on_match_event(&mut self, a: Address, mid: usize, e: &crate::model::CombatEvent) -> (r:
        Vec<Outbound>)
        requires
            old(self).wf(),
            mid < old(self).matches@.len(),
        ensures
            final(self).wf(),
            final(self).protocol_version == old(self).protocol_version,
            final(self).pool == old(self).pool,
            final(self).registry == old(self).registry,
            final(self).matches@.len() == old(self).matches@.len(),
            forall|k: int|
                0 <= k < old(self).matches@.len() && k != mid ==> #[trigger] final(self).matches@[k] == old(self).matches@[k],
            state_carrying_reliable(outbounds_view(r@)),
            rejection_only_to(outbounds_view(r@), a),
            engine::spec_validate(old(self).matches@[mid as int], a, *e) matches Err(k)
                ==> final(self).matches@[mid as int] == old(self).matches@[mid as int]
                && outbounds_view(r@) == seq![
                (OutboundV {
                    to: a,
                    envelope: EnvelopeV::Rejection(k, codec::TAG_COMBAT_EVENT),
                    mode: Reliability::Reliable,
                }),
            ],
            engine::spec_validate(old(self).matches@[mid as int], a, *e) is Ok ==> {
                let om = old(self).matches@[mid as int];
                let fm = final(self).matches@[mid as int];
                &&& fm.participants == om.participants
                &&& fm.spectators == om.spectators
                &&& fm.combat_state.parties@.len() == om.combat_state.parties@.len()
                &&& (forall|p: int|
                    0 <= p < om.combat_state.parties@.len()
                        ==> (#[trigger] fm.combat_state.parties@[p]).members@.len()
                        == om.combat_state.parties@[p].members@.len())
                &&& (forall|p: int, mi2: int|
                    0 <= p < om.combat_state.parties@.len() && 0 <= mi2
                        < om.combat_state.parties@[p].members@.len()
                        ==> (#[trigger] fm.combat_state.parties@[p].members@[mi2])
                        == crate::rules::spec_apply_to_slot(
                        om.combat_state.parties@[p].members@[mi2],
                        p,
                        mi2,
                        e.effects@,
                    ))
                &&& (om.phase matches Phase::AwaitingTurn(cur) && (
                if crate::rules::spec_outcome(fm.combat_state) == Outcome::Ongoing {
                    fm.phase == Phase::AwaitingTurn(engine::spec_next_turn(fm.participants@, cur))
                } else {
                    fm.phase == Phase::Concluded(crate::rules::spec_outcome(fm.combat_state))
                }))
            },
            engine::spec_validate(old(self).matches@[mid as int], a, *e) is Ok ==> outbounds_view(
                r@,
            ) == engine::spec_broadcast(
                old(self).matches@[mid as int].member_addrs(),
                EnvelopeV::CombatEvent(e@),
            ) + engine::spec_broadcast(
                old(self).matches@[mid as int].member_addrs(),
                engine::spec_followup(final(self).matches@[mid as int].phase),
            ),
    {
        let mm = &mut self.matches[mid];
        let result = engine::on_event(mm, a, e);
        match result {
            Ok(outs) => {
                proof {
                    assert forall|k: int| 0 <= k < self.matches@.len() implies (
                    #[trigger] self.matches@[k]).wf() by {
                        if k != mid {
                            assert(self.matches@[k] == old(self).matches@[k]);
                        }
                    }
                    assert forall|k: int|
                        0 <= k < outbounds_view(outs@).len() && (#[trigger] outbounds_view(
                            outs@,
                        )[k]).envelope is Rejection implies outbounds_view(outs@)[k].to == a by {
                        let addrs = old(self).matches@[mid as int].member_addrs();
                        let ev1 = EnvelopeV::CombatEvent(e@);
                        let ev2 = engine::spec_followup(self.matches@[mid as int].phase);
                        if k < addrs.len() {
                            assert(outbounds_view(outs@)[k] == engine::spec_broadcast(
                                addrs,
                                ev1,
                            )[k]);
                        } else {
                            assert(outbounds_view(outs@)[k] == engine::spec_broadcast(addrs, ev2)[
                                k - addrs.len()]);
                        }
                    }
                    assert forall|k: int|
                        0 <= k < outbounds_view(outs@).len() && state_carrying(
                            (#[trigger] outbounds_view(outs@)[k]).envelope,
                        ) implies outbounds_view(outs@)[k].mode == Reliability::ReliableOrdered by {
                        let addrs = old(self).matches@[mid as int].member_addrs();
                        let ev1 = EnvelopeV::CombatEvent(e@);
                        let ev2 = engine::spec_followup(self.matches@[mid as int].phase);
                        if k < addrs.len() {
                            assert(outbounds_view(outs@)[k] == engine::spec_broadcast(
                                addrs,
                                ev1,
                            )[k]);
                        } else {
                            assert(outbounds_view(outs@)[k] == engine::spec_broadcast(addrs, ev2)[
                                k - addrs.len()]);
                        }
                    }
                }
                outs
            },
            Err(kind) => {
                let mut outs: Vec<Outbound> = Vec::new();
                outs.push(
                    Outbound {
                        to: a,
                        envelope: Envelope::Rejection(kind, codec::TAG_COMBAT_EVENT),
                        mode: Reliability::Reliable,
                    },
                );
                proof {
                    assert(self.matches@ =~= old(self).matches@);
                    assert forall|k: int| 0 <= k < self.matches@.len() implies (
                    #[trigger] self.matches@[k]).wf() by {
                        assert(self.matches@[k] == old(self).matches@[k]);
                    }
                    assert(outbounds_view(outs@) =~= seq![
                        (OutboundV {
                            to: a,
                            envelope: EnvelopeV::Rejection(kind, codec::TAG_COMBAT_EVENT),
                            mode: Reliability::Reliable,
                        }),
                    ]);
                }
                outs
            },
        }
    }

    /// A peer vanished (socket disconnect or timeout): it is forgotten by
    /// the registry, leaves the pool if it was waiting there, and departs
    /// from its match if it was in one — which concludes the match if it
    /// still owned a slot, with the notice to the remaining observers.
    pub fn on_peer_lost(&mut self, a: Address) -> (r: Vec<Outbound>)
        requires
            old(self).wf(),
        ensures
            final(self).wf(),
            final(self).protocol_version == old(self).protocol_version,
            final(self).registry@ == old(self).registry@.remove(a),
            final(self).matches@.len() == old(self).matches@.len(),
            no_rejection(outbounds_view(r@)),
            state_carrying_reliable(outbounds_view(r@)),
    {
        let status = self.registry.status(a);
        self.registry.remove(a);
        proof {
            assert forall|a2: Address| #[trigger]
                self.registry@.contains_key(a2) implies (self.registry@[a2]
                matches PeerStatus::InMatch(m2) ==> m2 < self.matches@.len()) by {
                assert(old(self).registry@.contains_key(a2));
                assert(self.registry@[a2] == old(self).registry@[a2]);
            }
        }
        match status {
            ConnectionStatus::Pooled => {
                let n = self.pool.len();
                let mut i: usize = 0;
                while i < n
                    invariant
                        i <= n,
                        n == self.pool@.len(),
                        self.pool == old(self).pool,
                        self.matches == old(self).matches,
                        self.protocol_version == old(self).protocol_version,
                        self.registry@ == old(self).registry@.remove(a),
                        old(self).wf(),
                        forall|k: int| 0 <= k < i ==> #[trigger] self.pool@[k] != a,
                    decreases n - i,
                {
                    if self.pool[i] == a {
                        self.pool.remove(i);
                        proof {
                            let oldp = old(self).pool@;
                            let newp = self.pool@;
                            assert forall|k: int, l: int| 0 <= k < l < newp.len() implies #[trigger] newp[k]
                                != #[trigger] newp[l] by {
                                let ok = if k < i as int {
                                    k
                                } else {
                                    k + 1
                                };
                                let ol = if l < i as int {
                                    l
                                } else {
                                    l + 1
                                };
                                assert(newp[k] == oldp[ok]);
                                assert(newp[l] == oldp[ol]);
                            }
                            assert forall|k: int| 0 <= k < newp.len() implies spec_status(
                                self.registry@,
                                #[trigger] newp[k],
                            ) == ConnectionStatus::Pooled by {
                                let ok = if k < i as int {
                                    k
                                } else {
                                    k + 1
                                };
                                assert(newp[k] == oldp[ok]);
                                assert(spec_status(old(self).registry@, oldp[ok])
                                    == ConnectionStatus::Pooled);
                                assert(oldp[ok] != a || ok == i as int);
                                assert(newp[k] != a);
                            }
                        }
                        return Vec::new();
                    }
                    i = i + 1;
                }
                proof {
                    assert forall|k: int| 0 <= k < self.pool@.len() implies spec_status(
                        self.registry@,
                        #[trigger] self.pool@[k],
                    ) == ConnectionStatus::Pooled by {
                        assert(spec_status(old(self).registry@, self.pool@[k])
                            == ConnectionStatus::Pooled);
                        assert(self.pool@[k] != a);
                    }
                }
                Vec::new()
            },
            ConnectionStatus::InMatch(mid) => {
                proof {
                    assert forall|k: int| 0 <= k < self.pool@.len() implies spec_status(
                        self.registry@,
                        #[trigger] self.pool@[k],
                    ) == ConnectionStatus::Pooled by {
                        assert(spec_status(old(self).registry@, self.pool@[k])
                            == ConnectionStatus::Pooled);
                        assert(self.pool@[k] != a);
                    }
                }
                if mid < self.matches.len() {
                    let mm = &mut self.matches[mid];
                    let outs = engine::on_depart(mm, a);
                    proof {
                        assert forall|k: int| 0 <= k < self.matches@.len() implies (
                        #[trigger] self.matches@[k]).wf() by {
                            if k != mid {
                                assert(self.matches@[k] == old(self).matches@[k]);
                            }
                        }
                        assert forall|k: int|
                            0 <= k < outbounds_view(outs@).len() implies !((
                        #[trigger] outbounds_view(outs@)[k]).envelope is Rejection)
                            && (state_carrying(outbounds_view(outs@)[k].envelope)
                            ==> outbounds_view(outs@)[k].mode == Reliability::ReliableOrdered) by {
                            let dm = old(self).matches@[mid as int];
                            if dm.is_participant(a) && dm.participants@[dm.participant_index(
                                a,
                            )].ownership@.len() > 0 && dm.phase is AwaitingTurn {
                                let addrs = self.matches@[mid as int].member_addrs();
                                assert(outbounds_view(outs@)[k] == engine::spec_broadcast(
                                    addrs,
                                    EnvelopeV::Concluded(Outcome::Abandoned),
                                )[k]);
                            }
                        }
                    }
                    outs
                } else {
                    Vec::new()
                }
            },
            _ => {
                proof {
                    assert forall|k: int| 0 <= k < self.pool@.len() implies spec_status(
                        self.registry@,
                        #[trigger] self.pool@[k],
                    ) == ConnectionStatus::Pooled by {
                        assert(spec_status(old(self).registry@, self.pool@[k])
                            == ConnectionStatus::Pooled);
                        assert(self.pool@[k] != a);
                    }
                }
                Vec::new()
            },
        }
    }

    /// One inbound datagram. Undecodable bytes are dropped with no reply
    /// (never an unbounded reply loop); a stranger is only ever challenged;
    /// a challenged peer is gated by version; a pooled peer submitting a
    /// combat event is told it is in no match; a bound peer's combat event
    /// goes to its match. Everything else is dropped.
    pub fn on_packet(&mut self, a: Address, bytes: &Vec<u8>) -> (r: Vec<Outbound>)
        requires
            old(self).wf(),
        ensures
            final(self).wf(),
            final(self).protocol_version == old(self).protocol_version,
            state_carrying_reliable(outbounds_view(r@)),
            rejection_only_to(outbounds_view(r@), a),
            spec_status(old(self).registry@, a) == ConnectionStatus::Unknown ==> final(self).pool == old(self).pool && final(self).matches == old(self).matches && (
            outbounds_view(r@) == Seq::<OutboundV>::empty() || outbounds_view(r@) == seq![
                (OutboundV {
                    to: a,
                    envelope: EnvelopeV::ProtocolVersion(old(self).protocol_version),
                    mode: Reliability::Reliable,
                }),
            ]),
    {
        let env = match codec::decode_envelope(bytes) {
            Some(e) => e,
            None => {
                return Vec::new();
            },
        };
        let status = self.registry.status(a);
        match status {
            ConnectionStatus::Unknown => self.on_first_contact(a),
            ConnectionStatus::AwaitingHandshake => match env {
                Envelope::ProtocolVersion(v) => self.on_handshake_reply(a, v),
                _ => Vec::new(),
            },
            ConnectionStatus::Pooled => match env {
                Envelope::CombatEvent(_) => {
                    let mut outs: Vec<Outbound> = Vec::new();
                    outs.push(
                        Outbound {
                            to: a,
                            envelope: Envelope::Rejection(
                                ErrorKind::NotAMember,
                                codec::TAG_COMBAT_EVENT,
                            ),
                            mode: Reliability::Reliable,
                        },
                    );
                    proof {
                        assert forall|k: int|
                            0 <= k < outbounds_view(outs@).len() implies ((#[trigger] outbounds_view(
                            outs@,
                        )[k]).envelope is Rejection ==> outbounds_view(outs@)[k].to == a)
                            && !state_carrying(outbounds_view(outs@)[k].envelope) by {
                            assert(outbounds_view(outs@)[k] == outs@[k]@);
                            assert(outs@[k] == outs@[0]);
                        }
                    }
                    outs
                },
                _ => Vec::new(),
            },
            ConnectionStatus::InMatch(mid) => match env {
                Envelope::CombatEvent(e) => {
                    if mid < self.matches.len() {
                        self.on_match_event(a, mid, &e)
                    } else {
                        Vec::new()
                    }
                },
                _ => Vec::new(),
            },
            ConnectionStatus::Rejected => Vec::new(),
        }
    }

    /// One step of the control loop: drains one transport event into the
    /// protocol and returns the datagrams to send, in order.
    pub fn handle(&mut self, ev: InboundEvent) -> (r: Vec<Outbound>)
        requires
            old(self).wf(),
        ensures
            final(self).wf(),
            final(self).protocol_version == old(self).protocol_version,
            state_carrying_reliable(outbounds_view(r@)),
            ev matches InboundEvent::Packet(a, _) ==> rejection_only_to(outbounds_view(r@), a),
            !(ev matches InboundEvent::Packet(_, _)) ==> no_rejection(outbounds_view(r@)),
            ev matches InboundEvent::Timeout(a) ==> final(self).registry@ == old(self).registry@.remove(a),
            ev matches InboundEvent::Disconnected(a) ==> final(self).registry@ == old(self).registry@.remove(a),
    {
        match ev {
            InboundEvent::Connected(a) => self.on_first_contact(a),
            InboundEvent::Packet(a, bytes) => self.on_packet(a, &bytes),
            InboundEvent::Timeout(a) => self.on_peer_lost(a),
            InboundEvent::Disconnected(a) => self.on_peer_lost(a),
        }
    }

    /// Transport failure: conclude every running match and collect one
    /// best-effort shutdown notice per remaining observer. After this, no
    /// match awaits a turn.
    pub fn shutdown(&mut self) -> (r: Vec<Outbound>)
        requires
            old(self).wf(),
        ensures
            final(self).wf(),
            final(self).protocol_version == old(self).protocol_version,
            final(self).matches@.len() == old(self).matches@.len(),
            forall|k: int|
                0 <= k < final(self).matches@.len() ==> !((#[trigger] final(self).matches@[k]).phase is AwaitingTurn),
            no_rejection(outbounds_view(r@)),
            state_carrying_reliable(outbounds_view(r@)),
    {
        let mut outs: Vec<Outbound> = Vec::new();
        let n = self.matches.len();
        let mut i: usize = 0;
        while i < n
            invariant
                i <= n,
                n == self.matches@.len(),
                self.wf(),
                self.protocol_version == old(self).protocol_version,
                self.registry == old(self).registry,
                self.pool == old(self).pool,
                forall|k: int|
                    0 <= k < i ==> !((#[trigger] self.matches@[k]).phase is AwaitingTurn),
                no_rejection(outbounds_view(outs@)),
                forall|k: int|
                    0 <= k < outbounds_view(outs@).len() ==> (#[trigger] outbounds_view(
                        outs@,
                    )[k]).mode == Reliability::ReliableOrdered,
            decreases n - i,
        {
            let ghost pre_view = outbounds_view(outs@);
            let ghost pre_matches = self.matches@;
            let mm = &mut self.matches[i];
            let concluded = match mm.phase {
                Phase::AwaitingTurn(_) => false,
                Phase::Concluded(_) => true,
            };
            if !concluded {
                mm.phase = Phase::Concluded(Outcome::Abandoned);
                engine::broadcast(&mut outs, mm, &Envelope::Concluded(Outcome::Abandoned));
            }
            proof {
                assert forall|k: int| 0 <= k < self.matches@.len() implies (
                #[trigger] self.matches@[k]).wf() by {
                    if k != i as int {
                        assert(self.matches@[k] == pre_matches[k]);
                    }
                }
                assert forall|k: int| 0 <= k < i + 1 implies !((
                #[trigger] self.matches@[k]).phase is AwaitingTurn) by {
                    if k < i as int {
                        assert(self.matches@[k] == pre_matches[k]);
                    }
                }
                let v = outbounds_view(outs@);
                assert forall|k: int| 0 <= k < v.len() implies !((
                #[trigger] v[k]).envelope is Rejection) && v[k].mode
                    == Reliability::ReliableOrdered by {
                    if k < pre_view.len() {
                        assert(v[k] == pre_view[k]);
                    } else {
                        let addrs = self.matches@[i as int].member_addrs();
                        assert(v[k] == engine::spec_broadcast(
                            addrs,
                            EnvelopeV::Concluded(Outcome::Abandoned),
                        )[k - pre_view.len()]);
                    }
                }
            }
            i = i + 1;
        }
        outs
    }
}

} // verus!
