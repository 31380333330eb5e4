use vstd::prelude::*;

use crate::model::{
    Address, CombatEvent, CombatState, Envelope, EnvelopeV, ErrorKind, Match, Outbound, OutboundV,
    Outcome, Participant, Phase, Reliability, Target, event_wf, outbounds_view, owns,
    slot_occupied, target_in_bounds,
};
use crate::rules;

verus! {

/// One copy of `env` addressed to each of `addrs`, in order, with the
/// reliable-ordered guarantee that authoritative messages require.
pub open spec fn spec_broadcast(addrs: Seq<Address>, env: EnvelopeV) -> Seq<OutboundV> {
    addrs.map_values(
        |a: Address| OutboundV { to: a, envelope: env, mode: Reliability::ReliableOrdered },
    )
}

/// The message that follows a confirmed event: the next turn grant while the
/// fight goes on, the outcome notice once it is over.
pub open spec fn spec_followup(phase: Phase) -> EnvelopeV {
    match phase {
        Phase::AwaitingTurn(t) => EnvelopeV::TakeTurn(t),
        Phase::Concluded(o) => EnvelopeV::Concluded(o),
    }
}

/// Validation of a submitted event, in the order the protocol pins: sender
/// membership, turn legality, ownership, structural shape. `Ok` exactly when
/// all four hold.
pub open spec fn spec_validate(m: Match, from: Address, e: CombatEvent) -> Result<(), ErrorKind> {
    if !m.is_participant(from) {
        Result::Err(ErrorKind::NotAMember)
    } else if !(m.phase matches Phase::AwaitingTurn(t) && e.actor == t) {
        Result::Err(ErrorKind::NotYourTurn)
    } else if !owns(m.participants@[m.participant_index(from)], e.actor) {
        Result::Err(ErrorKind::NotOwned)
    } else if !event_wf(m.combat_state, e) {
        Result::Err(ErrorKind::MalformedEvent)
    } else {
        Result::Ok(())
    }
}

/// Index of the participant owning `t`, if any; under ownership
/// disjointness there is at most one.
pub open spec fn spec_owner_index(ps: Seq<Participant>, t: Target) -> Option<int> {
    if exists|i: int| 0 <= i < ps.len() && owns(#[trigger] ps[i], t) {
        Some(choose|i: int| 0 <= i < ps.len() && owns(#[trigger] ps[i], t))
    } else {
        None
    }
}

/// Cyclic scan over participant indices starting at `j`, for `remaining`
/// steps, for the first participant with nonempty ownership.
pub open spec fn spec_scan_owner(ps: Seq<Participant>, j: int, remaining: nat) -> Option<int>
    decreases remaining,
{
    if remaining == 0 || ps.len() == 0 {
        None
    } else if ps[j].ownership@.len() > 0 {
        Some(j)
    } else {
        let next = if j + 1 == ps.len() {
            0int
        } else {
            j + 1
        };
        spec_scan_owner(ps, next, (remaining - 1) as nat)
    }
}

/// Pinned turn-order policy: the turn passes cyclically by participant join
/// order. The participant owning the current slot is found; the next
/// participant (cyclically) with nonempty ownership acts next, through its
/// first owned slot. If no owner can be resolved, or nobody owns anything,
/// the cursor stays where it was.
pub open spec fn spec_next_turn(ps: Seq<Participant>, current: Target) -> Target {
    match spec_owner_index(ps, current) {
        Some(i) => {
            let start = if i + 1 == ps.len() {
                0int
            } else {
                i + 1
            };
            match spec_scan_owner(ps, start, ps.len()) {
                Some(j) => ps[j].ownership@[0],
                None => current,
            }
        },
        None => current,
    }
}

/// Whether `p` is authorized to act through `t` (executable form).
pub fn owns_exec(p: &Participant, t: Target) -> (r: bool)
    ensures
        r == owns(*p, t),
{
    let n = p.ownership.len();
    let mut i: usize = 0;
    while i < n
        invariant
            i <= n,
            n == p.ownership@.len(),
            forall|k: int| 0 <= k < i ==> p.ownership@[k] != t,
        decreases n - i,
    {
        if p.ownership[i] == t {
            return true;
        }
        i = i + 1;
    }
    proof {
        assert(!p.ownership@.contains(t));
    }
    false
}

/// Index of the participant bound to `from`, scanning in join order.
pub fn find_participant(m: &Match, from: Address) -> (r: Option<usize>)
    ensures
        match r {
            Some(i) => i < m.participants@.len() && m.participants@[i as int].address == from,
            None => !m.is_participant(from),
        },
        r is Some <==> m.is_participant(from),
{
    let n = m.participants.len();
    let mut i: usize = 0;
    while i < n
        invariant
            i <= n,
            n == m.participants@.len(),
            forall|k: int| 0 <= k < i ==> (#[trigger] m.participants@[k]).address != from,
        decreases n - i,
    {
        if m.participants[i].address == from {
            return Some(i);
        }
        i = i + 1;
    }
    None
}

/// Index of the participant that owns `t`, scanning in join order.
pub fn find_owner(m: &Match, t: Target) -> (r: Option<usize>)
    ensures
        match r {
            Some(i) => i < m.participants@.len() && owns(m.participants@[i as int], t),
            None => forall|k: int|
                0 <= k < m.participants@.len() ==> !owns(#[trigger] m.participants@[k], t),
        },
{
    let n = m.participants.len();
    let mut i: usize = 0;
    while i < n
        invariant
            i <= n,
            n == m.participants@.len(),
            forall|k: int| 0 <= k < i ==> !owns(#[trigger] m.participants@[k], t),
        decreases n - i,
    {
        if owns_exec(&m.participants[i], t) {
            return Some(i);
        }
        i = i + 1;
    }
    None
}

/// Whether the event's actor and every affected slot resolve to an occupied
/// slot of the state (executable form of the structural check).
pub fn event_wf_exec(s: &CombatState, e: &CombatEvent) -> (r: bool)
    ensures
        r == event_wf(*s, *e),
{
    if !slot_occupied_exec(s, e.actor) {
        return false;
    }
    let n = e.effects.len();
    let mut i: usize = 0;
    while i < n
        invariant
            i <= n,
            n == e.effects@.len(),
            slot_occupied(*s, e.actor),
            forall|k: int| 0 <= k < i ==> slot_occupied(*s, (#[trigger] e.effects@[k]).target),
        decreases n - i,
    {
        if !slot_occupied_exec(s, e.effects[i].target) {
            return false;
        }
        i = i + 1;
    }
    true
}

/// Whether `t` resolves to an occupied slot of `s`.
pub fn slot_occupied_exec(s: &CombatState, t: Target) -> (r: bool)
    ensures
        r == slot_occupied(*s, t),
{
    if t.party_index >= s.parties.len() {
        return false;
    }
    let party = &s.parties[t.party_index];
    if t.member_index >= party.members.len() {
        return false;
    }
    party.members[t.member_index].is_some()
}

/// Executable form of the pinned turn-order policy.
pub fn next_turn(m: &Match, current: Target) -> (t: Target)
    requires
        m.wf(),
    ensures
        t == spec_next_turn(m.participants@, current),
        target_in_bounds(m.combat_state, t) || t == current,
{
    let n = m.participants.len();
    match find_owner(m, current) {
        None => {
            proof {
                assert(spec_owner_index(m.participants@, current) is None);
            }
            current
        },
        Some(i0) => {
            proof {
                let ps = m.participants@;
                let c = choose|i: int| 0 <= i < ps.len() && owns(#[trigger] ps[i], current);
                assert(owns(ps[i0 as int], current));
                assert(owns(ps[c], current));
                assert(c == i0 as int);
            }
            let mut j: usize = if i0 + 1 == n {
                0
            } else {
                i0 + 1
            };
            let mut remaining: usize = n;
            let ghost start = j as int;
            while remaining > 0
                invariant
                    m.wf(),
                    n == m.participants@.len(),
                    n > 0,
                    remaining <= n,
                    j < n,
                    i0 < n,
                    spec_owner_index(m.participants@, current) == Some(i0 as int),
                    start == (if i0 as int + 1 == n as int {
                        0int
                    } else {
                        i0 as int + 1
                    }),
                    spec_scan_owner(m.participants@, start, n as nat) == spec_scan_owner(
                        m.participants@,
                        j as int,
                        remaining as nat,
                    ),
                decreases remaining,
            {
                if m.participants[j].ownership.len() > 0 {
                    proof {
                        assert(spec_scan_owner(m.participants@, j as int, remaining as nat)
                            == Some(j as int));
                        assert(target_in_bounds(
                            m.combat_state,
                            m.participants@[j as int].ownership@[0],
                        ));
                    }
                    return m.participants[j].ownership[0];
                }
                j = if j + 1 == n {
                    0
                } else {
                    j + 1
                };
                remaining = remaining - 1;
            }
            proof {
                assert(spec_scan_owner(m.participants@, start, n as nat) is None);
            }
            current
        },
    }
}

/// Appends one reliable-ordered copy of `env` for every observer of the
/// match: participants in join order, then spectators in join order.
pub fn broadcast(out: &mut Vec<Outbound>, m: &Match, env: &Envelope)
    ensures
        outbounds_view(final(out)@) == outbounds_view(old(out)@) + spec_broadcast(
            m.member_addrs(),
            env@,
        ),
{
    let ghost paddrs = m.participants@.map_values(|p: Participant| p.address);
    proof {
        assert(outbounds_view(out@) =~= outbounds_view(old(out)@) + spec_broadcast(
            paddrs.take(0),
            env@,
        ));
    }
    let n = m.participants.len();
    let mut i: usize = 0;
    while i < n
        invariant
            i <= n,
            n == m.participants@.len(),
            paddrs == m.participants@.map_values(|p: Participant| p.address),
            outbounds_view(out@) == outbounds_view(old(out)@) + spec_broadcast(
                paddrs.take(i as int),
                env@,
            ),
        decreases n - i,
    {
        let o = Outbound {
            to: m.participants[i].address,
            envelope: env.duplicate(),
            mode: Reliability::ReliableOrdered,
        };
        let ghost og = o;
        let ghost pre = out@;
        out.push(o);
        proof {
            assert(out@ == pre.push(og));
            assert(og@ == (OutboundV {
                to: paddrs[i as int],
                envelope: env@,
                mode: Reliability::ReliableOrdered,
            }));
            assert(outbounds_view(pre.push(og)) =~= outbounds_view(pre).push(og@));
            assert(spec_broadcast(paddrs.take(i + 1), env@) =~= spec_broadcast(
                paddrs.take(i as int),
                env@,
            ).push(og@));
            assert(outbounds_view(out@) =~= outbounds_view(old(out)@) + spec_broadcast(
                paddrs.take(i + 1),
                env@,
            ));
        }
        i = i + 1;
    }
    proof {
        assert(paddrs.take(n as int) =~= paddrs);
        assert(outbounds_view(out@) =~= outbounds_view(old(out)@) + spec_broadcast(paddrs, env@)
            + spec_broadcast(m.spectators@.take(0), env@));
    }
    let sn = m.spectators.len();
    let mut k: usize = 0;
    while k < sn
        invariant
            k <= sn,
            sn == m.spectators@.len(),
            paddrs == m.participants@.map_values(|p: Participant| p.address),
            outbounds_view(out@) == outbounds_view(old(out)@) + spec_broadcast(paddrs, env@)
                + spec_broadcast(m.spectators@.take(k as int), env@),
        decreases sn - k,
    {
        let o = Outbound {
            to: m.spectators[k],
            envelope: env.duplicate(),
            mode: Reliability::ReliableOrdered,
        };
        let ghost og = o;
        let ghost pre = out@;
        out.push(o);
        proof {
            assert(out@ == pre.push(og));
            assert(og@ == (OutboundV {
                to: m.spectators@[k as int],
                envelope: env@,
                mode: Reliability::ReliableOrdered,
            }));
            assert(outbounds_view(pre.push(og)) =~= outbounds_view(pre).push(og@));
            assert(spec_broadcast(m.spectators@.take(k + 1), env@) =~= spec_broadcast(
                m.spectators@.take(k as int),
                env@,
            ).push(og@));
            assert(outbounds_view(out@) =~= outbounds_view(old(out)@) + spec_broadcast(
                paddrs,
                env@,
            ) + spec_broadcast(m.spectators@.take(k + 1), env@));
        }
        k = k + 1;
    }
    proof {
        assert(m.spectators@.take(sn as int) =~= m.spectators@);
        assert(spec_broadcast(m.member_addrs(), env@) =~= spec_broadcast(paddrs, env@)
            + spec_broadcast(m.spectators@, env@));
        assert(outbounds_view(out@) =~= outbounds_view(old(out)@) + spec_broadcast(
            m.member_addrs(),
            env@,
        ));
    }
}

/// Authoritative handling of one submitted combat event.
///
/// Validates in the pinned order and, only if all checks pass, applies the
/// event to the combat state, advances the turn cursor (or concludes the
/// match if the outcome check says so), and returns the ordered broadcast:
/// the confirmed event to every observer, then the follow-up grant or
/// outcome notice to every observer. A rejected event changes nothing at
/// all and yields only an error for the sender; it is never broadcast.
pub fn on_event(m: &mut Match, from: Address, e: &CombatEvent) -> (r: Result<
    Vec<Outbound>,
    ErrorKind,
>)
    requires
        old(m).wf(),
    ensures
        final(m).wf(),
        final(m).participants == old(m).participants,
        final(m).spectators == old(m).spectators,
        r matches Err(k) ==> *final(m) == *old(m) && Result::<(), ErrorKind>::Err(k)
            == spec_validate(*old(m), from, *e),
        r is Ok <==> spec_validate(*old(m), from, *e) is Ok,
        r is Ok ==> final(m).combat_state.parties@.len()
            == old(m).combat_state.parties@.len() && (forall|p: int|
            0 <= p < old(m).combat_state.parties@.len()
                ==> (#[trigger] final(m).combat_state.parties@[p]).members@.len() == old(
                m,
            ).combat_state.parties@[p].members@.len()) && (forall|p: int, mi: int|
            0 <= p < old(m).combat_state.parties@.len() && 0 <= mi < old(
                m,
            ).combat_state.parties@[p].members@.len()
                ==> (#[trigger] final(m).combat_state.parties@[p].members@[mi])
                == rules::spec_apply_to_slot(
                old(m).combat_state.parties@[p].members@[mi],
                p,
                mi,
                e.effects@,
            )),
        r is Ok ==> (old(m).phase matches Phase::AwaitingTurn(cur) && (if rules::spec_outcome(
            final(m).combat_state,
        ) == Outcome::Ongoing {
            final(m).phase == Phase::AwaitingTurn(spec_next_turn(final(m).participants@, cur))
        } else {
            final(m).phase == Phase::Concluded(rules::spec_outcome(final(m).combat_state))
        })),
        r matches Ok(outs) ==> outbounds_view(outs@) == spec_broadcast(
            old(m).member_addrs(),
            EnvelopeV::CombatEvent(e@),
        ) + spec_broadcast(old(m).member_addrs(), spec_followup(final(m).phase)),
{
    let fi = match find_participant(m, from) {
        Some(i) => i,
        None => {
            return Err(ErrorKind::NotAMember);
        },
    };
    let cur = match m.phase {
        Phase::AwaitingTurn(t) => t,
        Phase::Concluded(_) => {
            return Err(ErrorKind::NotYourTurn);
        },
    };
    if e.actor != cur {
        return Err(ErrorKind::NotYourTurn);
    }
    proof {
        let pi = m.participant_index(from);
        assert(m.participants@[pi].address == from);
        assert(pi == fi as int);
    }
    if !owns_exec(&m.participants[fi], e.actor) {
        return Err(ErrorKind::NotOwned);
    }
    if !event_wf_exec(&m.combat_state, e) {
        return Err(ErrorKind::MalformedEvent);
    }
    rules::apply_event(&mut m.combat_state, e);
    proof {
        assert forall|i: int, k: int|
            0 <= i < m.participants@.len() && 0 <= k
                < (#[trigger] m.participants@[i]).ownership@.len() implies target_in_bounds(
            m.combat_state,
            #[trigger] m.participants@[i].ownership@[k],
        ) by {
            assert(target_in_bounds(old(m).combat_state, m.participants@[i].ownership@[k]));
        }
        assert(target_in_bounds(old(m).combat_state, cur));
        assert(target_in_bounds(m.combat_state, cur));
        assert(m.wf());
    }
    let outcome = rules::check_outcome(&m.combat_state);
    let follow: Envelope = match outcome {
        Outcome::Ongoing => {
            let nt = next_turn(m, cur);
            m.phase = Phase::AwaitingTurn(nt);
            Envelope::TakeTurn(nt)
        },
        _ => {
            m.phase = Phase::Concluded(outcome);
            Envelope::Concluded(outcome)
        },
    };
    let mut outs: Vec<Outbound> = Vec::new();
    let confirmed = Envelope::CombatEvent(e.duplicate());
    broadcast(&mut outs, m, &confirmed);
    broadcast(&mut outs, m, &follow);
    proof {
        assert(outbounds_view(outs@) =~= spec_broadcast(
            old(m).member_addrs(),
            EnvelopeV::CombatEvent(e@),
        ) + spec_broadcast(old(m).member_addrs(), spec_followup(m.phase)));
    }
    Ok(outs)
}

/// Handles the loss of one peer of this match.
///
/// A departing participant is removed; if it still owned at least one slot
/// while the fight was running, the match concludes as abandoned and the
/// outcome notice goes to every remaining observer, exactly once each. A
/// departing spectator (or an address not in this match at all) changes the
/// protocol state not at all.
pub fn on_depart(m: &mut Match, addr: Address) -> (r: Vec<Outbound>)
    requires
        old(m).wf(),
    ensures
        final(m).wf(),
        final(m).combat_state == old(m).combat_state,
        old(m).is_participant(addr) ==> {
            let i = old(m).participant_index(addr);
            &&& final(m).participants@ == old(m).participants@.remove(i)
            &&& final(m).spectators == old(m).spectators
            &&& (if old(m).participants@[i].ownership@.len() > 0 && old(m).phase is AwaitingTurn {
                &&& final(m).phase == Phase::Concluded(Outcome::Abandoned)
                &&& outbounds_view(r@) == spec_broadcast(
                    final(m).member_addrs(),
                    EnvelopeV::Concluded(Outcome::Abandoned),
                )
            } else {
                &&& final(m).phase == old(m).phase
                &&& r@.len() == 0
            })
        },
        !old(m).is_participant(addr) ==> final(m).participants == old(m).participants
            && final(m).phase == old(m).phase && r@.len() == 0,
{
    let mut outs: Vec<Outbound> = Vec::new();
    let fi = match find_participant(m, addr) {
        Some(i) => i,
        None => {
            let sn = m.spectators.len();
            let mut k: usize = 0;
            while k < sn
                invariant
                    k <= sn,
                    sn == m.spectators@.len(),
                    old(m).wf(),
                    !old(m).is_participant(addr),
                    m.participants == old(m).participants,
                    m.combat_state == old(m).combat_state,
                    m.phase == old(m).phase,
                    m.spectators == old(m).spectators,
                    outs@.len() == 0,
                decreases sn - k,
            {
                if m.spectators[k] == addr {
                    m.spectators.remove(k);
                    return outs;
                }
                k = k + 1;
            }
            return outs;
        },
    };
    proof {
        let pi = m.participant_index(addr);
        assert(m.participants@[pi].address == addr);
        assert(pi == fi as int);
    }
    let departing = m.participants.remove(fi);
    proof {
        let oldp = old(m).participants@;
        let newp = m.participants@;
        assert forall|i: int, j: int| 0 <= i < j < newp.len() implies (#[trigger] newp[i]).address
            != (#[trigger] newp[j]).address by {
            let oi = if i < fi as int {
                i
            } else {
                i + 1
            };
            let oj = if j < fi as int {
                j
            } else {
                j + 1
            };
            assert(newp[i] == oldp[oi]);
            assert(newp[j] == oldp[oj]);
        }
        assert forall|i: int, k: int|
            0 <= i < newp.len() && 0 <= k < (#[trigger] newp[i]).ownership@.len() implies target_in_bounds(
            m.combat_state,
            #[trigger] newp[i].ownership@[k],
        ) by {
            let oi = if i < fi as int {
                i
            } else {
                i + 1
            };
            assert(newp[i] == oldp[oi]);
        }
        assert forall|i: int, j: int, t: Target|
            0 <= i < newp.len() && 0 <= j < newp.len() && #[trigger] owns(newp[i], t)
                && #[trigger] owns(newp[j], t) implies i == j by {
            let oi = if i < fi as int {
                i
            } else {
                i + 1
            };
            let oj = if j < fi as int {
                j
            } else {
                j + 1
            };
            assert(newp[i] == oldp[oi]);
            assert(newp[j] == oldp[oj]);
            assert(owns(oldp[oi], t) && owns(oldp[oj], t));
        }
    }
    let concluded_now = match m.phase {
        Phase::AwaitingTurn(_) => departing.ownership.len() > 0,
        Phase::Concluded(_) => false,
    };
    if concluded_now {
        m.phase = Phase::Concluded(Outcome::Abandoned);
        broadcast(&mut outs, m, &Envelope::Concluded(Outcome::Abandoned));
        proof {
            assert(outbounds_view(outs@) =~= spec_broadcast(
                m.member_addrs(),
                EnvelopeV::Concluded(Outcome::Abandoned),
            ));
        }
    }
    outs
}

/// External-timer hook: the named slot held the turn too long. Same effect
/// path as a skip event: the combat state is untouched, the cursor moves on
/// by the pinned turn-order policy, and every observer gets the new grant.
/// If the named slot does not hold the turn (a stale timer), nothing
/// happens.
pub fn on_turn_timeout(m: &mut Match, t: Target) -> (r: Vec<Outbound>)
    requires
        old(m).wf(),
    ensures
        final(m).wf(),
        final(m).combat_state == old(m).combat_state,
        final(m).participants == old(m).participants,
        final(m).spectators == old(m).spectators,
        old(m).phase == Phase::AwaitingTurn(t) ==> final(m).phase == Phase::AwaitingTurn(
            spec_next_turn(old(m).participants@, t),
        ) && outbounds_view(r@) == spec_broadcast(
            old(m).member_addrs(),
            EnvelopeV::TakeTurn(spec_next_turn(old(m).participants@, t)),
        ),
        old(m).phase != Phase::AwaitingTurn(t) ==> *final(m) == *old(m) && r@.len() == 0,
{
    let mut outs: Vec<Outbound> = Vec::new();
    let held = match m.phase {
        Phase::AwaitingTurn(cur) => cur == t,
        Phase::Concluded(_) => false,
    };
    if held {
        let nt = next_turn(m, t);
        m.phase = Phase::AwaitingTurn(nt);
        broadcast(&mut outs, m, &Envelope::TakeTurn(nt));
        proof {
            assert(outbounds_view(outs@) =~= spec_broadcast(
                old(m).member_addrs(),
                EnvelopeV::TakeTurn(nt),
            ));
        }
    }
    outs
}

/// Admits a read-only observer to the match.
pub fn add_spectator(m: &mut Match, addr: Address)
    requires
        old(m).wf(),
    ensures
        final(m).wf(),
        final(m).participants == old(m).participants,
        final(m).combat_state == old(m).combat_state,
        final(m).phase == old(m).phase,
        final(m).spectators@ == old(m).spectators@.push(addr),
{
    m.spectators.push(addr);
}

/// Only one peer can act at a time: the turn cursor names a single slot,
/// and in a well-formed match that slot has at most one owner, so if two
/// submissions both pass validation against the same match state they came
/// from the same peer.
pub proof fn lemma_turn_exclusive(
    m: Match,
    a1: Address,
    a2: Address,
    e1: CombatEvent,
    e2: CombatEvent,
)
    requires
        m.wf(),
        spec_validate(m, a1, e1) is Ok,
        spec_validate(m, a2, e2) is Ok,
    ensures
        a1 == a2,
{
    let i1 = m.participant_index(a1);
    let i2 = m.participant_index(a2);
    assert(m.participants@[i1].address == a1);
    assert(m.participants@[i2].address == a2);
    assert(owns(m.participants@[i1], e1.actor));
    assert(owns(m.participants@[i2], e2.actor));
    assert(e1.actor == e2.actor);
    assert(i1 == i2);
}

/// Within one confirmed-event broadcast, every observer's copy of the
/// confirmed event stands strictly before every copy of the follow-up
/// message, everything travels reliable-ordered, and each observer is
/// addressed exactly once per message. Together with reliable-ordered
/// delivery and the in-order hand-off of successive results to the
/// transport, no observer sees a later authoritative message before an
/// earlier one.
pub proof fn lemma_event_precedes_followup(
    outs: Seq<OutboundV>,
    addrs: Seq<Address>,
    ev: EnvelopeV,
    fu: EnvelopeV,
)
    requires
        outs == spec_broadcast(addrs, ev) + spec_broadcast(addrs, fu),
    ensures
        outs.len() == 2 * addrs.len(),
        forall|k: int|
            0 <= k < addrs.len() ==> outs[k] == (OutboundV {
                to: addrs[k],
                envelope: ev,
                mode: Reliability::ReliableOrdered,
            }),
        forall|k: int|
            0 <= k < addrs.len() ==> outs[addrs.len() + k] == (OutboundV {
                to: addrs[k],
                envelope: fu,
                mode: Reliability::ReliableOrdered,
            }),
        forall|k: int| 0 <= k < outs.len() ==> (#[trigger] outs[k]).mode
            == Reliability::ReliableOrdered,
        ev != fu ==> forall|i: int, j: int|
            0 <= i < outs.len() && 0 <= j < outs.len() && (#[trigger] outs[i]).envelope == ev && (
            #[trigger] outs[j]).envelope == fu ==> i < j,
{
    assert forall|k: int| 0 <= k < outs.len() implies (#[trigger] outs[k]).mode
        == Reliability::ReliableOrdered by {
        if k < addrs.len() {
            assert(outs[k] == spec_broadcast(addrs, ev)[k]);
        } else {
            assert(outs[k] == spec_broadcast(addrs, fu)[k - addrs.len()]);
        }
    }
    if ev != fu {
        assert forall|i: int, j: int|
            0 <= i < outs.len() && 0 <= j < outs.len() && (#[trigger] outs[i]).envelope == ev && (
            #[trigger] outs[j]).envelope == fu implies i < j by {
            if i >= addrs.len() {
                assert(outs[i] == spec_broadcast(addrs, fu)[i - addrs.len()]);
            }
            if j < addrs.len() {
                assert(outs[j] == spec_broadcast(addrs, ev)[j]);
            }
        }
    }
}

} // verus!
