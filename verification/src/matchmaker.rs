use vstd::prelude::*;

use crate::model::{
    Address, CombatState, Combatant, Envelope, EnvelopeV, Match, Outbound, OutboundV, Participant,
    ParticipantV, Party, Phase, Reliability, StateV, Target, copy_targets, outbounds_view, owns,
    target_in_bounds,
};

verus! {

/// Health every fielded combatant starts with under the pinned initial
/// roster.
pub const STARTING_HP: u32 = 20;

/// The slot granted the first turn of a fresh match.
pub open spec fn first_turn() -> Target {
    Target { party_index: 0, member_index: 0 }
}

/// The slot the second participant starts with.
pub open spec fn second_side() -> Target {
    Target { party_index: 1, member_index: 0 }
}

/// Pinned initial roster: two parties of one standing combatant each, so
/// the two paired peers start symmetric.
pub open spec fn spec_initial_state() -> StateV {
    seq![
        seq![Some(Combatant { hp: STARTING_HP })],
        seq![Some(Combatant { hp: STARTING_HP })],
    ]
}

/// The messages a fresh match emits: a full-state snapshot (with the
/// receiver's own ownership set) to each participant, then the first turn
/// grant to both.
pub open spec fn spec_formation_messages(a1: Address, a2: Address) -> Seq<OutboundV> {
    seq![
        OutboundV {
            to: a1,
            envelope: EnvelopeV::GameState(spec_initial_state(), seq![first_turn()]),
            mode: Reliability::ReliableOrdered,
        },
        OutboundV {
            to: a2,
            envelope: EnvelopeV::GameState(spec_initial_state(), seq![second_side()]),
            mode: Reliability::ReliableOrdered,
        },
        OutboundV {
            to: a1,
            envelope: EnvelopeV::TakeTurn(first_turn()),
            mode: Reliability::ReliableOrdered,
        },
        OutboundV {
            to: a2,
            envelope: EnvelopeV::TakeTurn(first_turn()),
            mode: Reliability::ReliableOrdered,
        },
    ]
}

/// Builds the initial roster. Construction is synchronous, pure and
/// deterministic; it cannot partially fail.
pub fn initial_combat_state() -> (s: CombatState)
    ensures
        s@ == spec_initial_state(),
{
    let mut m0: Vec<Option<Combatant>> = Vec::new();
    m0.push(Some(Combatant { hp: STARTING_HP }));
    let mut m1: Vec<Option<Combatant>> = Vec::new();
    m1.push(Some(Combatant { hp: STARTING_HP }));
    proof {
        assert(m0@ =~= seq![Some(Combatant { hp: STARTING_HP })]);
        assert(m1@ =~= seq![Some(Combatant { hp: STARTING_HP })]);
    }
    let mut parties: Vec<Party> = Vec::new();
    parties.push(Party { members: m0 });
    parties.push(Party { members: m1 });
    let s = CombatState { parties };
    proof {
        assert(s@ =~= spec_initial_state());
    }
    s
}

/// Pairs two pooled peers into a fresh match.
///
/// Each paired address becomes a participant owning the slots of its side,
/// so the two ownership sets jointly cover every slot of the initial state
/// and no slot is owned by both. The first participant holds the first
/// turn, and the returned messages carry each peer its snapshot and then
/// the first turn grant.
pub fn form_match(a1: Address, a2: Address) -> (r: (Match, Vec<Outbound>))
    requires
        a1 != a2,
    ensures
        r.0.wf(),
        r.0.participants@.len() == 2,
        (r.0.participants@[0])@ == (ParticipantV { address: a1, ownership: seq![first_turn()] }),
        (r.0.participants@[1])@ == (ParticipantV { address: a2, ownership: seq![second_side()] }),
        r.0.spectators@.len() == 0,
        r.0.combat_state@ == spec_initial_state(),
        r.0.phase == Phase::AwaitingTurn(first_turn()),
        forall|t: Target|
            target_in_bounds(r.0.combat_state, t) ==> owns(r.0.participants@[0], t) || owns(
                r.0.participants@[1],
                t,
            ),
        forall|t: Target| !(owns(r.0.participants@[0], t) && owns(r.0.participants@[1], t)),
        outbounds_view(r.1@) == spec_formation_messages(a1, a2),
{
    let t00 = Target { party_index: 0, member_index: 0 };
    let t10 = Target { party_index: 1, member_index: 0 };
    let state = initial_combat_state();
    let mut own1: Vec<Target> = Vec::new();
    own1.push(t00);
    let mut own2: Vec<Target> = Vec::new();
    own2.push(t10);
    proof {
        assert(own1@ =~= seq![first_turn()]);
        assert(own2@ =~= seq![second_side()]);
    }
    let mut outs: Vec<Outbound> = Vec::new();
    outs.push(
        Outbound {
            to: a1,
            envelope: Envelope::GameState(state.duplicate(), copy_targets(&own1)),
            mode: Reliability::ReliableOrdered,
        },
    );
    outs.push(
        Outbound {
            to: a2,
            envelope: Envelope::GameState(state.duplicate(), copy_targets(&own2)),
            mode: Reliability::ReliableOrdered,
        },
    );
    outs.push(
        Outbound { to: a1, envelope: Envelope::TakeTurn(t00), mode: Reliability::ReliableOrdered },
    );
    outs.push(
        Outbound { to: a2, envelope: Envelope::TakeTurn(t00), mode: Reliability::ReliableOrdered },
    );
    let mut participants: Vec<Participant> = Vec::new();
    participants.push(Participant { address: a1, ownership: own1 });
    participants.push(Participant { address: a2, ownership: own2 });
    let m = Match {
        participants,
        spectators: Vec::new(),
        combat_state: state,
        phase: Phase::AwaitingTurn(t00),
    };
    proof {
        assert(outbounds_view(outs@) =~= spec_formation_messages(a1, a2));
        assert(m.combat_state@ == spec_initial_state());
        assert(m.combat_state.parties@.len() == 2);
        assert(m.combat_state.parties@[0].members@.len() == 1);
        assert(m.combat_state.parties@[1].members@.len() == 1);
        assert(target_in_bounds(m.combat_state, first_turn()));
        assert(target_in_bounds(m.combat_state, second_side()));
        assert(m.participants@[0].ownership@ == seq![first_turn()]);
        assert(m.participants@[1].ownership@ == seq![second_side()]);
        assert forall|i: int, k: int|
            0 <= i < m.participants@.len() && 0 <= k
                < (#[trigger] m.participants@[i]).ownership@.len() implies target_in_bounds(
            m.combat_state,
            #[trigger] m.participants@[i].ownership@[k],
        ) by {
            if i == 0 {
                assert(m.participants@[i].ownership@[k] == first_turn());
            } else {
                assert(m.participants@[i].ownership@[k] == second_side());
            }
        }
        assert forall|i: int, j: int, t: Target|
            0 <= i < m.participants@.len() && 0 <= j < m.participants@.len() && #[trigger] owns(
                m.participants@[i],
                t,
            ) && #[trigger] owns(m.participants@[j], t) implies i == j by {
            if i != j {
                assert(t == first_turn() || t == second_side());
                assert(t == first_turn() && t == second_side());
            }
        }
        assert(m.wf());
        assert forall|t: Target| target_in_bounds(m.combat_state, t) implies owns(
            m.participants@[0],
            t,
        ) || owns(m.participants@[1], t) by {
            assert(t.party_index < 2);
            if t.party_index == 0 {
                assert(t.member_index < 1);
                assert(t == first_turn());
                assert(m.participants@[0].ownership@[0] == t);
            } else {
                assert(t.member_index < 1);
                assert(t == second_side());
                assert(m.participants@[1].ownership@[0] == t);
            }
        }
    }
    (m, outs)
}

} // verus!
