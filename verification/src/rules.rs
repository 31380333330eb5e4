use vstd::prelude::*;

use crate::model::{CombatEvent, CombatState, Combatant, Effect, Outcome, Target, target_in_bounds};

verus! {

/// Pinned damage policy: an effect subtracts its amount from the slot's
/// health; a slot whose health would reach zero is emptied (the member has
/// fallen); damage to an already-empty slot does nothing.
pub open spec fn spec_damage(slot: Option<Combatant>, amount: u32) -> Option<Combatant> {
    match slot {
        Some(c) => if c.hp <= amount {
            None
        } else {
            Some(Combatant { hp: (c.hp - amount) as u32 })
        },
        None => None,
    }
}

/// The slot at `(p, m)` after the effects have been applied in order.
pub open spec fn spec_apply_to_slot(
    slot: Option<Combatant>,
    p: int,
    m: int,
    effects: Seq<Effect>,
) -> Option<Combatant>
    decreases effects.len(),
{
    if effects.len() == 0 {
        slot
    } else {
        let prev = spec_apply_to_slot(slot, p, m, effects.drop_last());
        let last = effects.last();
        if last.target.party_index == p && last.target.member_index == m {
            spec_damage(prev, last.amount)
        } else {
            prev
        }
    }
}

/// Every effect of the event points inside the state.
pub open spec fn effects_in_bounds(s: CombatState, e: CombatEvent) -> bool {
    forall|i: int|
        0 <= i < e.effects@.len() ==> target_in_bounds(s, (#[trigger] e.effects@[i]).target)
}

/// Applies one effect in place: the affected slot takes the damage, every
/// other slot is untouched, and the party/member shape of the state is
/// preserved.
pub fn apply_effect(state: &mut CombatState, eff: Effect)
    requires
        target_in_bounds(*old(state), eff.target),
    ensures
        final(state).parties@.len() == old(state).parties@.len(),
        forall|p: int|
            0 <= p < old(state).parties@.len() ==> (#[trigger] final(state).parties@[p]).members@.len()
                == old(state).parties@[p].members@.len(),
        forall|p: int, m: int|
            0 <= p < old(state).parties@.len() && 0 <= m < old(
                state,
            ).parties@[p].members@.len() ==> (#[trigger] final(state).parties@[p].members@[m]) == (
            if p == eff.target.party_index && m == eff.target.member_index {
                spec_damage(old(state).parties@[p].members@[m], eff.amount)
            } else {
                old(state).parties@[p].members@[m]
            }),
{
    let pi = eff.target.party_index;
    let mi = eff.target.member_index;
    let current: Option<Combatant> = state.parties[pi].members[mi];
    let updated: Option<Combatant> = match current {
        Some(c) => if c.hp <= eff.amount {
            None
        } else {
            Some(Combatant { hp: c.hp - eff.amount })
        },
        None => None,
    };
    state.parties[pi].members[mi] = updated;
}

/// Applies every effect of an already-validated event, in order. This is
/// the whole state transition of a confirmed event: slot `(p, m)` ends as
/// `spec_apply_to_slot` says, and the shape of the state never changes.
pub fn apply_event(state: &mut CombatState, e: &CombatEvent)
    requires
        effects_in_bounds(*old(state), *e),
    ensures
        final(state).parties@.len() == old(state).parties@.len(),
        forall|p: int|
            0 <= p < old(state).parties@.len() ==> (#[trigger] final(state).parties@[p]).members@.len()
                == old(state).parties@[p].members@.len(),
        forall|p: int, m: int|
            0 <= p < old(state).parties@.len() && 0 <= m < old(
                state,
            ).parties@[p].members@.len() ==> (#[trigger] final(state).parties@[p].members@[m])
                == spec_apply_to_slot(old(state).parties@[p].members@[m], p, m, e.effects@),
{
    let n = e.effects.len();
    let mut i: usize = 0;
    while i < n
        invariant
            i <= n,
            n == e.effects@.len(),
            effects_in_bounds(*old(state), *e),
            state.parties@.len() == old(state).parties@.len(),
            forall|p: int|
                0 <= p < old(state).parties@.len() ==> (#[trigger] state.parties@[p]).members@.len()
                    == old(state).parties@[p].members@.len(),
            forall|p: int, m: int|
                0 <= p < old(state).parties@.len() && 0 <= m < old(
                    state,
                ).parties@[p].members@.len() ==> (#[trigger] state.parties@[p].members@[m])
                    == spec_apply_to_slot(
                    old(state).parties@[p].members@[m],
                    p,
                    m,
                    e.effects@.take(i as int),
                ),
        decreases n - i,
    {
        let eff = e.effects[i];
        let ghost prev_state = *state;
        apply_effect(state, eff);
        proof {
            let effs = e.effects@;
            assert(effs.take(i + 1).drop_last() =~= effs.take(i as int));
            assert(effs.take(i + 1).last() == effs[i as int]);
            assert forall|p: int, m: int|
                0 <= p < old(state).parties@.len() && 0 <= m < old(
                    state,
                ).parties@[p].members@.len() implies (#[trigger] state.parties@[p].members@[m])
                == spec_apply_to_slot(
                old(state).parties@[p].members@[m],
                p,
                m,
                effs.take(i + 1),
            ) by {
                assert(prev_state.parties@[p].members@[m] == spec_apply_to_slot(
                    old(state).parties@[p].members@[m],
                    p,
                    m,
                    effs.take(i as int),
                ));
            }
        }
        i = i + 1;
    }
    proof {
        assert(e.effects@.take(n as int) =~= e.effects@);
    }
}

/// Whether party `p` still has an occupied slot.
pub open spec fn party_alive(s: CombatState, p: int) -> bool {
    exists|m: int|
        0 <= m < s.parties@[p].members@.len() && (#[trigger] s.parties@[p].members@[m]) is Some
}

/// Pinned outcome policy: the fight is ongoing while two or more parties
/// have a standing member; it is won by the unique standing party if exactly
/// one is left; it counts as abandoned if nobody is left standing.
pub open spec fn spec_outcome(s: CombatState) -> Outcome {
    if exists|p: int, q: int|
        0 <= p < s.parties@.len() && 0 <= q < s.parties@.len() && p != q && #[trigger] party_alive(
            s,
            p,
        ) && #[trigger] party_alive(s, q) {
        Outcome::Ongoing
    } else if exists|p: int| 0 <= p < s.parties@.len() && #[trigger] party_alive(s, p) {
        Outcome::Won((choose|p: int| 0 <= p < s.parties@.len() && #[trigger] party_alive(s, p)) as usize)
    } else {
        Outcome::Abandoned
    }
}

/// Whether party `p` still has an occupied slot (executable form).
pub fn party_alive_exec(s: &CombatState, p: usize) -> (r: bool)
    requires
        p < s.parties@.len(),
    ensures
        r == party_alive(*s, p as int),
{
    let members = &s.parties[p].members;
    let n = members.len();
    let mut m: usize = 0;
    while m < n
        invariant
            m <= n,
            n == members@.len(),
            members@ == s.parties@[p as int].members@,
            forall|k: int| 0 <= k < m ==> (#[trigger] members@[k]) is None,
        decreases n - m,
    {
        if members[m].is_some() {
            return true;
        }
        m = m + 1;
    }
    false
}

/// Reports the outcome the pinned policy assigns to the state.
pub fn check_outcome(s: &CombatState) -> (r: Outcome)
    ensures
        r == spec_outcome(*s),
{
    let n = s.parties.len();
    let mut count: usize = 0;
    let mut first: usize = 0;
    let mut second: usize = 0;
    let mut p: usize = 0;
    while p < n
        invariant
            p <= n,
            n == s.parties@.len(),
            count <= p,
            count == 0 ==> forall|k: int| 0 <= k < p ==> !party_alive(*s, k),
            count == 1 ==> first < p && party_alive(*s, first as int) && forall|k: int|
                0 <= k < p && k != first ==> !party_alive(*s, k),
            count >= 2 ==> first < n && second < n && first != second && party_alive(
                *s,
                first as int,
            ) && party_alive(*s, second as int),
        decreases n - p,
    {
        if party_alive_exec(s, p) {
            if count == 0 {
                first = p;
            } else if count == 1 {
                second = p;
            }
            if count < 2 {
                count = count + 1;
            }
        }
        p = p + 1;
    }
    if count == 0 {
        Outcome::Abandoned
    } else if count == 1 {
        proof {
            let w = choose|q: int| 0 <= q < s.parties@.len() && #[trigger] party_alive(*s, q);
            assert(party_alive(*s, first as int));
            assert(w == first as int);
        }
        Outcome::Won(first)
    } else {
        Outcome::Ongoing
    }
}

} // verus!
