use combat_session::codec::{decode_envelope, encode_envelope};
use combat_session::matchmaker::initial_combat_state;
use combat_session::model::{
    CombatEvent, CombatState, Combatant, Effect, Envelope, ErrorKind, Outcome, Party, Target,
};

fn round_trip(env: Envelope) {
    let bytes = encode_envelope(&env);
    assert_eq!(decode_envelope(&bytes), Some(env));
}

#[test]
fn protocol_version_round_trip_and_layout() {
    let bytes = encode_envelope(&Envelope::ProtocolVersion(0x0a0b0c0d));
    // Tag byte, then the version little-endian.
    assert_eq!(bytes, vec![0, 0x0d, 0x0c, 0x0b, 0x0a]);
    round_trip(Envelope::ProtocolVersion(0x0a0b0c0d));
    round_trip(Envelope::ProtocolVersion(0));
}

#[test]
fn game_state_round_trip() {
    round_trip(Envelope::GameState(
        initial_combat_state(),
        vec![Target { party_index: 0, member_index: 0 }],
    ));
    // A state with an empty slot and an empty party survives too.
    let state = CombatState {
        parties: vec![
            Party { members: vec![None, Some(Combatant { hp: 3 })] },
            Party { members: vec![] },
        ],
    };
    round_trip(Envelope::GameState(state, vec![]));
}

#[test]
fn combat_event_round_trip() {
    round_trip(Envelope::CombatEvent(CombatEvent {
        actor: Target { party_index: 0, member_index: 0 },
        effects: vec![
            Effect { target: Target { party_index: 1, member_index: 0 }, amount: 5 },
            Effect { target: Target { party_index: 0, member_index: 0 }, amount: 0 },
        ],
    }));
}

#[test]
fn take_turn_round_trip() {
    round_trip(Envelope::TakeTurn(Target { party_index: 1, member_index: 3 }));
}

#[test]
fn rejection_round_trip_all_kinds() {
    for k in [
        ErrorKind::NotAMember,
        ErrorKind::NotYourTurn,
        ErrorKind::NotOwned,
        ErrorKind::MalformedEvent,
        ErrorKind::IncompatibleProtocol,
    ] {
        round_trip(Envelope::Rejection(k, 2));
    }
}

#[test]
fn concluded_round_trip() {
    round_trip(Envelope::Concluded(Outcome::Ongoing));
    round_trip(Envelope::Concluded(Outcome::Won(1)));
    round_trip(Envelope::Concluded(Outcome::Abandoned));
}

#[test]
fn malformed_datagrams_are_rejected() {
    // Empty.
    assert_eq!(decode_envelope(&vec![]), None);
    // Unknown kind tag.
    assert_eq!(decode_envelope(&vec![9]), None);
    // Truncated payload.
    assert_eq!(decode_envelope(&vec![0, 1, 2]), None);
    // Trailing garbage after a complete envelope.
    let mut bytes = encode_envelope(&Envelope::ProtocolVersion(1));
    bytes.push(0);
    assert_eq!(decode_envelope(&bytes), None);
    // Out-of-range rejection kind.
    assert_eq!(decode_envelope(&vec![4, 9, 0]), None);
    // Out-of-range slot marker inside a state.
    let mut state_bytes = vec![1u8];
    state_bytes.extend_from_slice(&1u64.to_le_bytes());
    state_bytes.extend_from_slice(&1u64.to_le_bytes());
    state_bytes.push(7u8);
    assert_eq!(decode_envelope(&state_bytes), None);
}
