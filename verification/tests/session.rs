use combat_session::codec::{TAG_COMBAT_EVENT, TAG_PROTOCOL_VERSION, encode_envelope};
use combat_session::engine;
use combat_session::model::{
    CombatEvent, Effect, Envelope, ErrorKind, InboundEvent, Outcome, Phase, Reliability, Target,
};
use combat_session::server::Server;

const VERSION: u32 = 7;

fn t(p: usize, m: usize) -> Target {
    Target { party_index: p, member_index: m }
}

fn packet(addr: u64, env: &Envelope) -> InboundEvent {
    InboundEvent::Packet(addr, encode_envelope(env))
}

/// Brings addresses 1 and 2 through challenge and handshake into one match.
/// Pairing is most-recently-admitted first, so address 2 is the first
/// participant and holds the opening turn through Target{0,0}.
fn paired_server() -> Server {
    let mut s = Server::new(VERSION);
    let hello1 = s.handle(InboundEvent::Connected(1));
    assert_eq!(hello1.len(), 1);
    assert_eq!(hello1[0].envelope, Envelope::ProtocolVersion(VERSION));
    let pooled1 = s.handle(packet(1, &Envelope::ProtocolVersion(VERSION)));
    assert!(pooled1.is_empty());
    s.handle(InboundEvent::Connected(2));
    let formed = s.handle(packet(2, &Envelope::ProtocolVersion(VERSION)));
    assert_eq!(formed.len(), 4);
    s
}

#[test]
fn handshake_and_pairing_sends_disjoint_ownership() {
    let mut s = Server::new(VERSION);
    s.handle(InboundEvent::Connected(1));
    s.handle(packet(1, &Envelope::ProtocolVersion(VERSION)));
    s.handle(InboundEvent::Connected(2));
    let formed = s.handle(packet(2, &Envelope::ProtocolVersion(VERSION)));

    assert_eq!(formed.len(), 4);
    // Snapshot to each participant first, with that participant's own
    // ownership set; the sets are disjoint and cover both starting slots.
    let (own_a, own_b) = match (&formed[0].envelope, &formed[1].envelope) {
        (Envelope::GameState(st_a, own_a), Envelope::GameState(st_b, own_b)) => {
            assert_eq!(st_a.parties.len(), 2);
            assert_eq!(st_b.parties.len(), 2);
            assert_eq!(formed[0].to, 2);
            assert_eq!(formed[1].to, 1);
            (own_a.clone(), own_b.clone())
        },
        other => panic!("expected two snapshots first, got {:?}", other),
    };
    assert_eq!(own_a, vec![t(0, 0)]);
    assert_eq!(own_b, vec![t(1, 0)]);
    // Then the opening turn grant to both.
    assert_eq!(formed[2].envelope, Envelope::TakeTurn(t(0, 0)));
    assert_eq!(formed[3].envelope, Envelope::TakeTurn(t(0, 0)));
    for o in &formed {
        assert_eq!(o.mode, Reliability::ReliableOrdered);
    }
    assert_eq!(s.matches.len(), 1);
    assert_eq!(s.pool.len(), 0);
}

#[test]
fn third_peer_waits_pooled() {
    let mut s = paired_server();
    s.handle(InboundEvent::Connected(3));
    let out = s.handle(packet(3, &Envelope::ProtocolVersion(VERSION)));
    assert!(out.is_empty());
    assert_eq!(s.pool.len(), 1);
    assert_eq!(s.matches.len(), 1);
}

#[test]
fn event_out_of_turn_is_rejected_and_state_unchanged() {
    let mut s = paired_server();
    // Address 1 owns Target{1,0}; the cursor names Target{0,0}.
    let ev = CombatEvent { actor: t(1, 0), effects: vec![Effect { target: t(0, 0), amount: 3 }] };
    let out = s.handle(packet(1, &Envelope::CombatEvent(ev)));
    assert_eq!(out.len(), 1);
    assert_eq!(out[0].to, 1);
    assert_eq!(
        out[0].envelope,
        Envelope::Rejection(ErrorKind::NotYourTurn, TAG_COMBAT_EVENT)
    );
    // No slot took damage, the cursor did not move.
    let m = &s.matches[0];
    assert_eq!(m.combat_state.parties[0].members[0].as_ref().unwrap().hp, 20);
    assert_eq!(m.combat_state.parties[1].members[0].as_ref().unwrap().hp, 20);
    assert_eq!(m.phase, Phase::AwaitingTurn(t(0, 0)));
}

#[test]
fn foreign_actor_is_rejected_as_not_owned() {
    let mut s = paired_server();
    // Address 1 submits through the slot it does not own while that slot
    // holds the turn.
    let ev = CombatEvent { actor: t(0, 0), effects: vec![] };
    let out = s.handle(packet(1, &Envelope::CombatEvent(ev)));
    assert_eq!(out.len(), 1);
    assert_eq!(
        out[0].envelope,
        Envelope::Rejection(ErrorKind::NotOwned, TAG_COMBAT_EVENT)
    );
}

#[test]
fn out_of_bounds_event_is_rejected_as_malformed() {
    let mut s = paired_server();
    let ev = CombatEvent { actor: t(0, 0), effects: vec![Effect { target: t(5, 9), amount: 1 }] };
    let out = s.handle(packet(2, &Envelope::CombatEvent(ev)));
    assert_eq!(out.len(), 1);
    assert_eq!(
        out[0].envelope,
        Envelope::Rejection(ErrorKind::MalformedEvent, TAG_COMBAT_EVENT)
    );
    assert_eq!(s.matches[0].phase, Phase::AwaitingTurn(t(0, 0)));
}

#[test]
fn valid_event_is_broadcast_then_turn_passes() {
    let mut s = paired_server();
    engine::add_spectator(&mut s.matches[0], 99);
    let ev = CombatEvent { actor: t(0, 0), effects: vec![Effect { target: t(1, 0), amount: 5 }] };
    let out = s.handle(packet(2, &Envelope::CombatEvent(ev.clone())));
    // Confirmed event to both participants and the spectator, then the
    // next grant to the same three, in that order.
    assert_eq!(out.len(), 6);
    for k in 0..3 {
        assert_eq!(out[k].envelope, Envelope::CombatEvent(ev.clone()));
    }
    assert_eq!(out[0].to, 2);
    assert_eq!(out[1].to, 1);
    assert_eq!(out[2].to, 99);
    for k in 3..6 {
        assert_eq!(out[k].envelope, Envelope::TakeTurn(t(1, 0)));
    }
    for o in &out {
        assert_eq!(o.mode, Reliability::ReliableOrdered);
    }
    let m = &s.matches[0];
    assert_eq!(m.combat_state.parties[1].members[0].as_ref().unwrap().hp, 15);
    assert_eq!(m.phase, Phase::AwaitingTurn(t(1, 0)));
}

#[test]
fn lethal_event_concludes_with_win() {
    let mut s = paired_server();
    let ev = CombatEvent { actor: t(0, 0), effects: vec![Effect { target: t(1, 0), amount: 20 }] };
    let out = s.handle(packet(2, &Envelope::CombatEvent(ev)));
    assert_eq!(out.len(), 4);
    assert_eq!(out[2].envelope, Envelope::Concluded(Outcome::Won(0)));
    assert_eq!(out[3].envelope, Envelope::Concluded(Outcome::Won(0)));
    let m = &s.matches[0];
    assert!(m.combat_state.parties[1].members[0].is_none());
    assert_eq!(m.phase, Phase::Concluded(Outcome::Won(0)));
}

#[test]
fn damage_saturates_and_empties_the_slot() {
    let mut s = paired_server();
    let ev = CombatEvent {
        actor: t(0, 0),
        effects: vec![
            Effect { target: t(1, 0), amount: 12 },
            Effect { target: t(1, 0), amount: 200 },
        ],
    };
    s.handle(packet(2, &Envelope::CombatEvent(ev)));
    assert!(s.matches[0].combat_state.parties[1].members[0].is_none());
}

#[test]
fn unknown_address_event_only_draws_a_challenge() {
    let mut s = Server::new(VERSION);
    let ev = CombatEvent { actor: t(0, 0), effects: vec![] };
    let out = s.handle(packet(5, &Envelope::CombatEvent(ev)));
    assert_eq!(out.len(), 1);
    assert_eq!(out[0].to, 5);
    assert_eq!(out[0].envelope, Envelope::ProtocolVersion(VERSION));
    assert_eq!(s.pool.len(), 0);
    assert_eq!(s.matches.len(), 0);
}

#[test]
fn undecodable_bytes_are_dropped_silently() {
    let mut s = Server::new(VERSION);
    let out = s.handle(InboundEvent::Packet(5, vec![0xff, 0x00, 0x07]));
    assert!(out.is_empty());
}

#[test]
fn version_mismatch_is_terminal() {
    let mut s = Server::new(VERSION);
    s.handle(InboundEvent::Connected(1));
    let out = s.handle(packet(1, &Envelope::ProtocolVersion(VERSION + 1)));
    assert_eq!(out.len(), 1);
    assert_eq!(
        out[0].envelope,
        Envelope::Rejection(ErrorKind::IncompatibleProtocol, TAG_PROTOCOL_VERSION)
    );
    // A later, correct reply no longer admits the address.
    let again = s.handle(packet(1, &Envelope::ProtocolVersion(VERSION)));
    assert!(again.is_empty());
    assert_eq!(s.pool.len(), 0);
}

#[test]
fn pooled_sender_is_not_a_member() {
    let mut s = Server::new(VERSION);
    s.handle(InboundEvent::Connected(1));
    s.handle(packet(1, &Envelope::ProtocolVersion(VERSION)));
    let ev = CombatEvent { actor: t(0, 0), effects: vec![] };
    let out = s.handle(packet(1, &Envelope::CombatEvent(ev)));
    assert_eq!(out.len(), 1);
    assert_eq!(
        out[0].envelope,
        Envelope::Rejection(ErrorKind::NotAMember, TAG_COMBAT_EVENT)
    );
}

#[test]
fn owner_departure_concludes_as_abandoned_once() {
    let mut s = paired_server();
    let out = s.handle(InboundEvent::Disconnected(2));
    // Exactly one notice, to the one remaining member.
    assert_eq!(out.len(), 1);
    assert_eq!(out[0].to, 1);
    assert_eq!(out[0].envelope, Envelope::Concluded(Outcome::Abandoned));
    assert_eq!(s.matches[0].phase, Phase::Concluded(Outcome::Abandoned));
    assert_eq!(s.matches[0].participants.len(), 1);
    // The second departure finds the match already concluded: no second
    // notice.
    let out2 = s.handle(InboundEvent::Disconnected(1));
    assert!(out2.is_empty());
    assert!(s.matches[0].participants.is_empty());
}

#[test]
fn pooled_peer_timeout_leaves_the_pool() {
    let mut s = Server::new(VERSION);
    s.handle(InboundEvent::Connected(1));
    s.handle(packet(1, &Envelope::ProtocolVersion(VERSION)));
    assert_eq!(s.pool.len(), 1);
    s.handle(InboundEvent::Timeout(1));
    assert_eq!(s.pool.len(), 0);
}

#[test]
fn turn_timeout_skips_to_the_next_owner() {
    let mut s = paired_server();
    let out = engine::on_turn_timeout(&mut s.matches[0], t(0, 0));
    assert_eq!(out.len(), 2);
    assert_eq!(out[0].envelope, Envelope::TakeTurn(t(1, 0)));
    assert_eq!(out[1].envelope, Envelope::TakeTurn(t(1, 0)));
    assert_eq!(s.matches[0].phase, Phase::AwaitingTurn(t(1, 0)));
    // A stale timer for a slot not holding the turn does nothing.
    let stale = engine::on_turn_timeout(&mut s.matches[0], t(0, 0));
    assert!(stale.is_empty());
}

#[test]
fn shutdown_notifies_every_open_match() {
    let mut s = paired_server();
    let out = s.shutdown();
    assert_eq!(out.len(), 2);
    assert_eq!(out[0].envelope, Envelope::Concluded(Outcome::Abandoned));
    assert_eq!(out[1].envelope, Envelope::Concluded(Outcome::Abandoned));
    assert_eq!(s.matches[0].phase, Phase::Concluded(Outcome::Abandoned));
    // A second shutdown has nothing left to conclude.
    assert!(s.shutdown().is_empty());
}
