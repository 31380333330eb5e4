use vstd::prelude::*;

use crate::model::{
    CombatEvent, CombatState, Combatant, Effect, Envelope, ErrorKind, EventV, Outcome, Party,
    StateV, Target,
};

verus! {

// Wire format: one envelope is a one-byte message-kind tag followed by the
// kind's payload. Integers travel little-endian, fixed width: u32 for
// version and health, u64 for counts and indices. A sequence is its u64
// length then its elements. A slot is 0 for empty or 1 plus the combatant.
// Decoding consumes the whole datagram and accepts exactly the encodings
// this module produces; anything else (unknown tag, short payload,
// trailing bytes, out-of-range discriminant) is rejected.

pub const TAG_PROTOCOL_VERSION: u8 = 0;

pub const TAG_GAME_STATE: u8 = 1;

pub const TAG_COMBAT_EVENT: u8 = 2;

pub const TAG_TAKE_TURN: u8 = 3;

pub const TAG_REJECTION: u8 = 4;

pub const TAG_CONCLUDED: u8 = 5;

pub open spec fn u32_le(n: u32) -> Seq<u8> {
    seq![
        (n & 0xff) as u8,
        ((n >> 8) & 0xff) as u8,
        ((n >> 16) & 0xff) as u8,
        ((n >> 24) & 0xff) as u8,
    ]
}

pub open spec fn u64_le(n: u64) -> Seq<u8> {
    seq![
        (n & 0xff) as u8,
        ((n >> 8) & 0xff) as u8,
        ((n >> 16) & 0xff) as u8,
        ((n >> 24) & 0xff) as u8,
        ((n >> 32) & 0xff) as u8,
        ((n >> 40) & 0xff) as u8,
        ((n >> 48) & 0xff) as u8,
        ((n >> 56) & 0xff) as u8,
    ]
}

pub open spec fn enc_target(t: Target) -> Seq<u8> {
    u64_le(t.party_index as u64) + u64_le(t.member_index as u64)
}

pub open spec fn enc_slot(s: Option<Combatant>) -> Seq<u8> {
    match s {
        None => seq![0u8],
        Some(c) => seq![1u8] + u32_le(c.hp),
    }
}

pub open spec fn enc_members(ms: Seq<Option<Combatant>>) -> Seq<u8>
    decreases ms.len(),
{
    if ms.len() == 0 {
        Seq::empty()
    } else {
        enc_members(ms.drop_last()) + enc_slot(ms.last())
    }
}

pub open spec fn enc_party(ms: Seq<Option<Combatant>>) -> Seq<u8> {
    u64_le(ms.len() as u64) + enc_members(ms)
}

pub open spec fn enc_parties(ps: StateV) -> Seq<u8>
    decreases ps.len(),
{
    if ps.len() == 0 {
        Seq::empty()
    } else {
        enc_parties(ps.drop_last()) + enc_party(ps.last())
    }
}

pub open spec fn enc_state(s: StateV) -> Seq<u8> {
    u64_le(s.len() as u64) + enc_parties(s)
}

pub open spec fn enc_targets(ts: Seq<Target>) -> Seq<u8>
    decreases ts.len(),
{
    if ts.len() == 0 {
        Seq::empty()
    } else {
        enc_targets(ts.drop_last()) + enc_target(ts.last())
    }
}

pub open spec fn enc_effect(e: Effect) -> Seq<u8> {
    enc_target(e.target) + u32_le(e.amount)
}

pub open spec fn enc_effects(es: Seq<Effect>) -> Seq<u8>
    decreases es.len(),
{
    if es.len() == 0 {
        Seq::empty()
    } else {
        enc_effects(es.drop_last()) + enc_effect(es.last())
    }
}

pub open spec fn enc_event(e: EventV) -> Seq<u8> {
    enc_target(e.actor) + u64_le(e.effects.len() as u64) + enc_effects(e.effects)
}

pub open spec fn error_byte(k: ErrorKind) -> u8 {
    match k {
        ErrorKind::NotAMember => 0u8,
        ErrorKind::NotYourTurn => 1u8,
        ErrorKind::NotOwned => 2u8,
        ErrorKind::MalformedEvent => 3u8,
        ErrorKind::IncompatibleProtocol => 4u8,
    }
}

pub open spec fn enc_outcome(o: Outcome) -> Seq<u8> {
    match o {
        Outcome::Ongoing => seq![0u8],
        Outcome::Won(side) => seq![1u8] + u64_le(side as u64),
        Outcome::Abandoned => seq![2u8],
    }
}

pub open spec fn spec_encode(e: crate::model::EnvelopeV) -> Seq<u8> {
    match e {
        crate::model::EnvelopeV::ProtocolVersion(v) => seq![TAG_PROTOCOL_VERSION] + u32_le(v),
        crate::model::EnvelopeV::GameState(s, own) => seq![TAG_GAME_STATE] + enc_state(s) + u64_le(
            own.len() as u64,
        ) + enc_targets(own),
        crate::model::EnvelopeV::CombatEvent(ev) => seq![TAG_COMBAT_EVENT] + enc_event(ev),
        crate::model::EnvelopeV::TakeTurn(t) => seq![TAG_TAKE_TURN] + enc_target(t),
        crate::model::EnvelopeV::Rejection(k, orig) => seq![TAG_REJECTION] + seq![error_byte(k)]
            + seq![orig],
        crate::model::EnvelopeV::Concluded(o) => seq![TAG_CONCLUDED] + enc_outcome(o),
    }
}

fn write_u32(out: &mut Vec<u8>, n: u32)
    ensures
        final(out)@ == old(out)@ + u32_le(n),
{
    out.push((n & 0xff) as u8);
    out.push(((n >> 8) & 0xff) as u8);
    out.push(((n >> 16) & 0xff) as u8);
    out.push(((n >> 24) & 0xff) as u8);
    proof {
        assert(out@ =~= old(out)@ + u32_le(n));
    }
}

fn write_u64(out: &mut Vec<u8>, n: u64)
    ensures
        final(out)@ == old(out)@ + u64_le(n),
{
    out.push((n & 0xff) as u8);
    out.push(((n >> 8) & 0xff) as u8);
    out.push(((n >> 16) & 0xff) as u8);
    out.push(((n >> 24) & 0xff) as u8);
    out.push(((n >> 32) & 0xff) as u8);
    out.push(((n >> 40) & 0xff) as u8);
    out.push(((n >> 48) & 0xff) as u8);
    out.push(((n >> 56) & 0xff) as u8);
    proof {
        assert(out@ =~= old(out)@ + u64_le(n));
    }
}

fn write_target(out: &mut Vec<u8>, t: Target)
    ensures
        final(out)@ == old(out)@ + enc_target(t),
{
    write_u64(out, t.party_index as u64);
    write_u64(out, t.member_index as u64);
    proof {
        assert(out@ =~= old(out)@ + enc_target(t));
    }
}

fn write_party(out: &mut Vec<u8>, p: &Party)
    ensures
        final(out)@ == old(out)@ + enc_party(p.members@),
{
    let n = p.members.len();
    write_u64(out, n as u64);
    let mut i: usize = 0;
    while i < n
        invariant
            i <= n,
            n == p.members@.len(),
            out@ == old(out)@ + u64_le(n as u64) + enc_members(p.members@.take(i as int)),
        decreases n - i,
    {
        match p.members[i] {
            None => out.push(0u8),
            Some(c) => {
                out.push(1u8);
                write_u32(out, c.hp);
            },
        }
        proof {
            assert(p.members@.take(i + 1).drop_last() =~= p.members@.take(i as int));
            assert(p.members@.take(i + 1).last() == p.members@[i as int]);
            assert(out@ =~= old(out)@ + u64_le(n as u64) + enc_members(p.members@.take(i + 1)));
        }
        i = i + 1;
    }
    proof {
        assert(p.members@.take(n as int) =~= p.members@);
        assert(out@ =~= old(out)@ + enc_party(p.members@));
    }
}

fn write_state(out: &mut Vec<u8>, s: &CombatState)
    ensures
        final(out)@ == old(out)@ + enc_state(s@),
{
    let n = s.parties.len();
    write_u64(out, n as u64);
    let mut i: usize = 0;
    while i < n
        invariant
            i <= n,
            n == s.parties@.len(),
            out@ == old(out)@ + u64_le(n as u64) + enc_parties(s@.take(i as int)),
        decreases n - i,
    {
        write_party(out, &s.parties[i]);
        proof {
            assert(s@.take(i + 1).drop_last() =~= s@.take(i as int));
            assert(s@.take(i + 1).last() == s@[i as int]);
            assert(s@[i as int] == s.parties@[i as int].members@);
            assert(out@ =~= old(out)@ + u64_le(n as u64) + enc_parties(s@.take(i + 1)));
        }
        i = i + 1;
    }
    proof {
        assert(s@.take(n as int) =~= s@);
        assert(s@.len() == n);
        assert(out@ =~= old(out)@ + enc_state(s@));
    }
}

fn write_targets(out: &mut Vec<u8>, ts: &Vec<Target>)
    ensures
        final(out)@ == old(out)@ + u64_le(ts@.len() as u64) + enc_targets(ts@),
{
    let n = ts.len();
    write_u64(out, n as u64);
    let mut i: usize = 0;
    while i < n
        invariant
            i <= n,
            n == ts@.len(),
            out@ == old(out)@ + u64_le(n as u64) + enc_targets(ts@.take(i as int)),
        decreases n - i,
    {
        write_target(out, ts[i]);
        proof {
            assert(ts@.take(i + 1).drop_last() =~= ts@.take(i as int));
            assert(ts@.take(i + 1).last() == ts@[i as int]);
            assert(out@ =~= old(out)@ + u64_le(n as u64) + enc_targets(ts@.take(i + 1)));
        }
        i = i + 1;
    }
    proof {
        assert(ts@.take(n as int) =~= ts@);
    }
}

fn write_event(out: &mut Vec<u8>, e: &CombatEvent)
    ensures
        final(out)@ == old(out)@ + enc_event(e@),
{
    write_target(out, e.actor);
    let n = e.effects.len();
    write_u64(out, n as u64);
    let mut i: usize = 0;
    while i < n
        invariant
            i <= n,
            n == e.effects@.len(),
            out@ == old(out)@ + enc_target(e.actor) + u64_le(n as u64) + enc_effects(
                e.effects@.take(i as int),
            ),
        decreases n - i,
    {
        let eff = e.effects[i];
        write_target(out, eff.target);
        write_u32(out, eff.amount);
        proof {
            assert(e.effects@.take(i + 1).drop_last() =~= e.effects@.take(i as int));
            assert(e.effects@.take(i + 1).last() == e.effects@[i as int]);
            assert(out@ =~= old(out)@ + enc_target(e.actor) + u64_le(n as u64) + enc_effects(
                e.effects@.take(i + 1),
            ));
        }
        i = i + 1;
    }
    proof {
        assert(e.effects@.take(n as int) =~= e.effects@);
        assert(out@ =~= old(out)@ + enc_event(e@));
    }
}

/// Encodes one envelope for the wire, exactly as `spec_encode` says.
pub fn encode_envelope(e: &Envelope) -> (r: Vec<u8>)
    ensures
        r@ == spec_encode(e@),
{
    let mut out: Vec<u8> = Vec::new();
    match e {
        Envelope::ProtocolVersion(v) => {
            out.push(TAG_PROTOCOL_VERSION);
            write_u32(&mut out, *v);
        },
        Envelope::GameState(s, own) => {
            out.push(TAG_GAME_STATE);
            write_state(&mut out, s);
            write_targets(&mut out, own);
        },
        Envelope::CombatEvent(ev) => {
            out.push(TAG_COMBAT_EVENT);
            write_event(&mut out, ev);
        },
        Envelope::TakeTurn(t) => {
            out.push(TAG_TAKE_TURN);
            write_target(&mut out, *t);
        },
        Envelope::Rejection(k, orig) => {
            out.push(TAG_REJECTION);
            let kb: u8 = match k {
                ErrorKind::NotAMember => 0u8,
                ErrorKind::NotYourTurn => 1u8,
                ErrorKind::NotOwned => 2u8,
                ErrorKind::MalformedEvent => 3u8,
                ErrorKind::IncompatibleProtocol => 4u8,
            };
            out.push(kb);
            out.push(*orig);
        },
        Envelope::Concluded(o) => {
            out.push(TAG_CONCLUDED);
            match o {
                Outcome::Ongoing => out.push(0u8),
                Outcome::Won(side) => {
                    out.push(1u8);
                    write_u64(&mut out, *side as u64);
                },
                Outcome::Abandoned => out.push(2u8),
            }
        },
    }
    proof {
        assert(out@ =~= spec_encode(e@));
    }
    out
}

proof fn lemma_u32_bytes(b0: u32, b1: u32, b2: u32, b3: u32)
    requires
        b0 < 256,
        b1 < 256,
        b2 < 256,
        b3 < 256,
    ensures
        ((b0 | (b1 << 8) | (b2 << 16) | (b3 << 24)) & 0xff) == b0,
        (((b0 | (b1 << 8) | (b2 << 16) | (b3 << 24)) >> 8) & 0xff) == b1,
        (((b0 | (b1 << 8) | (b2 << 16) | (b3 << 24)) >> 16) & 0xff) == b2,
        (((b0 | (b1 << 8) | (b2 << 16) | (b3 << 24)) >> 24) & 0xff) == b3,
{
    assert(((b0 | (b1 << 8) | (b2 << 16) | (b3 << 24)) & 0xff) == b0 && (((b0 | (b1 << 8) | (b2
        << 16) | (b3 << 24)) >> 8) & 0xff) == b1 && (((b0 | (b1 << 8) | (b2 << 16) | (b3 << 24))
        >> 16) & 0xff) == b2 && (((b0 | (b1 << 8) | (b2 << 16) | (b3 << 24)) >> 24) & 0xff) == b3)
        by (bit_vector)
        requires
            b0 < 256,
            b1 < 256,
            b2 < 256,
            b3 < 256,
    ;
}

proof fn lemma_u64_bytes(b0: u64, b1: u64, b2: u64, b3: u64, b4: u64, b5: u64, b6: u64, b7: u64)
    requires
        b0 < 256,
        b1 < 256,
        b2 < 256,
        b3 < 256,
        b4 < 256,
        b5 < 256,
        b6 < 256,
        b7 < 256,
    ensures
        ((b0 | (b1 << 8) | (b2 << 16) | (b3 << 24) | (b4 << 32) | (b5 << 40) | (b6 << 48) | (b7
            << 56)) & 0xff) == b0,
        (((b0 | (b1 << 8) | (b2 << 16) | (b3 << 24) | (b4 << 32) | (b5 << 40) | (b6 << 48) | (b7
            << 56)) >> 8) & 0xff) == b1,
        (((b0 | (b1 << 8) | (b2 << 16) | (b3 << 24) | (b4 << 32) | (b5 << 40) | (b6 << 48) | (b7
            << 56)) >> 16) & 0xff) == b2,
        (((b0 | (b1 << 8) | (b2 << 16) | (b3 << 24) | (b4 << 32) | (b5 << 40) | (b6 << 48) | (b7
            << 56)) >> 24) & 0xff) == b3,
        (((b0 | (b1 << 8) | (b2 << 16) | (b3 << 24) | (b4 << 32) | (b5 << 40) | (b6 << 48) | (b7
            << 56)) >> 32) & 0xff) == b4,
        (((b0 | (b1 << 8) | (b2 << 16) | (b3 << 24) | (b4 << 32) | (b5 << 40) | (b6 << 48) | (b7
            << 56)) >> 40) & 0xff) == b5,
        (((b0 | (b1 << 8) | (b2 << 16) | (b3 << 24) | (b4 << 32) | (b5 << 40) | (b6 << 48) | (b7
            << 56)) >> 48) & 0xff) == b6,
        (((b0 | (b1 << 8) | (b2 << 16) | (b3 << 24) | (b4 << 32) | (b5 << 40) | (b6 << 48) | (b7
            << 56)) >> 56) & 0xff) == b7,
{
    assert(((b0 | (b1 << 8) | (b2 << 16) | (b3 << 24) | (b4 << 32) | (b5 << 40) | (b6 << 48) | (b7
        << 56)) & 0xff) == b0 && (((b0 | (b1 << 8) | (b2 << 16) | (b3 << 24) | (b4 << 32) | (b5
        << 40) | (b6 << 48) | (b7 << 56)) >> 8) & 0xff) == b1 && (((b0 | (b1 << 8) | (b2 << 16) | (
    b3 << 24) | (b4 << 32) | (b5 << 40) | (b6 << 48) | (b7 << 56)) >> 16) & 0xff) == b2 && (((b0 | (
    b1 << 8) | (b2 << 16) | (b3 << 24) | (b4 << 32) | (b5 << 40) | (b6 << 48) | (b7 << 56)) >> 24)
        & 0xff) == b3 && (((b0 | (b1 << 8) | (b2 << 16) | (b3 << 24) | (b4 << 32) | (b5 << 40) | (
    b6 << 48) | (b7 << 56)) >> 32) & 0xff) == b4 && (((b0 | (b1 << 8) | (b2 << 16) | (b3 << 24) | (
    b4 << 32) | (b5 << 40) | (b6 << 48) | (b7 << 56)) >> 40) & 0xff) == b5 && (((b0 | (b1 << 8) | (
    b2 << 16) | (b3 << 24) | (b4 << 32) | (b5 << 40) | (b6 << 48) | (b7 << 56)) >> 48) & 0xff)
        == b6 && (((b0 | (b1 << 8) | (b2 << 16) | (b3 << 24) | (b4 << 32) | (b5 << 40) | (b6 << 48)
        | (b7 << 56)) >> 56) & 0xff) == b7) by (bit_vector)
        requires
            b0 < 256,
            b1 < 256,
            b2 < 256,
            b3 < 256,
            b4 < 256,
            b5 < 256,
            b6 < 256,
            b7 < 256,
    ;
}

proof fn lemma_u32_le_injective(a: u32, b: u32)
    requires
        u32_le(a) == u32_le(b),
    ensures
        a == b,
{
    assert(u32_le(a)[0] == u32_le(b)[0]);
    assert(u32_le(a)[1] == u32_le(b)[1]);
    assert(u32_le(a)[2] == u32_le(b)[2]);
    assert(u32_le(a)[3] == u32_le(b)[3]);
    assert(a == b) by (bit_vector)
        requires
            (a & 0xff) as u8 == (b & 0xff) as u8,
            ((a >> 8) & 0xff) as u8 == ((b >> 8) & 0xff) as u8,
            ((a >> 16) & 0xff) as u8 == ((b >> 16) & 0xff) as u8,
            ((a >> 24) & 0xff) as u8 == ((b >> 24) & 0xff) as u8,
    ;
}

proof fn lemma_u64_le_injective(a: u64, b: u64)
    requires
        u64_le(a) == u64_le(b),
    ensures
        a == b,
{
    assert(u64_le(a)[0] == u64_le(b)[0]);
    assert(u64_le(a)[1] == u64_le(b)[1]);
    assert(u64_le(a)[2] == u64_le(b)[2]);
    assert(u64_le(a)[3] == u64_le(b)[3]);
    assert(u64_le(a)[4] == u64_le(b)[4]);
    assert(u64_le(a)[5] == u64_le(b)[5]);
    assert(u64_le(a)[6] == u64_le(b)[6]);
    assert(u64_le(a)[7] == u64_le(b)[7]);
    assert(a == b) by (bit_vector)
        requires
            (a & 0xff) as u8 == (b & 0xff) as u8,
            ((a >> 8) & 0xff) as u8 == ((b >> 8) & 0xff) as u8,
            ((a >> 16) & 0xff) as u8 == ((b >> 16) & 0xff) as u8,
            ((a >> 24) & 0xff) as u8 == ((b >> 24) & 0xff) as u8,
            ((a >> 32) & 0xff) as u8 == ((b >> 32) & 0xff) as u8,
            ((a >> 40) & 0xff) as u8 == ((b >> 40) & 0xff) as u8,
            ((a >> 48) & 0xff) as u8 == ((b >> 48) & 0xff) as u8,
            ((a >> 56) & 0xff) as u8 == ((b >> 56) & 0xff) as u8,
    ;
}

fn read_u8(b: &Vec<u8>, pos: &mut usize) -> (r: Option<u8>)
    ensures
        match r {
            Some(v) => *old(pos) < b@.len() && *final(pos) == *old(pos) + 1 && b@[*old(pos) as int]
                == v && *final(pos) <= b@.len(),
            None => *final(pos) == *old(pos),
        },
        *old(pos) < b@.len() ==> r is Some,
{
    if *pos < b.len() {
        let v = b[*pos];
        *pos = *pos + 1;
        Some(v)
    } else {
        None
    }
}

fn read_u32(b: &Vec<u8>, pos: &mut usize) -> (r: Option<u32>)
    ensures
        match r {
            Some(v) => *final(pos) == *old(pos) + 4 && *final(pos) <= b@.len() && b@.subrange(
                *old(pos) as int,
                *final(pos) as int,
            ) == u32_le(v),
            None => *final(pos) == *old(pos),
        },
        *old(pos) + 4 <= b@.len() ==> r is Some,
        forall|w: u32| #![trigger u32_le(w)]
            *old(pos) + 4 <= b@.len() && b@.subrange(*old(pos) as int, *old(pos) + 4) == u32_le(w)
                ==> r == Some(w),
{
    if b.len() < 4 || *pos > b.len() - 4 {
        return None;
    }
    let p = *pos;
    let b0 = b[p];
    let b1 = b[p + 1];
    let b2 = b[p + 2];
    let b3 = b[p + 3];
    let v: u32 = (b0 as u32) | ((b1 as u32) << 8) | ((b2 as u32) << 16) | ((b3 as u32) << 24);
    *pos = p + 4;
    proof {
        lemma_u32_bytes(b0 as u32, b1 as u32, b2 as u32, b3 as u32);
        assert(u32_le(v) =~= b@.subrange(p as int, p + 4));
        assert forall|w: u32| b@.subrange(p as int, p + 4) == u32_le(w) implies w == v by {
            lemma_u32_le_injective(w, v);
        }
    }
    Some(v)
}

fn read_u64(b: &Vec<u8>, pos: &mut usize) -> (r: Option<u64>)
    ensures
        match r {
            Some(v) => *final(pos) == *old(pos) + 8 && *final(pos) <= b@.len() && b@.subrange(
                *old(pos) as int,
                *final(pos) as int,
            ) == u64_le(v),
            None => *final(pos) == *old(pos),
        },
        *old(pos) + 8 <= b@.len() ==> r is Some,
        forall|w: u64| #![trigger u64_le(w)]
            *old(pos) + 8 <= b@.len() && b@.subrange(*old(pos) as int, *old(pos) + 8) == u64_le(w)
                ==> r == Some(w),
{
    if b.len() < 8 || *pos > b.len() - 8 {
        return None;
    }
    let p = *pos;
    let b0 = b[p];
    let b1 = b[p + 1];
    let b2 = b[p + 2];
    let b3 = b[p + 3];
    let b4 = b[p + 4];
    let b5 = b[p + 5];
    let b6 = b[p + 6];
    let b7 = b[p + 7];
    let v: u64 = (b0 as u64) | ((b1 as u64) << 8) | ((b2 as u64) << 16) | ((b3 as u64) << 24) | ((
    b4 as u64) << 32) | ((b5 as u64) << 40) | ((b6 as u64) << 48) | ((b7 as u64) << 56);
    *pos = p + 8;
    proof {
        lemma_u64_bytes(
            b0 as u64,
            b1 as u64,
            b2 as u64,
            b3 as u64,
            b4 as u64,
            b5 as u64,
            b6 as u64,
            b7 as u64,
        );
        assert(u64_le(v) =~= b@.subrange(p as int, p + 8));
        assert forall|w: u64| b@.subrange(p as int, p + 8) == u64_le(w) implies w == v by {
            lemma_u64_le_injective(w, v);
        }
    }
    Some(v)
}

fn read_length(b: &Vec<u8>, pos: &mut usize) -> (r: Option<usize>)
    ensures
        match r {
            Some(v) => *final(pos) == *old(pos) + 8 && *final(pos) <= b@.len() && b@.subrange(
                *old(pos) as int,
                *final(pos) as int,
            ) == u64_le(v as u64),
            None => true,
        },
        forall|w: usize| #![trigger u64_le(w as u64)]
            *old(pos) + 8 <= b@.len() && b@.subrange(*old(pos) as int, *old(pos) + 8) == u64_le(
                w as u64,
            ) ==> r == Some(w),
{
    let v = match read_u64(b, pos) {
        Some(v) => v,
        None => {
            return None;
        },
    };
    if v > usize::MAX as u64 {
        return None;
    }
    Some(v as usize)
}

fn read_target(b: &Vec<u8>, pos: &mut usize) -> (r: Option<Target>)
    ensures
        match r {
            Some(t) => *final(pos) == *old(pos) + 16 && *final(pos) <= b@.len() && b@.subrange(
                *old(pos) as int,
                *final(pos) as int,
            ) == enc_target(t),
            None => true,
        },
        forall|t: Target| #![trigger enc_target(t)]
            *old(pos) + 16 <= b@.len() && b@.subrange(*old(pos) as int, *old(pos) + 16)
                == enc_target(t) ==> r == Some(t),
{
    let ghost p0 = *pos;
    let pi = match read_length(b, pos) {
        Some(v) => v,
        None => {
            proof {
                assert forall|t: Target|
                    p0 + 16 <= b@.len() && b@.subrange(p0 as int, p0 + 16) == enc_target(
                        t,
                    ) implies false by {
                    assert(b@.subrange(p0 as int, p0 + 8) =~= b@.subrange(p0 as int, p0
                        + 16).subrange(0, 8));
                    assert(enc_target(t).subrange(0, 8) =~= u64_le(t.party_index as u64));
                }
            }
            return None;
        },
    };
    let mi = match read_length(b, pos) {
        Some(v) => v,
        None => {
            proof {
                assert forall|t: Target|
                    p0 + 16 <= b@.len() && b@.subrange(p0 as int, p0 + 16) == enc_target(
                        t,
                    ) implies false by {
                    assert(b@.subrange(p0 + 8, p0 + 16) =~= b@.subrange(p0 as int, p0
                        + 16).subrange(8, 16));
                    assert(enc_target(t).subrange(8, 16) =~= u64_le(t.member_index as u64));
                }
            }
            return None;
        },
    };
    let t = Target { party_index: pi, member_index: mi };
    proof {
        assert(b@.subrange(p0 as int, *pos as int) =~= b@.subrange(p0 as int, p0 + 8) + b@.subrange(
            p0 + 8,
            p0 + 16,
        ));
        assert(b@.subrange(p0 as int, *pos as int) == enc_target(t));
        assert forall|tt: Target|
            p0 + 16 <= b@.len() && b@.subrange(p0 as int, p0 + 16) == enc_target(
                tt,
            ) implies tt == t by {
            assert(b@.subrange(p0 as int, p0 + 8) =~= b@.subrange(p0 as int, p0 + 16).subrange(
                0,
                8,
            ));
            assert(enc_target(tt).subrange(0, 8) =~= u64_le(tt.party_index as u64));
            assert(b@.subrange(p0 + 8, p0 + 16) =~= b@.subrange(p0 as int, p0 + 16).subrange(
                8,
                16,
            ));
            assert(enc_target(tt).subrange(8, 16) =~= u64_le(tt.member_index as u64));
            assert(pi == tt.party_index);
            assert(mi == tt.member_index);
        }
    }
    Some(t)
}

fn read_slot(b: &Vec<u8>, pos: &mut usize) -> (r: Option<Option<Combatant>>)
    ensures
        match r {
            Some(s) => *old(pos) <= *final(pos) <= b@.len() && b@.subrange(
                *old(pos) as int,
                *final(pos) as int,
            ) == enc_slot(s),
            None => true,
        },
{
    let ghost p0 = *pos;
    let tag = match read_u8(b, pos) {
        Some(v) => v,
        None => {
            return None;
        },
    };
    if tag == 0u8 {
        proof {
            assert(b@.subrange(p0 as int, *pos as int) =~= seq![0u8]);
        }
        Some(None)
    } else if tag == 1u8 {
        let hp = match read_u32(b, pos) {
            Some(v) => v,
            None => {
                return None;
            },
        };
        proof {
            assert(b@.subrange(p0 as int, *pos as int) =~= seq![1u8] + b@.subrange(
                p0 + 1,
                *pos as int,
            ));
        }
        Some(Some(Combatant { hp }))
    } else {
        None
    }
}

fn read_party(b: &Vec<u8>, pos: &mut usize) -> (r: Option<Party>)
    ensures
        match r {
            Some(p) => *old(pos) <= *final(pos) <= b@.len() && b@.subrange(
                *old(pos) as int,
                *final(pos) as int,
            ) == enc_party(p.members@),
            None => true,
        },
{
    let ghost p0 = *pos;
    let count = match read_length(b, pos) {
        Some(v) => v,
        None => {
            return None;
        },
    };
    let ghost pc = *pos;
    let mut members: Vec<Option<Combatant>> = Vec::new();
    let mut i: usize = 0;
    while i < count
        invariant
            i <= count,
            members@.len() == i,
            pc <= *pos <= b@.len(),
            b@.subrange(pc as int, *pos as int) == enc_members(members@),
        decreases count - i,
    {
        let ghost pprev = *pos;
        let ghost mprev = members@;
        let slot = match read_slot(b, pos) {
            Some(s) => s,
            None => {
                return None;
            },
        };
        members.push(slot);
        proof {
            assert(members@ == mprev.push(slot));
            assert(members@.drop_last() =~= mprev);
            assert(members@.last() == slot);
            assert(enc_members(members@) == enc_members(mprev) + enc_slot(slot));
            assert(b@.subrange(pc as int, *pos as int) =~= b@.subrange(pc as int, pprev as int)
                + b@.subrange(pprev as int, *pos as int));
        }
        i = i + 1;
    }
    let p = Party { members };
    proof {
        assert(p.members@.len() as u64 == count as u64);
        assert(b@.subrange(p0 as int, *pos as int) =~= b@.subrange(p0 as int, pc as int)
            + b@.subrange(pc as int, *pos as int));
        assert(b@.subrange(p0 as int, *pos as int) == enc_party(p.members@));
    }
    Some(p)
}

fn read_state(b: &Vec<u8>, pos: &mut usize) -> (r: Option<CombatState>)
    ensures
        match r {
            Some(s) => *old(pos) <= *final(pos) <= b@.len() && b@.subrange(
                *old(pos) as int,
                *final(pos) as int,
            ) == enc_state(s@),
            None => true,
        },
{
    let ghost p0 = *pos;
    let count = match read_length(b, pos) {
        Some(v) => v,
        None => {
            return None;
        },
    };
    let ghost pc = *pos;
    let mut parties: Vec<Party> = Vec::new();
    let mut i: usize = 0;
    while i < count
        invariant
            i <= count,
            parties@.len() == i,
            pc <= *pos <= b@.len(),
            b@.subrange(pc as int, *pos as int) == enc_parties(
                parties@.map_values(|p: Party| p.members@),
            ),
        decreases count - i,
    {
        let ghost pprev = *pos;
        let ghost vprev = parties@.map_values(|p: Party| p.members@);
        let party = match read_party(b, pos) {
            Some(p) => p,
            None => {
                return None;
            },
        };
        let ghost pm = party.members@;
        parties.push(party);
        proof {
            let view = parties@.map_values(|p: Party| p.members@);
            assert(view =~= vprev.push(pm));
            assert(view.drop_last() =~= vprev);
            assert(view.last() == pm);
            assert(enc_parties(view) == enc_parties(vprev) + enc_party(pm));
            assert(b@.subrange(pc as int, *pos as int) =~= b@.subrange(pc as int, pprev as int)
                + b@.subrange(pprev as int, *pos as int));
        }
        i = i + 1;
    }
    let s = CombatState { parties };
    proof {
        assert(s@ == parties@.map_values(|p: Party| p.members@));
        assert(s@.len() as u64 == count as u64);
        assert(b@.subrange(p0 as int, *pos as int) =~= b@.subrange(p0 as int, pc as int)
            + b@.subrange(pc as int, *pos as int));
        assert(b@.subrange(p0 as int, *pos as int) == enc_state(s@));
    }
    Some(s)
}

fn read_targets(b: &Vec<u8>, pos: &mut usize) -> (r: Option<Vec<Target>>)
    ensures
        match r {
            Some(ts) => *old(pos) <= *final(pos) <= b@.len() && b@.subrange(
                *old(pos) as int,
                *final(pos) as int,
            ) == u64_le(ts@.len() as u64) + enc_targets(ts@),
            None => true,
        },
{
    let ghost p0 = *pos;
    let count = match read_length(b, pos) {
        Some(v) => v,
        None => {
            return None;
        },
    };
    let ghost pc = *pos;
    let mut ts: Vec<Target> = Vec::new();
    let mut i: usize = 0;
    while i < count
        invariant
            i <= count,
            ts@.len() == i,
            pc <= *pos <= b@.len(),
            b@.subrange(pc as int, *pos as int) == enc_targets(ts@),
        decreases count - i,
    {
        let ghost pprev = *pos;
        let ghost tsprev = ts@;
        let t = match read_target(b, pos) {
            Some(t) => t,
            None => {
                return None;
            },
        };
        ts.push(t);
        proof {
            assert(ts@ == tsprev.push(t));
            assert(ts@.drop_last() =~= tsprev);
            assert(ts@.last() == t);
            assert(enc_targets(ts@) == enc_targets(tsprev) + enc_target(t));
            assert(b@.subrange(pc as int, *pos as int) =~= b@.subrange(pc as int, pprev as int)
                + b@.subrange(pprev as int, *pos as int));
        }
        i = i + 1;
    }
    proof {
        assert(ts@.len() as u64 == count as u64);
        assert(b@.subrange(p0 as int, *pos as int) =~= b@.subrange(p0 as int, pc as int)
            + b@.subrange(pc as int, *pos as int));
    }
    Some(ts)
}

fn read_event(b: &Vec<u8>, pos: &mut usize) -> (r: Option<CombatEvent>)
    ensures
        match r {
            Some(e) => *old(pos) <= *final(pos) <= b@.len() && b@.subrange(
                *old(pos) as int,
                *final(pos) as int,
            ) == enc_event(e@),
            None => true,
        },
{
    let ghost p0 = *pos;
    let actor = match read_target(b, pos) {
        Some(t) => t,
        None => {
            return None;
        },
    };
    let ghost pa = *pos;
    let count = match read_length(b, pos) {
        Some(v) => v,
        None => {
            return None;
        },
    };
    let ghost pc = *pos;
    let mut effects: Vec<Effect> = Vec::new();
    let mut i: usize = 0;
    while i < count
        invariant
            i <= count,
            effects@.len() == i,
            pc <= *pos <= b@.len(),
            b@.subrange(pc as int, *pos as int) == enc_effects(effects@),
        decreases count - i,
    {
        let ghost pprev = *pos;
        let t = match read_target(b, pos) {
            Some(t) => t,
            None => {
                return None;
            },
        };
        let amount = match read_u32(b, pos) {
            Some(v) => v,
            None => {
                return None;
            },
        };
        let ghost esprev = effects@;
        effects.push(Effect { target: t, amount });
        proof {
            let eff = Effect { target: t, amount };
            assert(effects@ == esprev.push(eff));
            assert(effects@.drop_last() =~= esprev);
            assert(effects@.last() == eff);
            assert(b@.subrange(pprev as int, *pos as int) =~= b@.subrange(
                pprev as int,
                pprev + 16,
            ) + b@.subrange(pprev + 16, *pos as int));
            assert(b@.subrange(pprev as int, *pos as int) == enc_effect(eff));
            assert(enc_effects(effects@) == enc_effects(esprev) + enc_effect(eff));
            assert(b@.subrange(pc as int, *pos as int) =~= b@.subrange(pc as int, pprev as int)
                + b@.subrange(pprev as int, *pos as int));
        }
        i = i + 1;
    }
    let e = CombatEvent { actor, effects };
    proof {
        assert(e.effects@.len() as u64 == count as u64);
        assert(b@.subrange(p0 as int, *pos as int) =~= b@.subrange(p0 as int, pa as int)
            + b@.subrange(pa as int, pc as int) + b@.subrange(pc as int, *pos as int));
        assert(b@.subrange(p0 as int, *pos as int) == enc_event(e@));
    }
    Some(e)
}

/// Decodes one datagram. Accepts exactly the output of `encode_envelope`:
/// whenever it answers a message, that message's encoding is the input,
/// whole, and every encoding of a fixed-size message kind (version, turn
/// grant, rejection, outcome) is guaranteed to be answered with its
/// message; a malformed or unknown datagram is answered with nothing.
#[verifier::rlimit(80)]
pub fn decode_envelope(b: &Vec<u8>) -> (r: Option<Envelope>)
    ensures
        r matches Some(e) ==> spec_encode(e@) == b@,
        forall|v: u32|
            b@ == seq![TAG_PROTOCOL_VERSION] + u32_le(v) ==> r == Some(
                Envelope::ProtocolVersion(v),
            ),
        forall|t: Target|
            b@ == seq![TAG_TAKE_TURN] + enc_target(t) ==> r == Some(Envelope::TakeTurn(t)),
        forall|k: ErrorKind, orig: u8|
            b@ == seq![TAG_REJECTION, error_byte(k), orig] ==> r == Some(
                Envelope::Rejection(k, orig),
            ),
        forall|o: Outcome|
            b@ == seq![TAG_CONCLUDED] + enc_outcome(o) ==> r == Some(Envelope::Concluded(o)),
{
    let mut pos: usize = 0;
    let tag = match read_u8(b, &mut pos) {
        Some(v) => v,
        None => {
            return None;
        },
    };
    if tag == TAG_PROTOCOL_VERSION {
        let v = match read_u32(b, &mut pos) {
            Some(v) => v,
            None => {
                return None;
            },
        };
        if pos != b.len() {
            return None;
        }
        let env = Envelope::ProtocolVersion(v);
        proof {
            assert(spec_encode(env@) =~= seq![tag] + b@.subrange(1, pos as int));
            assert(seq![tag] + b@.subrange(1, pos as int) =~= b@);
            assert forall|w: u32|
                b@ == seq![TAG_PROTOCOL_VERSION] + u32_le(w) implies env == Envelope::ProtocolVersion(
                w,
            ) by {
                assert(b@.subrange(1, 5) =~= u32_le(w));
                lemma_u32_le_injective(v, w);
            }
        }
        Some(env)
    } else if tag == TAG_GAME_STATE {
        let s = match read_state(b, &mut pos) {
            Some(s) => s,
            None => {
                return None;
            },
        };
        let ghost ps = pos;
        let own = match read_targets(b, &mut pos) {
            Some(ts) => ts,
            None => {
                return None;
            },
        };
        if pos != b.len() {
            return None;
        }
        let env = Envelope::GameState(s, own);
        proof {
            assert(spec_encode(env@) =~= seq![tag] + b@.subrange(1, ps as int) + b@.subrange(
                ps as int,
                pos as int,
            ));
            assert(seq![tag] + b@.subrange(1, ps as int) + b@.subrange(ps as int, pos as int)
                =~= b@);
        }
        Some(env)
    } else if tag == TAG_COMBAT_EVENT {
        let e = match read_event(b, &mut pos) {
            Some(e) => e,
            None => {
                return None;
            },
        };
        if pos != b.len() {
            return None;
        }
        let env = Envelope::CombatEvent(e);
        proof {
            assert(spec_encode(env@) =~= seq![tag] + b@.subrange(1, pos as int));
            assert(seq![tag] + b@.subrange(1, pos as int) =~= b@);
        }
        Some(env)
    } else if tag == TAG_TAKE_TURN {
        let t = match read_target(b, &mut pos) {
            Some(t) => t,
            None => {
                proof {
                    assert forall|w: Target|
                        b@ == seq![TAG_TAKE_TURN] + enc_target(w) implies false by {
                        assert(b@.subrange(1, 17) =~= enc_target(w));
                    }
                }
                return None;
            },
        };
        if pos != b.len() {
            return None;
        }
        let env = Envelope::TakeTurn(t);
        proof {
            assert(spec_encode(env@) =~= seq![tag] + b@.subrange(1, pos as int));
            assert(seq![tag] + b@.subrange(1, pos as int) =~= b@);
            assert forall|w: Target|
                b@ == seq![TAG_TAKE_TURN] + enc_target(w) implies env == Envelope::TakeTurn(w) by {
                assert(b@.subrange(1, 17) =~= enc_target(w));
            }
        }
        Some(env)
    } else if tag == TAG_REJECTION {
        let kb = match read_u8(b, &mut pos) {
            Some(v) => v,
            None => {
                return None;
            },
        };
        let k: ErrorKind;
        if kb == 0u8 {
            k = ErrorKind::NotAMember;
        } else if kb == 1u8 {
            k = ErrorKind::NotYourTurn;
        } else if kb == 2u8 {
            k = ErrorKind::NotOwned;
        } else if kb == 3u8 {
            k = ErrorKind::MalformedEvent;
        } else if kb == 4u8 {
            k = ErrorKind::IncompatibleProtocol;
        } else {
            proof {
                assert forall|kk: ErrorKind, orig2: u8|
                    b@ == seq![TAG_REJECTION, error_byte(kk), orig2] implies false by {
                    assert(b@[1] == error_byte(kk));
                    assert(error_byte(kk) <= 4);
                }
            }
            return None;
        }
        let orig = match read_u8(b, &mut pos) {
            Some(v) => v,
            None => {
                return None;
            },
        };
        if pos != b.len() {
            return None;
        }
        let env = Envelope::Rejection(k, orig);
        proof {
            assert(error_byte(k) == kb);
            assert(spec_encode(env@) =~= b@);
            assert forall|kk: ErrorKind, orig2: u8|
                b@ == seq![TAG_REJECTION, error_byte(kk), orig2] implies env == Envelope::Rejection(
                kk,
                orig2,
            ) by {
                assert(b@[1] == error_byte(kk));
                assert(b@[2] == orig2);
                assert(error_byte(kk) == error_byte(k));
                assert(kk == k);
            }
        }
        Some(env)
    } else if tag == TAG_CONCLUDED {
        let ob = match read_u8(b, &mut pos) {
            Some(v) => v,
            None => {
                return None;
            },
        };
        if ob == 0u8 {
            if pos != b.len() {
                proof {
                    assert forall|oo: Outcome|
                        b@ == seq![TAG_CONCLUDED] + enc_outcome(oo) implies false by {
                        assert(b@[1] == enc_outcome(oo)[0]);
                        match oo {
                            Outcome::Ongoing => {
                                assert(b@.len() == 2);
                            },
                            Outcome::Won(s) => {
                                assert(enc_outcome(oo)[0] == 1u8);
                            },
                            Outcome::Abandoned => {
                                assert(enc_outcome(oo)[0] == 2u8);
                            },
                        }
                    }
                }
                return None;
            }
            let env = Envelope::Concluded(Outcome::Ongoing);
            proof {
                assert(spec_encode(env@) =~= b@);
                assert forall|oo: Outcome|
                    b@ == seq![TAG_CONCLUDED] + enc_outcome(oo) implies env == Envelope::Concluded(
                    oo,
                ) by {
                    assert(b@[1] == enc_outcome(oo)[0]);
                    match oo {
                        Outcome::Ongoing => {},
                        Outcome::Won(s) => {
                            assert(enc_outcome(oo)[0] == 1u8);
                        },
                        Outcome::Abandoned => {
                            assert(enc_outcome(oo)[0] == 2u8);
                        },
                    }
                }
            }
            Some(env)
        } else if ob == 1u8 {
            let side = match read_length(b, &mut pos) {
                Some(v) => v,
                None => {
                    proof {
                        assert forall|oo: Outcome|
                            b@ == seq![TAG_CONCLUDED] + enc_outcome(oo) implies false by {
                            assert(b@[1] == enc_outcome(oo)[0]);
                            match oo {
                                Outcome::Ongoing => {
                                    assert(enc_outcome(oo)[0] == 0u8);
                                },
                                Outcome::Won(s) => {
                                    assert(b@.subrange(2, 10) =~= u64_le(s as u64));
                                    assert(b@.len() == 10);
                                },
                                Outcome::Abandoned => {
                                    assert(enc_outcome(oo)[0] == 2u8);
                                },
                            }
                        }
                    }
                    return None;
                },
            };
            if pos != b.len() {
                proof {
                    assert forall|oo: Outcome|
                        b@ == seq![TAG_CONCLUDED] + enc_outcome(oo) implies false by {
                        assert(b@[1] == enc_outcome(oo)[0]);
                        match oo {
                            Outcome::Ongoing => {
                                assert(enc_outcome(oo)[0] == 0u8);
                            },
                            Outcome::Won(s) => {
                                assert(b@.len() == 10);
                            },
                            Outcome::Abandoned => {
                                assert(enc_outcome(oo)[0] == 2u8);
                            },
                        }
                    }
                }
                return None;
            }
            let env = Envelope::Concluded(Outcome::Won(side));
            proof {
                assert(spec_encode(env@) =~= seq![tag, 1u8] + b@.subrange(2, pos as int));
                assert(seq![tag, 1u8] + b@.subrange(2, pos as int) =~= b@);
                assert forall|oo: Outcome|
                    b@ == seq![TAG_CONCLUDED] + enc_outcome(oo) implies env == Envelope::Concluded(
                    oo,
                ) by {
                    assert(b@[1] == enc_outcome(oo)[0]);
                    match oo {
                        Outcome::Ongoing => {
                            assert(enc_outcome(oo)[0] == 0u8);
                        },
                        Outcome::Won(s) => {
                            assert(b@.subrange(2, 10) =~= u64_le(s as u64));
                        },
                        Outcome::Abandoned => {
                            assert(enc_outcome(oo)[0] == 2u8);
                        },
                    }
                }
            }
            Some(env)
        } else if ob == 2u8 {
            if pos != b.len() {
                proof {
                    assert forall|oo: Outcome|
                        b@ == seq![TAG_CONCLUDED] + enc_outcome(oo) implies false by {
                        assert(b@[1] == enc_outcome(oo)[0]);
                        match oo {
                            Outcome::Ongoing => {
                                assert(enc_outcome(oo)[0] == 0u8);
                            },
                            Outcome::Won(s) => {
                                assert(enc_outcome(oo)[0] == 1u8);
                            },
                            Outcome::Abandoned => {
                                assert(b@.len() == 2);
                            },
                        }
                    }
                }
                return None;
            }
            let env = Envelope::Concluded(Outcome::Abandoned);
            proof {
                assert(spec_encode(env@) =~= b@);
                assert forall|oo: Outcome|
                    b@ == seq![TAG_CONCLUDED] + enc_outcome(oo) implies env == Envelope::Concluded(
                    oo,
                ) by {
                    assert(b@[1] == enc_outcome(oo)[0]);
                    match oo {
                        Outcome::Ongoing => {
                            assert(enc_outcome(oo)[0] == 0u8);
                        },
                        Outcome::Won(s) => {
                            assert(enc_outcome(oo)[0] == 1u8);
                        },
                        Outcome::Abandoned => {},
                    }
                }
            }
            Some(env)
        } else {
            proof {
                assert forall|oo: Outcome|
                    b@ == seq![TAG_CONCLUDED] + enc_outcome(oo) implies false by {
                    assert(b@[1] == enc_outcome(oo)[0]);
                    match oo {
                        Outcome::Ongoing => {
                            assert(enc_outcome(oo)[0] == 0u8);
                        },
                        Outcome::Won(s) => {
                            assert(enc_outcome(oo)[0] == 1u8);
                        },
                        Outcome::Abandoned => {
                            assert(enc_outcome(oo)[0] == 2u8);
                        },
                    }
                }
            }
            None
        }
    } else {
        None
    }
}

} // verus!
