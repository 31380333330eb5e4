use vstd::prelude::*;

verus! {

/// A network peer, identified by an opaque numeric address handle. The
/// process edge that owns the sockets assigns one handle per peer address.
pub type Address = u64;

/// A reference to one combatant slot inside a combat state: the index of the
/// party and the index of the member slot within that party. It never owns
/// data; it is only used for lookup, and it is stale unless it is in bounds
/// of the state it is resolved against.
#[derive(Clone, Copy, PartialEq, Eq, Structural, Debug, Hash)]
pub struct Target {
    pub party_index: usize,
    pub member_index: usize,
}

/// One battle participant's snapshot. The balance model (equipment, skills,
/// modifiers) is a collaborator concern; the session core tracks only the
/// health that decides whether the slot is still standing.
#[derive(Clone, Copy, PartialEq, Eq, Structural, Debug)]
pub struct Combatant {
    pub hp: u32,
}

/// An ordered sequence of optional combatant slots; an empty slot is a
/// fallen or not-yet-fielded member.
#[derive(Clone, Debug, PartialEq, Eq)]
pub struct Party {
    pub members: Vec<Option<Combatant>>,
}

/// The authoritative, mutable state of one match: an ordered sequence of
/// parties. Exactly one value exists per match and the match owns it; it is
/// mutated only through the validated-event path of the match engine.
#[derive(Clone, Debug, PartialEq, Eq)]
pub struct CombatState {
    pub parties: Vec<Party>,
}

/// One consequence of a combat event: the affected slot and the amount of
/// damage dealt to it.
#[derive(Clone, Copy, PartialEq, Eq, Structural, Debug)]
pub struct Effect {
    pub target: Target,
    pub amount: u32,
}

/// A proposed or confirmed state mutation: an acting slot and zero or more
/// affected slots. Transient; it is applied and forwarded, never stored.
#[derive(Clone, Debug, PartialEq, Eq)]
pub struct CombatEvent {
    pub actor: Target,
    pub effects: Vec<Effect>,
}

/// Binds a peer address to the set of targets that address is authorized to
/// act on. A participant may own zero, one, or many slots.
#[derive(Clone, Debug, PartialEq, Eq)]
pub struct Participant {
    pub address: Address,
    pub ownership: Vec<Target>,
}

/// The terminal report of the outcome check: the fight goes on, one side has
/// won, or nobody is left standing / the match was given up.
#[derive(Clone, Copy, PartialEq, Eq, Structural, Debug)]
pub enum Outcome {
    Ongoing,
    Won(usize),
    Abandoned,
}

/// The turn-protocol state of one match. `AwaitingTurn` names the single
/// slot whose owning participant is authorized to submit the next event;
/// `Concluded` is terminal. (Forming and resolving are transient within one
/// control-loop step and never persist between steps.)
#[derive(Clone, Copy, PartialEq, Eq, Structural, Debug)]
pub enum Phase {
    AwaitingTurn(Target),
    Concluded(Outcome),
}

/// The aggregate root: one combat state, the participants, the spectators,
/// and the turn cursor.
#[derive(Clone, Debug)]
pub struct Match {
    pub participants: Vec<Participant>,
    pub spectators: Vec<Address>,
    pub combat_state: CombatState,
    pub phase: Phase,
}

/// The error kinds a peer can be answered with, and the version-gate
/// refusal. Validation failures go back to the offending sender only.
#[derive(Clone, Copy, PartialEq, Eq, Structural, Debug)]
pub enum ErrorKind {
    NotAMember,
    NotYourTurn,
    NotOwned,
    MalformedEvent,
    IncompatibleProtocol,
}

/// Per-message delivery guarantee selected on send.
#[derive(Clone, Copy, PartialEq, Eq, Structural, Debug)]
pub enum Reliability {
    Unordered,
    Ordered,
    Reliable,
    ReliableOrdered,
}

/// The wire-level message kinds. `Rejection` carries the error kind and the
/// kind tag of the offending message.
#[derive(Clone, Debug, PartialEq, Eq)]
pub enum Envelope {
    ProtocolVersion(u32),
    GameState(CombatState, Vec<Target>),
    CombatEvent(CombatEvent),
    TakeTurn(Target),
    Rejection(ErrorKind, u8),
    Concluded(Outcome),
}

/// One datagram to hand to the transport: recipient, message, and the
/// delivery guarantee it must be sent with.
#[derive(Clone, Debug, PartialEq, Eq)]
pub struct Outbound {
    pub to: Address,
    pub envelope: Envelope,
    pub mode: Reliability,
}

/// What the transport surfaces to the control loop: a connection, a raw
/// datagram, or the loss of a peer.
#[derive(Clone, Debug, PartialEq, Eq)]
pub enum InboundEvent {
    Connected(Address),
    Packet(Address, Vec<u8>),
    Timeout(Address),
    Disconnected(Address),
}

/// Mathematical model of a party: its slot sequence.
pub type PartyV = Seq<Option<Combatant>>;

/// Mathematical model of a combat state: slots by party index, member index.
pub type StateV = Seq<Seq<Option<Combatant>>>;

/// Mathematical model of a combat event.
#[verifier::ext_equal]
pub struct EventV {
    pub actor: Target,
    pub effects: Seq<Effect>,
}

/// Mathematical model of a participant.
#[verifier::ext_equal]
pub struct ParticipantV {
    pub address: Address,
    pub ownership: Seq<Target>,
}

/// Mathematical model of a wire message.
#[verifier::ext_equal]
pub enum EnvelopeV {
    ProtocolVersion(u32),
    GameState(StateV, Seq<Target>),
    CombatEvent(EventV),
    TakeTurn(Target),
    Rejection(ErrorKind, u8),
    Concluded(Outcome),
}

/// Mathematical model of an outbound datagram.
#[verifier::ext_equal]
pub struct OutboundV {
    pub to: Address,
    pub envelope: EnvelopeV,
    pub mode: Reliability,
}

impl View for Party {
    type V = PartyV;

    open spec fn view(&self) -> PartyV {
        self.members@
    }
}

impl View for CombatState {
    type V = StateV;

    open spec fn view(&self) -> StateV {
        self.parties@.map_values(|p: Party| p.members@)
    }
}

impl View for CombatEvent {
    type V = EventV;

    open spec fn view(&self) -> EventV {
        EventV { actor: self.actor, effects: self.effects@ }
    }
}

impl View for Participant {
    type V = ParticipantV;

    open spec fn view(&self) -> ParticipantV {
        ParticipantV { address: self.address, ownership: self.ownership@ }
    }
}

impl View for Envelope {
    type V = EnvelopeV;

    open spec fn view(&self) -> EnvelopeV {
        match self {
            Envelope::ProtocolVersion(v) => EnvelopeV::ProtocolVersion(*v),
            Envelope::GameState(s, own) => EnvelopeV::GameState(s@, own@),
            Envelope::CombatEvent(e) => EnvelopeV::CombatEvent(e@),
            Envelope::TakeTurn(t) => EnvelopeV::TakeTurn(*t),
            Envelope::Rejection(k, orig) => EnvelopeV::Rejection(*k, *orig),
            Envelope::Concluded(o) => EnvelopeV::Concluded(*o),
        }
    }
}

impl View for Outbound {
    type V = OutboundV;

    open spec fn view(&self) -> OutboundV {
        OutboundV { to: self.to, envelope: self.envelope@, mode: self.mode }
    }
}

/// The models of a sequence of outbound datagrams.
pub open spec fn outbounds_view(v: Seq<Outbound>) -> Seq<OutboundV> {
    v.map_values(|o: Outbound| o@)
}

/// Messages that define authoritative state must travel reliable-ordered so
/// no observer sees a later state-defining message before an earlier one.
pub open spec fn state_carrying(e: EnvelopeV) -> bool {
    match e {
        EnvelopeV::GameState(_, _) => true,
        EnvelopeV::CombatEvent(_) => true,
        EnvelopeV::TakeTurn(_) => true,
        EnvelopeV::Concluded(_) => true,
        EnvelopeV::ProtocolVersion(_) => false,
        EnvelopeV::Rejection(_, _) => false,
    }
}

pub open spec fn target_in_bounds(s: CombatState, t: Target) -> bool {
    &&& t.party_index < s.parties@.len()
    &&& t.member_index < s.parties@[t.party_index as int].members@.len()
}

pub open spec fn slot_at(s: CombatState, t: Target) -> Option<Combatant> {
    s.parties@[t.party_index as int].members@[t.member_index as int]
}

pub open spec fn slot_occupied(s: CombatState, t: Target) -> bool {
    target_in_bounds(s, t) && slot_at(s, t) is Some
}

/// Structural well-formedness of an event against a state: the actor and
/// every affected slot resolve to an occupied slot.
pub open spec fn event_wf(s: CombatState, e: CombatEvent) -> bool {
    &&& slot_occupied(s, e.actor)
    &&& forall|i: int|
        0 <= i < e.effects@.len() ==> slot_occupied(s, (#[trigger] e.effects@[i]).target)
}

pub open spec fn owns(p: Participant, t: Target) -> bool {
    p.ownership@.contains(t)
}

impl Match {
    /// Addresses of everyone observing this match, participants first, then
    /// spectators, each in join order.
    pub open spec fn member_addrs(self) -> Seq<Address> {
        self.participants@.map_values(|p: Participant| p.address) + self.spectators@
    }

    pub open spec fn is_participant(self, a: Address) -> bool {
        exists|i: int|
            0 <= i < self.participants@.len() && (#[trigger] self.participants@[i]).address == a
    }

    /// Index of the participant bound to `a`; well defined whenever
    /// `is_participant(a)` holds and addresses are distinct.
    pub open spec fn participant_index(self, a: Address) -> int {
        choose|i: int|
            0 <= i < self.participants@.len() && (#[trigger] self.participants@[i]).address == a
    }

    pub open spec fn addrs_distinct(self) -> bool {
        forall|i: int, j: int|
            0 <= i < j < self.participants@.len() ==> (#[trigger] self.participants@[i]).address
                != (#[trigger] self.participants@[j]).address
    }

    pub open spec fn ownership_in_bounds(self) -> bool {
        forall|i: int, k: int|
            0 <= i < self.participants@.len() && 0 <= k
                < (#[trigger] self.participants@[i]).ownership@.len() ==> target_in_bounds(
                self.combat_state,
                #[trigger] self.participants@[i].ownership@[k],
            )
    }

    /// No slot is owned by two participants.
    pub open spec fn ownership_disjoint(self) -> bool {
        forall|i: int, j: int, t: Target|
            0 <= i < self.participants@.len() && 0 <= j < self.participants@.len() && #[trigger] owns(
                self.participants@[i],
                t,
            ) && #[trigger] owns(self.participants@[j], t) ==> i == j
    }

    pub open spec fn phase_wf(self) -> bool {
        match self.phase {
            Phase::AwaitingTurn(t) => target_in_bounds(self.combat_state, t),
            Phase::Concluded(o) => o != Outcome::Ongoing,
        }
    }

    pub open spec fn wf(self) -> bool {
        &&& self.addrs_distinct()
        &&& self.ownership_in_bounds()
        &&& self.ownership_disjoint()
        &&& self.phase_wf()
    }
}

/// Element-for-element copy of a target list.
pub fn copy_targets(v: &Vec<Target>) -> (r: Vec<Target>)
    ensures
        r@ == v@,
{
    let mut r: Vec<Target> = Vec::new();
    let n = v.len();
    let mut i: usize = 0;
    while i < n
        invariant
            i <= n,
            n == v@.len(),
            r@ == v@.take(i as int),
        decreases n - i,
    {
        r.push(v[i]);
        proof {
            assert(v@.take(i + 1) =~= v@.take(i as int).push(v@[i as int]));
        }
        i = i + 1;
    }
    proof {
        assert(v@.take(n as int) =~= v@);
    }
    r
}

/// Element-for-element copy of an effect list.
pub fn copy_effects(v: &Vec<Effect>) -> (r: Vec<Effect>)
    ensures
        r@ == v@,
{
    let mut r: Vec<Effect> = Vec::new();
    let n = v.len();
    let mut i: usize = 0;
    while i < n
        invariant
            i <= n,
            n == v@.len(),
            r@ == v@.take(i as int),
        decreases n - i,
    {
        r.push(v[i]);
        proof {
            assert(v@.take(i + 1) =~= v@.take(i as int).push(v@[i as int]));
        }
        i = i + 1;
    }
    proof {
        assert(v@.take(n as int) =~= v@);
    }
    r
}

impl CombatState {
    /// Structural copy, e.g. for the full-state snapshot sent to each
    /// participant of a freshly formed match.
    pub fn duplicate(&self) -> (r: CombatState)
        ensures
            r@ == self@,
    {
        let mut parties: Vec<Party> = Vec::new();
        let n = self.parties.len();
        let mut i: usize = 0;
        while i < n
            invariant
                i <= n,
                n == self.parties@.len(),
                parties@.len() == i,
                forall|k: int|
                    0 <= k < i ==> (#[trigger] parties@[k]).members@ == self.parties@[k].members@,
            decreases n - i,
        {
            let src = &self.parties[i];
            let mut members: Vec<Option<Combatant>> = Vec::new();
            let mn = src.members.len();
            let mut j: usize = 0;
            while j < mn
                invariant
                    j <= mn,
                    mn == src.members@.len(),
                    members@ == src.members@.take(j as int),
                decreases mn - j,
            {
                members.push(src.members[j]);
                proof {
                    assert(src.members@.take(j + 1) =~= src.members@.take(j as int).push(
                        src.members@[j as int],
                    ));
                }
                j = j + 1;
            }
            proof {
                assert(src.members@.take(mn as int) =~= src.members@);
            }
            parties.push(Party { members });
            i = i + 1;
        }
        let r = CombatState { parties };
        proof {
            assert(r@ =~= self@);
        }
        r
    }
}

impl CombatEvent {
    /// Structural copy, e.g. for forwarding one confirmed event to each
    /// observer of a match.
    pub fn duplicate(&self) -> (r: CombatEvent)
        ensures
            r@ == self@,
    {
        CombatEvent { actor: self.actor, effects: copy_effects(&self.effects) }
    }
}

impl Envelope {
    /// Structural copy, so each recipient of a broadcast gets its own
    /// datagram with the same model.
    pub fn duplicate(&self) -> (r: Envelope)
        ensures
            r@ == self@,
    {
        match self {
            Envelope::ProtocolVersion(v) => Envelope::ProtocolVersion(*v),
            Envelope::GameState(s, own) => Envelope::GameState(s.duplicate(), copy_targets(own)),
            Envelope::CombatEvent(e) => Envelope::CombatEvent(e.duplicate()),
            Envelope::TakeTurn(t) => Envelope::TakeTurn(*t),
            Envelope::Rejection(k, orig) => Envelope::Rejection(*k, *orig),
            Envelope::Concluded(o) => Envelope::Concluded(*o),
        }
    }
}

/// At most one slot is named by the current turn cursor (it is a single
/// value), and its owner is unique: in a well-formed match no two distinct
/// participants own the awaited slot, so only the one owning participant can
/// pass the ownership check for it.
pub proof fn lemma_awaited_owner_unique(m: Match, t: Target, i: int, j: int)
    requires
        m.wf(),
        m.phase == Phase::AwaitingTurn(t),
        0 <= i < m.participants@.len(),
        0 <= j < m.participants@.len(),
        owns(m.participants@[i], t),
        owns(m.participants@[j], t),
    ensures
        i == j,
{
}

} // verus!
