use vstd::prelude::*;

use std::collections::HashMap;

use crate::model::Address;

verus! {

/// Where a known peer stands in the intake pipeline. An address absent from
/// the registry is unknown.
#[derive(Clone, Copy, PartialEq, Eq, Structural, Debug)]
pub enum PeerStatus {
    /// Challenged with the protocol version, answer pending.
    AwaitingHandshake,
    /// Handshake complete; waiting in the matchmaking pool.
    Pooled,
    /// Bound to the match with this identifier.
    InMatch(usize),
    /// Answered with an incompatible version; never to be admitted.
    Rejected,
}

/// The answer to a status query, `Unknown` standing for an address the
/// registry has never seen.
#[derive(Clone, Copy, PartialEq, Eq, Structural, Debug)]
pub enum ConnectionStatus {
    Unknown,
    AwaitingHandshake,
    Pooled,
    InMatch(usize),
    Rejected,
}

/// What a status query answers over the registry's model.
pub open spec fn spec_status(m: Map<Address, PeerStatus>, a: Address) -> ConnectionStatus {
    if !m.contains_key(a) {
        ConnectionStatus::Unknown
    } else {
        match m[a] {
            PeerStatus::AwaitingHandshake => ConnectionStatus::AwaitingHandshake,
            PeerStatus::Pooled => ConnectionStatus::Pooled,
            PeerStatus::InMatch(mid) => ConnectionStatus::InMatch(mid),
            PeerStatus::Rejected => ConnectionStatus::Rejected,
        }
    }
}

/// The single source of truth for what each peer address currently is:
/// unknown, mid-handshake, pooled, bound to a match, or refused.
pub struct Registry {
    table: HashMap<Address, PeerStatus>,
}

impl View for Registry {
    type V = Map<Address, PeerStatus>;

    closed spec fn view(&self) -> Map<Address, PeerStatus> {
        self.table@
    }
}

impl Registry {
    pub fn new() -> (r: Registry)
        ensures
            r@ == Map::<Address, PeerStatus>::empty(),
    {
        Registry { table: HashMap::new() }
    }

    pub fn status(&self, a: Address) -> (r: ConnectionStatus)
        ensures
            r == spec_status(self@, a),
    {
        match self.table.get(&a) {
            Some(st) => match *st {
                PeerStatus::AwaitingHandshake => ConnectionStatus::AwaitingHandshake,
                PeerStatus::Pooled => ConnectionStatus::Pooled,
                PeerStatus::InMatch(mid) => ConnectionStatus::InMatch(mid),
                PeerStatus::Rejected => ConnectionStatus::Rejected,
            },
            None => ConnectionStatus::Unknown,
        }
    }

    /// First contact: an unknown address enters as awaiting the handshake;
    /// a known address is left as it is. Returns what the address was
    /// before the call.
    pub fn register(&mut self, a: Address) -> (r: ConnectionStatus)
        ensures
            r == spec_status(old(self)@, a),
            final(self)@ == (if old(self)@.contains_key(a) {
                old(self)@
            } else {
                old(self)@.insert(a, PeerStatus::AwaitingHandshake)
            }),
    {
        let prior = self.status(a);
        if let ConnectionStatus::Unknown = prior {
            self.table.insert(a, PeerStatus::AwaitingHandshake);
        }
        prior
    }

    /// The challenged address answered with a compatible version: it may
    /// now wait in the matchmaking pool.
    pub fn complete_handshake(&mut self, a: Address)
        requires
            spec_status(old(self)@, a) == ConnectionStatus::AwaitingHandshake,
        ensures
            final(self)@ == old(self)@.insert(a, PeerStatus::Pooled),
    {
        self.table.insert(a, PeerStatus::Pooled);
    }

    /// The pooled address was paired: bind it to its match.
    pub fn bind_to_match(&mut self, a: Address, mid: usize)
        requires
            spec_status(old(self)@, a) == ConnectionStatus::Pooled,
        ensures
            final(self)@ == old(self)@.insert(a, PeerStatus::InMatch(mid)),
    {
        self.table.insert(a, PeerStatus::InMatch(mid));
    }

    /// The challenged address answered with an incompatible version: it is
    /// never admitted.
    pub fn reject(&mut self, a: Address)
        requires
            spec_status(old(self)@, a) == ConnectionStatus::AwaitingHandshake,
        ensures
            final(self)@ == old(self)@.insert(a, PeerStatus::Rejected),
    {
        self.table.insert(a, PeerStatus::Rejected);
    }

    /// The peer is gone (disconnect or timeout): forget it entirely.
    pub fn remove(&mut self, a: Address)
        ensures
            final(self)@ == old(self)@.remove(a),
    {
        self.table.remove(&a);
    }
}

} // verus!
