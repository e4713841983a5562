//! A peer-to-peer networking runtime core: the secure-channel handshake
//! context, the length-delimited frame codec, and the event and task
//! vocabulary exchanged between the service and its protocol handlers.

use vstd::prelude::*;
use vstd::std_specs::convert::FromSpecImpl;
use crate::text::{decimal, push_decimal, push_str};

pub mod codec;
pub mod context;
pub mod error;
pub mod multiaddr;
pub mod octets;
pub mod protocol_select;
pub mod secio;
pub mod service;
pub mod session;
pub mod substream;
pub mod text;

verus! {

/// Identifies a session. Ids are assigned in increasing order and never
/// reused.
#[derive(Debug, Clone, Copy, PartialEq, Eq, PartialOrd, Ord, Hash, Structural)]
pub struct SessionId(pub usize);

/// Identifies a protocol within a service.
#[derive(Debug, Clone, Copy, PartialEq, Eq, PartialOrd, Ord, Hash, Structural)]
pub struct ProtocolId(pub usize);

impl SessionId {
    /// How the id is written: `SessionId(7)`.
    pub open spec fn spec_text(self) -> Seq<char> {
        "SessionId("@ + decimal(self.0 as nat) + ")"@
    }

    /// The id with the number `id`.
    pub fn new(id: usize) -> (r: SessionId)
        ensures
            r == SessionId(id),
    {
        SessionId(id)
    }

    /// The number of the session.
    pub fn value(self) -> (id: usize)
        ensures
            id == self.0,
    {
        self.0
    }

    /// Appends the written form of the id to `out`.
    pub fn push_text(self, out: &mut Vec<char>)
        ensures
            final(out)@ == old(out)@ + self.spec_text(),
    {
        push_str(out, "SessionId(");
        push_decimal(out, self.0 as u64);
        push_str(out, ")");
        assert(out@ == old(out)@ + ("SessionId("@ + decimal(self.0 as nat) + ")"@));
    }
}

impl ProtocolId {
    /// How the id is written: `ProtocolId(7)`.
    pub open spec fn spec_text(self) -> Seq<char> {
        "ProtocolId("@ + decimal(self.0 as nat) + ")"@
    }

    /// The id with the number `id`.
    pub fn new(id: usize) -> (r: ProtocolId)
        ensures
            r == ProtocolId(id),
    {
        ProtocolId(id)
    }

    /// The number of the protocol.
    pub fn value(self) -> (id: usize)
        ensures
            id == self.0,
    {
        self.0
    }

    /// Appends the written form of the id to `out`.
    pub fn push_text(self, out: &mut Vec<char>)
        ensures
            final(out)@ == old(out)@ + self.spec_text(),
    {
        push_str(out, "ProtocolId(");
        push_decimal(out, self.0 as u64);
        push_str(out, ")");
        assert(out@ == old(out)@ + ("ProtocolId("@ + decimal(self.0 as nat) + ")"@));
    }
}

impl From<usize> for SessionId {
    fn from(id: usize) -> (r: SessionId) {
        SessionId(id)
    }
}

impl FromSpecImpl<usize> for SessionId {
    open spec fn obeys_from_spec() -> bool {
        true
    }

    open spec fn from_spec(id: usize) -> SessionId {
        SessionId(id)
    }
}

impl From<usize> for ProtocolId {
    fn from(id: usize) -> (r: ProtocolId) {
        ProtocolId(id)
    }
}

impl FromSpecImpl<usize> for ProtocolId {
    open spec fn obeys_from_spec() -> bool {
        true
    }

    open spec fn from_spec(id: usize) -> ProtocolId {
        ProtocolId(id)
    }
}

} // verus!
