//! What the service knows of one session.

use vstd::prelude::*;
use crate::multiaddr::Multiaddr;
use crate::secio::handshake::handshake_struct::PublicKey;
use crate::SessionId;

verus! {

/// Which side opened the session.
#[derive(Debug, Clone, Copy, PartialEq, Eq, Structural)]
pub enum SessionType {
    /// The remote dialed us.
    Inbound,
    /// We dialed the remote.
    Outbound,
}

/// The context of one session, handed to the callbacks that concern it.
#[derive(Debug, PartialEq, Eq)]
pub struct SessionContext {
    pub id: SessionId,
    /// The remote's address.
    pub address: Multiaddr,
    pub ty: SessionType,
    /// The remote's long-term public key; present exactly when the session
    /// runs over a secure channel.
    pub remote_pubkey: Option<PublicKey>,
}

impl SessionContext {
    /// Whether the session runs over a secure channel.
    pub fn is_secure(&self) -> (secure: bool)
        ensures
            secure == self.remote_pubkey is Some,
    {
        self.remote_pubkey.is_some()
    }
}

} // verus!
