//! Why a secure-channel handshake ends without a channel.

use vstd::prelude::*;

verus! {

/// The ways a handshake can fail. Each of them ends the session.
#[derive(Debug, Clone, Copy, PartialEq, Eq, Structural)]
pub enum SecioError {
    /// A handshake message of the remote could not be parsed.
    HandshakeParsingFailure,
    /// The remote presented our own public key.
    ConnectSelf,
    /// The two proposals share no supported algorithm for one of the lists.
    NoSupportIntersection,
    /// The remote's signature over the exchange does not verify.
    SignatureFailure,
    /// The nonce that came back under the new keys is not the one we sent.
    NonceVerificationFailed,
    /// The underlying stream failed.
    IoError,
    /// The remote did not answer in time.
    Timeout,
}

} // verus!
