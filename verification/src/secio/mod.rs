//! The secure channel: an authenticated, encrypted byte stream negotiated
//! over a raw frame stream.

use vstd::prelude::*;
use crate::octets;
use crate::secio::handshake::handshake_struct::PublicKey;
use crate::secio::support::Algorithm;
use crate::text::is_text;

pub mod error;
pub mod exchange;
pub mod handshake;
pub mod stream_cipher;
pub mod support;

verus! {

/// The digests that can be negotiated.
#[derive(Debug, Clone, Copy, PartialEq, Eq, Structural)]
pub enum Digest {
    Sha256,
    Sha512,
}

impl Digest {
    /// The tag under which the digest is proposed.
    pub open spec fn spec_tag(self) -> Seq<char> {
        match self {
            Digest::Sha256 => "SHA256"@,
            Digest::Sha512 => "SHA512"@,
        }
    }

    /// The tag under which the digest is proposed.
    pub fn tag(self) -> (t: &'static str)
        ensures
            t@ == self.spec_tag(),
    {
        match self {
            Digest::Sha256 => "SHA256",
            Digest::Sha512 => "SHA512",
        }
    }

}

impl Algorithm for Digest {
    open spec fn of_tag(tag: Seq<char>) -> Option<Self> {
        if tag == "SHA256"@ {
            Some(Digest::Sha256)
        } else if tag == "SHA512"@ {
            Some(Digest::Sha512)
        } else {
            None
        }
    }

    fn parse(tag: &Vec<char>) -> (r: Option<Self>) {
        if is_text(tag, "SHA256") {
            Some(Digest::Sha256)
        } else if is_text(tag, "SHA512") {
            Some(Digest::Sha512)
        } else {
            None
        }
    }
}

/// Every digest is named by its own tag.
pub proof fn lemma_digest_tag(d: Digest)
    ensures
        Digest::of_tag(d.spec_tag()) == Some(d),
{
    reveal_strlit("SHA256");
    reveal_strlit("SHA512");
    assert("SHA256"@[3] != "SHA512"@[3]);
}

/// A long-term key pair: the secret key and the public key that belongs to
/// it, both in serialized form.
#[derive(Debug, PartialEq, Eq)]
pub struct SecioKeyPair {
    pub secret_key: Vec<u8>,
    pub public_key: Vec<u8>,
}

impl SecioKeyPair {
    /// A secp256k1 key pair from its two serialized halves.
    pub fn secp256k1_raw_key(secret_key: Vec<u8>, public_key: Vec<u8>) -> (pair: SecioKeyPair)
        ensures
            pair.secret_key == secret_key,
            pair.public_key == public_key,
    {
        SecioKeyPair { secret_key, public_key }
    }

    /// The public half.
    pub fn to_public_key(&self) -> (key: PublicKey)
        ensures
            key@ == self.public_key@,
    {
        PublicKey::Secp256k1(octets::copy(self.public_key.as_slice()))
    }
}

} // verus!
