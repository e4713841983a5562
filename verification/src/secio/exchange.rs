//! Key agreement algorithms.

use vstd::prelude::*;
use crate::secio::support::Algorithm;
use crate::text::is_text;

verus! {

/// The key agreements that can be negotiated: those for which the
/// handshake can hold an ephemeral key.
#[derive(Debug, Clone, Copy, PartialEq, Eq, Structural)]
pub enum KeyAgreement {
    EcdhP256,
    EcdhP384,
    X25519,
}

impl KeyAgreement {
    /// The tag under which the algorithm is proposed.
    pub open spec fn spec_tag(self) -> Seq<char> {
        match self {
            KeyAgreement::EcdhP256 => "P-256"@,
            KeyAgreement::EcdhP384 => "P-384"@,
            KeyAgreement::X25519 => "X25519"@,
        }
    }

    /// The tag under which the algorithm is proposed.
    pub fn tag(self) -> (t: &'static str)
        ensures
            t@ == self.spec_tag(),
    {
        match self {
            KeyAgreement::EcdhP256 => "P-256",
            KeyAgreement::EcdhP384 => "P-384",
            KeyAgreement::X25519 => "X25519",
        }
    }
}

impl Algorithm for KeyAgreement {
    open spec fn of_tag(tag: Seq<char>) -> Option<Self> {
        if tag == "P-256"@ {
            Some(KeyAgreement::EcdhP256)
        } else if tag == "P-384"@ {
            Some(KeyAgreement::EcdhP384)
        } else if tag == "X25519"@ {
            Some(KeyAgreement::X25519)
        } else {
            None
        }
    }

    fn parse(tag: &Vec<char>) -> (r: Option<Self>) {
        if is_text(tag, "P-256") {
            Some(KeyAgreement::EcdhP256)
        } else if is_text(tag, "P-384") {
            Some(KeyAgreement::EcdhP384)
        } else if is_text(tag, "X25519") {
            Some(KeyAgreement::X25519)
        } else {
            None
        }
    }
}

/// Every key agreement is named by its own tag.
pub proof fn lemma_agreement_tag(a: KeyAgreement)
    ensures
        KeyAgreement::of_tag(a.spec_tag()) == Some(a),
{
    reveal_strlit("P-256");
    reveal_strlit("P-384");
    reveal_strlit("X25519");
    assert("P-256"@[2] != "P-384"@[2]);
    assert("X25519"@[0] != "P-256"@[0]);
    assert("X25519"@[0] != "P-384"@[0]);
}

} // verus!
