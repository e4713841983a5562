//! Stream ciphers.

use vstd::prelude::*;
use crate::secio::support::Algorithm;
use crate::text::is_text;

verus! {

/// The ciphers that can be negotiated.
#[derive(Debug, Clone, Copy, PartialEq, Eq, Structural)]
pub enum Cipher {
    Aes128,
    Aes256,
    TwofishCtr,
}

impl Cipher {
    /// The tag under which the cipher is proposed.
    pub open spec fn spec_tag(self) -> Seq<char> {
        match self {
            Cipher::Aes128 => "AES-128"@,
            Cipher::Aes256 => "AES-256"@,
            Cipher::TwofishCtr => "TwofishCTR"@,
        }
    }

    /// The tag under which the cipher is proposed.
    pub fn tag(self) -> (t: &'static str)
        ensures
            t@ == self.spec_tag(),
    {
        match self {
            Cipher::Aes128 => "AES-128",
            Cipher::Aes256 => "AES-256",
            Cipher::TwofishCtr => "TwofishCTR",
        }
    }

    /// Length of the cipher's key in bytes.
    pub open spec fn spec_key_size(self) -> nat {
        match self {
            Cipher::Aes128 => 16,
            Cipher::Aes256 => 32,
            Cipher::TwofishCtr => 32,
        }
    }

    /// Length of the cipher's initialisation vector in bytes.
    pub open spec fn spec_iv_size(self) -> nat {
        16
    }

    /// Length of the cipher's key in bytes.
    pub fn key_size(self) -> (n: usize)
        ensures
            n == self.spec_key_size(),
    {
        match self {
            Cipher::Aes128 => 16,
            Cipher::Aes256 => 32,
            Cipher::TwofishCtr => 32,
        }
    }

    /// Length of the cipher's initialisation vector in bytes.
    pub fn iv_size(self) -> (n: usize)
        ensures
            n == self.spec_iv_size(),
    {
        16
    }
}

impl Algorithm for Cipher {
    open spec fn of_tag(tag: Seq<char>) -> Option<Self> {
        if tag == "AES-128"@ {
            Some(Cipher::Aes128)
        } else if tag == "AES-256"@ {
            Some(Cipher::Aes256)
        } else if tag == "TwofishCTR"@ {
            Some(Cipher::TwofishCtr)
        } else {
            None
        }
    }

    fn parse(tag: &Vec<char>) -> (r: Option<Self>) {
        if is_text(tag, "AES-128") {
            Some(Cipher::Aes128)
        } else if is_text(tag, "AES-256") {
            Some(Cipher::Aes256)
        } else if is_text(tag, "TwofishCTR") {
            Some(Cipher::TwofishCtr)
        } else {
            None
        }
    }
}

/// Every cipher is named by its own tag.
pub proof fn lemma_cipher_tag(c: Cipher)
    ensures
        Cipher::of_tag(c.spec_tag()) == Some(c),
{
    reveal_strlit("AES-128");
    reveal_strlit("AES-256");
    reveal_strlit("TwofishCTR");
    assert("AES-128"@[4] != "AES-256"@[4]);
}

} // verus!
