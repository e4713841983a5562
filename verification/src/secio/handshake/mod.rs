//! The handshake that turns a raw frame stream into a secure channel.

use vstd::prelude::*;
use crate::secio::support::{
    DEFAULT_AGREEMENTS_PROPOSITION, DEFAULT_CIPHERS_PROPOSITION, DEFAULT_DIGESTS_PROPOSITION,
};
use crate::secio::SecioKeyPair;

pub mod handshake_context;
pub mod handshake_struct;
pub mod procedure;

verus! {

/// What a peer brings to the handshake: its long-term key pair and, where
/// it does not want the defaults, its algorithm proposals.
#[derive(Debug, PartialEq, Eq)]
pub struct Config {
    pub key: SecioKeyPair,
    pub agreements_proposal: Option<String>,
    pub ciphers_proposal: Option<String>,
    pub digests_proposal: Option<String>,
}

impl Config {
    /// The key agreements that the peer proposes.
    pub open spec fn spec_agreements(self) -> Seq<char> {
        match self.agreements_proposal {
            Some(list) => list@,
            None => DEFAULT_AGREEMENTS_PROPOSITION@,
        }
    }

    /// The ciphers that the peer proposes.
    pub open spec fn spec_ciphers(self) -> Seq<char> {
        match self.ciphers_proposal {
            Some(list) => list@,
            None => DEFAULT_CIPHERS_PROPOSITION@,
        }
    }

    /// The digests that the peer proposes.
    pub open spec fn spec_digests(self) -> Seq<char> {
        match self.digests_proposal {
            Some(list) => list@,
            None => DEFAULT_DIGESTS_PROPOSITION@,
        }
    }

    /// A configuration with the default proposals.
    pub fn new(key: SecioKeyPair) -> (config: Config)
        ensures
            config.key == key,
            config.agreements_proposal is None,
            config.ciphers_proposal is None,
            config.digests_proposal is None,
    {
        Config { key, agreements_proposal: None, ciphers_proposal: None, digests_proposal: None }
    }

    /// The same configuration with `list` as key agreement proposal.
    pub fn key_agreements(self, list: String) -> (config: Config)
        ensures
            config.key == self.key,
            config.agreements_proposal == Some(list),
            config.ciphers_proposal == self.ciphers_proposal,
            config.digests_proposal == self.digests_proposal,
    {
        Config {
            key: self.key,
            agreements_proposal: Some(list),
            ciphers_proposal: self.ciphers_proposal,
            digests_proposal: self.digests_proposal,
        }
    }

    /// The same configuration with `list` as cipher proposal.
    pub fn ciphers(self, list: String) -> (config: Config)
        ensures
            config.key == self.key,
            config.agreements_proposal == self.agreements_proposal,
            config.ciphers_proposal == Some(list),
            config.digests_proposal == self.digests_proposal,
    {
        Config {
            key: self.key,
            agreements_proposal: self.agreements_proposal,
            ciphers_proposal: Some(list),
            digests_proposal: self.digests_proposal,
        }
    }

    /// The same configuration with `list` as digest proposal.
    pub fn digests(self, list: String) -> (config: Config)
        ensures
            config.key == self.key,
            config.agreements_proposal == self.agreements_proposal,
            config.ciphers_proposal == self.ciphers_proposal,
            config.digests_proposal == Some(list),
    {
        Config {
            key: self.key,
            agreements_proposal: self.agreements_proposal,
            ciphers_proposal: self.ciphers_proposal,
            digests_proposal: Some(list),
        }
    }

    /// The key agreements that the peer proposes.
    pub fn agreements(&self) -> (list: &str)
        ensures
            list@ == self.spec_agreements(),
    {
        match &self.agreements_proposal {
            Some(list) => list.as_str(),
            None => DEFAULT_AGREEMENTS_PROPOSITION,
        }
    }

    /// The ciphers that the peer proposes.
    pub fn cipher_list(&self) -> (list: &str)
        ensures
            list@ == self.spec_ciphers(),
    {
        match &self.ciphers_proposal {
            Some(list) => list.as_str(),
            None => DEFAULT_CIPHERS_PROPOSITION,
        }
    }

    /// The digests that the peer proposes.
    pub fn digest_list(&self) -> (list: &str)
        ensures
            list@ == self.spec_digests(),
    {
        match &self.digests_proposal {
            Some(list) => list.as_str(),
            None => DEFAULT_DIGESTS_PROPOSITION,
        }
    }
}

} // verus!
