//! The rules of the handshake steps that follow the propositions: what is
//! signed and verified, how the stretched key material is shared out
//! between the two directions, and the final nonce check.

use vstd::prelude::*;
use vstd::slice::{slice_subrange, slice_to_vec};
use crate::octets;
use crate::secio::error::SecioError;
use crate::secio::handshake::handshake_context::{
    bytes_mut_as_slice, bytes_mut_contents, Ephemeral, HandshakeContext, Local,
};
use crate::secio::stream_cipher::Cipher;
use crate::secio::support::HashOrder;

verus! {

impl Ephemeral {
    /// What this peer signs with its long-term key: its own proposition,
    /// the remote's proposition, its own ephemeral public key.
    pub open spec fn spec_data_to_sign(self) -> Seq<u8> {
        self.remote.local.proposition_bytes@ + bytes_mut_contents(self.remote.proposition_bytes)
            + self.local_tmp_pub_key@
    }

    /// What the remote's signature must be a signature of: the remote's
    /// proposition, our proposition, the remote's ephemeral public key.
    pub open spec fn spec_data_to_verify(self, remote_tmp_pub_key: Seq<u8>) -> Seq<u8> {
        bytes_mut_contents(self.remote.proposition_bytes) + self.remote.local.proposition_bytes@
            + remote_tmp_pub_key
    }
}

impl HandshakeContext<Ephemeral> {
    /// The bytes that this peer signs with its long-term key.
    pub fn data_to_sign(&self) -> (data: Vec<u8>)
        ensures
            data@ == self.state.spec_data_to_sign(),
    {
        let mut data = octets::copy(self.state.remote.local.proposition_bytes.as_slice());
        octets::append(&mut data, bytes_mut_as_slice(&self.state.remote.proposition_bytes));
        octets::append(&mut data, self.state.local_tmp_pub_key.as_slice());
        data
    }

    /// The bytes that the remote's signature is verified against.
    pub fn data_to_verify(&self, remote_tmp_pub_key: &[u8]) -> (data: Vec<u8>)
        ensures
            data@ == self.state.spec_data_to_verify(remote_tmp_pub_key@),
    {
        let mut data = octets::copy(bytes_mut_as_slice(&self.state.remote.proposition_bytes));
        octets::append(&mut data, self.state.remote.local.proposition_bytes.as_slice());
        octets::append(&mut data, remote_tmp_pub_key);
        data
    }
}

/// What one honest peer signs is what the other verifies: if each holds the
/// other's proposition bytes, the data that `a` signs is the data against
/// which `b` verifies the signature that comes with `a`'s ephemeral key.
pub proof fn lemma_signed_is_verified(a: Ephemeral, b: Ephemeral)
    requires
        bytes_mut_contents(a.remote.proposition_bytes) == b.remote.local.proposition_bytes@,
        bytes_mut_contents(b.remote.proposition_bytes) == a.remote.local.proposition_bytes@,
    ensures
        a.spec_data_to_sign() == b.spec_data_to_verify(a.local_tmp_pub_key@),
{
}

/// Length of the key of the message authentication code.
pub const MAC_KEY_LEN: usize = 20;

/// The keys of one direction of the channel.
#[derive(Debug, PartialEq, Eq)]
pub struct KeyBundle {
    pub iv: Vec<u8>,
    pub cipher_key: Vec<u8>,
    pub mac_key: Vec<u8>,
}

/// What a [`KeyBundle`] holds.
pub struct KeyBundleView {
    pub iv: Seq<u8>,
    pub cipher_key: Seq<u8>,
    pub mac_key: Seq<u8>,
}

impl View for KeyBundle {
    type V = KeyBundleView;

    open spec fn view(&self) -> KeyBundleView {
        KeyBundleView { iv: self.iv@, cipher_key: self.cipher_key@, mac_key: self.mac_key@ }
    }
}

/// Length of the keys of one direction under `cipher`.
pub open spec fn bundle_len(cipher: Cipher) -> nat {
    cipher.spec_iv_size() + cipher.spec_key_size() + MAC_KEY_LEN as nat
}

/// The bundle written in `material` from `start` on: initialisation
/// vector, cipher key, key of the authentication code.
pub open spec fn bundle_at(material: Seq<u8>, start: int, cipher: Cipher) -> KeyBundleView {
    let iv_end = start + cipher.spec_iv_size();
    let key_end = iv_end + cipher.spec_key_size();
    KeyBundleView {
        iv: material.subrange(start, iv_end),
        cipher_key: material.subrange(iv_end, key_end),
        mac_key: material.subrange(key_end, key_end + MAC_KEY_LEN as int),
    }
}

/// How the stretched key material is shared out. It holds two bundles, one
/// after the other. The peer whose order is `Less` sends with the first and
/// receives with the second; the peer whose order is `Greater` does the
/// opposite. The result is (sending bundle, receiving bundle); there is
/// none when the order is `Equal` or the material has the wrong length.
pub open spec fn spec_share_out(order: HashOrder, material: Seq<u8>, cipher: Cipher) -> Option<
    (KeyBundleView, KeyBundleView),
> {
    let first = bundle_at(material, 0, cipher);
    let second = bundle_at(material, bundle_len(cipher) as int, cipher);
    if material.len() != 2 * bundle_len(cipher) {
        None
    } else {
        match order {
            HashOrder::Less => Some((first, second)),
            HashOrder::Greater => Some((second, first)),
            HashOrder::Equal => None,
        }
    }
}

/// Two peers with the same key material and opposite orders get opposite
/// bundles: what one sends with, the other receives with.
pub proof fn lemma_bundles_opposite(order: HashOrder, material: Seq<u8>, cipher: Cipher)
    requires
        order != HashOrder::Equal,
        material.len() == 2 * bundle_len(cipher),
    ensures
        spec_share_out(order, material, cipher) matches Some((sending, receiving))
            && spec_share_out(order.spec_reverse(), material, cipher) == Some(
            (receiving, sending),
        ),
{
}

fn read_bundle(material: &[u8], start: usize, cipher: Cipher) -> (bundle: KeyBundle)
    requires
        start + bundle_len(cipher) <= material@.len(),
    ensures
        bundle@ == bundle_at(material@, start as int, cipher),
{
    let total = material.len();
    assert(start + bundle_len(cipher) <= total);
    let iv_end = start + cipher.iv_size();
    let key_end = iv_end + cipher.key_size();
    KeyBundle {
        iv: slice_to_vec(slice_subrange(material, start, iv_end)),
        cipher_key: slice_to_vec(slice_subrange(material, iv_end, key_end)),
        mac_key: slice_to_vec(slice_subrange(material, key_end, key_end + MAC_KEY_LEN)),
    }
}

/// Shares out the stretched key material: the result is (sending bundle,
/// receiving bundle).
pub fn share_out(order: HashOrder, material: &[u8], cipher: Cipher) -> (r: Option<
    (KeyBundle, KeyBundle),
>)
    ensures
        match r {
            Some((sending, receiving)) => spec_share_out(order, material@, cipher) == Some(
                (sending@, receiving@),
            ),
            None => spec_share_out(order, material@, cipher) is None,
        },
{
    let half = cipher.iv_size() + cipher.key_size() + MAC_KEY_LEN;
    if material.len() != 2 * half {
        return None;
    }
    match order {
        HashOrder::Equal => None,
        HashOrder::Less => {
            let first = read_bundle(material, 0, cipher);
            let second = read_bundle(material, half, cipher);
            Some((first, second))
        },
        HashOrder::Greater => {
            let first = read_bundle(material, 0, cipher);
            let second = read_bundle(material, half, cipher);
            Some((second, first))
        },
    }
}

/// The last step: the nonce that the remote sent back under the new keys
/// must be the one that we sent.
pub fn check_returned_nonce(local: &Local, returned: &[u8]) -> (r: Result<(), SecioError>)
    ensures
        r is Ok <==> returned@ == local.nonce@,
        r is Err ==> r == Err::<(), SecioError>(SecioError::NonceVerificationFailed),
{
    if octets::same(returned, &local.nonce) {
        Ok(())
    } else {
        Err(SecioError::NonceVerificationFailed)
    }
}

} // verus!
