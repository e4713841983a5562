use bytes::BytesMut;
use ring::agreement::{EphemeralPrivateKey, X25519};
use ring::rand::SystemRandom;
use tentacle::secio::error::SecioError;
use tentacle::secio::handshake::handshake_context::{Ephemeral, HandshakeContext};
use tentacle::secio::handshake::procedure::{
    check_returned_nonce, share_out, KeyBundle, MAC_KEY_LEN,
};
use tentacle::secio::handshake::Config;
use tentacle::secio::stream_cipher::Cipher;
use tentacle::secio::support::HashOrder;
use tentacle::secio::SecioKeyPair;

fn peers() -> (HandshakeContext<Ephemeral>, HandshakeContext<Ephemeral>) {
    let a = HandshakeContext::new(Config::new(SecioKeyPair::secp256k1_raw_key(
        vec![1; 32],
        vec![1, 2, 3],
    )))
    .with_local_nonce([0; 16]);
    let b = HandshakeContext::new(Config::new(SecioKeyPair::secp256k1_raw_key(
        vec![2; 32],
        vec![4, 5, 3],
    )))
    .with_local_nonce([9; 16]);
    let a_bytes = a.state.proposition_bytes.clone();
    let b_bytes = b.state.proposition_bytes.clone();
    let a = a.with_remote(BytesMut::from(b_bytes)).ok().unwrap();
    let b = b.with_remote(BytesMut::from(a_bytes)).ok().unwrap();
    let rng = SystemRandom::new();
    let a_key = EphemeralPrivateKey::generate(&X25519, &rng).unwrap();
    let b_key = EphemeralPrivateKey::generate(&X25519, &rng).unwrap();
    let a_pub = a_key.compute_public_key().unwrap().as_ref().to_vec();
    let b_pub = b_key.compute_public_key().unwrap().as_ref().to_vec();
    (a.with_ephemeral(a_key, a_pub), b.with_ephemeral(b_key, b_pub))
}

#[test]
fn signed_data_is_own_proposition_then_remote_then_ephemeral_key() {
    let (a, _) = peers();
    let mut expected = a.state.remote.local.proposition_bytes.clone();
    expected.extend_from_slice(&a.state.remote.proposition_bytes);
    expected.extend_from_slice(&a.state.local_tmp_pub_key);
    assert_eq!(a.data_to_sign(), expected);
    let mut expected = a.state.remote.proposition_bytes.to_vec();
    expected.extend_from_slice(&a.state.remote.local.proposition_bytes);
    expected.extend_from_slice(&[7, 7]);
    assert_eq!(a.data_to_verify(&[7, 7]), expected);
}

#[test]
fn what_one_peer_signs_the_other_verifies() {
    let (a, b) = peers();
    assert_eq!(a.data_to_sign(), b.data_to_verify(&a.state.local_tmp_pub_key));
    assert_eq!(b.data_to_sign(), a.data_to_verify(&b.state.local_tmp_pub_key));
    assert_ne!(a.data_to_sign(), b.data_to_sign());
}

#[test]
fn key_material_is_shared_out_by_order() {
    let cipher = Cipher::Aes128;
    let half = 16 + 16 + MAC_KEY_LEN;
    assert_eq!(MAC_KEY_LEN, 20);
    let material: Vec<u8> = (0..(2 * half) as u8).collect();
    let first = KeyBundle {
        iv: (0..16).collect(),
        cipher_key: (16..32).collect(),
        mac_key: (32..52).collect(),
    };
    let second = KeyBundle {
        iv: (52..68).collect(),
        cipher_key: (68..84).collect(),
        mac_key: (84..104).collect(),
    };
    let (send, receive) = share_out(HashOrder::Less, &material, cipher).unwrap();
    assert_eq!(send, first);
    assert_eq!(receive, second);
    let (send, receive) = share_out(HashOrder::Greater, &material, cipher).unwrap();
    assert_eq!(send, second);
    assert_eq!(receive, first);
    assert_eq!(share_out(HashOrder::Equal, &material, cipher), None);
    assert_eq!(share_out(HashOrder::Less, &material[1..], cipher), None);
    assert_eq!(share_out(HashOrder::Less, &material, Cipher::Aes256), None);
}

#[test]
fn bundles_of_the_two_peers_are_opposite() {
    let (a, b) = peers();
    let cipher = a.state.remote.chosen_cipher;
    assert_eq!(cipher, b.state.remote.chosen_cipher);
    let len = 2 * (cipher.iv_size() + cipher.key_size() + MAC_KEY_LEN);
    let material: Vec<u8> = (0..len).map(|i| (i * 7 % 251) as u8).collect();
    let (a_send, a_receive) =
        share_out(a.state.remote.hashes_ordering, &material, cipher).unwrap();
    let (b_send, b_receive) =
        share_out(b.state.remote.hashes_ordering, &material, cipher).unwrap();
    assert_eq!(a_send, b_receive);
    assert_eq!(a_receive, b_send);
    assert_ne!(a_send, a_receive);
}

#[test]
fn cipher_sizes() {
    assert_eq!((Cipher::Aes128.key_size(), Cipher::Aes128.iv_size()), (16, 16));
    assert_eq!((Cipher::Aes256.key_size(), Cipher::Aes256.iv_size()), (32, 16));
    assert_eq!((Cipher::TwofishCtr.key_size(), Cipher::TwofishCtr.iv_size()), (32, 16));
    let material = vec![0u8; 2 * (16 + 32 + 20)];
    let (send, receive) = share_out(HashOrder::Greater, &material, Cipher::Aes256).unwrap();
    assert_eq!((send.iv.len(), send.cipher_key.len(), send.mac_key.len()), (16, 32, 20));
    assert_eq!((receive.iv.len(), receive.cipher_key.len(), receive.mac_key.len()), (16, 32, 20));
}

#[test]
fn returned_nonce_must_be_ours() {
    let (a, _) = peers();
    let local = &a.state.remote.local;
    assert_eq!(check_returned_nonce(local, &[0; 16]), Ok(()));
    assert_eq!(
        check_returned_nonce(local, &[9; 16]),
        Err(SecioError::NonceVerificationFailed)
    );
    assert_eq!(
        check_returned_nonce(local, &[0; 15]),
        Err(SecioError::NonceVerificationFailed)
    );
    assert_eq!(check_returned_nonce(local, &[]), Err(SecioError::NonceVerificationFailed));
}
