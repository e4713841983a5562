use std::cmp::Ordering;

use tentacle::secio::error::SecioError;
use tentacle::secio::exchange::KeyAgreement;
use tentacle::secio::stream_cipher::Cipher;
use tentacle::secio::support::{
    select_agreement, select_cipher, select_digest, split_tags, Algorithm, HashOrder,
    DEFAULT_AGREEMENTS_PROPOSITION, DEFAULT_CIPHERS_PROPOSITION, DEFAULT_DIGESTS_PROPOSITION,
};
use tentacle::secio::Digest;

fn chars(s: &str) -> Vec<char> {
    s.chars().collect()
}

#[test]
fn default_proposals() {
    assert_eq!(DEFAULT_AGREEMENTS_PROPOSITION, "P-256,P-384,P-521,X25519");
    assert_eq!(DEFAULT_CIPHERS_PROPOSITION, "AES-128,AES-256,TwofishCTR");
    assert_eq!(DEFAULT_DIGESTS_PROPOSITION, "SHA256,SHA512");
}

#[test]
fn hash_order_is_lexicographic() {
    assert_eq!(HashOrder::of(&[], &[]), HashOrder::Equal);
    assert_eq!(HashOrder::of(&[], &[0]), HashOrder::Less);
    assert_eq!(HashOrder::of(&[0], &[]), HashOrder::Greater);
    assert_eq!(HashOrder::of(&[1, 2, 3], &[1, 2, 3]), HashOrder::Equal);
    assert_eq!(HashOrder::of(&[1, 2, 3], &[1, 3, 0]), HashOrder::Less);
    assert_eq!(HashOrder::of(&[2, 0], &[1, 255, 255]), HashOrder::Greater);
    assert_eq!(HashOrder::of(&[1, 2], &[1, 2, 0]), HashOrder::Less);
    assert_eq!(HashOrder::of(&[255], &[128]), HashOrder::Greater);
}

#[test]
fn hash_order_reverse() {
    assert_eq!(HashOrder::Less.reverse(), HashOrder::Greater);
    assert_eq!(HashOrder::Greater.reverse(), HashOrder::Less);
    assert_eq!(HashOrder::Equal.reverse(), HashOrder::Equal);
    let a = [3u8, 1, 4];
    let b = [3u8, 1, 5];
    assert_eq!(HashOrder::of(&b, &a), HashOrder::of(&a, &b).reverse());
}

#[test]
fn split_tags_follows_commas() {
    assert_eq!(split_tags(""), vec![chars("")]);
    assert_eq!(split_tags("a"), vec![chars("a")]);
    assert_eq!(split_tags("a,b"), vec![chars("a"), chars("b")]);
    assert_eq!(split_tags("a,"), vec![chars("a"), chars("")]);
    assert_eq!(split_tags(",,"), vec![chars(""), chars(""), chars("")]);
    assert_eq!(
        split_tags("P-256,P-384"),
        vec![chars("P-256"), chars("P-384")]
    );
}

#[test]
fn tags_name_algorithms() {
    assert_eq!(KeyAgreement::parse(&chars("P-256")), Some(KeyAgreement::EcdhP256));
    assert_eq!(KeyAgreement::parse(&chars("P-384")), Some(KeyAgreement::EcdhP384));
    assert_eq!(KeyAgreement::parse(&chars("P-521")), None);
    assert_eq!(KeyAgreement::parse(&chars("X25519")), Some(KeyAgreement::X25519));
    assert_eq!(KeyAgreement::parse(&chars("p-256")), None);
    assert_eq!(Cipher::parse(&chars("AES-128")), Some(Cipher::Aes128));
    assert_eq!(Cipher::parse(&chars("AES-256")), Some(Cipher::Aes256));
    assert_eq!(Cipher::parse(&chars("TwofishCTR")), Some(Cipher::TwofishCtr));
    assert_eq!(Cipher::parse(&chars("")), None);
    assert_eq!(Digest::parse(&chars("SHA256")), Some(Digest::Sha256));
    assert_eq!(Digest::parse(&chars("SHA512")), Some(Digest::Sha512));
    assert_eq!(Digest::parse(&chars("SHA1")), None);
    for a in [
        KeyAgreement::EcdhP256,
        KeyAgreement::EcdhP384,
        KeyAgreement::X25519,
    ] {
        assert_eq!(KeyAgreement::parse(&chars(a.tag())), Some(a));
    }
    for c in [Cipher::Aes128, Cipher::Aes256, Cipher::TwofishCtr] {
        assert_eq!(Cipher::parse(&chars(c.tag())), Some(c));
    }
    for d in [Digest::Sha256, Digest::Sha512] {
        assert_eq!(Digest::parse(&chars(d.tag())), Some(d));
    }
}

#[test]
fn less_prefers_the_remote_list() {
    assert_eq!(
        select_agreement(HashOrder::Less, "P-256,P-384", "P-384,P-256"),
        Ok(KeyAgreement::EcdhP384)
    );
    assert_eq!(
        select_cipher(HashOrder::Less, "AES-128,AES-256", "TwofishCTR,AES-256,AES-128"),
        Ok(Cipher::Aes256)
    );
    assert_eq!(
        select_digest(HashOrder::Less, "SHA256,SHA512", "SHA512"),
        Ok(Digest::Sha512)
    );
}

#[test]
fn greater_prefers_the_own_list() {
    assert_eq!(
        select_agreement(HashOrder::Greater, "P-256,P-384", "P-384,P-256"),
        Ok(KeyAgreement::EcdhP256)
    );
    // every order but `Less` prefers the own list
    assert_eq!(
        select_agreement(HashOrder::Equal, "P-256,P-384", "P-384,P-256"),
        Ok(KeyAgreement::EcdhP256)
    );
    assert_eq!(
        select_digest(HashOrder::Equal, "SHA512,SHA256", "SHA256,SHA512"),
        Ok(Digest::Sha512)
    );
    assert_eq!(
        select_cipher(HashOrder::Greater, "AES-128,AES-256", "TwofishCTR,AES-256,AES-128"),
        Ok(Cipher::Aes128)
    );
    assert_eq!(
        select_digest(HashOrder::Greater, "SHA256,SHA512", "SHA512"),
        Ok(Digest::Sha512)
    );
}

#[test]
fn both_sides_converge() {
    let ours = "X25519,P-384,P-256";
    let theirs = "P-256,bogus,P-384";
    assert_eq!(
        select_agreement(HashOrder::Less, ours, theirs),
        select_agreement(HashOrder::Greater, theirs, ours)
    );
    assert_eq!(
        select_agreement(HashOrder::Greater, ours, theirs),
        select_agreement(HashOrder::Less, theirs, ours)
    );
    assert_eq!(select_agreement(HashOrder::Less, ours, theirs), Ok(KeyAgreement::EcdhP256));
    assert_eq!(select_agreement(HashOrder::Greater, ours, theirs), Ok(KeyAgreement::EcdhP384));
}

#[test]
fn unknown_common_tags_are_skipped() {
    assert_eq!(
        select_agreement(HashOrder::Greater, "bogus,P-256", "bogus,P-256"),
        Ok(KeyAgreement::EcdhP256)
    );
    assert_eq!(
        select_cipher(HashOrder::Less, "NULL,AES-128", "NULL,AES-128"),
        Ok(Cipher::Aes128)
    );
}

#[test]
fn no_common_entry_is_an_error() {
    assert_eq!(
        select_agreement(HashOrder::Less, "P-256", "P-384"),
        Err(SecioError::NoSupportIntersection)
    );
    assert_eq!(
        select_cipher(HashOrder::Greater, "", ""),
        Err(SecioError::NoSupportIntersection)
    );
    assert_eq!(
        select_digest(HashOrder::Less, "SHA256", "sha256"),
        Err(SecioError::NoSupportIntersection)
    );
    assert_eq!(
        select_digest(HashOrder::Less, "bogus", "bogus"),
        Err(SecioError::NoSupportIntersection)
    );
}

#[test]
fn an_entry_without_an_algorithm_is_never_selected() {
    assert_eq!(
        select_agreement(HashOrder::Less, "P-521", "P-521"),
        Err(SecioError::NoSupportIntersection)
    );
    assert_eq!(
        select_agreement(HashOrder::Greater, "P-521,X25519", "P-521,X25519"),
        Ok(KeyAgreement::X25519)
    );
    assert_eq!(
        select_agreement(
            HashOrder::Less,
            DEFAULT_AGREEMENTS_PROPOSITION,
            DEFAULT_AGREEMENTS_PROPOSITION
        ),
        Ok(KeyAgreement::EcdhP256)
    );
}

#[test]
fn hash_order_and_the_standard_ordering() {
    assert_eq!(HashOrder::Less.to_std(), Ordering::Less);
    assert_eq!(HashOrder::Equal.to_std(), Ordering::Equal);
    assert_eq!(HashOrder::Greater.to_std(), Ordering::Greater);
    assert_eq!(HashOrder::from_std(Ordering::Less), HashOrder::Less);
    assert_eq!(HashOrder::from_std(Ordering::Equal), HashOrder::Equal);
    assert_eq!(HashOrder::from_std(Ordering::Greater), HashOrder::Greater);
    let a = [1u8, 2, 3];
    let b = [1u8, 3];
    assert_eq!(HashOrder::of(&a, &b).to_std(), a[..].cmp(&b[..]));
    assert_eq!(HashOrder::of(&b, &a).to_std(), b[..].cmp(&a[..]));
    assert_eq!(HashOrder::of(&a, &a).to_std(), a[..].cmp(&a[..]));
}
