//! The context of one handshake, filled state by state:
//! `()`, [`Local`], [`Remote`], [`Ephemeral`], [`PubEphemeral`]. Every step
//! consumes the context of one state and returns that of the next, so no
//! step can be skipped or taken twice.

use vstd::prelude::*;
use bytes::BytesMut;
use ring::agreement::EphemeralPrivateKey;
use sha2::Digest as Sha2Digest;
use crate::octets;
use crate::secio::error::SecioError;
use crate::secio::exchange::KeyAgreement;
use crate::secio::handshake::handshake_struct::{
    decode_propose, decode_public_key, encode_propose, encode_public_key,
    lemma_propose_roundtrip, lemma_public_key_roundtrip, Propose, ProposeView, PublicKey,
};
use crate::secio::handshake::Config;
use crate::secio::stream_cipher::Cipher;
use crate::secio::support::{
    lemma_lex_order_equal, lemma_lex_order_reverse, lemma_overlap_symmetric,
    lemma_select_converges, lemma_select_outcome, lex_order, overlap, select_agreement,
    select_cipher, select_digest, spec_select, HashOrder,
};
use crate::secio::Digest;

verus! {

/// `bytes::BytesMut`, a byte buffer. What it holds is known only through
/// `bytes_mut_contents`.
#[verifier::external_type_specification]
#[verifier::external_body]
pub struct ExBytesMut(bytes::BytesMut);

/// `ring::agreement::EphemeralPrivateKey`, carried through the handshake
/// unopened.
#[verifier::external_type_specification]
#[verifier::external_body]
pub struct ExEphemeralPrivateKey(ring::agreement::EphemeralPrivateKey);

/// The bytes that a `BytesMut` holds, in order.
pub uninterp spec fn bytes_mut_contents(buf: BytesMut) -> Seq<u8>;

/// The SHA-256 digest of `data`.
pub uninterp spec fn sha256(data: Seq<u8>) -> Seq<u8>;

/// `BytesMut::as_ref` hands out the bytes that the buffer holds.
#[verifier::external_body]
pub(crate) fn bytes_mut_as_slice(buf: &BytesMut) -> (bytes: &[u8])
    ensures
        bytes@ == bytes_mut_contents(*buf),
{
    buf.as_ref()
}

/// `sha2::Sha256::digest` computes the SHA-256 digest of its input, which
/// is 32 bytes long.
#[verifier::external_body]
fn sha256_digest(data: &[u8]) -> (digest: Vec<u8>)
    ensures
        digest@ == sha256(data@),
        digest@.len() == 32,
{
    sha2::Sha256::digest(data).to_vec()
}

/// `rand::random` draws 16 bytes from the thread-local generator. Nothing
/// is known of them.
#[verifier::external_body]
fn random_nonce() -> (nonce: [u8; 16]) {
    rand::random()
}

/// The whole context of a handshake in state `T`.
pub struct HandshakeContext<T> {
    pub config: Config,
    pub state: T,
}

/// The state after the local proposition has been made.
#[derive(Debug, PartialEq, Eq)]
pub struct Local {
    /// Locally generated random number.
    pub nonce: [u8; 16],
    /// The bytes of our public key.
    pub public_key: Vec<u8>,
    /// The wire form of our proposition.
    pub proposition_bytes: Vec<u8>,
}

/// The state after the remote's proposition has been processed.
pub struct Remote {
    pub local: Local,
    /// The wire form of the remote's proposition.
    pub proposition_bytes: BytesMut,
    /// The remote's public key.
    pub public_key: PublicKey,
    /// The remote's nonce.
    pub nonce: Vec<u8>,
    /// How the digest of (remote key, local nonce) compares with the digest
    /// of (local key, remote nonce). It is never `Equal`.
    pub hashes_ordering: HashOrder,
    pub chosen_exchange: KeyAgreement,
    pub chosen_cipher: Cipher,
    pub chosen_hash: Digest,
}

/// The state after the ephemeral key pair has been generated.
pub struct Ephemeral {
    pub remote: Remote,
    /// The ephemeral key pair of this handshake.
    pub local_tmp_priv_key: EphemeralPrivateKey,
    pub local_tmp_pub_key: Vec<u8>,
}

/// The state after the ephemeral private key has been taken out.
pub struct PubEphemeral {
    pub remote: Remote,
    pub local_tmp_pub_key: Vec<u8>,
}

/// What the two peers have settled once the remote's proposition is in.
#[derive(Debug, PartialEq, Eq)]
pub struct Negotiated {
    pub public_key: PublicKey,
    pub nonce: Vec<u8>,
    pub hashes_ordering: HashOrder,
    pub chosen_exchange: KeyAgreement,
    pub chosen_cipher: Cipher,
    pub chosen_hash: Digest,
}

/// What a [`Negotiated`] holds.
pub struct NegotiatedView {
    pub public_key: Seq<u8>,
    pub nonce: Seq<u8>,
    pub hashes_ordering: HashOrder,
    pub chosen_exchange: KeyAgreement,
    pub chosen_cipher: Cipher,
    pub chosen_hash: Digest,
}

impl View for Negotiated {
    type V = NegotiatedView;

    open spec fn view(&self) -> NegotiatedView {
        NegotiatedView {
            public_key: self.public_key@,
            nonce: self.nonce@,
            hashes_ordering: self.hashes_ordering,
            chosen_exchange: self.chosen_exchange,
            chosen_cipher: self.chosen_cipher,
            chosen_hash: self.chosen_hash,
        }
    }
}

impl Remote {
    /// What was settled with the remote.
    pub open spec fn negotiated(self) -> NegotiatedView {
        NegotiatedView {
            public_key: self.public_key@,
            nonce: self.nonce@,
            hashes_ordering: self.hashes_ordering,
            chosen_exchange: self.chosen_exchange,
            chosen_cipher: self.chosen_cipher,
            chosen_hash: self.chosen_hash,
        }
    }
}

/// The proposition that a peer with configuration `config` makes with the
/// nonce `nonce`.
pub open spec fn local_proposition(config: Config, nonce: Seq<u8>) -> ProposeView {
    ProposeView {
        rand: nonce,
        pubkey: encode_public_key(config.key.public_key@),
        exchange: config.spec_agreements(),
        ciphers: config.spec_ciphers(),
        hashes: config.spec_digests(),
    }
}

impl Local {
    /// The state is the one that `config` and the nonce give: it holds the
    /// key of `config` and the wire form of the local proposition.
    pub open spec fn wf(self, config: Config) -> bool {
        &&& self.public_key@ == config.key.public_key@
        &&& local_proposition(config, self.nonce@).valid()
        &&& self.proposition_bytes@ == encode_propose(local_proposition(config, self.nonce@))
    }
}

/// How a peer with key `local_key` and nonce `local_nonce` stands to a
/// remote with key `remote_key` and nonce `remote_nonce`.
pub open spec fn hashes_order(
    local_key: Seq<u8>,
    local_nonce: Seq<u8>,
    remote_key: Seq<u8>,
    remote_nonce: Seq<u8>,
) -> HashOrder {
    lex_order(sha256(remote_key + local_nonce), sha256(local_key + remote_nonce))
}

/// The three algorithms selected in the order key agreement, cipher,
/// digest; the first list without a common supported entry fails the
/// handshake.
pub open spec fn spec_choose(order: HashOrder, config: Config, remote: ProposeView) -> Result<
    (KeyAgreement, Cipher, Digest),
    SecioError,
> {
    match spec_select::<KeyAgreement>(order, config.spec_agreements(), remote.exchange) {
        Err(e) => Err(e),
        Ok(exchange) => match spec_select::<Cipher>(order, config.spec_ciphers(), remote.ciphers) {
            Err(e) => Err(e),
            Ok(cipher) => match spec_select::<Digest>(order, config.spec_digests(), remote.hashes) {
                Err(e) => Err(e),
                Ok(hash) => Ok((exchange, cipher, hash)),
            },
        },
    }
}

/// What a peer settles once the two digests are known: `remote_side` is the
/// digest of (remote key, local nonce), `local_side` that of (local key,
/// remote nonce). Their order decides whose lists are preferred, and each
/// of the three lists must have a common supported entry
/// (`NoSupportIntersection`). Where the lists agree and the digests are
/// equal, no side can be told from the other and the handshake ends
/// (`ConnectSelf`).
pub open spec fn spec_settle(
    config: Config,
    remote: ProposeView,
    remote_key: Seq<u8>,
    remote_side: Seq<u8>,
    local_side: Seq<u8>,
) -> Result<NegotiatedView, SecioError> {
    let order = lex_order(remote_side, local_side);
    match spec_choose(order, config, remote) {
        Err(e) => Err(e),
        Ok((exchange, cipher, hash)) => if order == HashOrder::Equal {
            Err(SecioError::ConnectSelf)
        } else {
            Ok(
                NegotiatedView {
                    public_key: remote_key,
                    nonce: remote.rand,
                    hashes_ordering: order,
                    chosen_exchange: exchange,
                    chosen_cipher: cipher,
                    chosen_hash: hash,
                },
            )
        },
    }
}

/// What a peer in state `local` makes of the remote's proposition bytes.
///
/// The bytes must parse as a proposition and its key field as a public key
/// (`HandshakeParsingFailure`). The key must differ from ours
/// (`ConnectSelf`). The rest is settled by the SHA-256 digests of (remote
/// key, local nonce) and of (local key, remote nonce): see `spec_settle`.
pub open spec fn spec_negotiate(config: Config, local: Local, remote_bytes: Seq<u8>) -> Result<
    NegotiatedView,
    SecioError,
> {
    match decode_propose(remote_bytes) {
        None => Err(SecioError::HandshakeParsingFailure),
        Some(propose) => match decode_public_key(propose.pubkey) {
            None => Err(SecioError::HandshakeParsingFailure),
            Some(remote_key) => if remote_key == config.key.public_key@ {
                Err(SecioError::ConnectSelf)
            } else {
                spec_settle(
                    config,
                    propose,
                    remote_key,
                    sha256(remote_key + local.nonce@),
                    sha256(local.public_key@ + propose.rand),
                )
            },
        },
    }
}

/// Selects the three algorithms for a handshake with order `order`.
pub fn choose_algorithms(order: HashOrder, config: &Config, remote: &Propose) -> (r: Result<
    (KeyAgreement, Cipher, Digest),
    SecioError,
>)
    ensures
        r == spec_choose(order, *config, remote@),
{
    let exchange = match select_agreement(order, config.agreements(), remote.exchange.as_str()) {
        Ok(a) => a,
        Err(e) => {
            return Err(e);
        },
    };
    let cipher = match select_cipher(order, config.cipher_list(), remote.ciphers.as_str()) {
        Ok(a) => a,
        Err(e) => {
            return Err(e);
        },
    };
    let hash = match select_digest(order, config.digest_list(), remote.hashes.as_str()) {
        Ok(a) => a,
        Err(e) => {
            return Err(e);
        },
    };
    Ok((exchange, cipher, hash))
}

/// Settles the handshake once the two digests are known: `remote_side` is
/// the digest of (remote key, local nonce), `local_side` that of (local
/// key, remote nonce).
pub fn settle(
    config: &Config,
    remote: Propose,
    public_key: PublicKey,
    remote_side: &[u8],
    local_side: &[u8],
) -> (r: Result<Negotiated, SecioError>)
    ensures
        match r {
            Ok(n) => spec_settle(*config, remote@, public_key@, remote_side@, local_side@) == Ok::<
                NegotiatedView,
                SecioError,
            >(n@),
            Err(e) => spec_settle(*config, remote@, public_key@, remote_side@, local_side@)
                == Err::<NegotiatedView, SecioError>(e),
        },
{
    let hashes_ordering = HashOrder::of(remote_side, local_side);
    let (chosen_exchange, chosen_cipher, chosen_hash) = match choose_algorithms(
        hashes_ordering,
        config,
        &remote,
    ) {
        Ok(chosen) => chosen,
        Err(e) => {
            return Err(e);
        },
    };
    if hashes_ordering == HashOrder::Equal {
        return Err(SecioError::ConnectSelf);
    }
    Ok(
        Negotiated {
            public_key,
            nonce: remote.rand,
            hashes_ordering,
            chosen_exchange,
            chosen_cipher,
            chosen_hash,
        },
    )
}

/// Processes the remote's proposition bytes for a peer in state `local`.
pub fn negotiate(config: &Config, local: &Local, remote_bytes: &[u8]) -> (r: Result<
    Negotiated,
    SecioError,
>)
    ensures
        match r {
            Ok(n) => spec_negotiate(*config, *local, remote_bytes@) == Ok::<
                NegotiatedView,
                SecioError,
            >(n@),
            Err(e) => spec_negotiate(*config, *local, remote_bytes@) == Err::<
                NegotiatedView,
                SecioError,
            >(e),
        },
{
    let propose = match Propose::decode(remote_bytes) {
        Some(propose) => propose,
        None => {
            return Err(SecioError::HandshakeParsingFailure);
        },
    };
    let public_key = match PublicKey::decode(propose.pubkey.as_slice()) {
        Some(key) => key,
        None => {
            return Err(SecioError::HandshakeParsingFailure);
        },
    };
    if public_key.same_key(&config.key.to_public_key()) {
        return Err(SecioError::ConnectSelf);
    }
    let remote_side = sha256_digest(
        octets::concat(public_key.inner_ref().as_slice(), &local.nonce).as_slice(),
    );
    let local_side = sha256_digest(
        octets::concat(local.public_key.as_slice(), propose.rand.as_slice()).as_slice(),
    );
    settle(config, propose, public_key, remote_side.as_slice(), local_side.as_slice())
}

impl HandshakeContext<()> {
    /// The context of a handshake that has not started.
    pub fn new(config: Config) -> (ctx: Self)
        ensures
            ctx.config == config,
    {
        HandshakeContext { config, state: () }
    }

    /// Makes the local proposition with a fresh random nonce.
    pub fn with_local(self) -> (ctx: HandshakeContext<Local>)
        ensures
            ctx.config == self.config,
            ctx.state.wf(self.config),
    {
        let nonce = random_nonce();
        self.with_local_nonce(nonce)
    }

    /// Makes the local proposition with the nonce `nonce`.
    pub fn with_local_nonce(self, nonce: [u8; 16]) -> (ctx: HandshakeContext<Local>)
        ensures
            ctx.config == self.config,
            ctx.state.nonce == nonce,
            ctx.state.wf(self.config),
    {
        let public_key = self.config.key.to_public_key();
        let proposition = Propose {
            rand: octets::copy(&nonce),
            pubkey: public_key.encode(),
            exchange: self.config.agreements().to_owned(),
            ciphers: self.config.cipher_list().to_owned(),
            hashes: self.config.digest_list().to_owned(),
        };
        let proposition_bytes = proposition.encode();
        assert(proposition@ == local_proposition(self.config, nonce@));
        HandshakeContext {
            config: self.config,
            state: Local {
                nonce,
                public_key: octets::copy(public_key.inner_ref().as_slice()),
                proposition_bytes,
            },
        }
    }
}

impl HandshakeContext<Local> {
    /// Processes the remote's proposition.
    pub fn with_remote(self, remote_bytes: BytesMut) -> (r: Result<
        HandshakeContext<Remote>,
        SecioError,
    >)
        ensures
            match r {
                Ok(ctx) => {
                    &&& spec_negotiate(self.config, self.state, bytes_mut_contents(remote_bytes))
                        == Ok::<NegotiatedView, SecioError>(ctx.state.negotiated())
                    &&& ctx.config == self.config
                    &&& ctx.state.local == self.state
                    &&& ctx.state.proposition_bytes == remote_bytes
                },
                Err(e) => spec_negotiate(self.config, self.state, bytes_mut_contents(remote_bytes))
                    == Err::<NegotiatedView, SecioError>(e),
            },
    {
        let negotiated = match negotiate(
            &self.config,
            &self.state,
            bytes_mut_as_slice(&remote_bytes),
        ) {
            Ok(n) => n,
            Err(e) => {
                return Err(e);
            },
        };
        Ok(
            HandshakeContext {
                config: self.config,
                state: Remote {
                    local: self.state,
                    proposition_bytes: remote_bytes,
                    public_key: negotiated.public_key,
                    nonce: negotiated.nonce,
                    hashes_ordering: negotiated.hashes_ordering,
                    chosen_exchange: negotiated.chosen_exchange,
                    chosen_cipher: negotiated.chosen_cipher,
                    chosen_hash: negotiated.chosen_hash,
                },
            },
        )
    }
}

impl HandshakeContext<Remote> {
    /// Adds the ephemeral key pair of this handshake.
    pub fn with_ephemeral(self, sk: EphemeralPrivateKey, pk: Vec<u8>) -> (ctx: HandshakeContext<
        Ephemeral,
    >)
        ensures
            ctx.config == self.config,
            ctx.state.remote == self.state,
            ctx.state.local_tmp_priv_key == sk,
            ctx.state.local_tmp_pub_key == pk,
    {
        HandshakeContext {
            config: self.config,
            state: Ephemeral { remote: self.state, local_tmp_priv_key: sk, local_tmp_pub_key: pk },
        }
    }
}

impl HandshakeContext<Ephemeral> {
    /// Takes the ephemeral private key out of the context, for the one key
    /// agreement that it may be used for.
    pub fn take_private_key(self) -> (r: (HandshakeContext<PubEphemeral>, EphemeralPrivateKey))
        ensures
            r.0.config == self.config,
            r.0.state.remote == self.state.remote,
            r.0.state.local_tmp_pub_key == self.state.local_tmp_pub_key,
            r.1 == self.state.local_tmp_priv_key,
    {
        let context = HandshakeContext {
            config: self.config,
            state: PubEphemeral {
                remote: self.state.remote,
                local_tmp_pub_key: self.state.local_tmp_pub_key,
            },
        };
        (context, self.state.local_tmp_priv_key)
    }
}

/// A peer that is shown its own public key refuses the handshake: whatever
/// else a well-formed proposition holds, if its key is ours the outcome is
/// `ConnectSelf`.
pub proof fn lemma_connect_self(config: Config, local: Local, remote: ProposeView)
    requires
        remote.valid(),
        remote.pubkey == encode_public_key(config.key.public_key@),
    ensures
        spec_negotiate(config, local, encode_propose(remote)) == Err::<NegotiatedView, SecioError>(
            SecioError::ConnectSelf,
        ),
{
    lemma_propose_roundtrip(remote);
    lemma_public_key_roundtrip(config.key.public_key@);
}

/// The two peers of one handshake see opposite orders.
pub proof fn lemma_hashes_order_opposite(
    a_key: Seq<u8>,
    a_nonce: Seq<u8>,
    b_key: Seq<u8>,
    b_nonce: Seq<u8>,
)
    ensures
        hashes_order(b_key, b_nonce, a_key, a_nonce) == hashes_order(
            a_key,
            a_nonce,
            b_key,
            b_nonce,
        ).spec_reverse(),
{
    lemma_lex_order_reverse(sha256(b_key + a_nonce), sha256(a_key + b_nonce));
}

/// Whether each of the three lists of `config` has a supported entry in
/// common with the list of the proposition `remote`.
pub open spec fn proposals_overlap(config: Config, remote: ProposeView) -> bool {
    &&& overlap::<KeyAgreement>(config.spec_agreements(), remote.exchange)
    &&& overlap::<Cipher>(config.spec_ciphers(), remote.ciphers)
    &&& overlap::<Digest>(config.spec_digests(), remote.hashes)
}

/// The three selections succeed exactly when each of the three lists has a
/// supported entry in common with the remote's, whatever the order; and
/// when they fail, they fail with `NoSupportIntersection`.
pub proof fn lemma_choose_outcome(order: HashOrder, config: Config, remote: ProposeView)
    ensures
        spec_choose(order, config, remote) is Ok <==> proposals_overlap(config, remote),
        spec_choose(order, config, remote) is Err ==> spec_choose(order, config, remote) == Err::<
            (KeyAgreement, Cipher, Digest),
            SecioError,
        >(SecioError::NoSupportIntersection),
{
    lemma_select_outcome::<KeyAgreement>(order, config.spec_agreements(), remote.exchange);
    lemma_select_outcome::<Cipher>(order, config.spec_ciphers(), remote.ciphers);
    lemma_select_outcome::<Digest>(order, config.spec_digests(), remote.hashes);
}

/// When the handshake with a remote goes on and when it ends, and how.
///
/// It ends with `HandshakeParsingFailure` exactly when the bytes are not a
/// proposition or its key field is not a public key. Of a proposition that
/// parses: it ends with `ConnectSelf` exactly when the key is ours, or the
/// lists overlap and the two digests are equal; it ends with
/// `NoSupportIntersection` exactly when the key is not ours and one of the
/// three lists has no supported entry in common with the remote's, whatever
/// the other two hold; and it goes on exactly when the key is not ours,
/// the lists overlap and the digests differ.
pub proof fn lemma_negotiate_outcome(config: Config, local: Local, remote_bytes: Seq<u8>)
    ensures
        ({
            let outcome = spec_negotiate(config, local, remote_bytes);
            let parsed = decode_propose(remote_bytes) matches Some(p) && decode_public_key(
                p.pubkey,
            ) is Some;
            &&& outcome == Err::<NegotiatedView, SecioError>(SecioError::HandshakeParsingFailure)
                <==> !parsed
            &&& parsed ==> {
                let p = decode_propose(remote_bytes)->0;
                let key = decode_public_key(p.pubkey)->0;
                let own = key == config.key.public_key@;
                let same_digest = sha256(key + local.nonce@) == sha256(
                    local.public_key@ + p.rand,
                );
                &&& outcome == Err::<NegotiatedView, SecioError>(SecioError::ConnectSelf) <==> own
                    || (proposals_overlap(config, p) && same_digest)
                &&& outcome == Err::<NegotiatedView, SecioError>(
                    SecioError::NoSupportIntersection,
                ) <==> !own && !proposals_overlap(config, p)
                &&& outcome is Ok <==> !own && proposals_overlap(config, p) && !same_digest
            }
        }),
{
    match decode_propose(remote_bytes) {
        Some(p) => match decode_public_key(p.pubkey) {
            Some(key) => {
                let remote_side = sha256(key + local.nonce@);
                let local_side = sha256(local.public_key@ + p.rand);
                lemma_lex_order_equal(remote_side, local_side);
                lemma_choose_outcome(lex_order(remote_side, local_side), config, p);
            },
            None => {},
        },
        None => {},
    }
}

/// Two peers that process each other's propositions come to the same end.
/// Either both fail, with the same error, or both succeed; then each holds
/// the other's key and nonce, their orders are opposite and not `Equal`,
/// and they have selected the same key agreement, cipher and digest.
pub proof fn lemma_peers_converge(a_config: Config, a: Local, b_config: Config, b: Local)
    requires
        a.wf(a_config),
        b.wf(b_config),
    ensures
        match spec_negotiate(a_config, a, b.proposition_bytes@) {
            Ok(x) => match spec_negotiate(b_config, b, a.proposition_bytes@) {
                Ok(y) => {
                    &&& x.public_key == b.public_key@
                    &&& x.nonce == b.nonce@
                    &&& y.public_key == a.public_key@
                    &&& y.nonce == a.nonce@
                    &&& x.hashes_ordering != HashOrder::Equal
                    &&& y.hashes_ordering == x.hashes_ordering.spec_reverse()
                    &&& y.chosen_exchange == x.chosen_exchange
                    &&& y.chosen_cipher == x.chosen_cipher
                    &&& y.chosen_hash == x.chosen_hash
                },
                Err(_) => false,
            },
            Err(e) => spec_negotiate(b_config, b, a.proposition_bytes@) == Err::<
                NegotiatedView,
                SecioError,
            >(e),
        },
{
    let pa = local_proposition(a_config, a.nonce@);
    let pb = local_proposition(b_config, b.nonce@);
    lemma_propose_roundtrip(pa);
    lemma_propose_roundtrip(pb);
    lemma_public_key_roundtrip(a_config.key.public_key@);
    lemma_public_key_roundtrip(b_config.key.public_key@);
    lemma_hashes_order_opposite(a.public_key@, a.nonce@, b.public_key@, b.nonce@);
    let order = hashes_order(a.public_key@, a.nonce@, b.public_key@, b.nonce@);
    if a.public_key@ != b.public_key@ {
        if order != HashOrder::Equal {
            lemma_select_converges::<KeyAgreement>(order, pa.exchange, pb.exchange);
            lemma_select_converges::<Cipher>(order, pa.ciphers, pb.ciphers);
            lemma_select_converges::<Digest>(order, pa.hashes, pb.hashes);
        } else {
            // Neither side goes on; whether the lists overlap does not
            // depend on the side that asks.
            lemma_choose_outcome(order, a_config, pb);
            lemma_choose_outcome(order, b_config, pa);
            lemma_overlap_symmetric::<KeyAgreement>(pa.exchange, pb.exchange);
            lemma_overlap_symmetric::<Cipher>(pa.ciphers, pb.ciphers);
            lemma_overlap_symmetric::<Digest>(pa.hashes, pb.hashes);
        }
    }
}

/// Honest peers with overlapping proposals complete the negotiation: if
/// the keys differ, each of the three lists of one peer has a supported
/// entry in common with the other's, and the digest of (one key, other
/// nonce) differs from the digest of (other key, one nonce), both peers
/// succeed.
pub proof fn lemma_honest_peers_complete(a_config: Config, a: Local, b_config: Config, b: Local)
    requires
        a.wf(a_config),
        b.wf(b_config),
        a.public_key@ != b.public_key@,
        proposals_overlap(a_config, local_proposition(b_config, b.nonce@)),
        sha256(b.public_key@ + a.nonce@) != sha256(a.public_key@ + b.nonce@),
    ensures
        spec_negotiate(a_config, a, b.proposition_bytes@) is Ok,
        spec_negotiate(b_config, b, a.proposition_bytes@) is Ok,
{
    lemma_propose_roundtrip(local_proposition(b_config, b.nonce@));
    lemma_public_key_roundtrip(b_config.key.public_key@);
    lemma_negotiate_outcome(a_config, a, b.proposition_bytes@);
    lemma_peers_converge(a_config, a, b_config, b);
}

} // verus!
