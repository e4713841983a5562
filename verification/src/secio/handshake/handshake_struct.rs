//! The handshake messages and their wire form. A message is a record: its
//! fields in schema order, each written as an 8-byte big-endian length
//! followed by that many bytes, and nothing after the last field.

use vstd::prelude::*;
use vstd::slice::slice_to_vec;
use vstd::utf8::{decode_utf8, encode_utf8, valid_utf8};
use crate::octets;
use crate::codec::{
    be_bytes, be_value, lemma_be_bytes_len, lemma_be_roundtrip, lemma_pow256_values, pow256,
    push_be, read_be,
};

verus! {

/// `std::string::FromUtf8Error`, of which only the occurrence is used.
#[verifier::external_type_specification]
#[verifier::external_body]
pub struct ExFromUtf8Error(std::string::FromUtf8Error);

/// `String::from_utf8` succeeds exactly on well-formed UTF-8, and the string
/// it returns is written by the bytes it was given.
pub assume_specification[ String::from_utf8 ](vec: Vec<u8>) -> (r: Result<
    String,
    std::string::FromUtf8Error,
>)
    ensures
        r is Ok <==> valid_utf8(vec@),
        r matches Ok(s) ==> encode_utf8(s@) == vec@,
;

/// Width of the length that precedes each field.
pub const FIELD_PREFIX_LEN: usize = 8;

/// One field on the wire.
pub open spec fn field(data: Seq<u8>) -> Seq<u8> {
    be_bytes(data.len(), 8) + data
}

/// The first field of `buf` and the bytes that follow it, if `buf` starts
/// with a complete field.
pub open spec fn take_field(buf: Seq<u8>) -> Option<(Seq<u8>, Seq<u8>)> {
    if buf.len() < 8 {
        None
    } else {
        let len = be_value(buf.take(8));
        if buf.len() - 8 < len {
            None
        } else {
            Some((buf.subrange(8, 8 + len as int), buf.skip(8 + len as int)))
        }
    }
}

/// The wire form of a record with the given fields.
pub open spec fn record(fields: Seq<Seq<u8>>) -> Seq<u8>
    decreases fields.len(),
{
    if fields.len() == 0 {
        Seq::empty()
    } else {
        field(fields[0]) + record(fields.drop_first())
    }
}

/// The fields of a record of exactly `count` fields that fills `buf`.
pub open spec fn take_fields(buf: Seq<u8>, count: nat) -> Option<Seq<Seq<u8>>>
    decreases count,
{
    if count == 0 {
        if buf.len() == 0 {
            Some(Seq::empty())
        } else {
            None
        }
    } else {
        match take_field(buf) {
            None => None,
            Some((data, rest)) => match take_fields(rest, (count - 1) as nat) {
                None => None,
                Some(more) => Some(seq![data] + more),
            },
        }
    }
}

/// Whether every field is short enough for its length to be written.
pub open spec fn fields_fit(fields: Seq<Seq<u8>>) -> bool {
    forall|i: int| 0 <= i < fields.len() ==> (#[trigger] fields[i]).len() < pow256(8)
}

/// A field is read back from the front of whatever it was written before.
pub proof fn lemma_take_field(data: Seq<u8>, rest: Seq<u8>)
    requires
        data.len() < pow256(8),
    ensures
        take_field(field(data) + rest) == Some((data, rest)),
{
    let buf = field(data) + rest;
    lemma_be_bytes_len(data.len(), 8);
    lemma_be_roundtrip(data.len(), 8);
    assert(buf.take(8) == be_bytes(data.len(), 8));
    assert(buf.subrange(8, 8 + data.len() as int) == data);
    assert(buf.skip(8 + data.len() as int) == rest);
}

/// Reading a written record gives its fields back.
pub proof fn lemma_record_roundtrip(fields: Seq<Seq<u8>>)
    requires
        fields_fit(fields),
    ensures
        take_fields(record(fields), fields.len()) == Some(fields),
    decreases fields.len(),
{
    if fields.len() > 0 {
        let rest = fields.drop_first();
        assert(fields_fit(rest)) by {
            assert forall|i: int| 0 <= i < rest.len() implies (#[trigger] rest[i]).len() < pow256(
                8,
            ) by {
                assert(rest[i] == fields[i + 1]);
            }
        }
        lemma_record_roundtrip(rest);
        lemma_take_field(fields[0], record(rest));
        assert(seq![fields[0]] + rest == fields);
    } else {
        assert(fields == Seq::<Seq<u8>>::empty());
    }
}

/// Appends one field that holds `data` to `dst`.
pub fn push_field(dst: &mut Vec<u8>, data: &[u8])
    ensures
        final(dst)@ == old(dst)@ + field(data@),
        data@.len() < pow256(8),
{
    proof {
        lemma_pow256_values();
    }
    push_be(dst, data.len() as u64, FIELD_PREFIX_LEN);
    let mut i: usize = 0;
    while i < data.len()
        invariant
            i <= data.len(),
            dst@ == old(dst)@ + be_bytes(data@.len(), 8) + data@.take(i as int),
        decreases data.len() - i,
    {
        dst.push(data[i]);
        i += 1;
        assert(data@.take(i as int) == data@.take(i as int - 1).push(data@[i as int - 1]));
    }
    assert(data@.take(data.len() as int) == data@);
}

/// Reads the field of `buf` that starts at `pos`, and says where the next
/// one starts.
pub fn read_field(buf: &[u8], pos: usize) -> (r: Option<(Vec<u8>, usize)>)
    requires
        pos <= buf@.len(),
    ensures
        match r {
            Some((data, next)) => pos <= next <= buf@.len() && take_field(buf@.skip(pos as int))
                == Some((data@, buf@.skip(next as int))),
            None => take_field(buf@.skip(pos as int)) is None,
        },
{
    let ghost tail = buf@.skip(pos as int);
    if buf.len() - pos < FIELD_PREFIX_LEN {
        return None;
    }
    let len = read_be(buf, pos, FIELD_PREFIX_LEN);
    assert(buf@.subrange(pos as int, pos + 8) == tail.take(8));
    let room = buf.len() - pos - FIELD_PREFIX_LEN;
    if (room as u64) < len {
        return None;
    }
    let len = len as usize;
    let start = pos + FIELD_PREFIX_LEN;
    let data = slice_to_vec(vstd::slice::slice_subrange(buf, start, start + len));
    assert(buf@.subrange(start as int, start + len) == tail.subrange(8, 8 + len));
    assert(buf@.skip(start + len) == tail.skip(8 + len));
    Some((data, start + len))
}

/// The byte strings that a vector of fields holds.
pub open spec fn fields_view(fields: Seq<Vec<u8>>) -> Seq<Seq<u8>> {
    fields.map_values(|f: Vec<u8>| f@)
}

/// Reads a record of exactly `count` fields that fills `buf`.
pub fn read_record(buf: &[u8], count: usize) -> (r: Option<Vec<Vec<u8>>>)
    ensures
        match r {
            Some(fields) => take_fields(buf@, count as nat) == Some(fields_view(fields@)),
            None => take_fields(buf@, count as nat) is None,
        },
{
    let mut fields: Vec<Vec<u8>> = Vec::new();
    let mut pos: usize = 0;
    let mut i: usize = 0;
    assert(buf@.skip(0) == buf@);
    assert(Seq::<Seq<u8>>::empty() + fields_view(fields@) == fields_view(fields@));
    while i < count
        invariant
            i <= count,
            pos <= buf@.len(),
            fields@.len() == i,
            take_fields(buf@, count as nat) == match take_fields(
                buf@.skip(pos as int),
                (count - i) as nat,
            ) {
                Some(more) => Some(fields_view(fields@) + more),
                None => None,
            },
        decreases count - i,
    {
        match read_field(buf, pos) {
            None => {
                return None;
            },
            Some((data, next)) => {
                proof {
                    let ghost before = fields_view(fields@);
                    let ghost after = fields_view(fields@.push(data));
                    assert(after == before.push(data@));
                    match take_fields(buf@.skip(next as int), (count - i - 1) as nat) {
                        Some(more) => {
                            assert(before + (seq![data@] + more) == after + more);
                        },
                        None => {},
                    }
                }
                fields.push(data);
                pos = next;
                i += 1;
            },
        }
    }
    if pos != buf.len() {
        return None;
    }
    assert(buf@.skip(pos as int).len() == 0);
    assert(fields_view(fields@) + Seq::<Seq<u8>>::empty() == fields_view(fields@));
    Some(fields)
}

/// The first message of either side: a nonce, the long-term public key and
/// the three algorithm proposals.
#[derive(Debug, PartialEq, Eq)]
pub struct Propose {
    pub rand: Vec<u8>,
    pub pubkey: Vec<u8>,
    pub exchange: String,
    pub ciphers: String,
    pub hashes: String,
}

/// What a [`Propose`] holds.
pub struct ProposeView {
    pub rand: Seq<u8>,
    pub pubkey: Seq<u8>,
    pub exchange: Seq<char>,
    pub ciphers: Seq<char>,
    pub hashes: Seq<char>,
}

impl View for Propose {
    type V = ProposeView;

    open spec fn view(&self) -> ProposeView {
        ProposeView {
            rand: self.rand@,
            pubkey: self.pubkey@,
            exchange: self.exchange@,
            ciphers: self.ciphers@,
            hashes: self.hashes@,
        }
    }
}

impl ProposeView {
    /// The five fields in schema order, the texts in UTF-8.
    pub open spec fn fields(self) -> Seq<Seq<u8>> {
        seq![
            self.rand,
            self.pubkey,
            encode_utf8(self.exchange),
            encode_utf8(self.ciphers),
            encode_utf8(self.hashes),
        ]
    }

    /// Whether the proposition can be written: every field is shorter than
    /// `2^64` bytes.
    pub open spec fn valid(self) -> bool {
        fields_fit(self.fields())
    }
}

/// The wire form of a proposition.
pub open spec fn encode_propose(p: ProposeView) -> Seq<u8> {
    record(p.fields())
}

/// The proposition that `buf` is the wire form of, if it is one: a record
/// of five fields, the last three of them well-formed UTF-8.
pub open spec fn decode_propose(buf: Seq<u8>) -> Option<ProposeView> {
    match take_fields(buf, 5) {
        None => None,
        Some(fields) => if valid_utf8(fields[2]) && valid_utf8(fields[3]) && valid_utf8(fields[4]) {
            Some(
                ProposeView {
                    rand: fields[0],
                    pubkey: fields[1],
                    exchange: decode_utf8(fields[2]),
                    ciphers: decode_utf8(fields[3]),
                    hashes: decode_utf8(fields[4]),
                },
            )
        } else {
            None
        },
    }
}

/// `take_fields` returns as many fields as it was asked for.
pub proof fn lemma_take_fields_len(buf: Seq<u8>, count: nat)
    ensures
        take_fields(buf, count) matches Some(fields) ==> fields.len() == count,
    decreases count,
{
    if count > 0 {
        match take_field(buf) {
            None => {},
            Some((data, rest)) => {
                lemma_take_fields_len(rest, (count - 1) as nat);
            },
        }
    }
}

/// Decoding the wire form of a valid proposition gives the proposition.
pub proof fn lemma_propose_roundtrip(p: ProposeView)
    requires
        p.valid(),
    ensures
        decode_propose(encode_propose(p)) == Some(p),
{
    broadcast use vstd::utf8::encode_utf8_valid_utf8, vstd::utf8::encode_utf8_decode_utf8;

    lemma_record_roundtrip(p.fields());
    let decoded = decode_propose(encode_propose(p));
    assert(valid_utf8(encode_utf8(p.exchange)));
    assert(valid_utf8(encode_utf8(p.ciphers)));
    assert(valid_utf8(encode_utf8(p.hashes)));
    assert(decode_utf8(encode_utf8(p.exchange)) == p.exchange);
    assert(decode_utf8(encode_utf8(p.ciphers)) == p.ciphers);
    assert(decode_utf8(encode_utf8(p.hashes)) == p.hashes);
}

impl Propose {
    /// A proposition with every field empty.
    pub fn new() -> (p: Propose)
        ensures
            p@ == (ProposeView {
                rand: Seq::empty(),
                pubkey: Seq::empty(),
                exchange: Seq::empty(),
                ciphers: Seq::empty(),
                hashes: Seq::empty(),
            }),
    {
        Propose {
            rand: Vec::new(),
            pubkey: Vec::new(),
            exchange: String::new(),
            ciphers: String::new(),
            hashes: String::new(),
        }
    }

    /// The wire form of the proposition.
    pub fn encode(&self) -> (bytes: Vec<u8>)
        ensures
            bytes@ == encode_propose(self@),
            self@.valid(),
    {
        let mut bytes: Vec<u8> = Vec::new();
        push_field(&mut bytes, self.rand.as_slice());
        push_field(&mut bytes, self.pubkey.as_slice());
        push_field(&mut bytes, self.exchange.as_str().as_bytes());
        push_field(&mut bytes, self.ciphers.as_str().as_bytes());
        push_field(&mut bytes, self.hashes.as_str().as_bytes());
        proof {
            reveal_with_fuel(record, 6);
            let f = self@.fields();
            assert(f.drop_first().drop_first().drop_first().drop_first().drop_first().len() == 0);
            assert(bytes@ == record(f));
        }
        bytes
    }

    /// Parses the wire form of a proposition.
    pub fn decode(data: &[u8]) -> (r: Option<Propose>)
        ensures
            match r {
                Some(p) => decode_propose(data@) == Some(p@),
                None => decode_propose(data@) is None,
            },
    {
        broadcast use vstd::utf8::encode_utf8_decode_utf8;

        let mut fields = match read_record(data, 5) {
            None => {
                return None;
            },
            Some(fields) => fields,
        };
        proof {
            lemma_take_fields_len(data@, 5);
        }
        let ghost all = fields_view(fields@);
        assert(all.len() == 5);
        assert(all[0] == fields@[0]@ && all[1] == fields@[1]@ && all[2] == fields@[2]@ && all[3]
            == fields@[3]@ && all[4] == fields@[4]@);
        let hashes = fields.pop().unwrap();
        let ciphers = fields.pop().unwrap();
        let exchange = fields.pop().unwrap();
        let pubkey = fields.pop().unwrap();
        let rand = fields.pop().unwrap();
        let exchange = match String::from_utf8(exchange) {
            Ok(s) => s,
            Err(_) => {
                return None;
            },
        };
        let ciphers = match String::from_utf8(ciphers) {
            Ok(s) => s,
            Err(_) => {
                return None;
            },
        };
        let hashes = match String::from_utf8(hashes) {
            Ok(s) => s,
            Err(_) => {
                return None;
            },
        };
        Some(Propose { rand, pubkey, exchange, ciphers, hashes })
    }
}

/// A long-term public key.
#[derive(Debug, PartialEq, Eq)]
pub enum PublicKey {
    /// A secp256k1 key in its serialized form.
    Secp256k1(Vec<u8>),
}

impl View for PublicKey {
    type V = Seq<u8>;

    /// The bytes of the key.
    open spec fn view(&self) -> Seq<u8> {
        match *self {
            PublicKey::Secp256k1(key) => key@,
        }
    }
}

/// The byte that announces a secp256k1 key on the wire.
pub const KEY_TYPE_SECP256K1: u8 = 0;

/// The wire form of a public key: the key type, then the key.
pub open spec fn encode_public_key(key: Seq<u8>) -> Seq<u8> {
    seq![KEY_TYPE_SECP256K1] + key
}

/// The key that `buf` is the wire form of, if it is one.
pub open spec fn decode_public_key(buf: Seq<u8>) -> Option<Seq<u8>> {
    if buf.len() >= 1 && buf[0] == KEY_TYPE_SECP256K1 {
        Some(buf.skip(1))
    } else {
        None
    }
}

/// Decoding the wire form of a key gives the key.
pub proof fn lemma_public_key_roundtrip(key: Seq<u8>)
    ensures
        decode_public_key(encode_public_key(key)) == Some(key),
{
    assert(encode_public_key(key).skip(1) == key);
}

impl Clone for PublicKey {
    fn clone(&self) -> (r: Self)
        ensures
            r@ == self@,
    {
        match self {
            PublicKey::Secp256k1(key) => PublicKey::Secp256k1(octets::copy(key.as_slice())),
        }
    }
}

impl PublicKey {
    /// The bytes of the key.
    pub fn inner_ref(&self) -> (key: &Vec<u8>)
        ensures
            key@ == self@,
    {
        match self {
            PublicKey::Secp256k1(key) => key,
        }
    }

    /// Whether `other` is the same key.
    pub fn same_key(&self, other: &PublicKey) -> (r: bool)
        ensures
            r == (self@ == other@),
    {
        octets::same(self.inner_ref().as_slice(), other.inner_ref().as_slice())
    }

    /// The wire form of the key.
    pub fn encode(&self) -> (bytes: Vec<u8>)
        ensures
            bytes@ == encode_public_key(self@),
    {
        let mut bytes: Vec<u8> = Vec::new();
        bytes.push(KEY_TYPE_SECP256K1);
        octets::append(&mut bytes, self.inner_ref().as_slice());
        bytes
    }

    /// Parses the wire form of a key.
    pub fn decode(data: &[u8]) -> (r: Option<PublicKey>)
        ensures
            match r {
                Some(key) => decode_public_key(data@) == Some(key@),
                None => decode_public_key(data@) is None,
            },
    {
        if data.len() >= 1 && data[0] == KEY_TYPE_SECP256K1 {
            let key = slice_to_vec(vstd::slice::slice_subrange(data, 1, data.len()));
            assert(data@.subrange(1, data@.len() as int) == data@.skip(1));
            Some(PublicKey::Secp256k1(key))
        } else {
            None
        }
    }
}

/// The second message of either side: the ephemeral public key and the
/// signature that binds it to both propositions.
#[derive(Debug, PartialEq, Eq)]
pub struct Exchange {
    pub epubkey: Vec<u8>,
    pub signature: Vec<u8>,
}

/// What an [`Exchange`] holds.
pub struct ExchangeView {
    pub epubkey: Seq<u8>,
    pub signature: Seq<u8>,
}

impl View for Exchange {
    type V = ExchangeView;

    open spec fn view(&self) -> ExchangeView {
        ExchangeView { epubkey: self.epubkey@, signature: self.signature@ }
    }
}

impl ExchangeView {
    /// The two fields in schema order.
    pub open spec fn fields(self) -> Seq<Seq<u8>> {
        seq![self.epubkey, self.signature]
    }

    /// Whether the message can be written: every field is shorter than
    /// `2^64` bytes.
    pub open spec fn valid(self) -> bool {
        fields_fit(self.fields())
    }
}

/// The wire form of an exchange message.
pub open spec fn encode_exchange(e: ExchangeView) -> Seq<u8> {
    record(e.fields())
}

/// The exchange message that `buf` is the wire form of, if it is one.
pub open spec fn decode_exchange(buf: Seq<u8>) -> Option<ExchangeView> {
    match take_fields(buf, 2) {
        None => None,
        Some(fields) => Some(ExchangeView { epubkey: fields[0], signature: fields[1] }),
    }
}

/// Decoding the wire form of a valid exchange message gives the message.
pub proof fn lemma_exchange_roundtrip(e: ExchangeView)
    requires
        e.valid(),
    ensures
        decode_exchange(encode_exchange(e)) == Some(e),
{
    lemma_record_roundtrip(e.fields());
}

impl Exchange {
    /// An exchange message with both fields empty.
    pub fn new() -> (e: Exchange)
        ensures
            e@ == (ExchangeView { epubkey: Seq::empty(), signature: Seq::empty() }),
    {
        Exchange { epubkey: Vec::new(), signature: Vec::new() }
    }

    /// The wire form of the message.
    pub fn encode(&self) -> (bytes: Vec<u8>)
        ensures
            bytes@ == encode_exchange(self@),
            self@.valid(),
    {
        let mut bytes: Vec<u8> = Vec::new();
        push_field(&mut bytes, self.epubkey.as_slice());
        push_field(&mut bytes, self.signature.as_slice());
        proof {
            reveal_with_fuel(record, 3);
            let f = self@.fields();
            assert(f.drop_first().drop_first().len() == 0);
            assert(bytes@ == record(f));
        }
        bytes
    }

    /// Parses the wire form of an exchange message.
    pub fn decode(data: &[u8]) -> (r: Option<Exchange>)
        ensures
            match r {
                Some(e) => decode_exchange(data@) == Some(e@),
                None => decode_exchange(data@) is None,
            },
    {
        let mut fields = match read_record(data, 2) {
            None => {
                return None;
            },
            Some(fields) => fields,
        };
        proof {
            lemma_take_fields_len(data@, 2);
        }
        let ghost all = fields_view(fields@);
        assert(all.len() == 2);
        assert(all[0] == fields@[0]@ && all[1] == fields@[1]@);
        let signature = fields.pop().unwrap();
        let epubkey = fields.pop().unwrap();
        Some(Exchange { epubkey, signature })
    }
}

} // verus!
