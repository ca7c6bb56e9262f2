//! Transactions: a transfer of an amount between two accounts, optionally
//! carrying a signed datum. The id is the SHA-256 of the canonical signed
//! bytes, so it is a function of the content.

use vstd::prelude::*;
use crate::crypto::{ed25519_accepts, ed25519_public_key, ed25519_signature, sha256, sha256_digest, PublicKey, SecretKey, Signature};
use crate::encoding::{decimal, decimal_string, encode_hex, hex_encoding, le_bytes_u64, push_bytes, push_text, push_u64_le, utf8};

verus! {

/// Amounts are integers in the smallest indivisible unit.
pub type Amount = u64;

/// Largest datum, in bytes, a transaction may carry. A consensus rule: it
/// holds for blocks from peers as much as for submissions.
pub const MAX_PAYLOAD_BYTES: usize = 4096;

/// Marks the start of a datum inside the signed bytes.
pub const PAYLOAD_TAG: u8 = 1;

/// The text of an optional string.
pub open spec fn text_of(value: Option<String>) -> Option<Seq<char>> {
    match value {
        Some(text) => Some(text@),
        None => None,
    }
}

/// The text of an optional string slice.
pub open spec fn str_text_of(value: Option<&str>) -> Option<Seq<char>> {
    match value {
        Some(text) => Some(text@),
        None => None,
    }
}

/// Domain separation for transaction signatures.
pub open spec fn transaction_domain() -> Seq<u8> {
    utf8("blockrock.transaction.v1"@)
}

/// A length-prefixed field: its byte length as eight little-endian bytes,
/// then its UTF-8 bytes.
pub open spec fn length_prefixed(text: Seq<char>) -> Seq<u8> {
    le_bytes_u64(utf8(text).len() as u64) + utf8(text)
}

/// Nothing for a transaction without datum; otherwise the tag and the
/// length-prefixed datum, so that an empty datum differs from none.
pub open spec fn payload_section(data: Option<Seq<char>>) -> Seq<u8> {
    match data {
        None => Seq::empty(),
        Some(text) => seq![PAYLOAD_TAG] + length_prefixed(text),
    }
}

/// The canonical bytes a sender signs.
pub open spec fn signing_bytes(
    sender: Seq<char>,
    receiver: Seq<char>,
    amount: u64,
    nonce: u64,
    data: Option<Seq<char>>,
) -> Seq<u8> {
    transaction_domain() + length_prefixed(sender) + length_prefixed(receiver) + le_bytes_u64(amount)
        + le_bytes_u64(nonce) + payload_section(data)
}

/// The id of a transaction with these contents: lower-case hexadecimal
/// SHA-256 of its signed bytes.
pub open spec fn transaction_id(
    sender: Seq<char>,
    receiver: Seq<char>,
    amount: u64,
    nonce: u64,
    data: Option<Seq<char>>,
) -> Seq<char> {
    hex_encoding(sha256_digest(signing_bytes(sender, receiver, amount, nonce, data)))
}

fn push_length_prefixed(out: &mut Vec<u8>, text: &str)
    ensures
        final(out)@ == old(out)@ + length_prefixed(text@),
{
    let bytes: &[u8] = text.as_bytes();
    push_u64_le(out, bytes.len() as u64);
    push_bytes(out, bytes);
    assert(final(out)@ =~= old(out)@ + length_prefixed(text@));
}

/// Canonical bytes a sender signs. Every variable-length field is
/// length-prefixed, so ("ab", "c") and ("a", "bc") cannot collide.
pub fn signing_payload(
    sender: &str,
    receiver: &str,
    amount: Amount,
    nonce: u64,
    data: Option<&str>,
) -> (payload: Vec<u8>)
    ensures
        payload@ == signing_bytes(sender@, receiver@, amount, nonce, str_text_of(data)),
{
    let mut payload: Vec<u8> = Vec::new();
    push_text(&mut payload, "blockrock.transaction.v1");
    push_length_prefixed(&mut payload, sender);
    push_length_prefixed(&mut payload, receiver);
    push_u64_le(&mut payload, amount);
    push_u64_le(&mut payload, nonce);
    match data {
        Some(text) => {
            payload.push(PAYLOAD_TAG);
            push_length_prefixed(&mut payload, text);
        },
        None => {},
    }
    assert(payload@ =~= signing_bytes(sender@, receiver@, amount, nonce, str_text_of(data)));
    payload
}

#[derive(Debug, PartialEq)]
pub struct Transaction {
    /// Hash of the signed payload: derived from the content, never random.
    pub id: String,
    pub sender: String,
    pub receiver: String,
    pub amount: Amount,
    /// Per-sender sequence number, starting at 0.
    pub nonce: u64,
    /// A datum signed together with the rest, such as a sensor reading.
    pub payload: Option<String>,
    pub signature: Option<Signature>,
}

impl Clone for Transaction {
    fn clone(&self) -> (copy: Self)
        ensures
            copy == *self,
    {
        let payload = match &self.payload {
            Some(text) => Some(text.clone()),
            None => None,
        };
        Transaction {
            id: self.id.clone(),
            sender: self.sender.clone(),
            receiver: self.receiver.clone(),
            amount: self.amount,
            nonce: self.nonce,
            payload,
            signature: self.signature,
        }
    }
}

impl Transaction {
    /// The bytes this transaction's signature covers.
    pub open spec fn spec_signing_bytes(self) -> Seq<u8> {
        signing_bytes(self.sender@, self.receiver@, self.amount, self.nonce, text_of(self.payload))
    }

    /// The id this transaction's content determines.
    pub open spec fn content_id(self) -> Seq<char> {
        transaction_id(self.sender@, self.receiver@, self.amount, self.nonce, text_of(self.payload))
    }

    pub open spec fn id_matches(self) -> bool {
        self.id@ == self.content_id()
    }

    /// The id matches the content and `key` accepts the signature over it.
    pub open spec fn verified_by(self, key: Seq<u8>) -> bool {
        &&& self.id_matches()
        &&& self.signature matches Some(signature)
        &&& ed25519_accepts(key, self.spec_signing_bytes(), signature.bytes@)
    }

    /// Size of the datum in bytes; zero without one.
    pub open spec fn spec_payload_size(self) -> nat {
        match self.payload {
            Some(text) => utf8(text@).len(),
            None => 0,
        }
    }

    /// What the transaction weighs in the mempool: the length of its signed bytes.
    pub open spec fn spec_weight(self) -> nat {
        self.spec_signing_bytes().len()
    }

    /// Builds and signs a transaction locally.
    pub fn new(
        sender: String,
        receiver: String,
        amount: Amount,
        nonce: u64,
        signing_key: &SecretKey,
    ) -> (transaction: Transaction)
        ensures
            transaction.sender == sender,
            transaction.receiver == receiver,
            transaction.amount == amount,
            transaction.nonce == nonce,
            transaction.payload is None,
            transaction.id_matches(),
            transaction.verified_by(ed25519_public_key(signing_key.seed@)),
    {
        Self::new_with_payload(sender, receiver, amount, nonce, None, signing_key)
    }

    /// Like [`Transaction::new`], but carrying a datum signed with the rest.
    pub fn new_with_payload(
        sender: String,
        receiver: String,
        amount: Amount,
        nonce: u64,
        payload: Option<String>,
        signing_key: &SecretKey,
    ) -> (transaction: Transaction)
        ensures
            transaction.sender == sender,
            transaction.receiver == receiver,
            transaction.amount == amount,
            transaction.nonce == nonce,
            transaction.payload == payload,
            transaction.id_matches(),
            transaction.signature matches Some(signature) && signature.bytes@ == ed25519_signature(
                signing_key.seed@,
                transaction.spec_signing_bytes(),
            ),
            transaction.verified_by(ed25519_public_key(signing_key.seed@)),
    {
        let mut transaction = Self::unsigned_with_payload(sender, receiver, amount, nonce, payload);
        let bytes = transaction.signing_payload();
        let signature = signing_key.sign(bytes.as_slice());
        transaction.signature = Some(signature);
        transaction
    }

    /// Rebuilds a transaction a client signed offline: the id is recomputed
    /// here, so a client cannot choose it.
    pub fn signed(
        sender: String,
        receiver: String,
        amount: Amount,
        nonce: u64,
        signature: Signature,
    ) -> (transaction: Transaction)
        ensures
            transaction.sender == sender,
            transaction.receiver == receiver,
            transaction.amount == amount,
            transaction.nonce == nonce,
            transaction.payload is None,
            transaction.signature == Some(signature),
            transaction.id_matches(),
    {
        Self::signed_with_payload(sender, receiver, amount, nonce, None, signature)
    }

    /// Like [`Transaction::signed`], for a transaction carrying a datum.
    pub fn signed_with_payload(
        sender: String,
        receiver: String,
        amount: Amount,
        nonce: u64,
        payload: Option<String>,
        signature: Signature,
    ) -> (transaction: Transaction)
        ensures
            transaction.sender == sender,
            transaction.receiver == receiver,
            transaction.amount == amount,
            transaction.nonce == nonce,
            transaction.payload == payload,
            transaction.signature == Some(signature),
            transaction.id_matches(),
    {
        let mut transaction = Self::unsigned_with_payload(sender, receiver, amount, nonce, payload);
        transaction.signature = Some(signature);
        transaction
    }

    pub fn unsigned(sender: String, receiver: String, amount: Amount, nonce: u64) -> (transaction:
        Transaction)
        ensures
            transaction.sender == sender,
            transaction.receiver == receiver,
            transaction.amount == amount,
            transaction.nonce == nonce,
            transaction.payload is None,
            transaction.signature is None,
            transaction.id_matches(),
    {
        Self::unsigned_with_payload(sender, receiver, amount, nonce, None)
    }

    pub fn unsigned_with_payload(
        sender: String,
        receiver: String,
        amount: Amount,
        nonce: u64,
        payload: Option<String>,
    ) -> (transaction: Transaction)
        ensures
            transaction.sender == sender,
            transaction.receiver == receiver,
            transaction.amount == amount,
            transaction.nonce == nonce,
            transaction.payload == payload,
            transaction.signature is None,
            transaction.id_matches(),
    {
        let id = {
            let data: Option<&str> = match &payload {
                Some(text) => Some(text.as_str()),
                None => None,
            };
            Self::compute_id(sender.as_str(), receiver.as_str(), amount, nonce, data)
        };
        Transaction { id, sender, receiver, amount, nonce, payload, signature: None }
    }

    /// The bytes this transaction's signature covers.
    pub fn signing_payload(&self) -> (payload: Vec<u8>)
        ensures
            payload@ == self.spec_signing_bytes(),
    {
        let data: Option<&str> = match &self.payload {
            Some(text) => Some(text.as_str()),
            None => None,
        };
        signing_payload(self.sender.as_str(), self.receiver.as_str(), self.amount, self.nonce, data)
    }

    /// Lower-case hexadecimal SHA-256 of the signed bytes of these contents.
    pub fn compute_id(
        sender: &str,
        receiver: &str,
        amount: Amount,
        nonce: u64,
        payload: Option<&str>,
    ) -> (id: String)
        ensures
            id@ == transaction_id(sender@, receiver@, amount, nonce, str_text_of(payload)),
    {
        let bytes = signing_payload(sender, receiver, amount, nonce, payload);
        let digest = sha256(bytes.as_slice());
        encode_hex(digest.as_slice())
    }

    /// The id is a function of the content, so tampering is detectable even
    /// before checking the signature.
    pub fn has_valid_id(&self) -> (valid: bool)
        ensures
            valid == self.id_matches(),
    {
        let data: Option<&str> = match &self.payload {
            Some(text) => Some(text.as_str()),
            None => None,
        };
        let expected = Self::compute_id(self.sender.as_str(), self.receiver.as_str(), self.amount, self.nonce, data);
        self.id == expected
    }

    /// Whether the id matches the content and `verifying_key` accepts the
    /// signature over it.
    pub fn verify(&self, verifying_key: &PublicKey) -> (valid: bool)
        ensures
            valid == self.verified_by(verifying_key.bytes@),
    {
        match &self.signature {
            Some(signature) => {
                if !self.has_valid_id() {
                    return false;
                }
                let bytes = self.signing_payload();
                verifying_key.verify(bytes.as_slice(), signature)
            },
            None => false,
        }
    }

    /// Size of the datum in bytes; zero without one.
    pub fn payload_size(&self) -> (size: usize)
        ensures
            size == self.spec_payload_size(),
    {
        match &self.payload {
            Some(text) => text.as_str().as_bytes().len(),
            None => 0,
        }
    }

    /// Whether the datum fits within [`MAX_PAYLOAD_BYTES`].
    pub fn payload_within_limit(&self) -> (within: bool)
        ensures
            within == (self.spec_payload_size() <= MAX_PAYLOAD_BYTES),
    {
        self.payload_size() <= MAX_PAYLOAD_BYTES
    }

    /// A one-line account of the transaction: who pays whom, how much, with
    /// which nonce, and its id.
    pub fn description(&self) -> (text: String)
        ensures
            text@ == "Transaction: "@ + self.sender@ + " -> "@ + self.receiver@ + " ("@ + decimal(self.amount as nat)
                + ", nonce: "@ + decimal(self.nonce as nat) + ", id: "@ + self.id@ + ")"@,
    {
        let mut text = "Transaction: ".to_owned();
        text.append(self.sender.as_str());
        text.append(" -> ");
        text.append(self.receiver.as_str());
        text.append(" (");
        text.append(decimal_string(self.amount).as_str());
        text.append(", nonce: ");
        text.append(decimal_string(self.nonce).as_str());
        text.append(", id: ");
        text.append(self.id.as_str());
        text.append(")");
        text
    }

    /// What the transaction weighs in the mempool: the length of its signed bytes.
    pub fn weight(&self) -> (weight: usize)
        ensures
            weight == self.spec_weight(),
    {
        self.signing_payload().len()
    }
}

/// Eight little-endian bytes determine the number they encode.
pub proof fn lemma_le_bytes_u64_injective(a: u64, b: u64)
    requires
        le_bytes_u64(a) == le_bytes_u64(b),
    ensures
        a == b,
{
    assert(le_bytes_u64(a)[0] == le_bytes_u64(b)[0]);
    assert(le_bytes_u64(a)[1] == le_bytes_u64(b)[1]);
    assert(le_bytes_u64(a)[2] == le_bytes_u64(b)[2]);
    assert(le_bytes_u64(a)[3] == le_bytes_u64(b)[3]);
    assert(le_bytes_u64(a)[4] == le_bytes_u64(b)[4]);
    assert(le_bytes_u64(a)[5] == le_bytes_u64(b)[5]);
    assert(le_bytes_u64(a)[6] == le_bytes_u64(b)[6]);
    assert(le_bytes_u64(a)[7] == le_bytes_u64(b)[7]);
    assert(a == b) by (bit_vector)
        requires
            (a & 0xff) as u8 == (b & 0xff) as u8,
            ((a >> 8u64) & 0xff) as u8 == ((b >> 8u64) & 0xff) as u8,
            ((a >> 16u64) & 0xff) as u8 == ((b >> 16u64) & 0xff) as u8,
            ((a >> 24u64) & 0xff) as u8 == ((b >> 24u64) & 0xff) as u8,
            ((a >> 32u64) & 0xff) as u8 == ((b >> 32u64) & 0xff) as u8,
            ((a >> 40u64) & 0xff) as u8 == ((b >> 40u64) & 0xff) as u8,
            ((a >> 48u64) & 0xff) as u8 == ((b >> 48u64) & 0xff) as u8,
            ((a >> 56u64) & 0xff) as u8 == ((b >> 56u64) & 0xff) as u8,
    ;
}

/// Two texts with the same UTF-8 bytes are the same text.
pub proof fn lemma_utf8_injective(s: Seq<char>, t: Seq<char>)
    requires
        utf8(s) == utf8(t),
    ensures
        s == t,
{
    vstd::utf8::encode_utf8_decode_utf8(s);
    vstd::utf8::encode_utf8_decode_utf8(t);
}

/// A common prefix can be cancelled.
proof fn lemma_cancel_prefix(prefix: Seq<u8>, x: Seq<u8>, y: Seq<u8>)
    requires
        prefix + x == prefix + y,
    ensures
        x == y,
{
    assert(x =~= (prefix + x).subrange(prefix.len() as int, (prefix + x).len() as int));
    assert(y =~= (prefix + y).subrange(prefix.len() as int, (prefix + y).len() as int));
}

/// A length-prefixed field is read back unambiguously from the front of a
/// byte string, together with what follows it.
proof fn lemma_length_prefixed_split(s: Seq<char>, x: Seq<u8>, t: Seq<char>, y: Seq<u8>)
    requires
        length_prefixed(s) + x == length_prefixed(t) + y,
        utf8(s).len() <= u64::MAX,
        utf8(t).len() <= u64::MAX,
    ensures
        s == t,
        x == y,
{
    let bytes = length_prefixed(s) + x;
    let (es, et) = (utf8(s), utf8(t));
    assert(bytes.subrange(0, 8) =~= le_bytes_u64(es.len() as u64));
    assert((length_prefixed(t) + y).subrange(0, 8) =~= le_bytes_u64(et.len() as u64));
    lemma_le_bytes_u64_injective(es.len() as u64, et.len() as u64);
    assert(es.len() == et.len());
    assert(bytes.subrange(8, 8 + es.len() as int) =~= es);
    assert((length_prefixed(t) + y).subrange(8, 8 + et.len() as int) =~= et);
    lemma_utf8_injective(s, t);
    lemma_cancel_prefix(length_prefixed(s), x, y);
}

/// The datum section determines the datum.
proof fn lemma_payload_section_injective(data: Option<Seq<char>>, other_data: Option<Seq<char>>)
    requires
        data matches Some(text) ==> utf8(text).len() <= u64::MAX,
        other_data matches Some(text) ==> utf8(text).len() <= u64::MAX,
        payload_section(data) == payload_section(other_data),
    ensures
        data == other_data,
{
    match (data, other_data) {
        (Some(text), Some(other_text)) => {
            assert(payload_section(data) =~= seq![PAYLOAD_TAG] + (length_prefixed(text) + Seq::<u8>::empty()));
            assert(payload_section(other_data) =~= seq![PAYLOAD_TAG] + (length_prefixed(other_text)
                + Seq::<u8>::empty()));
            lemma_cancel_prefix(
                seq![PAYLOAD_TAG],
                length_prefixed(text) + Seq::<u8>::empty(),
                length_prefixed(other_text) + Seq::<u8>::empty(),
            );
            lemma_length_prefixed_split(text, Seq::<u8>::empty(), other_text, Seq::<u8>::empty());
        },
        (Some(text), None) => {
            assert(payload_section(data).len() > 0);
        },
        (None, Some(other_text)) => {
            assert(payload_section(other_data).len() > 0);
        },
        (None, None) => {},
    }
}

/// Amount, nonce and datum, in this order, determine one another's bytes.
proof fn lemma_numbers_and_payload_injective(
    amount: u64,
    nonce: u64,
    data: Option<Seq<char>>,
    other_amount: u64,
    other_nonce: u64,
    other_data: Option<Seq<char>>,
)
    requires
        data matches Some(text) ==> utf8(text).len() <= u64::MAX,
        other_data matches Some(text) ==> utf8(text).len() <= u64::MAX,
        le_bytes_u64(amount) + (le_bytes_u64(nonce) + payload_section(data)) == le_bytes_u64(other_amount) + (
        le_bytes_u64(other_nonce) + payload_section(other_data)),
    ensures
        amount == other_amount,
        nonce == other_nonce,
        data == other_data,
{
    let rest = le_bytes_u64(nonce) + payload_section(data);
    let other_rest = le_bytes_u64(other_nonce) + payload_section(other_data);
    assert((le_bytes_u64(amount) + rest).subrange(0, 8) =~= le_bytes_u64(amount));
    assert((le_bytes_u64(other_amount) + other_rest).subrange(0, 8) =~= le_bytes_u64(other_amount));
    lemma_le_bytes_u64_injective(amount, other_amount);
    lemma_cancel_prefix(le_bytes_u64(amount), rest, other_rest);
    assert(rest.subrange(0, 8) =~= le_bytes_u64(nonce));
    assert(other_rest.subrange(0, 8) =~= le_bytes_u64(other_nonce));
    lemma_le_bytes_u64_injective(nonce, other_nonce);
    lemma_cancel_prefix(le_bytes_u64(nonce), payload_section(data), payload_section(other_data));
    lemma_payload_section_injective(data, other_data);
}

/// Concatenation regrouped to the right.
proof fn lemma_regroup(a: Seq<u8>, b: Seq<u8>, c: Seq<u8>, d: Seq<u8>, e: Seq<u8>, f: Seq<u8>)
    ensures
        a + b + c + d + e + f == a + (b + (c + (d + (e + f)))),
{
    assert(a + b + c + d + e + f =~= a + (b + (c + (d + (e + f)))));
}

/// The signed bytes determine every field they cover: each text is
/// length-prefixed, so no two different transactions sign the same bytes,
/// and a transaction without datum signs other bytes than one with an empty
/// datum. (Lengths beyond 64 bits cannot be written down and are left out.)
pub proof fn lemma_signing_bytes_injective(
    sender: Seq<char>,
    receiver: Seq<char>,
    amount: u64,
    nonce: u64,
    data: Option<Seq<char>>,
    other_sender: Seq<char>,
    other_receiver: Seq<char>,
    other_amount: u64,
    other_nonce: u64,
    other_data: Option<Seq<char>>,
)
    requires
        utf8(sender).len() <= u64::MAX,
        utf8(receiver).len() <= u64::MAX,
        data matches Some(text) ==> utf8(text).len() <= u64::MAX,
        utf8(other_sender).len() <= u64::MAX,
        utf8(other_receiver).len() <= u64::MAX,
        other_data matches Some(text) ==> utf8(text).len() <= u64::MAX,
        signing_bytes(sender, receiver, amount, nonce, data) == signing_bytes(
            other_sender,
            other_receiver,
            other_amount,
            other_nonce,
            other_data,
        ),
    ensures
        sender == other_sender,
        receiver == other_receiver,
        amount == other_amount,
        nonce == other_nonce,
        data == other_data,
{
    let tail = le_bytes_u64(amount) + (le_bytes_u64(nonce) + payload_section(data));
    let other_tail = le_bytes_u64(other_amount) + (le_bytes_u64(other_nonce) + payload_section(other_data));
    let after_sender = length_prefixed(receiver) + tail;
    let other_after_sender = length_prefixed(other_receiver) + other_tail;
    lemma_regroup(
        transaction_domain(),
        length_prefixed(sender),
        length_prefixed(receiver),
        le_bytes_u64(amount),
        le_bytes_u64(nonce),
        payload_section(data),
    );
    lemma_regroup(
        transaction_domain(),
        length_prefixed(other_sender),
        length_prefixed(other_receiver),
        le_bytes_u64(other_amount),
        le_bytes_u64(other_nonce),
        payload_section(other_data),
    );
    lemma_cancel_prefix(
        transaction_domain(),
        length_prefixed(sender) + after_sender,
        length_prefixed(other_sender) + other_after_sender,
    );
    lemma_length_prefixed_split(sender, after_sender, other_sender, other_after_sender);
    lemma_length_prefixed_split(receiver, tail, other_receiver, other_tail);
    lemma_numbers_and_payload_injective(amount, nonce, data, other_amount, other_nonce, other_data);
}

/// Without a datum the signed bytes are exactly the domain, the two
/// length-prefixed names, the amount and the nonce: no byte is added for
/// the absent datum, so what was signed before data existed still verifies.
pub proof fn lemma_plain_signing_length(sender: Seq<char>, receiver: Seq<char>, amount: u64, nonce: u64)
    ensures
        signing_bytes(sender, receiver, amount, nonce, None).len() == transaction_domain().len() + (8
            + utf8(sender).len()) + (8 + utf8(receiver).len()) + 8 + 8,
{
}

/// A datum only appends to the bytes its transaction would sign without
/// one: the tag 1, the datum's byte length as eight little-endian bytes, and
/// its UTF-8 bytes.
pub proof fn lemma_datum_appends_to_plain(sender: Seq<char>, receiver: Seq<char>, amount: u64, nonce: u64, data: Seq<char>)
    ensures
        signing_bytes(sender, receiver, amount, nonce, Some(data)) == signing_bytes(sender, receiver, amount, nonce, None)
            + seq![PAYLOAD_TAG] + le_bytes_u64(utf8(data).len() as u64) + utf8(data),
{
    assert(signing_bytes(sender, receiver, amount, nonce, Some(data)) =~= signing_bytes(
        sender,
        receiver,
        amount,
        nonce,
        None,
    ) + seq![PAYLOAD_TAG] + le_bytes_u64(utf8(data).len() as u64) + utf8(data));
}

} // verus!
