//! What the node's API does with a request before and after it touches the
//! chain: decoding signatures and keys, building transactions from
//! submissions, registering accounts and describing them.

use vstd::prelude::*;
use crate::blockchain::Blockchain;
use crate::crypto::{ed25519_point_valid, PublicKey, Signature};
use crate::encoding::{copy_to_32, copy_to_64, decode_hex, encode_hex, hex_decoding, hex_encoding, is_hex_text, utf8};
use crate::ledger::{mint_account, value_or_zero, MINT_ACCOUNT};
use crate::node::{retry_after_seconds, SubmitError, BLOCK_TIME_SECS};
use crate::text::{trim, trimmed};
use crate::transaction::{text_of, Amount, Transaction};

verus! {

/// The body of a refused request.
#[derive(Debug)]
pub struct ApiError {
    pub error: String,
}

/// A transaction signed by its sender, as submitted by a client.
#[derive(Debug)]
pub struct SubmitTransaction {
    pub sender: String,
    pub receiver: String,
    /// Amount in the smallest indivisible unit.
    pub amount: Amount,
    /// Must equal the sender's next nonce.
    pub nonce: u64,
    /// Hex-encoded ed25519 signature over the canonical transaction payload.
    pub signature: String,
}

#[derive(Debug)]
pub struct TransactionAccepted {
    pub id: String,
    /// Number of transactions waiting in the mempool, this one included.
    pub pending: usize,
}

#[derive(Debug)]
pub struct RegisterAccount {
    pub name: String,
    /// Hex-encoded ed25519 public key, 32 bytes.
    pub public_key: String,
}

#[derive(Debug)]
pub struct AccountState {
    pub name: String,
    pub balance: Amount,
    /// Nonce the next transaction from this account must carry.
    pub next_nonce: u64,
    pub public_key: Option<String>,
}

/// A sensor reading signed by the sensor, to be anchored on chain.
#[derive(Debug)]
pub struct CommitReading {
    /// Account of the sensor; it must have a registered public key.
    pub sensor_id: String,
    /// The value exactly as it was signed.
    pub value: String,
    /// Next nonce of the sensor.
    pub nonce: u64,
    /// Hex ed25519 signature over the canonical transaction payload.
    pub signature: String,
}

#[derive(Debug)]
pub struct ReadingCommitted {
    /// Id of the transaction carrying the reading.
    pub id: String,
    pub pending: usize,
}

/// Why a request was refused, with the status it is answered with.
#[derive(Debug, PartialEq)]
pub enum Refusal {
    /// The request is malformed or breaks a rule.
    BadRequest(String),
    /// The request conflicts with what the node holds.
    Conflict(String),
    /// The request names something the node does not know.
    NotFound(String),
    /// The node is full for now; retrying after `retry_after` seconds makes sense.
    TooManyRequests { message: String, retry_after: u64 },
    /// The node failed.
    Internal(String),
}

/// The bytes hexadecimal text spells once trimmed, when it spells some.
pub open spec fn trimmed_hex(text: Seq<char>) -> Option<Seq<u8>> {
    if is_hex_text(utf8(trimmed(text))) {
        Some(hex_decoding(utf8(trimmed(text))))
    } else {
        None
    }
}

/// Decodes a hex signature (surrounding white space ignored).
pub fn decode_signature(signature: &str) -> (decoded: Result<Signature, String>)
    ensures
        match trimmed_hex(signature@) {
            None => decoded matches Err(message) && "signature is not valid hex: "@.is_prefix_of(message@),
            Some(bytes) => if bytes.len() == 64 {
                decoded matches Ok(sig) && sig.bytes@ == bytes
            } else {
                decoded matches Err(message) && message@ == "signature must be 64 bytes"@
            },
        },
{
    let text = trim(signature);
    let bytes = match decode_hex(text.as_str()) {
        Ok(bytes) => bytes,
        Err(reason) => {
            let mut message = "signature is not valid hex: ".to_owned();
            message.append(reason.as_str());
            return Err(message);
        },
    };
    if bytes.len() != 64 {
        return Err("signature must be 64 bytes".to_owned());
    }
    Ok(Signature { bytes: copy_to_64(&bytes) })
}

/// Decodes a hex public key (surrounding white space ignored) and checks it
/// is a point of the curve.
pub fn decode_public_key(public_key: &str) -> (decoded: Result<PublicKey, String>)
    ensures
        match trimmed_hex(public_key@) {
            None => decoded matches Err(message) && "public key is not valid hex: "@.is_prefix_of(message@),
            Some(bytes) => if bytes.len() != 32 {
                decoded matches Err(message) && message@ == "public key must be 32 bytes"@
            } else if !ed25519_point_valid(bytes) {
                decoded matches Err(message) && "invalid ed25519 public key: "@.is_prefix_of(message@)
            } else {
                decoded matches Ok(key) && key.bytes@ == bytes
            },
        },
{
    let text = trim(public_key);
    let bytes = match decode_hex(text.as_str()) {
        Ok(bytes) => bytes,
        Err(reason) => {
            let mut message = "public key is not valid hex: ".to_owned();
            message.append(reason.as_str());
            return Err(message);
        },
    };
    if bytes.len() != 32 {
        return Err("public key must be 32 bytes".to_owned());
    }
    let key = PublicKey { bytes: copy_to_32(&bytes) };
    match key.check() {
        Ok(()) => Ok(key),
        Err(reason) => {
            let mut message = "invalid ed25519 public key: ".to_owned();
            message.append(reason.as_str());
            Err(message)
        },
    }
}

impl SubmitTransaction {
    /// The transaction the submission describes, its id recomputed here.
    pub fn into_transaction(self) -> (transaction: Result<Transaction, String>)
        ensures
            match trimmed_hex(self.signature@) {
                Some(bytes) if bytes.len() == 64 => transaction matches Ok(tx) && {
                    &&& tx.sender == self.sender
                    &&& tx.receiver == self.receiver
                    &&& tx.amount == self.amount
                    &&& tx.nonce == self.nonce
                    &&& tx.payload is None
                    &&& tx.signature matches Some(sig) && sig.bytes@ == bytes
                    &&& tx.id_matches()
                },
                _ => transaction is Err,
            },
    {
        let signature = decode_signature(self.signature.as_str())?;
        Ok(Transaction::signed(self.sender, self.receiver, self.amount, self.nonce, signature))
    }
}

impl CommitReading {
    /// The reading as a transaction of amount zero from the sensor to
    /// itself: it moves no value but stays on chain, signed.
    pub fn into_transaction(self) -> (transaction: Result<Transaction, String>)
        ensures
            match trimmed_hex(self.signature@) {
                Some(bytes) if bytes.len() == 64 => transaction matches Ok(tx) && {
                    &&& tx.sender == self.sensor_id
                    &&& tx.receiver == self.sensor_id
                    &&& tx.amount == 0
                    &&& tx.nonce == self.nonce
                    &&& tx.payload == Some(self.value)
                    &&& tx.signature matches Some(sig) && sig.bytes@ == bytes
                    &&& tx.id_matches()
                },
                _ => transaction is Err,
            },
    {
        let signature = decode_signature(self.signature.as_str())?;
        let sensor = self.sensor_id;
        Ok(Transaction::signed_with_payload(sensor.clone(), sensor, 0, self.nonce, Some(self.value), signature))
    }
}

/// The registered key of `name` in hexadecimal, if it has one.
pub open spec fn key_text(blockchain: Blockchain, name: Seq<char>) -> Option<Seq<char>> {
    if blockchain.public_keys@.contains_key(name) {
        Some(hex_encoding(blockchain.public_keys@[name].bytes@))
    } else {
        None
    }
}

/// Balance, next nonce and registered key of `name`: everything a client
/// needs to build a transaction.
pub fn account_state(blockchain: &Blockchain, name: String) -> (state: AccountState)
    ensures
        state.name == name,
        state.balance == value_or_zero(blockchain.balances@, name@),
        state.next_nonce == value_or_zero(blockchain.nonces@, name@),
        text_of(state.public_key) == key_text(*blockchain, name@),
{
    let balance = blockchain.balance_of(name.as_str());
    let next_nonce = blockchain.next_nonce(name.as_str());
    let public_key = match blockchain.public_key(name.as_str()) {
        Some(key) => Some(encode_hex(key.bytes.as_slice())),
        None => None,
    };
    AccountState { name, balance, next_nonce, public_key }
}

/// The state of a known account: one with a registered key or a balance.
pub fn find_account(blockchain: &Blockchain, name: &str) -> (found: Result<AccountState, Refusal>)
    ensures
        blockchain.public_keys@.contains_key(name@) || blockchain.balances@.contains_key(name@) ==> (found matches Ok(
            state,
        ) && state.name@ == name@ && state.balance == value_or_zero(blockchain.balances@, name@)
            && state.next_nonce == value_or_zero(blockchain.nonces@, name@) && text_of(state.public_key) == key_text(
            *blockchain,
            name@,
        )),
        !(blockchain.public_keys@.contains_key(name@) || blockchain.balances@.contains_key(name@)) ==> (found
            matches Err(Refusal::NotFound(message)) && message@ == "unknown account '"@ + name@ + "'"@),
{
    if blockchain.public_key(name).is_none() && !blockchain.balances.contains_key(name) {
        let mut message = "unknown account '".to_owned();
        message.append(name);
        message.append("'");
        return Err(Refusal::NotFound(message));
    }
    Ok(account_state(blockchain, name.to_owned()))
}

/// Registers the public key transactions from an account are verified
/// against. The mint account is reserved, and the first registration wins:
/// rebinding a name to another key is refused.
pub fn register_account(blockchain: &mut Blockchain, registration: RegisterAccount) -> (outcome: Result<
    AccountState,
    Refusal,
>)
    ensures
        ({
            let name = registration.name@;
            let known = old(blockchain).public_keys@;
            if name == mint_account() {
                &&& outcome matches Err(Refusal::BadRequest(message)) && message@ == "'"@ + mint_account() + "' is reserved by the node"@
                &&& final(blockchain).same_as(*old(blockchain))
            } else {
                match trimmed_hex(registration.public_key@) {
                    Some(bytes) if bytes.len() == 32 && ed25519_point_valid(bytes) => if known.contains_key(name)
                        && known[name].bytes@ != bytes {
                        &&& outcome matches Err(Refusal::Conflict(message)) && message@ == "'"@ + name
                            + "' is already bound to another key"@
                        &&& final(blockchain).same_as(*old(blockchain))
                    } else {
                        &&& outcome matches Ok(state) && state.name == registration.name
                        &&& final(blockchain).public_keys@.contains_key(name)
                        &&& final(blockchain).public_keys@[name].bytes@ == bytes
                        &&& final(blockchain).public_keys@ == known.insert(name, final(blockchain).public_keys@[name])
                        &&& final(blockchain).blocks@ == old(blockchain).blocks@
                        &&& final(blockchain).authorities@ == old(blockchain).authorities@
                        &&& final(blockchain).balances@ == old(blockchain).balances@
                        &&& final(blockchain).nonces@ == old(blockchain).nonces@
                        &&& final(blockchain).mempool@ == old(blockchain).mempool@
                    },
                    _ => outcome matches Err(Refusal::BadRequest(_)) && final(blockchain).same_as(*old(blockchain)),
                }
            }
        }),
{
    if registration.name == MINT_ACCOUNT.to_owned() {
        let mut message = "'".to_owned();
        message.append(MINT_ACCOUNT);
        message.append("' is reserved by the node");
        return Err(Refusal::BadRequest(message));
    }
    let public_key = match decode_public_key(registration.public_key.as_str()) {
        Ok(key) => key,
        Err(message) => {
            return Err(Refusal::BadRequest(message));
        },
    };
    match blockchain.public_key(registration.name.as_str()) {
        Some(existing) => {
            if !existing.same_as(&public_key) {
                let mut message = "'".to_owned();
                message.append(registration.name.as_str());
                message.append("' is already bound to another key");
                return Err(Refusal::Conflict(message));
            }
        },
        None => {},
    }
    blockchain.add_public_key(registration.name.as_str(), public_key);
    Ok(account_state(blockchain, registration.name))
}

/// How a refused submission is answered: a malformed request is a bad
/// request, a full node asks to retry after the next block, a failure of
/// the node is an internal error.
pub fn refusal_of(error: SubmitError) -> (refusal: Refusal)
    ensures
        match error {
            SubmitError::Rejected(message) => refusal == Refusal::BadRequest(message),
            SubmitError::Busy(message) => refusal == (Refusal::TooManyRequests {
                message,
                retry_after: if BLOCK_TIME_SECS >= 1 { BLOCK_TIME_SECS } else { 1 },
            }),
            SubmitError::Internal(message) => refusal == Refusal::Internal(message),
        },
{
    match error {
        SubmitError::Rejected(message) => Refusal::BadRequest(message),
        SubmitError::Busy(message) => Refusal::TooManyRequests { message, retry_after: retry_after_seconds() },
        SubmitError::Internal(message) => Refusal::Internal(message),
    }
}

} // verus!
