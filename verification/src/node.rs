//! The node around the chain: its identity, where its chain is stored, the
//! single path by which a transaction enters the chain, and small policies
//! of its main loop.

use vstd::prelude::*;
use crate::blockchain::Blockchain;
use crate::crypto::SecretKey;
use crate::encoding::copy_to_32;
use crate::error::{chain_error_message, ChainError};
use crate::ledger::{chain_ids, mint_account, MINT_ACCOUNT};
use crate::mempool::{queue_outcome, sorted_by_sender_nonce};
use crate::transaction::Transaction;

verus! {

/// Seconds between two periodic seals of the mempool.
pub const BLOCK_TIME_SECS: u64 = 5;

/// The authority this node seals its blocks with.
pub struct NodeIdentity {
    pub name: String,
    pub signing_key: SecretKey,
}

impl NodeIdentity {
    /// The identity whose key is the seed read from its key file. The file
    /// holds the raw 32-byte ed25519 seed; content of any other length is no
    /// seed.
    pub fn from_seed_bytes(name: String, bytes: &Vec<u8>) -> (identity: Option<NodeIdentity>)
        ensures
            identity is Some <==> bytes@.len() == 32,
            identity matches Some(found) ==> found.name == name && found.signing_key.seed@ == bytes@,
    {
        if bytes.len() != 32 {
            return None;
        }
        Some(NodeIdentity { name, signing_key: SecretKey::from_bytes(copy_to_32(bytes)) })
    }
}

/// Where the chain lives on disk. Every accepted block is written through
/// before a request returns, so a restart resumes from the same tip.
#[derive(Debug, Clone)]
pub struct ChainStore {
    path: String,
}

impl ChainStore {
    pub closed spec fn spec_path(&self) -> Seq<char> {
        self.path@
    }

    pub fn new(path: String) -> (store: ChainStore)
        ensures
            store.spec_path() == path@,
    {
        ChainStore { path }
    }

    pub fn path(&self) -> (path: &String)
        ensures
            path@ == self.spec_path(),
    {
        &self.path
    }
}

/// A transaction accepted: its id and how many wait in the mempool.
#[derive(Debug)]
pub struct Queued {
    pub id: String,
    pub pending: usize,
}

/// Tells a malformed request from a failure of the node, so that each
/// interface answers with its own code without guessing.
#[derive(Debug, PartialEq)]
pub enum SubmitError {
    /// The caller is wrong: signature, nonce, funds, duplicate.
    Rejected(String),
    /// The node is full for now: retrying after the next block makes sense.
    Busy(String),
    /// The node failed, for instance a block it could not seal.
    Internal(String),
}

impl SubmitError {
    /// The explanation carried by the error.
    pub fn message(&self) -> (text: &String)
        ensures
            text == match self {
                SubmitError::Rejected(message) => message,
                SubmitError::Busy(message) => message,
                SubmitError::Internal(message) => message,
            },
    {
        match self {
            SubmitError::Rejected(message) => message,
            SubmitError::Busy(message) => message,
            SubmitError::Internal(message) => message,
        }
    }
}

/// The refusal of a transaction from the mint account.
pub open spec fn minting_refused() -> Seq<char> {
    "'"@ + mint_account() + "' mints value and cannot be used from the API"@
}

/// Queues the transaction and seals the mempool into a block right away,
/// which keeps latency low when traffic arrives in bursts. Minting is
/// refused here, for every interface: it is a rule of the node. Persisting
/// and announcing the sealed block is the caller's part.
pub fn submit(transaction: Transaction, blockchain: &mut Blockchain, identity: &NodeIdentity) -> (outcome: Result<
    (Queued, Option<u32>),
    SubmitError,
>)
    ensures
        transaction.sender@ == mint_account() ==> {
            &&& outcome matches Err(SubmitError::Rejected(message)) && message@ == minting_refused()
            &&& final(blockchain).same_as(*old(blockchain))
        },
        transaction.sender@ != mint_account() ==> match queue_outcome(
            old(blockchain).mempool@,
            old(blockchain).public_keys@,
            old(blockchain).balances@,
            old(blockchain).nonces@,
            chain_ids(old(blockchain).blocks@).contains(transaction.id@),
            transaction,
        ) {
            Err(error) => {
                &&& error is MempoolFull ==> (outcome matches Err(SubmitError::Busy(message)) && message@
                    == chain_error_message(error))
                &&& !(error is MempoolFull) ==> (outcome matches Err(SubmitError::Rejected(message)) && message@
                    == chain_error_message(error))
                &&& final(blockchain).same_as(*old(blockchain))
            },
            Ok(()) => match outcome {
                Ok((queued, sealed)) => {
                    &&& old(blockchain).may_seal(identity.name@, identity.signing_key.seed@)
                    &&& queued.id == transaction.id
                    &&& queued.pending == old(blockchain).mempool@.len() + 1
                    &&& sealed == Some(old(blockchain).blocks@.len() as u32)
                    &&& final(blockchain).blocks@.len() == old(blockchain).blocks@.len() + 1
                    &&& final(blockchain).blocks@.drop_last() == old(blockchain).blocks@
                    &&& final(blockchain).blocks@.last().transactions@.to_multiset() == old(
                        blockchain,
                    ).mempool@.push(transaction).to_multiset()
                    &&& sorted_by_sender_nonce(final(blockchain).blocks@.last().transactions@)
                    &&& final(blockchain).mempool@.len() == 0
                },
                Err(SubmitError::Internal(message)) => {
                    &&& exists|error: ChainError|
                        #![trigger chain_error_message(error)]
                        message@ == chain_error_message(error) && old(blockchain).seal_error(
                            old(blockchain).mempool@.push(transaction),
                            identity.name@,
                            identity.signing_key.seed@,
                            error,
                        )
                    &&& old(blockchain).seal_refused(
                        old(blockchain).mempool@.push(transaction),
                        identity.name@,
                        identity.signing_key.seed@,
                    )
                    &&& final(blockchain).blocks@ == old(blockchain).blocks@
                    &&& final(blockchain).mempool@ == old(blockchain).mempool@.push(transaction)
                },
                Err(_) => false,
            },
        },
        old(blockchain).consistent() ==> final(blockchain).consistent(),
{
    if transaction.sender == MINT_ACCOUNT.to_owned() {
        let mut message = "'".to_owned();
        message.append(MINT_ACCOUNT);
        message.append("' mints value and cannot be used from the API");
        return Err(SubmitError::Rejected(message));
    }
    let id = match blockchain.queue_transaction(transaction) {
        Ok(id) => id,
        Err(error) => {
            let message = error.message();
            return Err(
                match error {
                    ChainError::MempoolFull { .. } => SubmitError::Busy(message),
                    _ => SubmitError::Rejected(message),
                },
            );
        },
    };
    let pending = blockchain.pending_count();
    match blockchain.seal_mempool(identity.name.as_str(), &identity.signing_key) {
        Ok(sealed) => Ok((Queued { id, pending }, sealed)),
        Err(error) => Err(SubmitError::Internal(error.message())),
    }
}

/// Keeps the first failure: it is the one that triggered the shutdown, the
/// later ones are its echo.
pub fn record_failure(slot: &mut Option<String>, message: String)
    ensures
        *final(slot) == match *old(slot) {
            Some(first) => Some(first),
            None => Some(message),
        },
{
    if slot.is_none() {
        *slot = Some(message);
    }
}

/// Seconds a client is told to wait before retrying when the node is full:
/// the time within which the next block empties the mempool.
pub fn retry_after_seconds() -> (seconds: u64)
    ensures
        seconds == if BLOCK_TIME_SECS >= 1 { BLOCK_TIME_SECS } else { 1 },
        seconds >= 1,
{
    if BLOCK_TIME_SECS >= 1 { BLOCK_TIME_SECS } else { 1 }
}

} // verus!
