//! The gRPC door of the node: the operations of `blockrock.TransactionService`
//! on plain messages. It answers as the REST API does, and both doors submit
//! through the same function, so a rule of the node holds on both.

use vstd::prelude::*;
use crate::accounts::AccountMap;
use crate::api::{find_account, key_text, AccountState, Refusal};
use crate::block::Block;
use crate::blockchain::{holds_at, Blockchain};
use crate::crypto::Signature;
use crate::encoding::{copy_to_64, decode_hex, hex_decoding, is_hex_text, utf8};
use crate::ledger::value_or_zero;
use crate::node::{Queued, SubmitError};
use crate::transaction::{text_of, Amount, Transaction};

verus! {

/// The codes this service answers a failure with.
#[derive(Debug, Clone, Copy, PartialEq, Eq, Structural)]
pub enum StatusCode {
    /// The request is malformed or breaks a rule: the caller is wrong.
    InvalidArgument,
    NotFound,
    /// The node is full for now; retry policies treat this code as retryable.
    ResourceExhausted,
    /// The node failed.
    Internal,
}

/// A failed call: its code and what went wrong.
#[derive(Debug, PartialEq)]
pub struct Status {
    pub code: StatusCode,
    pub message: String,
}

/// A transaction as the service describes it.
#[derive(Debug, PartialEq)]
pub struct TransactionResponse {
    pub id: String,
    pub sender: String,
    pub recipient: String,
    pub amount: u64,
    pub nonce: u64,
    /// Absent for a plain transfer; present, possibly empty, for a datum.
    pub payload: Option<String>,
}

/// A block as the service describes it.
#[derive(Debug, PartialEq)]
pub struct BlockSummary {
    pub index: u32,
    pub timestamp: u64,
    pub previous_hash: String,
    pub hash: String,
    pub authority: String,
    pub transactions: Vec<TransactionResponse>,
}

/// A signed transfer or reading, as a client submits it.
#[derive(Debug)]
pub struct SubmitTransactionRequest {
    pub sender: String,
    pub receiver: String,
    pub amount: Amount,
    pub nonce: u64,
    /// Hex ed25519 signature over the canonical transaction payload.
    pub signature: String,
    pub payload: Option<String>,
}

#[derive(Debug, PartialEq)]
pub struct SubmitTransactionResponse {
    pub id: String,
    pub pending: u64,
}

#[derive(Debug, PartialEq)]
pub struct AccountResponse {
    pub name: String,
    pub balance: Amount,
    pub next_nonce: u64,
    pub public_key: Option<String>,
}

/// `response` describes `transaction`, field by field.
pub open spec fn describes(response: TransactionResponse, transaction: Transaction) -> bool {
    &&& response.id == transaction.id
    &&& response.sender == transaction.sender
    &&& response.recipient == transaction.receiver
    &&& response.amount == transaction.amount
    &&& response.nonce == transaction.nonce
    &&& response.payload == transaction.payload
}

/// `summary` describes `block`, field by field and transaction by transaction.
pub open spec fn summarizes(summary: BlockSummary, block: Block) -> bool {
    &&& summary.index == block.index
    &&& summary.timestamp == block.timestamp
    &&& summary.previous_hash == block.previous_hash
    &&& summary.hash == block.hash
    &&& summary.authority == block.authority
    &&& summary.transactions@.len() == block.transactions@.len()
    &&& forall|i: int|
        0 <= i < summary.transactions@.len() ==> describes(
            #[trigger] summary.transactions@[i],
            block.transactions@[i],
        )
}

pub fn transaction_message(transaction: &Transaction) -> (response: TransactionResponse)
    ensures
        describes(response, *transaction),
{
    let payload = match &transaction.payload {
        Some(text) => Some(text.clone()),
        None => None,
    };
    TransactionResponse {
        id: transaction.id.clone(),
        sender: transaction.sender.clone(),
        recipient: transaction.receiver.clone(),
        amount: transaction.amount,
        nonce: transaction.nonce,
        payload,
    }
}

pub fn block_message(block: &Block) -> (summary: BlockSummary)
    ensures
        summarizes(summary, *block),
{
    let mut transactions: Vec<TransactionResponse> = Vec::new();
    let mut i: usize = 0;
    while i < block.transactions.len()
        invariant
            i <= block.transactions@.len(),
            transactions@.len() == i,
            forall|j: int| 0 <= j < i ==> describes(#[trigger] transactions@[j], block.transactions@[j]),
        decreases block.transactions@.len() - i,
    {
        transactions.push(transaction_message(&block.transactions[i]));
        i = i + 1;
    }
    BlockSummary {
        index: block.index,
        timestamp: block.timestamp,
        previous_hash: block.previous_hash.clone(),
        hash: block.hash.clone(),
        authority: block.authority.clone(),
        transactions,
    }
}

/// Decodes a hex signature as it is given, white space included.
pub fn decode_signature(signature: &str) -> (decoded: Result<Signature, String>)
    ensures
        !is_hex_text(utf8(signature@)) ==> (decoded matches Err(message)
            && "signature is not valid hex: "@.is_prefix_of(message@)),
        is_hex_text(utf8(signature@)) ==> if hex_decoding(utf8(signature@)).len() == 64 {
            decoded matches Ok(sig) && sig.bytes@ == hex_decoding(utf8(signature@))
        } else {
            decoded matches Err(message) && message@ == "signature must be 64 bytes"@
        },
{
    let bytes = match decode_hex(signature) {
        Ok(bytes) => bytes,
        Err(reason) => {
            let mut message = "signature is not valid hex: ".to_owned();
            message.append(reason.as_str());
            return Err(message);
        },
    };
    if bytes.len() != 64 {
        return Err("signature must be 64 bytes".to_owned());
    }
    Ok(Signature { bytes: copy_to_64(&bytes) })
}

impl SubmitTransactionRequest {
    /// The transaction the request describes, its id recomputed here; a
    /// signature that does not decode is the caller's fault.
    pub fn into_transaction(self) -> (transaction: Result<Transaction, Status>)
        ensures
            ({
                let text = utf8(self.signature@);
                if is_hex_text(text) && hex_decoding(text).len() == 64 {
                    transaction matches Ok(tx) && {
                        &&& tx.sender == self.sender
                        &&& tx.receiver == self.receiver
                        &&& tx.amount == self.amount
                        &&& tx.nonce == self.nonce
                        &&& tx.payload == self.payload
                        &&& tx.signature matches Some(sig) && sig.bytes@ == hex_decoding(text)
                        &&& tx.id_matches()
                    }
                } else {
                    transaction matches Err(status) && status.code == StatusCode::InvalidArgument
                }
            }),
    {
        match decode_signature(self.signature.as_str()) {
            Ok(signature) => Ok(
                Transaction::signed_with_payload(
                    self.sender,
                    self.receiver,
                    self.amount,
                    self.nonce,
                    self.payload,
                    signature,
                ),
            ),
            Err(message) => Err(Status { code: StatusCode::InvalidArgument, message }),
        }
    }
}

/// The status a refused submission is answered with: the caller's fault is
/// `InvalidArgument`, a full node `ResourceExhausted`, a failure of the node
/// `Internal`. The message is kept as it is.
pub fn status_of(error: SubmitError) -> (status: Status)
    ensures
        match error {
            SubmitError::Rejected(message) => status == (Status { code: StatusCode::InvalidArgument, message }),
            SubmitError::Busy(message) => status == (Status { code: StatusCode::ResourceExhausted, message }),
            SubmitError::Internal(message) => status == (Status { code: StatusCode::Internal, message }),
        },
{
    match error {
        SubmitError::Rejected(message) => Status { code: StatusCode::InvalidArgument, message },
        SubmitError::Busy(message) => Status { code: StatusCode::ResourceExhausted, message },
        SubmitError::Internal(message) => Status { code: StatusCode::Internal, message },
    }
}

/// The answer to an accepted submission.
pub fn accepted(queued: Queued) -> (response: SubmitTransactionResponse)
    ensures
        response.id == queued.id,
        response.pending == queued.pending,
{
    SubmitTransactionResponse { id: queued.id, pending: queued.pending as u64 }
}

/// A transaction on chain, by id (the latest, should several carry it).
pub fn get_transaction(blockchain: &Blockchain, id: &str) -> (found: Result<TransactionResponse, Status>)
    ensures
        match found {
            Ok(response) => exists|i: int, j: int|
                {
                    &&& holds_at(blockchain.blocks@, i, j, id@)
                    &&& describes(response, blockchain.blocks@[i].transactions@[j])
                    &&& forall|k: int, l: int| #[trigger] holds_at(blockchain.blocks@, k, l, id@) ==> (k < i || (k == i
                        && l <= j))
                },
            Err(status) => {
                &&& status.code == StatusCode::NotFound
                &&& status.message@ == "Transaction not found"@
                &&& forall|i: int, j: int| !#[trigger] holds_at(blockchain.blocks@, i, j, id@)
            },
        },
{
    match blockchain.get_transaction(id) {
        Some(transaction) => Ok(transaction_message(&transaction)),
        None => Err(Status { code: StatusCode::NotFound, message: "Transaction not found".to_owned() }),
    }
}

/// Balance, next nonce and key of a known account.
pub fn get_account(blockchain: &Blockchain, name: &str) -> (found: Result<AccountResponse, Status>)
    ensures
        blockchain.public_keys@.contains_key(name@) || blockchain.balances@.contains_key(name@) ==> (found matches Ok(
            account,
        ) && account.name@ == name@ && account.balance == value_or_zero(blockchain.balances@, name@)
            && account.next_nonce == value_or_zero(blockchain.nonces@, name@) && text_of(account.public_key)
            == key_text(*blockchain, name@)),
        !(blockchain.public_keys@.contains_key(name@) || blockchain.balances@.contains_key(name@)) ==> (found
            matches Err(status) && status.code == StatusCode::NotFound && status.message@ == "unknown account '"@
            + name@ + "'"@),
{
    match find_account(blockchain, name) {
        Ok(AccountState { name, balance, next_nonce, public_key }) => Ok(
            AccountResponse { name, balance, next_nonce, public_key },
        ),
        Err(Refusal::NotFound(message)) => Err(Status { code: StatusCode::NotFound, message }),
        Err(Refusal::BadRequest(message)) => Err(Status { code: StatusCode::InvalidArgument, message }),
        Err(Refusal::Conflict(message)) => Err(Status { code: StatusCode::InvalidArgument, message }),
        Err(Refusal::TooManyRequests { message, .. }) => Err(Status { code: StatusCode::ResourceExhausted, message }),
        Err(Refusal::Internal(message)) => Err(Status { code: StatusCode::Internal, message }),
    }
}

/// Every balance, by account name.
pub fn get_balances(blockchain: &Blockchain) -> (balances: AccountMap<Amount>)
    ensures
        balances@ == blockchain.balances@,
{
    blockchain.balances.clone()
}

/// Every block of the chain, described.
pub fn get_blocks(blockchain: &Blockchain) -> (blocks: Vec<BlockSummary>)
    ensures
        blocks@.len() == blockchain.blocks@.len(),
        forall|i: int| 0 <= i < blocks@.len() ==> summarizes(#[trigger] blocks@[i], blockchain.blocks@[i]),
{
    let mut blocks: Vec<BlockSummary> = Vec::new();
    let mut i: usize = 0;
    while i < blockchain.blocks.len()
        invariant
            i <= blockchain.blocks@.len(),
            blocks@.len() == i,
            forall|j: int| 0 <= j < i ==> summarizes(#[trigger] blocks@[j], blockchain.blocks@[j]),
        decreases blockchain.blocks@.len() - i,
    {
        blocks.push(block_message(&blockchain.blocks[i]));
        i = i + 1;
    }
    blocks
}

} // verus!
