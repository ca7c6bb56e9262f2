//! Why the ledger refuses a block, a transaction or a chain.

use vstd::prelude::*;
use crate::encoding::{decimal, decimal_string};
use crate::transaction::Amount;

verus! {

#[allow(inconsistent_fields)]
#[derive(Debug, Clone, PartialEq)]
pub enum ChainError {
    UnauthorizedAuthority(String),
    UnknownAuthorityKey(String),
    AuthorityKeyMismatch(String),
    UnsealedBlock(u32),
    InvalidSeal(u32),
    WrongIndex { expected: u32, found: u32 },
    BrokenLink(u32),
    CorruptedHash(u32),
    GenesisMismatch,
    DuplicateTransaction(String),
    TamperedTransaction(String),
    UnknownSender(String),
    InvalidSignature(String),
    InvalidNonce { sender: String, expected: u64, found: u64 },
    /// The sender has used up every nonce there is.
    NonceOverflow(String),
    InsufficientFunds { sender: String, balance: Amount, amount: Amount },
    BalanceOverflow(String),
    PayloadTooLarge { id: String, size: usize, max: usize },
    MempoolFull { queued: usize, max: usize },
}

/// The text a number is written with in messages.
pub open spec fn num(n: int) -> Seq<char> {
    decimal(n as nat)
}

/// The human-readable explanation of each refusal.
pub open spec fn chain_error_message(error: ChainError) -> Seq<char> {
    match error {
        ChainError::UnauthorizedAuthority(name) => "'"@ + name@ + "' is not an authorized authority"@,
        ChainError::UnknownAuthorityKey(name) => "no public key registered for authority '"@ + name@ + "'"@,
        ChainError::AuthorityKeyMismatch(name) => "signing key does not match the key registered for '"@ + name@
            + "'"@,
        ChainError::UnsealedBlock(index) => "block "@ + num(index as int) + " carries no seal"@,
        ChainError::InvalidSeal(index) => "block "@ + num(index as int) + " has an invalid seal"@,
        ChainError::WrongIndex { expected, found } => "expected block index "@ + num(expected as int) + ", found "@
            + num(found as int),
        ChainError::BrokenLink(index) => "block "@ + num(index as int) + " does not link to the previous hash"@,
        ChainError::CorruptedHash(index) => "block "@ + num(index as int) + " hash does not match its content"@,
        ChainError::GenesisMismatch => "the chains do not share the same genesis block"@,
        ChainError::DuplicateTransaction(id) => "transaction "@ + id@ + " is already on chain"@,
        ChainError::TamperedTransaction(id) => "transaction "@ + id@ + " id does not match its content"@,
        ChainError::UnknownSender(sender) => "no public key registered for '"@ + sender@ + "'"@,
        ChainError::InvalidSignature(id) => "transaction "@ + id@ + " has an invalid signature"@,
        ChainError::InvalidNonce { sender, expected, found } => "'"@ + sender@ + "' expected nonce "@ + num(
            expected as int,
        ) + ", found "@ + num(found as int),
        ChainError::NonceOverflow(sender) => "'"@ + sender@ + "' has no nonce left"@,
        ChainError::InsufficientFunds { sender, balance, amount } => "'"@ + sender@ + "' holds "@ + num(
            balance as int,
        ) + " but tried to send "@ + num(amount as int),
        ChainError::BalanceOverflow(account) => "balance overflow for '"@ + account@ + "'"@,
        ChainError::PayloadTooLarge { id, size, max } => "transaction "@ + id@ + " carries "@ + num(size as int)
            + " bytes of payload, at most "@ + num(max as int) + " allowed"@,
        ChainError::MempoolFull { queued, max } => "the mempool holds "@ + num(queued as int) + " bytes, at most "@
            + num(max as int) + ": retry after the next block"@,
    }
}

fn join3(a: &str, b: &str, c: &str) -> (text: String)
    ensures
        text@ == a@ + b@ + c@,
{
    let mut text = a.to_owned();
    text.append(b);
    text.append(c);
    text
}

fn join4(a: &str, b: &str, c: &str, d: &str) -> (text: String)
    ensures
        text@ == a@ + b@ + c@ + d@,
{
    let mut text = join3(a, b, c);
    text.append(d);
    text
}

fn join5(a: &str, b: &str, c: &str, d: &str, e: &str) -> (text: String)
    ensures
        text@ == a@ + b@ + c@ + d@ + e@,
{
    let mut text = join4(a, b, c, d);
    text.append(e);
    text
}

fn join6(a: &str, b: &str, c: &str, d: &str, e: &str, f: &str) -> (text: String)
    ensures
        text@ == a@ + b@ + c@ + d@ + e@ + f@,
{
    let mut text = join5(a, b, c, d, e);
    text.append(f);
    text
}

fn join7(a: &str, b: &str, c: &str, d: &str, e: &str, f: &str, g: &str) -> (text: String)
    ensures
        text@ == a@ + b@ + c@ + d@ + e@ + f@ + g@,
{
    let mut text = join6(a, b, c, d, e, f);
    text.append(g);
    text
}

fn number(n: u64) -> (text: String)
    ensures
        text@ == num(n as int),
{
    decimal_string(n)
}

impl ChainError {
    /// What went wrong, in words.
    pub fn message(&self) -> (text: String)
        ensures
            text@ == chain_error_message(*self),
    {
        match self {
            ChainError::UnauthorizedAuthority(name) => join3("'", name.as_str(), "' is not an authorized authority"),
            ChainError::UnknownAuthorityKey(name) => join3("no public key registered for authority '", name.as_str(), "'"),
            ChainError::AuthorityKeyMismatch(name) => join3(
                "signing key does not match the key registered for '",
                name.as_str(),
                "'",
            ),
            ChainError::UnsealedBlock(index) => join3("block ", number(*index as u64).as_str(), " carries no seal"),
            ChainError::InvalidSeal(index) => join3("block ", number(*index as u64).as_str(), " has an invalid seal"),
            ChainError::WrongIndex { expected, found } => join4(
                "expected block index ",
                number(*expected as u64).as_str(),
                ", found ",
                number(*found as u64).as_str(),
            ),
            ChainError::BrokenLink(index) => join3(
                "block ",
                number(*index as u64).as_str(),
                " does not link to the previous hash",
            ),
            ChainError::CorruptedHash(index) => join3(
                "block ",
                number(*index as u64).as_str(),
                " hash does not match its content",
            ),
            ChainError::GenesisMismatch => "the chains do not share the same genesis block".to_owned(),
            ChainError::DuplicateTransaction(id) => join3("transaction ", id.as_str(), " is already on chain"),
            ChainError::TamperedTransaction(id) => join3("transaction ", id.as_str(), " id does not match its content"),
            ChainError::UnknownSender(sender) => join3("no public key registered for '", sender.as_str(), "'"),
            ChainError::InvalidSignature(id) => join3("transaction ", id.as_str(), " has an invalid signature"),
            ChainError::InvalidNonce { sender, expected, found } => join6(
                "'",
                sender.as_str(),
                "' expected nonce ",
                number(*expected).as_str(),
                ", found ",
                number(*found).as_str(),
            ),
            ChainError::NonceOverflow(sender) => join3("'", sender.as_str(), "' has no nonce left"),
            ChainError::InsufficientFunds { sender, balance, amount } => join6(
                "'",
                sender.as_str(),
                "' holds ",
                number(*balance).as_str(),
                " but tried to send ",
                number(*amount).as_str(),
            ),
            ChainError::BalanceOverflow(account) => join3("balance overflow for '", account.as_str(), "'"),
            ChainError::PayloadTooLarge { id, size, max } => join7(
                "transaction ",
                id.as_str(),
                " carries ",
                number(*size as u64).as_str(),
                " bytes of payload, at most ",
                number(*max as u64).as_str(),
                " allowed",
            ),
            ChainError::MempoolFull { queued, max } => join5(
                "the mempool holds ",
                number(*queued as u64).as_str(),
                " bytes, at most ",
                number(*max as u64).as_str(),
                ": retry after the next block",
            ),
        }
    }
}

} // verus!
