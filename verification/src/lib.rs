//! A proof-of-authority ledger: signed transactions, sealed blocks, a
//! mempool that batches submissions, chain replay and validation, peer
//! synchronisation rules and the small policies of the node around them.

pub mod encoding;
pub mod crypto;
pub mod accounts;
pub mod transaction;
pub mod block;
pub mod error;
pub mod ledger;
pub mod order;
pub mod mempool;
pub mod blockchain;
pub mod sync;
pub mod text;
pub mod api;
pub mod grpc;
pub mod node;
pub mod monitoring;
pub mod config;
