use blockrock::accounts::{AccountMap, NameSet};
use blockrock::block::Block;
use blockrock::blockchain::Blockchain;
use blockrock::ledger::{verify_block, LedgerState};
use blockrock::crypto::SecretKey;
use blockrock::error::ChainError;
use blockrock::sync::{announcement_of, apply_announcement, apply_snapshot, snapshot_of, BlockOutcome};
use blockrock::transaction::Transaction;
use rand::rngs::OsRng;
use sha2::{Digest, Sha256};

fn fresh_key() -> SecretKey {
    SecretKey::from_bytes(ed25519_dalek::SigningKey::generate(&mut OsRng).to_bytes())
}

#[test]
fn shifting_a_byte_between_two_names_changes_the_signed_bytes() {
    let left = Transaction::unsigned("ab".to_string(), "c".to_string(), 1, 0);
    let right = Transaction::unsigned("a".to_string(), "bc".to_string(), 1, 0);
    assert_ne!(left.signing_payload(), right.signing_payload());
    assert_ne!(left.id, right.id);
}

#[test]
fn every_field_is_covered_by_the_signed_bytes() {
    let base = Transaction::unsigned_with_payload("a".to_string(), "b".to_string(), 1, 2, Some("x".to_string()));
    let variants = [
        Transaction::unsigned_with_payload("z".to_string(), "b".to_string(), 1, 2, Some("x".to_string())),
        Transaction::unsigned_with_payload("a".to_string(), "z".to_string(), 1, 2, Some("x".to_string())),
        Transaction::unsigned_with_payload("a".to_string(), "b".to_string(), 9, 2, Some("x".to_string())),
        Transaction::unsigned_with_payload("a".to_string(), "b".to_string(), 1, 9, Some("x".to_string())),
        Transaction::unsigned_with_payload("a".to_string(), "b".to_string(), 1, 2, Some("y".to_string())),
        Transaction::unsigned_with_payload("a".to_string(), "b".to_string(), 1, 2, None),
    ];
    for variant in &variants {
        assert_ne!(base.signing_payload(), variant.signing_payload());
    }
}

#[test]
fn the_signed_bytes_of_a_plain_transfer_are_spelled_out() {
    let plain = Transaction::unsigned("Al".to_string(), "Bo".to_string(), 258, 1);
    let mut expected = b"blockrock.transaction.v1".to_vec();
    expected.extend_from_slice(&[2, 0, 0, 0, 0, 0, 0, 0]);
    expected.extend_from_slice(b"Al");
    expected.extend_from_slice(&[2, 0, 0, 0, 0, 0, 0, 0]);
    expected.extend_from_slice(b"Bo");
    expected.extend_from_slice(&[2, 1, 0, 0, 0, 0, 0, 0]);
    expected.extend_from_slice(&[1, 0, 0, 0, 0, 0, 0, 0]);
    assert_eq!(plain.signing_payload(), expected);

    let reading =
        Transaction::unsigned_with_payload("Al".to_string(), "Bo".to_string(), 258, 1, Some("7".to_string()));
    expected.push(1);
    expected.extend_from_slice(&[1, 0, 0, 0, 0, 0, 0, 0]);
    expected.extend_from_slice(b"7");
    assert_eq!(reading.signing_payload(), expected);
}

#[test]
fn the_id_is_the_sha256_of_the_signed_bytes() {
    let plain = Transaction::unsigned("Alice".to_string(), "Bob".to_string(), 30, 7);
    let expected = hex::encode(Sha256::digest(plain.signing_payload()));
    assert_eq!(plain.id, expected);
    assert!(plain.has_valid_id());
}

#[test]
fn two_nodes_with_the_same_authority_share_the_genesis() {
    let first = Blockchain::new_single("blockrock".to_string());
    let second = Blockchain::new_single("blockrock".to_string());
    let other = Blockchain::new_single("elsewhere".to_string());
    assert_eq!(first.genesis_hash(), second.genesis_hash());
    assert_ne!(first.genesis_hash(), other.genesis_hash());
}

#[test]
fn a_transaction_applied_once_is_refused_the_second_time() {
    let authority = fresh_key();
    let alice = fresh_key();
    let mut chain = Blockchain::new_single("blockrock".to_string());
    chain.register_authority("blockrock", authority.public_key());
    chain.add_public_key("Alice", alice.public_key());
    let tx = Transaction::new("Alice".to_string(), "Bob".to_string(), 1, 0, &alice);
    chain.add_block(vec![tx.clone()], "blockrock", &authority).unwrap();
    assert_eq!(
        chain.add_block(vec![tx.clone()], "blockrock", &authority),
        Err(ChainError::DuplicateTransaction(tx.id.clone()))
    );
    // Even twice in the same block.
    let mut fresh = Blockchain::new_single("blockrock".to_string());
    fresh.register_authority("blockrock", authority.public_key());
    fresh.add_public_key("Alice", alice.public_key());
    assert_eq!(
        fresh.add_block(vec![tx.clone(), tx.clone()], "blockrock", &authority),
        Err(ChainError::DuplicateTransaction(tx.id))
    );
}

#[test]
fn a_transfer_moves_exactly_its_amount() {
    let authority = fresh_key();
    let alice = fresh_key();
    let mut chain = Blockchain::new_single("blockrock".to_string());
    chain.register_authority("blockrock", authority.public_key());
    chain.add_public_key("Alice", alice.public_key());
    let before = chain.get_balances();
    let tx = Transaction::new("Alice".to_string(), "Charlie".to_string(), 25, 0, &alice);
    chain.add_block(vec![tx], "blockrock", &authority).unwrap();
    for (name, balance) in before {
        let expected = match name.as_str() {
            "Alice" => balance - 25,
            "Charlie" => balance + 25,
            _ => balance,
        };
        assert_eq!(chain.balance_of(&name), expected, "{}", name);
    }
    let total: u64 = chain.get_balances().iter().map(|(_, balance)| *balance).sum();
    assert_eq!(total, 1230);
}

#[test]
fn the_mint_account_creates_value_without_signature_or_nonce() {
    let authority = fresh_key();
    let mut chain = Blockchain::new_single("blockrock".to_string());
    chain.register_authority("blockrock", authority.public_key());
    let mint = Transaction::unsigned("System".to_string(), "Dave".to_string(), 7, 0);
    chain.add_block(vec![mint], "blockrock", &authority).unwrap();
    assert_eq!(chain.balance_of("Dave"), 7);
    assert_eq!(chain.balance_of("System"), 1000);
    assert_eq!(chain.next_nonce("System"), 0);
    assert!(chain.validate_chain());
    // The allocation held 1230; the mint created 7 more, and nothing else did.
    let total: u64 = chain.get_balances().iter().map(|(_, balance)| *balance).sum();
    assert_eq!(total, 1237);
}

#[test]
fn what_was_applied_once_is_known_afterwards() {
    let authority = fresh_key();
    let alice = fresh_key();
    let mut author = Blockchain::new_single("blockrock".to_string());
    author.register_authority("blockrock", authority.public_key());
    author.add_public_key("Alice", alice.public_key());
    let tx = Transaction::new("Alice".to_string(), "Bob".to_string(), 5, 0, &alice);
    author.add_block(vec![tx], "blockrock", &authority).unwrap();

    let mut receiver = Blockchain::new_single("blockrock".to_string());
    receiver.register_authority("blockrock", authority.public_key());
    let announcement = announcement_of(&author, author.blocks[1].clone());
    assert_eq!(apply_announcement(&mut receiver, announcement.clone()), Ok(BlockOutcome::Appended));
    assert_eq!(apply_announcement(&mut receiver, announcement), Ok(BlockOutcome::Known));

    let mut late = Blockchain::new_single("blockrock".to_string());
    late.register_authority("blockrock", authority.public_key());
    assert_eq!(apply_snapshot(&mut late, snapshot_of(&author)), Ok(true));
    assert_eq!(apply_snapshot(&mut late, snapshot_of(&author)), Ok(false));
    assert!(late.validate_chain());
}

#[test]
fn the_chain_stays_consistent_after_every_operation() {
    let authority = fresh_key();
    let alice = fresh_key();
    let mut chain = Blockchain::new_single("blockrock".to_string());
    chain.register_authority("blockrock", authority.public_key());
    chain.add_public_key("Alice", alice.public_key());
    for nonce in 0..3 {
        let tx = Transaction::new("Alice".to_string(), "Bob".to_string(), 1, nonce, &alice);
        chain.queue_transaction(tx).unwrap();
    }
    chain.seal_mempool("blockrock", &authority).unwrap();
    let bad = Transaction::new("Alice".to_string(), "Bob".to_string(), 1_000, 3, &alice);
    assert!(chain.add_block(vec![bad], "blockrock", &authority).is_err());
    // Replaying the whole chain from genesis gives the balances held.
    let mut replayed = Blockchain::new_single("blockrock".to_string());
    replayed.register_authority("blockrock", authority.public_key());
    replayed.add_public_key("Alice", alice.public_key());
    assert!(replayed.try_adopt_chain(chain.get_blocks()).unwrap());
    assert_eq!(replayed.get_balances(), chain.get_balances());
    assert_eq!(replayed.next_nonce("Alice"), chain.next_nonce("Alice"));
}

#[test]
fn a_refused_block_leaves_the_ledger_untouched() {
    let authority = fresh_key();
    let alice = fresh_key();
    let mut authorities = NameSet::new();
    authorities.insert("blockrock".to_string());
    let mut keys = AccountMap::new();
    keys.insert("blockrock".to_string(), authority.public_key());
    keys.insert("Alice".to_string(), alice.public_key());
    let mut balances = AccountMap::new();
    balances.insert("Alice".to_string(), 100u64);
    let mut state = LedgerState { balances, nonces: AccountMap::new(), seen: NameSet::new() };

    // The first transfer is fine on its own; the second overspends.
    let first = Transaction::new("Alice".to_string(), "Bob".to_string(), 60, 0, &alice);
    let second = Transaction::new("Alice".to_string(), "Bob".to_string(), 60, 1, &alice);
    let block = Block::sealed(1, vec![first, second], "tip".to_string(), "blockrock".to_string(), &authority);
    let outcome = verify_block(&authorities, &keys, &block, 1, &"tip".to_string(), &mut state);
    assert!(matches!(outcome, Err(ChainError::InsufficientFunds { .. })));
    assert_eq!(state.balances.get("Alice"), Some(100));
    assert_eq!(state.balances.get("Bob"), None);
    assert_eq!(state.nonces.len(), 0);
    assert_eq!(state.seen.len(), 0);
}

#[test]
fn a_block_sealed_by_the_node_verifies_under_its_key_and_its_transactions_are_found() {
    let authority = fresh_key();
    let alice = fresh_key();
    let mut chain = Blockchain::new_single("blockrock".to_string());
    chain.register_authority("blockrock", authority.public_key());
    chain.add_public_key("Alice", alice.public_key());
    let tx = Transaction::new("Alice".to_string(), "Bob".to_string(), 5, 0, &alice);
    let id = tx.id.clone();
    chain.add_block(vec![tx], "blockrock", &authority).unwrap();
    assert!(chain.blocks.last().unwrap().verify_seal(&authority.public_key()));
    assert_eq!(chain.get_transaction(&id).unwrap().id, id);
}
