use blockrock::blockchain::Blockchain;
use blockrock::crypto::SecretKey;
use blockrock::mempool::Mempool;
use blockrock::transaction::Transaction;
use rand::rngs::OsRng;

fn alice_key() -> SecretKey {
    SecretKey::from_bytes(ed25519_dalek::SigningKey::generate(&mut OsRng).to_bytes())
}

#[test]
fn queue_valid_transaction() {
    let key = alice_key();
    let mut chain = Blockchain::new_single("test".to_string());
    chain.add_public_key("Alice", key.public_key());

    let tx = Transaction::new("Alice".to_string(), "Bob".to_string(), 30, 0, &key);
    let mut pool = Mempool::new();
    let id = pool.queue(tx, &chain.public_keys, &chain.balances, &chain.nonces, false).unwrap();
    assert_eq!(pool.len(), 1);
    assert!(pool.pending_transactions().iter().any(|pending| pending.id == id));
}

#[test]
fn reject_duplicate_in_pool() {
    let key = alice_key();
    let mut chain = Blockchain::new_single("test".to_string());
    chain.add_public_key("Alice", key.public_key());

    let tx = Transaction::new("Alice".to_string(), "Bob".to_string(), 30, 0, &key);
    let mut pool = Mempool::new();
    pool.queue(tx.clone(), &chain.public_keys, &chain.balances, &chain.nonces, false).unwrap();
    let result = pool.queue(tx, &chain.public_keys, &chain.balances, &chain.nonces, false);
    assert!(result.is_err());
}

#[test]
fn reject_insufficient_funds() {
    let key = alice_key();
    let mut chain = Blockchain::new_single("test".to_string());
    chain.add_public_key("Alice", key.public_key());
    // Alice starts with 100, try to send 200
    let tx = Transaction::new("Alice".to_string(), "Bob".to_string(), 200, 0, &key);
    let mut pool = Mempool::new();
    let result = pool.queue(tx, &chain.public_keys, &chain.balances, &chain.nonces, false);
    assert!(result.is_err());
}

#[test]
fn reject_wrong_nonce() {
    let key = alice_key();
    let mut chain = Blockchain::new_single("test".to_string());
    chain.add_public_key("Alice", key.public_key());
    // Nonce should be 0, but we send 5
    let tx = Transaction::new("Alice".to_string(), "Bob".to_string(), 10, 5, &key);
    let mut pool = Mempool::new();
    let result = pool.queue(tx, &chain.public_keys, &chain.balances, &chain.nonces, false);
    assert!(result.is_err());
}

#[test]
fn drain_returns_sorted() {
    let key = alice_key();
    let mut chain = Blockchain::new_single("test".to_string());
    chain.add_public_key("Alice", key.public_key());
    chain.add_public_key("Bob", key.public_key());

    let tx1 = Transaction::new("Bob".to_string(), "Charlie".to_string(), 10, 0, &key);
    let tx2 = Transaction::new("Alice".to_string(), "Charlie".to_string(), 20, 0, &key);

    let mut pool = Mempool::new();
    pool.queue(tx1, &chain.public_keys, &chain.balances, &chain.nonces, false).unwrap();
    pool.queue(tx2, &chain.public_keys, &chain.balances, &chain.nonces, false).unwrap();

    let drained = pool.drain();
    assert_eq!(pool.len(), 0);
    // Alice < Bob alphabetically, so Alice's tx should come first
    assert_eq!(drained[0].sender, "Alice");
    assert_eq!(drained[1].sender, "Bob");
}

#[test]
fn queue_considers_already_spent() {
    let key = alice_key();
    let mut chain = Blockchain::new_single("test".to_string());
    chain.add_public_key("Alice", key.public_key());
    // Alice has 100. Queue 60, then try to queue another 60: it must fail.
    let tx1 = Transaction::new("Alice".to_string(), "Bob".to_string(), 60, 0, &key);
    let tx2 = Transaction::new("Alice".to_string(), "Charlie".to_string(), 60, 1, &key);

    let mut pool = Mempool::new();
    pool.queue(tx1, &chain.public_keys, &chain.balances, &chain.nonces, false).unwrap();
    let result = pool.queue(tx2, &chain.public_keys, &chain.balances, &chain.nonces, false);
    assert!(result.is_err());
}
