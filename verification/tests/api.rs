use blockrock::api::{
    decode_public_key, decode_signature, find_account, refusal_of, register_account, CommitReading, RegisterAccount,
    Refusal, SubmitTransaction,
};
use blockrock::blockchain::Blockchain;
use blockrock::crypto::SecretKey;
use blockrock::node::{retry_after_seconds, submit, NodeIdentity, SubmitError, BLOCK_TIME_SECS};
use blockrock::transaction::Transaction;
use rand::rngs::OsRng;

fn fresh_key() -> SecretKey {
    SecretKey::from_bytes(ed25519_dalek::SigningKey::generate(&mut OsRng).to_bytes())
}

fn sign(key: &SecretKey, sender: &str, receiver: &str, amount: u64, nonce: u64) -> String {
    let payload = Transaction::unsigned(sender.to_string(), receiver.to_string(), amount, nonce).signing_payload();
    hex::encode(key.sign(&payload).bytes)
}

struct Node {
    chain: Blockchain,
    identity: NodeIdentity,
}

fn start_node() -> Node {
    let authority = fresh_key();
    let mut chain = Blockchain::new_single("blockrock".to_string());
    chain.register_authority("blockrock", authority.public_key());
    Node { chain, identity: NodeIdentity { name: "blockrock".to_string(), signing_key: authority } }
}

fn register(chain: &mut Blockchain, name: &str, key: &SecretKey) -> Result<(), Refusal> {
    let registration =
        RegisterAccount { name: name.to_string(), public_key: hex::encode(key.public_key().bytes) };
    register_account(chain, registration).map(|_| ())
}

fn transfer(key: &SecretKey, sender: &str, receiver: &str, amount: u64, nonce: u64) -> Transaction {
    SubmitTransaction {
        sender: sender.to_string(),
        receiver: receiver.to_string(),
        amount,
        nonce,
        signature: sign(key, sender, receiver, amount, nonce),
    }
    .into_transaction()
    .unwrap()
}

#[test]
fn a_signed_transfer_is_sealed_right_away() {
    let mut node = start_node();
    let alice = fresh_key();
    register(&mut node.chain, "Alice", &alice).unwrap();

    let account = find_account(&node.chain, "Alice").unwrap();
    assert_eq!(account.balance, 100);
    assert_eq!(account.next_nonce, 0);
    assert_eq!(account.public_key, Some(hex::encode(alice.public_key().bytes)));

    let tx = transfer(&alice, "Alice", "Bob", 30, 0);
    let id = tx.id.clone();
    let (queued, sealed) = submit(tx, &mut node.chain, &node.identity).unwrap();
    assert_eq!(queued.id, id);
    assert_eq!(queued.pending, 1);
    assert_eq!(sealed, Some(1));

    let balances = node.chain.get_balances();
    assert!(balances.contains(&("Alice".to_string(), 70)));
    assert!(balances.contains(&("Bob".to_string(), 80)));
    assert_eq!(node.chain.get_transaction(&id).unwrap().amount, 30);
    assert!(node.chain.validate_chain());
}

#[test]
fn a_replayed_or_unaffordable_transfer_is_refused_as_a_bad_request() {
    let mut node = start_node();
    let alice = fresh_key();
    register(&mut node.chain, "Alice", &alice).unwrap();

    let tx = transfer(&alice, "Alice", "Bob", 10, 0);
    submit(tx.clone(), &mut node.chain, &node.identity).unwrap();

    // Same signed bytes again: the transaction is already on chain.
    let error = submit(tx, &mut node.chain, &node.identity).unwrap_err();
    assert!(matches!(refusal_of(error), Refusal::BadRequest(_)));

    let error = submit(transfer(&alice, "Alice", "Bob", 1_000, 1), &mut node.chain, &node.identity).unwrap_err();
    match refusal_of(error) {
        Refusal::BadRequest(message) => assert!(message.contains("tried to send")),
        other => panic!("expected a bad request, got {:?}", other),
    }

    // Minting is not reachable from the API.
    let error = submit(transfer(&alice, "System", "Bob", 5, 0), &mut node.chain, &node.identity).unwrap_err();
    assert_eq!(
        error,
        SubmitError::Rejected("'System' mints value and cannot be used from the API".to_string())
    );
    assert_eq!(node.chain.blocks.len(), 2);
}

#[test]
fn a_transfer_signed_by_the_wrong_key_is_refused() {
    let mut node = start_node();
    let alice = fresh_key();
    let impostor = fresh_key();
    register(&mut node.chain, "Alice", &alice).unwrap();

    let error = submit(transfer(&impostor, "Alice", "Bob", 10, 0), &mut node.chain, &node.identity).unwrap_err();
    assert!(matches!(error, SubmitError::Rejected(_)));

    // Rebinding a registered name to another key is a conflict.
    assert_eq!(
        register(&mut node.chain, "Alice", &impostor),
        Err(Refusal::Conflict("'Alice' is already bound to another key".to_string()))
    );
    // Registering the same key again is accepted.
    assert_eq!(register(&mut node.chain, "Alice", &alice), Ok(()));
}

#[test]
fn an_unknown_account_is_reported_as_missing() {
    let node = start_node();
    assert_eq!(
        find_account(&node.chain, "Nobody").unwrap_err(),
        Refusal::NotFound("unknown account 'Nobody'".to_string())
    );
    // An account with a balance but no key is known.
    let charlie = find_account(&node.chain, "Charlie").unwrap();
    assert_eq!(charlie.balance, 30);
    assert_eq!(charlie.public_key, None);
}

#[test]
fn the_mint_account_cannot_be_registered() {
    let mut node = start_node();
    let key = fresh_key();
    assert_eq!(
        register(&mut node.chain, "System", &key),
        Err(Refusal::BadRequest("'System' is reserved by the node".to_string()))
    );
}

#[test]
fn a_malformed_key_is_a_bad_request() {
    let mut node = start_node();
    let not_hex = RegisterAccount { name: "Dave".to_string(), public_key: "zz".to_string() };
    assert!(matches!(register_account(&mut node.chain, not_hex), Err(Refusal::BadRequest(_))));
    let short = RegisterAccount { name: "Dave".to_string(), public_key: "abcd".to_string() };
    assert_eq!(
        register_account(&mut node.chain, short).unwrap_err(),
        Refusal::BadRequest("public key must be 32 bytes".to_string())
    );
    assert!(node.chain.public_key("Dave").is_none());
}

#[test]
fn keys_and_signatures_decode_around_white_space() {
    let key = fresh_key();
    let text = format!("  {}\n", hex::encode(key.public_key().bytes));
    assert_eq!(decode_public_key(&text), Ok(key.public_key()));

    let signature = key.sign(b"message");
    let text = format!("\t{} ", hex::encode(signature.bytes));
    assert_eq!(decode_signature(&text), Ok(signature));

    assert!(decode_signature("not hex").unwrap_err().starts_with("signature is not valid hex: "));
    assert_eq!(decode_signature("abcd"), Err("signature must be 64 bytes".to_string()));
    assert!(decode_public_key("xyz").unwrap_err().starts_with("public key is not valid hex: "));
}

#[test]
fn a_point_off_the_curve_is_not_a_key() {
    // The y coordinate 2 has no x on the curve: it is no public key.
    let mut bytes = [0u8; 32];
    bytes[0] = 2;
    let result = decode_public_key(&hex::encode(bytes));
    assert!(result.unwrap_err().starts_with("invalid ed25519 public key: "));
}

#[test]
fn an_anchored_reading_is_a_zero_transfer_to_itself() {
    let mut node = start_node();
    let sensor = fresh_key();
    register(&mut node.chain, "termometro", &sensor).unwrap();

    let payload = Transaction::unsigned_with_payload(
        "termometro".to_string(),
        "termometro".to_string(),
        0,
        0,
        Some("22.5".to_string()),
    )
    .signing_payload();
    let reading = CommitReading {
        sensor_id: "termometro".to_string(),
        value: "22.5".to_string(),
        nonce: 0,
        signature: hex::encode(sensor.sign(&payload).bytes),
    };
    let tx = reading.into_transaction().unwrap();
    assert_eq!(tx.sender, "termometro");
    assert_eq!(tx.receiver, "termometro");
    assert_eq!(tx.amount, 0);
    assert_eq!(tx.payload.as_deref(), Some("22.5"));
    assert!(tx.verify(&sensor.public_key()));

    let before = node.chain.balance_of("termometro");
    let id = tx.id.clone();
    submit(tx, &mut node.chain, &node.identity).unwrap();
    assert_eq!(node.chain.balance_of("termometro"), before);
    assert_eq!(node.chain.get_transaction(&id).unwrap().payload.as_deref(), Some("22.5"));

    // Reformatting the value breaks the signature.
    let reformatted = CommitReading {
        sensor_id: "termometro".to_string(),
        value: "22.50".to_string(),
        nonce: 1,
        signature: hex::encode(sensor.sign(&payload).bytes),
    };
    let tx = reformatted.into_transaction().unwrap();
    assert!(!tx.verify(&sensor.public_key()));
}

#[test]
fn each_submit_error_has_its_answer() {
    assert_eq!(refusal_of(SubmitError::Rejected("no".to_string())), Refusal::BadRequest("no".to_string()));
    assert_eq!(
        refusal_of(SubmitError::Busy("full".to_string())),
        Refusal::TooManyRequests { message: "full".to_string(), retry_after: BLOCK_TIME_SECS }
    );
    assert_eq!(refusal_of(SubmitError::Internal("oops".to_string())), Refusal::Internal("oops".to_string()));
    assert_eq!(retry_after_seconds(), 5);
    assert_eq!(SubmitError::Busy("full".to_string()).message(), "full");
}

#[test]
fn a_full_mempool_makes_the_node_busy() {
    let mut node = start_node();
    let filler = "x".repeat(blockrock::transaction::MAX_PAYLOAD_BYTES);
    // Fill the pool without sealing, then submit once more.
    let mut i = 0;
    loop {
        let name = format!("sensore{}", i);
        let key = fresh_key();
        node.chain.add_public_key(&name, key.public_key());
        let reading = Transaction::new_with_payload(name.clone(), name, 0, 0, Some(filler.clone()), &key);
        if node.chain.queue_transaction(reading).is_err() {
            break;
        }
        i += 1;
    }
    let key = fresh_key();
    node.chain.add_public_key("ultimo", key.public_key());
    let reading =
        Transaction::new_with_payload("ultimo".to_string(), "ultimo".to_string(), 0, 0, Some(filler), &key);
    let error = submit(reading, &mut node.chain, &node.identity).unwrap_err();
    assert!(matches!(error, SubmitError::Busy(_)));
    assert!(matches!(refusal_of(error), Refusal::TooManyRequests { retry_after: 5, .. }));
}

#[test]
fn a_seal_that_fails_reports_why() {
    let mut node = start_node();
    let alice = fresh_key();
    register(&mut node.chain, "Alice", &alice).unwrap();
    // A node whose identity is not an authority of this chain.
    let stranger = NodeIdentity { name: "stranger".to_string(), signing_key: fresh_key() };
    let error = submit(transfer(&alice, "Alice", "Bob", 10, 0), &mut node.chain, &stranger).unwrap_err();
    assert_eq!(error, SubmitError::Internal("'stranger' is not an authorized authority".to_string()));
    assert_eq!(node.chain.pending_count(), 1);
}
