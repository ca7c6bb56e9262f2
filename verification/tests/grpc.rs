use blockrock::blockchain::Blockchain;
use blockrock::crypto::SecretKey;
use blockrock::grpc::{
    accepted, block_message, decode_signature, get_account, get_balances, get_blocks, get_transaction, status_of,
    Status,
    StatusCode, SubmitTransactionRequest,
};
use blockrock::node::{submit, NodeIdentity, SubmitError};
use blockrock::transaction::Transaction;
use rand::rngs::OsRng;

fn fresh_key() -> SecretKey {
    SecretKey::from_bytes(ed25519_dalek::SigningKey::generate(&mut OsRng).to_bytes())
}

fn sign(key: &SecretKey, sender: &str, receiver: &str, amount: u64, nonce: u64) -> String {
    let payload = Transaction::unsigned(sender.to_string(), receiver.to_string(), amount, nonce).signing_payload();
    hex::encode(key.sign(&payload).bytes)
}

struct Server {
    chain: Blockchain,
    identity: NodeIdentity,
    alice: SecretKey,
}

fn start() -> Server {
    let authority = fresh_key();
    let alice = fresh_key();
    let mut chain = Blockchain::new_single("blockrock".to_string());
    chain.register_authority("blockrock", authority.public_key());
    chain.add_public_key("Alice", alice.public_key());
    Server { chain, identity: NodeIdentity { name: "blockrock".to_string(), signing_key: authority }, alice }
}

/// What the service does with a submission: decode it, submit it through
/// the node, answer with the id and the pending count or with a status.
fn submit_transaction(server: &mut Server, request: SubmitTransactionRequest) -> Result<(String, u64), Status> {
    let transaction = request.into_transaction()?;
    let (queued, _) = submit(transaction, &mut server.chain, &server.identity).map_err(status_of)?;
    let response = accepted(queued);
    Ok((response.id, response.pending))
}

#[test]
fn a_transfer_submitted_over_grpc_lands_on_chain() {
    let mut server = start();
    let signature = sign(&server.alice, "Alice", "Bob", 30, 0);
    let (id, pending) = submit_transaction(
        &mut server,
        SubmitTransactionRequest {
            sender: "Alice".to_string(),
            receiver: "Bob".to_string(),
            amount: 30,
            nonce: 0,
            signature,
            payload: None,
        },
    )
    .expect("the transfer is accepted");
    assert_eq!(pending, 1);

    let found = get_transaction(&server.chain, &id).unwrap();
    assert_eq!(found.sender, "Alice");
    assert_eq!(found.recipient, "Bob");
    assert_eq!(found.amount, 30);

    let balances = get_balances(&server.chain);
    assert_eq!(balances.get("Alice"), Some(70));
    assert_eq!(balances.get("Bob"), Some(80));

    let account = get_account(&server.chain, "Alice").unwrap();
    assert_eq!(account.next_nonce, 1);
    assert!(account.public_key.is_some());

    let blocks = get_blocks(&server.chain);
    assert_eq!(blocks.len(), 2, "genesis and the sealed block");
    assert_eq!(blocks[1].transactions.len(), 1);
    assert_eq!(blocks[1].transactions[0].id, id);
}

#[test]
fn a_reading_anchored_over_grpc_keeps_its_payload() {
    let mut server = start();
    let payload = Transaction::unsigned_with_payload(
        "Alice".to_string(),
        "Alice".to_string(),
        0,
        0,
        Some("22.5".to_string()),
    )
    .signing_payload();
    let signature = hex::encode(server.alice.sign(&payload).bytes);
    let (id, _) = submit_transaction(
        &mut server,
        SubmitTransactionRequest {
            sender: "Alice".to_string(),
            receiver: "Alice".to_string(),
            amount: 0,
            nonce: 0,
            signature,
            payload: Some("22.5".to_string()),
        },
    )
    .unwrap();

    let found = get_transaction(&server.chain, &id).unwrap();
    assert_eq!(found.payload.as_deref(), Some("22.5"));
}

#[test]
fn a_badly_signed_transfer_is_refused_with_invalid_argument() {
    let mut server = start();
    let intruder = fresh_key();
    let status = submit_transaction(
        &mut server,
        SubmitTransactionRequest {
            sender: "Alice".to_string(),
            receiver: "Bob".to_string(),
            amount: 30,
            nonce: 0,
            signature: sign(&intruder, "Alice", "Bob", 30, 0),
            payload: None,
        },
    )
    .expect_err("a wrong signature must not pass");
    assert_eq!(status.code, StatusCode::InvalidArgument, "the caller's fault: {}", status.message);
}

#[test]
fn minting_is_refused_on_the_grpc_door_too() {
    let mut server = start();
    let signature = sign(&server.alice, "System", "Alice", 1000, 0);
    let status = submit_transaction(
        &mut server,
        SubmitTransactionRequest {
            sender: "System".to_string(),
            receiver: "Alice".to_string(),
            amount: 1000,
            nonce: 0,
            signature,
            payload: None,
        },
    )
    .expect_err("minting goes through no door");
    assert_eq!(status.code, StatusCode::InvalidArgument);
    assert!(status.message.contains("mints value"));
}

#[test]
fn a_signature_that_does_not_decode_is_an_invalid_argument() {
    let mut server = start();
    let status = submit_transaction(
        &mut server,
        SubmitTransactionRequest {
            sender: "Alice".to_string(),
            receiver: "Bob".to_string(),
            amount: 1,
            nonce: 0,
            signature: "abcd".to_string(),
            payload: None,
        },
    )
    .unwrap_err();
    assert_eq!(status, Status { code: StatusCode::InvalidArgument, message: "signature must be 64 bytes".to_string() });
    // This door takes the signature as it comes: surrounding blanks are not hex.
    let key = fresh_key();
    let text = format!(" {}", hex::encode(key.sign(b"x").bytes));
    assert!(decode_signature(&text).unwrap_err().starts_with("signature is not valid hex: "));
    assert_eq!(decode_signature(text.trim()), Ok(key.sign(b"x")));
}

#[test]
fn unknown_ids_and_accounts_are_not_found() {
    let server = start();
    assert_eq!(
        get_transaction(&server.chain, "nope").unwrap_err(),
        Status { code: StatusCode::NotFound, message: "Transaction not found".to_string() }
    );
    assert_eq!(
        get_account(&server.chain, "Nobody").unwrap_err(),
        Status { code: StatusCode::NotFound, message: "unknown account 'Nobody'".to_string() }
    );
}

#[test]
fn each_submit_error_has_its_code() {
    assert_eq!(status_of(SubmitError::Rejected("a".to_string())).code, StatusCode::InvalidArgument);
    assert_eq!(status_of(SubmitError::Busy("b".to_string())).code, StatusCode::ResourceExhausted);
    assert_eq!(
        status_of(SubmitError::Internal("c".to_string())),
        Status { code: StatusCode::Internal, message: "c".to_string() }
    );
}

#[test]
fn a_block_summary_carries_every_field() {
    let server = start();
    let genesis = &server.chain.blocks[0];
    let summary = block_message(genesis);
    assert_eq!(summary.index, 0);
    assert_eq!(summary.timestamp, 0);
    assert_eq!(summary.previous_hash, "0");
    assert_eq!(summary.hash, genesis.hash);
    assert_eq!(summary.authority, "blockrock");
    assert!(summary.transactions.is_empty());
}
