use blake2::Blake2b512;
use blockrock::accounts::{AccountMap, NameSet};
use blockrock::block::Block;
use blockrock::config::parse_authorities;
use blockrock::crypto::{PublicKey, SecretKey, Signature};
use blockrock::encoding::decimal_string;
use blockrock::error::ChainError;
use blockrock::node::{record_failure, ChainStore, NodeIdentity};
use blockrock::order::byte_order_of;
use blockrock::encoding::string_from_chars;
use blockrock::text::{chars_of, is_whitespace, parse_u64_chars, split_words, trim};
use blockrock::transaction::Transaction;
use rand::rngs::OsRng;
use sha2::Digest;

fn fresh_key() -> SecretKey {
    SecretKey::from_bytes(ed25519_dalek::SigningKey::generate(&mut OsRng).to_bytes())
}

#[test]
fn hex_is_read_in_either_case_and_written_in_lower_case() {
    let key = fresh_key();
    let upper = hex::encode_upper(key.public_key().bytes);
    assert_eq!(blockrock::api::decode_public_key(&upper), Ok(key.public_key()));
    let odd = &upper[1..];
    assert!(blockrock::api::decode_public_key(odd).is_err());
    let mut chain = blockrock::blockchain::Blockchain::new_single("n".to_string());
    chain.add_public_key("k", key.public_key());
    let state = blockrock::api::account_state(&chain, "k".to_string());
    assert_eq!(state.public_key, Some(hex::encode(key.public_key().bytes)));
}

#[test]
fn decimal_numerals_have_no_leading_zeros() {
    assert_eq!(decimal_string(0), "0");
    assert_eq!(decimal_string(7), "7");
    assert_eq!(decimal_string(1230), "1230");
    assert_eq!(decimal_string(u64::MAX), "18446744073709551615");
}

#[test]
fn text_helpers_follow_std() {
    assert_eq!(trim("  a b \n"), "a b");
    assert_eq!(trim("\u{3000}x\u{a0}"), "x");
    assert_eq!(trim("   "), "");
    let words: Vec<String> =
        split_words(&chars_of(" cpu  1\t2 ")).iter().map(|w| w.iter().collect()).collect();
    assert_eq!(words, vec!["cpu", "1", "2"]);
    assert_eq!(parse_u64_chars(&chars_of("42")), Some(42));
    assert_eq!(parse_u64_chars(&chars_of("+42")), Some(42));
    assert_eq!(parse_u64_chars(&chars_of("18446744073709551615")), Some(u64::MAX));
    assert_eq!(parse_u64_chars(&chars_of("18446744073709551616")), None);
    assert_eq!(parse_u64_chars(&chars_of("-1")), None);
    assert_eq!(parse_u64_chars(&chars_of("")), None);
    assert_eq!(parse_u64_chars(&chars_of("+")), None);
}

#[test]
fn bytes_are_ordered_lexicographically() {
    assert_eq!(byte_order_of(b"Alice", b"Bob"), -1);
    assert_eq!(byte_order_of(b"Bob", b"Alice"), 1);
    assert_eq!(byte_order_of(b"Al", b"Alice"), -1);
    assert_eq!(byte_order_of(b"same", b"same"), 0);
}

#[test]
fn an_account_map_keeps_one_binding_per_name() {
    let mut map: AccountMap<u64> = AccountMap::new();
    map.insert("a".to_string(), 1);
    map.insert("b".to_string(), 2);
    map.insert("a".to_string(), 3);
    assert_eq!(map.len(), 2);
    assert_eq!(map.get("a"), Some(3));
    assert_eq!(map.get("c"), None);
    assert!(map.contains_key("b"));
    let copy = map.clone();
    assert_eq!(copy.entries().len(), 2);
    map.remove("a");
    map.remove("zzz");
    assert_eq!(map.len(), 1);
    assert_eq!(map.get("a"), None);
    assert_eq!(map.get("b"), Some(2));
    assert_eq!(copy.get("a"), Some(3));

    let mut names = NameSet::new();
    names.insert("x".to_string());
    names.insert("x".to_string());
    assert_eq!(names.len(), 1);
    assert!(names.contains("x"));
    assert!(!names.contains("y"));
    assert_eq!(names.names(), vec!["x".to_string()]);
    names.remove("x");
    assert_eq!(names.len(), 0);
}

#[test]
fn a_signature_verifies_only_the_message_and_the_key_it_was_made_for() {
    let key = fresh_key();
    let other = fresh_key();
    let signature = key.sign(b"hello");
    assert!(key.public_key().verify(b"hello", &signature));
    assert!(!key.public_key().verify(b"hellp", &signature));
    assert!(!other.public_key().verify(b"hello", &signature));
    let dalek = ed25519_dalek::SigningKey::from_bytes(&key.seed);
    assert_eq!(key.public_key(), PublicKey::from_bytes(dalek.verifying_key().to_bytes()));
    assert_eq!(signature, Signature::from_bytes(ed25519_dalek::Signer::sign(&dalek, b"hello").to_bytes()));
    assert!(key.public_key().check().is_ok());
    assert!(key.public_key().same_as(&key.public_key()));
    assert!(!key.public_key().same_as(&other.public_key()));
}

#[test]
fn the_block_hash_is_the_first_half_of_its_blake2b_digest() {
    let block = Block::with_timestamp(3, Vec::new(), "prev".to_string(), "auth".to_string(), 9);
    let mut preimage = Vec::new();
    preimage.extend_from_slice(&3u32.to_le_bytes());
    preimage.extend_from_slice(&9u64.to_le_bytes());
    preimage.extend_from_slice(b"prev");
    preimage.extend_from_slice(b"auth");
    let digest = Blake2b512::digest(&preimage);
    assert_eq!(block.hash, hex::encode(&digest[..32]));
    assert_eq!(block.calculate_hash(), block.hash);
    assert!(block.is_hash_valid());
}

#[test]
fn a_sealed_block_verifies_under_its_authority_only() {
    let authority = fresh_key();
    let other = fresh_key();
    let mut block = Block::with_timestamp(1, Vec::new(), "p".to_string(), "a".to_string(), 1);
    assert!(!block.verify_seal(&authority.public_key()));
    block.seal(&authority);
    assert!(block.verify_seal(&authority.public_key()));
    assert!(!block.verify_seal(&other.public_key()));
    let mut expected = b"blockrock.block.v1".to_vec();
    expected.extend_from_slice(block.hash.as_bytes());
    assert_eq!(block.signing_payload(), expected);
}

#[test]
fn every_refusal_explains_itself() {
    let cases = vec![
        (ChainError::UnauthorizedAuthority("n".to_string()), "'n' is not an authorized authority"),
        (ChainError::UnknownAuthorityKey("n".to_string()), "no public key registered for authority 'n'"),
        (ChainError::AuthorityKeyMismatch("n".to_string()), "signing key does not match the key registered for 'n'"),
        (ChainError::UnsealedBlock(4), "block 4 carries no seal"),
        (ChainError::InvalidSeal(4), "block 4 has an invalid seal"),
        (ChainError::WrongIndex { expected: 2, found: 10 }, "expected block index 2, found 10"),
        (ChainError::BrokenLink(4), "block 4 does not link to the previous hash"),
        (ChainError::CorruptedHash(4), "block 4 hash does not match its content"),
        (ChainError::GenesisMismatch, "the chains do not share the same genesis block"),
        (ChainError::DuplicateTransaction("t".to_string()), "transaction t is already on chain"),
        (ChainError::TamperedTransaction("t".to_string()), "transaction t id does not match its content"),
        (ChainError::UnknownSender("s".to_string()), "no public key registered for 's'"),
        (ChainError::InvalidSignature("t".to_string()), "transaction t has an invalid signature"),
        (
            ChainError::InvalidNonce { sender: "s".to_string(), expected: 1, found: 0 },
            "'s' expected nonce 1, found 0",
        ),
        (ChainError::NonceOverflow("s".to_string()), "'s' has no nonce left"),
        (
            ChainError::InsufficientFunds { sender: "s".to_string(), balance: 0, amount: 100 },
            "'s' holds 0 but tried to send 100",
        ),
        (ChainError::BalanceOverflow("r".to_string()), "balance overflow for 'r'"),
        (
            ChainError::PayloadTooLarge { id: "t".to_string(), size: 4097, max: 4096 },
            "transaction t carries 4097 bytes of payload, at most 4096 allowed",
        ),
        (
            ChainError::MempoolFull { queued: 10, max: 20 },
            "the mempool holds 10 bytes, at most 20: retry after the next block",
        ),
    ];
    for (error, text) in cases {
        assert_eq!(error.message(), text);
    }
}

#[test]
fn a_transaction_describes_itself_in_one_line() {
    let tx = Transaction::unsigned("Alice".to_string(), "Bob".to_string(), 30, 7);
    assert_eq!(tx.description(), format!("Transaction: Alice -> Bob (30, nonce: 7, id: {})", tx.id));
}

#[test]
fn an_identity_needs_a_seed_of_exactly_32_bytes() {
    let key = fresh_key();
    let identity = NodeIdentity::from_seed_bytes("blockrock".to_string(), &key.seed.to_vec()).unwrap();
    assert_eq!(identity.name, "blockrock");
    assert_eq!(identity.signing_key.public_key(), key.public_key());
    assert!(NodeIdentity::from_seed_bytes("x".to_string(), &vec![0u8; 31]).is_none());
    assert!(NodeIdentity::from_seed_bytes("x".to_string(), &vec![0u8; 33]).is_none());
}

#[test]
fn the_first_failure_is_the_one_kept() {
    let mut slot = None;
    record_failure(&mut slot, "first".to_string());
    record_failure(&mut slot, "second".to_string());
    assert_eq!(slot, Some("first".to_string()));
    assert_eq!(ChainStore::new("data/chain.json".to_string()).path(), "data/chain.json");
}

#[test]
fn initial_authorities_are_parsed_from_name_key_pairs() {
    let alice = fresh_key();
    let bob = fresh_key();
    let raw = format!(
        " alice : {} ,, bob:{}\n",
        hex::encode(alice.public_key().bytes),
        hex::encode(bob.public_key().bytes)
    );
    let parsed = parse_authorities(&raw).unwrap();
    assert_eq!(parsed.len(), 2);
    assert_eq!(parsed.get("alice "), Some(alice.public_key()));
    assert_eq!(parsed.get("bob"), Some(bob.public_key()));
    assert_eq!(parse_authorities("").unwrap().len(), 0);
    assert_eq!(
        parse_authorities("alice").err(),
        Some("INITIAL_AUTHORITIES: expected 'name:pubkey_hex', got 'alice'".to_string())
    );
    assert!(parse_authorities("alice:zz").err().unwrap().starts_with("INITIAL_AUTHORITIES: invalid hex for 'alice': "));
    assert_eq!(
        parse_authorities("alice:abcd").err(),
        Some("INITIAL_AUTHORITIES: 'alice' key must be 32 bytes".to_string())
    );
    let mut off_curve = [0u8; 32];
    off_curve[0] = 2;
    let raw = format!("alice:{}", hex::encode(off_curve));
    assert!(parse_authorities(&raw).err().unwrap().starts_with("INITIAL_AUTHORITIES: invalid key for 'alice': "));
}

#[test]
fn white_space_is_what_std_says_it_is() {
    for code in 0..=0x10ffffu32 {
        if let Some(c) = char::from_u32(code) {
            assert_eq!(is_whitespace(c), c.is_whitespace(), "U+{:04X}", code);
        }
    }
}

#[test]
fn characters_round_trip_through_strings() {
    let text = "gr\u{fc}\u{df} dich, \u{1F600}!";
    let chars = chars_of(text);
    assert_eq!(chars, text.chars().collect::<Vec<char>>());
    assert_eq!(string_from_chars(&chars), text);
}
