use blockrock::accounts::AccountMap;
use blockrock::blockchain::Blockchain;
use blockrock::crypto::{PublicKey, SecretKey};
use blockrock::error::ChainError;
use blockrock::sync::{
    announcement_of, apply_announcement, apply_snapshot, merge_accounts, snapshot_of, BlockAnnouncement,
    BlockOutcome,
};
use blockrock::transaction::Transaction;
use rand::rngs::OsRng;

fn fresh_key() -> SecretKey {
    SecretKey::from_bytes(ed25519_dalek::SigningKey::generate(&mut OsRng).to_bytes())
}

struct Network {
    authority: SecretKey,
    alice: SecretKey,
}

impl Network {
    fn new() -> Self {
        Network { authority: fresh_key(), alice: fresh_key() }
    }

    /// A node that trusts the authority but has never heard of Alice.
    fn node(&self) -> Blockchain {
        let mut chain = Blockchain::new_single("blockrock".to_string());
        chain.register_authority("blockrock", self.authority.public_key());
        chain
    }

    fn seal_transfer(&self, chain: &mut Blockchain, amount: u64, nonce: u64) {
        let tx = Transaction::new("Alice".to_string(), "Bob".to_string(), amount, nonce, &self.alice);
        chain.add_block(vec![tx], "blockrock", &self.authority).unwrap();
    }
}

#[test]
fn an_announced_block_is_appended_and_teaches_the_sender_key() {
    let network = Network::new();
    let mut author = network.node();
    author.add_public_key("Alice", network.alice.public_key());
    network.seal_transfer(&mut author, 20, 0);

    let mut receiver = network.node();
    let announcement = announcement_of(&author, author.blocks[1].clone());

    assert_eq!(apply_announcement(&mut receiver, announcement).unwrap(), BlockOutcome::Appended);
    assert_eq!(receiver.balance_of("Alice"), 80);
    assert!(receiver.public_key("Alice").is_some());
    assert!(receiver.validate_chain());
}

#[test]
fn a_block_already_held_is_not_applied_twice() {
    let network = Network::new();
    let mut author = network.node();
    author.add_public_key("Alice", network.alice.public_key());
    network.seal_transfer(&mut author, 20, 0);

    let mut receiver = network.node();
    let announcement = announcement_of(&author, author.blocks[1].clone());
    apply_announcement(&mut receiver, announcement.clone()).unwrap();

    assert_eq!(apply_announcement(&mut receiver, announcement).unwrap(), BlockOutcome::Known);
    assert_eq!(receiver.blocks.len(), 2);
    assert_eq!(receiver.balance_of("Alice"), 80);
}

#[test]
fn a_block_from_the_future_asks_for_the_whole_chain() {
    let network = Network::new();
    let mut author = network.node();
    author.add_public_key("Alice", network.alice.public_key());
    network.seal_transfer(&mut author, 10, 0);
    network.seal_transfer(&mut author, 10, 1);

    let mut receiver = network.node();
    let announcement = announcement_of(&author, author.blocks[2].clone());

    assert_eq!(apply_announcement(&mut receiver, announcement).unwrap(), BlockOutcome::OutOfOrder);
    assert_eq!(receiver.blocks.len(), 1);

    // Which is exactly what the snapshot settles.
    assert!(apply_snapshot(&mut receiver, snapshot_of(&author)).unwrap());
    assert_eq!(receiver.blocks.len(), 3);
    assert_eq!(receiver.balance_of("Alice"), 80);
}

#[test]
fn a_shorter_snapshot_never_rewinds_us() {
    let network = Network::new();
    let mut author = network.node();
    author.add_public_key("Alice", network.alice.public_key());
    network.seal_transfer(&mut author, 10, 0);

    let behind = network.node();
    assert!(!apply_snapshot(&mut author, snapshot_of(&behind)).unwrap());
    assert_eq!(author.blocks.len(), 2);
}

#[test]
fn a_peer_cannot_rebind_an_account_we_already_know() {
    let network = Network::new();
    let mut receiver = network.node();
    receiver.add_public_key("Alice", network.alice.public_key());

    let impostor = fresh_key();
    let mut accounts: AccountMap<PublicKey> = AccountMap::new();
    accounts.insert("Alice".to_string(), impostor.public_key());
    merge_accounts(&mut receiver, accounts);

    assert_eq!(receiver.public_key("Alice"), Some(network.alice.public_key()));
}

#[test]
fn a_block_sealed_by_an_untrusted_key_is_rejected() {
    let network = Network::new();
    let mut author = network.node();
    author.add_public_key("Alice", network.alice.public_key());
    network.seal_transfer(&mut author, 20, 0);

    // A node that trusts a different authority key.
    let other = Network::new();
    let mut receiver = other.node();
    let announcement = announcement_of(&author, author.blocks[1].clone());

    assert_eq!(apply_announcement(&mut receiver, announcement), Err(ChainError::InvalidSeal(1)));
    assert_eq!(receiver.blocks.len(), 1);
}

/// A chain like an honest node's: one authority, Alice.
fn honest_chain() -> (Blockchain, SecretKey) {
    let alice = fresh_key();
    let mut chain = Blockchain::new_single("alice".to_string());
    chain.register_authority("alice", alice.public_key());
    (chain, alice)
}

#[test]
fn a_rejected_block_leaves_no_trace() {
    let (mut chain, _alice) = honest_chain();
    let mallory = fresh_key();

    // Mallory builds a chain of her own and announces one of its blocks,
    // attaching her own key among the accounts.
    let mut theirs = Blockchain::new_single("mallory".to_string());
    theirs.register_authority("mallory", mallory.public_key());
    theirs.add_block(Vec::new(), "mallory", &mallory).unwrap();
    let block = theirs.blocks.last().unwrap().clone();

    let mut accounts: AccountMap<PublicKey> = AccountMap::new();
    accounts.insert("mallory".to_string(), mallory.public_key());

    let outcome = apply_announcement(&mut chain, BlockAnnouncement { block, accounts });
    assert!(outcome.is_err(), "the block must be refused");

    assert!(chain.public_key("mallory").is_none(), "a refused block must not teach us its sender's key");
    assert!(!chain.authorities.contains("mallory"), "a refused block must not promote its sender to authority");
    assert!(
        !chain.clone().add_block(Vec::new(), "mallory", &mallory).is_ok(),
        "and mallory must not be able to seal on our chain"
    );
}

#[test]
fn an_announcement_cannot_squat_names_the_block_never_mentions() {
    let (mut chain, alice) = honest_chain();
    let mut author = chain.clone();
    author.add_block(Vec::new(), "alice", &alice).unwrap();
    let block = author.blocks.last().unwrap().clone();

    let intruder = fresh_key();
    let mut accounts: AccountMap<PublicKey> = AccountMap::new();
    accounts.insert("termometro".to_string(), intruder.public_key());

    apply_announcement(&mut chain, BlockAnnouncement { block, accounts }).expect("the block is valid and is accepted");

    assert!(chain.public_key("termometro").is_none(), "the block never names 'termometro': the name stays free");
}

#[test]
fn the_sender_key_of_a_valid_block_is_still_learned() {
    let (mut chain, alice) = honest_chain();
    let sensor = fresh_key();

    let mut author = chain.clone();
    author.add_public_key("termometro", sensor.public_key());
    let reading = Transaction::new_with_payload(
        "termometro".to_string(),
        "termometro".to_string(),
        0,
        0,
        Some("22.5".to_string()),
        &sensor,
    );
    author.add_block(vec![reading], "alice", &alice).unwrap();
    let block = author.blocks.last().unwrap().clone();

    let mut accounts: AccountMap<PublicKey> = AccountMap::new();
    accounts.insert("termometro".to_string(), sensor.public_key());

    apply_announcement(&mut chain, BlockAnnouncement { block, accounts })
        .expect("a valid block holding a reading is accepted");

    assert!(chain.public_key("termometro").is_some(), "the sender's key is needed to verify the transaction");
}
