use blockrock::blockchain::Blockchain;
use blockrock::crypto::SecretKey;
use blockrock::error::ChainError;
use blockrock::sync::{
    announcement_of, handle_sync_event, snapshot_of, PeerBook, SyncEvent, SyncRequest, SyncResponse,
};
use blockrock::transaction::Transaction;
use rand::rngs::OsRng;

fn fresh_key() -> SecretKey {
    SecretKey::from_bytes(ed25519_dalek::SigningKey::generate(&mut OsRng).to_bytes())
}

struct Network {
    authority: SecretKey,
    alice: SecretKey,
}

impl Network {
    fn new() -> Self {
        Network { authority: fresh_key(), alice: fresh_key() }
    }

    fn node(&self) -> Blockchain {
        let mut chain = Blockchain::new_single("blockrock".to_string());
        chain.register_authority("blockrock", self.authority.public_key());
        chain
    }

    fn author(&self, transfers: u64) -> Blockchain {
        let mut chain = self.node();
        chain.add_public_key("Alice", self.alice.public_key());
        for nonce in 0..transfers {
            let tx = Transaction::new("Alice".to_string(), "Bob".to_string(), 10, nonce, &self.alice);
            chain.add_block(vec![tx], "blockrock", &self.authority).unwrap();
        }
        chain
    }
}

#[test]
fn a_request_for_the_chain_is_answered_with_all_of_it() {
    let network = Network::new();
    let mut author = network.author(2);
    let reaction = handle_sync_event(&mut author, SyncEvent::Request(SyncRequest::GetChain));
    match reaction.reply {
        Some(SyncResponse::Chain(snapshot)) => {
            assert_eq!(snapshot.blocks.len(), 3);
            assert_eq!(snapshot.blocks, author.blocks);
            assert!(snapshot.accounts.contains_key("Alice"));
        },
        _ => panic!("the chain must be sent"),
    }
    assert!(!reaction.ask_for_chain);
    assert!(!reaction.persist);
    assert!(reaction.refused.is_none());
}

#[test]
fn an_appended_block_is_acknowledged_and_persisted() {
    let network = Network::new();
    let author = network.author(1);
    let mut receiver = network.node();
    let announcement = announcement_of(&author, author.blocks[1].clone());

    let reaction = handle_sync_event(&mut receiver, SyncEvent::Request(SyncRequest::NewBlock(announcement.clone())));
    assert!(matches!(reaction.reply, Some(SyncResponse::Ack)));
    assert!(reaction.persist);
    assert!(!reaction.ask_for_chain);
    assert_eq!(receiver.blocks.len(), 2);

    // The same block again is known: nothing to do.
    let reaction = handle_sync_event(&mut receiver, SyncEvent::Request(SyncRequest::NewBlock(announcement)));
    assert!(matches!(reaction.reply, Some(SyncResponse::Ack)));
    assert!(!reaction.persist);
    assert!(!reaction.ask_for_chain);
    assert!(reaction.refused.is_none());
    assert_eq!(receiver.blocks.len(), 2);
}

#[test]
fn a_block_out_of_order_asks_for_the_chain_and_the_answer_is_adopted() {
    let network = Network::new();
    let author = network.author(2);
    let mut receiver = network.node();
    let announcement = announcement_of(&author, author.blocks[2].clone());

    let reaction = handle_sync_event(&mut receiver, SyncEvent::Request(SyncRequest::NewBlock(announcement)));
    assert!(reaction.ask_for_chain);
    assert!(!reaction.persist);
    assert_eq!(receiver.blocks.len(), 1);

    let reaction = handle_sync_event(&mut receiver, SyncEvent::Response(SyncResponse::Chain(snapshot_of(&author))));
    assert!(reaction.reply.is_none());
    assert!(reaction.persist);
    assert_eq!(receiver.blocks.len(), 3);
    assert_eq!(receiver.balance_of("Alice"), 80);

    // The same chain again changes nothing.
    let reaction = handle_sync_event(&mut receiver, SyncEvent::Response(SyncResponse::Chain(snapshot_of(&author))));
    assert!(!reaction.persist);
    assert!(reaction.refused.is_none());
}

#[test]
fn a_refused_block_is_acknowledged_and_reported() {
    let network = Network::new();
    let author = network.author(1);
    let other = Network::new();
    let mut receiver = other.node();
    let announcement = announcement_of(&author, author.blocks[1].clone());

    let reaction = handle_sync_event(&mut receiver, SyncEvent::Request(SyncRequest::NewBlock(announcement)));
    assert!(matches!(reaction.reply, Some(SyncResponse::Ack)));
    assert_eq!(reaction.refused, Some(ChainError::InvalidSeal(1)));
    assert!(!reaction.persist);
    assert_eq!(receiver.blocks.len(), 1);
}

#[test]
fn a_chain_from_another_network_is_reported() {
    let network = Network::new();
    let mut receiver = network.node();
    let stranger_key = fresh_key();
    let mut stranger = Blockchain::new_single("elsewhere".to_string());
    stranger.register_authority("elsewhere", stranger_key.public_key());
    stranger.add_block(Vec::new(), "elsewhere", &stranger_key).unwrap();

    let reaction = handle_sync_event(&mut receiver, SyncEvent::Response(SyncResponse::Chain(snapshot_of(&stranger))));
    assert_eq!(reaction.refused, Some(ChainError::GenesisMismatch));
    assert!(!reaction.persist);
    assert_eq!(receiver.blocks.len(), 1);
}

#[test]
fn an_acknowledgement_needs_nothing() {
    let network = Network::new();
    let mut receiver = network.node();
    let reaction = handle_sync_event(&mut receiver, SyncEvent::Response(SyncResponse::Ack));
    assert!(reaction.reply.is_none());
    assert!(!reaction.ask_for_chain);
    assert!(!reaction.persist);
    assert!(reaction.refused.is_none());
}

#[test]
fn a_peer_is_asked_for_its_chain_once_per_discovery() {
    let mut book = PeerBook::new();
    assert!(book.discovered("peer-a".to_string()));
    assert!(!book.discovered("peer-a".to_string()));
    assert!(book.discovered("peer-b".to_string()));
    book.expired("peer-a");
    assert!(book.discovered("peer-a".to_string()));
}

#[test]
fn blocks_are_announced_to_connected_peers_only() {
    let mut book = PeerBook::new();
    assert!(book.recipients().is_empty());
    book.connection_established("peer-a".to_string());
    book.connection_established("peer-b".to_string());
    book.connection_established("peer-a".to_string());
    let mut peers = book.recipients();
    peers.sort();
    assert_eq!(peers, vec!["peer-a".to_string(), "peer-b".to_string()]);

    // Another connection to the same peer is still open.
    book.connection_closed("peer-a", 1);
    assert_eq!(book.recipients().len(), 2);
    book.connection_closed("peer-a", 0);
    assert_eq!(book.recipients(), vec!["peer-b".to_string()]);
    // Discovery does not make a peer a recipient.
    book.discovered("peer-c".to_string());
    assert_eq!(book.recipients(), vec!["peer-b".to_string()]);
}

#[test]
fn a_node_catches_up_and_then_follows_new_blocks() {
    let authority = fresh_key();
    let alice = fresh_key();

    // Both nodes trust the same authority; only the author knows Alice.
    let mut author = Blockchain::new_single("blockrock".to_string());
    author.register_authority("blockrock", authority.public_key());
    author.add_public_key("Alice", alice.public_key());
    let mut follower = Blockchain::new_single("blockrock".to_string());
    follower.register_authority("blockrock", authority.public_key());
    assert_eq!(author.genesis_hash(), follower.genesis_hash());

    let tx = Transaction::new("Alice".to_string(), "Bob".to_string(), 30, 0, &alice);
    author.add_block(vec![tx], "blockrock", &authority).unwrap();

    // The follower asks for the chain, as it does on discovery; the author's
    // answer is handed back to the follower.
    let answer = handle_sync_event(&mut author, SyncEvent::Request(SyncRequest::GetChain));
    let snapshot = match answer.reply {
        Some(SyncResponse::Chain(snapshot)) => snapshot,
        _ => panic!("the author answers with its chain"),
    };
    let reaction = handle_sync_event(&mut follower, SyncEvent::Response(SyncResponse::Chain(snapshot)));
    assert!(reaction.persist, "the follower should have adopted the author's chain");
    assert_eq!(follower.blocks.len(), 2);
    assert_eq!(follower.balance_of("Alice"), 70);
    assert_eq!(follower.balance_of("Bob"), 80);
    // The sender key travelled with the chain, so the block verifies.
    assert_eq!(follower.public_key("Alice"), Some(alice.public_key()));
    assert!(follower.validate_chain());

    // A block sealed afterwards is pushed to the peer.
    let tx = Transaction::new("Alice".to_string(), "Charlie".to_string(), 20, 1, &alice);
    author.add_block(vec![tx], "blockrock", &authority).unwrap();
    let announcement = announcement_of(&author, author.blocks.last().unwrap().clone());
    let reaction = handle_sync_event(&mut follower, SyncEvent::Request(SyncRequest::NewBlock(announcement)));
    assert!(reaction.persist, "the follower should have appended the announced block");

    assert_eq!(follower.blocks.len(), 3);
    assert_eq!(follower.balance_of("Alice"), 50);
    assert_eq!(follower.balance_of("Charlie"), 50);
    assert_eq!(follower.next_nonce("Alice"), 2);
    assert!(follower.validate_chain());
}
