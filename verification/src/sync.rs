//! Chain synchronisation between peers: what a node does with the chain a
//! peer sends and with a block a peer announces.

use vstd::prelude::*;
use crate::accounts::{lists, AccountMap, NameSet};
use crate::block::Block;
use crate::blockchain::{lemma_more_keys_keep_consistency, Blockchain};
use crate::crypto::PublicKey;
use crate::error::ChainError;
use crate::ledger::{replay_spec, tip_hash, verify_block_spec, LedgerView};

verus! {

/// A block pushed to peers, with the keys its transactions are verified
/// against: a peer cannot verify a transaction whose sender it never saw
/// registered.
pub struct BlockAnnouncement {
    pub block: Block,
    pub accounts: AccountMap<PublicKey>,
}

/// A whole chain, sent in answer to a request for it.
pub struct ChainSnapshot {
    pub blocks: Vec<Block>,
    pub accounts: AccountMap<PublicKey>,
}

impl Clone for BlockAnnouncement {
    fn clone(&self) -> (copy: Self)
        ensures
            copy.block.equals(self.block),
            copy.accounts@ == self.accounts@,
    {
        BlockAnnouncement { block: self.block.clone(), accounts: self.accounts.clone() }
    }
}

impl Clone for ChainSnapshot {
    fn clone(&self) -> (copy: Self)
        ensures
            copy.blocks@.len() == self.blocks@.len(),
            forall|i: int| 0 <= i < copy.blocks@.len() ==> (#[trigger] copy.blocks@[i]).equals(self.blocks@[i]),
            copy.accounts@ == self.accounts@,
    {
        let mut blocks: Vec<Block> = Vec::new();
        let mut i: usize = 0;
        while i < self.blocks.len()
            invariant
                i <= self.blocks@.len(),
                blocks@.len() == i,
                forall|j: int| 0 <= j < i ==> (#[trigger] blocks@[j]).equals(self.blocks@[j]),
            decreases self.blocks@.len() - i,
        {
            blocks.push(self.blocks[i].clone());
            i = i + 1;
        }
        ChainSnapshot { blocks, accounts: self.accounts.clone() }
    }
}

pub enum SyncRequest {
    /// "Send me your chain", asked of every peer discovered.
    GetChain,
    /// "I just sealed this", pushed to every connected peer.
    NewBlock(BlockAnnouncement),
}

pub enum SyncResponse {
    Chain(ChainSnapshot),
    Ack,
}

#[derive(Debug, Clone, Copy, PartialEq, Eq)]
pub enum BlockOutcome {
    /// Appended to our tip.
    Appended,
    /// We already hold this block.
    Known,
    /// It does not sit at our height: only the full chain can settle it.
    OutOfOrder,
}

/// The names that send a transaction in `block`.
pub open spec fn senders_of(block: Block) -> Set<Seq<char>> {
    Set::new(|name: Seq<char>| exists|i: int| 0 <= i < block.transactions@.len() && (#[trigger] block.transactions@[i]).sender@ == name)
}

/// `known` extended with the keys `offered` for names in `names` that
/// `known` does not bind yet. A binding already known is never replaced.
pub open spec fn learn_keys(
    known: Map<Seq<char>, PublicKey>,
    offered: Map<Seq<char>, PublicKey>,
    names: Set<Seq<char>>,
) -> Map<Seq<char>, PublicKey> {
    Map::new(
        |name: Seq<char>| known.contains_key(name) || (offered.contains_key(name) && names.contains(name)),
        |name: Seq<char>| if known.contains_key(name) { known[name] } else { offered[name] },
    )
}

/// `snapshot` holds the blocks of `chain` and the account keys it knows.
pub open spec fn mirrors(snapshot: ChainSnapshot, chain: Blockchain) -> bool {
    &&& snapshot.blocks@.len() == chain.blocks@.len()
    &&& forall|i: int| 0 <= i < snapshot.blocks@.len() ==> (#[trigger] snapshot.blocks@[i]).equals(chain.blocks@[i])
    &&& snapshot.accounts@ == chain.public_keys@
}

/// The chain with every block, and the account keys it knows.
pub fn snapshot_of(chain: &Blockchain) -> (snapshot: ChainSnapshot)
    ensures
        mirrors(snapshot, *chain),
{
    ChainSnapshot { blocks: chain.get_blocks(), accounts: chain.public_keys.clone() }
}

/// An announcement of `block` carrying the account keys the chain knows.
pub fn announcement_of(chain: &Blockchain, block: Block) -> (announcement: BlockAnnouncement)
    ensures
        announcement.block == block,
        announcement.accounts@ == chain.public_keys@,
{
    BlockAnnouncement { block, accounts: chain.public_keys.clone() }
}

/// Learns the keys of accounts not known yet. An existing binding is never
/// overwritten: a peer cannot rebind a name we already know.
pub fn merge_accounts(chain: &mut Blockchain, accounts: AccountMap<PublicKey>)
    ensures
        final(chain).public_keys@ == learn_keys(old(chain).public_keys@, accounts@, accounts@.dom()),
        forall|name: Seq<char>| #[trigger] old(chain).public_keys@.contains_key(name) ==> final(chain).public_keys@[name]
            == old(chain).public_keys@[name],
        final(chain).blocks@ == old(chain).blocks@,
        final(chain).authority == old(chain).authority,
        final(chain).authorities@ == old(chain).authorities@,
        final(chain).balances@ == old(chain).balances@,
        final(chain).initial_balances@ == old(chain).initial_balances@,
        final(chain).nonces@ == old(chain).nonces@,
        final(chain).mempool@ == old(chain).mempool@,
        old(chain).consistent() ==> final(chain).consistent(),
{
    let listing = accounts.entries();
    let ghost known = chain.public_keys@;
    let mut i: usize = 0;
    while i < listing.len()
        invariant
            i <= listing@.len(),
            lists(listing@, accounts@),
            chain.public_keys@ == learn_keys(
                known,
                accounts@,
                Set::new(|name: Seq<char>| exists|j: int| 0 <= j < i && (#[trigger] listing@[j]).0@ == name),
            ),
            chain.blocks@ == old(chain).blocks@,
            chain.authority == old(chain).authority,
            chain.authorities@ == old(chain).authorities@,
            chain.balances@ == old(chain).balances@,
            chain.initial_balances@ == old(chain).initial_balances@,
            chain.nonces@ == old(chain).nonces@,
            chain.mempool@ == old(chain).mempool@,
            known == old(chain).public_keys@,
        decreases listing@.len() - i,
    {
        let ghost before = chain.public_keys@;
        let name = &listing[i].0;
        if chain.public_key(name.as_str()).is_none() {
            chain.add_public_key(name.as_str(), listing[i].1);
        }
        proof {
            let names = Set::new(|name: Seq<char>| exists|j: int| 0 <= j < i + 1 && (#[trigger] listing@[j]).0@ == name);
            assert(names.contains(listing@[i as int].0@));
            assert(chain.public_keys@ =~= learn_keys(known, accounts@, names));
        }
        i = i + 1;
    }
    proof {
        let names = Set::new(|name: Seq<char>| exists|j: int| 0 <= j < listing@.len() && (#[trigger] listing@[j]).0@ == name);
        assert(names =~= accounts@.dom());
        assert(chain.public_keys@ =~= learn_keys(known, accounts@, accounts@.dom()));
        if old(chain).consistent() {
            lemma_more_keys_keep_consistency(*old(chain), *chain);
        }
    }
}

/// Learns, from `accounts`, the keys of the senders of `block` not known yet.
fn learn_senders(chain: &mut Blockchain, block: &Block, accounts: &AccountMap<PublicKey>)
    ensures
        final(chain).public_keys@ == learn_keys(old(chain).public_keys@, accounts@, senders_of(*block)),
        final(chain).blocks@ == old(chain).blocks@,
        final(chain).authority == old(chain).authority,
        final(chain).authorities@ == old(chain).authorities@,
        final(chain).balances@ == old(chain).balances@,
        final(chain).initial_balances@ == old(chain).initial_balances@,
        final(chain).nonces@ == old(chain).nonces@,
        final(chain).mempool@ == old(chain).mempool@,
{
    let ghost known = chain.public_keys@;
    let txs = &block.transactions;
    let mut i: usize = 0;
    while i < txs.len()
        invariant
            i <= txs@.len(),
            txs@ == block.transactions@,
            chain.public_keys@ == learn_keys(
                known,
                accounts@,
                Set::new(|name: Seq<char>| exists|j: int| 0 <= j < i && (#[trigger] txs@[j]).sender@ == name),
            ),
            chain.blocks@ == old(chain).blocks@,
            chain.authority == old(chain).authority,
            chain.authorities@ == old(chain).authorities@,
            chain.balances@ == old(chain).balances@,
            chain.initial_balances@ == old(chain).initial_balances@,
            chain.nonces@ == old(chain).nonces@,
            chain.mempool@ == old(chain).mempool@,
            known == old(chain).public_keys@,
        decreases txs@.len() - i,
    {
        let sender = &txs[i].sender;
        if chain.public_key(sender.as_str()).is_none() {
            match accounts.get(sender.as_str()) {
                Some(key) => chain.add_public_key(sender.as_str(), key),
                None => {},
            }
        }
        proof {
            let names = Set::new(|name: Seq<char>| exists|j: int| 0 <= j < i + 1 && (#[trigger] txs@[j]).sender@ == name);
            assert(names.contains(txs@[i as int].sender@));
            assert(chain.public_keys@ =~= learn_keys(known, accounts@, names));
        }
        i = i + 1;
    }
    proof {
        let names = Set::new(|name: Seq<char>| exists|j: int| 0 <= j < txs@.len() && (#[trigger] txs@[j]).sender@ == name);
        assert(names =~= senders_of(*block));
    }
}

/// What announcing `announcement` to `chain` gives: `Known` for a block
/// below our height that we hold, `OutOfOrder` for any other block not at
/// our height, and for a block at our height the verdict of validating it
/// with the keys we know plus those offered for its senders.
pub open spec fn announcement_outcome(chain: Blockchain, announcement: BlockAnnouncement) -> Result<
    BlockOutcome,
    ChainError,
> {
    let block = announcement.block;
    let height = chain.blocks@.len() as u32;
    if block.index < height {
        Ok(
            if block.index < chain.blocks@.len() && chain.blocks@[block.index as int].hash@ == block.hash@ {
                BlockOutcome::Known
            } else {
                BlockOutcome::OutOfOrder
            },
        )
    } else if block.index > height {
        Ok(BlockOutcome::OutOfOrder)
    } else {
        match verify_block_spec(
            chain.authorities@,
            learn_keys(chain.public_keys@, announcement.accounts@, senders_of(block)),
            block,
            height,
            tip_hash(chain.blocks@),
            chain.current_view(),
        ) {
            Ok(_) => Ok(BlockOutcome::Appended),
            Err(error) => Err(error),
        }
    }
}

/// `after` is `before` once `announcement` is applied: the block appended
/// with its outcome and the keys of its senders learned when it is
/// `Appended`, nothing changed otherwise.
pub open spec fn announcement_applied(before: Blockchain, after: Blockchain, announcement: BlockAnnouncement) -> bool {
    let block = announcement.block;
    let keys = learn_keys(before.public_keys@, announcement.accounts@, senders_of(block));
    if announcement_outcome(before, announcement) == Ok::<BlockOutcome, ChainError>(BlockOutcome::Appended) {
        match verify_block_spec(
            before.authorities@,
            keys,
            block,
            before.blocks@.len() as u32,
            tip_hash(before.blocks@),
            before.current_view(),
        ) {
            Ok(view) => {
                &&& after.blocks@ == before.blocks@.push(block)
                &&& after.balances@ == view.balances
                &&& after.nonces@ == view.nonces
                &&& after.public_keys@ == keys
                &&& after.authority == before.authority
                &&& after.authorities@ == before.authorities@
                &&& after.initial_balances@ == before.initial_balances@
                &&& after.mempool@ == before.mempool@
            },
            Err(_) => false,
        }
    } else {
        after.same_as(before)
    }
}

/// Applies a block announced by a peer. A block below our height is
/// `Known` when we hold the same one, a block that does not sit at our
/// height is `OutOfOrder`, so the caller can ask for the peer's whole
/// chain. A block at our height is validated with the keys we know plus
/// those the announcement offers for its senders; only if it is appended
/// are those keys kept. A refused block leaves no trace.
pub fn apply_announcement(chain: &mut Blockchain, announcement: BlockAnnouncement) -> (outcome: Result<
    BlockOutcome,
    ChainError,
>)
    ensures
        outcome == announcement_outcome(*old(chain), announcement),
        announcement_applied(*old(chain), *final(chain), announcement),
        old(chain).consistent() ==> final(chain).consistent(),
{
    let BlockAnnouncement { block, accounts } = announcement;
    let height: u32 = #[verifier::truncate] (chain.blocks.len() as u32);
    if block.index < height {
        let index = block.index as usize;
        let known = index < chain.blocks.len() && chain.blocks[index].hash == block.hash;
        return Ok(if known { BlockOutcome::Known } else { BlockOutcome::OutOfOrder });
    }
    if block.index > height {
        return Ok(BlockOutcome::OutOfOrder);
    }
    let saved = chain.public_keys.clone();
    learn_senders(chain, &block, &accounts);
    proof {
        if old(chain).consistent() {
            lemma_more_keys_keep_consistency(*old(chain), *chain);
        }
    }
    match chain.try_append_block(block) {
        Ok(()) => Ok(BlockOutcome::Appended),
        Err(error) => {
            chain.public_keys = saved;
            Err(error)
        },
    }
}

/// What sending `snapshot` to `chain` gives: nothing for a chain no longer
/// than ours, `GenesisMismatch` for one rooted elsewhere, otherwise the
/// verdict of replaying it from genesis with the keys it teaches us.
pub open spec fn snapshot_outcome(chain: Blockchain, snapshot: ChainSnapshot) -> Result<bool, ChainError> {
    if snapshot.blocks@.len() <= chain.blocks@.len() {
        Ok(false)
    } else if chain.blocks@.len() > 0 && snapshot.blocks@[0].hash@ != chain.blocks@[0].hash@ {
        Err(ChainError::GenesisMismatch)
    } else {
        match replay_spec(
            chain.authorities@,
            learn_keys(chain.public_keys@, snapshot.accounts@, snapshot.accounts@.dom()),
            chain.initial_balances@,
            snapshot.blocks@,
        ) {
            Ok(_) => Ok(true),
            Err(error) => Err(error),
        }
    }
}

/// `after` is `before` once `snapshot` is applied. A longer snapshot
/// teaches us the keys it carries for names we do not know, whatever the
/// verdict; its blocks replace ours, with the balances and nonces their
/// replay gives, only when it is adopted.
pub open spec fn snapshot_applied(before: Blockchain, after: Blockchain, snapshot: ChainSnapshot) -> bool {
    let keys = learn_keys(before.public_keys@, snapshot.accounts@, snapshot.accounts@.dom());
    if snapshot.blocks@.len() <= before.blocks@.len() {
        after.same_as(before)
    } else {
        &&& after.public_keys@ == keys
        &&& after.authority == before.authority
        &&& after.authorities@ == before.authorities@
        &&& after.initial_balances@ == before.initial_balances@
        &&& after.mempool@ == before.mempool@
        &&& match snapshot_outcome(before, snapshot) {
            Ok(_) => match replay_spec(before.authorities@, keys, before.initial_balances@, snapshot.blocks@) {
                Ok(view) => {
                    &&& after.blocks@ == snapshot.blocks@
                    &&& after.balances@ == view.balances
                    &&& after.nonces@ == view.nonces
                    &&& after.consistent()
                },
                Err(_) => false,
            },
            Err(_) => {
                &&& after.blocks@ == before.blocks@
                &&& after.balances@ == before.balances@
                &&& after.nonces@ == before.nonces@
            },
        }
    }
}

/// Adopts a peer's chain when it is longer and valid, after learning the
/// account keys it carries that we do not know (known bindings are never
/// replaced). Returns whether the local chain was replaced.
pub fn apply_snapshot(chain: &mut Blockchain, snapshot: ChainSnapshot) -> (outcome: Result<bool, ChainError>)
    ensures
        outcome == snapshot_outcome(*old(chain), snapshot),
        snapshot_applied(*old(chain), *final(chain), snapshot),
        old(chain).consistent() ==> final(chain).consistent(),
{
    if snapshot.blocks.len() <= chain.blocks.len() {
        return Ok(false);
    }
    let ChainSnapshot { blocks, accounts } = snapshot;
    merge_accounts(chain, accounts);
    chain.try_adopt_chain(blocks)
}

/// What a peer sent us: a request to answer, or the answer to one of ours.
pub enum SyncEvent {
    Request(SyncRequest),
    Response(SyncResponse),
}

/// What the node does once a message from a peer has been handled.
pub struct SyncReaction {
    /// The answer owed to the peer, when it asked something.
    pub reply: Option<SyncResponse>,
    /// Whether to ask the peer for its whole chain.
    pub ask_for_chain: bool,
    /// Whether the chain changed and must be written to disk.
    pub persist: bool,
    /// Why what the peer sent was refused, when it was.
    pub refused: Option<ChainError>,
}

/// The refusal an outcome carries, if any.
pub open spec fn refusal_in<T>(outcome: Result<T, ChainError>) -> Option<ChainError> {
    match outcome {
        Ok(_) => None,
        Err(error) => Some(error),
    }
}

/// Answers chain requests and applies what peers send us. A request for
/// the chain is answered with all of it; an announced block is applied and
/// acknowledged, and when it does not extend our tip the peer's whole chain
/// is asked for, since only that can tell which of the two is behind. A
/// chain sent in answer is adopted when it is longer and valid. Whatever
/// changes the chain asks to be persisted.
pub fn handle_sync_event(chain: &mut Blockchain, event: SyncEvent) -> (reaction: SyncReaction)
    ensures
        match event {
            SyncEvent::Request(SyncRequest::GetChain) => {
                &&& reaction.reply matches Some(SyncResponse::Chain(snapshot)) && mirrors(snapshot, *old(chain))
                &&& !reaction.ask_for_chain
                &&& !reaction.persist
                &&& reaction.refused is None
                &&& final(chain).same_as(*old(chain))
            },
            SyncEvent::Request(SyncRequest::NewBlock(announcement)) => {
                let outcome = announcement_outcome(*old(chain), announcement);
                &&& announcement_applied(*old(chain), *final(chain), announcement)
                &&& reaction.reply matches Some(SyncResponse::Ack)
                &&& reaction.ask_for_chain == (outcome == Ok::<BlockOutcome, ChainError>(BlockOutcome::OutOfOrder))
                &&& reaction.persist == (outcome == Ok::<BlockOutcome, ChainError>(BlockOutcome::Appended))
                &&& reaction.refused == refusal_in(outcome)
            },
            SyncEvent::Response(SyncResponse::Chain(snapshot)) => {
                let outcome = snapshot_outcome(*old(chain), snapshot);
                &&& snapshot_applied(*old(chain), *final(chain), snapshot)
                &&& reaction.reply is None
                &&& !reaction.ask_for_chain
                &&& reaction.persist == (outcome == Ok::<bool, ChainError>(true))
                &&& reaction.refused == refusal_in(outcome)
            },
            SyncEvent::Response(SyncResponse::Ack) => {
                &&& reaction.reply is None
                &&& !reaction.ask_for_chain
                &&& !reaction.persist
                &&& reaction.refused is None
                &&& final(chain).same_as(*old(chain))
            },
        },
        old(chain).consistent() ==> final(chain).consistent(),
{
    match event {
        SyncEvent::Request(SyncRequest::GetChain) => SyncReaction {
            reply: Some(SyncResponse::Chain(snapshot_of(chain))),
            ask_for_chain: false,
            persist: false,
            refused: None,
        },
        SyncEvent::Request(SyncRequest::NewBlock(announcement)) => {
            let (ask_for_chain, persist, refused) = match apply_announcement(chain, announcement) {
                Ok(BlockOutcome::Appended) => (false, true, None),
                Ok(BlockOutcome::Known) => (false, false, None),
                Ok(BlockOutcome::OutOfOrder) => (true, false, None),
                Err(error) => (false, false, Some(error)),
            };
            SyncReaction { reply: Some(SyncResponse::Ack), ask_for_chain, persist, refused }
        },
        SyncEvent::Response(SyncResponse::Chain(snapshot)) => {
            let (persist, refused) = match apply_snapshot(chain, snapshot) {
                Ok(adopted) => (adopted, None),
                Err(error) => (false, Some(error)),
            };
            SyncReaction { reply: None, ask_for_chain: false, persist, refused }
        },
        SyncEvent::Response(SyncResponse::Ack) => SyncReaction {
            reply: None,
            ask_for_chain: false,
            persist: false,
            refused: None,
        },
    }
}

/// An announcement that was appended is known from then on: announcing the
/// same block again changes nothing.
pub proof fn lemma_announcement_settles(before: Blockchain, after: Blockchain, announcement: BlockAnnouncement)
    requires
        before.blocks@.len() < u32::MAX,
        announcement_outcome(before, announcement) == Ok::<BlockOutcome, ChainError>(BlockOutcome::Appended),
        announcement_applied(before, after, announcement),
    ensures
        announcement_outcome(after, announcement) == Ok::<BlockOutcome, ChainError>(BlockOutcome::Known),
{
    let block = announcement.block;
    assert(block.index == before.blocks@.len());
    assert(after.blocks@[block.index as int] == block);
}

/// A block announced below our height is `Known` exactly when our block at
/// its index carries the same hash; a different block there is a fork and
/// is `OutOfOrder`, so that the peer's whole chain gets asked for. Neither
/// verdict touches the chain.
pub proof fn lemma_announced_below_height(before: Blockchain, after: Blockchain, announcement: BlockAnnouncement)
    requires
        before.blocks@.len() <= u32::MAX,
        announcement.block.index < before.blocks@.len(),
        announcement_applied(before, after, announcement),
    ensures
        before.blocks@[announcement.block.index as int].hash@ == announcement.block.hash@
            ==> announcement_outcome(before, announcement) == Ok::<BlockOutcome, ChainError>(BlockOutcome::Known),
        before.blocks@[announcement.block.index as int].hash@ != announcement.block.hash@
            ==> announcement_outcome(before, announcement) == Ok::<BlockOutcome, ChainError>(BlockOutcome::OutOfOrder),
        after.same_as(before),
{
}

/// A block announced above our height cannot be judged from it alone: it
/// is `OutOfOrder` and leaves the chain as it was.
pub proof fn lemma_announced_above_height(before: Blockchain, after: Blockchain, announcement: BlockAnnouncement)
    requires
        before.blocks@.len() <= u32::MAX,
        announcement.block.index > before.blocks@.len(),
        announcement_applied(before, after, announcement),
    ensures
        announcement_outcome(before, announcement) == Ok::<BlockOutcome, ChainError>(BlockOutcome::OutOfOrder),
        after.same_as(before),
{
}

/// A chain that was adopted is ours from then on: receiving the same
/// snapshot again changes nothing.
pub proof fn lemma_snapshot_settles(before: Blockchain, after: Blockchain, snapshot: ChainSnapshot)
    requires
        snapshot_outcome(before, snapshot) == Ok::<bool, ChainError>(true),
        snapshot_applied(before, after, snapshot),
    ensures
        snapshot_outcome(after, snapshot) == Ok::<bool, ChainError>(false),
{
}

/// The peers a node keeps track of, each by the text of its peer id: those
/// asked for their chain since they were last discovered, and those
/// connected, which are told of every block the node seals.
pub struct PeerBook {
    greeted: NameSet,
    connected: NameSet,
}

impl PeerBook {
    pub closed spec fn greeted_peers(&self) -> Set<Seq<char>> {
        self.greeted@
    }

    pub closed spec fn connected_peers(&self) -> Set<Seq<char>> {
        self.connected@
    }

    pub fn new() -> (book: PeerBook)
        ensures
            book.greeted_peers() == Set::<Seq<char>>::empty(),
            book.connected_peers() == Set::<Seq<char>>::empty(),
    {
        PeerBook { greeted: NameSet::new(), connected: NameSet::new() }
    }

    /// A peer was discovered. Whether to ask it for its chain: only the
    /// first time it shows up.
    pub fn discovered(&mut self, peer: String) -> (greet: bool)
        ensures
            greet == !old(self).greeted_peers().contains(peer@),
            final(self).greeted_peers() == old(self).greeted_peers().insert(peer@),
            final(self).connected_peers() == old(self).connected_peers(),
    {
        let greet = !self.greeted.contains(peer.as_str());
        self.greeted.insert(peer);
        greet
    }

    /// A peer's discovery expired: should it come back, it is greeted again.
    pub fn expired(&mut self, peer: &str)
        ensures
            final(self).greeted_peers() == old(self).greeted_peers().remove(peer@),
            final(self).connected_peers() == old(self).connected_peers(),
    {
        self.greeted.remove(peer);
    }

    pub fn connection_established(&mut self, peer: String)
        ensures
            final(self).connected_peers() == old(self).connected_peers().insert(peer@),
            final(self).greeted_peers() == old(self).greeted_peers(),
    {
        self.connected.insert(peer);
    }

    /// A connection to `peer` closed, `remaining` others to it still open:
    /// it stops being told of new blocks once none is left.
    pub fn connection_closed(&mut self, peer: &str, remaining: u32)
        ensures
            final(self).connected_peers() == if remaining == 0 {
                old(self).connected_peers().remove(peer@)
            } else {
                old(self).connected_peers()
            },
            final(self).greeted_peers() == old(self).greeted_peers(),
    {
        if remaining == 0 {
            self.connected.remove(peer);
        }
    }

    /// The peers a sealed block is announced to: every connected one, once.
    pub fn recipients(&self) -> (peers: Vec<String>)
        ensures
            forall|i: int, j: int| 0 <= i < j < peers@.len() ==> (#[trigger] peers@[i])@ != (#[trigger] peers@[j])@,
            forall|i: int| 0 <= i < peers@.len() ==> self.connected_peers().contains((#[trigger] peers@[i])@),
            forall|peer: Seq<char>| #[trigger] self.connected_peers().contains(peer) ==> exists|i: int|
                0 <= i < peers@.len() && (#[trigger] peers@[i])@ == peer,
    {
        self.connected.names()
    }
}

} // verus!
