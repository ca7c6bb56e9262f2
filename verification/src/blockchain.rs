//! The chain a node holds: its blocks, the authorities allowed to seal, the
//! balances and nonces the blocks lead to, the account keys transactions
//! are verified against, and the mempool of transactions waiting for a block.

use vstd::prelude::*;
use crate::accounts::{lists, AccountMap, NameSet};
use crate::block::{block_signing_bytes, Block};
use crate::crypto::{ed25519_public_key, ed25519_signature, PublicKey, SecretKey};
use crate::error::ChainError;
use crate::ledger::{
    apply_transactions_spec, chain_ids, chain_minted, extends_keys, initial_view, lemma_more_keys_same_replay, lemma_accepted_block_fits, lemma_replayed_chain_is_linked, lemma_chain_conserves_value, lemma_apply_records_ids, lemma_replay_records_ids,
    lemma_replay_refusal_persists, replay_spec, tip_hash, total, transaction_ids, value_or_zero, verify_block,
    verify_block_spec, LedgerState, LedgerView, MINT_ACCOUNT,
};
use crate::mempool::{queue_outcome, sorted_by_sender_nonce, total_weight, Mempool, SEAL_THRESHOLD_BYTES};
use crate::encoding::utf8;
use crate::order::{byte_order, byte_order_of, lemma_byte_order_equal, lemma_byte_order_flip, lemma_byte_order_range, lemma_byte_order_transitive};
use crate::transaction::{Amount, Transaction};

verus! {

broadcast use vstd::seq_lib::group_to_multiset_ensures;

/// The allocation every chain starts from.
pub open spec fn initial_allocation() -> Map<Seq<char>, u64> {
    map![
        "System"@ => 1000u64,
        "Alice"@ => 100u64,
        "Bob"@ => 50u64,
        "Charlie"@ => 30u64,
        "Node1"@ => 50u64,
        "Node2"@ => 0u64,
    ]
}

/// Genesis carries this fixed timestamp, so that every node building the
/// same initial allocation ends up with the same genesis hash.
pub const GENESIS_TIMESTAMP: u64 = 0;

pub struct Blockchain {
    pub blocks: Vec<Block>,
    /// Authority this node seals its own blocks with.
    pub authority: String,
    /// Every authority allowed to seal a block on this chain.
    pub authorities: NameSet,
    pub balances: AccountMap<Amount>,
    /// Allocation the chain starts from, kept so the whole state can be
    /// recomputed by replaying blocks (needed to adopt a peer's chain).
    pub initial_balances: AccountMap<Amount>,
    /// Next nonce expected from each sender.
    pub nonces: AccountMap<u64>,
    pub public_keys: AccountMap<PublicKey>,
    /// Transactions accepted but not sealed yet.
    pub mempool: Mempool,
}

/// The genesis block of a chain whose authority is `authority`: index 0,
/// the fixed timestamp, no transaction, linked to "0", unsealed, its hash
/// that of this content.
pub open spec fn is_genesis(block: Block, authority: Seq<char>) -> bool {
    &&& block.index == 0
    &&& block.timestamp == GENESIS_TIMESTAMP
    &&& block.transactions@.len() == 0
    &&& block.previous_hash@ == "0"@
    &&& block.authority@ == authority
    &&& block.authority_signature is None
    &&& block.hash_matches()
}

/// Genesis is deterministic: two nodes with the same authority name agree
/// on its hash, so their chains can be compared and adopted.
pub proof fn lemma_same_genesis(first: Block, second: Block, authority: Seq<char>)
    requires
        is_genesis(first, authority),
        is_genesis(second, authority),
    ensures
        first.hash@ == second.hash@,
{
    assert(first.transactions@ =~= second.transactions@);
}

impl Blockchain {
    /// Balances and nonces as held, with the ids of every transaction on chain.
    pub open spec fn current_view(self) -> LedgerView {
        LedgerView { balances: self.balances@, nonces: self.nonces@, seen: chain_ids(self.blocks@) }
    }

    /// The whole chain replayed over the initial allocation.
    pub open spec fn replayed(self) -> Result<LedgerView, ChainError> {
        replay_spec(self.authorities@, self.public_keys@, self.initial_balances@, self.blocks@)
    }

    /// The balances and nonces held are what replaying the chain gives.
    pub open spec fn consistent(self) -> bool {
        self.replayed() == Ok::<LedgerView, ChainError>(self.current_view())
    }

    /// What validating `block` as the next one, against the state held, gives.
    pub open spec fn next_block_outcome(self, block: Block) -> Result<LedgerView, ChainError> {
        verify_block_spec(
            self.authorities@,
            self.public_keys@,
            block,
            self.blocks@.len() as u32,
            tip_hash(self.blocks@),
            self.current_view(),
        )
    }

    /// `authority` may seal on this chain with the secret seed `seed`: it is
    /// an authority and its registered key is the one the seed determines.
    pub open spec fn may_seal(self, authority: Seq<char>, seed: Seq<u8>) -> bool {
        &&& self.authorities@.contains(authority)
        &&& self.public_keys@.contains_key(authority)
        &&& self.public_keys@[authority].bytes@ == ed25519_public_key(seed)
    }

    /// Sealing `pending` is refused: `authority` may not seal, or an order
    /// of `pending` by sender and nonce does not apply to the chain.
    pub open spec fn seal_refused(self, pending: Seq<Transaction>, authority: Seq<char>, seed: Seq<u8>) -> bool {
        ||| !self.may_seal(authority, seed)
        ||| exists|txs: Seq<Transaction>|
            #![trigger apply_transactions_spec(self.public_keys@, self.current_view(), txs)]
            txs.to_multiset() == pending.to_multiset() && sorted_by_sender_nonce(txs) && apply_transactions_spec(
                self.public_keys@,
                self.current_view(),
                txs,
            ) is Err
    }

    /// `error` is why sealing `pending` is refused: the first of the checks
    /// on `authority` that fails, in the order `add_block` makes them, or,
    /// when it may seal, the refusal of an order of `pending` by sender and
    /// nonce applied to the chain.
    pub open spec fn seal_error(
        self,
        pending: Seq<Transaction>,
        authority: Seq<char>,
        seed: Seq<u8>,
        error: ChainError,
    ) -> bool {
        if !self.authorities@.contains(authority) {
            error matches ChainError::UnauthorizedAuthority(name) && name@ == authority
        } else if !self.public_keys@.contains_key(authority) {
            error matches ChainError::UnknownAuthorityKey(name) && name@ == authority
        } else if self.public_keys@[authority].bytes@ != ed25519_public_key(seed) {
            error matches ChainError::AuthorityKeyMismatch(name) && name@ == authority
        } else {
            exists|txs: Seq<Transaction>|
                #![trigger apply_transactions_spec(self.public_keys@, self.current_view(), txs)]
                txs.to_multiset() == pending.to_multiset() && sorted_by_sender_nonce(txs) && apply_transactions_spec(
                    self.public_keys@,
                    self.current_view(),
                    txs,
                ) == Err::<LedgerView, ChainError>(error)
        }
    }

    /// Same chain, field by field.
    pub open spec fn same_as(self, other: Blockchain) -> bool {
        &&& self.blocks@ == other.blocks@
        &&& self.authority == other.authority
        &&& self.authorities@ == other.authorities@
        &&& self.balances@ == other.balances@
        &&& self.initial_balances@ == other.initial_balances@
        &&& self.nonces@ == other.nonces@
        &&& self.public_keys@ == other.public_keys@
        &&& self.mempool@ == other.mempool@
    }

    /// `next` is `self` with `block` appended and its outcome `after` taken
    /// as the new balances and nonces; nothing else moves.
    pub open spec fn appended(self, next: Blockchain, block: Block, after: LedgerView) -> bool {
        &&& next.blocks@ == self.blocks@.push(block)
        &&& next.balances@ == after.balances
        &&& next.nonces@ == after.nonces
        &&& next.authority == self.authority
        &&& next.authorities@ == self.authorities@
        &&& next.initial_balances@ == self.initial_balances@
        &&& next.public_keys@ == self.public_keys@
    }

    /// `block` is the block `add_block` builds on top of `self` from `txs`,
    /// sealed by `authority` with the secret seed `seed`: its seal verifies
    /// under the public key of that seed.
    pub open spec fn built_on(self, block: Block, txs: Seq<Transaction>, authority: Seq<char>, seed: Seq<u8>) -> bool {
        &&& block.index == self.blocks@.len() as u32
        &&& block.transactions@ == txs
        &&& block.previous_hash@ == tip_hash(self.blocks@)
        &&& block.authority@ == authority
        &&& block.hash_matches()
        &&& block.authority_signature matches Some(signature) && signature.bytes@ == ed25519_signature(
            seed,
            block_signing_bytes(block.hash@),
        )
        &&& block.sealed_by(ed25519_public_key(seed))
    }

    /// A chain whose genesis is sealed by `authority`, with the fixed
    /// initial allocation. `initial_authorities` are further authorities,
    /// with their keys, admitted at genesis.
    pub fn new(authority: String, initial_authorities: AccountMap<PublicKey>) -> (chain: Blockchain)
        ensures
            chain.blocks@.len() == 1,
            is_genesis(chain.blocks@[0], authority@),
            chain.authority == authority,
            chain.authorities@ == initial_authorities@.dom().insert(authority@),
            chain.public_keys@ == initial_authorities@,
            chain.balances@ == initial_allocation(),
            chain.initial_balances@ == initial_allocation(),
            chain.nonces@ == Map::<Seq<char>, u64>::empty(),
            chain.mempool@ == Seq::<Transaction>::empty(),
            chain.consistent(),
    {
        let mut initial_balances: AccountMap<Amount> = AccountMap::new();
        initial_balances.insert(MINT_ACCOUNT.to_owned(), 1000);
        initial_balances.insert("Alice".to_owned(), 100);
        initial_balances.insert("Bob".to_owned(), 50);
        initial_balances.insert("Charlie".to_owned(), 30);
        initial_balances.insert("Node1".to_owned(), 50);
        initial_balances.insert("Node2".to_owned(), 0);
        assert(initial_balances@ =~= initial_allocation());

        let genesis = Block::with_timestamp(0, Vec::new(), "0".to_owned(), authority.clone(), GENESIS_TIMESTAMP);
        let mut blocks: Vec<Block> = Vec::new();
        blocks.push(genesis);

        let mut authorities = NameSet::new();
        let listing = initial_authorities.entries();
        let mut i: usize = 0;
        while i < listing.len()
            invariant
                i <= listing@.len(),
                lists(listing@, initial_authorities@),
                forall|name: Seq<char>| #[trigger] authorities@.contains(name) <==> exists|j: int|
                    0 <= j < i && (#[trigger] listing@[j]).0@ == name,
            decreases listing@.len() - i,
        {
            let ghost before = authorities@;
            authorities.insert(listing[i].0.clone());
            proof {
                assert forall|name: Seq<char>| #[trigger] authorities@.contains(name) <==> exists|j: int|
                    0 <= j < i + 1 && (#[trigger] listing@[j]).0@ == name by {
                    if name == listing@[i as int].0@ {
                        assert(listing@[i as int].0@ == name);
                    }
                }
            }
            i = i + 1;
        }
        authorities.insert(authority.clone());
        assert(authorities@ =~= initial_authorities@.dom().insert(authority@));

        let balances = initial_balances.clone();
        let chain = Blockchain {
            blocks,
            authority,
            authorities,
            balances,
            initial_balances,
            nonces: AccountMap::new(),
            public_keys: initial_authorities,
            mempool: Mempool::new(),
        };
        proof {
            let only = chain.blocks@;
            assert(only.drop_last() =~= Seq::<Block>::empty());
            assert(only.last().transactions@ =~= Seq::<Transaction>::empty());
            assert(chain_ids(only.drop_last()) =~= Set::<Seq<char>>::empty());
            assert(transaction_ids(only.last().transactions@) =~= Set::<Seq<char>>::empty());
            assert(chain_ids(only) =~= Set::<Seq<char>>::empty());
            assert(chain.current_view() == initial_view(chain.initial_balances@));
            let start = initial_view(chain.initial_balances@);
            assert(replay_spec(chain.authorities@, chain.public_keys@, chain.initial_balances@, only.drop_last())
                == Ok::<LedgerView, ChainError>(start));
            assert(apply_transactions_spec(chain.public_keys@, start, only.last().transactions@)
                == Ok::<LedgerView, ChainError>(start));
            assert(verify_block_spec(chain.authorities@, chain.public_keys@, only.last(), 0, "0"@, start)
                == Ok::<LedgerView, ChainError>(start));
        }
        chain
    }

    /// A chain with this node as its only authority.
    pub fn new_single(authority: String) -> (chain: Blockchain)
        ensures
            chain.blocks@.len() == 1,
            is_genesis(chain.blocks@[0], authority@),
            chain.authority == authority,
            chain.authorities@ == Set::<Seq<char>>::empty().insert(authority@),
            chain.public_keys@ == Map::<Seq<char>, PublicKey>::empty(),
            chain.balances@ == initial_allocation(),
            chain.initial_balances@ == initial_allocation(),
            chain.nonces@ == Map::<Seq<char>, u64>::empty(),
            chain.mempool@ == Seq::<Transaction>::empty(),
            chain.consistent(),
    {
        let chain = Self::new(authority, AccountMap::new());
        assert(Map::<Seq<char>, PublicKey>::empty().dom() =~= Set::<Seq<char>>::empty());
        chain
    }

    /// Authorizes `name` to seal blocks and records the key its seals are
    /// verified against.
    pub fn register_authority(&mut self, name: &str, key: PublicKey)
        ensures
            final(self).authorities@ == old(self).authorities@.insert(name@),
            final(self).public_keys@ == old(self).public_keys@.insert(name@, key),
            final(self).blocks@ == old(self).blocks@,
            final(self).authority == old(self).authority,
            final(self).balances@ == old(self).balances@,
            final(self).initial_balances@ == old(self).initial_balances@,
            final(self).nonces@ == old(self).nonces@,
            final(self).mempool@ == old(self).mempool@,
    {
        self.authorities.insert(name.to_owned());
        self.public_keys.insert(name.to_owned(), key);
    }

    /// Records the key transactions from `name` are verified against.
    pub fn add_public_key(&mut self, name: &str, key: PublicKey)
        ensures
            final(self).public_keys@ == old(self).public_keys@.insert(name@, key),
            final(self).blocks@ == old(self).blocks@,
            final(self).authority == old(self).authority,
            final(self).authorities@ == old(self).authorities@,
            final(self).balances@ == old(self).balances@,
            final(self).initial_balances@ == old(self).initial_balances@,
            final(self).nonces@ == old(self).nonces@,
            final(self).mempool@ == old(self).mempool@,
    {
        self.public_keys.insert(name.to_owned(), key);
    }

    pub fn public_key(&self, name: &str) -> (key: Option<PublicKey>)
        ensures
            key == (if self.public_keys@.contains_key(name@) {
                Some(self.public_keys@[name@])
            } else {
                None::<PublicKey>
            }),
    {
        self.public_keys.get(name)
    }

    /// Nonce the next transaction from `account` must carry.
    pub fn next_nonce(&self, account: &str) -> (nonce: u64)
        ensures
            nonce == value_or_zero(self.nonces@, account@),
    {
        match self.nonces.get(account) {
            Some(nonce) => nonce,
            None => 0,
        }
    }

    pub fn balance_of(&self, account: &str) -> (balance: Amount)
        ensures
            balance == value_or_zero(self.balances@, account@),
    {
        match self.balances.get(account) {
            Some(balance) => balance,
            None => 0,
        }
    }

    pub fn genesis_hash(&self) -> (hash: Option<String>)
        ensures
            match hash {
                Some(hash) => self.blocks@.len() > 0 && hash@ == self.blocks@[0].hash@,
                None => self.blocks@.len() == 0,
            },
    {
        if self.blocks.len() == 0 {
            None
        } else {
            Some(self.blocks[0].hash.clone())
        }
    }

    fn last_hash(&self) -> (hash: String)
        ensures
            hash@ == tip_hash(self.blocks@),
    {
        if self.blocks.len() == 0 {
            "0".to_owned()
        } else {
            self.blocks[self.blocks.len() - 1].hash.clone()
        }
    }

    /// The ids of every transaction on chain.
    fn chain_id_set(&self) -> (ids: NameSet)
        ensures
            ids@ == chain_ids(self.blocks@),
    {
        let mut ids = NameSet::new();
        let mut i: usize = 0;
        while i < self.blocks.len()
            invariant
                i <= self.blocks@.len(),
                ids@ == chain_ids(self.blocks@.subrange(0, i as int)),
            decreases self.blocks@.len() - i,
        {
            let txs = &self.blocks[i].transactions;
            let ghost before = ids@;
            let mut j: usize = 0;
            while j < txs.len()
                invariant
                    j <= txs@.len(),
                    ids@ == before.union(transaction_ids(txs@.subrange(0, j as int))),
                decreases txs@.len() - j,
            {
                ids.insert(txs[j].id.clone());
                proof {
                    let next = txs@.subrange(0, j + 1);
                    assert(next.drop_last() =~= txs@.subrange(0, j as int));
                    assert(ids@ =~= before.union(transaction_ids(next)));
                }
                j = j + 1;
            }
            proof {
                assert(txs@.subrange(0, txs@.len() as int) =~= txs@);
                let next = self.blocks@.subrange(0, i + 1);
                assert(next.drop_last() =~= self.blocks@.subrange(0, i as int));
            }
            i = i + 1;
        }
        assert(self.blocks@.subrange(0, self.blocks@.len() as int) =~= self.blocks@);
        ids
    }

    /// Whether some transaction on chain has this id.
    pub fn has_transaction(&self, id: &str) -> (found: bool)
        ensures
            found == chain_ids(self.blocks@).contains(id@),
    {
        self.chain_id_set().contains(id)
    }

    fn current_state(&self) -> (state: LedgerState)
        ensures
            state.view() == self.current_view(),
    {
        LedgerState {
            balances: self.balances.clone(),
            nonces: self.nonces.clone(),
            seen: self.chain_id_set(),
        }
    }

    /// Validates a block produced elsewhere (typically received from a peer)
    /// and appends it to the tip. A refused block leaves the chain untouched.
    pub fn try_append_block(&mut self, block: Block) -> (outcome: Result<(), ChainError>)
        ensures
            match old(self).next_block_outcome(block) {
                Ok(after) => outcome is Ok && old(self).appended(*final(self), block, after)
                    && final(self).mempool@ == old(self).mempool@,
                Err(error) => outcome == Err::<(), ChainError>(error) && final(self).same_as(*old(self)),
            },
            outcome is Ok ==> forall|j: int|
                0 <= j < block.transactions@.len() ==> #[trigger] holds_at(
                    final(self).blocks@,
                    old(self).blocks@.len() as int,
                    j,
                    block.transactions@[j].id@,
                ),
            outcome is Ok ==> {
                &&& block.index == old(self).blocks@.len() as u32
                &&& block.previous_hash@ == tip_hash(old(self).blocks@)
                &&& block.hash_matches()
                &&& block.index > 0 ==> old(self).authorities@.contains(block.authority@)
                    && old(self).public_keys@.contains_key(block.authority@)
                    && block.sealed_by(old(self).public_keys@[block.authority@].bytes@)
            },
            old(self).consistent() && outcome is Ok ==> final(self).consistent(),
    {
        let expected_index: u32 = #[verifier::truncate] (self.blocks.len() as u32);
        let previous_hash = self.last_hash();
        let mut state = self.current_state();
        match verify_block(&self.authorities, &self.public_keys, &block, expected_index, &previous_hash, &mut state) {
            Err(error) => Err(error),
            Ok(()) => {
                let ghost after = state.view();
                let ghost before = *self;
                proof {
                    lemma_accepted_block_fits(
                        before.authorities@,
                        before.public_keys@,
                        block,
                        expected_index,
                        previous_hash@,
                        before.current_view(),
                    );
                }
                self.blocks.push(block);
                self.balances = state.balances;
                self.nonces = state.nonces;
                proof {
                    if before.consistent() {
                        lemma_append_keeps_consistency(before, *self, block, after);
                    }
                }
                Ok(())
            },
        }
    }

    /// Replays `blocks` over the initial allocation with this chain's
    /// authorities and keys.
    fn replay(&self, blocks: &Vec<Block>) -> (outcome: Result<LedgerState, ChainError>)
        ensures
            match replay_spec(self.authorities@, self.public_keys@, self.initial_balances@, blocks@) {
                Ok(after) => outcome matches Ok(state) && state.view() == after,
                Err(error) => outcome matches Err(e) && e == error,
            },
    {
        let mut state = LedgerState {
            balances: self.initial_balances.clone(),
            nonces: AccountMap::new(),
            seen: NameSet::new(),
        };
        let mut previous_hash: String = "0".to_owned();
        let mut i: usize = 0;
        assert(state.view() == initial_view(self.initial_balances@));
        while i < blocks.len()
            invariant
                i <= blocks@.len(),
                replay_spec(self.authorities@, self.public_keys@, self.initial_balances@, blocks@.subrange(0, i as int))
                    == Ok::<LedgerView, ChainError>(state.view()),
                previous_hash@ == tip_hash(blocks@.subrange(0, i as int)),
            decreases blocks@.len() - i,
        {
            let ghost before = state.view();
            let outcome = verify_block(
                &self.authorities,
                &self.public_keys,
                &blocks[i],
                #[verifier::truncate] (i as u32),
                &previous_hash,
                &mut state,
            );
            proof {
                let next = blocks@.subrange(0, i + 1);
                assert(next.drop_last() =~= blocks@.subrange(0, i as int));
            }
            match outcome {
                Err(error) => {
                    proof {
                        lemma_replay_refusal_persists(
                            self.authorities@,
                            self.public_keys@,
                            self.initial_balances@,
                            blocks@,
                            i + 1,
                        );
                    }
                    return Err(error);
                },
                Ok(()) => {},
            }
            previous_hash = blocks[i].hash.clone();
            i = i + 1;
        }
        assert(blocks@.subrange(0, blocks@.len() as int) =~= blocks@);
        Ok(state)
    }

    /// Replays the whole chain: hashes, links, seals, signatures, nonces and
    /// balances all have to hold.
    pub fn validate(&self) -> (outcome: Result<(), ChainError>)
        ensures
            match self.replayed() {
                Ok(_) => outcome is Ok,
                Err(error) => outcome == Err::<(), ChainError>(error),
            },
            outcome is Ok ==> forall|i: int|
                0 < i < self.blocks@.len() ==> (#[trigger] self.blocks@[i]).previous_hash@ == self.blocks@[i - 1].hash@,
            outcome is Ok ==> forall|i: int| 0 <= i < self.blocks@.len() ==> (#[trigger] self.blocks@[i]).hash_matches(),
    {
        proof {
            if self.replayed() is Ok {
                lemma_replayed_chain_is_linked(self.authorities@, self.public_keys@, self.initial_balances@, self.blocks@);
            }
        }
        match self.replay(&self.blocks) {
            Ok(_) => Ok(()),
            Err(error) => Err(error),
        }
    }

    pub fn validate_chain(&self) -> (valid: bool)
        ensures
            valid == self.replayed() is Ok,
    {
        self.validate().is_ok()
    }

    /// Adopts a peer's chain when it is longer, shares our genesis and is
    /// valid from block 0. Returns whether the local chain was replaced.
    pub fn try_adopt_chain(&mut self, blocks: Vec<Block>) -> (outcome: Result<bool, ChainError>)
        ensures
            if blocks@.len() <= old(self).blocks@.len() {
                outcome == Ok::<bool, ChainError>(false) && final(self).same_as(*old(self))
            } else if old(self).blocks@.len() > 0 && blocks@[0].hash@ != old(self).blocks@[0].hash@ {
                outcome == Err::<bool, ChainError>(ChainError::GenesisMismatch) && final(self).same_as(*old(self))
            } else {
                match replay_spec(old(self).authorities@, old(self).public_keys@, old(self).initial_balances@, blocks@) {
                    Ok(after) => {
                        &&& outcome == Ok::<bool, ChainError>(true)
                        &&& final(self).blocks@ == blocks@
                        &&& final(self).balances@ == after.balances
                        &&& final(self).nonces@ == after.nonces
                        &&& final(self).authority == old(self).authority
                        &&& final(self).authorities@ == old(self).authorities@
                        &&& final(self).initial_balances@ == old(self).initial_balances@
                        &&& final(self).public_keys@ == old(self).public_keys@
                        &&& final(self).mempool@ == old(self).mempool@
                        &&& final(self).consistent()
                    },
                    Err(error) => outcome == Err::<bool, ChainError>(error) && final(self).same_as(*old(self)),
                }
            },
            outcome == Ok::<bool, ChainError>(true) ==> forall|i: int|
                0 < i < blocks@.len() ==> (#[trigger] blocks@[i]).previous_hash@ == blocks@[i - 1].hash@,
    {
        if blocks.len() <= self.blocks.len() {
            return Ok(false);
        }
        if self.blocks.len() > 0 && blocks[0].hash != self.blocks[0].hash {
            return Err(ChainError::GenesisMismatch);
        }
        let state = match self.replay(&blocks) {
            Ok(state) => state,
            Err(error) => {
                return Err(error);
            },
        };
        proof {
            lemma_replay_records_ids(self.authorities@, self.public_keys@, self.initial_balances@, blocks@);
            lemma_replayed_chain_is_linked(self.authorities@, self.public_keys@, self.initial_balances@, blocks@);
        }
        self.blocks = blocks;
        self.balances = state.balances;
        self.nonces = state.nonces;
        Ok(true)
    }

    /// Seals `transactions` into a new block. The signing key must belong to
    /// an authorized authority, which is what makes this proof of authority.
    pub fn add_block(
        &mut self,
        transactions: Vec<Transaction>,
        authority: &str,
        signing_key: &SecretKey,
    ) -> (outcome: Result<u32, ChainError>)
        ensures
            if !old(self).authorities@.contains(authority@) {
                &&& outcome matches Err(ChainError::UnauthorizedAuthority(name)) && name@ == authority@
                &&& final(self).same_as(*old(self))
            } else if !old(self).public_keys@.contains_key(authority@) {
                &&& outcome matches Err(ChainError::UnknownAuthorityKey(name)) && name@ == authority@
                &&& final(self).same_as(*old(self))
            } else if old(self).public_keys@[authority@].bytes@ != ed25519_public_key(signing_key.seed@) {
                &&& outcome matches Err(ChainError::AuthorityKeyMismatch(name)) && name@ == authority@
                &&& final(self).same_as(*old(self))
            } else {
                match apply_transactions_spec(old(self).public_keys@, old(self).current_view(), transactions@) {
                    Ok(after) => {
                        &&& outcome == Ok::<u32, ChainError>(old(self).blocks@.len() as u32)
                        &&& final(self).blocks@.len() == old(self).blocks@.len() + 1
                        &&& old(self).built_on(final(self).blocks@.last(), transactions@, authority@, signing_key.seed@)
                        &&& old(self).appended(*final(self), final(self).blocks@.last(), after)
                        &&& final(self).mempool@ == old(self).mempool@
                    },
                    Err(error) => outcome == Err::<u32, ChainError>(error) && final(self).same_as(*old(self)),
                }
            },
            outcome is Ok ==> forall|j: int|
                0 <= j < transactions@.len() ==> #[trigger] holds_at(
                    final(self).blocks@,
                    old(self).blocks@.len() as int,
                    j,
                    transactions@[j].id@,
                ),
            old(self).consistent() && outcome is Ok ==> final(self).consistent(),
    {
        if !self.authorities.contains(authority) {
            return Err(ChainError::UnauthorizedAuthority(authority.to_owned()));
        }
        let registered = match self.public_keys.get(authority) {
            Some(key) => key,
            None => {
                return Err(ChainError::UnknownAuthorityKey(authority.to_owned()));
            },
        };
        if !registered.same_as(&signing_key.public_key()) {
            return Err(ChainError::AuthorityKeyMismatch(authority.to_owned()));
        }
        let index: u32 = #[verifier::truncate] (self.blocks.len() as u32);
        let previous_hash = self.last_hash();
        let block = Block::sealed(index, transactions, previous_hash, authority.to_owned(), signing_key);
        let ghost built = block;
        proof {
            assert(old(self).next_block_outcome(built) == apply_transactions_spec(
                old(self).public_keys@,
                old(self).current_view(),
                built.transactions@,
            ));
        }
        match self.try_append_block(block) {
            Ok(()) => {
                assert(self.blocks@.last() == built);
                Ok(index)
            },
            Err(error) => Err(error),
        }
    }

    /// Validates `transaction` against the chain and the transactions already
    /// waiting, and queues it. Returns the transaction id.
    pub fn queue_transaction(&mut self, transaction: Transaction) -> (outcome: Result<String, ChainError>)
        ensures
            match queue_outcome(
                old(self).mempool@,
                old(self).public_keys@,
                old(self).balances@,
                old(self).nonces@,
                chain_ids(old(self).blocks@).contains(transaction.id@),
                transaction,
            ) {
                Ok(()) => outcome == Ok::<String, ChainError>(transaction.id) && final(self).mempool@
                    == old(self).mempool@.push(transaction),
                Err(error) => outcome == Err::<String, ChainError>(error) && final(self).mempool@
                    == old(self).mempool@,
            },
            final(self).blocks@ == old(self).blocks@,
            final(self).authority == old(self).authority,
            final(self).authorities@ == old(self).authorities@,
            final(self).balances@ == old(self).balances@,
            final(self).initial_balances@ == old(self).initial_balances@,
            final(self).nonces@ == old(self).nonces@,
            final(self).public_keys@ == old(self).public_keys@,
    {
        let on_chain = self.has_transaction(transaction.id.as_str());
        self.mempool.queue(transaction, &self.public_keys, &self.balances, &self.nonces, on_chain)
    }

    /// Number of transactions waiting to be sealed.
    pub fn pending_count(&self) -> (n: usize)
        ensures
            n == self.mempool@.len(),
    {
        self.mempool.len()
    }

    /// Bytes of transactions waiting to be sealed.
    pub fn pending_weight(&self) -> (bytes: usize)
        ensures
            bytes == total_weight(self.mempool@),
    {
        self.mempool.weight()
    }

    /// Whether the waiting batch deserves a block at once.
    pub fn is_worth_sealing(&self) -> (worth: bool)
        ensures
            worth == (total_weight(self.mempool@) >= SEAL_THRESHOLD_BYTES),
    {
        self.mempool.is_worth_sealing()
    }

    /// Seals every waiting transaction into one block, ordered by sender and
    /// nonce. `Ok(None)` when nothing waits. When the block is refused the
    /// chain and the mempool are left as they were.
    pub fn seal_mempool(&mut self, authority: &str, signing_key: &SecretKey) -> (outcome: Result<
        Option<u32>,
        ChainError,
    >)
        ensures
            old(self).mempool@.len() == 0 ==> outcome == Ok::<Option<u32>, ChainError>(None)
                && final(self).same_as(*old(self)),
            old(self).mempool@.len() > 0 ==> match outcome {
                Ok(index) => {
                    &&& index == Some(old(self).blocks@.len() as u32)
                    &&& final(self).blocks@.len() == old(self).blocks@.len() + 1
                    &&& final(self).blocks@.last().transactions@.to_multiset() == old(self).mempool@.to_multiset()
                    &&& sorted_by_sender_nonce(final(self).blocks@.last().transactions@)
                    &&& old(self).built_on(
                        final(self).blocks@.last(),
                        final(self).blocks@.last().transactions@,
                        authority@,
                        signing_key.seed@,
                    )
                    &&& apply_transactions_spec(
                        old(self).public_keys@,
                        old(self).current_view(),
                        final(self).blocks@.last().transactions@,
                    ) matches Ok(after) && old(self).appended(*final(self), final(self).blocks@.last(), after)
                    &&& final(self).mempool@ == Seq::<Transaction>::empty()
                },
                Err(_) => final(self).same_as(*old(self)),
            },
            old(self).mempool@.len() > 0 && outcome is Ok ==> old(self).may_seal(authority@, signing_key.seed@),
            old(self).mempool@.len() > 0 && outcome is Err ==> old(self).seal_refused(
                old(self).mempool@,
                authority@,
                signing_key.seed@,
            ),
            old(self).mempool@.len() > 0 ==> (outcome matches Err(error) ==> old(self).seal_error(
                old(self).mempool@,
                authority@,
                signing_key.seed@,
                error,
            )),
            old(self).consistent() && outcome is Ok ==> final(self).consistent(),
    {
        if self.mempool.is_empty() {
            return Ok(None);
        }
        let saved = self.mempool.clone();
        let transactions = self.mempool.drain();
        let ghost drained = transactions@;
        match self.add_block(transactions, authority, signing_key) {
            Ok(index) => Ok(Some(index)),
            Err(error) => {
                self.mempool = saved;
                proof {
                    if old(self).may_seal(authority@, signing_key.seed@) {
                        assert(apply_transactions_spec(old(self).public_keys@, old(self).current_view(), drained)
                            == Err::<LedgerView, ChainError>(error));
                    }
                }
                Err(error)
            },
        }
    }

    /// A copy of every block.
    pub fn get_blocks(&self) -> (blocks: Vec<Block>)
        ensures
            blocks@.len() == self.blocks@.len(),
            forall|i: int| 0 <= i < blocks@.len() ==> (#[trigger] blocks@[i]).equals(self.blocks@[i]),
    {
        let mut blocks: Vec<Block> = Vec::new();
        let mut i: usize = 0;
        while i < self.blocks.len()
            invariant
                i <= self.blocks@.len(),
                blocks@.len() == i,
                forall|j: int| 0 <= j < i ==> (#[trigger] blocks@[j]).equals(self.blocks@[j]),
            decreases self.blocks@.len() - i,
        {
            blocks.push(self.blocks[i].clone());
            i = i + 1;
        }
        blocks
    }

    /// Every balance, each account once, sorted by account name.
    pub fn get_balances(&self) -> (balances: Vec<(String, Amount)>)
        ensures
            lists(balances@, self.balances@),
            names_ascending(balances@),
    {
        let listing = self.balances.entries();
        let sorted = sort_by_name(listing);
        proof {
            lemma_sorted_listing(listing@, sorted@, self.balances@);
        }
        sorted
    }

    /// The transaction on chain with this id (the latest, should several
    /// carry it).
    pub fn get_transaction(&self, id: &str) -> (found: Option<Transaction>)
        ensures
            match found {
                Some(tx) => exists|i: int, j: int|
                    {
                        &&& holds_at(self.blocks@, i, j, id@)
                        &&& tx == self.blocks@[i].transactions@[j]
                        &&& forall|k: int, l: int| #[trigger] holds_at(self.blocks@, k, l, id@) ==> (k < i || (k == i && l <= j))
                    },
                None => forall|i: int, j: int| !#[trigger] holds_at(self.blocks@, i, j, id@),
            },
    {
        let key: String = id.to_owned();
        let mut i: usize = self.blocks.len();
        while i > 0
            invariant
                i <= self.blocks@.len(),
                key@ == id@,
                forall|k: int, l: int| #[trigger] holds_at(self.blocks@, k, l, id@) ==> k < i,
            decreases i,
        {
            let txs = &self.blocks[i - 1].transactions;
            let mut j: usize = txs.len();
            while j > 0
                invariant
                    j <= txs@.len(),
                    txs@ == self.blocks@[i - 1].transactions@,
                    0 < i <= self.blocks@.len(),
                    key@ == id@,
                    forall|k: int, l: int| #[trigger] holds_at(self.blocks@, k, l, id@) ==> (k < i - 1 || (k == i - 1 && l < j)),
                decreases j,
            {
                if txs[j - 1].id == key {
                    let tx = txs[j - 1].clone();
                    assert(holds_at(self.blocks@, i - 1, j - 1, id@));
                    return Some(tx);
                }
                j = j - 1;
            }
            i = i - 1;
        }
        None
    }
}

/// Transaction `j` of block `i` exists and carries `id`.
pub open spec fn holds_at(blocks: Seq<Block>, i: int, j: int, id: Seq<char>) -> bool {
    &&& 0 <= i < blocks.len()
    &&& 0 <= j < blocks[i].transactions@.len()
    &&& blocks[i].transactions@[j].id@ == id
}

/// Names strictly ascending, byte-wise.
pub open spec fn names_ascending<V>(listing: Seq<(String, V)>) -> bool {
    forall|i: int, j: int|
        0 <= i < j < listing.len() ==> byte_order(utf8((#[trigger] listing[i]).0@), utf8((#[trigger] listing[j]).0@)) < 0
}

/// Sorts bindings with distinct names by name.
fn sort_by_name<V: Copy>(listing: Vec<(String, V)>) -> (sorted: Vec<(String, V)>)
    requires
        forall|i: int, j: int| 0 <= i < j < listing@.len() ==> (#[trigger] listing@[i]).0@ != (#[trigger] listing@[j]).0@,
    ensures
        sorted@.to_multiset() == listing@.to_multiset(),
        names_ascending(sorted@),
{
    let ghost all = listing@;
    let mut rest = listing;
    let mut sorted: Vec<(String, V)> = Vec::new();
    while rest.len() > 0
        invariant
            sorted@.to_multiset().add(rest@.to_multiset()) == all.to_multiset(),
            names_ascending(sorted@),
            forall|i: int, j: int| 0 <= i < j < rest@.len() ==> (#[trigger] rest@[i]).0@ != (#[trigger] rest@[j]).0@,
            forall|i: int, j: int|
                0 <= i < sorted@.len() && 0 <= j < rest@.len() ==> byte_order(
                    utf8((#[trigger] sorted@[i]).0@),
                    utf8((#[trigger] rest@[j]).0@),
                ) < 0,
        decreases rest@.len(),
    {
        let least = index_of_least_name(&rest);
        let ghost before = rest@;
        let ghost sorted_before = sorted@;
        let next = rest.remove(least);
        sorted.push(next);
        proof {
            assert(before.remove(least as int).to_multiset() =~= before.to_multiset().remove(next));
            assert(sorted@.to_multiset() =~= sorted_before.to_multiset().insert(next));
            assert(sorted@.to_multiset().add(rest@.to_multiset()) =~= all.to_multiset());
            assert forall|i: int, j: int| 0 <= i < j < sorted@.len() implies byte_order(
                utf8((#[trigger] sorted@[i]).0@),
                utf8((#[trigger] sorted@[j]).0@),
            ) < 0 by {
                if j == sorted_before.len() {
                    assert(sorted@[j] == before[least as int]);
                }
            }
            assert forall|i: int, j: int| 0 <= i < j < rest@.len() implies (#[trigger] rest@[i]).0@
                != (#[trigger] rest@[j]).0@ by {
                let a = if i < least { i } else { i + 1 };
                let b = if j < least { j } else { j + 1 };
                assert(rest@[i] == before[a]);
                assert(rest@[j] == before[b]);
            }
            assert forall|i: int, j: int|
                0 <= i < sorted@.len() && 0 <= j < rest@.len() implies byte_order(
                utf8((#[trigger] sorted@[i]).0@),
                utf8((#[trigger] rest@[j]).0@),
            ) < 0 by {
                let k = if j < least { j } else { j + 1 };
                assert(rest@[j] == before[k]);
                if i == sorted_before.len() {
                    assert(sorted@[i] == before[least as int]);
                    assert(k != least);
                    lemma_byte_order_equal(utf8(before[least as int].0@), utf8(before[k].0@));
                    lemma_utf8_injective(before[least as int].0@, before[k].0@);
                }
            }
        }
    }
    assert(rest@.to_multiset() =~= vstd::multiset::Multiset::<(String, V)>::empty());
    assert(sorted@.to_multiset() =~= all.to_multiset());
    sorted
}

/// Index of the binding whose name sorts first.
fn index_of_least_name<V>(listing: &Vec<(String, V)>) -> (least: usize)
    requires
        listing@.len() > 0,
    ensures
        least < listing@.len(),
        forall|j: int| 0 <= j < listing@.len() ==> byte_order(utf8(listing@[least as int].0@), utf8((#[trigger] listing@[j]).0@)) <= 0,
{
    let mut least: usize = 0;
    let mut i: usize = 1;
    proof {
        lemma_byte_order_equal(utf8(listing@[0].0@), utf8(listing@[0].0@));
    }
    while i < listing.len()
        invariant
            0 < i <= listing@.len(),
            least < i,
            forall|j: int| 0 <= j < i ==> byte_order(utf8(listing@[least as int].0@), utf8((#[trigger] listing@[j]).0@)) <= 0,
        decreases listing@.len() - i,
    {
        let order = byte_order_of(listing[i].0.as_str().as_bytes(), listing[least].0.as_str().as_bytes());
        proof {
            lemma_byte_order_range(utf8(listing@[i as int].0@), utf8(listing@[least as int].0@));
            lemma_byte_order_flip(utf8(listing@[i as int].0@), utf8(listing@[least as int].0@));
        }
        if order < 0 {
            proof {
                assert forall|j: int| 0 <= j <= i implies byte_order(utf8(listing@[i as int].0@), utf8((#[trigger] listing@[j]).0@)) <= 0 by {
                    if j < i {
                        lemma_byte_order_transitive(utf8(listing@[i as int].0@), utf8(listing@[least as int].0@), utf8(listing@[j].0@));
                    } else {
                        lemma_byte_order_equal(utf8(listing@[i as int].0@), utf8(listing@[i as int].0@));
                    }
                }
            }
            least = i;
        }
        i = i + 1;
    }
    least
}

/// Distinct texts have distinct UTF-8 bytes.
proof fn lemma_utf8_injective(a: Seq<char>, b: Seq<char>)
    ensures
        utf8(a) == utf8(b) ==> a == b,
{
    vstd::utf8::encode_utf8_decode_utf8(a);
    vstd::utf8::encode_utf8_decode_utf8(b);
}

/// A sorted copy of a listing lists the same map.
proof fn lemma_sorted_listing<V>(listing: Seq<(String, V)>, sorted: Seq<(String, V)>, map: Map<Seq<char>, V>)
    requires
        lists(listing, map),
        sorted.to_multiset() == listing.to_multiset(),
        names_ascending(sorted),
    ensures
        lists(sorted, map),
{
    assert forall|i: int, j: int| 0 <= i < j < sorted.len() implies (#[trigger] sorted[i]).0@ != (#[trigger] sorted[j]).0@ by {
        lemma_byte_order_equal(utf8(sorted[i].0@), utf8(sorted[j].0@));
    }
    assert forall|i: int| 0 <= i < sorted.len() implies {
        &&& map.contains_key((#[trigger] sorted[i]).0@)
        &&& map[sorted[i].0@] == sorted[i].1
    } by {
        assert(sorted.contains(sorted[i]));
        assert(sorted.to_multiset().count(sorted[i]) > 0);
        assert(listing.to_multiset().count(sorted[i]) > 0);
        assert(listing.contains(sorted[i]));
        let k = choose|k: int| 0 <= k < listing.len() && listing[k] == sorted[i];
        assert(listing[k] == sorted[i]);
    }
    assert forall|name: Seq<char>| map.contains_key(name) implies exists|i: int|
        0 <= i < sorted.len() && (#[trigger] sorted[i]).0@ == name by {
        let k = choose|k: int| 0 <= k < listing.len() && (#[trigger] listing[k]).0@ == name;
        assert(listing.contains(listing[k]));
        assert(listing.to_multiset().count(listing[k]) > 0);
        assert(sorted.to_multiset().count(listing[k]) > 0);
        assert(sorted.contains(listing[k]));
        let i = choose|i: int| 0 <= i < sorted.len() && sorted[i] == listing[k];
        assert(sorted[i].0@ == name);
    }
}

impl Clone for Blockchain {
    /// A copy of the chain: equal blocks, the same accounts, the same pool.
    fn clone(&self) -> (copy: Self)
        ensures
            copy.blocks@.len() == self.blocks@.len(),
            forall|i: int| 0 <= i < copy.blocks@.len() ==> (#[trigger] copy.blocks@[i]).equals(self.blocks@[i]),
            copy.authority == self.authority,
            copy.authorities@ == self.authorities@,
            copy.balances@ == self.balances@,
            copy.initial_balances@ == self.initial_balances@,
            copy.nonces@ == self.nonces@,
            copy.public_keys@ == self.public_keys@,
            copy.mempool@ == self.mempool@,
    {
        Blockchain {
            blocks: self.get_blocks(),
            authority: self.authority.clone(),
            authorities: self.authorities.clone(),
            balances: self.balances.clone(),
            initial_balances: self.initial_balances.clone(),
            nonces: self.nonces.clone(),
            public_keys: self.public_keys.clone(),
            mempool: self.mempool.clone(),
        }
    }
}

/// Appending a block that validates against a consistent chain keeps the
/// chain consistent: the balances and nonces held stay those that replaying
/// the whole chain gives.
pub proof fn lemma_append_keeps_consistency(before: Blockchain, after_chain: Blockchain, block: Block, after: LedgerView)
    requires
        before.consistent(),
        before.next_block_outcome(block) == Ok::<LedgerView, ChainError>(after),
        before.appended(after_chain, block, after),
    ensures
        after_chain.consistent(),
{
    let blocks = after_chain.blocks@;
    assert(blocks.drop_last() =~= before.blocks@);
    assert(blocks.last() == block);
    lemma_apply_records_ids(before.public_keys@, before.current_view(), block.transactions@);
    assert(chain_ids(blocks) =~= chain_ids(before.blocks@).union(transaction_ids(block.transactions@)));
    assert(after.seen == chain_ids(blocks));
}

/// On a consistent chain the balances add up to the initial allocation
/// plus what the mint account created in its blocks.
pub proof fn lemma_consistent_chain_conserves_value(chain: Blockchain)
    requires
        chain.initial_balances@.dom().finite(),
        chain.consistent(),
    ensures
        total(chain.balances@) == total(chain.initial_balances@) + chain_minted(chain.blocks@),
{
    lemma_chain_conserves_value(chain.authorities@, chain.public_keys@, chain.initial_balances@, chain.blocks@);
}

/// Learning keys keeps a consistent chain consistent: the blocks already
/// replayed with the keys known replay the same way with more of them.
pub proof fn lemma_more_keys_keep_consistency(before: Blockchain, after: Blockchain)
    requires
        before.consistent(),
        extends_keys(after.public_keys@, before.public_keys@),
        after.blocks@ == before.blocks@,
        after.authorities@ == before.authorities@,
        after.balances@ == before.balances@,
        after.initial_balances@ == before.initial_balances@,
        after.nonces@ == before.nonces@,
    ensures
        after.consistent(),
{
    lemma_more_keys_same_replay(
        before.authorities@,
        before.public_keys@,
        after.public_keys@,
        before.initial_balances@,
        before.blocks@,
    );
}

} // verus!
