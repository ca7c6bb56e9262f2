//! Applying transactions and blocks to balances and nonces. Every rule of
//! the ledger is stated here once, as a specification, and implemented by
//! the functions the chain validates with.

use vstd::prelude::*;
use vstd::set::fold::{is_fun_commutative, lemma_fold_empty, lemma_fold_insert};
use crate::accounts::{AccountMap, NameSet};
use crate::block::Block;
use crate::crypto::PublicKey;
use crate::error::ChainError;
use crate::transaction::{Transaction, MAX_PAYLOAD_BYTES};

verus! {

/// The account that creates value: its transactions carry no signature and
/// no nonce, and it is never debited.
pub const MINT_ACCOUNT: &'static str = "System";

pub open spec fn mint_account() -> Seq<char> {
    "System"@
}

/// Balances, nonces and the ids already applied.
pub struct LedgerView {
    pub balances: Map<Seq<char>, u64>,
    pub nonces: Map<Seq<char>, u64>,
    pub seen: Set<Seq<char>>,
}

/// The value bound to `name`, zero when unbound.
pub open spec fn value_or_zero(map: Map<Seq<char>, u64>, name: Seq<char>) -> u64 {
    if map.contains_key(name) {
        map[name]
    } else {
        0
    }
}

/// The checks on the sender of `tx`, and the debit they lead to: the mint
/// account is not checked nor debited; any other sender needs a registered
/// key that verifies the transaction, the next nonce in its sequence and
/// enough funds.
pub open spec fn debit(
    keys: Map<Seq<char>, PublicKey>,
    balances: Map<Seq<char>, u64>,
    nonces: Map<Seq<char>, u64>,
    tx: Transaction,
) -> Result<(Map<Seq<char>, u64>, Map<Seq<char>, u64>), ChainError> {
    let sender = tx.sender@;
    let expected = value_or_zero(nonces, sender);
    let balance = value_or_zero(balances, sender);
    if sender == mint_account() {
        Ok((balances, nonces))
    } else if !keys.contains_key(sender) {
        Err(ChainError::UnknownSender(tx.sender))
    } else if !tx.verified_by(keys[sender].bytes@) {
        Err(ChainError::InvalidSignature(tx.id))
    } else if tx.nonce != expected {
        Err(ChainError::InvalidNonce { sender: tx.sender, expected, found: tx.nonce })
    } else if expected == u64::MAX {
        Err(ChainError::NonceOverflow(tx.sender))
    } else if balance < tx.amount {
        Err(ChainError::InsufficientFunds { sender: tx.sender, balance, amount: tx.amount })
    } else {
        Ok((balances.insert(sender, (balance - tx.amount) as u64), nonces.insert(sender, (expected + 1) as u64)))
    }
}

/// One transaction applied to the running state. Balances and nonces move
/// as transactions are applied, so two transfers in one block cannot spend
/// the same funds.
#[verifier::opaque]
pub open spec fn apply_transaction_spec(
    keys: Map<Seq<char>, PublicKey>,
    state: LedgerView,
    tx: Transaction,
) -> Result<LedgerView, ChainError> {
    if !tx.id_matches() {
        Err(ChainError::TamperedTransaction(tx.id))
    } else if tx.spec_payload_size() > MAX_PAYLOAD_BYTES {
        Err(ChainError::PayloadTooLarge { id: tx.id, size: tx.spec_payload_size() as usize, max: MAX_PAYLOAD_BYTES })
    } else if state.seen.contains(tx.id@) {
        Err(ChainError::DuplicateTransaction(tx.id))
    } else {
        match debit(keys, state.balances, state.nonces, tx) {
            Err(error) => Err(error),
            Ok((balances, nonces)) => {
                let credited = value_or_zero(balances, tx.receiver@) + tx.amount;
                if credited > u64::MAX {
                    Err(ChainError::BalanceOverflow(tx.receiver))
                } else {
                    Ok(
                        LedgerView {
                            balances: balances.insert(tx.receiver@, credited as u64),
                            nonces,
                            seen: state.seen.insert(tx.id@),
                        },
                    )
                }
            },
        }
    }
}

/// A run of transactions applied in order; the first refusal stops it.
pub open spec fn apply_transactions_spec(
    keys: Map<Seq<char>, PublicKey>,
    state: LedgerView,
    txs: Seq<Transaction>,
) -> Result<LedgerView, ChainError>
    decreases txs.len(),
{
    if txs.len() == 0 {
        Ok(state)
    } else {
        match apply_transactions_spec(keys, state, txs.drop_last()) {
            Ok(before) => apply_transaction_spec(keys, before, txs.last()),
            Err(error) => Err(error),
        }
    }
}

/// A block checked against its expected position and applied. Genesis
/// (index 0) has no authority to seal it: it is the root of trust.
pub open spec fn verify_block_spec(
    authorities: Set<Seq<char>>,
    keys: Map<Seq<char>, PublicKey>,
    block: Block,
    expected_index: u32,
    previous_hash: Seq<char>,
    state: LedgerView,
) -> Result<LedgerView, ChainError> {
    if block.index != expected_index {
        Err(ChainError::WrongIndex { expected: expected_index, found: block.index })
    } else if block.previous_hash@ != previous_hash {
        Err(ChainError::BrokenLink(block.index))
    } else if !block.hash_matches() {
        Err(ChainError::CorruptedHash(block.index))
    } else if block.index > 0 && !authorities.contains(block.authority@) {
        Err(ChainError::UnauthorizedAuthority(block.authority))
    } else if block.index > 0 && !keys.contains_key(block.authority@) {
        Err(ChainError::UnknownAuthorityKey(block.authority))
    } else if block.index > 0 && block.authority_signature is None {
        Err(ChainError::UnsealedBlock(block.index))
    } else if block.index > 0 && !block.sealed_by(keys[block.authority@].bytes@) {
        Err(ChainError::InvalidSeal(block.index))
    } else {
        apply_transactions_spec(keys, state, block.transactions@)
    }
}

/// The hash the next block must link to: that of the last block, or "0"
/// before genesis.
pub open spec fn tip_hash(blocks: Seq<Block>) -> Seq<char> {
    if blocks.len() == 0 {
        "0"@
    } else {
        blocks.last().hash@
    }
}

/// The state before any block: the initial allocation, no nonce used, no id seen.
pub open spec fn initial_view(initial: Map<Seq<char>, u64>) -> LedgerView {
    LedgerView { balances: initial, nonces: Map::empty(), seen: Set::empty() }
}

/// A whole chain replayed over the initial allocation: links, hashes,
/// seals, signatures, nonces and balances all have to hold.
pub open spec fn replay_spec(
    authorities: Set<Seq<char>>,
    keys: Map<Seq<char>, PublicKey>,
    initial: Map<Seq<char>, u64>,
    blocks: Seq<Block>,
) -> Result<LedgerView, ChainError>
    decreases blocks.len(),
{
    if blocks.len() == 0 {
        Ok(initial_view(initial))
    } else {
        match replay_spec(authorities, keys, initial, blocks.drop_last()) {
            Ok(before) => verify_block_spec(
                authorities,
                keys,
                blocks.last(),
                (blocks.len() - 1) as u32,
                tip_hash(blocks.drop_last()),
                before,
            ),
            Err(error) => Err(error),
        }
    }
}

/// The ids of a run of transactions.
pub open spec fn transaction_ids(txs: Seq<Transaction>) -> Set<Seq<char>>
    decreases txs.len(),
{
    if txs.len() == 0 {
        Set::empty()
    } else {
        transaction_ids(txs.drop_last()).insert(txs.last().id@)
    }
}

/// The ids of every transaction in a run of blocks.
pub open spec fn chain_ids(blocks: Seq<Block>) -> Set<Seq<char>>
    decreases blocks.len(),
{
    if blocks.len() == 0 {
        Set::empty()
    } else {
        chain_ids(blocks.drop_last()).union(transaction_ids(blocks.last().transactions@))
    }
}

/// Balances, nonces and seen ids, as the validation of a chain carries them.
pub struct LedgerState {
    pub balances: AccountMap<u64>,
    pub nonces: AccountMap<u64>,
    pub seen: NameSet,
}

impl LedgerState {
    pub open spec fn view(&self) -> LedgerView {
        LedgerView { balances: self.balances@, nonces: self.nonces@, seen: self.seen@ }
    }
}

fn is_mint_account(name: &String) -> (mint: bool)
    ensures
        mint == (name@ == mint_account()),
{
    *name == MINT_ACCOUNT.to_owned()
}

fn value_of(map: &AccountMap<u64>, name: &str) -> (value: u64)
    ensures
        value == value_or_zero(map@, name@),
{
    match map.get(name) {
        Some(value) => value,
        None => 0,
    }
}

/// Validates a single transaction against the running state and applies it.
/// Balances and nonces move as transactions are applied, so two transfers in
/// one block cannot spend the same funds. Every check is made before
/// anything changes: a refused transaction leaves the state untouched.
pub fn apply_transaction(
    public_keys: &AccountMap<PublicKey>,
    state: &mut LedgerState,
    transaction: &Transaction,
) -> (outcome: Result<(), ChainError>)
    ensures
        match apply_transaction_spec(public_keys@, old(state).view(), *transaction) {
            Ok(after) => outcome is Ok && final(state).view() == after,
            Err(error) => outcome == Err::<(), ChainError>(error) && final(state).view() == old(state).view(),
        },
{
    reveal(apply_transaction_spec);
    if !transaction.has_valid_id() {
        return Err(ChainError::TamperedTransaction(transaction.id.clone()));
    }
    if !transaction.payload_within_limit() {
        return Err(
            ChainError::PayloadTooLarge {
                id: transaction.id.clone(),
                size: transaction.payload_size(),
                max: MAX_PAYLOAD_BYTES,
            },
        );
    }
    if state.seen.contains(transaction.id.as_str()) {
        return Err(ChainError::DuplicateTransaction(transaction.id.clone()));
    }
    let mint = is_mint_account(&transaction.sender);
    let mut balance: u64 = 0;
    let mut expected: u64 = 0;
    if !mint {
        let key = match public_keys.get(transaction.sender.as_str()) {
            Some(key) => key,
            None => {
                return Err(ChainError::UnknownSender(transaction.sender.clone()));
            },
        };
        if !transaction.verify(&key) {
            return Err(ChainError::InvalidSignature(transaction.id.clone()));
        }
        expected = value_of(&state.nonces, transaction.sender.as_str());
        if transaction.nonce != expected {
            return Err(
                ChainError::InvalidNonce {
                    sender: transaction.sender.clone(),
                    expected,
                    found: transaction.nonce,
                },
            );
        }
        if expected == u64::MAX {
            return Err(ChainError::NonceOverflow(transaction.sender.clone()));
        }
        balance = value_of(&state.balances, transaction.sender.as_str());
        if balance < transaction.amount {
            return Err(
                ChainError::InsufficientFunds {
                    sender: transaction.sender.clone(),
                    balance,
                    amount: transaction.amount,
                },
            );
        }
    }
    // What the receiver holds once the sender is debited.
    let held = if !mint && transaction.receiver == transaction.sender {
        balance - transaction.amount
    } else {
        value_of(&state.balances, transaction.receiver.as_str())
    };
    let credited = match held.checked_add(transaction.amount) {
        Some(credited) => credited,
        None => {
            return Err(ChainError::BalanceOverflow(transaction.receiver.clone()));
        },
    };
    state.seen.insert(transaction.id.clone());
    if !mint {
        state.balances.insert(transaction.sender.clone(), balance - transaction.amount);
        state.nonces.insert(transaction.sender.clone(), expected + 1);
    }
    state.balances.insert(transaction.receiver.clone(), credited);
    Ok(())
}

/// Verifies one block against its expected position and the state
/// accumulated so far, and applies its transactions. The transactions are
/// applied to a working copy that replaces `state` only once the whole block
/// passed: a refused block leaves the ledger untouched.
pub fn verify_block(
    authorities: &NameSet,
    public_keys: &AccountMap<PublicKey>,
    block: &Block,
    expected_index: u32,
    previous_hash: &String,
    state: &mut LedgerState,
) -> (outcome: Result<(), ChainError>)
    ensures
        match verify_block_spec(
            authorities@,
            public_keys@,
            *block,
            expected_index,
            previous_hash@,
            old(state).view(),
        ) {
            Ok(after) => outcome is Ok && final(state).view() == after,
            Err(error) => outcome == Err::<(), ChainError>(error) && final(state).view() == old(state).view(),
        },
{
    if block.index != expected_index {
        return Err(ChainError::WrongIndex { expected: expected_index, found: block.index });
    }
    if block.previous_hash != *previous_hash {
        return Err(ChainError::BrokenLink(block.index));
    }
    if !block.is_hash_valid() {
        return Err(ChainError::CorruptedHash(block.index));
    }
    if block.index > 0 {
        if !authorities.contains(block.authority.as_str()) {
            return Err(ChainError::UnauthorizedAuthority(block.authority.clone()));
        }
        let key = match public_keys.get(block.authority.as_str()) {
            Some(key) => key,
            None => {
                return Err(ChainError::UnknownAuthorityKey(block.authority.clone()));
            },
        };
        if block.authority_signature.is_none() {
            return Err(ChainError::UnsealedBlock(block.index));
        }
        if !block.verify_seal(&key) {
            return Err(ChainError::InvalidSeal(block.index));
        }
    }
    let ghost start = state.view();
    assert(verify_block_spec(authorities@, public_keys@, *block, expected_index, previous_hash@, start)
        == apply_transactions_spec(public_keys@, start, block.transactions@));
    let mut work = LedgerState {
        balances: state.balances.clone(),
        nonces: state.nonces.clone(),
        seen: state.seen.clone(),
    };
    let mut i: usize = 0;
    while i < block.transactions.len()
        invariant
            i <= block.transactions@.len(),
            start == old(state).view(),
            state.view() == start,
            verify_block_spec(authorities@, public_keys@, *block, expected_index, previous_hash@, start)
                == apply_transactions_spec(public_keys@, start, block.transactions@),
            apply_transactions_spec(public_keys@, start, block.transactions@.subrange(0, i as int))
                == Ok::<LedgerView, ChainError>(work.view()),
        decreases block.transactions@.len() - i,
    {
        let ghost before = work.view();
        let outcome = apply_transaction(public_keys, &mut work, &block.transactions[i]);
        proof {
            let next = block.transactions@.subrange(0, i + 1);
            assert(next.drop_last() =~= block.transactions@.subrange(0, i as int));
            assert(next.last() == block.transactions@[i as int]);
        }
        match outcome {
            Ok(()) => {},
            Err(error) => {
                proof {
                    let txs = block.transactions@;
                    let next = txs.subrange(0, i + 1);
                    assert(apply_transaction_spec(public_keys@, before, txs[i as int]) == Err::<LedgerView, ChainError>(error));
                    assert(apply_transactions_spec(public_keys@, start, next) == Err::<LedgerView, ChainError>(error));
                    lemma_refusal_persists(public_keys@, start, txs, i as int + 1);
                }
                return Err(error);
            },
        }
        i = i + 1;
    }
    assert(block.transactions@.subrange(0, block.transactions@.len() as int) =~= block.transactions@);
    *state = work;
    Ok(())
}

/// Once a prefix of a run is refused, the whole run is refused the same way.
pub proof fn lemma_refusal_persists(
    keys: Map<Seq<char>, PublicKey>,
    state: LedgerView,
    txs: Seq<Transaction>,
    n: int,
)
    requires
        0 <= n <= txs.len(),
        apply_transactions_spec(keys, state, txs.subrange(0, n)) is Err,
    ensures
        apply_transactions_spec(keys, state, txs) == apply_transactions_spec(keys, state, txs.subrange(0, n)),
    decreases txs.len() - n,
{
    if n == txs.len() {
        assert(txs.subrange(0, n) =~= txs);
    } else {
        let longer = txs.subrange(0, n + 1);
        assert(longer.drop_last() =~= txs.subrange(0, n));
        lemma_refusal_persists(keys, state, txs, n + 1);
    }
}

/// Applying a transaction records its id among those seen.
pub proof fn lemma_apply_records_id(keys: Map<Seq<char>, PublicKey>, state: LedgerView, tx: Transaction)
    requires
        apply_transaction_spec(keys, state, tx) is Ok,
    ensures
        apply_transaction_spec(keys, state, tx)->Ok_0.seen == state.seen.insert(tx.id@),
{
    reveal(apply_transaction_spec);
}

/// Applying a run of transactions records exactly their ids among those seen.
pub proof fn lemma_apply_records_ids(keys: Map<Seq<char>, PublicKey>, state: LedgerView, txs: Seq<Transaction>)
    requires
        apply_transactions_spec(keys, state, txs) is Ok,
    ensures
        apply_transactions_spec(keys, state, txs)->Ok_0.seen == state.seen.union(transaction_ids(txs)),
    decreases txs.len(),
{
    if txs.len() == 0 {
        assert(state.seen.union(Set::empty()) =~= state.seen);
    } else {
        lemma_apply_records_ids(keys, state, txs.drop_last());
        let before = apply_transactions_spec(keys, state, txs.drop_last())->Ok_0;
        lemma_apply_records_id(keys, before, txs.last());
        assert(state.seen.union(transaction_ids(txs.drop_last())).insert(txs.last().id@)
            =~= state.seen.union(transaction_ids(txs)));
    }
}

/// Replaying a chain records exactly the ids of its transactions.
pub proof fn lemma_replay_records_ids(
    authorities: Set<Seq<char>>,
    keys: Map<Seq<char>, PublicKey>,
    initial: Map<Seq<char>, u64>,
    blocks: Seq<Block>,
)
    requires
        replay_spec(authorities, keys, initial, blocks) is Ok,
    ensures
        replay_spec(authorities, keys, initial, blocks)->Ok_0.seen == chain_ids(blocks),
    decreases blocks.len(),
{
    if blocks.len() > 0 {
        lemma_replay_records_ids(authorities, keys, initial, blocks.drop_last());
        let before = replay_spec(authorities, keys, initial, blocks.drop_last())->Ok_0;
        lemma_apply_records_ids(keys, before, blocks.last().transactions@);
    }
}

/// Once a prefix of a chain is refused, the whole chain is refused the same way.
pub proof fn lemma_replay_refusal_persists(
    authorities: Set<Seq<char>>,
    keys: Map<Seq<char>, PublicKey>,
    initial: Map<Seq<char>, u64>,
    blocks: Seq<Block>,
    n: int,
)
    requires
        0 <= n <= blocks.len(),
        replay_spec(authorities, keys, initial, blocks.subrange(0, n)) is Err,
    ensures
        replay_spec(authorities, keys, initial, blocks) == replay_spec(authorities, keys, initial, blocks.subrange(0, n)),
    decreases blocks.len() - n,
{
    if n == blocks.len() {
        assert(blocks.subrange(0, n) =~= blocks);
    } else {
        let longer = blocks.subrange(0, n + 1);
        assert(longer.drop_last() =~= blocks.subrange(0, n));
        lemma_replay_refusal_persists(authorities, keys, initial, blocks, n + 1);
    }
}

/// A transaction whose id is already seen is refused: a signed transaction
/// cannot be applied twice.
pub proof fn lemma_seen_is_refused(keys: Map<Seq<char>, PublicKey>, state: LedgerView, tx: Transaction)
    requires
        state.seen.contains(tx.id@),
    ensures
        apply_transaction_spec(keys, state, tx) is Err,
{
    reveal(apply_transaction_spec);
}

/// Replaying a transaction right after it was applied is refused as a
/// duplicate.
pub proof fn lemma_no_replay(keys: Map<Seq<char>, PublicKey>, state: LedgerView, tx: Transaction)
    requires
        apply_transaction_spec(keys, state, tx) is Ok,
    ensures
        apply_transaction_spec(keys, apply_transaction_spec(keys, state, tx)->Ok_0, tx)
            == Err::<LedgerView, ChainError>(ChainError::DuplicateTransaction(tx.id)),
{
    reveal(apply_transaction_spec);
}

/// An applied transaction moves exactly its amount: the sender is debited
/// by it (unless it is the mint account), the receiver credited by it, and
/// every other balance stays as it was. In particular a reading, of amount
/// zero from a sensor to itself, moves no value.
pub proof fn lemma_balances_move_by_amount(
    keys: Map<Seq<char>, PublicKey>,
    state: LedgerView,
    tx: Transaction,
    name: Seq<char>,
)
    requires
        apply_transaction_spec(keys, state, tx) is Ok,
    ensures
        value_or_zero(apply_transaction_spec(keys, state, tx)->Ok_0.balances, name) == value_or_zero(
            state.balances,
            name,
        ) - (if name == tx.sender@ && name != mint_account() {
            tx.amount as int
        } else {
            0
        }) + (if name == tx.receiver@ {
            tx.amount as int
        } else {
            0
        }),
{
    reveal(apply_transaction_spec);
}

/// The sum of all balances.
pub open spec fn total(balances: Map<Seq<char>, u64>) -> int {
    balances.dom().fold(0int, |sum: int, name: Seq<char>| sum + balances[name])
}

/// What the mint account creates in a run of transactions.
pub open spec fn minted(txs: Seq<Transaction>) -> int
    decreases txs.len(),
{
    if txs.len() == 0 {
        0
    } else {
        minted(txs.drop_last()) + if txs.last().sender@ == mint_account() {
            txs.last().amount as int
        } else {
            0
        }
    }
}

/// What the mint account creates in a run of blocks.
pub open spec fn chain_minted(blocks: Seq<Block>) -> int
    decreases blocks.len(),
{
    if blocks.len() == 0 {
        0
    } else {
        chain_minted(blocks.drop_last()) + minted(blocks.last().transactions@)
    }
}

/// A sum over `names` only depends on the balances of those names.
proof fn lemma_sum_over_agreeing(names: Set<Seq<char>>, first: Map<Seq<char>, u64>, second: Map<Seq<char>, u64>)
    requires
        names.finite(),
        forall|name: Seq<char>| names.contains(name) ==> first[name] == second[name],
    ensures
        names.fold(0int, |sum: int, name: Seq<char>| sum + first[name]) == names.fold(
            0int,
            |sum: int, name: Seq<char>| sum + second[name],
        ),
    decreases names.len(),
{
    let f = |sum: int, name: Seq<char>| sum + first[name];
    let g = |sum: int, name: Seq<char>| sum + second[name];
    assert(is_fun_commutative(f));
    assert(is_fun_commutative(g));
    if names.len() == 0 {
        assert(names =~= Set::<Seq<char>>::empty());
        lemma_fold_empty(0int, f);
        lemma_fold_empty(0int, g);
    } else {
        let name = names.choose();
        let rest = names.remove(name);
        assert(rest.insert(name) =~= names);
        lemma_sum_over_agreeing(rest, first, second);
        lemma_fold_insert(rest, 0int, f, name);
        lemma_fold_insert(rest, 0int, g, name);
    }
}

/// Rebinding one balance changes the sum by the difference.
pub proof fn lemma_total_insert(balances: Map<Seq<char>, u64>, name: Seq<char>, value: u64)
    requires
        balances.dom().finite(),
    ensures
        balances.insert(name, value).dom().finite(),
        total(balances.insert(name, value)) == total(balances) - value_or_zero(balances, name) + value,
{
    let after = balances.insert(name, value);
    let f = |sum: int, n: Seq<char>| sum + balances[n];
    let g = |sum: int, n: Seq<char>| sum + after[n];
    assert(is_fun_commutative(f));
    assert(is_fun_commutative(g));
    if balances.contains_key(name) {
        let rest = balances.dom().remove(name);
        assert(rest.insert(name) =~= balances.dom());
        assert(after.dom() =~= balances.dom());
        lemma_sum_over_agreeing(rest, balances, after);
        lemma_fold_insert(rest, 0int, f, name);
        lemma_fold_insert(rest, 0int, g, name);
    } else {
        assert(after.dom() =~= balances.dom().insert(name));
        lemma_sum_over_agreeing(balances.dom(), balances, after);
        lemma_fold_insert(balances.dom(), 0int, g, name);
    }
}

/// Only the mint account creates value: an applied transaction leaves the
/// sum of all balances as it was, or raises it by its amount when the mint
/// account sends it.
pub proof fn lemma_transaction_conserves_value(keys: Map<Seq<char>, PublicKey>, state: LedgerView, tx: Transaction)
    requires
        state.balances.dom().finite(),
        apply_transaction_spec(keys, state, tx) is Ok,
    ensures
        apply_transaction_spec(keys, state, tx)->Ok_0.balances.dom().finite(),
        total(apply_transaction_spec(keys, state, tx)->Ok_0.balances) == total(state.balances) + if tx.sender@
            == mint_account() {
            tx.amount as int
        } else {
            0
        },
{
    reveal(apply_transaction_spec);
    let sender = tx.sender@;
    let balances = state.balances;
    if sender == mint_account() {
        let credited = value_or_zero(balances, tx.receiver@) + tx.amount;
        lemma_total_insert(balances, tx.receiver@, credited as u64);
    } else {
        let balance = value_or_zero(balances, sender);
        let debited = balances.insert(sender, (balance - tx.amount) as u64);
        lemma_total_insert(balances, sender, (balance - tx.amount) as u64);
        let credited = value_or_zero(debited, tx.receiver@) + tx.amount;
        lemma_total_insert(debited, tx.receiver@, credited as u64);
    }
}

/// Applying a run of transactions raises the sum of all balances by what
/// the mint account sends in it, and by nothing else.
pub proof fn lemma_transactions_conserve_value(keys: Map<Seq<char>, PublicKey>, state: LedgerView, txs: Seq<Transaction>)
    requires
        state.balances.dom().finite(),
        apply_transactions_spec(keys, state, txs) is Ok,
    ensures
        apply_transactions_spec(keys, state, txs)->Ok_0.balances.dom().finite(),
        total(apply_transactions_spec(keys, state, txs)->Ok_0.balances) == total(state.balances) + minted(txs),
    decreases txs.len(),
{
    if txs.len() > 0 {
        lemma_transactions_conserve_value(keys, state, txs.drop_last());
        let before = apply_transactions_spec(keys, state, txs.drop_last())->Ok_0;
        lemma_transaction_conserves_value(keys, before, txs.last());
    }
}

/// A valid chain holds, altogether, its initial allocation plus what the
/// mint account created in its blocks: value appears nowhere else.
pub proof fn lemma_chain_conserves_value(
    authorities: Set<Seq<char>>,
    keys: Map<Seq<char>, PublicKey>,
    initial: Map<Seq<char>, u64>,
    blocks: Seq<Block>,
)
    requires
        initial.dom().finite(),
        replay_spec(authorities, keys, initial, blocks) is Ok,
    ensures
        replay_spec(authorities, keys, initial, blocks)->Ok_0.balances.dom().finite(),
        total(replay_spec(authorities, keys, initial, blocks)->Ok_0.balances) == total(initial) + chain_minted(blocks),
    decreases blocks.len(),
{
    if blocks.len() > 0 {
        lemma_chain_conserves_value(authorities, keys, initial, blocks.drop_last());
        let before = replay_spec(authorities, keys, initial, blocks.drop_last())->Ok_0;
        lemma_transactions_conserve_value(keys, before, blocks.last().transactions@);
    }
}

/// `more` binds every name `keys` binds, to the same key.
pub open spec fn extends_keys(more: Map<Seq<char>, PublicKey>, keys: Map<Seq<char>, PublicKey>) -> bool {
    forall|name: Seq<char>| #[trigger] keys.contains_key(name) ==> more.contains_key(name) && more[name] == keys[name]
}

/// Knowing more keys does not change what an accepted transaction does.
pub proof fn lemma_more_keys_same_transaction(
    keys: Map<Seq<char>, PublicKey>,
    more: Map<Seq<char>, PublicKey>,
    state: LedgerView,
    tx: Transaction,
)
    requires
        extends_keys(more, keys),
        apply_transaction_spec(keys, state, tx) is Ok,
    ensures
        apply_transaction_spec(more, state, tx) == apply_transaction_spec(keys, state, tx),
{
    reveal(apply_transaction_spec);
    if keys.contains_key(tx.sender@) {
        assert(more.contains_key(tx.sender@) && more[tx.sender@] == keys[tx.sender@]);
    }
}

/// Knowing more keys does not change what an accepted run of transactions does.
pub proof fn lemma_more_keys_same_transactions(
    keys: Map<Seq<char>, PublicKey>,
    more: Map<Seq<char>, PublicKey>,
    state: LedgerView,
    txs: Seq<Transaction>,
)
    requires
        extends_keys(more, keys),
        apply_transactions_spec(keys, state, txs) is Ok,
    ensures
        apply_transactions_spec(more, state, txs) == apply_transactions_spec(keys, state, txs),
    decreases txs.len(),
{
    if txs.len() > 0 {
        lemma_more_keys_same_transactions(keys, more, state, txs.drop_last());
        let before = apply_transactions_spec(keys, state, txs.drop_last())->Ok_0;
        lemma_more_keys_same_transaction(keys, more, before, txs.last());
    }
}

/// Knowing more keys does not change what an accepted block does.
pub proof fn lemma_more_keys_same_block(
    authorities: Set<Seq<char>>,
    keys: Map<Seq<char>, PublicKey>,
    more: Map<Seq<char>, PublicKey>,
    block: Block,
    expected_index: u32,
    previous_hash: Seq<char>,
    state: LedgerView,
)
    requires
        extends_keys(more, keys),
        verify_block_spec(authorities, keys, block, expected_index, previous_hash, state) is Ok,
    ensures
        verify_block_spec(authorities, more, block, expected_index, previous_hash, state) == verify_block_spec(
            authorities,
            keys,
            block,
            expected_index,
            previous_hash,
            state,
        ),
{
    if block.index > 0 {
        assert(keys.contains_key(block.authority@));
        assert(more[block.authority@] == keys[block.authority@]);
    }
    lemma_more_keys_same_transactions(keys, more, state, block.transactions@);
}

/// Knowing more keys does not change what replaying a valid chain gives.
pub proof fn lemma_more_keys_same_replay(
    authorities: Set<Seq<char>>,
    keys: Map<Seq<char>, PublicKey>,
    more: Map<Seq<char>, PublicKey>,
    initial: Map<Seq<char>, u64>,
    blocks: Seq<Block>,
)
    requires
        extends_keys(more, keys),
        replay_spec(authorities, keys, initial, blocks) is Ok,
    ensures
        replay_spec(authorities, more, initial, blocks) == replay_spec(authorities, keys, initial, blocks),
    decreases blocks.len(),
{
    if blocks.len() > 0 {
        lemma_more_keys_same_replay(authorities, keys, more, initial, blocks.drop_last());
        let before = replay_spec(authorities, keys, initial, blocks.drop_last())->Ok_0;
        lemma_more_keys_same_block(
            authorities,
            keys,
            more,
            blocks.last(),
            (blocks.len() - 1) as u32,
            tip_hash(blocks.drop_last()),
            before,
        );
    }
}

/// An applied transaction from anyone but the mint account carries exactly
/// its sender's next nonce, and moves that nonce on by one; no other
/// sender's nonce moves, and the mint account moves none.
pub proof fn lemma_nonce_advances_by_one(keys: Map<Seq<char>, PublicKey>, state: LedgerView, tx: Transaction, name: Seq<char>)
    requires
        apply_transaction_spec(keys, state, tx) is Ok,
    ensures
        tx.sender@ != mint_account() ==> {
            &&& tx.nonce == value_or_zero(state.nonces, tx.sender@)
            &&& apply_transaction_spec(keys, state, tx)->Ok_0.nonces.contains_key(tx.sender@)
            &&& apply_transaction_spec(keys, state, tx)->Ok_0.nonces[tx.sender@] == tx.nonce + 1
        },
        name != tx.sender@ || tx.sender@ == mint_account() ==> value_or_zero(
            apply_transaction_spec(keys, state, tx)->Ok_0.nonces,
            name,
        ) == value_or_zero(state.nonces, name),
{
    reveal(apply_transaction_spec);
}

/// How many transactions of a run `name` sends.
pub open spec fn sent_by(txs: Seq<Transaction>, name: Seq<char>) -> nat
    decreases txs.len(),
{
    if txs.len() == 0 {
        0
    } else {
        sent_by(txs.drop_last(), name) + if txs.last().sender@ == name {
            1nat
        } else {
            0nat
        }
    }
}

/// Applying a run of transactions moves the nonce of every sender but the
/// mint account on by exactly the number of transactions it sends in the
/// run: no nonce is skipped, none is used twice.
pub proof fn lemma_nonces_count_transactions(
    keys: Map<Seq<char>, PublicKey>,
    state: LedgerView,
    txs: Seq<Transaction>,
    name: Seq<char>,
)
    requires
        apply_transactions_spec(keys, state, txs) is Ok,
        name != mint_account(),
    ensures
        value_or_zero(apply_transactions_spec(keys, state, txs)->Ok_0.nonces, name) == value_or_zero(state.nonces, name)
            + sent_by(txs, name),
    decreases txs.len(),
{
    if txs.len() > 0 {
        let rest = txs.drop_last();
        lemma_nonces_count_transactions(keys, state, rest, name);
        let before = apply_transactions_spec(keys, state, rest)->Ok_0;
        lemma_nonce_advances_by_one(keys, before, txs.last(), name);
    }
}

/// An accepted block sits where it was expected: at the expected index,
/// linked to the expected previous hash, carrying the hash of its content,
/// and, past genesis, sealed by an authority under that authority's key.
pub proof fn lemma_accepted_block_fits(
    authorities: Set<Seq<char>>,
    keys: Map<Seq<char>, PublicKey>,
    block: Block,
    expected_index: u32,
    previous_hash: Seq<char>,
    state: LedgerView,
)
    requires
        verify_block_spec(authorities, keys, block, expected_index, previous_hash, state) is Ok,
    ensures
        block.index == expected_index,
        block.previous_hash@ == previous_hash,
        block.hash_matches(),
        block.index > 0 ==> {
            &&& authorities.contains(block.authority@)
            &&& keys.contains_key(block.authority@)
            &&& block.sealed_by(keys[block.authority@].bytes@)
        },
{
}

/// In a chain that replays, block `i` sits where it was expected: it has
/// index `i` and the hash of its own content, it links to the hash of
/// block `i - 1` (genesis to "0"), and past genesis it is sealed by an
/// authority under that authority's key.
pub proof fn lemma_replayed_block_fits(
    authorities: Set<Seq<char>>,
    keys: Map<Seq<char>, PublicKey>,
    initial: Map<Seq<char>, u64>,
    blocks: Seq<Block>,
    i: int,
)
    requires
        replay_spec(authorities, keys, initial, blocks) is Ok,
        0 <= i < blocks.len(),
    ensures
        blocks[i].index == i as u32,
        blocks[i].hash_matches(),
        i == 0 ==> blocks[i].previous_hash@ == "0"@,
        i > 0 ==> blocks[i].previous_hash@ == blocks[i - 1].hash@,
        blocks[i].index > 0 ==> authorities.contains(blocks[i].authority@),
        blocks[i].index > 0 ==> keys.contains_key(blocks[i].authority@),
        blocks[i].index > 0 ==> blocks[i].sealed_by(keys[blocks[i].authority@].bytes@),
    decreases blocks.len(),
{
    let rest = blocks.drop_last();
    let before = replay_spec(authorities, keys, initial, rest)->Ok_0;
    if i == blocks.len() - 1 {
        lemma_accepted_block_fits(
            authorities,
            keys,
            blocks.last(),
            (blocks.len() - 1) as u32,
            tip_hash(rest),
            before,
        );
        if i > 0 {
            assert(rest.last() == blocks[i - 1]);
        }
    } else {
        lemma_replayed_block_fits(authorities, keys, initial, rest, i);
        assert(blocks[i] == rest[i]);
        if i > 0 {
            assert(blocks[i - 1] == rest[i - 1]);
        }
    }
}

/// A chain that replays is a linked chain: every block links to the hash
/// of the block before it, and every block has the hash of its own content.
pub proof fn lemma_replayed_chain_is_linked(
    authorities: Set<Seq<char>>,
    keys: Map<Seq<char>, PublicKey>,
    initial: Map<Seq<char>, u64>,
    blocks: Seq<Block>,
)
    requires
        replay_spec(authorities, keys, initial, blocks) is Ok,
    ensures
        forall|i: int| 0 < i < blocks.len() ==> (#[trigger] blocks[i]).previous_hash@ == blocks[i - 1].hash@,
        forall|i: int| 0 <= i < blocks.len() ==> (#[trigger] blocks[i]).hash_matches(),
        blocks.len() > 0 ==> blocks[0].previous_hash@ == "0"@,
{
    assert forall|i: int| 0 < i < blocks.len() implies (#[trigger] blocks[i]).previous_hash@ == blocks[i - 1].hash@ by {
        lemma_replayed_block_fits(authorities, keys, initial, blocks, i);
    }
    assert forall|i: int| 0 <= i < blocks.len() implies (#[trigger] blocks[i]).hash_matches() by {
        lemma_replayed_block_fits(authorities, keys, initial, blocks, i);
    }
    if blocks.len() > 0 {
        lemma_replayed_block_fits(authorities, keys, initial, blocks, 0);
    }
}

} // verus!
