//! A pool of validated transactions waiting to be sealed into a block.
//!
//! The mempool is not persisted: on restart pending transactions are lost,
//! which is the expected behaviour for a best-effort submission layer.

use vstd::prelude::*;
use crate::accounts::AccountMap;
use crate::block::clone_transactions;
use crate::crypto::PublicKey;
use crate::encoding::utf8;
use crate::error::ChainError;
use crate::ledger::value_or_zero;
use crate::order::{byte_order, byte_order_of, lemma_byte_order_equal, lemma_byte_order_flip, lemma_byte_order_range, lemma_byte_order_transitive};
use crate::transaction::{Amount, Transaction, MAX_PAYLOAD_BYTES};

verus! {

broadcast use vstd::seq_lib::group_to_multiset_ensures;

/// Bytes of pending transactions past which sealing at once is worth more
/// than waiting for the next tick.
pub const SEAL_THRESHOLD_BYTES: usize = 65536;

/// How many bytes of transactions the mempool holds at most.
pub const MAX_MEMPOOL_BYTES: usize = 1048576;

/// How many pending transactions `sender` has.
pub open spec fn queued_from(pending: Seq<Transaction>, sender: Seq<char>) -> nat
    decreases pending.len(),
{
    if pending.len() == 0 {
        0
    } else {
        queued_from(pending.drop_last(), sender) + if pending.last().sender@ == sender {
            1nat
        } else {
            0nat
        }
    }
}

/// What the pending transactions of `sender` spend altogether.
pub open spec fn spent_by(pending: Seq<Transaction>, sender: Seq<char>) -> nat
    decreases pending.len(),
{
    if pending.len() == 0 {
        0
    } else {
        spent_by(pending.drop_last(), sender) + if pending.last().sender@ == sender {
            pending.last().amount as nat
        } else {
            0nat
        }
    }
}

/// What the pending transactions weigh altogether.
pub open spec fn total_weight(pending: Seq<Transaction>) -> nat
    decreases pending.len(),
{
    if pending.len() == 0 {
        0
    } else {
        total_weight(pending.drop_last()) + pending.last().spec_weight()
    }
}

/// Some pending transaction has this id.
pub open spec fn has_id(pending: Seq<Transaction>, id: Seq<char>) -> bool {
    exists|i: int| 0 <= i < pending.len() && (#[trigger] pending[i]).id@ == id
}

/// No id occurs twice.
pub open spec fn distinct_ids(pending: Seq<Transaction>) -> bool {
    forall|i: int, j: int| 0 <= i < j < pending.len() ==> (#[trigger] pending[i]).id@ != (#[trigger] pending[j]).id@
}

/// The outcome of queueing `tx` behind `pending`, checked in this order: the
/// id against the content, the size of the datum, duplicates on chain and
/// in the pool, the sender's key and signature, the next nonce counting the
/// sender's pending transactions, the funds left after what is already
/// pending, and last the room in the pool, so that an invalid transaction is
/// refused for what it is and not because the pool was full.
pub open spec fn queue_outcome(
    pending: Seq<Transaction>,
    keys: Map<Seq<char>, PublicKey>,
    balances: Map<Seq<char>, u64>,
    nonces: Map<Seq<char>, u64>,
    on_chain: bool,
    tx: Transaction,
) -> Result<(), ChainError> {
    let sender = tx.sender@;
    let expected = value_or_zero(nonces, sender) + queued_from(pending, sender);
    let spent = spent_by(pending, sender);
    let balance = value_or_zero(balances, sender);
    let available = if balance >= spent { balance - spent } else { 0 };
    let queued = total_weight(pending);
    if !tx.id_matches() {
        Err(ChainError::TamperedTransaction(tx.id))
    } else if tx.spec_payload_size() > MAX_PAYLOAD_BYTES {
        Err(ChainError::PayloadTooLarge { id: tx.id, size: tx.spec_payload_size() as usize, max: MAX_PAYLOAD_BYTES })
    } else if on_chain || has_id(pending, tx.id@) {
        Err(ChainError::DuplicateTransaction(tx.id))
    } else if !keys.contains_key(sender) {
        Err(ChainError::UnknownSender(tx.sender))
    } else if !tx.verified_by(keys[sender].bytes@) {
        Err(ChainError::InvalidSignature(tx.id))
    } else if expected > u64::MAX {
        Err(ChainError::NonceOverflow(tx.sender))
    } else if tx.nonce != expected {
        Err(ChainError::InvalidNonce { sender: tx.sender, expected: expected as u64, found: tx.nonce })
    } else if available < tx.amount {
        Err(ChainError::InsufficientFunds { sender: tx.sender, balance: available as u64, amount: tx.amount })
    } else if queued + tx.spec_weight() > MAX_MEMPOOL_BYTES {
        Err(ChainError::MempoolFull { queued: queued as usize, max: MAX_MEMPOOL_BYTES })
    } else {
        Ok(())
    }
}

/// `a` sorts no later than `b`: by sender (byte-wise), then by nonce.
pub open spec fn sender_nonce_le(a: Transaction, b: Transaction) -> bool {
    let order = byte_order(utf8(a.sender@), utf8(b.sender@));
    order < 0 || (order == 0 && a.nonce <= b.nonce)
}

/// Sorted by sender, then by nonce.
pub open spec fn sorted_by_sender_nonce(txs: Seq<Transaction>) -> bool {
    forall|i: int, j: int| 0 <= i < j < txs.len() ==> sender_nonce_le(#[trigger] txs[i], #[trigger] txs[j])
}

proof fn lemma_sender_nonce_transitive(a: Transaction, b: Transaction, c: Transaction)
    requires
        sender_nonce_le(a, b),
        sender_nonce_le(b, c),
    ensures
        sender_nonce_le(a, c),
{
    let (x, y, z) = (utf8(a.sender@), utf8(b.sender@), utf8(c.sender@));
    lemma_byte_order_transitive(x, y, z);
    lemma_byte_order_equal(x, y);
    lemma_byte_order_equal(y, z);
    lemma_byte_order_equal(x, z);
}

#[derive(Debug)]
pub struct Mempool {
    /// Pending transactions, in the order they were queued.
    pending: Vec<Transaction>,
    /// Total weight of `pending`, kept so it need not be recomputed.
    bytes: usize,
}

impl View for Mempool {
    type V = Seq<Transaction>;

    closed spec fn view(&self) -> Seq<Transaction> {
        self.pending@
    }
}

impl Mempool {
    #[verifier::type_invariant]
    closed spec fn well_formed(self) -> bool {
        &&& distinct_ids(self.pending@)
        &&& self.bytes == total_weight(self.pending@)
        &&& self.bytes <= MAX_MEMPOOL_BYTES
    }

    pub fn new() -> (pool: Mempool)
        ensures
            pool@ == Seq::<Transaction>::empty(),
    {
        Mempool { pending: Vec::new(), bytes: 0 }
    }

    /// Bytes of transactions currently waiting.
    pub fn weight(&self) -> (bytes: usize)
        ensures
            bytes == total_weight(self@),
            bytes <= MAX_MEMPOOL_BYTES,
    {
        proof {
            use_type_invariant(self);
        }
        self.bytes
    }

    /// Whether the batch is full enough to deserve a block at once, without
    /// waiting for the tick.
    pub fn is_worth_sealing(&self) -> (worth: bool)
        ensures
            worth == (total_weight(self@) >= SEAL_THRESHOLD_BYTES),
    {
        proof {
            use_type_invariant(self);
        }
        self.bytes >= SEAL_THRESHOLD_BYTES
    }

    /// Number of transactions currently waiting.
    pub fn len(&self) -> (n: usize)
        ensures
            n == self@.len(),
    {
        self.pending.len()
    }

    pub fn is_empty(&self) -> (empty: bool)
        ensures
            empty == (self@.len() == 0),
    {
        self.pending.len() == 0
    }

    /// A copy of the pending transactions, in the order they were queued;
    /// no id occurs twice.
    pub fn pending_transactions(&self) -> (txs: Vec<Transaction>)
        ensures
            txs@ == self@,
            distinct_ids(txs@),
    {
        proof {
            use_type_invariant(self);
        }
        clone_transactions(&self.pending)
    }

    fn contains_id(&self, id: &String) -> (found: bool)
        ensures
            found == has_id(self@, id@),
    {
        let mut i: usize = 0;
        while i < self.pending.len()
            invariant
                i <= self.pending@.len(),
                forall|j: int| 0 <= j < i ==> (#[trigger] self.pending@[j]).id@ != id@,
            decreases self.pending@.len() - i,
        {
            if self.pending[i].id == *id {
                return true;
            }
            i = i + 1;
        }
        false
    }

    /// How many transactions `sender` has pending, and what they spend
    /// (saturating at `u64::MAX`).
    fn queued_and_spent(&self, sender: &String) -> (counts: (u64, u64))
        ensures
            counts.0 == queued_from(self@, sender@),
            counts.1 == (if spent_by(self@, sender@) > u64::MAX { u64::MAX as nat } else { spent_by(self@, sender@) }),
    {
        let mut count: u64 = 0;
        let mut spent: u64 = 0;
        let mut i: usize = 0;
        while i < self.pending.len()
            invariant
                i <= self.pending@.len(),
                count == queued_from(self.pending@.subrange(0, i as int), sender@),
                count <= i,
                spent == (if spent_by(self.pending@.subrange(0, i as int), sender@) > u64::MAX {
                    u64::MAX as nat
                } else {
                    spent_by(self.pending@.subrange(0, i as int), sender@)
                }),
            decreases self.pending@.len() - i,
        {
            let ghost prefix = self.pending@.subrange(0, i as int);
            let ghost next = self.pending@.subrange(0, i + 1);
            assert(next.drop_last() =~= prefix);
            if self.pending[i].sender == *sender {
                count = count + 1;
                spent = spent.saturating_add(self.pending[i].amount);
            }
            i = i + 1;
        }
        assert(self.pending@.subrange(0, self.pending@.len() as int) =~= self.pending@);
        (count, spent)
    }

    /// Validates `transaction` against the chain state it is given and, if
    /// it passes, adds it to the pool. Returns the transaction id.
    pub fn queue(
        &mut self,
        transaction: Transaction,
        public_keys: &AccountMap<PublicKey>,
        balances: &AccountMap<Amount>,
        nonces: &AccountMap<u64>,
        tx_exists_on_chain: bool,
    ) -> (queued: Result<String, ChainError>)
        ensures
            queue_outcome(old(self)@, public_keys@, balances@, nonces@, tx_exists_on_chain, transaction) matches Err(
                error,
            ) ==> queued == Err::<String, ChainError>(error) && final(self)@ == old(self)@,
            queue_outcome(old(self)@, public_keys@, balances@, nonces@, tx_exists_on_chain, transaction) is Ok
                ==> queued == Ok::<String, ChainError>(transaction.id) && final(self)@ == old(self)@.push(
                transaction,
            ),
    {
        proof {
            use_type_invariant(&*self);
        }
        if !transaction.has_valid_id() {
            return Err(ChainError::TamperedTransaction(transaction.id));
        }
        if !transaction.payload_within_limit() {
            let size = transaction.payload_size();
            return Err(ChainError::PayloadTooLarge { id: transaction.id, size, max: MAX_PAYLOAD_BYTES });
        }
        if tx_exists_on_chain || self.contains_id(&transaction.id) {
            return Err(ChainError::DuplicateTransaction(transaction.id));
        }
        let public_key = match public_keys.get(transaction.sender.as_str()) {
            Some(key) => key,
            None => {
                return Err(ChainError::UnknownSender(transaction.sender));
            },
        };
        if !transaction.verify(&public_key) {
            return Err(ChainError::InvalidSignature(transaction.id));
        }
        let (queued_count, spent) = self.queued_and_spent(&transaction.sender);
        let base = match nonces.get(transaction.sender.as_str()) {
            Some(nonce) => nonce,
            None => 0,
        };
        let expected_nonce = match base.checked_add(queued_count) {
            Some(nonce) => nonce,
            None => {
                return Err(ChainError::NonceOverflow(transaction.sender));
            },
        };
        if transaction.nonce != expected_nonce {
            return Err(
                ChainError::InvalidNonce {
                    sender: transaction.sender,
                    expected: expected_nonce,
                    found: transaction.nonce,
                },
            );
        }
        let on_chain_balance = match balances.get(transaction.sender.as_str()) {
            Some(balance) => balance,
            None => 0,
        };
        let available = on_chain_balance.saturating_sub(spent);
        if available < transaction.amount {
            return Err(
                ChainError::InsufficientFunds {
                    sender: transaction.sender,
                    balance: available,
                    amount: transaction.amount,
                },
            );
        }
        let weight = transaction.weight();
        if weight > MAX_MEMPOOL_BYTES - self.bytes {
            return Err(ChainError::MempoolFull { queued: self.bytes, max: MAX_MEMPOOL_BYTES });
        }
        let id = transaction.id.clone();
        let mut pending = clone_transactions(&self.pending);
        let ghost before = pending@;
        pending.push(transaction);
        proof {
            assert(pending@.drop_last() =~= before);
            assert forall|i: int, j: int| 0 <= i < j < pending@.len() implies (#[trigger] pending@[i]).id@
                != (#[trigger] pending@[j]).id@ by {
                if j == before.len() {
                    assert(before[i].id@ != id@);
                }
            }
        }
        *self = Mempool { pending, bytes: self.bytes + weight };
        Ok(id)
    }

    /// Removes and returns all pending transactions, sorted by sender and,
    /// within a sender, by nonce, so that they apply in order.
    pub fn drain(&mut self) -> (drained: Vec<Transaction>)
        ensures
            final(self)@ == Seq::<Transaction>::empty(),
            drained@.to_multiset() == old(self)@.to_multiset(),
            sorted_by_sender_nonce(drained@),
    {
        let mut rest = clone_transactions(&self.pending);
        let ghost all = rest@;
        let mut sorted: Vec<Transaction> = Vec::new();
        while rest.len() > 0
            invariant
                sorted@.to_multiset().add(rest@.to_multiset()) == all.to_multiset(),
                sorted_by_sender_nonce(sorted@),
                forall|i: int, j: int|
                    0 <= i < sorted@.len() && 0 <= j < rest@.len() ==> sender_nonce_le(
                        #[trigger] sorted@[i],
                        #[trigger] rest@[j],
                    ),
            decreases rest@.len(),
        {
            let least = index_of_least(&rest);
            let ghost before = rest@;
            let ghost sorted_before = sorted@;
            let next = rest.remove(least);
            sorted.push(next);
            proof {
                assert(before.remove(least as int).to_multiset() =~= before.to_multiset().remove(next));
                assert(sorted@.to_multiset() =~= sorted_before.to_multiset().insert(next));
                assert(sorted@.to_multiset().add(rest@.to_multiset()) =~= all.to_multiset());
                assert forall|i: int, j: int| 0 <= i < j < sorted@.len() implies sender_nonce_le(
                    #[trigger] sorted@[i],
                    #[trigger] sorted@[j],
                ) by {
                    if j == sorted_before.len() {
                        assert(sorted@[j] == before[least as int]);
                    }
                }
                assert forall|i: int, j: int|
                    0 <= i < sorted@.len() && 0 <= j < rest@.len() implies sender_nonce_le(
                    #[trigger] sorted@[i],
                    #[trigger] rest@[j],
                ) by {
                    let k = if j < least { j } else { j + 1 };
                    assert(rest@[j] == before[k]);
                    if i == sorted_before.len() {
                        assert(sorted@[i] == before[least as int]);
                    }
                }
            }
        }
        assert(rest@.to_multiset() =~= vstd::multiset::Multiset::<Transaction>::empty());
        assert(sorted@.to_multiset() =~= all.to_multiset());
        *self = Mempool::new();
        sorted
    }
}

/// Index of a transaction that sorts no later than any other.
fn index_of_least(txs: &Vec<Transaction>) -> (least: usize)
    requires
        txs@.len() > 0,
    ensures
        least < txs@.len(),
        forall|j: int| 0 <= j < txs@.len() ==> sender_nonce_le(txs@[least as int], #[trigger] txs@[j]),
{
    let mut least: usize = 0;
    let mut i: usize = 1;
    proof {
        lemma_byte_order_equal(utf8(txs@[0].sender@), utf8(txs@[0].sender@));
    }
    while i < txs.len()
        invariant
            0 < i <= txs@.len(),
            least < i,
            forall|j: int| 0 <= j < i ==> sender_nonce_le(txs@[least as int], #[trigger] txs@[j]),
        decreases txs@.len() - i,
    {
        let order = byte_order_of(txs[i].sender.as_str().as_bytes(), txs[least].sender.as_str().as_bytes());
        let earlier = order < 0 || (order == 0 && txs[i].nonce < txs[least].nonce);
        proof {
            lemma_byte_order_range(utf8(txs@[i as int].sender@), utf8(txs@[least as int].sender@));
            lemma_byte_order_flip(utf8(txs@[i as int].sender@), utf8(txs@[least as int].sender@));
        }
        if earlier {
            proof {
                assert(sender_nonce_le(txs@[i as int], txs@[least as int]));
                assert forall|j: int| 0 <= j <= i implies sender_nonce_le(txs@[i as int], #[trigger] txs@[j]) by {
                    if j < i {
                        lemma_sender_nonce_transitive(txs@[i as int], txs@[least as int], txs@[j]);
                    } else {
                        lemma_byte_order_equal(utf8(txs@[i as int].sender@), utf8(txs@[i as int].sender@));
                    }
                }
            }
            least = i;
        } else {
            proof {
                lemma_byte_order_equal(utf8(txs@[i as int].sender@), utf8(txs@[least as int].sender@));
                assert(sender_nonce_le(txs@[least as int], txs@[i as int]));
            }
        }
        i = i + 1;
    }
    least
}

/// What another sender has pending does not count against `tx`: queueing
/// `tx` behind one more transaction of someone else, with a different id
/// and while the pool still has room for both, gives the same outcome. In
/// particular the funds `tx` may spend are its sender's balance less what
/// that sender alone has pending.
pub proof fn lemma_others_pending_do_not_count(
    pending: Seq<Transaction>,
    keys: Map<Seq<char>, PublicKey>,
    balances: Map<Seq<char>, u64>,
    nonces: Map<Seq<char>, u64>,
    on_chain: bool,
    other: Transaction,
    tx: Transaction,
)
    requires
        other.sender@ != tx.sender@,
        other.id@ != tx.id@,
        total_weight(pending) + other.spec_weight() + tx.spec_weight() <= MAX_MEMPOOL_BYTES,
    ensures
        queue_outcome(pending.push(other), keys, balances, nonces, on_chain, tx) == queue_outcome(
            pending,
            keys,
            balances,
            nonces,
            on_chain,
            tx,
        ),
{
    let more = pending.push(other);
    assert(more.drop_last() =~= pending);
    assert(more.last() == other);
    assert(spent_by(more, tx.sender@) == spent_by(pending, tx.sender@));
    assert(queued_from(more, tx.sender@) == queued_from(pending, tx.sender@));
    assert(total_weight(more) == total_weight(pending) + other.spec_weight());
    assert(has_id(more, tx.id@) == has_id(pending, tx.id@)) by {
        if has_id(more, tx.id@) {
            let i = choose|i: int| 0 <= i < more.len() && (#[trigger] more[i]).id@ == tx.id@;
            assert(i < pending.len());
            assert(pending[i] == more[i]);
        }
        if has_id(pending, tx.id@) {
            let i = choose|i: int| 0 <= i < pending.len() && (#[trigger] pending[i]).id@ == tx.id@;
            assert(more[i] == pending[i]);
        }
    }
}

/// A pending transaction of the sender's own counts in full: behind it the
/// sender's next nonce is one further on and the funds it may spend are
/// that transaction's amount fewer.
pub proof fn lemma_own_pending_counts(pending: Seq<Transaction>, own: Transaction, sender: Seq<char>)
    requires
        own.sender@ == sender,
    ensures
        queued_from(pending.push(own), sender) == queued_from(pending, sender) + 1,
        spent_by(pending.push(own), sender) == spent_by(pending, sender) + own.amount,
{
    assert(pending.push(own).drop_last() =~= pending);
}

/// A sender with nothing pending has spent nothing and queued nothing:
/// all of its balance is available to its next transaction.
pub proof fn lemma_nothing_pending_spends_nothing(pending: Seq<Transaction>, sender: Seq<char>)
    requires
        forall|i: int| 0 <= i < pending.len() ==> (#[trigger] pending[i]).sender@ != sender,
    ensures
        queued_from(pending, sender) == 0,
        spent_by(pending, sender) == 0,
    decreases pending.len(),
{
    if pending.len() > 0 {
        let rest = pending.drop_last();
        assert forall|i: int| 0 <= i < rest.len() implies (#[trigger] rest[i]).sender@ != sender by {
            assert(rest[i] == pending[i]);
        }
        lemma_nothing_pending_spends_nothing(rest, sender);
    }
}

impl Clone for Mempool {
    /// A copy of the pool.
    fn clone(&self) -> (copy: Mempool)
        ensures
            copy@ == self@,
    {
        proof {
            use_type_invariant(self);
        }
        Mempool { pending: clone_transactions(&self.pending), bytes: self.bytes }
    }
}

} // verus!
