//! Blocks: an index, a timestamp, transactions, the link to the previous
//! block, the BLAKE2b hash over all of it, and the seal of the authority
//! that produced the block.

use vstd::prelude::*;
use crate::crypto::{blake2b512, blake2b512_digest, ed25519_accepts, ed25519_public_key, ed25519_signature, PublicKey, SecretKey, Signature};
use crate::encoding::{encode_hex, hex_encoding, le_bytes_u32, le_bytes_u64, push_bytes, push_text, push_u32_le, push_u64_le, utf8};
use crate::transaction::{lemma_utf8_injective, Transaction};
use vstd::seq_lib::lemma_flatten_concat;

verus! {

/// What a transaction contributes to the hash of its block. The datum is
/// covered through the id, which is the digest of the signed bytes.
pub open spec fn transaction_hash_section(tx: Transaction) -> Seq<u8> {
    utf8(tx.id@) + utf8(tx.sender@) + utf8(tx.receiver@) + le_bytes_u64(tx.amount) + le_bytes_u64(tx.nonce)
        + match tx.signature {
        Some(signature) => signature.bytes@,
        None => Seq::empty(),
    }
}

/// The contributions of a run of transactions, in order.
pub open spec fn transactions_hash_section(txs: Seq<Transaction>) -> Seq<u8>
    decreases txs.len(),
{
    if txs.len() == 0 {
        Seq::empty()
    } else {
        transactions_hash_section(txs.drop_last()) + transaction_hash_section(txs.last())
    }
}

/// The bytes a block hash is computed over. The seal is left out, since the
/// seal itself covers the hash.
pub open spec fn block_hash_preimage(
    index: u32,
    timestamp: u64,
    txs: Seq<Transaction>,
    previous_hash: Seq<char>,
    authority: Seq<char>,
) -> Seq<u8> {
    le_bytes_u32(index) + le_bytes_u64(timestamp) + transactions_hash_section(txs) + utf8(previous_hash)
        + utf8(authority)
}

/// Lower-case hexadecimal of the first 32 bytes of the BLAKE2b-512 digest of
/// the preimage.
pub open spec fn block_hash(
    index: u32,
    timestamp: u64,
    txs: Seq<Transaction>,
    previous_hash: Seq<char>,
    authority: Seq<char>,
) -> Seq<char> {
    hex_encoding(
        blake2b512_digest(block_hash_preimage(index, timestamp, txs, previous_hash, authority)).subrange(0, 32),
    )
}

/// The bytes an authority signs to seal a block with hash `hash`.
pub open spec fn block_signing_bytes(hash: Seq<char>) -> Seq<u8> {
    utf8("blockrock.block.v1"@) + utf8(hash)
}

#[derive(Debug, PartialEq)]
pub struct Block {
    pub index: u32,
    pub timestamp: u64,
    pub transactions: Vec<Transaction>,
    pub previous_hash: String,
    pub hash: String,
    /// Name of the authority that sealed the block.
    pub authority: String,
    /// Proof that `authority` produced this block. Only genesis is unsigned.
    pub authority_signature: Option<Signature>,
}

/// A copy of a run of transactions.
pub fn clone_transactions(txs: &Vec<Transaction>) -> (copy: Vec<Transaction>)
    ensures
        copy@ == txs@,
{
    let mut copy: Vec<Transaction> = Vec::new();
    let mut i: usize = 0;
    while i < txs.len()
        invariant
            i <= txs@.len(),
            copy@ == txs@.subrange(0, i as int),
        decreases txs@.len() - i,
    {
        copy.push(txs[i].clone());
        i = i + 1;
        assert(copy@ =~= txs@.subrange(0, i as int));
    }
    assert(txs@.subrange(0, txs@.len() as int) =~= txs@);
    copy
}

impl Clone for Block {
    fn clone(&self) -> (copy: Self)
        ensures
            copy.equals(*self),
    {
        Block {
            index: self.index,
            timestamp: self.timestamp,
            transactions: clone_transactions(&self.transactions),
            previous_hash: self.previous_hash.clone(),
            hash: self.hash.clone(),
            authority: self.authority.clone(),
            authority_signature: self.authority_signature,
        }
    }
}

/// Seconds since the Unix epoch by the system clock, zero if the clock is
/// set before it. Nothing is promised of the value.
#[verifier::external_body]
pub(crate) fn now() -> u64 {
    std::time::SystemTime::now().duration_since(std::time::UNIX_EPOCH).unwrap_or_default().as_secs()
}

impl Block {
    /// Equal field by field, the transactions as a sequence.
    pub open spec fn equals(self, other: Block) -> bool {
        &&& self.index == other.index
        &&& self.timestamp == other.timestamp
        &&& self.transactions@ == other.transactions@
        &&& self.previous_hash == other.previous_hash
        &&& self.hash == other.hash
        &&& self.authority == other.authority
        &&& self.authority_signature == other.authority_signature
    }

    /// The hash this block's content determines.
    pub open spec fn content_hash(self) -> Seq<char> {
        block_hash(self.index, self.timestamp, self.transactions@, self.previous_hash@, self.authority@)
    }

    pub open spec fn hash_matches(self) -> bool {
        self.hash@ == self.content_hash()
    }

    /// The block carries a seal that the public key `key` accepts.
    pub open spec fn sealed_by(self, key: Seq<u8>) -> bool {
        &&& self.authority_signature matches Some(signature)
        &&& ed25519_accepts(key, block_signing_bytes(self.hash@), signature.bytes@)
    }

    /// Creates an unsealed block stamped with the current time. Use
    /// [`Block::sealed`] for anything but genesis: an unsealed block is
    /// rejected by chain validation.
    pub fn new(
        index: u32,
        transactions: Vec<Transaction>,
        previous_hash: String,
        authority: String,
    ) -> (block: Block)
        ensures
            block.index == index,
            block.transactions == transactions,
            block.previous_hash == previous_hash,
            block.authority == authority,
            block.authority_signature is None,
            block.hash_matches(),
    {
        Self::with_timestamp(index, transactions, previous_hash, authority, now())
    }

    /// Same as [`Block::new`] with an explicit timestamp, so the genesis block
    /// is byte-identical on every node and chains stay comparable.
    pub fn with_timestamp(
        index: u32,
        transactions: Vec<Transaction>,
        previous_hash: String,
        authority: String,
        timestamp: u64,
    ) -> (block: Block)
        ensures
            block.index == index,
            block.timestamp == timestamp,
            block.transactions == transactions,
            block.previous_hash == previous_hash,
            block.authority == authority,
            block.authority_signature is None,
            block.hash_matches(),
    {
        let mut block = Block {
            index,
            timestamp,
            transactions,
            previous_hash,
            hash: String::new(),
            authority,
            authority_signature: None,
        };
        block.hash = block.calculate_hash();
        block
    }

    /// A block stamped with the current time and sealed with `signing_key`.
    pub fn sealed(
        index: u32,
        transactions: Vec<Transaction>,
        previous_hash: String,
        authority: String,
        signing_key: &SecretKey,
    ) -> (block: Block)
        ensures
            block.index == index,
            block.transactions == transactions,
            block.previous_hash == previous_hash,
            block.authority == authority,
            block.hash_matches(),
            block.authority_signature matches Some(signature) && signature.bytes@ == ed25519_signature(
                signing_key.seed@,
                block_signing_bytes(block.hash@),
            ),
            block.sealed_by(ed25519_public_key(signing_key.seed@)),
    {
        let mut block = Self::new(index, transactions, previous_hash, authority);
        block.seal(signing_key);
        block
    }

    /// Signs the block hash with `signing_key`.
    pub fn seal(&mut self, signing_key: &SecretKey)
        ensures
            final(self).index == old(self).index,
            final(self).timestamp == old(self).timestamp,
            final(self).transactions == old(self).transactions,
            final(self).previous_hash == old(self).previous_hash,
            final(self).hash == old(self).hash,
            final(self).authority == old(self).authority,
            final(self).authority_signature matches Some(signature) && signature.bytes@
                == ed25519_signature(signing_key.seed@, block_signing_bytes(old(self).hash@)),
            final(self).sealed_by(ed25519_public_key(signing_key.seed@)),
    {
        let bytes = self.signing_payload();
        self.authority_signature = Some(signing_key.sign(bytes.as_slice()));
    }

    /// The seal covers the block hash, which already commits to every field.
    pub fn signing_payload(&self) -> (payload: Vec<u8>)
        ensures
            payload@ == block_signing_bytes(self.hash@),
    {
        let mut payload: Vec<u8> = Vec::new();
        push_text(&mut payload, "blockrock.block.v1");
        push_text(&mut payload, self.hash.as_str());
        payload
    }

    /// Whether the block carries a seal that `verifying_key` accepts.
    pub fn verify_seal(&self, verifying_key: &PublicKey) -> (valid: bool)
        ensures
            valid == self.sealed_by(verifying_key.bytes@),
    {
        match &self.authority_signature {
            Some(signature) => {
                let bytes = self.signing_payload();
                verifying_key.verify(bytes.as_slice(), signature)
            },
            None => false,
        }
    }

    /// The hash of the block's content. The seal is deliberately excluded,
    /// otherwise sealing would change the hash the seal commits to.
    pub fn calculate_hash(&self) -> (hash: String)
        ensures
            hash@ == self.content_hash(),
    {
        let mut preimage: Vec<u8> = Vec::new();
        push_u32_le(&mut preimage, self.index);
        push_u64_le(&mut preimage, self.timestamp);
        let ghost head = preimage@;
        let mut i: usize = 0;
        while i < self.transactions.len()
            invariant
                i <= self.transactions@.len(),
                preimage@ == head + transactions_hash_section(self.transactions@.subrange(0, i as int)),
            decreases self.transactions@.len() - i,
        {
            let tx = &self.transactions[i];
            let ghost before = preimage@;
            push_text(&mut preimage, tx.id.as_str());
            push_text(&mut preimage, tx.sender.as_str());
            push_text(&mut preimage, tx.receiver.as_str());
            push_u64_le(&mut preimage, tx.amount);
            push_u64_le(&mut preimage, tx.nonce);
            match &tx.signature {
                Some(signature) => push_bytes(&mut preimage, signature.bytes.as_slice()),
                None => {},
            }
            proof {
                let prefix = self.transactions@.subrange(0, i as int);
                let next = self.transactions@.subrange(0, i + 1);
                assert(next.drop_last() =~= prefix);
                assert(next.last() == *tx);
                assert(preimage@ =~= before + transaction_hash_section(*tx));
            }
            i = i + 1;
        }
        push_text(&mut preimage, self.previous_hash.as_str());
        push_text(&mut preimage, self.authority.as_str());
        proof {
            assert(self.transactions@.subrange(0, self.transactions@.len() as int) =~= self.transactions@);
            assert(preimage@ =~= block_hash_preimage(
                self.index,
                self.timestamp,
                self.transactions@,
                self.previous_hash@,
                self.authority@,
            ));
        }
        let mut digest = blake2b512(preimage.as_slice());
        digest.truncate(32);
        encode_hex(digest.as_slice())
    }

    /// Whether the stored hash matches the content.
    pub fn is_hash_valid(&self) -> (valid: bool)
        ensures
            valid == self.hash_matches(),
    {
        let expected = self.calculate_hash();
        expected == self.hash
    }
}

/// The contribution of each transaction of a run, position by position.
pub open spec fn transaction_sections(txs: Seq<Transaction>) -> Seq<Seq<u8>> {
    Seq::new(txs.len(), |i: int| transaction_hash_section(txs[i]))
}

/// The transactions' part of a block hash is the contribution of every
/// transaction, each once and in the order of the block.
pub proof fn lemma_hash_covers_every_transaction(txs: Seq<Transaction>)
    ensures
        transactions_hash_section(txs) == transaction_sections(txs).flatten(),
    decreases txs.len(),
{
    if txs.len() > 0 {
        let rest = txs.drop_last();
        lemma_hash_covers_every_transaction(rest);
        assert(transaction_sections(txs) =~= transaction_sections(rest).push(transaction_hash_section(txs.last())));
        transaction_sections(rest).lemma_flatten_push(transaction_hash_section(txs.last()));
    }
}

/// A block hash is computed over the index, the timestamp, the id, sender,
/// receiver, amount, nonce and signature of every transaction in order,
/// then the previous hash and the authority.
pub proof fn lemma_block_preimage_layout(
    index: u32,
    timestamp: u64,
    txs: Seq<Transaction>,
    previous_hash: Seq<char>,
    authority: Seq<char>,
)
    ensures
        block_hash_preimage(index, timestamp, txs, previous_hash, authority) == le_bytes_u32(index) + le_bytes_u64(
            timestamp,
        ) + Seq::new(
            txs.len(),
            |i: int|
                utf8(txs[i].id@) + utf8(txs[i].sender@) + utf8(txs[i].receiver@) + le_bytes_u64(txs[i].amount)
                    + le_bytes_u64(txs[i].nonce) + match txs[i].signature {
                    Some(signature) => signature.bytes@,
                    None => Seq::empty(),
                },
        ).flatten() + utf8(previous_hash) + utf8(authority),
{
    lemma_hash_covers_every_transaction(txs);
    assert(transaction_sections(txs) =~= Seq::new(
        txs.len(),
        |i: int|
            utf8(txs[i].id@) + utf8(txs[i].sender@) + utf8(txs[i].receiver@) + le_bytes_u64(txs[i].amount)
                + le_bytes_u64(txs[i].nonce) + match txs[i].signature {
                Some(signature) => signature.bytes@,
                None => Seq::empty(),
            },
    ));
}

/// A flattened run is what comes before position `k`, the element at `k`,
/// and what comes after it.
proof fn lemma_flatten_around(m: Seq<Seq<u8>>, k: int)
    requires
        0 <= k < m.len(),
    ensures
        m.flatten() == m.take(k).flatten() + m[k] + m.skip(k + 1).flatten(),
{
    assert(m =~= m.take(k) + m.skip(k));
    lemma_flatten_concat(m.take(k), m.skip(k));
    assert(m.skip(k).first() == m[k]);
    assert(m.skip(k).drop_first() =~= m.skip(k + 1));
}

/// Byte strings that differ within a common length, placed at the same
/// offset, make the strings around them differ.
proof fn lemma_differs_at_same_offset(
    head: Seq<u8>,
    before: Seq<u8>,
    x: Seq<u8>,
    after: Seq<u8>,
    y: Seq<u8>,
    other_after: Seq<u8>,
    tail: Seq<u8>,
    len: int,
)
    requires
        0 <= len <= x.len(),
        len <= y.len(),
        x.subrange(0, len) != y.subrange(0, len),
    ensures
        head + (before + x + after) + tail != head + (before + y + other_after) + tail,
{
    let first = head + (before + x + after) + tail;
    let second = head + (before + y + other_after) + tail;
    let start = head.len() + before.len();
    assert(x.subrange(0, len) =~= first.subrange(start as int, start + len));
    assert(y.subrange(0, len) =~= second.subrange(start as int, start + len));
}

/// The first part of a concatenation of six is the first one.
proof fn lemma_leading_part(a: Seq<u8>, b: Seq<u8>, c: Seq<u8>, d: Seq<u8>, e: Seq<u8>, f: Seq<u8>)
    ensures
        (a + b + c + d + e + f).subrange(0, a.len() as int) == a,
{
    assert((a + b + c + d + e + f).subrange(0, a.len() as int) =~= a);
}

/// A transaction's contribution to a block hash starts with its id.
proof fn lemma_section_starts_with_id(tx: Transaction)
    ensures
        transaction_hash_section(tx).subrange(0, utf8(tx.id@).len() as int) == utf8(tx.id@),
{
    lemma_leading_part(
        utf8(tx.id@),
        utf8(tx.sender@),
        utf8(tx.receiver@),
        le_bytes_u64(tx.amount),
        le_bytes_u64(tx.nonce),
        match tx.signature {
            Some(signature) => signature.bytes@,
            None => Seq::empty(),
        },
    );
}

/// Two runs that agree before position `k` and carry, at `k`, ids of the
/// same byte length that differ, give different block hash preimages: a
/// transaction swapped for another one is seen.
pub proof fn lemma_swapped_transaction_changes_preimage(
    index: u32,
    timestamp: u64,
    txs: Seq<Transaction>,
    other_txs: Seq<Transaction>,
    k: int,
    previous_hash: Seq<char>,
    authority: Seq<char>,
)
    requires
        0 <= k < txs.len(),
        k < other_txs.len(),
        forall|j: int| 0 <= j < k ==> txs[j] == other_txs[j],
        txs[k].id@ != other_txs[k].id@,
        utf8(txs[k].id@).len() == utf8(other_txs[k].id@).len(),
    ensures
        block_hash_preimage(index, timestamp, txs, previous_hash, authority) != block_hash_preimage(
            index,
            timestamp,
            other_txs,
            previous_hash,
            authority,
        ),
{
    let m = transaction_sections(txs);
    let n = transaction_sections(other_txs);
    lemma_hash_covers_every_transaction(txs);
    lemma_hash_covers_every_transaction(other_txs);
    lemma_flatten_around(m, k);
    lemma_flatten_around(n, k);
    assert(m.take(k) =~= n.take(k));
    lemma_section_starts_with_id(txs[k]);
    lemma_section_starts_with_id(other_txs[k]);
    let len = utf8(txs[k].id@).len() as int;
    if utf8(txs[k].id@) == utf8(other_txs[k].id@) {
        lemma_utf8_injective(txs[k].id@, other_txs[k].id@);
    }
    lemma_differs_at_same_offset(
        le_bytes_u32(index) + le_bytes_u64(timestamp),
        m.take(k).flatten(),
        m[k],
        m.skip(k + 1).flatten(),
        n[k],
        n.skip(k + 1).flatten(),
        utf8(previous_hash) + utf8(authority),
        len,
    );
    let head = le_bytes_u32(index) + le_bytes_u64(timestamp);
    let tail = utf8(previous_hash) + utf8(authority);
    assert(block_hash_preimage(index, timestamp, txs, previous_hash, authority) =~= head + m.flatten() + tail);
    assert(block_hash_preimage(index, timestamp, other_txs, previous_hash, authority) =~= head + n.flatten() + tail);
}

} // verus!
