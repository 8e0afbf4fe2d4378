//! Blocks, their serialization, the difficulty test and proof-of-work mining.

use crate::hashable::{sha256, Hashable};
use crate::text::{decimal, hex_encode, hex_string, push_decimal};
use crate::transaction::{Transaction, TransactionView};
use crate::utility::{
    append_bytes, difficulty_bytes_as_u128, difficulty_window, le_bytes, le_value, u128_bytes,
    u32_bytes, u64_bytes,
};
use vstd::prelude::*;

verus! {

/// A record of transactions, linked to its predecessor by that block's hash
/// and sealed by a nonce that makes its own digest meet its difficulty.
pub struct Block {
    pub index: u32,
    pub timestamp: u128,
    pub hash: Vec<u8>,
    pub prev_block_hash: Vec<u8>,
    pub nonce: u64,
    pub transactions: Vec<Transaction>,
    pub difficulty: u128,
}

/// What a [`Block`] stands for.
pub struct BlockView {
    pub index: u32,
    pub timestamp: u128,
    pub hash: Seq<u8>,
    pub prev_block_hash: Seq<u8>,
    pub nonce: u64,
    pub transactions: Seq<TransactionView>,
    pub difficulty: u128,
}

/// The transactions that a vector of [`Transaction`] stands for, in order.
pub open spec fn transactions_view(transactions: Seq<Transaction>) -> Seq<TransactionView> {
    transactions.map_values(|t: Transaction| t@)
}

/// The serializations of `transactions`, one after the other.
pub open spec fn transactions_bytes(transactions: Seq<TransactionView>) -> Seq<u8>
    decreases transactions.len(),
{
    if transactions.len() == 0 {
        Seq::empty()
    } else {
        transactions_bytes(transactions.drop_last()) + transactions.last().bytes()
    }
}

/// Thirty-two zero bytes: the hash of a block that has not been mined, and
/// the predecessor hash of a genesis block.
pub open spec fn zero_hash() -> Seq<u8> {
    Seq::new(32, |i: int| 0u8)
}

/// The difficulty test: the last sixteen bytes of a 32-byte digest, read as
/// a little-endian number, do not exceed the threshold. A smaller threshold
/// admits fewer digests.
pub open spec fn meets_difficulty(hash: Seq<u8>, difficulty: u128) -> bool {
    hash.len() == 32 && le_value(difficulty_window(hash)) <= difficulty
}

impl BlockView {
    /// The canonical serialization: index (4 bytes), timestamp (16), the
    /// predecessor's hash, nonce (8), then every transaction in order. The
    /// block's own hash and its difficulty are not part of it.
    pub open spec fn bytes(self) -> Seq<u8> {
        le_bytes(self.index as nat, 4) + le_bytes(self.timestamp as nat, 16) + self.prev_block_hash
            + le_bytes(self.nonce as nat, 8) + transactions_bytes(self.transactions)
    }

    /// The digest of the block's current field values.
    pub open spec fn digest(self) -> Seq<u8> {
        sha256(self.bytes())
    }

    /// The same block with another nonce.
    pub open spec fn with_nonce(self, nonce: u64) -> BlockView {
        BlockView { nonce, ..self }
    }

    /// Whether the block's digest would meet its difficulty with `nonce`.
    pub open spec fn nonce_wins(self, nonce: u64) -> bool {
        meets_difficulty(self.with_nonce(nonce).digest(), self.difficulty)
    }

    /// The block as mining leaves it when `nonce` wins: the nonce stored, and
    /// the digest that it gives stored as the hash.
    pub open spec fn sealed_with(self, nonce: u64) -> BlockView {
        BlockView { nonce, hash: self.with_nonce(nonce).digest(), ..self }
    }

    /// The stored hash is the digest of the current field values, and that
    /// digest meets the difficulty.
    pub open spec fn is_mined(self) -> bool {
        self.hash == self.digest() && meets_difficulty(self.hash, self.difficulty)
    }

    /// The one-line description of the block.
    pub open spec fn rendered(self) -> Seq<char> {
        "Block["@ + decimal(self.index as nat) + "]: "@ + hex_string(self.hash) + " at: "@
            + decimal(self.timestamp as nat) + " with: "@ + decimal(self.transactions.len())
            + " nonce: "@ + decimal(self.nonce as nat)
    }
}

impl View for Block {
    type V = BlockView;

    open spec fn view(&self) -> BlockView {
        BlockView {
            index: self.index,
            timestamp: self.timestamp,
            hash: self.hash@,
            prev_block_hash: self.prev_block_hash@,
            nonce: self.nonce,
            transactions: transactions_view(self.transactions@),
            difficulty: self.difficulty,
        }
    }
}

/// Tests a digest against a difficulty threshold.
pub fn check_difficulty(hash: &Vec<u8>, difficulty: u128) -> (ok: bool)
    ensures
        ok == meets_difficulty(hash@, difficulty),
{
    hash.len() == 32 && difficulty_bytes_as_u128(hash) <= difficulty
}

/// Thirty-two zero bytes.
pub fn empty_hash() -> (hash: Vec<u8>)
    ensures
        hash@ == zero_hash(),
{
    let mut hash: Vec<u8> = Vec::new();
    let mut i: usize = 0;
    while i < 32
        invariant
            i <= 32,
            hash@ == Seq::new(i as nat, |k: int| 0u8),
        decreases 32 - i,
    {
        hash.push(0);
        i = i + 1;
    }
    hash
}

impl Hashable for Block {
    open spec fn spec_bytes(&self) -> Seq<u8> {
        self@.bytes()
    }

    fn bytes(&self) -> (out: Vec<u8>) {
        let mut out = u32_bytes(&self.index);
        let mut timestamp = u128_bytes(&self.timestamp);
        out.append(&mut timestamp);
        append_bytes(&mut out, self.prev_block_hash.as_slice());
        let mut nonce = u64_bytes(&self.nonce);
        out.append(&mut nonce);
        let ghost head = out@;
        let ghost all = transactions_view(self.transactions@);
        let mut i: usize = 0;
        while i < self.transactions.len()
            invariant
                i <= self.transactions@.len(),
                all == transactions_view(self.transactions@),
                out@ == head + transactions_bytes(all.take(i as int)),
            decreases self.transactions@.len() - i,
        {
            let mut one = self.transactions[i].bytes();
            out.append(&mut one);
            i = i + 1;
            proof {
                let before = all.take(i - 1);
                let now = all.take(i as int);
                assert(now.drop_last() =~= before);
                assert(head + transactions_bytes(before) + now.last().bytes() =~= head
                    + transactions_bytes(now));
            }
        }
        assert(all.take(i as int) =~= all);
        out
    }
}

impl Clone for Block {
    fn clone(&self) -> (copy: Block)
        ensures
            copy@ == self@,
    {
        let copy = Block {
            index: self.index,
            timestamp: self.timestamp,
            hash: self.hash.clone(),
            prev_block_hash: self.prev_block_hash.clone(),
            nonce: self.nonce,
            transactions: self.transactions.clone(),
            difficulty: self.difficulty,
        };
        assert(copy@.hash =~= self@.hash);
        assert(copy@.prev_block_hash =~= self@.prev_block_hash);
        assert(copy@.transactions =~= self@.transactions);
        copy
    }
}

impl Block {
    /// A block that has not been mined: its nonce is zero and its hash is
    /// thirty-two zero bytes.
    pub fn new(
        index: u32,
        timestamp: u128,
        prev_block_hash: Vec<u8>,
        transactions: Vec<Transaction>,
        difficulty: u128,
    ) -> (block: Block)
        ensures
            block@ == (BlockView {
                index,
                timestamp,
                hash: zero_hash(),
                prev_block_hash: prev_block_hash@,
                nonce: 0,
                transactions: transactions_view(transactions@),
                difficulty,
            }),
    {
        Block {
            index,
            timestamp,
            hash: empty_hash(),
            prev_block_hash,
            nonce: 0,
            transactions,
            difficulty,
        }
    }

    /// Searches the nonces from zero upwards for the first with which the
    /// block's digest meets its difficulty. If there is one, the block is
    /// left sealed with it and the result is `true`. If none of the 2^64
    /// nonces wins, the hash is left as it was, the nonce is left at the last
    /// one tried, and the result is `false`.
    pub fn mine(&mut self) -> (found: bool)
        ensures
            found == exists|n: u64| old(self)@.nonce_wins(n),
            found ==> {
                &&& old(self)@.nonce_wins(final(self).nonce)
                &&& forall|m: u64| m < final(self).nonce ==> !old(self)@.nonce_wins(m)
                &&& final(self)@ == old(self)@.sealed_with(final(self).nonce)
                &&& final(self)@.is_mined()
            },
            !found ==> final(self)@ == old(self)@.with_nonce(u64::MAX),
    {
        let mut nonce: u64 = 0;
        loop
            invariant
                self@ == old(self)@.with_nonce(self.nonce),
                forall|m: u64| m < nonce ==> !old(self)@.nonce_wins(m),
            decreases u64::MAX - nonce,
        {
            self.nonce = nonce;
            let digest = self.hash();
            if check_difficulty(&digest, self.difficulty) {
                self.hash = digest;
                assert(old(self)@.nonce_wins(nonce));
                return true;
            }
            if nonce == u64::MAX {
                assert(forall|n: u64| !old(self)@.nonce_wins(n));
                return false;
            }
            nonce = nonce + 1;
        }
    }

    /// The one-line description of the block: its index, its hash in
    /// hexadecimal, its timestamp, the number of its transactions and its
    /// nonce.
    pub fn render(&self) -> (text: String)
        ensures
            text@ == self@.rendered(),
    {
        let mut text = String::from_str("Block[");
        push_decimal(&mut text, self.index as u128);
        text.append("]: ");
        let hash = hex_encode(self.hash.as_slice());
        text.append(hash.as_str());
        text.append(" at: ");
        push_decimal(&mut text, self.timestamp);
        text.append(" with: ");
        push_decimal(&mut text, self.transactions.len() as u128);
        text.append(" nonce: ");
        push_decimal(&mut text, self.nonce as u128);
        text
    }
}

} // verus!
