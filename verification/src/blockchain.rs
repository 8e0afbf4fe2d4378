//! The chain: an append-only sequence of blocks, and the validation that
//! every candidate block passes before it is appended.

use crate::block::{check_difficulty, meets_difficulty, zero_hash, Block, BlockView};
use crate::hashable::Hashable;
use crate::transaction::{has_output, Output, OutputView, Transaction, TransactionView};
use crate::utility::same_bytes;
use vstd::prelude::*;

verus! {

/// Why a candidate block was rejected.
#[derive(Clone, Copy, Debug, PartialEq, Eq, Structural)]
pub enum BlockValidationErr {
    /// The block's first transaction consumes outputs.
    InvalidCoinbaseTransaction,
    /// The first block of a chain names a predecessor other than the zero hash.
    InvalidGenesisBlockFormat,
    /// The block's index does not follow the last block's.
    MismatchedIndex,
    /// The block does not name the last block's hash as its predecessor.
    MismatchedPreviousHash,
    /// The block is older than the last block.
    AchronologicalTimestamp,
    /// The stored hash is not the block's digest, or the digest does not
    /// meet the block's difficulty.
    InvalidHash,
    /// A transaction consumes an output that no earlier block produced.
    InvalidInput,
    /// A transaction produces more value than it consumes.
    InsufficientInputValue,
    /// The coinbase does not pay exactly the subsidy plus the block's fees.
    InvalidCoinbaseTransactionFee,
}

/// The value that every block after the first creates beyond the fees that
/// it collects.
pub const BLOCK_SUBSIDY: u64 = 0;

/// An append-only sequence of validated blocks.
pub struct Blockchain {
    pub blocks: Vec<Block>,
}

/// The blocks that a vector of [`Block`] stands for, in order.
pub open spec fn blocks_view(blocks: Seq<Block>) -> Seq<BlockView> {
    blocks.map_values(|b: Block| b@)
}

impl View for Blockchain {
    type V = Seq<BlockView>;

    open spec fn view(&self) -> Seq<BlockView> {
        blocks_view(self.blocks@)
    }
}

/// Whether a transaction of `block` produces `wanted`.
pub open spec fn block_pays(block: BlockView, wanted: OutputView) -> bool {
    exists|t: int|
        0 <= t < block.transactions.len() && has_output(
            #[trigger] block.transactions[t].outputs,
            wanted,
        )
}

/// Whether `wanted` matches, by address and value, an output of some
/// transaction recorded in `chain`.
pub open spec fn recorded_output(chain: Seq<BlockView>, wanted: OutputView) -> bool {
    exists|b: int| 0 <= b < chain.len() && block_pays(#[trigger] chain[b], wanted)
}

/// Whether every one of `inputs` is recorded in `chain`.
pub open spec fn inputs_recorded(chain: Seq<BlockView>, inputs: Seq<OutputView>) -> bool {
    forall|i: int| 0 <= i < inputs.len() ==> recorded_output(chain, #[trigger] inputs[i])
}

/// What is wrong with one spending transaction, if anything: an input that
/// the chain does not record, or else outputs worth more than the inputs.
pub open spec fn spend_error(chain: Seq<BlockView>, spend: TransactionView) -> Option<
    BlockValidationErr,
> {
    if !inputs_recorded(chain, spend.inputs) {
        Some(BlockValidationErr::InvalidInput)
    } else if spend.input_value() < spend.output_value() {
        Some(BlockValidationErr::InsufficientInputValue)
    } else {
        None
    }
}

/// The spending transactions taken in order: the error of the first that
/// has one, or else the sum of their fees.
pub open spec fn settle(chain: Seq<BlockView>, spends: Seq<TransactionView>) -> Result<
    nat,
    BlockValidationErr,
>
    decreases spends.len(),
{
    if spends.len() == 0 {
        Ok(0)
    } else {
        match settle(chain, spends.drop_last()) {
            Err(e) => Err(e),
            Ok(fees) => match spend_error(chain, spends.last()) {
                Some(e) => Err(e),
                None => Ok((fees + spends.last().fee()) as nat),
            },
        }
    }
}

/// The transactions of `block` after its first: those that spend.
pub open spec fn spends_of(block: BlockView) -> Seq<TransactionView> {
    if block.transactions.len() == 0 {
        Seq::empty()
    } else {
        block.transactions.drop_first()
    }
}

/// The value that the first transaction of `block` produces; zero for a
/// block without transactions.
pub open spec fn coinbase_value(block: BlockView) -> nat {
    if block.transactions.len() == 0 {
        0
    } else {
        block.transactions[0].output_value()
    }
}

/// The first transaction, if there is one, consumes nothing.
pub open spec fn coinbase_shaped(block: BlockView) -> bool {
    block.transactions.len() > 0 ==> block.transactions[0].is_coinbase()
}

/// The index that the next block of `chain` must have.
pub open spec fn next_index(chain: Seq<BlockView>) -> int {
    if chain.len() == 0 {
        0
    } else {
        chain.last().index + 1
    }
}

/// The first of the structural rules that `block` breaks as the next block
/// of `chain`, if it breaks one: the shape of its coinbase, the zero
/// predecessor of a genesis block, the index, the predecessor's hash, the
/// order of the timestamps.
pub open spec fn linkage_error(chain: Seq<BlockView>, block: BlockView) -> Option<
    BlockValidationErr,
> {
    if !coinbase_shaped(block) {
        Some(BlockValidationErr::InvalidCoinbaseTransaction)
    } else if chain.len() == 0 && block.prev_block_hash != zero_hash() {
        Some(BlockValidationErr::InvalidGenesisBlockFormat)
    } else if block.index != next_index(chain) {
        Some(BlockValidationErr::MismatchedIndex)
    } else if chain.len() > 0 && block.prev_block_hash != chain.last().hash {
        Some(BlockValidationErr::MismatchedPreviousHash)
    } else if chain.len() > 0 && block.timestamp < chain.last().timestamp {
        Some(BlockValidationErr::AchronologicalTimestamp)
    } else {
        None
    }
}

/// Whether `digest`, recomputed from the block's fields, is the hash that
/// the block stores and meets the block's difficulty.
pub open spec fn work_holds(block: BlockView, digest: Seq<u8>) -> bool {
    digest == block.hash && meets_difficulty(digest, block.difficulty)
}

/// The first of the ledger rules that `block` breaks as the next block of
/// `chain`, if it breaks one. Every spending transaction must consume only
/// recorded outputs and must not produce more than it consumes; and in
/// every block but the first of a chain, the coinbase must pay exactly the
/// subsidy plus the fees. The first block of a chain creates the initial
/// supply, so its coinbase may pay any amount.
pub open spec fn ledger_error(chain: Seq<BlockView>, block: BlockView) -> Option<
    BlockValidationErr,
> {
    match settle(chain, spends_of(block)) {
        Err(e) => Some(e),
        Ok(fees) => if chain.len() > 0 && coinbase_value(block) != BLOCK_SUBSIDY + fees {
            Some(BlockValidationErr::InvalidCoinbaseTransactionFee)
        } else {
            None
        },
    }
}

/// `Err` of the error if there is one, `Ok` if there is none.
pub open spec fn outcome(error: Option<BlockValidationErr>) -> Result<(), BlockValidationErr> {
    match error {
        Some(e) => Err(e),
        None => Ok(()),
    }
}

/// The outcome of validating `block` as the next block of `chain`, given
/// the digest recomputed from the block's fields. The rules are taken in a
/// fixed order and the first that fails decides: the structural rules, the
/// proof of work, the ledger rules.
pub open spec fn validation(chain: Seq<BlockView>, block: BlockView, digest: Seq<u8>) -> Result<
    (),
    BlockValidationErr,
> {
    if linkage_error(chain, block) is Some {
        outcome(linkage_error(chain, block))
    } else if !work_holds(block, digest) {
        Err(BlockValidationErr::InvalidHash)
    } else {
        outcome(ledger_error(chain, block))
    }
}

/// The outcome of offering `block` to `chain`.
pub open spec fn accepts(chain: Seq<BlockView>, block: BlockView) -> Result<
    (),
    BlockValidationErr,
> {
    validation(chain, block, block.digest())
}

/// The chain after `block` was offered to it: longer by that block if it
/// was accepted, unchanged if not.
pub open spec fn after_offer(chain: Seq<BlockView>, block: BlockView) -> Seq<BlockView> {
    if accepts(chain, block) is Ok {
        chain.push(block)
    } else {
        chain
    }
}

/// A chain is valid when each of its blocks was acceptable as the next
/// block of the blocks before it.
pub open spec fn valid_chain(chain: Seq<BlockView>) -> bool {
    forall|k: int| 0 <= k < chain.len() ==> #[trigger] accepts(chain.take(k), chain[k]) is Ok
}

/// The structural facts that hold of the block at position `i` of a valid
/// chain: it sits at its index, its stored hash meets its difficulty, the
/// first block names the zero hash, and every other block is no older than
/// its predecessor and names that predecessor's hash.
pub open spec fn linked_at(chain: Seq<BlockView>, i: int) -> bool {
    &&& chain[i].index == i
    &&& meets_difficulty(chain[i].hash, chain[i].difficulty)
    &&& i == 0 ==> chain[i].prev_block_hash == zero_hash()
    &&& i > 0 ==> chain[i].timestamp >= chain[i - 1].timestamp && chain[i].prev_block_hash
        == chain[i - 1].hash
}

/// Whether every block of `chain` is linked to its position and
/// predecessor. This is necessary for a chain to be valid, and not
/// sufficient: it looks at no digest and at no transaction.
pub open spec fn well_linked(chain: Seq<BlockView>) -> bool {
    forall|i: int| 0 <= i < chain.len() ==> #[trigger] linked_at(chain, i)
}

/// An error of a spending transaction decides whatever follows it.
pub proof fn lemma_settle_error_stays(
    chain: Seq<BlockView>,
    spends: Seq<TransactionView>,
    n: int,
)
    requires
        0 <= n <= spends.len(),
        settle(chain, spends.take(n)) is Err,
    ensures
        settle(chain, spends) == settle(chain, spends.take(n)),
    decreases spends.len(),
{
    if n < spends.len() {
        assert(spends.drop_last().take(n) =~= spends.take(n));
        lemma_settle_error_stays(chain, spends.drop_last(), n);
    } else {
        assert(spends.take(n) =~= spends);
    }
}

/// Offers keep a valid chain valid.
pub proof fn lemma_offer_keeps_valid(chain: Seq<BlockView>, block: BlockView)
    requires
        valid_chain(chain),
    ensures
        valid_chain(after_offer(chain, block)),
{
    let after = after_offer(chain, block);
    assert forall|k: int| 0 <= k < after.len() implies #[trigger] accepts(after.take(k), after[k])
        is Ok by {
        if k < chain.len() {
            assert(after.take(k) =~= chain.take(k));
        } else {
            assert(after.take(k) =~= chain);
        }
    }
}

impl Block {
    /// Whether a transaction of the block produces an output equal to `wanted`.
    pub fn pays(&self, wanted: &Output) -> (found: bool)
        ensures
            found == block_pays(self@, wanted@),
    {
        let mut t: usize = 0;
        while t < self.transactions.len()
            invariant
                t <= self.transactions@.len(),
                forall|j: int| 0 <= j < t ==> !has_output(self@.transactions[j].outputs, wanted@),
            decreases self.transactions@.len() - t,
        {
            if self.transactions[t].pays(wanted) {
                assert(has_output(self@.transactions[t as int].outputs, wanted@));
                return true;
            }
            t = t + 1;
        }
        false
    }
}

/// Whether `hash` is thirty-two zero bytes.
fn is_zero_hash(hash: &Vec<u8>) -> (zero: bool)
    ensures
        zero == (hash@ == zero_hash()),
{
    if hash.len() != 32 {
        return false;
    }
    let mut i: usize = 0;
    while i < 32
        invariant
            i <= 32,
            hash@.len() == 32,
            forall|k: int| 0 <= k < i ==> hash@[k] == 0,
        decreases 32 - i,
    {
        if hash[i] != 0 {
            return false;
        }
        i = i + 1;
    }
    assert(hash@ =~= zero_hash());
    true
}

impl Blockchain {
    /// A chain without blocks.
    pub fn new() -> (chain: Blockchain)
        ensures
            chain.blocks@ == Seq::<Block>::empty(),
            chain@ == Seq::<BlockView>::empty(),
            valid_chain(chain@),
    {
        Blockchain { blocks: Vec::new() }
    }

    /// Whether some transaction of some block of the chain produces an
    /// output equal to `wanted`.
    pub fn records(&self, wanted: &Output) -> (found: bool)
        ensures
            found == recorded_output(self@, wanted@),
    {
        let mut b: usize = 0;
        while b < self.blocks.len()
            invariant
                b <= self.blocks@.len(),
                forall|j: int| 0 <= j < b ==> !block_pays(self@[j], wanted@),
            decreases self.blocks@.len() - b,
        {
            if self.blocks[b].pays(wanted) {
                assert(block_pays(self@[b as int], wanted@));
                return true;
            }
            b = b + 1;
        }
        false
    }

    /// Whether the chain records every output that `spend` consumes.
    fn records_inputs(&self, spend: &Transaction) -> (all: bool)
        ensures
            all == inputs_recorded(self@, spend@.inputs),
    {
        let mut i: usize = 0;
        while i < spend.inputs.len()
            invariant
                i <= spend.inputs@.len(),
                forall|j: int| 0 <= j < i ==> recorded_output(self@, spend@.inputs[j]),
            decreases spend.inputs@.len() - i,
        {
            if !self.records(&spend.inputs[i]) {
                assert(!recorded_output(self@, spend@.inputs[i as int]));
                return false;
            }
            i = i + 1;
        }
        true
    }

    /// The structural rules: coinbase shape, genesis shape, index,
    /// predecessor hash and timestamp, in that order.
    pub fn check_linkage(&self, block: &Block) -> (result: Result<(), BlockValidationErr>)
        ensures
            result == outcome(linkage_error(self@, block@)),
    {
        if block.transactions.len() > 0 && !block.transactions[0].is_coinbase() {
            return Err(BlockValidationErr::InvalidCoinbaseTransaction);
        }
        let n = self.blocks.len();
        if n == 0 {
            if !is_zero_hash(&block.prev_block_hash) {
                return Err(BlockValidationErr::InvalidGenesisBlockFormat);
            }
            if block.index != 0 {
                return Err(BlockValidationErr::MismatchedIndex);
            }
        } else {
            let last = &self.blocks[n - 1];
            if last.index == u32::MAX || block.index != last.index + 1 {
                return Err(BlockValidationErr::MismatchedIndex);
            }
            if !same_bytes(&block.prev_block_hash, &last.hash) {
                return Err(BlockValidationErr::MismatchedPreviousHash);
            }
            if block.timestamp < last.timestamp {
                return Err(BlockValidationErr::AchronologicalTimestamp);
            }
        }
        Ok(())
    }

    /// The ledger rules: every spending transaction in order, then the
    /// coinbase against the subsidy and the fees.
    pub fn check_ledger(&self, block: &Block) -> (result: Result<(), BlockValidationErr>)
        ensures
            result == outcome(ledger_error(self@, block@)),
    {
        let count = block.transactions.len();
        if count == 0 {
            // No coinbase pays nothing, which is right only if nothing is owed.
            return if self.blocks.len() > 0 && BLOCK_SUBSIDY != 0 {
                Err(BlockValidationErr::InvalidCoinbaseTransactionFee)
            } else {
                Ok(())
            };
        }
        let ghost spends = spends_of(block@);
        // The fees so far, unless they have outgrown a `u128`.
        let mut fees: Option<u128> = Some(0);
        let mut t: usize = 1;
        while t < count
            invariant
                1 <= t <= count,
                count == block.transactions@.len(),
                spends == spends_of(block@),
                settle(self@, spends.take(t - 1)) is Ok,
                match fees {
                    Some(sum) => settle(self@, spends.take(t - 1)) == Ok::<
                        nat,
                        BlockValidationErr,
                    >(sum as nat),
                    None => settle(self@, spends.take(t - 1))->Ok_0 > u128::MAX,
                },
            decreases count - t,
        {
            let spend = &block.transactions[t];
            proof {
                assert(spends.take(t as int).drop_last() =~= spends.take(t - 1));
            }
            if !self.records_inputs(spend) {
                proof {
                    lemma_settle_error_stays(self@, spends, t as int);
                }
                return Err(BlockValidationErr::InvalidInput);
            }
            let consumed = spend.input_value();
            let produced = spend.output_value();
            if consumed < produced {
                proof {
                    lemma_settle_error_stays(self@, spends, t as int);
                }
                return Err(BlockValidationErr::InsufficientInputValue);
            }
            fees = match fees {
                Some(sum) => sum.checked_add(consumed - produced),
                None => None,
            };
            t = t + 1;
        }
        assert(spends.take(t - 1) =~= spends);
        if self.blocks.len() == 0 {
            return Ok(());
        }
        let paid = block.transactions[0].output_value();
        let owed = match fees {
            Some(sum) => sum.checked_add(BLOCK_SUBSIDY as u128),
            None => None,
        };
        match owed {
            Some(due) => if paid == due {
                Ok(())
            } else {
                Err(BlockValidationErr::InvalidCoinbaseTransactionFee)
            },
            None => Err(BlockValidationErr::InvalidCoinbaseTransactionFee),
        }
    }

    /// Validates `block` as the next block of the chain, given the digest
    /// recomputed from the block's fields. The rules are applied in a fixed
    /// order and the first that fails decides.
    pub fn check_block(&self, block: &Block, digest: &Vec<u8>) -> (result: Result<
        (),
        BlockValidationErr,
    >)
        ensures
            result == validation(self@, block@, digest@),
    {
        match self.check_linkage(block) {
            Err(e) => {
                return Err(e);
            },
            Ok(_) => {},
        }
        if !(same_bytes(digest, &block.hash) && check_difficulty(digest, block.difficulty)) {
            return Err(BlockValidationErr::InvalidHash);
        }
        self.check_ledger(block)
    }

    /// Offers `block` to the chain. The block's digest is recomputed and the
    /// block is validated against the chain; it is appended if every rule
    /// holds, and otherwise the chain is left as it was.
    pub fn update_with_block(&mut self, block: Block) -> (result: Result<(), BlockValidationErr>)
        ensures
            result == accepts(old(self)@, block@),
            final(self)@ == after_offer(old(self)@, block@),
            result is Ok ==> final(self).blocks@ == old(self).blocks@.push(block),
            result is Err ==> final(self).blocks@ == old(self).blocks@,
            valid_chain(old(self)@) ==> valid_chain(final(self)@),
    {
        proof {
            if valid_chain(old(self)@) {
                lemma_offer_keeps_valid(old(self)@, block@);
            }
        }
        let digest = block.hash();
        match self.check_block(&block, &digest) {
            Err(e) => Err(e),
            Ok(_) => {
                self.blocks.push(block);
                Ok(())
            },
        }
    }

    /// Whether the chain is valid: every block, in order, is acceptable as
    /// the next block of the blocks before it. Nothing is taken on trust:
    /// the blocks are offered again, one by one, to a chain that starts
    /// empty, so every digest is recomputed and every structural and ledger
    /// rule is applied again.
    pub fn verify(&self) -> (ok: bool)
        ensures
            ok == valid_chain(self@),
    {
        let mut replay = Blockchain::new();
        let mut i: usize = 0;
        while i < self.blocks.len()
            invariant
                i <= self.blocks@.len(),
                replay@ == self@.take(i as int),
                valid_chain(replay@),
            decreases self.blocks@.len() - i,
        {
            let block = self.blocks[i].clone();
            match replay.update_with_block(block) {
                Err(_) => {
                    assert(accepts(self@.take(i as int), self@[i as int]) is Err);
                    return false;
                },
                Ok(_) => {},
            }
            i = i + 1;
            assert(replay@ =~= self@.take(i as int));
        }
        assert(self@.take(i as int) =~= self@);
        true
    }
}

} // verus!
