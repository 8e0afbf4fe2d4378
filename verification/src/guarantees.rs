//! What the validation rules guarantee, proved from their definitions.

use crate::block::{meets_difficulty, zero_hash, BlockView};
use crate::blockchain::{
    accepts, after_offer, coinbase_shaped, coinbase_value, inputs_recorded,
    lemma_settle_error_stays, linkage_error, linked_at, next_index, settle, spend_error,
    spends_of, valid_chain, well_linked, work_holds, BlockValidationErr, BLOCK_SUBSIDY,
};
use crate::transaction::TransactionView;
use vstd::prelude::*;

verus! {

/// A smaller threshold is harder: a digest that meets a difficulty meets
/// every larger one.
pub proof fn lemma_larger_difficulty_admits_more(hash: Seq<u8>, harder: u128, easier: u128)
    requires
        harder <= easier,
        meets_difficulty(hash, harder),
    ensures
        meets_difficulty(hash, easier),
{
}

/// A block's stored hash and its difficulty are not part of what is
/// digested: changing them changes neither its serialization nor its digest.
pub proof fn lemma_digest_leaves_out_hash_and_difficulty(
    block: BlockView,
    hash: Seq<u8>,
    difficulty: u128,
)
    ensures
        (BlockView { hash, difficulty, ..block }).bytes() == block.bytes(),
        (BlockView { hash, difficulty, ..block }).digest() == block.digest(),
{
}

/// Mining is sound: a block sealed with a winning nonce stores the digest of
/// its own fields, and that digest meets its difficulty; so the
/// proof-of-work rule holds when the block is validated.
pub proof fn lemma_sealed_block_is_mined(block: BlockView, nonce: u64)
    requires
        block.nonce_wins(nonce),
    ensures
        block.sealed_with(nonce).is_mined(),
        work_holds(block.sealed_with(nonce), block.sealed_with(nonce).digest()),
{
}

/// A block whose index does not follow the last block's is rejected with
/// `MismatchedIndex`, whatever its other fields are, provided its coinbase
/// has the right shape and, on an empty chain, it names the zero hash.
pub proof fn lemma_wrong_index_is_rejected(chain: Seq<BlockView>, block: BlockView)
    requires
        coinbase_shaped(block),
        chain.len() == 0 ==> block.prev_block_hash == zero_hash(),
        block.index != next_index(chain),
    ensures
        accepts(chain, block) == Err::<(), BlockValidationErr>(
            BlockValidationErr::MismatchedIndex,
        ),
        after_offer(chain, block) == chain,
{
}

/// A block older than the last block is rejected with
/// `AchronologicalTimestamp`, provided the rules that come first hold: its
/// coinbase has the right shape, its index follows, and it names the last
/// block's hash.
pub proof fn lemma_older_block_is_rejected(chain: Seq<BlockView>, block: BlockView)
    requires
        chain.len() > 0,
        coinbase_shaped(block),
        block.index == next_index(chain),
        block.prev_block_hash == chain.last().hash,
        block.timestamp < chain.last().timestamp,
    ensures
        accepts(chain, block) == Err::<(), BlockValidationErr>(
            BlockValidationErr::AchronologicalTimestamp,
        ),
        after_offer(chain, block) == chain,
{
}

/// A block without spending transactions settles to no fees on any chain.
pub proof fn lemma_nothing_to_settle(chain: Seq<BlockView>, block: BlockView)
    requires
        block.transactions.len() <= 1,
    ensures
        settle(chain, spends_of(block)) == Ok::<nat, BlockValidationErr>(0),
{
}

/// Genesis acceptance: the first block of a chain is accepted exactly if
/// its coinbase has the right shape, it names the zero hash as its
/// predecessor, its index is zero, it is mined, and its spending
/// transactions, if it has any, settle against the empty chain. What its
/// coinbase pays does not matter.
pub proof fn lemma_genesis_acceptance(block: BlockView)
    ensures
        accepts(Seq::empty(), block) is Ok <==> {
            &&& coinbase_shaped(block)
            &&& block.prev_block_hash == zero_hash()
            &&& block.index == 0
            &&& block.is_mined()
            &&& settle(Seq::empty(), spends_of(block)) is Ok
        },
        accepts(Seq::empty(), block) is Ok ==> after_offer(Seq::empty(), block) == seq![block],
{
}

/// A first block with index zero, the zero hash as predecessor, a mined
/// hash and no transaction but a coinbase is accepted, whatever the
/// coinbase pays.
pub proof fn lemma_genesis_is_accepted(block: BlockView)
    requires
        block.index == 0,
        block.prev_block_hash == zero_hash(),
        block.is_mined(),
        coinbase_shaped(block),
        block.transactions.len() <= 1,
    ensures
        accepts(Seq::empty(), block) is Ok,
        after_offer(Seq::empty(), block) == seq![block],
{
    lemma_nothing_to_settle(Seq::empty(), block);
    lemma_genesis_acceptance(block);
}

/// A first block that names anything but the zero hash as its predecessor
/// is rejected with `InvalidGenesisBlockFormat`, provided its coinbase has
/// the right shape.
pub proof fn lemma_genesis_needs_zero_predecessor(block: BlockView)
    requires
        coinbase_shaped(block),
        block.prev_block_hash != zero_hash(),
    ensures
        accepts(Seq::empty(), block) == Err::<(), BlockValidationErr>(
            BlockValidationErr::InvalidGenesisBlockFormat,
        ),
{
}

/// If no spending transaction before position `n` has an error, the fees
/// up to there are settled.
pub proof fn lemma_settle_without_errors(
    chain: Seq<BlockView>,
    spends: Seq<TransactionView>,
    n: int,
)
    requires
        0 <= n <= spends.len(),
        forall|j: int| 0 <= j < n ==> spend_error(chain, #[trigger] spends[j]) is None,
    ensures
        settle(chain, spends.take(n)) is Ok,
    decreases n,
{
    if n > 0 {
        lemma_settle_without_errors(chain, spends, n - 1);
        assert(spends.take(n).drop_last() =~= spends.take(n - 1));
    }
}

/// The sum of the fees of `spends`.
pub open spec fn total_fees(spends: Seq<TransactionView>) -> int
    decreases spends.len(),
{
    if spends.len() == 0 {
        0
    } else {
        total_fees(spends.drop_last()) + spends.last().fee()
    }
}

/// If no spending transaction has an error, settling them gives the sum of
/// their fees, and no fee is negative.
pub proof fn lemma_settle_sums_fees(chain: Seq<BlockView>, spends: Seq<TransactionView>)
    requires
        forall|j: int| 0 <= j < spends.len() ==> spend_error(chain, #[trigger] spends[j]) is None,
    ensures
        total_fees(spends) >= 0,
        settle(chain, spends) == Ok::<nat, BlockValidationErr>(total_fees(spends) as nat),
    decreases spends.len(),
{
    if spends.len() > 0 {
        lemma_settle_sums_fees(chain, spends.drop_last());
    }
}

/// The first spending transaction that has an error decides the outcome of
/// settling: later transactions are not looked at.
pub proof fn lemma_first_spend_error_decides(
    chain: Seq<BlockView>,
    spends: Seq<TransactionView>,
    i: int,
)
    requires
        0 <= i < spends.len(),
        forall|j: int| 0 <= j < i ==> spend_error(chain, #[trigger] spends[j]) is None,
        spend_error(chain, spends[i]) is Some,
    ensures
        settle(chain, spends) == Err::<nat, BlockValidationErr>(
            spend_error(chain, spends[i])->Some_0,
        ),
{
    lemma_settle_without_errors(chain, spends, i);
    assert(spends.take(i + 1).drop_last() =~= spends.take(i));
    lemma_settle_error_stays(chain, spends, i + 1);
}

/// A block in which a transaction consumes an output that the chain does
/// not record is rejected with `InvalidInput`, provided the structural
/// rules and the proof of work hold and no earlier spending transaction of
/// the block has an error.
pub proof fn lemma_unrecorded_input_is_rejected(chain: Seq<BlockView>, block: BlockView, i: int)
    requires
        linkage_error(chain, block) is None,
        work_holds(block, block.digest()),
        0 <= i < spends_of(block).len(),
        forall|j: int| 0 <= j < i ==> spend_error(chain, #[trigger] spends_of(block)[j]) is None,
        !inputs_recorded(chain, spends_of(block)[i].inputs),
    ensures
        accepts(chain, block) == Err::<(), BlockValidationErr>(BlockValidationErr::InvalidInput),
        after_offer(chain, block) == chain,
{
    lemma_first_spend_error_decides(chain, spends_of(block), i);
}

/// A block in which a transaction produces more than it consumes, all its
/// inputs being recorded, is rejected with `InsufficientInputValue`,
/// provided the structural rules and the proof of work hold and no earlier
/// spending transaction of the block has an error.
pub proof fn lemma_overspending_is_rejected(chain: Seq<BlockView>, block: BlockView, i: int)
    requires
        linkage_error(chain, block) is None,
        work_holds(block, block.digest()),
        0 <= i < spends_of(block).len(),
        forall|j: int| 0 <= j < i ==> spend_error(chain, #[trigger] spends_of(block)[j]) is None,
        inputs_recorded(chain, spends_of(block)[i].inputs),
        spends_of(block)[i].input_value() < spends_of(block)[i].output_value(),
    ensures
        accepts(chain, block) == Err::<(), BlockValidationErr>(
            BlockValidationErr::InsufficientInputValue,
        ),
        after_offer(chain, block) == chain,
{
    lemma_first_spend_error_decides(chain, spends_of(block), i);
}

/// Fee accounting: a block that follows another and passes every rule
/// before the last is accepted exactly if its coinbase pays the subsidy
/// plus the fees of its spending transactions, and is otherwise rejected
/// with `InvalidCoinbaseTransactionFee`.
pub proof fn lemma_coinbase_pays_subsidy_and_fees(chain: Seq<BlockView>, block: BlockView)
    requires
        chain.len() > 0,
        linkage_error(chain, block) is None,
        work_holds(block, block.digest()),
        settle(chain, spends_of(block)) is Ok,
    ensures
        accepts(chain, block) == if coinbase_value(block) == BLOCK_SUBSIDY + settle(
            chain,
            spends_of(block),
        )->Ok_0 {
            Ok::<(), BlockValidationErr>(())
        } else {
            Err::<(), BlockValidationErr>(BlockValidationErr::InvalidCoinbaseTransactionFee)
        },
{
}

/// Rejection is idempotent: a rejected block leaves the chain as it was,
/// so offering it again gives the same error and the same chain.
pub proof fn lemma_rejection_is_idempotent(chain: Seq<BlockView>, block: BlockView)
    requires
        accepts(chain, block) is Err,
    ensures
        after_offer(chain, block) == chain,
        after_offer(chain, block).len() == chain.len(),
        accepts(after_offer(chain, block), block) == accepts(chain, block),
        after_offer(after_offer(chain, block), block) == chain,
{
}

/// An offer leaves a chain one block longer or unchanged, and never touches
/// the blocks that were there.
pub proof fn lemma_offer_appends_or_keeps(chain: Seq<BlockView>, block: BlockView)
    ensures
        accepts(chain, block) is Ok ==> after_offer(chain, block).len() == chain.len() + 1,
        accepts(chain, block) is Err ==> after_offer(chain, block) == chain,
        after_offer(chain, block).take(chain.len() as int) == chain,
{
}

/// A chain that holds a block which the blocks before it reject is not
/// valid, whatever comes after that block.
pub proof fn lemma_rejected_block_breaks_chain(chain: Seq<BlockView>, k: int)
    requires
        0 <= k < chain.len(),
        accepts(chain.take(k), chain[k]) is Err,
    ensures
        !valid_chain(chain),
{
}

/// A valid chain stays valid when blocks are taken off its end.
pub proof fn lemma_prefix_of_valid_chain_is_valid(chain: Seq<BlockView>, n: int)
    requires
        valid_chain(chain),
        0 <= n <= chain.len(),
    ensures
        valid_chain(chain.take(n)),
{
    let prefix = chain.take(n);
    assert forall|k: int| 0 <= k < prefix.len() implies #[trigger] accepts(
        prefix.take(k),
        prefix[k],
    ) is Ok by {
        assert(prefix.take(k) =~= chain.take(k));
        assert(accepts(chain.take(k), chain[k]) is Ok);
    }
}

/// The hash of an accepted block cannot be changed afterwards: validating
/// the block again, with any other stored hash, against the blocks before
/// it fails with `InvalidHash`, and the chain that holds the changed block
/// is no longer valid.
pub proof fn lemma_changed_hash_is_detected(chain: Seq<BlockView>, k: int, hash: Seq<u8>)
    requires
        valid_chain(chain),
        0 <= k < chain.len(),
        hash != chain[k].hash,
    ensures
        accepts(chain.take(k), BlockView { hash, ..chain[k] }) == Err::<(), BlockValidationErr>(
            BlockValidationErr::InvalidHash,
        ),
        !valid_chain(chain.update(k, BlockView { hash, ..chain[k] })),
{
    assert(accepts(chain.take(k), chain[k]) is Ok);
    let broken = chain.update(k, BlockView { hash, ..chain[k] });
    assert(accepts(broken.take(k), broken[k]) is Err);
}

/// The predecessor hash of an accepted block cannot be changed afterwards:
/// validating the block again, with any other predecessor hash, against the
/// blocks before it fails, with `MismatchedPreviousHash` for a block that
/// has a predecessor and with `InvalidGenesisBlockFormat` for the first
/// block; and the chain that holds the changed block is no longer valid.
pub proof fn lemma_changed_predecessor_is_detected(
    chain: Seq<BlockView>,
    k: int,
    prev_block_hash: Seq<u8>,
)
    requires
        valid_chain(chain),
        0 <= k < chain.len(),
        prev_block_hash != chain[k].prev_block_hash,
    ensures
        accepts(chain.take(k), BlockView { prev_block_hash, ..chain[k] }) == Err::<
            (),
            BlockValidationErr,
        >(
            if k > 0 {
                BlockValidationErr::MismatchedPreviousHash
            } else {
                BlockValidationErr::InvalidGenesisBlockFormat
            },
        ),
        !valid_chain(chain.update(k, BlockView { prev_block_hash, ..chain[k] })),
{
    assert(accepts(chain.take(k), chain[k]) is Ok);
    let broken = chain.update(k, BlockView { prev_block_hash, ..chain[k] });
    assert(accepts(broken.take(k), broken[k]) is Err);
}

/// In a valid chain every block sits at its index.
pub proof fn lemma_valid_chain_indices(chain: Seq<BlockView>, i: int)
    requires
        valid_chain(chain),
        0 <= i < chain.len(),
    ensures
        chain[i].index == i,
    decreases i,
{
    assert(accepts(chain.take(i), chain[i]) is Ok);
    if i > 0 {
        lemma_valid_chain_indices(chain, i - 1);
    }
}

/// A valid chain is well linked: every block sits at its index, stores a
/// hash that meets its difficulty, and is chained to its predecessor by
/// hash and by time.
pub proof fn lemma_valid_chain_is_well_linked(chain: Seq<BlockView>)
    requires
        valid_chain(chain),
    ensures
        well_linked(chain),
{
    assert forall|i: int| 0 <= i < chain.len() implies #[trigger] linked_at(chain, i) by {
        lemma_valid_chain_indices(chain, i);
        assert(accepts(chain.take(i), chain[i]) is Ok);
    }
}

} // verus!
