//! The unspent outputs and the blocks that they come from.

use crate::error::BlockChainError;
use crate::laws::chain::law_verified_block_creates_the_reward;
use crate::laws::pool::law_pooling_changes_marks_only;
use crate::laws::replay::{consumes, law_transaction_replaces_outputs};
use crate::time::Timestamp;
use crate::types::block::{after_coinbase, all_known, block_reward, coinbase_verdict, created_outputs,
    input_hashes, is_authorized, is_signed, miner_fees, spent_hashes, spent_value,
    transactions_verdict, BlockView, Utxos};
use crate::types::blockchain::{after_blocks, after_transaction, after_transactions, is_admissible,
    lemma_same_outputs, same_outputs, with_created, without_spent, ChainView};
use crate::types::transaction::{total_value, TransactionOutput, TransactionView};
use crate::u256::U256;
use vstd::prelude::*;

verus! {

/// What is rebuilt depends on the blocks alone: on nothing that was known before,
/// and on no mark.
pub proof fn law_rebuild_depends_on_the_blocks(a: ChainView, b: ChainView)
    requires
        a.blocks == b.blocks,
    ensures
        a.rebuilt().utxos == b.rebuilt().utxos,
{
}

/// Rebuilding the unspent outputs a second time changes nothing.
pub proof fn law_rebuild_is_idempotent(chain: ChainView)
    ensures
        chain.rebuilt().rebuilt() == chain.rebuilt(),
{
}

/// Rebuilding takes back the marks that were set since the last time: whatever
/// became of a transaction in between, the unspent outputs are again those of the
/// earlier rebuild, and the rest of the chain stays.
pub proof fn law_rebuild_takes_marks_back(
    chain: ChainView,
    transaction: TransactionView,
    now: Timestamp,
    r: Result<(), BlockChainError>,
    end: ChainView,
)
    requires
        chain.rebuilt().pooled(transaction, now, r, end),
    ensures
        end.rebuilt() == (ChainView { mempool: end.mempool, ..chain.rebuilt() }),
{
    law_pooling_changes_marks_only(chain.rebuilt(), transaction, now, r, end);
}

/// When a block is appended, the rebuilt outputs are the earlier ones after the
/// transactions of the block.
pub proof fn law_rebuild_goes_on(chain: ChainView, block: BlockView, target: U256)
    ensures
        chain.appended(block, target).rebuilt().utxos == after_transactions(
            chain.rebuilt().utxos,
            block.transactions,
        ),
{
    assert(chain.blocks.push(block).drop_last() =~= chain.blocks);
}

/// Rebuilt outputs are not marked, and are kept under their hashes.
pub proof fn law_rebuilt_outputs_are_unmarked(blocks: Seq<BlockView>, hash: crate::sha256::Hash)
    requires
        after_blocks(Map::empty(), blocks).contains_key(hash),
    ensures
        !after_blocks(Map::empty(), blocks)[hash].0,
        after_blocks(Map::empty(), blocks)[hash].1.id() == hash,
{
    lemma_blocks_keep(Map::empty(), blocks);
}

/// Whether every output is kept under its own hash, without a mark.
spec fn is_fresh(utxos: Utxos) -> bool {
    forall|h: crate::sha256::Hash| #[trigger]
        utxos.contains_key(h) ==> !utxos[h].0 && utxos[h].1.id() == h
}

proof fn lemma_spent_keep(utxos: Utxos, hashes: Seq<crate::sha256::Hash>)
    requires
        is_fresh(utxos),
    ensures
        is_fresh(without_spent(utxos, hashes)),
    decreases hashes.len(),
{
    if hashes.len() > 0 {
        lemma_spent_keep(utxos, hashes.drop_last());
    }
}

proof fn lemma_created_keep(utxos: Utxos, outputs: Seq<TransactionOutput>)
    requires
        is_fresh(utxos),
    ensures
        is_fresh(with_created(utxos, outputs)),
    decreases outputs.len(),
{
    if outputs.len() > 0 {
        lemma_created_keep(utxos, outputs.drop_last());
    }
}

proof fn lemma_transactions_keep(utxos: Utxos, transactions: Seq<TransactionView>)
    requires
        is_fresh(utxos),
    ensures
        is_fresh(after_transactions(utxos, transactions)),
    decreases transactions.len(),
{
    if transactions.len() > 0 {
        let before = after_transactions(utxos, transactions.drop_last());
        let hashes = input_hashes(transactions.last().inputs);
        lemma_transactions_keep(utxos, transactions.drop_last());
        lemma_spent_keep(before, hashes);
        lemma_created_keep(without_spent(before, hashes), transactions.last().outputs);
    }
}

proof fn lemma_blocks_keep(utxos: Utxos, blocks: Seq<BlockView>)
    requires
        is_fresh(utxos),
    ensures
        is_fresh(after_blocks(utxos, blocks)),
    decreases blocks.len(),
{
    if blocks.len() > 0 {
        lemma_blocks_keep(utxos, blocks.drop_last());
        lemma_transactions_keep(
            after_blocks(utxos, blocks.drop_last()),
            blocks.last().transactions,
        );
    }
}

/// After a transaction, what it creates can be spent, and what it spends can not,
/// unless it creates it again.
pub proof fn law_transaction_moves_value(
    utxos: Utxos,
    transaction: TransactionView,
    hash: crate::sha256::Hash,
)
    ensures
        after_transaction(utxos, transaction).contains_key(hash) <==> {
            ||| exists|i: int|
                0 <= i < transaction.outputs.len() && (#[trigger] transaction.outputs[i]).id()
                    == hash
            ||| utxos.contains_key(hash) && !input_hashes(transaction.inputs).contains(hash)
        },
{
    law_transaction_replaces_outputs(utxos, transaction, hash);
    let hashes = input_hashes(transaction.inputs);
    if hashes.contains(hash) {
        let i = choose|i: int| 0 <= i < hashes.len() && hashes[i] == hash;
        assert(transaction.inputs[i].prev_transaction_output_hash == hash);
    }
    if consumes(transaction, hash) {
        let i = choose|i: int|
            0 <= i < transaction.inputs.len()
                && (#[trigger] transaction.inputs[i]).prev_transaction_output_hash == hash;
        assert(hashes[i] == hash);
    }
}

/// What is not among the unspent outputs, such as an output that was spent
/// before, cannot be spent: a transaction that tries neither waits for a block nor
/// passes the check of one.
pub proof fn law_spent_output_cannot_be_spent_again(
    utxos: Utxos,
    transaction: TransactionView,
    i: int,
)
    requires
        0 <= i < transaction.inputs.len(),
        !utxos.contains_key(transaction.inputs[i].prev_transaction_output_hash),
    ensures
        !is_admissible(transaction, utxos),
        !is_authorized(transaction, utxos),
{
    let hashes = input_hashes(transaction.inputs);
    assert(hashes[i] == transaction.inputs[i].prev_transaction_output_hash);
}

/// Whether the transactions of every block pass the check against the outputs that
/// the blocks before it leave unspent.
pub open spec fn is_verified(blocks: Seq<BlockView>) -> bool {
    forall|i: int|
        0 <= i < blocks.len() ==> transactions_verdict(
            blocks[i].transactions,
            i as nat,
            after_blocks(Map::empty(), #[trigger] blocks.take(i)),
        ) is Ok
}

/// A verified chain stays one when a block is appended whose transactions pass the
/// check.
pub proof fn law_verified_chain_stays_verified(blocks: Seq<BlockView>, block: BlockView)
    requires
        is_verified(blocks),
        transactions_verdict(
            block.transactions,
            blocks.len(),
            after_blocks(Map::empty(), blocks),
        ) is Ok,
    ensures
        is_verified(blocks.push(block)),
{
    let longer = blocks.push(block);
    assert forall|i: int| 0 <= i < longer.len() implies transactions_verdict(
        longer[i].transactions,
        i as nat,
        after_blocks(Map::empty(), #[trigger] longer.take(i)),
    ) is Ok by {
        if i < blocks.len() {
            assert(longer.take(i) =~= blocks.take(i));
        } else {
            assert(longer.take(i) =~= blocks);
        }
    }
}

/// Every block of a verified chain creates exactly its reward: its outputs are
/// worth what it spends, and the reward at its height.
pub proof fn law_every_block_creates_its_reward(blocks: Seq<BlockView>, i: int)
    requires
        is_verified(blocks),
        0 <= i < blocks.len(),
    ensures
        total_value(created_outputs(blocks[i].transactions)) == spent_value(
            spent_hashes(after_coinbase(blocks[i].transactions)),
            after_blocks(Map::empty(), blocks.take(i)),
        ) + block_reward(i as nat),
{
    let utxos = after_blocks(Map::empty(), blocks.take(i));
    law_verified_block_creates_the_reward(blocks[i].transactions, i as nat, utxos);
}

/// Marks do not change what is known.
proof fn lemma_known(a: Utxos, b: Utxos, hashes: Seq<crate::sha256::Hash>)
    requires
        same_outputs(a, b),
    ensures
        all_known(hashes, a) <==> all_known(hashes, b),
{
    if all_known(hashes, b) {
        assert forall|i: int| 0 <= i < hashes.len() implies a.contains_key(#[trigger] hashes[i]) by {
            assert(b.contains_key(hashes[i]));
        }
    }
    if all_known(hashes, a) {
        assert forall|i: int| 0 <= i < hashes.len() implies b.contains_key(#[trigger] hashes[i]) by {
            assert(a.contains_key(hashes[i]));
        }
    }
}

/// Marks do not change who may spend.
proof fn lemma_authorized(a: Utxos, b: Utxos, tx: TransactionView)
    requires
        same_outputs(a, b),
    ensures
        is_authorized(tx, a) <==> is_authorized(tx, b),
{
    let hashes = input_hashes(tx.inputs);
    lemma_known(a, b, hashes);
    if all_known(hashes, a) {
        lemma_same_outputs(a, b, hashes);
        assert forall|i: int| 0 <= i < tx.inputs.len() implies is_signed(
            #[trigger] tx.inputs[i],
            a,
        ) == is_signed(tx.inputs[i], b) by {
            assert(hashes[i] == tx.inputs[i].prev_transaction_output_hash);
            assert(a.contains_key(hashes[i]));
        }
    }
}

/// The check of a block's transactions does not depend on marks.
pub proof fn law_check_ignores_marks(
    transactions: Seq<TransactionView>,
    height: nat,
    a: Utxos,
    b: Utxos,
)
    requires
        same_outputs(a, b),
    ensures
        transactions_verdict(transactions, height, a) == transactions_verdict(
            transactions,
            height,
            b,
        ),
{
    let spent = spent_hashes(after_coinbase(transactions));
    lemma_known(a, b, spent);
    if all_known(spent, a) {
        lemma_same_outputs(a, b, spent);
    }
    assert(miner_fees(transactions, a) == miner_fees(transactions, b));
    assert(coinbase_verdict(transactions, height, a) == coinbase_verdict(transactions, height, b));
    assert forall|t: int| 1 <= t < transactions.len() implies is_authorized(
        #[trigger] transactions[t],
        a,
    ) == is_authorized(transactions[t], b) by {
        lemma_authorized(a, b, transactions[t]);
    }
}

} // verus!
