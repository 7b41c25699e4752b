//! What is left unspent when transactions are replayed.

use crate::types::block::{input_hashes, BlockView, Utxos};
use crate::types::blockchain::{after_blocks, after_transaction, after_transactions,
    lemma_push_contains, with_created, without_spent, ChainView};
use crate::types::transaction::{TransactionOutput, TransactionView};
use vstd::prelude::*;

verus! {

/// Whether one of the outputs of a transaction has a hash.
pub open spec fn creates(transaction: TransactionView, hash: crate::sha256::Hash) -> bool {
    exists|i: int|
        0 <= i < transaction.outputs.len() && (#[trigger] transaction.outputs[i]).id() == hash
}

/// Whether one of the inputs of a transaction refers to the output with a hash.
pub open spec fn consumes(transaction: TransactionView, hash: crate::sha256::Hash) -> bool {
    exists|i: int|
        0 <= i < transaction.inputs.len()
            && (#[trigger] transaction.inputs[i]).prev_transaction_output_hash == hash
}

/// Whether an entry is that of one of the outputs of a transaction, without a mark.
pub open spec fn is_created_entry(
    transaction: TransactionView,
    hash: crate::sha256::Hash,
    entry: (bool, TransactionOutput),
) -> bool {
    !entry.0 && exists|i: int|
        {
            &&& 0 <= i < transaction.outputs.len()
            &&& (#[trigger] transaction.outputs[i]).id() == hash
            &&& transaction.outputs[i] == entry.1
        }
}

/// After a transaction, what it creates is unspent and not marked, what it spends
/// is not unless it creates it again, and all else is as it was.
pub proof fn law_transaction_replaces_outputs(
    utxos: Utxos,
    transaction: TransactionView,
    hash: crate::sha256::Hash,
)
    ensures
        ({
            let after = after_transaction(utxos, transaction);
            &&& creates(transaction, hash) ==> after.contains_key(hash) && is_created_entry(
                transaction,
                hash,
                after[hash],
            )
            &&& !creates(transaction, hash) && consumes(transaction, hash) ==> !after.contains_key(
                hash,
            )
            &&& !creates(transaction, hash) && !consumes(transaction, hash) ==> {
                &&& after.contains_key(hash) <==> utxos.contains_key(hash)
                &&& utxos.contains_key(hash) ==> after[hash] == utxos[hash]
            }
        }),
{
    let hashes = input_hashes(transaction.inputs);
    let middle = without_spent(utxos, hashes);
    lemma_without_spent(utxos, hashes, hash);
    lemma_with_created(middle, transaction.outputs, hash);
    if hashes.contains(hash) {
        let i = choose|i: int| 0 <= i < hashes.len() && hashes[i] == hash;
        assert(transaction.inputs[i].prev_transaction_output_hash == hash);
    }
    if consumes(transaction, hash) {
        let i = choose|i: int|
            0 <= i < transaction.inputs.len()
                && (#[trigger] transaction.inputs[i]).prev_transaction_output_hash == hash;
        assert(hashes[i] == hash);
    }
}

proof fn lemma_without_spent(
    utxos: Utxos,
    hashes: Seq<crate::sha256::Hash>,
    hash: crate::sha256::Hash,
)
    ensures
        without_spent(utxos, hashes).contains_key(hash) <==> utxos.contains_key(hash)
            && !hashes.contains(hash),
        without_spent(utxos, hashes).contains_key(hash) ==> without_spent(utxos, hashes)[hash]
            == utxos[hash],
    decreases hashes.len(),
{
    if hashes.len() > 0 {
        lemma_without_spent(utxos, hashes.drop_last(), hash);
        assert(hashes =~= hashes.drop_last().push(hashes.last()));
        lemma_push_contains(hashes.drop_last(), hashes.last(), hash);
    }
}

proof fn lemma_with_created(
    utxos: Utxos,
    outputs: Seq<TransactionOutput>,
    hash: crate::sha256::Hash,
)
    ensures
        ({
            let after = with_created(utxos, outputs);
            let created = exists|i: int|
                0 <= i < outputs.len() && (#[trigger] outputs[i]).id() == hash;
            &&& created ==> after.contains_key(hash) && !after[hash].0 && exists|i: int|
                {
                    &&& 0 <= i < outputs.len()
                    &&& (#[trigger] outputs[i]).id() == hash
                    &&& outputs[i] == after[hash].1
                }
            &&& !created ==> {
                &&& after.contains_key(hash) <==> utxos.contains_key(hash)
                &&& utxos.contains_key(hash) ==> after[hash] == utxos[hash]
            }
        }),
    decreases outputs.len(),
{
    if outputs.len() > 0 {
        let front = outputs.drop_last();
        let before = with_created(utxos, front);
        let after = with_created(utxos, outputs);
        lemma_with_created(utxos, front, hash);
        assert(outputs[outputs.len() - 1] == outputs.last());
        if outputs.last().id() != hash {
            if exists|i: int| 0 <= i < outputs.len() && (#[trigger] outputs[i]).id() == hash {
                let i = choose|i: int|
                    0 <= i < outputs.len() && (#[trigger] outputs[i]).id() == hash;
                assert(front[i].id() == hash);
                let k = choose|k: int|
                    {
                        &&& 0 <= k < front.len()
                        &&& (#[trigger] front[k]).id() == hash
                        &&& front[k] == before[hash].1
                    };
                assert(outputs[k].id() == hash && outputs[k] == after[hash].1);
            } else {
                assert forall|i: int| 0 <= i < front.len() implies (#[trigger] front[i]).id()
                    != hash by {
                    assert(front[i] == outputs[i]);
                }
            }
        }
    }
}

/// Replaying one more transaction does what that transaction does, whatever the
/// number of those before it, and replaying none does nothing.
pub proof fn law_replay_takes_every_transaction(
    utxos: Utxos,
    transactions: Seq<TransactionView>,
    transaction: TransactionView,
)
    ensures
        after_transactions(utxos, transactions.push(transaction)) == after_transaction(
            after_transactions(utxos, transactions),
            transaction,
        ),
        after_transactions(utxos, Seq::empty()) == utxos,
{
    assert(transactions.push(transaction).drop_last() =~= transactions);
}

/// Replaying transactions in two parts is replaying them all.
pub proof fn law_replay_goes_in_parts(
    utxos: Utxos,
    front: Seq<TransactionView>,
    back: Seq<TransactionView>,
)
    ensures
        after_transactions(utxos, front + back) == after_transactions(
            after_transactions(utxos, front),
            back,
        ),
    decreases back.len(),
{
    if back.len() > 0 {
        assert((front + back).drop_last() =~= front + back.drop_last());
        law_replay_goes_in_parts(utxos, front, back.drop_last());
    } else {
        assert(front + back =~= front);
    }
}

/// Whether the transaction at position `t` creates an output that no later one
/// spends.
pub open spec fn leaves(
    transactions: Seq<TransactionView>,
    t: int,
    hash: crate::sha256::Hash,
) -> bool {
    &&& 0 <= t < transactions.len()
    &&& creates(transactions[t], hash)
    &&& forall|u: int| t < u < transactions.len() ==> !consumes(#[trigger] transactions[u], hash)
}

/// Whether no transaction spends the output with a hash.
pub open spec fn all_spare(transactions: Seq<TransactionView>, hash: crate::sha256::Hash) -> bool {
    forall|u: int| 0 <= u < transactions.len() ==> !consumes(#[trigger] transactions[u], hash)
}

/// After transactions have been replayed, an output is unspent if and only if one
/// of them creates it and no later one spends it, or if it was unspent before and
/// none of them spends it.
pub proof fn law_replay_leaves_what_is_not_spent(
    utxos: Utxos,
    transactions: Seq<TransactionView>,
    hash: crate::sha256::Hash,
)
    ensures
        after_transactions(utxos, transactions).contains_key(hash) <==> {
            ||| exists|t: int| leaves(transactions, t, hash)
            ||| utxos.contains_key(hash) && all_spare(transactions, hash)
        },
    decreases transactions.len(),
{
    if transactions.len() > 0 {
        let front = transactions.drop_last();
        let last = transactions.last();
        let n = transactions.len() - 1;
        let before = after_transactions(utxos, front);
        law_replay_leaves_what_is_not_spent(utxos, front, hash);
        law_transaction_replaces_outputs(before, last, hash);
        assert(transactions[n] == last);
        if creates(last, hash) {
            assert(leaves(transactions, n, hash));
        } else if consumes(last, hash) {
            assert forall|t: int| !leaves(transactions, t, hash) by {
                if leaves(transactions, t, hash) {
                    assert(t < n);
                    assert(!consumes(transactions[n], hash));
                }
            }
        } else {
            assert forall|t: int| leaves(front, t, hash) implies leaves(transactions, t, hash) by {
                assert(front[t] == transactions[t]);
                assert forall|u: int| t < u < transactions.len() implies !consumes(
                    #[trigger] transactions[u],
                    hash,
                ) by {
                    if u < n {
                        assert(front[u] == transactions[u]);
                    }
                }
            }
            assert forall|t: int| leaves(transactions, t, hash) implies leaves(front, t, hash) by {
                assert(t != n);
                assert(front[t] == transactions[t]);
                assert forall|u: int| t < u < front.len() implies !consumes(
                    #[trigger] front[u],
                    hash,
                ) by {
                    assert(front[u] == transactions[u]);
                }
            }
            if all_spare(front, hash) {
                assert forall|u: int| 0 <= u < transactions.len() implies !consumes(
                    #[trigger] transactions[u],
                    hash,
                ) by {
                    if u < n {
                        assert(front[u] == transactions[u]);
                    }
                }
            }
            if all_spare(transactions, hash) {
                assert forall|u: int| 0 <= u < front.len() implies !consumes(
                    #[trigger] front[u],
                    hash,
                ) by {
                    assert(front[u] == transactions[u]);
                }
            }
            if exists|t: int| leaves(front, t, hash) {
                let t = choose|t: int| leaves(front, t, hash);
                assert(leaves(transactions, t, hash));
            }
            if exists|t: int| leaves(transactions, t, hash) {
                let t = choose|t: int| leaves(transactions, t, hash);
                assert(leaves(front, t, hash));
            }
        }
    }
}

/// What is unspent after transactions have been replayed is an output that one of
/// them creates, without a mark, or is as it was before.
pub proof fn law_replayed_outputs_are_those_created(
    utxos: Utxos,
    transactions: Seq<TransactionView>,
    hash: crate::sha256::Hash,
)
    requires
        after_transactions(utxos, transactions).contains_key(hash),
    ensures
        ({
            let entry = after_transactions(utxos, transactions)[hash];
            ||| exists|t: int|
                0 <= t < transactions.len() && is_created_entry(
                    #[trigger] transactions[t],
                    hash,
                    entry,
                )
            ||| utxos.contains_key(hash) && entry == utxos[hash] && forall|t: int|
                0 <= t < transactions.len() ==> !creates(#[trigger] transactions[t], hash)
        }),
    decreases transactions.len(),
{
    if transactions.len() > 0 {
        let front = transactions.drop_last();
        let last = transactions.last();
        let n = transactions.len() - 1;
        let entry = after_transactions(utxos, transactions)[hash];
        law_transaction_replaces_outputs(after_transactions(utxos, front), last, hash);
        assert(transactions[n] == last);
        if !creates(last, hash) {
            law_replayed_outputs_are_those_created(utxos, front, hash);
            if exists|t: int|
                0 <= t < front.len() && is_created_entry(#[trigger] front[t], hash, entry) {
                let t = choose|t: int|
                    0 <= t < front.len() && is_created_entry(#[trigger] front[t], hash, entry);
                assert(is_created_entry(transactions[t], hash, entry));
            } else {
                assert forall|t: int| 0 <= t < transactions.len() implies !creates(
                    #[trigger] transactions[t],
                    hash,
                ) by {
                    if t < n {
                        assert(transactions[t] == front[t]);
                    }
                }
            }
        }
    }
}

/// Whether the transaction at position `t` of the block at position `b` creates an
/// output that no later transaction spends, in this block or in a later one.
pub open spec fn chain_leaves(
    blocks: Seq<BlockView>,
    b: int,
    t: int,
    hash: crate::sha256::Hash,
) -> bool {
    &&& 0 <= b < blocks.len()
    &&& leaves(blocks[b].transactions, t, hash)
    &&& forall|c: int| b < c < blocks.len() ==> all_spare((#[trigger] blocks[c]).transactions, hash)
}

/// After the unspent outputs have been rebuilt, an output is unspent if and only if
/// a transaction of a block creates it and no later transaction spends it. Whatever
/// was held to be unspent before does not matter, and nothing else of the chain
/// changes.
pub proof fn law_rebuilt_outputs_are_the_unspent_ones(
    chain: ChainView,
    hash: crate::sha256::Hash,
)
    ensures
        chain.rebuilt().utxos.contains_key(hash) <==> exists|b: int, t: int|
            chain_leaves(chain.blocks, b, t, hash),
        chain.rebuilt().blocks == chain.blocks,
        chain.rebuilt().target == chain.target,
        chain.rebuilt().mempool == chain.mempool,
{
    lemma_blocks_leave(chain.blocks, hash);
}

proof fn lemma_blocks_leave(blocks: Seq<BlockView>, hash: crate::sha256::Hash)
    ensures
        after_blocks(Map::empty(), blocks).contains_key(hash) <==> exists|b: int, t: int|
            chain_leaves(blocks, b, t, hash),
    decreases blocks.len(),
{
    if blocks.len() > 0 {
        let front = blocks.drop_last();
        let n = blocks.len() - 1;
        let txs = blocks.last().transactions;
        let before = after_blocks(Map::empty(), front);
        lemma_blocks_leave(front, hash);
        law_replay_leaves_what_is_not_spent(before, txs, hash);
        assert(blocks[n] == blocks.last());
        if exists|t: int| leaves(txs, t, hash) {
            let t = choose|t: int| leaves(txs, t, hash);
            assert(chain_leaves(blocks, n, t, hash));
        }
        if all_spare(txs, hash) && exists|b: int, t: int| chain_leaves(front, b, t, hash) {
            let (b, t) = choose|b: int, t: int| chain_leaves(front, b, t, hash);
            assert(front[b] == blocks[b]);
            assert forall|c: int| b < c < blocks.len() implies all_spare(
                (#[trigger] blocks[c]).transactions,
                hash,
            ) by {
                if c < n {
                    assert(front[c] == blocks[c]);
                }
            }
            assert(chain_leaves(blocks, b, t, hash));
        }
        if exists|b: int, t: int| chain_leaves(blocks, b, t, hash) {
            let (b, t) = choose|b: int, t: int| chain_leaves(blocks, b, t, hash);
            if b < n {
                assert(front[b] == blocks[b]);
                assert forall|c: int| b < c < front.len() implies all_spare(
                    (#[trigger] front[c]).transactions,
                    hash,
                ) by {
                    assert(front[c] == blocks[c]);
                }
                assert(all_spare(blocks[n].transactions, hash));
                assert(chain_leaves(front, b, t, hash));
            }
        }
    }
}

/// Every entry of the rebuilt outputs is an output that a transaction of a block
/// creates, under its hash and without a mark.
pub proof fn law_rebuilt_outputs_come_from_blocks(chain: ChainView, hash: crate::sha256::Hash)
    requires
        chain.rebuilt().utxos.contains_key(hash),
    ensures
        exists|b: int, t: int|
            {
                &&& 0 <= b < chain.blocks.len()
                &&& 0 <= t < chain.blocks[b].transactions.len()
                &&& is_created_entry(
                    #[trigger] chain.blocks[b].transactions[t],
                    hash,
                    chain.rebuilt().utxos[hash],
                )
            },
{
    lemma_blocks_create(chain.blocks, hash);
}

proof fn lemma_blocks_create(blocks: Seq<BlockView>, hash: crate::sha256::Hash)
    requires
        after_blocks(Map::empty(), blocks).contains_key(hash),
    ensures
        exists|b: int, t: int|
            {
                &&& 0 <= b < blocks.len()
                &&& 0 <= t < blocks[b].transactions.len()
                &&& is_created_entry(
                    #[trigger] blocks[b].transactions[t],
                    hash,
                    after_blocks(Map::empty(), blocks)[hash],
                )
            },
    decreases blocks.len(),
{
    if blocks.len() > 0 {
        let front = blocks.drop_last();
        let n = blocks.len() - 1;
        let txs = blocks.last().transactions;
        let before = after_blocks(Map::empty(), front);
        let entry = after_blocks(Map::empty(), blocks)[hash];
        law_replayed_outputs_are_those_created(before, txs, hash);
        assert(blocks[n] == blocks.last());
        if exists|t: int| 0 <= t < txs.len() && is_created_entry(#[trigger] txs[t], hash, entry) {
            let t = choose|t: int|
                0 <= t < txs.len() && is_created_entry(#[trigger] txs[t], hash, entry);
            assert(is_created_entry(blocks[n].transactions[t], hash, entry));
        } else {
            lemma_blocks_create(front, hash);
            let (b, t) = choose|b: int, t: int|
                {
                    &&& 0 <= b < front.len()
                    &&& 0 <= t < front[b].transactions.len()
                    &&& is_created_entry(#[trigger] front[b].transactions[t], hash, before[hash])
                };
            assert(front[b] == blocks[b]);
            assert(is_created_entry(blocks[b].transactions[t], hash, entry));
        }
    }
}

} // verus!
