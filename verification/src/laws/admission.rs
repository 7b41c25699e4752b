//! What is admitted to the waiting transactions, and what admission changes.

use crate::error::BlockChainError;
use crate::laws::pool::law_sorting_is_unique;
use crate::time::Timestamp;
use crate::types::block::{all_known, input_hashes, output_hashes, spent_value, BlockView, Utxos};
use crate::types::blockchain::{all_released, fee, fees, is_admissible, is_first_creator, is_sorting,
    lemma_all_released_same, marked, pool_known, released, still_young, without_confirmed,
    ChainView};
use crate::types::transaction::{total_value, TransactionView};
use crate::util::transaction_ids;
use vstd::prelude::*;

verus! {

/// Whether every input of a transaction refers to an unspent output, no two refer
/// to the same one, and its outputs are worth no more than what it spends.
pub open spec fn is_covered(transaction: TransactionView, utxos: Utxos) -> bool {
    &&& forall|i: int|
        0 <= i < transaction.inputs.len() ==> utxos.contains_key(
            (#[trigger] transaction.inputs[i]).prev_transaction_output_hash,
        )
    &&& forall|i: int, j: int|
        0 <= i < j < transaction.inputs.len() ==> (
        #[trigger] transaction.inputs[i]).prev_transaction_output_hash != (
        #[trigger] transaction.inputs[j]).prev_transaction_output_hash
    &&& total_value(transaction.outputs) <= spent_value(input_hashes(transaction.inputs), utxos)
}

/// A transaction may wait for a block if and only if all that it spends is known,
/// it spends nothing twice, and all its outputs together are worth no more than all
/// that it spends.
pub proof fn law_admissible_is_covered(transaction: TransactionView, utxos: Utxos)
    ensures
        is_admissible(transaction, utxos) <==> is_covered(transaction, utxos),
{
    let hashes = input_hashes(transaction.inputs);
    if is_admissible(transaction, utxos) {
        assert forall|i: int| 0 <= i < transaction.inputs.len() implies utxos.contains_key(
            (#[trigger] transaction.inputs[i]).prev_transaction_output_hash,
        ) by {
            assert(utxos.contains_key(hashes[i]));
        }
        assert forall|i: int, j: int| 0 <= i < j < transaction.inputs.len() implies (
        #[trigger] transaction.inputs[i]).prev_transaction_output_hash != (
        #[trigger] transaction.inputs[j]).prev_transaction_output_hash by {
            assert(hashes[i] != hashes[j]);
        }
    }
    if is_covered(transaction, utxos) {
        assert forall|i: int| 0 <= i < hashes.len() implies utxos.contains_key(
            #[trigger] hashes[i],
        ) by {
            assert(hashes[i] == transaction.inputs[i].prev_transaction_output_hash);
        }
        assert forall|i: int, j: int|
            0 <= i < hashes.len() && 0 <= j < hashes.len() && i != j implies hashes[i]
            != hashes[j] by {
            assert(hashes[i] == transaction.inputs[i].prev_transaction_output_hash);
            assert(hashes[j] == transaction.inputs[j].prev_transaction_output_hash);
        }
    }
}

/// A transaction that has been admitted spends known outputs, none twice, and
/// creates no more than it spends. One that does all that is admitted.
pub proof fn law_admitted_transaction_is_covered(
    start: ChainView,
    transaction: TransactionView,
    now: Timestamp,
    r: Result<(), BlockChainError>,
    end: ChainView,
)
    requires
        start.pooled(transaction, now, r, end),
    ensures
        r is Ok <==> is_covered(transaction, start.utxos),
        r is Err ==> r == Err::<(), BlockChainError>(BlockChainError::InvalidTransaction),
{
    law_admissible_is_covered(transaction, start.utxos);
}

/// A transaction with an input that refers to no unspent output, or to the output
/// of another input, changes nothing at all.
pub proof fn law_unknown_inputs_change_nothing(
    start: ChainView,
    transaction: TransactionView,
    now: Timestamp,
    r: Result<(), BlockChainError>,
    end: ChainView,
    i: int,
    j: int,
)
    requires
        start.pooled(transaction, now, r, end),
        0 <= i < transaction.inputs.len(),
        !start.utxos.contains_key(transaction.inputs[i].prev_transaction_output_hash) || {
            &&& 0 <= j < transaction.inputs.len()
            &&& i != j
            &&& transaction.inputs[i].prev_transaction_output_hash
                == transaction.inputs[j].prev_transaction_output_hash
        },
    ensures
        r == Err::<(), BlockChainError>(BlockChainError::InvalidTransaction),
        end == start,
{
    let hashes = input_hashes(transaction.inputs);
    assert(hashes[i] == transaction.inputs[i].prev_transaction_output_hash);
    if 0 <= j < transaction.inputs.len() {
        assert(hashes[j] == transaction.inputs[j].prev_transaction_output_hash);
    }
}

/// The fee of a transaction and its outputs are worth what it spends, if it creates
/// no more than that. If it creates more, it leaves no fee.
pub proof fn law_fee_is_the_rest(transaction: TransactionView, utxos: Utxos)
    ensures
        ({
            let spent = spent_value(input_hashes(transaction.inputs), utxos);
            let created = total_value(transaction.outputs);
            &&& created <= spent ==> fee(transaction, utxos) + created == spent
            &&& created > spent ==> fee(transaction, utxos) == 0
        }),
{
}

/// If the waiting transactions were sorted by their fees, one that is admitted takes
/// its place behind those that leave as much or more, and before those that leave
/// less. The others keep their order.
pub proof fn law_admitted_transaction_takes_its_place(
    start: ChainView,
    transaction: TransactionView,
    now: Timestamp,
    end: ChainView,
    at: int,
)
    requires
        start.pooled(transaction, now, Ok::<(), BlockChainError>(()), end),
        0 <= at <= start.mempool.len(),
        forall|i: int, j: int|
            0 <= i < j < start.mempool.len() ==> fee((#[trigger] start.mempool[i]).1, end.utxos)
                >= fee((#[trigger] start.mempool[j]).1, end.utxos),
        forall|i: int|
            0 <= i < at ==> fee((#[trigger] start.mempool[i]).1, end.utxos) >= fee(
                transaction,
                end.utxos,
            ),
        forall|i: int|
            at <= i < start.mempool.len() ==> fee((#[trigger] start.mempool[i]).1, end.utxos) < fee(
                transaction,
                end.utxos,
            ),
    ensures
        end.mempool == start.mempool.insert(at, (now, transaction)),
{
    let n = start.mempool.len() as int;
    let waiting = start.mempool.push((now, transaction));
    let keys = fees(waiting, end.utxos);
    let placed = start.mempool.insert(at, (now, transaction));
    let order = Seq::new(
        (n + 1) as nat,
        |k: int|
            if k < at {
                k
            } else if k == at {
                n
            } else {
                k - 1
            },
    );
    assert forall|k: int| 0 <= k < n implies keys[k] == fee(start.mempool[k].1, end.utxos) by {
        assert(waiting[k] == start.mempool[k]);
    }
    assert(keys[n] == fee(transaction, end.utxos));
    assert forall|k: int| 0 <= k < order.len() implies 0 <= #[trigger] order[k] < waiting.len()
        && placed[k] == waiting[order[k]] by {
    }
    assert forall|i: int, j: int| 0 <= i < j < order.len() implies {
        ||| keys[#[trigger] order[i]] > keys[#[trigger] order[j]]
        ||| keys[order[i]] == keys[order[j]] && order[i] < order[j]
    } by {
        let (a, b) = (order[i], order[j]);
        if a < n {
            assert(keys[a] == fee(start.mempool[a].1, end.utxos));
        }
        if b < n {
            assert(keys[b] == fee(start.mempool[b].1, end.utxos));
        }
    }
    assert(order.no_duplicates());
    assert(is_sorting(waiting, keys, placed, order));
    law_sorting_is_unique(waiting, keys, placed, end.mempool);
}

/// Outputs that have not been marked are not released.
proof fn lemma_nothing_released(
    utxos: Utxos,
    mempool: Seq<(Timestamp, TransactionView)>,
    hashes: Seq<crate::sha256::Hash>,
)
    requires
        forall|i: int|
            0 <= i < hashes.len() ==> utxos.contains_key(#[trigger] hashes[i])
                && !utxos[hashes[i]].0,
    ensures
        all_released(utxos, mempool, hashes) == utxos,
    decreases hashes.len(),
{
    if hashes.len() > 0 {
        let front = hashes.drop_last();
        assert forall|i: int| 0 <= i < front.len() implies utxos.contains_key(#[trigger] front[i])
            && !utxos[front[i]].0 by {
            assert(front[i] == hashes[i]);
        }
        lemma_nothing_released(utxos, mempool, front);
        assert(hashes[hashes.len() - 1] == hashes.last());
    }
}

/// Releasing sets no mark, and takes a mark only from what a waiting transaction
/// spends that creates one of the outputs.
proof fn lemma_release_takes_marks(
    utxos: Utxos,
    mempool: Seq<(Timestamp, TransactionView)>,
    hashes: Seq<crate::sha256::Hash>,
    hash: crate::sha256::Hash,
)
    requires
        utxos.contains_key(hash),
    ensures
        all_released(utxos, mempool, hashes).contains_key(hash),
        all_released(utxos, mempool, hashes)[hash].0 ==> utxos[hash].0,
        utxos[hash].0 && !all_released(utxos, mempool, hashes)[hash].0 ==> exists|k: int, m: int|
            0 <= k < hashes.len() && 0 <= m < mempool.len() && #[trigger] gives_up(
                mempool[m].1,
                hashes[k],
                hash,
            ),
    decreases hashes.len(),
{
    if hashes.len() > 0 {
        let front = hashes.drop_last();
        let before = all_released(utxos, mempool, front);
        let last = hashes.last();
        lemma_release_takes_marks(utxos, mempool, front, hash);
        if utxos[hash].0 && !all_released(utxos, mempool, hashes)[hash].0 {
            if before[hash].0 {
                let m = choose|i: int| is_first_creator(mempool, last, i);
                assert(gives_up(mempool[m].1, hashes[hashes.len() - 1], hash)) by {
                    let ids = output_hashes(mempool[m].1.outputs);
                    let o = choose|o: int| 0 <= o < ids.len() && ids[o] == last;
                    assert(mempool[m].1.outputs[o].id() == last);
                    let ins = input_hashes(mempool[m].1.inputs);
                    let i = choose|i: int| 0 <= i < ins.len() && ins[i] == hash;
                    assert(mempool[m].1.inputs[i].prev_transaction_output_hash == hash);
                }
            } else {
                let (k, m) = choose|k: int, m: int|
                    0 <= k < front.len() && 0 <= m < mempool.len() && #[trigger] gives_up(
                        mempool[m].1,
                        front[k],
                        hash,
                    );
                assert(front[k] == hashes[k]);
                assert(gives_up(mempool[m].1, hashes[k], hash));
            }
        }
    }
}

/// Whether a transaction creates an output and spends another one.
pub open spec fn gives_up(
    transaction: TransactionView,
    created: crate::sha256::Hash,
    spent: crate::sha256::Hash,
) -> bool {
    &&& exists|o: int|
        0 <= o < transaction.outputs.len() && (#[trigger] transaction.outputs[o]).id() == created
    &&& exists|i: int|
        0 <= i < transaction.inputs.len() && (
        #[trigger] transaction.inputs[i]).prev_transaction_output_hash == spent
}

/// What an admitted transaction spends is marked. If none of it was marked before,
/// all other outputs stay as they were.
pub proof fn law_admission_marks_the_inputs(
    start: ChainView,
    transaction: TransactionView,
    now: Timestamp,
    end: ChainView,
    hash: crate::sha256::Hash,
)
    requires
        start.pooled(transaction, now, Ok::<(), BlockChainError>(()), end),
        forall|i: int|
            0 <= i < transaction.inputs.len() ==> !start.utxos[(
            #[trigger] transaction.inputs[i]).prev_transaction_output_hash].0,
    ensures
        end.utxos.contains_key(hash) <==> start.utxos.contains_key(hash),
        start.utxos.contains_key(hash) ==> end.utxos[hash].1 == start.utxos[hash].1,
        start.utxos.contains_key(hash) ==> end.utxos[hash].0 == (start.utxos[hash].0 || exists|
            i: int,
        |
            0 <= i < transaction.inputs.len() && (
            #[trigger] transaction.inputs[i]).prev_transaction_output_hash == hash),
{
    let hashes = input_hashes(transaction.inputs);
    assert forall|i: int| 0 <= i < hashes.len() implies start.utxos.contains_key(
        #[trigger] hashes[i],
    ) && !start.utxos[hashes[i]].0 by {
        assert(hashes[i] == transaction.inputs[i].prev_transaction_output_hash);
    }
    lemma_nothing_released(start.utxos, start.mempool, hashes);
    if hashes.contains(hash) {
        let i = choose|i: int| 0 <= i < hashes.len() && hashes[i] == hash;
        assert(transaction.inputs[i].prev_transaction_output_hash == hash);
    }
    if exists|i: int|
        0 <= i < transaction.inputs.len() && (
        #[trigger] transaction.inputs[i]).prev_transaction_output_hash == hash {
        let i = choose|i: int|
            0 <= i < transaction.inputs.len() && (
            #[trigger] transaction.inputs[i]).prev_transaction_output_hash == hash;
        assert(hashes[i] == hash);
    }
}

/// Handing a transaction over sets no mark but those of what it spends, and takes
/// the mark only from what a waiting transaction spends that creates one of the
/// outputs which the new one spends.
pub proof fn law_marks_of_others(
    start: ChainView,
    transaction: TransactionView,
    now: Timestamp,
    r: Result<(), BlockChainError>,
    end: ChainView,
    hash: crate::sha256::Hash,
)
    requires
        start.pooled(transaction, now, r, end),
        start.utxos.contains_key(hash),
        forall|i: int|
            0 <= i < transaction.inputs.len() ==> (
            #[trigger] transaction.inputs[i]).prev_transaction_output_hash != hash,
    ensures
        end.utxos.contains_key(hash),
        end.utxos[hash].0 ==> start.utxos[hash].0,
        start.utxos[hash].0 && !end.utxos[hash].0 ==> exists|i: int, m: int|
            {
                &&& 0 <= i < transaction.inputs.len()
                &&& 0 <= m < start.mempool.len()
                &&& #[trigger] gives_up(
                    start.mempool[m].1,
                    transaction.inputs[i].prev_transaction_output_hash,
                    hash,
                )
            },
{
    let hashes = input_hashes(transaction.inputs);
    lemma_release_takes_marks(start.utxos, start.mempool, hashes, hash);
    if hashes.contains(hash) {
        let i = choose|i: int| 0 <= i < hashes.len() && hashes[i] == hash;
        assert(transaction.inputs[i].prev_transaction_output_hash == hash);
    }
    if start.utxos[hash].0 && !end.utxos[hash].0 {
        let (k, m) = choose|k: int, m: int|
            0 <= k < hashes.len() && 0 <= m < start.mempool.len() && #[trigger] gives_up(
                start.mempool[m].1,
                hashes[k],
                hash,
            );
        assert(hashes[k] == transaction.inputs[k].prev_transaction_output_hash);
        assert(gives_up(
            start.mempool[m].1,
            transaction.inputs[k].prev_transaction_output_hash,
            hash,
        ));
    }
}

/// Releasing goes on from what has been released, and sets no mark.
proof fn lemma_marks_stay_off(
    utxos: Utxos,
    mempool: Seq<(Timestamp, TransactionView)>,
    hashes: Seq<crate::sha256::Hash>,
    n: int,
    hash: crate::sha256::Hash,
)
    requires
        0 <= n <= hashes.len(),
        utxos.contains_key(hash),
        !all_released(utxos, mempool, hashes.take(n))[hash].0,
    ensures
        !all_released(utxos, mempool, hashes)[hash].0,
    decreases hashes.len() - n,
{
    if n < hashes.len() {
        lemma_all_released_same(utxos, mempool, hashes.take(n));
        assert(hashes.take(n + 1).drop_last() =~= hashes.take(n));
        lemma_marks_stay_off(utxos, mempool, hashes, n + 1, hash);
    } else {
        assert(hashes.take(n) =~= hashes);
    }
}

/// The first marked output that a transaction spends is released: the first waiting
/// transaction that creates it no longer marks what it spends, but for what the new
/// one spends.
pub proof fn law_marked_output_is_released(
    start: ChainView,
    transaction: TransactionView,
    now: Timestamp,
    end: ChainView,
    k: int,
    m: int,
    i: int,
)
    requires
        start.pooled(transaction, now, Ok::<(), BlockChainError>(()), end),
        0 <= k < transaction.inputs.len(),
        start.utxos[transaction.inputs[k].prev_transaction_output_hash].0,
        forall|j: int|
            0 <= j < k ==> !start.utxos[(
            #[trigger] transaction.inputs[j]).prev_transaction_output_hash].0,
        0 <= m < start.mempool.len(),
        exists|o: int|
            0 <= o < start.mempool[m].1.outputs.len() && (
            #[trigger] start.mempool[m].1.outputs[o]).id()
                == transaction.inputs[k].prev_transaction_output_hash,
        forall|w: int, o: int|
            0 <= w < m && 0 <= o < start.mempool[w].1.outputs.len() ==> (
            #[trigger] start.mempool[w].1.outputs[o]).id()
                != transaction.inputs[k].prev_transaction_output_hash,
        0 <= i < start.mempool[m].1.inputs.len(),
        start.utxos.contains_key(start.mempool[m].1.inputs[i].prev_transaction_output_hash),
        forall|j: int|
            0 <= j < transaction.inputs.len() ==> (
            #[trigger] transaction.inputs[j]).prev_transaction_output_hash
                != start.mempool[m].1.inputs[i].prev_transaction_output_hash,
    ensures
        !end.utxos[start.mempool[m].1.inputs[i].prev_transaction_output_hash].0,
{
    let hashes = input_hashes(transaction.inputs);
    let (utxos, pool) = (start.utxos, start.mempool);
    let claimed = hashes[k];
    let hash = pool[m].1.inputs[i].prev_transaction_output_hash;
    let front = hashes.take(k);
    assert(claimed == transaction.inputs[k].prev_transaction_output_hash);
    assert forall|j: int| 0 <= j < front.len() implies utxos.contains_key(#[trigger] front[j])
        && !utxos[front[j]].0 by {
        assert(front[j] == hashes[j]);
        assert(hashes[j] == transaction.inputs[j].prev_transaction_output_hash);
    }
    lemma_nothing_released(utxos, pool, front);
    assert(hashes.take(k + 1).drop_last() =~= front);
    assert(hashes.take(k + 1).last() == claimed);
    let o = choose|o: int|
        0 <= o < pool[m].1.outputs.len() && (#[trigger] pool[m].1.outputs[o]).id() == claimed;
    assert(output_hashes(pool[m].1.outputs)[o] == claimed);
    assert forall|w: int| 0 <= w < m implies !output_hashes(
        (#[trigger] pool[w]).1.outputs,
    ).contains(claimed) by {
        let ids = output_hashes(pool[w].1.outputs);
        if ids.contains(claimed) {
            let p = choose|p: int| 0 <= p < ids.len() && ids[p] == claimed;
            assert(pool[w].1.outputs[p].id() == claimed);
        }
    }
    assert(is_first_creator(pool, claimed, m));
    let chosen = choose|j: int| is_first_creator(pool, claimed, j);
    assert(is_first_creator(pool, claimed, chosen));
    assert(chosen == m) by {
        if chosen < m {
            assert(output_hashes(pool[chosen].1.outputs).contains(claimed));
        } else if m < chosen {
            assert(output_hashes(pool[m].1.outputs).contains(claimed));
        }
    }
    assert(utxos.contains_key(claimed));
    let ins = input_hashes(pool[m].1.inputs);
    assert(ins[i] == hash);
    assert(ins.contains(hash));
    assert(!released(utxos, pool, claimed)[hash].0);
    assert(all_released(utxos, pool, hashes.take(k + 1)) == released(utxos, pool, claimed));
    lemma_marks_stay_off(utxos, pool, hashes, k + 1, hash);
    lemma_all_released_same(utxos, pool, hashes);
    if hashes.contains(hash) {
        let j = choose|j: int| 0 <= j < hashes.len() && hashes[j] == hash;
        assert(transaction.inputs[j].prev_transaction_output_hash == hash);
    }
}

/// When a block is appended, every waiting transaction is looked at: it leaves if a
/// transaction of the block has its hash, and keeps its place among the others if
/// none has.
pub proof fn law_confirmed_transactions_leave_one_by_one(
    front: Seq<(Timestamp, TransactionView)>,
    entry: (Timestamp, TransactionView),
    back: Seq<(Timestamp, TransactionView)>,
    block: BlockView,
)
    ensures
        ({
            let confirmed = exists|t: int|
                0 <= t < block.transactions.len() && (#[trigger] block.transactions[t]).id()
                    == entry.1.id();
            without_confirmed(front + seq![entry] + back, block) == without_confirmed(front, block)
                + (if confirmed {
                Seq::empty()
            } else {
                seq![entry]
            }) + without_confirmed(back, block)
        }),
        without_confirmed(Seq::empty(), block).len() == 0,
{
    let keep = |e: (Timestamp, TransactionView)|
        !transaction_ids(block.transactions).contains(e.1.id());
    lemma_filter_parts(front, entry, back, keep);
    let ids = transaction_ids(block.transactions);
    if ids.contains(entry.1.id()) {
        let t = choose|t: int| 0 <= t < ids.len() && ids[t] == entry.1.id();
        assert(block.transactions[t].id() == entry.1.id());
    }
    if exists|t: int|
        0 <= t < block.transactions.len() && (#[trigger] block.transactions[t]).id()
            == entry.1.id() {
        let t = choose|t: int|
            0 <= t < block.transactions.len() && (#[trigger] block.transactions[t]).id()
                == entry.1.id();
        assert(ids[t] == entry.1.id());
    }
}

/// A cleanup looks at every waiting transaction: it leaves if it has waited for 3600
/// seconds, and keeps its place among the others if it has not.
pub proof fn law_old_transactions_leave_one_by_one(
    front: Seq<(Timestamp, TransactionView)>,
    entry: (Timestamp, TransactionView),
    back: Seq<(Timestamp, TransactionView)>,
    now: Timestamp,
)
    ensures
        still_young(front + seq![entry] + back, now) == still_young(front, now) + (
        if now.elapsed_since(entry.0) >= 3600 {
            Seq::empty()
        } else {
            seq![entry]
        }) + still_young(back, now),
        still_young(Seq::empty(), now).len() == 0,
{
    let keep = |e: (Timestamp, TransactionView)|
        now.elapsed_since(e.0) < crate::MAX_MEMPOOL_TRANSACTION_AGE;
    lemma_filter_parts(front, entry, back, keep);
}

/// What is filtered is filtered one by one.
proof fn lemma_filter_parts<A>(front: Seq<A>, x: A, back: Seq<A>, keep: spec_fn(A) -> bool)
    ensures
        (front + seq![x] + back).filter(keep) == front.filter(keep) + (if keep(x) {
            seq![x]
        } else {
            Seq::empty()
        }) + back.filter(keep),
        Seq::<A>::empty().filter(keep).len() == 0,
    decreases back.len(),
{
    reveal(Seq::filter);
    let all = front + seq![x] + back;
    if back.len() > 0 {
        assert(all.drop_last() =~= front + seq![x] + back.drop_last());
        lemma_filter_parts(front, x, back.drop_last(), keep);
    } else {
        assert(all.drop_last() =~= front);
    }
    assert(all.filter(keep) =~= front.filter(keep) + (if keep(x) {
        seq![x]
    } else {
        Seq::empty()
    }) + back.filter(keep));
}

/// A chain to which a block has been appended ends with the block. Its other blocks
/// and its unspent outputs stay.
pub proof fn law_appended_block_is_last(chain: ChainView, block: BlockView, target: crate::u256::U256)
    ensures
        chain.appended(block, target).blocks.len() == chain.blocks.len() + 1,
        chain.appended(block, target).blocks.last() == block,
        chain.appended(block, target).blocks.drop_last() == chain.blocks,
        chain.appended(block, target).utxos == chain.utxos,
        chain.appended(block, target).target == target,
{
    assert(chain.blocks.push(block).drop_last() =~= chain.blocks);
}

/// All that waits can be ranked if and only if every input of every waiting
/// transaction refers to an unspent output.
pub proof fn law_ranking_needs_every_input(
    mempool: Seq<(Timestamp, TransactionView)>,
    utxos: Utxos,
)
    ensures
        pool_known(mempool, utxos) <==> forall|m: int, i: int|
            0 <= m < mempool.len() && 0 <= i < mempool[m].1.inputs.len() ==> utxos.contains_key(
                (#[trigger] mempool[m].1.inputs[i]).prev_transaction_output_hash,
            ),
{
    if pool_known(mempool, utxos) {
        assert forall|m: int, i: int|
            0 <= m < mempool.len() && 0 <= i
                < mempool[m].1.inputs.len() implies utxos.contains_key(
            (#[trigger] mempool[m].1.inputs[i]).prev_transaction_output_hash,
        ) by {
            let hashes = input_hashes(mempool[m].1.inputs);
            assert(all_known(hashes, utxos));
            assert(utxos.contains_key(hashes[i]));
        }
    } else {
        let m = choose|m: int|
            0 <= m < mempool.len() && !all_known(
                input_hashes((#[trigger] mempool[m]).1.inputs),
                utxos,
            );
        let hashes = input_hashes(mempool[m].1.inputs);
        let i = choose|i: int| 0 <= i < hashes.len() && !utxos.contains_key(#[trigger] hashes[i]);
        assert(mempool[m].1.inputs[i].prev_transaction_output_hash == hashes[i]);
    }
}

/// Changing marks changes those of the given outputs, as far as they are known, and
/// nothing else.
pub proof fn law_marking(
    utxos: Utxos,
    hashes: Seq<crate::sha256::Hash>,
    mark: bool,
    hash: crate::sha256::Hash,
)
    ensures
        marked(utxos, hashes, mark).contains_key(hash) <==> utxos.contains_key(hash),
        utxos.contains_key(hash) ==> marked(utxos, hashes, mark)[hash].1 == utxos[hash].1,
        utxos.contains_key(hash) ==> marked(utxos, hashes, mark)[hash].0 == if hashes.contains(
            hash,
        ) {
            mark
        } else {
            utxos[hash].0
        },
{
}

/// Outputs are released one after the other.
pub proof fn law_release_goes_one_by_one(
    utxos: Utxos,
    mempool: Seq<(Timestamp, TransactionView)>,
    hashes: Seq<crate::sha256::Hash>,
    hash: crate::sha256::Hash,
)
    ensures
        all_released(utxos, mempool, hashes.push(hash)) == released(
            all_released(utxos, mempool, hashes),
            mempool,
            hash,
        ),
        all_released(utxos, mempool, Seq::empty()) == utxos,
        !utxos.contains_key(hash) || !utxos[hash].0 ==> released(utxos, mempool, hash) == utxos,
{
    assert(hashes.push(hash).drop_last() =~= hashes);
}

/// An output that no waiting transaction creates is not released.
pub proof fn law_release_needs_a_creator(
    utxos: Utxos,
    mempool: Seq<(Timestamp, TransactionView)>,
    hash: crate::sha256::Hash,
)
    requires
        forall|m: int, o: int|
            0 <= m < mempool.len() && 0 <= o < mempool[m].1.outputs.len() ==> (
            #[trigger] mempool[m].1.outputs[o]).id() != hash,
    ensures
        released(utxos, mempool, hash) == utxos,
{
    assert forall|m: int| !is_first_creator(mempool, hash, m) by {
        if is_first_creator(mempool, hash, m) {
            let ids = output_hashes(mempool[m].1.outputs);
            let o = choose|o: int| 0 <= o < ids.len() && ids[o] == hash;
            assert(mempool[m].1.outputs[o].id() == hash);
        }
    }
}

/// A transaction that is refused sets no mark.
pub proof fn law_refused_transaction_marks_nothing(
    start: ChainView,
    transaction: TransactionView,
    now: Timestamp,
    r: Result<(), BlockChainError>,
    end: ChainView,
    hash: crate::sha256::Hash,
)
    requires
        start.pooled(transaction, now, r, end),
        r is Err,
    ensures
        end.utxos.contains_key(hash) <==> start.utxos.contains_key(hash),
        start.utxos.contains_key(hash) ==> end.utxos[hash].1 == start.utxos[hash].1,
        start.utxos.contains_key(hash) && end.utxos[hash].0 ==> start.utxos[hash].0,
        end.mempool == start.mempool,
{
    let hashes = input_hashes(transaction.inputs);
    lemma_all_released_same(start.utxos, start.mempool, hashes);
    if start.utxos.contains_key(hash) {
        lemma_release_takes_marks(start.utxos, start.mempool, hashes, hash);
    }
}

} // verus!
