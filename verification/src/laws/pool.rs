//! The transactions that wait for a block.

use crate::error::BlockChainError;
use crate::time::Timestamp;
use crate::types::block::{input_hashes, BlockView};
use crate::types::blockchain::{all_released, fee, fees, is_admissible, is_sorting,
    lemma_all_released_same, lemma_push_contains, marked, same_outputs, stably_sorted, still_young,
    without_confirmed, ChainView};
use crate::types::transaction::TransactionView;
use crate::util::transaction_ids;
use vstd::prelude::*;
use vstd::set_lib::{lemma_int_range, lemma_subset_equality, set_int_range};

verus! {

/// A list of as many different positions as there are holds every position.
proof fn lemma_covers(order: Seq<int>, n: int, k: int)
    requires
        order.len() == n,
        order.no_duplicates(),
        forall|i: int| 0 <= i < n ==> 0 <= #[trigger] order[i] < n,
        0 <= k < n,
    ensures
        order.contains(k),
{
    let all = set_int_range(0, n);
    let have = order.to_set();
    lemma_int_range(0, n);
    order.unique_seq_to_set();
    vstd::seq_lib::seq_to_set_is_finite(order);
    assert(have.subset_of(all));
    lemma_subset_equality(have, all);
    assert(all.contains(k));
    assert(have.contains(k));
}

/// There is one way only to sort, since equal keys keep their order.
pub proof fn law_sorting_is_unique<A>(before: Seq<A>, keys: Seq<nat>, a: Seq<A>, b: Seq<A>)
    requires
        stably_sorted(before, keys, a),
        stably_sorted(before, keys, b),
    ensures
        a == b,
{
    let p = choose|order: Seq<int>| is_sorting(before, keys, a, order);
    let q = choose|order: Seq<int>| is_sorting(before, keys, b, order);
    let n = before.len() as int;
    assert forall|k: int| 0 <= k < n implies #[trigger] p[k] == q[k] by {
        lemma_same_order(before, keys, a, p, b, q, k);
    }
    assert(p =~= q);
    assert(a =~= b) by {
        assert forall|k: int| 0 <= k < n implies a[k] == b[k] by {
            assert(a[k] == before[p[k]] && b[k] == before[q[k]]);
        }
    }
}

/// Two sortings agree at a position, if they do at all positions before it.
proof fn lemma_same_order<A>(
    before: Seq<A>,
    keys: Seq<nat>,
    a: Seq<A>,
    p: Seq<int>,
    b: Seq<A>,
    q: Seq<int>,
    k: int,
)
    requires
        is_sorting(before, keys, a, p),
        is_sorting(before, keys, b, q),
        0 <= k < before.len(),
    ensures
        p[k] == q[k],
    decreases k,
{
    let n = before.len() as int;
    assert forall|j: int| 0 <= j < k implies #[trigger] p[j] == q[j] by {
        lemma_same_order(before, keys, a, p, b, q, j);
    }
    if p[k] != q[k] {
        lemma_covers(p, n, q[k]);
        let i = choose|i: int| 0 <= i < p.len() && p[i] == q[k];
        lemma_covers(q, n, p[k]);
        let j = choose|j: int| 0 <= j < q.len() && q[j] == p[k];
        assert(i > k) by {
            if i < k {
                assert(p[i] == q[i]);
            }
        }
        assert(j > k) by {
            if j < k {
                assert(p[j] == q[j]);
            }
        }
    }
}

/// What was sorted holds what was there before, and nothing else.
pub proof fn law_sorting_keeps_everything<A>(before: Seq<A>, keys: Seq<nat>, after: Seq<A>, x: A)
    requires
        stably_sorted(before, keys, after),
    ensures
        after.len() == before.len(),
        after.contains(x) <==> before.contains(x),
{
    let order = choose|order: Seq<int>| is_sorting(before, keys, after, order);
    if after.contains(x) {
        let i = choose|i: int| 0 <= i < after.len() && after[i] == x;
        assert(before[order[i]] == x);
    }
    if before.contains(x) {
        let k = choose|k: int| 0 <= k < before.len() && before[k] == x;
        lemma_covers(order, before.len() as int, k);
        let i = choose|i: int| 0 <= i < order.len() && order[i] == k;
        assert(after[i] == before[order[i]]);
        assert(after[i] == x);
    }
}

/// Once a transaction has been admitted, it waits together with those that waited
/// before.
pub proof fn law_admitted_transaction_waits(
    start: ChainView,
    transaction: TransactionView,
    now: Timestamp,
    end: ChainView,
    entry: (Timestamp, TransactionView),
)
    requires
        start.pooled(transaction, now, Ok::<(), BlockChainError>(()), end),
    ensures
        end.mempool.len() == start.mempool.len() + 1,
        end.mempool.contains(entry) <==> start.mempool.contains(entry) || entry == (
            now,
            transaction,
        ),
{
    let waiting = start.mempool.push((now, transaction));
    law_sorting_keeps_everything(waiting, fees(waiting, end.utxos), end.mempool, entry);
    if start.mempool.contains(entry) {
        let i = choose|i: int| 0 <= i < start.mempool.len() && start.mempool[i] == entry;
        assert(waiting[i] == entry);
    }
    if waiting.contains(entry) {
        let i = choose|i: int| 0 <= i < waiting.len() && waiting[i] == entry;
        if i < start.mempool.len() {
            assert(start.mempool[i] == entry);
        }
    }
    assert(waiting[start.mempool.len() as int] == (now, transaction));
}

/// After a transaction has been admitted, no waiting transaction leaves a larger
/// fee than one before it.
pub proof fn law_best_fees_come_first(
    start: ChainView,
    transaction: TransactionView,
    now: Timestamp,
    end: ChainView,
    i: int,
    j: int,
)
    requires
        start.pooled(transaction, now, Ok::<(), BlockChainError>(()), end),
        0 <= i < j < end.mempool.len(),
    ensures
        fee(end.mempool[i].1, end.utxos) >= fee(end.mempool[j].1, end.utxos),
{
    let waiting = start.mempool.push((now, transaction));
    let keys = fees(waiting, end.utxos);
    let order = choose|order: Seq<int>| is_sorting(waiting, keys, end.mempool, order);
    assert(is_sorting(waiting, keys, end.mempool, order));
    assert(end.mempool[i] == waiting[order[i]] && end.mempool[j] == waiting[order[j]]);
    assert(keys[order[i]] == fee(waiting[order[i]].1, end.utxos));
    assert(keys[order[j]] == fee(waiting[order[j]].1, end.utxos));
}

/// After a transaction has been admitted, all that it spends is marked.
pub proof fn law_admitted_inputs_are_marked(
    start: ChainView,
    transaction: TransactionView,
    now: Timestamp,
    end: ChainView,
    i: int,
)
    requires
        start.pooled(transaction, now, Ok::<(), BlockChainError>(()), end),
        0 <= i < transaction.inputs.len(),
    ensures
        end.utxos.contains_key(transaction.inputs[i].prev_transaction_output_hash),
        end.utxos[transaction.inputs[i].prev_transaction_output_hash].0,
{
    let hashes = input_hashes(transaction.inputs);
    lemma_all_released_same(start.utxos, start.mempool, hashes);
    assert(hashes[i] == transaction.inputs[i].prev_transaction_output_hash);
    assert(hashes.contains(hashes[i]));
    assert(start.utxos.contains_key(hashes[i]));
}

/// Whatever becomes of a transaction, the blocks, the target and the outputs stay:
/// the marks of the outputs are all that changes outside the waiting ones. If it
/// is refused, the waiting ones stay too.
pub proof fn law_pooling_changes_marks_only(
    start: ChainView,
    transaction: TransactionView,
    now: Timestamp,
    r: Result<(), BlockChainError>,
    end: ChainView,
)
    requires
        start.pooled(transaction, now, r, end),
    ensures
        end.blocks == start.blocks,
        end.target == start.target,
        same_outputs(start.utxos, end.utxos),
        r is Ok <==> is_admissible(transaction, start.utxos),
        r is Err ==> end.mempool == start.mempool,
{
    let hashes = input_hashes(transaction.inputs);
    lemma_all_released_same(start.utxos, start.mempool, hashes);
    let utxos = all_released(start.utxos, start.mempool, hashes);
    assert(same_outputs(utxos, marked(utxos, hashes, true)));
}

/// A transaction of a block does not wait any longer, and the others do.
pub proof fn law_confirmed_transactions_leave(
    mempool: Seq<(Timestamp, TransactionView)>,
    block: BlockView,
    entry: (Timestamp, TransactionView),
)
    ensures
        without_confirmed(mempool, block).contains(entry) <==> mempool.contains(entry)
            && !transaction_ids(block.transactions).contains(entry.1.id()),
{
    let keep = |e: (Timestamp, TransactionView)|
        !transaction_ids(block.transactions).contains(e.1.id());
    lemma_filter_contains(mempool, keep, entry);
}

/// After a cleanup, a transaction waits if it waited before and is young enough.
pub proof fn law_old_transactions_leave(
    mempool: Seq<(Timestamp, TransactionView)>,
    now: Timestamp,
    entry: (Timestamp, TransactionView),
)
    ensures
        still_young(mempool, now).contains(entry) <==> mempool.contains(entry)
            && now.elapsed_since(entry.0) < crate::MAX_MEMPOOL_TRANSACTION_AGE,
{
    let keep = |e: (Timestamp, TransactionView)|
        now.elapsed_since(e.0) < crate::MAX_MEMPOOL_TRANSACTION_AGE;
    lemma_filter_contains(mempool, keep, entry);
}

/// A filtered sequence contains what the sequence contains and the filter keeps.
proof fn lemma_filter_contains<A>(s: Seq<A>, keep: spec_fn(A) -> bool, x: A)
    ensures
        s.filter(keep).contains(x) <==> s.contains(x) && keep(x),
    decreases s.len(),
{
    reveal(Seq::filter);
    if s.len() > 0 {
        let front = s.drop_last();
        let rest = front.filter(keep);
        lemma_filter_contains(front, keep, x);
        assert(s =~= front.push(s.last()));
        lemma_push_contains(front, s.last(), x);
        lemma_push_contains(rest, s.last(), x);
    }
}

} // verus!
