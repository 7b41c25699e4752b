//! What lists of transactions spend and create, and what it is worth.

use crate::types::block::{after_coinbase, created_outputs, input_hashes, output_hashes, spent_hashes,
    spent_value, Utxos};
use crate::types::transaction::{lemma_total_value_concat, lemma_total_value_one, total_value,
    TransactionInput, TransactionOutput, TransactionView};
use vstd::prelude::*;

verus! {

/// The value of outputs is that of the first ones and that of the others, and one
/// output is worth what it says. So every output counts, wherever it stands.
pub proof fn law_every_output_counts(
    front: Seq<TransactionOutput>,
    output: TransactionOutput,
    back: Seq<TransactionOutput>,
)
    ensures
        total_value(front + seq![output] + back) == total_value(front) + output.value
            + total_value(back),
        total_value(Seq::empty()) == 0,
{
    lemma_total_value_one(output);
    lemma_total_value_concat(front, seq![output]);
    lemma_total_value_concat(front + seq![output], back);
}

/// What is spent is worth what each of the spent outputs is worth, added up: every
/// hash counts, wherever it stands.
pub proof fn law_every_spent_output_counts(
    front: Seq<crate::sha256::Hash>,
    hash: crate::sha256::Hash,
    back: Seq<crate::sha256::Hash>,
    utxos: Utxos,
)
    ensures
        spent_value(front + seq![hash] + back, utxos) == spent_value(front, utxos)
            + utxos[hash].1.value + spent_value(back, utxos),
        spent_value(Seq::empty(), utxos) == 0,
    decreases back.len(),
{
    let all = front + seq![hash] + back;
    if back.len() > 0 {
        assert(all.drop_last() =~= front + seq![hash] + back.drop_last());
        law_every_spent_output_counts(front, hash, back.drop_last(), utxos);
    } else {
        assert(all.drop_last() =~= front);
    }
}

/// A transaction refers to one output by each of its inputs, in their order.
pub proof fn law_inputs_refer_to_outputs(inputs: Seq<TransactionInput>, i: int)
    requires
        0 <= i < inputs.len(),
    ensures
        input_hashes(inputs).len() == inputs.len(),
        input_hashes(inputs)[i] == inputs[i].prev_transaction_output_hash,
{
}

/// Outputs are known by their hashes, in their order.
pub proof fn law_outputs_have_hashes(outputs: Seq<TransactionOutput>, i: int)
    requires
        0 <= i < outputs.len(),
    ensures
        output_hashes(outputs).len() == outputs.len(),
        output_hashes(outputs)[i] == outputs[i].id(),
{
}

/// All transactions of a block but its first come after the coinbase.
pub proof fn law_coinbase_comes_first(transactions: Seq<TransactionView>, t: int)
    requires
        1 <= t < transactions.len(),
    ensures
        after_coinbase(transactions).len() == transactions.len() - 1,
        after_coinbase(transactions)[t - 1] == transactions[t],
{
}

/// What several transactions spend and create is what the first ones do, what one
/// of them does and what the others do, one after the other.
pub proof fn law_every_transaction_counts(
    front: Seq<TransactionView>,
    transaction: TransactionView,
    back: Seq<TransactionView>,
)
    ensures
        spent_hashes(front + seq![transaction] + back) == spent_hashes(front)
            + transaction.inputs.map_values(
            |i: TransactionInput| i.prev_transaction_output_hash,
        ) + spent_hashes(back),
        created_outputs(front + seq![transaction] + back) == created_outputs(front)
            + transaction.outputs + created_outputs(back),
        spent_hashes(Seq::empty()).len() == 0,
        created_outputs(Seq::empty()).len() == 0,
    decreases back.len(),
{
    let all = front + seq![transaction] + back;
    if back.len() > 0 {
        assert(all.drop_last() =~= front + seq![transaction] + back.drop_last());
        law_every_transaction_counts(front, transaction, back.drop_last());
    } else {
        assert(all.drop_last() =~= front);
    }
    assert(spent_hashes(all) =~= spent_hashes(front) + input_hashes(transaction.inputs)
        + spent_hashes(back));
    assert(created_outputs(all) =~= created_outputs(front) + transaction.outputs
        + created_outputs(back));
}

/// The position of an input of a transaction among all that several transactions
/// spend.
pub open spec fn input_place(transactions: Seq<TransactionView>, t: int, i: int) -> int {
    spent_hashes(transactions.take(t)).len() + i
}

/// The position of an output of a transaction among all that several transactions
/// create.
pub open spec fn output_place(transactions: Seq<TransactionView>, t: int, i: int) -> int {
    created_outputs(transactions.take(t)).len() + i
}

/// Inputs and outputs stand at their places.
pub proof fn lemma_places(transactions: Seq<TransactionView>, t: int)
    requires
        0 <= t < transactions.len(),
    ensures
        input_place(transactions, t, transactions[t].inputs.len() as int) <= spent_hashes(
            transactions,
        ).len(),
        forall|i: int|
            0 <= i < transactions[t].inputs.len() ==> spent_hashes(
                transactions,
            )[#[trigger] input_place(transactions, t, i)]
                == transactions[t].inputs[i].prev_transaction_output_hash,
        output_place(transactions, t, transactions[t].outputs.len() as int) <= created_outputs(
            transactions,
        ).len(),
        forall|i: int|
            0 <= i < transactions[t].outputs.len() ==> created_outputs(
                transactions,
            )[#[trigger] output_place(transactions, t, i)] == transactions[t].outputs[i],
        spent_hashes(transactions.take(t + 1)).len() == spent_hashes(transactions.take(t)).len()
            + transactions[t].inputs.len(),
        created_outputs(transactions.take(t + 1)).len() == created_outputs(
            transactions.take(t),
        ).len() + transactions[t].outputs.len(),
{
    let (front, back) = (transactions.take(t), transactions.skip(t + 1));
    assert(transactions =~= front + seq![transactions[t]] + back);
    law_every_transaction_counts(front, transactions[t], back);
    assert(transactions.take(t + 1) =~= front + seq![transactions[t]] + Seq::empty());
    law_every_transaction_counts(front, transactions[t], Seq::empty());
}

/// The places of an earlier transaction come before those of a later one.
pub proof fn lemma_places_ascend(transactions: Seq<TransactionView>, t: int, u: int)
    requires
        0 <= t <= u <= transactions.len(),
    ensures
        spent_hashes(transactions.take(t)).len() <= spent_hashes(transactions.take(u)).len(),
        created_outputs(transactions.take(t)).len() <= created_outputs(transactions.take(u)).len(),
    decreases u - t,
{
    if t < u {
        lemma_places_ascend(transactions, t, u - 1);
        lemma_places(transactions, u - 1);
    }
}

/// Every place of what several transactions spend is that of an input of one.
pub proof fn lemma_input_at(transactions: Seq<TransactionView>, k: int) -> (r: (int, int))
    requires
        0 <= k < spent_hashes(transactions).len(),
    ensures
        0 <= r.0 < transactions.len(),
        0 <= r.1 < transactions[r.0].inputs.len(),
        k == input_place(transactions, r.0, r.1),
    decreases transactions.len(),
{
    let n = transactions.len() - 1;
    let front = transactions.drop_last();
    assert(transactions.take(n) =~= front);
    if k < spent_hashes(front).len() {
        let r = lemma_input_at(front, k);
        assert(front.take(r.0) =~= transactions.take(r.0));
        r
    } else {
        (n, k - spent_hashes(front).len())
    }
}

/// Every place of what several transactions create is that of an output of one.
pub proof fn lemma_output_at(transactions: Seq<TransactionView>, k: int) -> (r: (int, int))
    requires
        0 <= k < created_outputs(transactions).len(),
    ensures
        0 <= r.0 < transactions.len(),
        0 <= r.1 < transactions[r.0].outputs.len(),
        k == output_place(transactions, r.0, r.1),
    decreases transactions.len(),
{
    let n = transactions.len() - 1;
    let front = transactions.drop_last();
    assert(transactions.take(n) =~= front);
    if k < created_outputs(front).len() {
        let r = lemma_output_at(front, k);
        assert(front.take(r.0) =~= transactions.take(r.0));
        r
    } else {
        (n, k - created_outputs(front).len())
    }
}

} // verus!
