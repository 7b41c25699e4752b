//! The payments of a wallet.

use crate::crypto::PublicKey;
use crate::types::block::{all_known, input_hashes, is_authorized, is_signed, output_hashes,
    spent_value, Utxos};
use crate::types::blockchain::{fee, is_admissible};
use crate::types::transaction::{lemma_total_value_concat, lemma_total_value_one, total_value,
    TransactionOutput, TransactionView};
use crate::wallet::{lemma_surplus, owner, selected, signer, spends, unspent, Core, LoadedKey};
use vstd::prelude::*;

verus! {

/// What is selected: the first outputs there are.
proof fn lemma_selected_is_front(available: Seq<TransactionOutput>, needed: int)
    ensures
        selected(available, needed).len() <= available.len(),
        selected(available, needed) == available.take(selected(available, needed).len() as int),
    decreases available.len(),
{
    let chosen = selected(available, needed);
    if available.len() > 0 {
        let rest = available.drop_first();
        if available[0].value < needed {
            lemma_selected_is_front(rest, needed - available[0].value);
            assert(chosen =~= available.take(chosen.len() as int));
        } else {
            assert(chosen =~= available.take(1));
        }
    } else {
        assert(chosen =~= available.take(0));
    }
}

/// A payment is worth what it spends: its outputs and the fee are worth as much
/// as the outputs that it spends.
pub proof fn law_payment_conserves_value(
    core: Core,
    recipient: PublicKey,
    amount: u64,
    fee: u64,
    payment_id: u128,
    change_id: u128,
    tx: TransactionView,
)
    requires
        core.can_pay(amount, fee),
        core.pays(recipient, amount, fee, payment_id, change_id, tx),
    ensures
        total_value(tx.outputs) + fee == total_value(
            selected(unspent(core.utxos@), amount + fee),
        ),
        tx.outputs[0].value == amount,
        tx.outputs[0].pubkey == recipient,
{
    let chosen = selected(unspent(core.utxos@), amount + fee);
    lemma_surplus(unspent(core.utxos@), amount + fee);
    let change = (total_value(chosen) - amount - fee) as u64;
    lemma_total_value_one(tx.outputs[0]);
    if change > 0 {
        lemma_total_value_one(tx.outputs[1]);
        assert(tx.outputs =~= seq![tx.outputs[0]] + seq![tx.outputs[1]]);
        lemma_total_value_concat(seq![tx.outputs[0]], seq![tx.outputs[1]]);
    } else {
        assert(tx.outputs =~= seq![tx.outputs[0]]);
    }
}

/// Once a payment is confirmed, what is left to the wallet, with the change, is
/// the balance before it, less the amount and the fee.
pub proof fn law_balance_falls_by_amount_and_fee(
    core: Core,
    recipient: PublicKey,
    amount: u64,
    fee: u64,
    payment_id: u128,
    change_id: u128,
    tx: TransactionView,
)
    requires
        core.can_pay(amount, fee),
        core.pays(recipient, amount, fee, payment_id, change_id, tx),
    ensures
        ({
            let available = unspent(core.utxos@);
            let kept = available.skip(tx.inputs.len() as int);
            let change = tx.outputs.skip(1);
            total_value(kept) + total_value(change) == total_value(available) - amount - fee
        }),
{
    let available = unspent(core.utxos@);
    let chosen = selected(available, amount + fee);
    let n = chosen.len() as int;
    lemma_selected_is_front(available, amount + fee);
    assert(available =~= available.take(n) + available.skip(n));
    lemma_total_value_concat(available.take(n), available.skip(n));
    law_payment_conserves_value(core, recipient, amount, fee, payment_id, change_id, tx);
    assert(tx.outputs =~= seq![tx.outputs[0]] + tx.outputs.skip(1));
    lemma_total_value_one(tx.outputs[0]);
    lemma_total_value_concat(seq![tx.outputs[0]], tx.outputs.skip(1));
}

/// Whether outputs are known under their hashes.
pub open spec fn are_known(outputs: Seq<TransactionOutput>, utxos: Utxos) -> bool {
    forall|i: int|
        0 <= i < outputs.len() ==> {
            &&& utxos.contains_key((#[trigger] outputs[i]).id())
            &&& utxos[outputs[i].id()].1 == outputs[i]
        }
}

/// What is spent is worth what the outputs are.
proof fn lemma_spent_value(outputs: Seq<TransactionOutput>, utxos: Utxos)
    requires
        are_known(outputs, utxos),
    ensures
        spent_value(output_hashes(outputs), utxos) == total_value(outputs),
    decreases outputs.len(),
{
    if outputs.len() > 0 {
        let front = outputs.drop_last();
        assert(output_hashes(outputs).drop_last() =~= output_hashes(front));
        assert forall|i: int| 0 <= i < front.len() implies {
            &&& utxos.contains_key((#[trigger] front[i]).id())
            &&& utxos[front[i].id()].1 == front[i]
        } by {
            assert(front[i] == outputs[i]);
        }
        lemma_spent_value(front, utxos);
        assert(outputs[outputs.len() - 1] == outputs.last());
    }
}

/// A node that knows what a payment spends, each output once, admits it and finds
/// the fee.
pub proof fn law_payment_is_admissible(
    core: Core,
    recipient: PublicKey,
    amount: u64,
    paid_fee: u64,
    payment_id: u128,
    change_id: u128,
    tx: TransactionView,
    utxos: Utxos,
)
    requires
        core.can_pay(amount, paid_fee),
        core.pays(recipient, amount, paid_fee, payment_id, change_id, tx),
        are_known(selected(unspent(core.utxos@), amount + paid_fee), utxos),
        output_hashes(selected(unspent(core.utxos@), amount + paid_fee)).no_duplicates(),
    ensures
        is_admissible(tx, utxos),
        fee(tx, utxos) == paid_fee,
{
    let chosen = selected(unspent(core.utxos@), amount + paid_fee);
    law_payment_conserves_value(core, recipient, amount, paid_fee, payment_id, change_id, tx);
    lemma_inputs(core, recipient, amount, paid_fee, payment_id, change_id, tx, utxos);
    lemma_spent_value(chosen, utxos);
}

/// A payment refers to the selected outputs.
proof fn lemma_inputs(
    core: Core,
    recipient: PublicKey,
    amount: u64,
    paid_fee: u64,
    payment_id: u128,
    change_id: u128,
    tx: TransactionView,
    utxos: Utxos,
)
    requires
        core.pays(recipient, amount, paid_fee, payment_id, change_id, tx),
        are_known(selected(unspent(core.utxos@), amount + paid_fee), utxos),
    ensures
        input_hashes(tx.inputs) == output_hashes(
            selected(unspent(core.utxos@), amount + paid_fee),
        ),
        all_known(input_hashes(tx.inputs), utxos),
{
    let chosen = selected(unspent(core.utxos@), amount + paid_fee);
    let keys = core.utxo_store@.my_keys;
    let (a, b) = (input_hashes(tx.inputs), output_hashes(chosen));
    assert forall|i: int| 0 <= i < a.len() implies a[i] == b[i] by {
        assert(spends(tx.inputs[i], chosen[i], signer(keys, chosen[i]).private_key));
    }
    assert(a =~= b);
    assert forall|i: int| 0 <= i < a.len() implies utxos.contains_key(#[trigger] a[i]) by {
        assert(a[i] == chosen[i].id());
    }
}

/// Whether a key pair belongs together.
pub open spec fn is_pair(key: LoadedKey) -> bool {
    key.private_key.has_public_key(key.public_key)
}

/// Whether a wallet owns outputs: it has a key pair for each.
pub open spec fn owns(keys: Seq<LoadedKey>, outputs: Seq<TransactionOutput>) -> bool {
    forall|i: int|
        0 <= i < outputs.len() ==> owner(keys, (#[trigger] outputs[i]).pubkey) is Some
}

/// The owner of an output is a key pair of the wallet with its public key.
proof fn lemma_owner(keys: Seq<LoadedKey>, public_key: PublicKey)
    requires
        forall|i: int| 0 <= i < keys.len() ==> is_pair(#[trigger] keys[i]),
        owner(keys, public_key) is Some,
    ensures
        owner(keys, public_key).unwrap().public_key == public_key,
        is_pair(owner(keys, public_key).unwrap()),
    decreases keys.len(),
{
    if keys.len() > 0 {
        if keys[0].public_key == public_key {
            assert(is_pair(keys[0]));
        } else {
            let rest = keys.drop_first();
            assert forall|i: int| 0 <= i < rest.len() implies is_pair(#[trigger] rest[i]) by {
                assert(rest[i] == keys[i + 1]);
            }
            lemma_owner(rest, public_key);
        }
    }
}

/// A payment from outputs that the wallet owns carries signatures that every node
/// which knows the outputs verifies.
pub proof fn law_payment_is_authorized(
    core: Core,
    recipient: PublicKey,
    amount: u64,
    paid_fee: u64,
    payment_id: u128,
    change_id: u128,
    tx: TransactionView,
    utxos: Utxos,
)
    requires
        core.can_pay(amount, paid_fee),
        core.pays(recipient, amount, paid_fee, payment_id, change_id, tx),
        are_known(selected(unspent(core.utxos@), amount + paid_fee), utxos),
        owns(core.utxo_store@.my_keys, selected(unspent(core.utxos@), amount + paid_fee)),
        forall|i: int|
            0 <= i < core.utxo_store@.my_keys.len() ==> is_pair(
                #[trigger] core.utxo_store@.my_keys[i],
            ),
    ensures
        is_authorized(tx, utxos),
{
    let chosen = selected(unspent(core.utxos@), amount + paid_fee);
    let keys = core.utxo_store@.my_keys;
    law_payment_conserves_value(core, recipient, amount, paid_fee, payment_id, change_id, tx);
    lemma_inputs(core, recipient, amount, paid_fee, payment_id, change_id, tx, utxos);
    lemma_spent_value(chosen, utxos);
    assert forall|i: int| 0 <= i < tx.inputs.len() implies is_signed(
        #[trigger] tx.inputs[i],
        utxos,
    ) by {
        let output = chosen[i];
        let key = signer(keys, output);
        assert(spends(tx.inputs[i], output, key.private_key));
        assert(owner(keys, output.pubkey) is Some);
        lemma_owner(keys, output.pubkey);
        assert(key.private_key.has_public_key(output.pubkey));
        assert(tx.inputs[i].signature.verifies(output.id(), output.pubkey));
    }
}

} // verus!
