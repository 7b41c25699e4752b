//! What a wallet selects, pays, signs and remembers.

use crate::bytes::be_bytes;
use crate::cbor::{cbor_bytes, ToCbor};
use crate::crypto::{ecdsa_signature, PublicKey};
use crate::network::MessageView;
use crate::types::transaction::{lemma_total_value_concat, lemma_total_value_one, total_value,
    TransactionOutput, TransactionView};
use crate::wallet::{is_first_named, lemma_surplus, owner, received, recorded, selected, signer,
    spends, unspent, Core, LoadedKey, Outputs, Recipient, WalletError};
use vstd::prelude::*;

verus! {

/// Every output of a wallet that is not about to be spent is available, in its place,
/// and no other is.
pub proof fn law_every_unspent_output_is_available(
    front: Outputs,
    entry: (TransactionOutput, bool),
    back: Outputs,
)
    ensures
        unspent(front + seq![entry] + back) == unspent(front) + (if entry.1 {
            Seq::empty()
        } else {
            seq![entry.0]
        }) + unspent(back),
        unspent(Seq::empty()).len() == 0,
    decreases front.len(),
{
    let all = front + seq![entry] + back;
    if front.len() > 0 {
        assert(all.drop_first() =~= front.drop_first() + seq![entry] + back);
        law_every_unspent_output_is_available(front.drop_first(), entry, back);
    } else {
        assert(all.drop_first() =~= back);
    }
    assert(unspent(all) =~= unspent(front) + (if entry.1 {
        Seq::empty()
    } else {
        seq![entry.0]
    }) + unspent(back));
}

/// The outputs that pay for what is needed are the first ones, one at least if there
/// are any. Without the last of them they do not suffice. They do not suffice only
/// where all outputs together do not, and are then all that there are.
pub proof fn law_selection_is_the_shortest_front(
    available: Seq<TransactionOutput>,
    needed: int,
)
    requires
        needed >= 0,
    ensures
        ({
            let chosen = selected(available, needed);
            &&& chosen.len() <= available.len()
            &&& chosen == available.take(chosen.len() as int)
            &&& available.len() > 0 ==> chosen.len() > 0
            &&& total_value(chosen) >= needed <==> total_value(available) >= needed
            &&& total_value(available) < needed ==> chosen == available
            &&& chosen.len() > 1 ==> total_value(available.take(chosen.len() - 1)) < needed
        }),
    decreases available.len(),
{
    let chosen = selected(available, needed);
    if available.len() == 0 {
        assert(chosen =~= available.take(0));
    } else {
        let (first, rest) = (available[0], available.drop_first());
        lemma_total_value_one(first);
        assert(available =~= seq![first] + rest);
        lemma_total_value_concat(seq![first], rest);
        if first.value >= needed {
            assert(chosen =~= available.take(1));
        } else {
            let more = selected(rest, needed - first.value);
            law_selection_is_the_shortest_front(rest, needed - first.value);
            lemma_total_value_concat(seq![first], more);
            assert(chosen =~= available.take(chosen.len() as int));
            if chosen.len() > 1 {
                let n = more.len() - 1;
                assert(available.take(chosen.len() - 1) =~= seq![first] + rest.take(n));
                lemma_total_value_concat(seq![first], rest.take(n));
                if n == 0 {
                    assert(rest.take(0) =~= Seq::empty());
                    assert(total_value(rest.take(0)) == 0);
                }
            }
        }
    }
}

/// A wallet can pay if and only if its available outputs are worth the amount and the
/// fee.
pub proof fn law_wallet_can_pay_what_it_has(core: Core, amount: u64, fee: u64)
    ensures
        core.can_pay(amount, fee) <==> total_value(unspent(core.utxos@)) >= amount + fee,
{
    law_selection_is_the_shortest_front(unspent(core.utxos@), amount + fee);
}

/// A wallet that cannot pay says what its available outputs are worth, and what the
/// amount and the fee are together.
pub proof fn law_shortage_tells_have_and_need(core: Core, amount: u64, fee: u64)
    requires
        !core.can_pay(amount, fee),
    ensures
        core.shortage(amount, fee) matches WalletError::InsufficientFunds { have, need } && {
            &&& have == total_value(unspent(core.utxos@))
            &&& need == amount + fee
            &&& have < need
        },
{
    law_wallet_can_pay_what_it_has(core, amount, fee);
}

/// A payment pays the amount to the recipient. What its inputs are worth beyond the
/// amount and the fee comes back to the first key of the wallet, if it is anything.
pub proof fn law_payment_outputs(
    core: Core,
    recipient: PublicKey,
    amount: u64,
    fee: u64,
    payment_id: u128,
    change_id: u128,
    tx: TransactionView,
)
    requires
        core.can_pay(amount, fee),
        core.pays(recipient, amount, fee, payment_id, change_id, tx),
    ensures
        ({
            let surplus = total_value(unspent(core.utxos@).take(tx.inputs.len() as int)) - amount
                - fee;
            &&& surplus >= 0
            &&& tx.outputs.len() == if surplus > 0 {
                2nat
            } else {
                1nat
            }
            &&& tx.outputs[0] == (TransactionOutput {
                value: amount,
                unique_id: payment_id,
                pubkey: recipient,
            })
            &&& surplus > 0 ==> {
                &&& tx.outputs[1].value == surplus
                &&& tx.outputs[1].unique_id == change_id
                &&& tx.outputs[1].pubkey == core.utxo_store@.my_keys[0].public_key
            }
        }),
{
    let available = unspent(core.utxos@);
    law_selection_is_the_shortest_front(available, amount + fee);
    lemma_surplus(available, amount + fee);
}

/// Whether a key pair is the one that signs for an output: the first of the wallet
/// with its public key, or the first of all if there is none.
pub open spec fn signs_for(keys: Seq<LoadedKey>, k: int, public_key: PublicKey) -> bool {
    &&& 0 <= k < keys.len()
    &&& keys[k].public_key == public_key || k == 0
    &&& forall|j: int| 0 <= j < k ==> (#[trigger] keys[j]).public_key != public_key
    &&& keys[k].public_key != public_key ==> forall|j: int|
        0 <= j < keys.len() ==> (#[trigger] keys[j]).public_key != public_key
}

/// The key pair that signs for an output is the first of the wallet with its public
/// key, or the first of all if there is none.
pub proof fn law_owner_signs(keys: Seq<LoadedKey>, output: TransactionOutput, k: int)
    requires
        signs_for(keys, k, output.pubkey),
    ensures
        signer(keys, output) == keys[k],
{
    lemma_first_owner(keys, output.pubkey, k);
}

proof fn lemma_first_owner(keys: Seq<LoadedKey>, public_key: PublicKey, k: int)
    requires
        0 <= k < keys.len(),
        forall|j: int| 0 <= j < k ==> (#[trigger] keys[j]).public_key != public_key,
        keys[k].public_key != public_key ==> forall|j: int|
            0 <= j < keys.len() ==> (#[trigger] keys[j]).public_key != public_key,
    ensures
        keys[k].public_key == public_key ==> owner(keys, public_key) == Some(keys[k]),
        keys[k].public_key != public_key ==> owner(keys, public_key) is None,
    decreases keys.len(),
{
    reveal_with_fuel(owner, 2);
    if keys[0].public_key != public_key {
        let rest = keys.drop_first();
        assert forall|j: int| 0 <= j < rest.len() implies #[trigger] rest[j] == keys[j + 1] by {
        }
        if keys[k].public_key == public_key {
            lemma_first_owner(rest, public_key, k - 1);
        } else if rest.len() > 0 {
            assert(keys[1].public_key != public_key);
            lemma_first_owner(rest, public_key, 0);
        }
    }
}

/// The inputs of a payment spend the first available outputs, in their order, each
/// with the signature of its hash by the key that owns it.
pub proof fn law_payment_inputs(
    core: Core,
    recipient: PublicKey,
    amount: u64,
    fee: u64,
    payment_id: u128,
    change_id: u128,
    tx: TransactionView,
    i: int,
    k: int,
)
    requires
        core.pays(recipient, amount, fee, payment_id, change_id, tx),
        0 <= i < tx.inputs.len(),
        signs_for(core.utxo_store@.my_keys, k, unspent(core.utxos@)[i].pubkey),
    ensures
        ({
            let output = unspent(core.utxos@)[i];
            let secret = core.utxo_store@.my_keys[k].private_key.secret();
            &&& i < unspent(core.utxos@).len()
            &&& tx.inputs[i].prev_transaction_output_hash == output.id()
            &&& tx.inputs[i].signature.compact() == ecdsa_signature(
                secret,
                be_bytes(output.id().0@, 32),
            )
        }),
{
    let available = unspent(core.utxos@);
    let chosen = selected(available, amount + fee);
    law_selection_is_the_shortest_front(available, amount + fee);
    assert(chosen[i] == available[i]);
    law_owner_signs(core.utxo_store@.my_keys, available[i], k);
    assert(spends(
        tx.inputs[i],
        chosen[i],
        signer(core.utxo_store@.my_keys, chosen[i]).private_key,
    ));
}

/// What a wallet knows after its requests are the outputs of all replies that hold
/// outputs, in the order of the replies.
pub proof fn law_every_reply_counts(
    front: Seq<Option<MessageView>>,
    reply: Option<MessageView>,
    back: Seq<Option<MessageView>>,
)
    ensures
        received(front + seq![reply] + back) == received(front) + (match reply {
            Some(MessageView::UTXOs(list)) => list,
            _ => Seq::empty(),
        }) + received(back),
        received(Seq::empty()).len() == 0,
    decreases back.len(),
{
    let all = front + seq![reply] + back;
    if back.len() > 0 {
        assert(all.drop_last() =~= front + seq![reply] + back.drop_last());
        law_every_reply_counts(front, reply, back.drop_last());
    } else {
        assert(all.drop_last() =~= front);
    }
    assert(received(all) =~= received(front) + (match reply {
        Some(MessageView::UTXOs(list)) => list,
        _ => Seq::empty(),
    }) + received(back));
}

/// Whether a reply holds outputs.
pub open spec fn has_outputs(reply: Option<MessageView>) -> bool {
    match reply {
        Some(MessageView::UTXOs(_)) => true,
        _ => false,
    }
}

/// Whether the reply at position `i` is the last one with outputs for a key, which is
/// given by its bytes.
pub open spec fn is_last_reply(
    keys: Seq<LoadedKey>,
    replies: Seq<Option<MessageView>>,
    key: Seq<u8>,
    i: int,
) -> bool {
    &&& 0 <= i < replies.len()
    &&& has_outputs(replies[i])
    &&& cbor_bytes(keys[i].public_key.tokens()) == key
    &&& forall|j: int|
        i < j < replies.len() && has_outputs(#[trigger] replies[j])
            ==> cbor_bytes(keys[j].public_key.tokens()) != key
}

/// What is known of a key is what the reply to its request holds. If there is none,
/// what was known before stays.
pub proof fn law_reply_is_recorded_under_its_key(
    known: Map<Seq<u8>, Outputs>,
    keys: Seq<LoadedKey>,
    replies: Seq<Option<MessageView>>,
    key: Seq<u8>,
    i: int,
)
    ensures
        ({
            let after = recorded(known, keys, replies);
            &&& is_last_reply(keys, replies, key, i) ==> after.contains_key(key) && replies[i]
                == Some(MessageView::UTXOs(after[key]))
            &&& (forall|j: int|
                0 <= j < replies.len() && has_outputs(#[trigger] replies[j])
                    ==> cbor_bytes(keys[j].public_key.tokens()) != key) ==> {
                &&& after.contains_key(key) <==> known.contains_key(key)
                &&& known.contains_key(key) ==> after[key] == known[key]
            }
        }),
    decreases replies.len(),
{
    if replies.len() > 0 {
        let n = replies.len() - 1;
        let front = replies.drop_last();
        assert forall|j: int| 0 <= j < n implies #[trigger] front[j] == replies[j] by {
        }
        law_reply_is_recorded_under_its_key(known, keys, front, key, i);
        assert(replies[n] == replies.last());
        if is_last_reply(keys, replies, key, i) && i < n {
            assert(is_last_reply(keys, front, key, i)) by {
                assert forall|j: int|
                    i < j < front.len() && has_outputs(#[trigger] front[j]) implies cbor_bytes(
                        keys[j].public_key.tokens(),
                    ) != key by {
                    assert(front[j] == replies[j]);
                }
            }
        }
        if forall|j: int|
            0 <= j < replies.len() && has_outputs(#[trigger] replies[j])
                ==> cbor_bytes(keys[j].public_key.tokens()) != key {
            assert forall|j: int|
                0 <= j < front.len() && has_outputs(#[trigger] front[j]) implies cbor_bytes(
                    keys[j].public_key.tokens(),
                ) != key by {
                assert(front[j] == replies[j]);
            }
        }
    }
}

/// The first contact with a name has the name, and no contact before it has.
pub proof fn law_first_named_contact(
    contacts: Seq<Recipient>,
    name: Seq<char>,
    i: int,
    j: int,
)
    requires
        is_first_named(contacts, name, i),
    ensures
        0 <= i < contacts.len(),
        contacts[i].name@ == name,
        0 <= j < i ==> contacts[j].name@ != name,
{
}

/// A wallet can sign if it has a key, or if nothing is to be signed: where it cannot
/// pay, and where it has no output to spend.
pub proof fn law_wallet_needs_a_key_to_spend(core: Core, amount: u64, fee: u64)
    ensures
        core.can_sign(amount, fee) <==> {
            ||| core.utxo_store@.my_keys.len() > 0
            ||| total_value(unspent(core.utxos@)) < amount + fee
            ||| unspent(core.utxos@).len() == 0
        },
{
    law_wallet_can_pay_what_it_has(core, amount, fee);
}

} // verus!
