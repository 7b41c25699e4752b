//! The answers of a node.

use crate::crypto::PublicKey;
use crate::error::BlockChainError;
use crate::laws::chain::{is_chain, law_chain_stays_a_chain, law_target_is_bounded};
use crate::laws::ledger::{is_verified, law_check_ignores_marks, law_verified_chain_stays_verified};
use crate::laws::pool::{law_admitted_transaction_waits, law_pooling_changes_marks_only};
use crate::network::MessageView;
use crate::node::{coinbase, hands_out, lists_owned, outputs_at, replying, silence, taken, tip,
    wrapped_difference, ResponseView};
use crate::time::Timestamp;
use crate::types::block::{all_known, coinbase_verdict, input_hashes, is_authorized, BlockHeader,
    BlockView, Utxos};
use crate::types::blockchain::{after_blocks, is_admissible, pool_known, same_outputs, ChainView};
use crate::types::transaction::{total_value, TransactionOutput, TransactionView};
use crate::util::merkle_root;
use vstd::prelude::*;

verus! {

/// A template pays exactly the reward and the fees, extends the chain, carries
/// the Merkle root of its transactions, and takes no more transactions than a
/// block may.
pub proof fn law_template_is_sound(
    chain: ChainView,
    pubkey: PublicKey,
    now: Timestamp,
    unique_id: u128,
)
    requires
        chain.template(pubkey, now, unique_id) is Some,
    ensures
        ({
            let template = chain.template(pubkey, now, unique_id).unwrap();
            &&& coinbase_verdict(template.transactions, chain.blocks.len(), chain.utxos) is Ok
            &&& template.transactions[0].outputs[0].pubkey == pubkey
            &&& template.transactions.len() <= crate::BLOCK_TRANSACTION_CAP
            &&& template.header.prev_block_hash == tip(chain.blocks)
            &&& template.header.merkle_root == merkle_root(template.transactions)
            &&& template.header.target == chain.target
        }),
{
    let value = chain.template_value().unwrap();
    let rest = taken(chain.mempool);
    let nothing = TransactionView { inputs: Seq::empty(), outputs: Seq::empty() };
    let transactions = seq![coinbase(pubkey, unique_id, value)] + rest;
    assert(transactions.skip(1) =~= rest);
    assert((seq![nothing] + rest).skip(1) =~= rest);
    let outputs = transactions[0].outputs;
    assert(outputs.drop_last() =~= Seq::empty());
    assert(total_value(outputs.drop_last()) == 0);
    assert(total_value(outputs) == value);
}

/// As long as the chain does not change, a template that was handed out is valid.
pub proof fn law_template_stays_valid(
    chain: ChainView,
    pubkey: PublicKey,
    made: Timestamp,
    made_id: u128,
    nodes: Seq<Seq<char>>,
    now: Timestamp,
    unique_id: u128,
    r: ResponseView,
    end: ChainView,
)
    requires
        chain.template(pubkey, made, made_id) is Some,
        chain.responds(
            nodes,
            MessageView::ValidateTemplate(chain.template(pubkey, made, made_id).unwrap()),
            now,
            unique_id,
            r,
            end,
        ),
    ensures
        r == replying(MessageView::TemplateValidity(true), true),
        end == chain,
{
}

/// A template that has been mined is accepted, as long as the chain does not
/// change: its header meets the target, it is later than the last block, and the
/// waiting transactions that it takes are signed by the owners of what they
/// spend, which nobody asks of them before.
pub proof fn law_mined_template_is_accepted(
    chain: ChainView,
    pubkey: PublicKey,
    made: Timestamp,
    made_id: u128,
    header: BlockHeader,
)
    requires
        chain.template(pubkey, made, made_id) is Some,
        header == (BlockHeader {
            nonce: header.nonce,
            timestamp: header.timestamp,
            ..chain.template(pubkey, made, made_id).unwrap().header
        }),
        header.meets_target(),
        chain.blocks.len() > 0 ==> header.timestamp.is_after(
            chain.blocks.last().header.timestamp,
        ),
        takes_authorized(chain),
    ensures
        chain.acceptance(
            BlockView { header, ..chain.template(pubkey, made, made_id).unwrap() },
        ) is Ok,
{
    let transactions = chain.template(pubkey, made, made_id).unwrap().transactions;
    let rest = taken(chain.mempool);
    law_template_is_sound(chain, pubkey, made, made_id);
    assert forall|t: int| 1 <= t < transactions.len() implies is_authorized(
        #[trigger] transactions[t],
        chain.utxos,
    ) by {
        assert(transactions[t] == rest[t - 1]);
    }
}

/// Whether the waiting transactions that the next block takes are signed by the
/// owners of what they spend.
pub open spec fn takes_authorized(chain: ChainView) -> bool {
    forall|i: int|
        0 <= i < taken(chain.mempool).len() ==> is_authorized(
            #[trigger] taken(chain.mempool)[i],
            chain.utxos,
        )
}

/// Questions change nothing.
pub proof fn law_questions_change_nothing(
    chain: ChainView,
    nodes: Seq<Seq<char>>,
    message: MessageView,
    now: Timestamp,
    unique_id: u128,
    r: ResponseView,
    end: ChainView,
)
    requires
        chain.responds(nodes, message, now, unique_id, r, end),
        !(message is NewBlock || message is NewTransaction || message is SubmitTemplate
            || message is SubmitTransaction),
    ensures
        end == chain,
        r.broadcast is None,
{
}

/// What only a node may say ends the connection.
pub proof fn law_replies_are_not_answered(
    chain: ChainView,
    nodes: Seq<Seq<char>>,
    message: MessageView,
    now: Timestamp,
    unique_id: u128,
    r: ResponseView,
    end: ChainView,
)
    requires
        chain.responds(nodes, message, now, unique_id, r, end),
        message is UTXOs || message is Template || message is Difference
            || message is TemplateValidity || message is NodeList,
    ensures
        r == silence(false),
        end == chain,
{
}

/// What a node refuses is neither kept nor passed on.
pub proof fn law_refusal_is_silent(
    chain: ChainView,
    nodes: Seq<Seq<char>>,
    message: MessageView,
    now: Timestamp,
    unique_id: u128,
    r: ResponseView,
    end: ChainView,
)
    requires
        chain.responds(nodes, message, now, unique_id, r, end),
        match message {
            MessageView::NewBlock(block) => chain.acceptance(block) is Err,
            MessageView::SubmitTemplate(block) => chain.acceptance(block) is Err,
            MessageView::NewTransaction(tx) => !is_admissible(tx, chain.utxos),
            MessageView::SubmitTransaction(tx) => !is_admissible(tx, chain.utxos),
            _ => false,
        },
    ensures
        end.blocks == chain.blocks,
        end.mempool == chain.mempool,
        r.reply is None,
        r.broadcast is None,
        message is NewBlock <==> r.keep_alive,
{
    match message {
        MessageView::NewTransaction(tx) => {
            let result = choose|result: Result<(), BlockChainError>| #[trigger]
                chain.pooled(tx, now, result, end);
            law_pooling_changes_marks_only(chain, tx, now, result, end);
        },
        MessageView::SubmitTransaction(tx) => {
            let result = choose|result: Result<(), BlockChainError>| #[trigger]
                chain.pooled(tx, now, result, end);
            law_pooling_changes_marks_only(chain, tx, now, result, end);
        },
        _ => {},
    }
}

/// Whatever a node is told, its chain stays a chain that only grows, and its
/// target stays at or below the easiest target.
pub proof fn law_chain_only_grows(
    chain: ChainView,
    nodes: Seq<Seq<char>>,
    message: MessageView,
    now: Timestamp,
    unique_id: u128,
    r: ResponseView,
    end: ChainView,
)
    requires
        chain.responds(nodes, message, now, unique_id, r, end),
        is_chain(chain.blocks),
        chain.target@ <= crate::easiest_target()@,
    ensures
        is_chain(end.blocks),
        end.target@ <= crate::easiest_target()@,
        end.blocks.len() <= chain.blocks.len() + 1,
        chain.blocks.is_prefix_of(end.blocks),
{
    match message {
        MessageView::NewBlock(block) => {
            if chain.acceptance(block) is Ok {
                law_chain_stays_a_chain(chain.blocks, block);
                law_target_is_bounded(chain.blocks.push(block), chain.target@);
            }
        },
        MessageView::SubmitTemplate(block) => {
            if chain.acceptance(block) is Ok {
                law_chain_stays_a_chain(chain.blocks, block);
                law_target_is_bounded(chain.blocks.push(block), chain.target@);
            }
        },
        MessageView::NewTransaction(tx) => {
            let result = choose|result: Result<(), BlockChainError>| #[trigger]
                chain.pooled(tx, now, result, end);
            law_pooling_changes_marks_only(chain, tx, now, result, end);
        },
        MessageView::SubmitTransaction(tx) => {
            let result = choose|result: Result<(), BlockChainError>| #[trigger]
                chain.pooled(tx, now, result, end);
            law_pooling_changes_marks_only(chain, tx, now, result, end);
        },
        _ => {},
    }
}

/// Whether the unspent outputs are those of the chain's blocks, whatever their
/// marks.
pub open spec fn in_step(chain: ChainView) -> bool {
    same_outputs(chain.utxos, after_blocks(Map::empty(), chain.blocks))
}

/// The unspent outputs of a node stay those of its blocks, whatever it is told.
pub proof fn law_ledger_stays_in_step(
    chain: ChainView,
    nodes: Seq<Seq<char>>,
    message: MessageView,
    now: Timestamp,
    unique_id: u128,
    r: ResponseView,
    end: ChainView,
)
    requires
        chain.responds(nodes, message, now, unique_id, r, end),
        in_step(chain),
    ensures
        in_step(end),
{
    match message {
        MessageView::NewTransaction(tx) => {
            let result = choose|result: Result<(), BlockChainError>| #[trigger]
                chain.pooled(tx, now, result, end);
            law_pooling_changes_marks_only(chain, tx, now, result, end);
            lemma_same_transitive(chain.utxos, end.utxos, after_blocks(Map::empty(), end.blocks));
        },
        MessageView::SubmitTransaction(tx) => {
            let result = choose|result: Result<(), BlockChainError>| #[trigger]
                chain.pooled(tx, now, result, end);
            law_pooling_changes_marks_only(chain, tx, now, result, end);
            lemma_same_transitive(chain.utxos, end.utxos, after_blocks(Map::empty(), end.blocks));
        },
        _ => {},
    }
}

/// Whatever a node is told, every block that it has appended has passed the check
/// of its transactions, against the outputs that the blocks before it leave
/// unspent.
pub proof fn law_chain_stays_verified(
    chain: ChainView,
    nodes: Seq<Seq<char>>,
    message: MessageView,
    now: Timestamp,
    unique_id: u128,
    r: ResponseView,
    end: ChainView,
)
    requires
        chain.responds(nodes, message, now, unique_id, r, end),
        in_step(chain),
        is_verified(chain.blocks),
    ensures
        is_verified(end.blocks),
{
    match message {
        MessageView::NewBlock(block) => {
            lemma_extended_stays_verified(chain, block, end);
        },
        MessageView::SubmitTemplate(block) => {
            lemma_extended_stays_verified(chain, block, end);
        },
        MessageView::NewTransaction(tx) => {
            let result = choose|result: Result<(), BlockChainError>| #[trigger]
                chain.pooled(tx, now, result, end);
            law_pooling_changes_marks_only(chain, tx, now, result, end);
        },
        MessageView::SubmitTransaction(tx) => {
            let result = choose|result: Result<(), BlockChainError>| #[trigger]
                chain.pooled(tx, now, result, end);
            law_pooling_changes_marks_only(chain, tx, now, result, end);
        },
        _ => {},
    }
}

/// Whether no block holds more transactions than a block may.
pub open spec fn is_capped(blocks: Seq<BlockView>) -> bool {
    forall|i: int|
        0 <= i < blocks.len() ==> (#[trigger] blocks[i]).transactions.len()
            <= crate::BLOCK_TRANSACTION_CAP
}

/// Whatever a node is told, no block of its chain holds more transactions than a
/// block may.
pub proof fn law_blocks_stay_capped(
    chain: ChainView,
    nodes: Seq<Seq<char>>,
    message: MessageView,
    now: Timestamp,
    unique_id: u128,
    r: ResponseView,
    end: ChainView,
)
    requires
        chain.responds(nodes, message, now, unique_id, r, end),
        is_capped(chain.blocks),
    ensures
        is_capped(end.blocks),
{
    match message {
        MessageView::NewTransaction(tx) => {
            let result = choose|result: Result<(), BlockChainError>| #[trigger]
                chain.pooled(tx, now, result, end);
            law_pooling_changes_marks_only(chain, tx, now, result, end);
        },
        MessageView::SubmitTransaction(tx) => {
            let result = choose|result: Result<(), BlockChainError>| #[trigger]
                chain.pooled(tx, now, result, end);
            law_pooling_changes_marks_only(chain, tx, now, result, end);
        },
        _ => {},
    }
}

proof fn lemma_extended_stays_verified(chain: ChainView, block: BlockView, end: ChainView)
    requires
        in_step(chain),
        is_verified(chain.blocks),
        chain.extended(block, end),
    ensures
        is_verified(end.blocks),
{
    if chain.acceptance(block) is Ok {
        law_check_ignores_marks(
            block.transactions,
            chain.blocks.len(),
            chain.utxos,
            after_blocks(Map::empty(), chain.blocks),
        );
        law_verified_chain_stays_verified(chain.blocks, block);
    }
}

/// Marks do not matter.
proof fn lemma_same_transitive(a: Utxos, b: Utxos, c: Utxos)
    requires
        same_outputs(a, b),
        same_outputs(a, c),
    ensures
        same_outputs(b, c),
{
    assert forall|h: crate::sha256::Hash| #[trigger] b.contains_key(h) <==> c.contains_key(h) by {
        assert(a.contains_key(h) <==> b.contains_key(h));
        assert(a.contains_key(h) <==> c.contains_key(h));
    }
    assert forall|h: crate::sha256::Hash| #[trigger] b.contains_key(h) implies b[h].1 == c[h].1 by {
        assert(a.contains_key(h));
    }
}

/// When a block is accepted, whoever hands it over, the unspent outputs become
/// those of the whole chain.
pub proof fn law_submission_rebuilds_the_ledger(
    chain: ChainView,
    message: MessageView,
    block: BlockView,
    nodes: Seq<Seq<char>>,
    now: Timestamp,
    unique_id: u128,
    r: ResponseView,
    end: ChainView,
)
    requires
        message == MessageView::SubmitTemplate(block) || message == MessageView::NewBlock(block),
        chain.acceptance(block) is Ok,
        chain.responds(nodes, message, now, unique_id, r, end),
    ensures
        end.blocks == chain.blocks.push(block),
        end.utxos == after_blocks(Map::empty(), end.blocks),
        in_step(end),
{
}

/// A block that was accepted can be fetched at its height.
pub proof fn law_submitted_block_is_served(
    chain: ChainView,
    block: BlockView,
    nodes: Seq<Seq<char>>,
    now: Timestamp,
    unique_id: u128,
    r: ResponseView,
    middle: ChainView,
    height: usize,
    later: Timestamp,
    later_id: u128,
    answer: ResponseView,
    end: ChainView,
)
    requires
        chain.responds(nodes, MessageView::SubmitTemplate(block), now, unique_id, r, middle),
        chain.acceptance(block) is Ok,
        height == chain.blocks.len(),
        middle.responds(
            nodes,
            MessageView::FetchBlock(height),
            later,
            later_id,
            answer,
            end,
        ),
    ensures
        r.broadcast == Some(MessageView::NewBlock(block)),
        answer == replying(MessageView::NewBlock(block), true),
{
}

/// Where it fits in 32 bits, a node's answer is the true difference of the
/// heights.
pub proof fn law_difference_is_exact(own: int, height: int)
    requires
        i32::MIN <= own - height <= i32::MAX,
    ensures
        wrapped_difference(own, height) == own - height,
{
}

/// A wallet is handed exactly the unspent outputs of its key, with their marks.
pub proof fn law_wallet_gets_its_outputs(
    utxos: Utxos,
    key: PublicKey,
    r: ResponseView,
    output: TransactionOutput,
    mark: bool,
)
    requires
        hands_out(utxos, key, r),
    ensures
        ({
            &&& r.reply matches Some(MessageView::UTXOs(list))
            &&& list.contains((output, mark)) <==> {
                &&& output.pubkey == key
                &&& exists|h: crate::sha256::Hash| #[trigger]
                    utxos.contains_key(h) && utxos[h] == (mark, output)
            }
        }),
{
    let hashes = choose|hashes: Seq<crate::sha256::Hash>|
        #![trigger lists_owned(utxos, key, hashes)]
        {
            &&& lists_owned(utxos, key, hashes)
            &&& r == replying(MessageView::UTXOs(outputs_at(utxos, hashes)), false)
        };
    let list = outputs_at(utxos, hashes);
    if list.contains((output, mark)) {
        let i = choose|i: int| 0 <= i < list.len() && list[i] == (output, mark);
        assert(hashes.contains(hashes[i]));
        assert(utxos.contains_key(hashes[i]));
    }
    if output.pubkey == key && exists|h: crate::sha256::Hash| #[trigger]
        utxos.contains_key(h) && utxos[h] == (mark, output) {
        let h = choose|h: crate::sha256::Hash| #[trigger]
            utxos.contains_key(h) && utxos[h] == (mark, output);
        assert(hashes.contains(h));
        let i = choose|i: int| 0 <= i < hashes.len() && hashes[i] == h;
        assert(list[i] == (output, mark));
    }
}

/// If all that waits spends known outputs, that stays so when a transaction is
/// admitted.
pub proof fn law_waiting_inputs_stay_known(
    start: ChainView,
    transaction: TransactionView,
    now: Timestamp,
    r: Result<(), BlockChainError>,
    end: ChainView,
)
    requires
        start.pooled(transaction, now, r, end),
        pool_known(start.mempool, start.utxos),
    ensures
        pool_known(end.mempool, end.utxos),
{
    law_pooling_changes_marks_only(start, transaction, now, r, end);
    assert forall|i: int| 0 <= i < end.mempool.len() implies all_known(
        input_hashes((#[trigger] end.mempool[i]).1.inputs),
        end.utxos,
    ) by {
        let entry = end.mempool[i];
        let hashes = input_hashes(entry.1.inputs);
        if r is Ok {
            law_admitted_transaction_waits(start, transaction, now, end, entry);
            assert(end.mempool.contains(entry));
        }
        if start.mempool.contains(entry) {
            let j = choose|j: int| 0 <= j < start.mempool.len() && start.mempool[j] == entry;
            assert(start.mempool[j] == entry);
            assert(all_known(hashes, start.utxos));
        } else {
            assert(end.mempool[i] == end.mempool[i]);
            assert(r is Err ==> start.mempool[i] == entry);
            assert(all_known(hashes, start.utxos));
        }
        assert forall|k: int| 0 <= k < hashes.len() implies end.utxos.contains_key(
            #[trigger] hashes[k],
        ) by {
            assert(start.utxos.contains_key(hashes[k]));
        }
    }
}

} // verus!
