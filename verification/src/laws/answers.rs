//! What the answers of a node hold, and what becomes of its chain.

use crate::crypto::PublicKey;
use crate::error::BlockChainError;
use crate::laws::admission::{is_covered, law_admissible_is_covered};
use crate::laws::pool::{law_admitted_transaction_waits, law_pooling_changes_marks_only};
use crate::network::MessageView;
use crate::node::{hands_out, is_longest, lists_owned, outputs_at, replying, taken,
    wrapped_difference, ResponseView};
use crate::sha256::zero_hash;
use crate::table::ascending;
use crate::time::Timestamp;
use crate::types::block::{block_reward, miner_fees, transactions_verdict, BlockView, Utxos};
use crate::types::blockchain::{adjusted_target, after_blocks, block_verdict, pool_known,
    without_confirmed, ChainView};
use crate::types::transaction::TransactionView;
use crate::util::merkle_root;
use vstd::prelude::*;

verus! {

/// The transactions that a block takes beside its coinbase are the first waiting
/// ones, in their order: all of them, but no more than 19.
pub proof fn law_first_waiting_transactions_are_taken(
    mempool: Seq<(Timestamp, TransactionView)>,
    i: int,
)
    ensures
        taken(mempool).len() == if mempool.len() < 19 {
            mempool.len()
        } else {
            19
        },
        0 <= i < taken(mempool).len() ==> taken(mempool)[i] == mempool[i].1,
{
}

/// A template holds a coinbase and the transactions that the next block takes. The
/// coinbase pays the reward and the fees to the key of the miner. The header refers
/// to the last block, and carries the Merkle root, the target, the time and nonce
/// zero.
pub proof fn law_template_contents(
    chain: ChainView,
    pubkey: PublicKey,
    now: Timestamp,
    unique_id: u128,
    i: int,
)
    requires
        chain.template(pubkey, now, unique_id) is Some,
    ensures
        ({
            let block = chain.template(pubkey, now, unique_id).unwrap();
            let coinbase = block.transactions[0];
            let fees = miner_fees(block.transactions, chain.utxos);
            &&& block.transactions.len() == if chain.mempool.len() < 19 {
                chain.mempool.len() + 1
            } else {
                20
            }
            &&& 1 <= i < block.transactions.len() ==> block.transactions[i] == chain.mempool[i - 1].1
            &&& coinbase.inputs.len() == 0
            &&& coinbase.outputs.len() == 1
            &&& coinbase.outputs[0].pubkey == pubkey
            &&& coinbase.outputs[0].unique_id == unique_id
            &&& fees is Ok
            &&& coinbase.outputs[0].value == block_reward(chain.blocks.len()) + fees->Ok_0
            &&& block.header.timestamp == now
            &&& block.header.nonce == 0
            &&& block.header.prev_block_hash == if chain.blocks.len() == 0 {
                zero_hash()
            } else {
                chain.blocks[chain.blocks.len() - 1].id()
            }
            &&& block.header.merkle_root == merkle_root(block.transactions)
            &&& block.header.target == chain.target
        }),
{
    let block = chain.template(pubkey, now, unique_id).unwrap();
    let nothing = TransactionView { inputs: Seq::empty(), outputs: Seq::empty() };
    let rest = taken(chain.mempool);
    assert(block.transactions.skip(1) =~= rest);
    assert((seq![nothing] + rest).skip(1) =~= rest);
}

/// There is a template if and only if the waiting transactions that it takes leave a
/// fee, and the fee and the reward fit in 64 bits, whatever the coinbase is.
pub proof fn law_template_needs_fees(
    chain: ChainView,
    pubkey: PublicKey,
    now: Timestamp,
    unique_id: u128,
    any: TransactionView,
)
    ensures
        ({
            let fees = miner_fees(seq![any] + taken(chain.mempool), chain.utxos);
            chain.template(pubkey, now, unique_id) is Some <==> fees is Ok && fees->Ok_0
                + block_reward(chain.blocks.len()) <= u64::MAX
        }),
{
    let nothing = TransactionView { inputs: Seq::empty(), outputs: Seq::empty() };
    let rest = taken(chain.mempool);
    assert((seq![any] + rest).skip(1) =~= rest);
    assert((seq![nothing] + rest).skip(1) =~= rest);
}

/// A node hands out the block at a height, or closes the connection if there is
/// none.
pub proof fn law_blocks_are_served_by_height(
    chain: ChainView,
    nodes: Seq<Seq<char>>,
    height: usize,
    now: Timestamp,
    unique_id: u128,
    r: ResponseView,
    end: ChainView,
)
    requires
        chain.responds(nodes, MessageView::FetchBlock(height), now, unique_id, r, end),
    ensures
        height < chain.blocks.len() ==> r.reply == Some(
            MessageView::NewBlock(chain.blocks[height as int]),
        ) && r.keep_alive,
        height >= chain.blocks.len() ==> r.reply is None && !r.keep_alive,
        r.broadcast is None,
        end == chain,
{
}

/// A node lists the nodes that it is connected to.
pub proof fn law_nodes_are_listed(
    chain: ChainView,
    nodes: Seq<Seq<char>>,
    now: Timestamp,
    unique_id: u128,
    r: ResponseView,
    end: ChainView,
)
    requires
        chain.responds(nodes, MessageView::DiscoverNodes, now, unique_id, r, end),
    ensures
        r.reply == Some(MessageView::NodeList(nodes)),
        r.broadcast is None,
        r.keep_alive,
        end == chain,
{
}

/// The difference of heights that a node answers with is its own height less that of
/// the peer, but for a multiple of 2 to the power of 32. So it is the difference
/// itself wherever that fits in 32 bits.
pub proof fn law_difference_of_heights(
    chain: ChainView,
    nodes: Seq<Seq<char>>,
    height: u32,
    now: Timestamp,
    unique_id: u128,
    r: ResponseView,
    end: ChainView,
)
    requires
        chain.responds(nodes, MessageView::AskDifference(height), now, unique_id, r, end),
    ensures
        r.reply matches Some(MessageView::Difference(count)) && {
            &&& (chain.blocks.len() - height - count) % 0x1_0000_0000 == 0
            &&& i32::MIN <= chain.blocks.len() - height <= i32::MAX ==> count
                == chain.blocks.len() - height
        },
        r.broadcast is None,
        r.keep_alive,
        end == chain,
{
    let own = chain.blocks.len() as int;
    let d = own - height;
    let w = wrapped_difference(own, height as int);
    assert(d % 0x1_0000_0000 == d - (d / 0x1_0000_0000) * 0x1_0000_0000);
    let q = d / 0x1_0000_0000;
    assert((q * 0x1_0000_0000) % 0x1_0000_0000 == 0);
    assert(((q + 1) * 0x1_0000_0000) % 0x1_0000_0000 == 0);
    assert(i32::MIN <= w <= i32::MAX);
    assert(d - w == q * 0x1_0000_0000 || d - w == (q + 1) * 0x1_0000_0000);
}

/// A template is valid as long as it refers to the last block, or to the zero hash
/// where there is none.
pub proof fn law_template_validity(
    chain: ChainView,
    nodes: Seq<Seq<char>>,
    block: BlockView,
    now: Timestamp,
    unique_id: u128,
    r: ResponseView,
    end: ChainView,
)
    requires
        chain.responds(nodes, MessageView::ValidateTemplate(block), now, unique_id, r, end),
    ensures
        r.reply == Some(
            MessageView::TemplateValidity(
                block.header.prev_block_hash == if chain.blocks.len() == 0 {
                    zero_hash()
                } else {
                    chain.blocks[chain.blocks.len() - 1].id()
                },
            ),
        ),
        r.broadcast is None,
        r.keep_alive,
        end == chain,
{
}

/// A miner that asks for a template is handed it, or loses the connection if there
/// is none.
pub proof fn law_template_is_handed_out(
    chain: ChainView,
    nodes: Seq<Seq<char>>,
    pubkey: PublicKey,
    now: Timestamp,
    unique_id: u128,
    r: ResponseView,
    end: ChainView,
)
    requires
        chain.responds(nodes, MessageView::FetchTemplate(pubkey), now, unique_id, r, end),
    ensures
        match chain.template(pubkey, now, unique_id) {
            Some(block) => r.reply == Some(MessageView::Template(block)) && r.keep_alive,
            None => r.reply is None && !r.keep_alive,
        },
        r.broadcast is None,
        end == chain,
{
}

/// A node takes a block if it holds no more than 20 transactions, they pass the
/// check against the unspent outputs at the height of the chain, and its header
/// passes the check against the chain, in this order.
pub proof fn law_block_acceptance(chain: ChainView, block: BlockView)
    ensures
        block.transactions.len() > 20 ==> chain.acceptance(block) == Err::<(), BlockChainError>(
            BlockChainError::InvalidBlock,
        ),
        block.transactions.len() <= 20 ==> chain.acceptance(block) == match transactions_verdict(
            block.transactions,
            chain.blocks.len(),
            chain.utxos,
        ) {
            Err(e) => Err(e),
            Ok(_) => block_verdict(chain.blocks, block),
        },
{
}

/// A block that a node takes becomes the last block of its chain. The unspent outputs
/// become those of all blocks, the transactions of the block no longer wait, and the
/// target is adjusted. A mined block is passed on, and one that is refused closes the
/// connection of the miner and changes nothing.
pub proof fn law_block_is_taken_in(
    chain: ChainView,
    nodes: Seq<Seq<char>>,
    message: MessageView,
    block: BlockView,
    now: Timestamp,
    unique_id: u128,
    r: ResponseView,
    end: ChainView,
)
    requires
        message == MessageView::SubmitTemplate(block) || message == MessageView::NewBlock(block),
        chain.responds(nodes, message, now, unique_id, r, end),
    ensures
        chain.acceptance(block) is Ok ==> {
            &&& end.blocks.len() == chain.blocks.len() + 1
            &&& end.blocks.last() == block
            &&& end.blocks.drop_last() == chain.blocks
            &&& end.utxos == after_blocks(Map::empty(), end.blocks)
            &&& end.mempool == without_confirmed(chain.mempool, block)
            &&& end.target@ == adjusted_target(end.blocks, chain.target@)
        },
        chain.acceptance(block) is Err ==> end == chain,
        r.reply is None,
        message is NewBlock ==> r.broadcast is None && r.keep_alive,
        message is SubmitTemplate ==> {
            &&& r.keep_alive <==> chain.acceptance(block) is Ok
            &&& r.broadcast == if chain.acceptance(block) is Ok {
                Some(MessageView::NewBlock(block))
            } else {
                None
            }
        },
{
    assert(chain.blocks.push(block).drop_last() =~= chain.blocks);
}

/// A transaction is taken if it is covered by what it spends. It then waits, together
/// with those that waited before, since the time at which it came. One that comes from
/// a wallet is passed on, and the connection is closed. One that comes from another
/// node closes the connection if it is refused.
pub proof fn law_transaction_is_taken_in(
    chain: ChainView,
    nodes: Seq<Seq<char>>,
    message: MessageView,
    transaction: TransactionView,
    now: Timestamp,
    unique_id: u128,
    r: ResponseView,
    end: ChainView,
    entry: (Timestamp, TransactionView),
)
    requires
        message == MessageView::SubmitTransaction(transaction) || message
            == MessageView::NewTransaction(transaction),
        chain.responds(nodes, message, now, unique_id, r, end),
    ensures
        is_covered(transaction, chain.utxos) ==> {
            &&& end.mempool.len() == chain.mempool.len() + 1
            &&& end.mempool.contains(entry) <==> chain.mempool.contains(entry) || entry == (
                now,
                transaction,
            )
        },
        !is_covered(transaction, chain.utxos) ==> end.mempool == chain.mempool,
        end.blocks == chain.blocks,
        end.target == chain.target,
        r.reply is None,
        message is NewTransaction ==> {
            &&& r.broadcast is None
            &&& r.keep_alive <==> is_covered(transaction, chain.utxos)
        },
        message is SubmitTransaction ==> {
            &&& !r.keep_alive
            &&& r.broadcast == if is_covered(transaction, chain.utxos) {
                Some(MessageView::NewTransaction(transaction))
            } else {
                None
            }
        },
{
    law_admissible_is_covered(transaction, chain.utxos);
    let result = choose|result: Result<(), BlockChainError>| #[trigger]
        chain.pooled(transaction, now, result, end);
    law_pooling_changes_marks_only(chain, transaction, now, result, end);
    if result is Ok {
        assert(chain.pooled(transaction, now, Ok::<(), BlockChainError>(()), end));
        law_admitted_transaction_waits(chain, transaction, now, end, entry);
    }
}

/// A wallet is handed as many outputs as its key has, each once, and the connection
/// is closed.
pub proof fn law_every_output_is_handed_out_once(
    utxos: Utxos,
    key: PublicKey,
    r: ResponseView,
)
    requires
        hands_out(utxos, key, r),
        utxos.dom().finite(),
    ensures
        r.reply matches Some(MessageView::UTXOs(list)) && list.len() == utxos.dom().filter(
            |h: crate::sha256::Hash| utxos[h].1.pubkey == key,
        ).len(),
        r.broadcast is None,
        !r.keep_alive,
{
    let hashes = choose|hashes: Seq<crate::sha256::Hash>|
        #![trigger lists_owned(utxos, key, hashes)]
        {
            &&& lists_owned(utxos, key, hashes)
            &&& r == replying(MessageView::UTXOs(outputs_at(utxos, hashes)), false)
        };
    let owned = utxos.dom().filter(|h: crate::sha256::Hash| utxos[h].1.pubkey == key);
    assert(hashes.no_duplicates()) by {
        assert(ascending(hashes));
    }
    hashes.unique_seq_to_set();
    assert forall|h: crate::sha256::Hash| #[trigger]
        hashes.to_set().contains(h) <==> owned.contains(h) by {
        assert(hashes.contains(h) <==> utxos.contains_key(h) && utxos[h].1.pubkey == key);
    }
    assert(hashes.to_set() =~= owned);
}

/// The outputs that a wallet is handed come in the ascending order of the hashes under
/// which they are kept, each with its mark.
pub proof fn law_outputs_come_in_order(
    utxos: Utxos,
    key: PublicKey,
    r: ResponseView,
)
    requires
        hands_out(utxos, key, r),
    ensures
        r.reply matches Some(MessageView::UTXOs(list)) && exists|hashes: Seq<crate::sha256::Hash>|
            #[trigger] hashes.len() == list.len() && {
                &&& forall|i: int|
                    0 <= i < list.len() ==> utxos.contains_key(#[trigger] hashes[i]) && list[i] == (
                        utxos[hashes[i]].1,
                        utxos[hashes[i]].0,
                    )
                &&& forall|i: int, j: int|
                    0 <= i < j < list.len() ==> (#[trigger] hashes[i]).0@ < (
                    #[trigger] hashes[j]).0@
            },
{
    let hashes = choose|hashes: Seq<crate::sha256::Hash>|
        #![trigger lists_owned(utxos, key, hashes)]
        {
            &&& lists_owned(utxos, key, hashes)
            &&& r == replying(MessageView::UTXOs(outputs_at(utxos, hashes)), false)
        };
    let list = outputs_at(utxos, hashes);
    assert(hashes.len() == list.len());
    assert forall|i: int| 0 <= i < list.len() implies utxos.contains_key(#[trigger] hashes[i])
        && list[i] == (utxos[hashes[i]].1, utxos[hashes[i]].0) by {
        assert(hashes.contains(hashes[i]));
    }
}

/// The node with the longest chain has as many blocks as any other, and more than
/// those before it.
pub proof fn law_longest_chain(counts: Seq<i32>, i: int, j: int)
    requires
        is_longest(counts, i),
        0 <= j < counts.len(),
    ensures
        0 <= i < counts.len(),
        counts[j] <= counts[i],
        j < i ==> counts[j] < counts[i],
{
}

/// A chain can take in a transaction that is not covered by what it spends, since it
/// is refused. It can take in another one if all that waits spends known outputs.
/// Other messages can always be taken in.
pub proof fn law_when_a_message_can_be_taken_in(
    chain: ChainView,
    message: MessageView,
    transaction: TransactionView,
)
    ensures
        message == MessageView::SubmitTransaction(transaction) || message
            == MessageView::NewTransaction(transaction) ==> (chain.can_rank(message)
            <==> !is_covered(transaction, chain.utxos) || pool_known(chain.mempool, chain.utxos)),
        !(message is SubmitTransaction || message is NewTransaction) ==> chain.can_rank(message),
{
    law_admissible_is_covered(transaction, chain.utxos);
}

} // verus!
