//! What the views of lists hold.

use crate::command::word_views;
use crate::miner::template_view;
use crate::network::{string_views, Message};
use crate::node::message_view;
use crate::time::Timestamp;
use crate::types::block::Block;
use crate::types::blockchain::{block_views, pool_views};
use crate::types::transaction::Transaction;
use crate::util::{transaction_ids, views};
use crate::wallet::{reply_views, request_views};
use vstd::prelude::*;

verus! {

/// The view of a block shows its header, and all of its transactions with all of
/// their inputs and outputs, in their order.
pub proof fn law_block_view_is_complete(block: Block, t: int)
    requires
        0 <= t < block.transactions@.len(),
    ensures
        block@.header == block.header,
        block@.transactions.len() == block.transactions@.len(),
        block@.transactions == views(block.transactions@),
        block@.transactions[t].inputs == block.transactions@[t].inputs@,
        block@.transactions[t].outputs == block.transactions@[t].outputs@,
        transaction_ids(block@.transactions).len() == block.transactions@.len(),
        transaction_ids(block@.transactions)[t] == block.transactions@[t]@.id(),
{
}

/// The views of blocks and of waiting transactions show all of them, in their order.
pub proof fn law_chain_views_are_complete(
    blocks: Seq<Block>,
    pool: Seq<(Timestamp, Transaction)>,
    i: int,
)
    ensures
        block_views(blocks).len() == blocks.len(),
        0 <= i < blocks.len() ==> block_views(blocks)[i] == blocks[i]@,
        pool_views(pool).len() == pool.len(),
        0 <= i < pool.len() ==> pool_views(pool)[i].0 == pool[i].0,
        0 <= i < pool.len() ==> pool_views(pool)[i].1.inputs == pool[i].1.inputs@,
        0 <= i < pool.len() ==> pool_views(pool)[i].1.outputs == pool[i].1.outputs@,
{
}

/// The views of texts and messages show all of them, in their order.
pub proof fn law_list_views_are_complete(
    strings: Seq<String>,
    replies: Seq<Option<Message>>,
    requests: Seq<Message>,
    i: int,
)
    ensures
        string_views(strings).len() == strings.len(),
        0 <= i < strings.len() ==> string_views(strings)[i] == strings[i]@,
        word_views(strings) == string_views(strings),
        reply_views(replies).len() == replies.len(),
        0 <= i < replies.len() ==> reply_views(replies)[i] == message_view(replies[i]),
        request_views(requests).len() == requests.len(),
        0 <= i < requests.len() ==> request_views(requests)[i] == requests[i]@,
{
    assert(word_views(strings) =~= string_views(strings));
}

/// There is a view of a message or a template if and only if there is one, and it is
/// the view of that one.
pub proof fn law_optional_views(message: Option<Message>, template: Option<Block>)
    ensures
        message_view(message) is Some <==> message is Some,
        message is Some ==> message_view(message).unwrap() == message.unwrap()@,
        template_view(template) is Some <==> template is Some,
        template is Some ==> template_view(template).unwrap() == template.unwrap()@,
{
}

} // verus!
