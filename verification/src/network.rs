//! The messages between nodes, miners and wallets, and the frames in which they
//! travel: the length of the payload in 8 bytes, most significant first, and the
//! payload.

use crate::bytes::{be_bytes, be_value, lemma_be_bytes_len, lemma_be_read_back, lemma_be_value_bound,
    lemma_pow256_8, to_be};
use crate::crypto::PublicKey;
use crate::types::block::{Block, BlockView};
use crate::types::transaction::{Transaction, TransactionOutput, TransactionView};
use vstd::prelude::*;

verus! {

/// What travels between a node and its peers, miners and wallets.
#[derive(Debug)]
pub enum Message {
    /// The unspent outputs of a key, each with its mark: the reply to
    /// `FetchUTXOs`.
    UTXOs(Vec<(TransactionOutput, bool)>),
    /// A block to be mined: the reply to `FetchTemplate`.
    Template(Block),
    /// By how many blocks a node is ahead: the reply to `AskDifference`.
    Difference(i32),
    /// Whether a template still extends the chain: the reply to
    /// `ValidateTemplate`.
    TemplateValidity(bool),
    /// Addresses of nodes: the reply to `DiscoverNodes`.
    NodeList(Vec<String>),
    /// Asks for the block at a height.
    FetchBlock(usize),
    /// Asks for the addresses of the known nodes.
    DiscoverNodes,
    /// Asks by how many blocks the node is ahead of a height.
    AskDifference(u32),
    /// Asks for the unspent outputs of a key.
    FetchUTXOs(PublicKey),
    /// Hands over a block.
    NewBlock(Block),
    /// Hands over a transaction that another node has accepted.
    NewTransaction(Transaction),
    /// Asks whether a template still extends the chain.
    ValidateTemplate(Block),
    /// Hands over a mined block.
    SubmitTemplate(Block),
    /// Hands over a transaction of a wallet.
    SubmitTransaction(Transaction),
    /// Asks for a block to be mined for a key.
    FetchTemplate(PublicKey),
}

/// What a message holds.
#[verifier::ext_equal]
pub enum MessageView {
    UTXOs(Seq<(TransactionOutput, bool)>),
    Template(BlockView),
    Difference(i32),
    TemplateValidity(bool),
    NodeList(Seq<Seq<char>>),
    FetchBlock(usize),
    DiscoverNodes,
    AskDifference(u32),
    FetchUTXOs(PublicKey),
    NewBlock(BlockView),
    NewTransaction(TransactionView),
    ValidateTemplate(BlockView),
    SubmitTemplate(BlockView),
    SubmitTransaction(TransactionView),
    FetchTemplate(PublicKey),
}

/// The views of several strings.
pub open spec fn string_views(strings: Seq<String>) -> Seq<Seq<char>> {
    strings.map_values(|s: String| s@)
}

impl View for Message {
    type V = MessageView;

    open spec fn view(&self) -> MessageView {
        match *self {
            Message::UTXOs(utxos) => MessageView::UTXOs(utxos@),
            Message::Template(block) => MessageView::Template(block@),
            Message::Difference(count) => MessageView::Difference(count),
            Message::TemplateValidity(valid) => MessageView::TemplateValidity(valid),
            Message::NodeList(nodes) => MessageView::NodeList(string_views(nodes@)),
            Message::FetchBlock(height) => MessageView::FetchBlock(height),
            Message::DiscoverNodes => MessageView::DiscoverNodes,
            Message::AskDifference(height) => MessageView::AskDifference(height),
            Message::FetchUTXOs(key) => MessageView::FetchUTXOs(key),
            Message::NewBlock(block) => MessageView::NewBlock(block@),
            Message::NewTransaction(tx) => MessageView::NewTransaction(tx@),
            Message::ValidateTemplate(block) => MessageView::ValidateTemplate(block@),
            Message::SubmitTemplate(block) => MessageView::SubmitTemplate(block@),
            Message::SubmitTransaction(tx) => MessageView::SubmitTransaction(tx@),
            Message::FetchTemplate(key) => MessageView::FetchTemplate(key),
        }
    }
}

/// The frame of a payload.
pub open spec fn framed(payload: Seq<u8>) -> Seq<u8> {
    be_bytes(payload.len(), 8) + payload
}

/// Puts a payload in a frame.
pub fn frame(payload: &Vec<u8>) -> (r: Vec<u8>)
    ensures
        r@ == framed(payload@),
{
    let mut r = to_be(payload.len() as u128, 8);
    let mut body = payload.clone();
    assert(body@ =~= payload@);
    r.append(&mut body);
    r
}

/// Reads the length that a frame starts with.
pub fn payload_length(prefix: [u8; 8]) -> (r: u64)
    ensures
        r == be_value(prefix@),
{
    let mut r: u64 = 0;
    let mut i: usize = 0;
    assert(prefix@.take(0) =~= Seq::empty());
    while i < 8
        invariant
            i <= 8,
            r == be_value(prefix@.take(i as int)),
        decreases 8 - i,
    {
        proof {
            assert(prefix@.take(i + 1).drop_last() =~= prefix@.take(i as int));
            lemma_be_value_bound(prefix@.take(i + 1));
            lemma_short_bound((i + 1) as nat);
        }
        r = r * 256 + prefix[i] as u64;
        i = i + 1;
    }
    assert(prefix@.take(8) =~= prefix@);
    r
}

/// Eight bytes and fewer stand for less than 2 to the power of 64.
proof fn lemma_short_bound(n: nat)
    requires
        n <= 8,
    ensures
        crate::bytes::pow256(n) <= 0x1_0000_0000_0000_0000,
{
    reveal_with_fuel(crate::bytes::pow256, 9);
}

/// What is framed can be read back: the first 8 bytes of a frame stand for the
/// length of the payload, and the payload follows.
pub proof fn law_frame_is_read_back(payload: Seq<u8>)
    requires
        payload.len() <= u64::MAX,
    ensures
        framed(payload).len() == 8 + payload.len(),
        be_value(framed(payload).take(8)) == payload.len(),
        framed(payload).skip(8) == payload,
{
    lemma_be_bytes_len(payload.len(), 8);
    lemma_pow256_8();
    lemma_be_read_back(payload.len(), 8);
    assert(framed(payload).take(8) =~= be_bytes(payload.len(), 8));
    assert(framed(payload).skip(8) =~= payload);
}

} // verus!
