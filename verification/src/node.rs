//! What a node answers to a message.

use crate::crypto::PublicKey;
use crate::network::{string_views, Message, MessageView};
use crate::sha256::zero_hash;
use crate::table::ascending;
use crate::time::Timestamp;
use crate::types::block::{block_reward, miner_fees, transactions_verdict, Block, BlockHeader,
    BlockView, Utxos};
use crate::types::blockchain::{adjusted_target, block_verdict, is_admissible, lemma_push_contains,
    pool_known, pool_views, Blockchain, ChainView};
use crate::types::transaction::{Transaction, TransactionOutput, TransactionView};
use crate::unique_id::{is_random_uuid, new_unique_id};
use crate::util::{merkle_root, views, MerkleRoot};
use vstd::prelude::*;

verus! {

/// What a node does upon a message.
#[derive(Debug)]
pub struct Response {
    /// What it sends back.
    pub reply: Option<Message>,
    /// What it sends to all nodes that it is connected to.
    pub broadcast: Option<Message>,
    /// Whether it keeps the connection open.
    pub keep_alive: bool,
}

/// What a response holds.
#[verifier::ext_equal]
pub struct ResponseView {
    pub reply: Option<MessageView>,
    pub broadcast: Option<MessageView>,
    pub keep_alive: bool,
}

/// The view of a message, if there is one.
pub open spec fn message_view(message: Option<Message>) -> Option<MessageView> {
    match message {
        Some(message) => Some(message@),
        None => None,
    }
}

impl View for Response {
    type V = ResponseView;

    open spec fn view(&self) -> ResponseView {
        ResponseView {
            reply: message_view(self.reply),
            broadcast: message_view(self.broadcast),
            keep_alive: self.keep_alive,
        }
    }
}

/// A response without any message.
pub open spec fn silence(keep_alive: bool) -> ResponseView {
    ResponseView { reply: None, broadcast: None, keep_alive }
}

/// A response with a reply only.
pub open spec fn replying(message: MessageView, keep_alive: bool) -> ResponseView {
    ResponseView { reply: Some(message), broadcast: None, keep_alive }
}

/// A response with a message to all nodes only.
pub open spec fn spreading(message: MessageView, keep_alive: bool) -> ResponseView {
    ResponseView { reply: None, broadcast: Some(message), keep_alive }
}

/// The hash that the next block refers to: that of the last block, or zeros.
pub open spec fn tip(blocks: Seq<BlockView>) -> crate::sha256::Hash {
    if blocks.len() == 0 {
        zero_hash()
    } else {
        blocks.last().id()
    }
}

/// The 32-bit integer that differs from `a - b` by a multiple of 2 to the power
/// of 32: the difference itself, where it fits.
pub open spec fn wrapped_difference(a: int, b: int) -> int {
    let low = (a - b) % 0x1_0000_0000;
    if low < 0x8000_0000 {
        low
    } else {
        low - 0x1_0000_0000
    }
}

/// Whether `hashes` lists the unspent outputs of a key, in ascending order.
pub open spec fn lists_owned(
    utxos: Utxos,
    key: PublicKey,
    hashes: Seq<crate::sha256::Hash>,
) -> bool {
    &&& ascending(hashes)
    &&& forall|h: crate::sha256::Hash| #[trigger]
        hashes.contains(h) <==> utxos.contains_key(h) && utxos[h].1.pubkey == key
}

/// The unspent outputs with the given hashes, each with its mark.
pub open spec fn outputs_at(utxos: Utxos, hashes: Seq<crate::sha256::Hash>) -> Seq<
    (TransactionOutput, bool),
> {
    hashes.map_values(|h: crate::sha256::Hash| (utxos[h].1, utxos[h].0))
}

/// Whether a response hands out the unspent outputs of a key, in the ascending
/// order of their hashes, and closes the connection.
pub open spec fn hands_out(utxos: Utxos, key: PublicKey, r: ResponseView) -> bool {
    exists|hashes: Seq<crate::sha256::Hash>|
        #![trigger lists_owned(utxos, key, hashes)]
        {
            &&& lists_owned(utxos, key, hashes)
            &&& r == replying(MessageView::UTXOs(outputs_at(utxos, hashes)), false)
        }
}

/// A transaction that creates one output out of nothing.
pub open spec fn coinbase(pubkey: PublicKey, unique_id: u128, value: u64) -> TransactionView {
    TransactionView {
        inputs: Seq::empty(),
        outputs: seq![TransactionOutput { value, unique_id, pubkey }],
    }
}

/// The waiting transactions that the next block takes: the first ones, as many
/// as a block may hold beside its coinbase.
pub open spec fn taken(mempool: Seq<(Timestamp, TransactionView)>) -> Seq<TransactionView> {
    let n = if mempool.len() < crate::BLOCK_TRANSACTION_CAP {
        mempool.len() as int
    } else {
        crate::BLOCK_TRANSACTION_CAP - 1
    };
    mempool.take(n).map_values(|e: (Timestamp, TransactionView)| e.1)
}

impl ChainView {
    /// The fees of the transactions that the next block takes.
    pub open spec fn template_fees(self) -> Result<u64, crate::error::BlockChainError> {
        let nothing = TransactionView { inputs: Seq::empty(), outputs: Seq::empty() };
        miner_fees(seq![nothing] + taken(self.mempool), self.utxos)
    }

    /// What the coinbase of the next block is worth: the reward and the fees, if
    /// the transactions leave fees and the sum fits in 64 bits.
    pub open spec fn template_value(self) -> Option<u64> {
        match self.template_fees() {
            Ok(fees) => if block_reward(self.blocks.len()) + fees <= u64::MAX {
                Some((block_reward(self.blocks.len()) + fees) as u64)
            } else {
                None
            },
            Err(_) => None,
        }
    }

    /// The next block, to be mined for a key: a coinbase that pays the reward and
    /// the fees to the key, and the first waiting transactions.
    pub open spec fn template(self, pubkey: PublicKey, now: Timestamp, unique_id: u128) -> Option<
        BlockView,
    > {
        match self.template_value() {
            Some(value) => {
                let transactions = seq![coinbase(pubkey, unique_id, value)] + taken(self.mempool);
                Some(
                    BlockView {
                        header: BlockHeader {
                            timestamp: now,
                            nonce: 0,
                            prev_block_hash: tip(self.blocks),
                            merkle_root: merkle_root(transactions),
                            target: self.target,
                        },
                        transactions,
                    },
                )
            },
            None => None,
        }
    }

    /// What a node with this chain says of a block: it must not hold more
    /// transactions than a block may, they are held against the unspent outputs,
    /// and its header against the chain.
    pub open spec fn acceptance(self, block: BlockView) -> Result<
        (),
        crate::error::BlockChainError,
    > {
        let verdict = transactions_verdict(block.transactions, self.blocks.len(), self.utxos);
        if block.transactions.len() > crate::BLOCK_TRANSACTION_CAP {
            Err(crate::error::BlockChainError::InvalidBlock)
        } else if verdict is Err {
            verdict
        } else {
            block_verdict(self.blocks, block)
        }
    }

    /// Whether offering a block to this chain ends with `end`: the chain with the
    /// block appended, the target adjusted and the unspent outputs rebuilt, or
    /// this chain if the block is refused.
    pub open spec fn extended(self, block: BlockView, end: ChainView) -> bool {
        if self.acceptance(block) is Ok {
            &&& end == self.appended(block, end.target).rebuilt()
            &&& end.target@ == adjusted_target(self.blocks.push(block), self.target@)
        } else {
            end == self
        }
    }

    /// Whether a node with this chain, which is connected to `nodes`, answers a
    /// message with `r` and then has the chain `end`. The time and the unique
    /// identifier are those that the node takes when it needs them.
    pub open spec fn responds(
        self,
        nodes: Seq<Seq<char>>,
        message: MessageView,
        now: Timestamp,
        unique_id: u128,
        r: ResponseView,
        end: ChainView,
    ) -> bool {
        match message {
            MessageView::FetchBlock(height) => {
                &&& end == self
                &&& r == if height < self.blocks.len() {
                    replying(MessageView::NewBlock(self.blocks[height as int]), true)
                } else {
                    silence(false)
                }
            },
            MessageView::DiscoverNodes => {
                &&& end == self
                &&& r == replying(MessageView::NodeList(nodes), true)
            },
            MessageView::AskDifference(height) => {
                &&& end == self
                &&& r == replying(
                    MessageView::Difference(
                        wrapped_difference(self.blocks.len() as int, height as int) as i32,
                    ),
                    true,
                )
            },
            MessageView::FetchUTXOs(key) => {
                &&& end == self
                &&& hands_out(self.utxos, key, r)
            },
            MessageView::NewBlock(block) => {
                &&& self.extended(block, end)
                &&& r == silence(true)
            },
            MessageView::NewTransaction(tx) => {
                let accepted = is_admissible(tx, self.utxos);
                &&& exists|result: Result<(), crate::error::BlockChainError>| #[trigger]
                    self.pooled(tx, now, result, end)
                &&& r == silence(accepted)
            },
            MessageView::ValidateTemplate(block) => {
                &&& end == self
                &&& r == replying(
                    MessageView::TemplateValidity(
                        block.header.prev_block_hash == tip(self.blocks),
                    ),
                    true,
                )
            },
            MessageView::SubmitTemplate(block) => {
                &&& self.extended(block, end)
                &&& r == if self.acceptance(block) is Ok {
                    spreading(MessageView::NewBlock(block), true)
                } else {
                    silence(false)
                }
            },
            MessageView::SubmitTransaction(tx) => {
                &&& exists|result: Result<(), crate::error::BlockChainError>| #[trigger]
                    self.pooled(tx, now, result, end)
                &&& r == if is_admissible(tx, self.utxos) {
                    spreading(MessageView::NewTransaction(tx), false)
                } else {
                    silence(false)
                }
            },
            MessageView::FetchTemplate(pubkey) => {
                &&& end == self
                &&& r == match self.template(pubkey, now, unique_id) {
                    Some(block) => replying(MessageView::Template(block), true),
                    None => silence(false),
                }
            },
            // A node is neither a miner nor a wallet.
            _ => end == self && r == silence(false),
        }
    }

    /// Whether the chain can take in the transaction of a message, if it carries
    /// one: all that waits can be ranked by its fee.
    pub open spec fn can_rank(self, message: MessageView) -> bool {
        match message {
            MessageView::NewTransaction(tx) => is_admissible(tx, self.utxos) ==> pool_known(
                self.mempool,
                self.utxos,
            ),
            MessageView::SubmitTransaction(tx) => is_admissible(tx, self.utxos) ==> pool_known(
                self.mempool,
                self.utxos,
            ),
            _ => true,
        }
    }
}

/// The hash that the next block of a chain refers to.
fn tip_hash(chain: &Blockchain) -> (r: crate::sha256::Hash)
    ensures
        r == tip(chain@.blocks),
{
    let blocks = chain.blocks();
    if blocks.len() == 0 {
        crate::sha256::Hash::zero()
    } else {
        assert(chain@.blocks.last() == blocks@[blocks@.len() - 1]@);
        blocks[blocks.len() - 1].hash()
    }
}

/// Responds with a message only.
fn reply(message: Message, keep_alive: bool) -> (r: Response)
    ensures
        r@ == replying(message@, keep_alive),
{
    Response { reply: Some(message), broadcast: None, keep_alive }
}

/// Responds with nothing.
fn say_nothing(keep_alive: bool) -> (r: Response)
    ensures
        r@ == silence(keep_alive),
{
    Response { reply: None, broadcast: None, keep_alive }
}

/// Sends the block at the requested height back to the peer, or closes the
/// connection if the height is beyond the current chain tip.
pub fn fetch_block(chain: &Blockchain, height: usize) -> (r: Response)
    ensures
        r@ == if height < chain@.blocks.len() {
            replying(MessageView::NewBlock(chain@.blocks[height as int]), true)
        } else {
            silence(false)
        },
{
    let blocks = chain.blocks();
    if height < blocks.len() {
        assert(chain@.blocks[height as int] == blocks@[height as int]@);
        reply(Message::NewBlock(blocks[height].clone()), true)
    } else {
        say_nothing(false)
    }
}

/// Responds with the addresses of all currently connected peer nodes.
pub fn discover_nodes(nodes: Vec<String>) -> (r: Response)
    ensures
        r@ == replying(MessageView::NodeList(string_views(nodes@)), true),
{
    reply(Message::NodeList(nodes), true)
}

/// The difference of two heights, as far as 32 bits tell.
fn wrapping_difference(own: u64, height: u32) -> (count: i32)
    ensures
        count == wrapped_difference(own as int, height as int),
{
    let range: u64 = 0x1_0000_0000;
    let low: u64 = (own % range + range - height as u64) % range;
    proof {
        lemma_low_part(own as int, height as int);
    }
    if low < 0x8000_0000 {
        low as i32
    } else {
        (low as i64 - 0x1_0000_0000) as i32
    }
}

/// The low parts of two numbers tell the low part of their difference.
proof fn lemma_low_part(a: int, b: int)
    ensures
        (a % 0x1_0000_0000 + 0x1_0000_0000 - b) % 0x1_0000_0000 == (a - b) % 0x1_0000_0000,
{
}

/// Responds with how many blocks ahead (positive) or behind (negative) this node
/// is relative to the peer's reported height.
pub fn ask_difference(chain: &Blockchain, height: u32) -> (r: Response)
    ensures
        r@ == replying(
            MessageView::Difference(
                wrapped_difference(chain@.blocks.len() as int, height as int) as i32,
            ),
            true,
        ),
{
    let count: i32 = wrapping_difference(chain.block_height() as u64, height);
    reply(Message::Difference(count), true)
}

/// Filters the unspent outputs by public key and sends the matching ones to the
/// peer.
pub fn fetch_utxos(chain: &Blockchain, key: PublicKey) -> (r: Response)
    ensures
        hands_out(chain@.utxos, key, r@),
{
    let table = chain.utxos();
    let mut found: Vec<(TransactionOutput, bool)> = Vec::new();
    let ghost mut hashes: Seq<crate::sha256::Hash> = Seq::empty();
    let n = table.len();
    let ghost keys = table.keys();
    let mut i: usize = 0;
    while i < n
        invariant
            i <= n == keys.len(),
            keys == table.keys(),
            ascending(keys),
            table@ == chain@.utxos,
            ascending(hashes),
            found@ =~= outputs_at(table@, hashes),
            forall|k: int| 0 <= k < hashes.len() ==> keys.take(i as int).contains(#[trigger] hashes[k]),
            forall|h: crate::sha256::Hash| #[trigger]
                hashes.contains(h) <==> keys.take(i as int).contains(h) && table@[h].1.pubkey == key,
        decreases n - i,
    {
        let (hash, value) = table.entry(i);
        let ghost before = hashes;
        let ghost seen = keys.take(i as int);
        let ghost now = keys.take(i + 1);
        proof {
            assert(now =~= seen.push(*hash));
            assert forall|h: crate::sha256::Hash| #[trigger]
                now.contains(h) <==> seen.contains(h) || h == *hash by {
                lemma_push_contains(seen, *hash, h);
            }
        }
        if value.1.pubkey == key {
            found.push((value.1, value.0));
            proof {
                hashes = before.push(*hash);
                assert forall|a: int, b: int| 0 <= a < b < hashes.len() implies (
                #[trigger] hashes[a]).0@ < (#[trigger] hashes[b]).0@ by {
                    if b == before.len() {
                        assert(seen.contains(before[a]));
                        let j = choose|j: int| 0 <= j < seen.len() && seen[j] == before[a];
                        assert(keys[j] == before[a] && keys[i as int] == *hash);
                    } else {
                        assert(before[a].0@ < before[b].0@);
                    }
                }
                assert forall|h: crate::sha256::Hash| #[trigger]
                    hashes.contains(h) <==> now.contains(h) && table@[h].1.pubkey == key by {
                    lemma_push_contains(before, *hash, h);
                    assert(before.contains(h) <==> seen.contains(h) && table@[h].1.pubkey == key);
                }
                assert forall|k: int| 0 <= k < hashes.len() implies now.contains(
                    #[trigger] hashes[k],
                ) by {
                    assert(hashes.contains(hashes[k]));
                }
            }
        } else {
            proof {
                assert forall|h: crate::sha256::Hash| #[trigger]
                    hashes.contains(h) <==> now.contains(h) && table@[h].1.pubkey == key by {
                    assert(before.contains(h) <==> seen.contains(h) && table@[h].1.pubkey == key);
                }
                assert forall|k: int| 0 <= k < hashes.len() implies now.contains(
                    #[trigger] hashes[k],
                ) by {
                    assert(hashes.contains(hashes[k]));
                }
            }
        }
        i = i + 1;
    }
    proof {
        assert(keys.take(i as int) =~= keys);
        assert(lists_owned(chain@.utxos, key, hashes));
    }
    reply(Message::UTXOs(found), false)
}

/// Verifies the transactions of a block, which holds no more of them than a block
/// may, appends it to the chain and rebuilds the unspent outputs. A block that is
/// refused changes nothing.
pub fn accept_block(chain: &mut Blockchain, block: Block) -> (r: Result<
    (),
    crate::error::BlockChainError,
>)
    ensures
        r == old(chain)@.acceptance(block@),
        old(chain)@.extended(block@, final(chain)@),
{
    if block.transactions.len() > crate::BLOCK_TRANSACTION_CAP {
        return Err(crate::error::BlockChainError::InvalidBlock);
    }
    match block.verify_transactions(chain.block_height() as u64, chain.utxos()) {
        Ok(_) => {},
        Err(e) => {
            return Err(e);
        },
    }
    match chain.add_block(block) {
        Ok(_) => {
            chain.rebuild_utxos();
            Ok(())
        },
        Err(e) => Err(e),
    }
}

/// Adds a block forwarded by another node to the local chain. The connection
/// stays open even if the block is refused.
pub fn new_block(chain: &mut Blockchain, block: Block) -> (r: Response)
    ensures
        old(chain)@.extended(block@, final(chain)@),
        r@ == silence(true),
{
    let _ = accept_block(chain, block);
    say_nothing(true)
}

/// Adds a transaction forwarded by another node to the waiting ones, or closes
/// the connection if it is refused.
pub fn new_transaction(chain: &mut Blockchain, tx: Transaction, now: Timestamp) -> (r: Response)
    requires
        is_admissible(tx@, old(chain)@.utxos) ==> pool_known(
            old(chain)@.mempool,
            old(chain)@.utxos,
        ),
    ensures
        exists|result: Result<(), crate::error::BlockChainError>| #[trigger]
            old(chain)@.pooled(tx@, now, result, final(chain)@),
        r@ == silence(is_admissible(tx@, old(chain)@.utxos)),
{
    let result = chain.add_to_mempool_at(tx, now);
    say_nothing(result.is_ok())
}

/// Checks whether the template's predecessor still is the current chain tip, so
/// that the miner can decide to keep or discard it.
pub fn validate_template(chain: &Blockchain, block_template: &Block) -> (r: Response)
    ensures
        r@ == replying(
            MessageView::TemplateValidity(
                block_template@.header.prev_block_hash == tip(chain@.blocks),
            ),
            true,
        ),
{
    let status = block_template.header.prev_block_hash == tip_hash(chain);
    reply(Message::TemplateValidity(status), true)
}

/// Validates and appends a mined block, rebuilds the unspent outputs, then
/// broadcasts the block to all known peers. Closes the connection if the block is
/// refused.
pub fn submit_template(chain: &mut Blockchain, block: Block) -> (r: Response)
    ensures
        old(chain)@.extended(block@, final(chain)@),
        r@ == if old(chain)@.acceptance(block@) is Ok {
            spreading(MessageView::NewBlock(block@), true)
        } else {
            silence(false)
        },
{
    match accept_block(chain, block.clone()) {
        Ok(_) => Response {
            reply: None,
            broadcast: Some(Message::NewBlock(block)),
            keep_alive: true,
        },
        Err(_) => say_nothing(false),
    }
}

/// Adds a wallet-submitted transaction to the waiting ones and forwards it to all
/// known peers. The connection is closed in any case.
pub fn submit_transaction(chain: &mut Blockchain, tx: Transaction, now: Timestamp) -> (r: Response)
    requires
        is_admissible(tx@, old(chain)@.utxos) ==> pool_known(
            old(chain)@.mempool,
            old(chain)@.utxos,
        ),
    ensures
        exists|result: Result<(), crate::error::BlockChainError>| #[trigger]
            old(chain)@.pooled(tx@, now, result, final(chain)@),
        r@ == if is_admissible(tx@, old(chain)@.utxos) {
            spreading(MessageView::NewTransaction(tx@), false)
        } else {
            silence(false)
        },
{
    match chain.add_to_mempool_at(tx.clone(), now) {
        Ok(_) => Response {
            reply: None,
            broadcast: Some(Message::NewTransaction(tx)),
            keep_alive: false,
        },
        Err(_) => say_nothing(false),
    }
}

/// Builds a block from the first waiting transactions, with a coinbase output for
/// the requesting miner's public key that is worth the block reward and the fees,
/// and sends it back. Closes the connection if the fee calculation fails.
pub fn fetch_template(
    chain: &Blockchain,
    pubkey: PublicKey,
    now: Timestamp,
    unique_id: u128,
) -> (r: Response)
    ensures
        r@ == match chain@.template(pubkey, now, unique_id) {
            Some(block) => replying(MessageView::Template(block), true),
            None => silence(false),
        },
{
    let pool = chain.mempool();
    let mut transactions: Vec<Transaction> = Vec::new();
    transactions.push(coinbase_transaction(pubkey, unique_id, 0));
    let ghost first = views(transactions@);
    let ghost waiting = chain@.mempool;
    let mut i: usize = 0;
    assert(views(transactions@) =~= first + waiting.take(0).map_values(
        |e: (Timestamp, TransactionView)| e.1,
    ));
    while i < pool.len() && i < crate::BLOCK_TRANSACTION_CAP - 1
        invariant
            i <= pool@.len(),
            i <= crate::BLOCK_TRANSACTION_CAP - 1,
            waiting == pool_views(pool@),
            first.len() == 1,
            views(transactions@) == first + waiting.take(i as int).map_values(
                |e: (Timestamp, TransactionView)| e.1,
            ),
        decreases pool@.len() - i,
    {
        let ghost before = transactions@;
        transactions.push(pool[i].1.clone());
        proof {
            assert(waiting[i as int].1 == pool@[i as int].1@);
            assert(views(transactions@) =~= views(before).push(pool@[i as int].1@));
            assert(views(transactions@) =~= first + waiting.take(i + 1).map_values(
                |e: (Timestamp, TransactionView)| e.1,
            ));
        }
        i = i + 1;
    }
    let ghost rest = taken(waiting);
    assert(views(transactions@) =~= first + rest);
    let header = BlockHeader {
        timestamp: now,
        nonce: 0,
        prev_block_hash: tip_hash(chain),
        merkle_root: MerkleRoot::calculate(&transactions),
        target: *chain.target(),
    };
    let mut block = Block::new(header, transactions);
    proof {
        let nothing = TransactionView { inputs: Seq::empty(), outputs: Seq::empty() };
        assert((first + rest).skip(1) =~= rest);
        assert((seq![nothing] + rest).skip(1) =~= rest);
        assert(chain@.template_fees() == miner_fees(block@.transactions, chain@.utxos));
    }
    let fees: u64 = match block.calculate_miner_fees(chain.utxos()) {
        Ok(fees) => fees,
        Err(_) => {
            return say_nothing(false);
        },
    };
    let reward: u64 = Block::calculate_block_reward(chain.block_height() as u64);
    let value: u64 = match reward.checked_add(fees) {
        Some(value) => value,
        None => {
            return say_nothing(false);
        },
    };
    let ghost transactions = block.transactions@;
    block.transactions.set(0, coinbase_transaction(pubkey, unique_id, value));
    proof {
        assert(views(block.transactions@) =~= seq![coinbase(pubkey, unique_id, value)] + rest);
    }
    block.header.merkle_root = MerkleRoot::calculate(&block.transactions);
    reply(Message::Template(block), true)
}

/// Makes a coinbase transaction.
fn coinbase_transaction(pubkey: PublicKey, unique_id: u128, value: u64) -> (r: Transaction)
    ensures
        r@ == coinbase(pubkey, unique_id, value),
{
    let mut outputs: Vec<TransactionOutput> = Vec::new();
    outputs.push(TransactionOutput { value, unique_id, pubkey });
    let r = Transaction::new(Vec::new(), outputs);
    assert(r@ =~= coinbase(pubkey, unique_id, value));
    r
}

/// Whether a chain can take in the transaction of a message, if it carries one.
pub fn can_rank(chain: &Blockchain, message: &Message) -> (r: bool)
    ensures
        r == chain@.can_rank(message@),
{
    match message {
        Message::NewTransaction(tx) => !chain.admits(tx) || chain.waiting_inputs_known(),
        Message::SubmitTransaction(tx) => !chain.admits(tx) || chain.waiting_inputs_known(),
        _ => true,
    }
}

/// Routes a message to its handler, at the given time and with a unique
/// identifier for a coinbase.
pub fn respond_with(
    chain: &mut Blockchain,
    nodes: Vec<String>,
    message: Message,
    now: Timestamp,
    unique_id: u128,
) -> (r: Response)
    requires
        old(chain)@.can_rank(message@),
    ensures
        old(chain)@.responds(
            string_views(nodes@),
            message@,
            now,
            unique_id,
            r@,
            final(chain)@,
        ),
{
    match message {
        Message::UTXOs(_) => say_nothing(false),
        Message::Template(_) => say_nothing(false),
        Message::Difference(_) => say_nothing(false),
        Message::TemplateValidity(_) => say_nothing(false),
        Message::NodeList(_) => say_nothing(false),
        Message::FetchBlock(height) => fetch_block(chain, height),
        Message::DiscoverNodes => discover_nodes(nodes),
        Message::AskDifference(height) => ask_difference(chain, height),
        Message::FetchUTXOs(key) => fetch_utxos(chain, key),
        Message::NewBlock(block) => new_block(chain, block),
        Message::NewTransaction(tx) => new_transaction(chain, tx, now),
        Message::ValidateTemplate(block_template) => validate_template(chain, &block_template),
        Message::SubmitTemplate(block) => submit_template(chain, block),
        Message::SubmitTransaction(tx) => submit_transaction(chain, tx, now),
        Message::FetchTemplate(pubkey) => fetch_template(chain, pubkey, now, unique_id),
    }
}

/// Routes a message that a connection has brought to its handler.
pub fn handle_connection(chain: &mut Blockchain, nodes: Vec<String>, message: Message) -> (r:
    Response)
    requires
        old(chain)@.can_rank(message@),
    ensures
        exists|now: Timestamp, unique_id: u128|
            now.is_clock_time() && is_random_uuid(unique_id) && #[trigger] old(chain)@.responds(
                string_views(nodes@),
                message@,
                now,
                unique_id,
                r@,
                final(chain)@,
            ),
{
    respond_with(chain, nodes, message, Timestamp::now(), new_unique_id())
}

/// Whether the node at position `i` has the longest chain, and is the first of
/// those that have it.
pub open spec fn is_longest(counts: Seq<i32>, i: int) -> bool {
    &&& 0 <= i < counts.len()
    &&& forall|j: int| 0 <= j < counts.len() ==> #[trigger] counts[j] <= counts[i]
    &&& forall|j: int| 0 <= j < i ==> #[trigger] counts[j] < counts[i]
}

/// Finds the node with the longest chain, given how many blocks each has.
pub fn find_longest_chain(counts: &Vec<i32>) -> (r: Option<usize>)
    ensures
        match r {
            Some(i) => is_longest(counts@, i as int),
            None => counts@.len() == 0,
        },
{
    if counts.len() == 0 {
        return None;
    }
    let mut best: usize = 0;
    let mut i: usize = 1;
    while i < counts.len()
        invariant
            best < i <= counts@.len(),
            forall|j: int| 0 <= j < i ==> #[trigger] counts@[j] <= counts@[best as int],
            forall|j: int| 0 <= j < best ==> #[trigger] counts@[j] < counts@[best as int],
        decreases counts@.len() - i,
    {
        if counts[i] > counts[best] {
            best = i;
        }
        i = i + 1;
    }
    Some(best)
}

} // verus!
