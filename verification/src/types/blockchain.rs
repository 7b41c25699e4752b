//! The chain of blocks, the unspent outputs and the waiting transactions.

use crate::decimal::scale;
use crate::error::BlockChainError;
use crate::sha256::zero_hash;
use crate::table::HashTable;
use crate::time::Timestamp;
use crate::types::block::{all_distinct, all_known, hashes_of_inputs, input_hashes, output_hashes,
    spent_value, sum_spent, Block, BlockHeader, BlockView, Utxos};
use crate::types::transaction::{sum_values, total_value, Transaction, TransactionOutput,
    TransactionView};
use crate::u256::U256;
use crate::util::{merkle_root, transaction_ids, views, MerkleRoot};
use vstd::prelude::*;

verus! {

/// The full chain of blocks, ordered from genesis to the most recent, with the
/// unspent outputs and the transactions that wait for a block.
#[derive(Debug)]
pub struct Blockchain {
    /// Maps transaction output hashes to their corresponding unspent outputs,
    /// marked if a waiting transaction spends them.
    utxos: HashTable<(bool, TransactionOutput)>,
    target: U256,
    blocks: Vec<Block>,
    mempool: Vec<(Timestamp, Transaction)>,
}

/// What a blockchain holds.
#[verifier::ext_equal]
pub struct ChainView {
    pub utxos: Utxos,
    pub target: U256,
    pub blocks: Seq<BlockView>,
    pub mempool: Seq<(Timestamp, TransactionView)>,
}

/// The views of several blocks.
pub open spec fn block_views(blocks: Seq<Block>) -> Seq<BlockView> {
    blocks.map_values(|b: Block| b@)
}

/// The views of waiting transactions.
pub open spec fn pool_views(pool: Seq<(Timestamp, Transaction)>) -> Seq<
    (Timestamp, TransactionView),
> {
    pool.map_values(|e: (Timestamp, Transaction)| (e.0, e.1@))
}

impl View for Blockchain {
    type V = ChainView;

    closed spec fn view(&self) -> ChainView {
        ChainView {
            utxos: self.utxos@,
            target: self.target,
            blocks: block_views(self.blocks@),
            mempool: pool_views(self.mempool@),
        }
    }
}

/// The target that follows a target when the last blocks took a number of
/// seconds: it moves in proportion to the time, by a factor of at most four, and
/// stays at or below the easiest target.
pub open spec fn next_target(target: nat, elapsed: int) -> nat {
    let scaled = (target * elapsed) / ((crate::IDEAL_BLOCK_TIME
        * crate::DIFFICULTY_UPDATE_INTERVAL) as int);
    let bounded = if scaled < target / 4 {
        target / 4
    } else if scaled > target * 4 {
        target * 4
    } else {
        scaled as nat
    };
    if bounded < crate::easiest_target()@ {
        bounded
    } else {
        crate::easiest_target()@
    }
}

/// The target after the difficulty has been adjusted for a chain of blocks: at
/// the end of every update interval, by the time that its blocks took.
pub open spec fn adjusted_target(blocks: Seq<BlockView>, target: nat) -> nat {
    let interval = crate::DIFFICULTY_UPDATE_INTERVAL as int;
    if blocks.len() == 0 || blocks.len() as int % interval != 0 {
        target
    } else {
        next_target(
            target,
            blocks.last().header.timestamp.elapsed_since(
                blocks[blocks.len() - interval].header.timestamp,
            ),
        )
    }
}

/// The target after a target, when the last blocks took a number of seconds.
pub fn retarget(target: &U256, elapsed_seconds: i64) -> (r: U256)
    ensures
        r@ == next_target(target@, elapsed_seconds as int),
{
    let target_seconds: u64 = crate::IDEAL_BLOCK_TIME * crate::DIFFICULTY_UPDATE_INTERVAL;
    let quarter = target.quarter();
    let quadruple = target.saturating_quadruple();
    let ghost t = target@ as int;
    let ghost e = elapsed_seconds as int;
    proof {
        crate::u256::lemma_u256_bound(*target);
    }
    let new_target = if elapsed_seconds < 0 {
        proof {
            assert(t * e <= 0) by (nonlinear_arith)
                requires
                    t >= 0,
                    e < 0,
            ;
        }
        quarter
    } else {
        proof {
            assert(t * e >= 0) by (nonlinear_arith)
                requires
                    t >= 0,
                    e >= 0,
            ;
        }
        let scaled = match scale(target, elapsed_seconds, target_seconds) {
            Some(v) => v,
            None => U256 { hi: u128::MAX, lo: u128::MAX },
        };
        if scaled.less_than(&quarter) {
            quarter
        } else if quadruple.less_than(&scaled) {
            quadruple
        } else {
            scaled
        }
    };
    new_target.min(crate::min_target())
}

/// What the chain says of the header of a block that is to be appended, given the
/// hash and the timestamp of the last block, the hash of the header and the Merkle
/// root of the block's transactions. The first block refers to the zero hash.
/// Every other one refers to the last block, meets its own target, carries the
/// Merkle root of its transactions and is later than the last block.
pub open spec fn header_verdict(
    last: Option<(crate::sha256::Hash, Timestamp)>,
    header: BlockHeader,
    hash: crate::sha256::Hash,
    root: MerkleRoot,
) -> Result<(), BlockChainError> {
    match last {
        None => if header.prev_block_hash != zero_hash() {
            Err(BlockChainError::InvalidBlock)
        } else {
            Ok(())
        },
        Some((last_hash, last_time)) => if header.prev_block_hash != last_hash {
            Err(BlockChainError::InvalidBlockHeader)
        } else if hash.0@ > header.target@ {
            Err(BlockChainError::InvalidBlockHeader)
        } else if header.merkle_root != root {
            Err(BlockChainError::InvalidMerkleRoot)
        } else if !header.timestamp.is_after(last_time) {
            Err(BlockChainError::InvalidBlockHeader)
        } else {
            Ok(())
        },
    }
}

/// What the chain says of a block that is to be appended.
pub open spec fn block_verdict(blocks: Seq<BlockView>, block: BlockView) -> Result<
    (),
    BlockChainError,
> {
    let last = if blocks.len() == 0 {
        None
    } else {
        Some((blocks.last().id(), blocks.last().header.timestamp))
    };
    header_verdict(last, block.header, block.header.id(), merkle_root(block.transactions))
}

/// Checks the header of a block that is to be appended, given the hash and the
/// timestamp of the last block, the hash of the header and the Merkle root of the
/// block's transactions.
pub fn check_header(
    last: Option<(crate::sha256::Hash, Timestamp)>,
    header: &BlockHeader,
    hash: crate::sha256::Hash,
    root: MerkleRoot,
) -> (r: Result<(), BlockChainError>)
    ensures
        r == header_verdict(last, *header, hash, root),
{
    match last {
        None => {
            // The first block must have a zero hash as its previous block hash.
            if header.prev_block_hash != crate::sha256::Hash::zero() {
                return Err(BlockChainError::InvalidBlock);
            }
        },
        Some((last_hash, last_time)) => {
            // The previous block hash of the new block must match the hash of the
            // last block in the chain.
            if header.prev_block_hash != last_hash {
                return Err(BlockChainError::InvalidBlockHeader);
            }
            // The hash of the new block must match the target difficulty.
            if !hash.matches(header.target) {
                return Err(BlockChainError::InvalidBlockHeader);
            }
            if root != header.merkle_root {
                return Err(BlockChainError::InvalidMerkleRoot);
            }
            if !header.timestamp.after(&last_time) {
                return Err(BlockChainError::InvalidBlockHeader);
            }
        },
    }
    Ok(())
}

/// The waiting transactions without those of a block.
pub open spec fn without_confirmed(
    mempool: Seq<(Timestamp, TransactionView)>,
    block: BlockView,
) -> Seq<(Timestamp, TransactionView)> {
    mempool.filter(
        |e: (Timestamp, TransactionView)| !transaction_ids(block.transactions).contains(e.1.id()),
    )
}

/// The waiting transactions that are young enough at an instant.
pub open spec fn still_young(
    mempool: Seq<(Timestamp, TransactionView)>,
    now: Timestamp,
) -> Seq<(Timestamp, TransactionView)> {
    mempool.filter(
        |e: (Timestamp, TransactionView)|
            now.elapsed_since(e.0) < crate::MAX_MEMPOOL_TRANSACTION_AGE,
    )
}

/// Unspent outputs with the mark of some of them changed.
pub open spec fn marked(utxos: Utxos, hashes: Seq<crate::sha256::Hash>, mark: bool) -> Utxos {
    Map::new(
        |h: crate::sha256::Hash| utxos.contains_key(h),
        |h: crate::sha256::Hash|
            if hashes.contains(h) {
                (mark, utxos[h].1)
            } else {
                utxos[h]
            },
    )
}

/// Whether the waiting transaction at position `i` is the first that creates the
/// output with a hash.
pub open spec fn is_first_creator(
    mempool: Seq<(Timestamp, TransactionView)>,
    hash: crate::sha256::Hash,
    i: int,
) -> bool {
    &&& 0 <= i < mempool.len()
    &&& output_hashes(mempool[i].1.outputs).contains(hash)
    &&& forall|j: int|
        0 <= j < i ==> !output_hashes((#[trigger] mempool[j]).1.outputs).contains(hash)
}

/// Unspent outputs after one of them has been claimed anew: if it was marked, and
/// a waiting transaction creates it, that transaction no longer marks what it
/// spends.
pub open spec fn released(
    utxos: Utxos,
    mempool: Seq<(Timestamp, TransactionView)>,
    hash: crate::sha256::Hash,
) -> Utxos {
    if utxos.contains_key(hash) && utxos[hash].0 && exists|i: int|
        is_first_creator(mempool, hash, i) {
        let i = choose|i: int| is_first_creator(mempool, hash, i);
        marked(utxos, input_hashes(mempool[i].1.inputs), false)
    } else {
        utxos
    }
}

/// Unspent outputs after several of them have been claimed anew, one after the
/// other.
pub open spec fn all_released(
    utxos: Utxos,
    mempool: Seq<(Timestamp, TransactionView)>,
    hashes: Seq<crate::sha256::Hash>,
) -> Utxos
    decreases hashes.len(),
{
    if hashes.len() == 0 {
        utxos
    } else {
        released(all_released(utxos, mempool, hashes.drop_last()), mempool, hashes.last())
    }
}

/// Whether a transaction spends known outputs, each once.
pub open spec fn spends_known_once(transaction: TransactionView, utxos: Utxos) -> bool {
    &&& all_known(input_hashes(transaction.inputs), utxos)
    &&& input_hashes(transaction.inputs).no_duplicates()
}

/// Whether a transaction may wait for a block: it spends known outputs, each
/// once, and creates no more than it spends.
pub open spec fn is_admissible(transaction: TransactionView, utxos: Utxos) -> bool {
    &&& spends_known_once(transaction, utxos)
    &&& total_value(transaction.outputs) <= spent_value(input_hashes(transaction.inputs), utxos)
}

/// What a transaction leaves to the miner: what it spends, less what it creates,
/// and nothing if it creates more.
pub open spec fn fee(transaction: TransactionView, utxos: Utxos) -> nat {
    let spent = spent_value(input_hashes(transaction.inputs), utxos);
    let created = total_value(transaction.outputs);
    if spent >= created {
        (spent - created) as nat
    } else {
        0
    }
}

/// The fees of waiting transactions.
pub open spec fn fees(mempool: Seq<(Timestamp, TransactionView)>, utxos: Utxos) -> Seq<nat> {
    mempool.map_values(|e: (Timestamp, TransactionView)| fee(e.1, utxos))
}

/// Whether all waiting transactions spend known outputs.
pub open spec fn pool_known(mempool: Seq<(Timestamp, TransactionView)>, utxos: Utxos) -> bool {
    forall|i: int|
        0 <= i < mempool.len() ==> all_known(input_hashes((#[trigger] mempool[i]).1.inputs), utxos)
}

/// Whether `order` lists the positions of `before` in the order of `after`:
/// largest key first, and among equal keys the one that came first.
pub open spec fn is_sorting<A>(
    before: Seq<A>,
    keys: Seq<nat>,
    after: Seq<A>,
    order: Seq<int>,
) -> bool {
    &&& order.len() == before.len() == after.len() == keys.len()
    &&& order.no_duplicates()
    &&& forall|i: int|
        0 <= i < order.len() ==> 0 <= #[trigger] order[i] < before.len() && after[i]
            == before[order[i]]
    &&& forall|i: int, j: int|
        0 <= i < j < order.len() ==> {
            ||| keys[#[trigger] order[i]] > keys[#[trigger] order[j]]
            ||| keys[order[i]] == keys[order[j]] && order[i] < order[j]
        }
}

/// Whether `after` holds what `before` holds, sorted by descending keys, where
/// equal keys keep their order.
pub open spec fn stably_sorted<A>(before: Seq<A>, keys: Seq<nat>, after: Seq<A>) -> bool {
    exists|order: Seq<int>| is_sorting(before, keys, after, order)
}

impl ChainView {
    /// The chain after a block has been appended.
    pub open spec fn appended(self, block: BlockView, target: U256) -> ChainView {
        ChainView {
            blocks: self.blocks.push(block),
            mempool: without_confirmed(self.mempool, block),
            target,
            ..self
        }
    }

    /// The chain after its unspent outputs have been rebuilt from its blocks.
    pub open spec fn rebuilt(self) -> ChainView {
        ChainView { utxos: after_blocks(Map::empty(), self.blocks), ..self }
    }

    /// Whether handing a transaction to the chain at an instant ends with a
    /// result and a chain.
    ///
    /// A transaction that spends unknown outputs, or one twice, changes nothing.
    /// One that creates more than it spends only takes marks back. An admissible
    /// one marks what it spends and joins the waiting transactions, which are
    /// sorted by descending fees.
    pub open spec fn pooled(
        self,
        transaction: TransactionView,
        now: Timestamp,
        r: Result<(), BlockChainError>,
        end: ChainView,
    ) -> bool {
        let hashes = input_hashes(transaction.inputs);
        let utxos = all_released(self.utxos, self.mempool, hashes);
        if !spends_known_once(transaction, self.utxos) {
            r == Err::<(), BlockChainError>(BlockChainError::InvalidTransaction) && end == self
        } else if !is_admissible(transaction, self.utxos) {
            &&& r == Err::<(), BlockChainError>(BlockChainError::InvalidTransaction)
            &&& end == (ChainView { utxos, ..self })
        } else {
            let waiting = self.mempool.push((now, transaction));
            &&& r == Ok::<(), BlockChainError>(())
            &&& end == (ChainView {
                utxos: marked(utxos, hashes, true),
                mempool: end.mempool,
                ..self
            })
            &&& stably_sorted(waiting, fees(waiting, end.utxos), end.mempool)
        }
    }
}

/// Unspent outputs without those that have been spent.
pub open spec fn without_spent(utxos: Utxos, hashes: Seq<crate::sha256::Hash>) -> Utxos
    decreases hashes.len(),
{
    if hashes.len() == 0 {
        utxos
    } else {
        without_spent(utxos, hashes.drop_last()).remove(hashes.last())
    }
}

/// Unspent outputs together with new ones, which are not marked.
pub open spec fn with_created(utxos: Utxos, outputs: Seq<TransactionOutput>) -> Utxos
    decreases outputs.len(),
{
    if outputs.len() == 0 {
        utxos
    } else {
        with_created(utxos, outputs.drop_last()).insert(
            outputs.last().id(),
            (false, outputs.last()),
        )
    }
}

/// Unspent outputs after a transaction.
pub open spec fn after_transaction(utxos: Utxos, transaction: TransactionView) -> Utxos {
    with_created(without_spent(utxos, input_hashes(transaction.inputs)), transaction.outputs)
}

/// Unspent outputs after several transactions, one after the other.
pub open spec fn after_transactions(utxos: Utxos, transactions: Seq<TransactionView>) -> Utxos
    decreases transactions.len(),
{
    if transactions.len() == 0 {
        utxos
    } else {
        after_transaction(
            after_transactions(utxos, transactions.drop_last()),
            transactions.last(),
        )
    }
}

/// Unspent outputs after the blocks of a chain, one after the other.
pub open spec fn after_blocks(utxos: Utxos, blocks: Seq<BlockView>) -> Utxos
    decreases blocks.len(),
{
    if blocks.len() == 0 {
        utxos
    } else {
        after_transactions(after_blocks(utxos, blocks.drop_last()), blocks.last().transactions)
    }
}

impl Blockchain {
    /// Creates a new empty blockchain with no blocks.
    pub fn new() -> (r: Blockchain)
        ensures
            r@ == (ChainView {
                utxos: Map::empty(),
                target: crate::easiest_target(),
                blocks: Seq::empty(),
                mempool: Seq::empty(),
            }),
    {
        let r = Blockchain {
            utxos: HashTable::new(),
            target: crate::min_target(),
            blocks: Vec::new(),
            mempool: Vec::new(),
        };
        assert(block_views(r.blocks@) =~= Seq::empty());
        assert(pool_views(r.mempool@) =~= Seq::empty());
        r
    }

    /// Restores a blockchain that was saved: the waiting transactions are not.
    pub fn restore(
        utxos: HashTable<(bool, TransactionOutput)>,
        target: U256,
        blocks: Vec<Block>,
    ) -> (r: Blockchain)
        ensures
            r@ == (ChainView {
                utxos: utxos@,
                target,
                blocks: block_views(blocks@),
                mempool: Seq::empty(),
            }),
    {
        let r = Blockchain { utxos, target, blocks, mempool: Vec::new() };
        assert(pool_views(r.mempool@) =~= Seq::empty());
        r
    }

    /// The unspent outputs by their hashes, each with its mark.
    pub fn utxos(&self) -> (r: &HashTable<(bool, TransactionOutput)>)
        ensures
            r@ == self@.utxos,
    {
        &self.utxos
    }

    /// The difficulty target of the next block.
    pub fn target(&self) -> (r: &U256)
        ensures
            *r == self@.target,
    {
        &self.target
    }

    /// The blocks, from genesis to the most recent.
    pub fn blocks(&self) -> (r: &Vec<Block>)
        ensures
            block_views(r@) == self@.blocks,
    {
        &self.blocks
    }

    /// The number of blocks.
    pub fn block_height(&self) -> (r: usize)
        ensures
            r == self@.blocks.len(),
    {
        self.blocks.len()
    }

    /// The waiting transactions, each with the time since when it waits.
    pub fn mempool(&self) -> (r: &Vec<(Timestamp, Transaction)>)
        ensures
            pool_views(r@) == self@.mempool,
    {
        &self.mempool
    }

    /// Appends a block to the end of the chain.
    ///
    /// Only its header is checked here: whoever appends a block has its
    /// transactions verified first, as `accept_block` of the node does. The
    /// transactions of the block no longer wait, and the target is adjusted.
    /// A block that is refused changes nothing.
    pub fn add_block(&mut self, block: Block) -> (r: Result<(), BlockChainError>)
        ensures
            r == block_verdict(old(self)@.blocks, block@),
            r is Err ==> final(self)@ == old(self)@,
            r is Ok ==> {
                &&& final(self)@ == old(self)@.appended(block@, final(self)@.target)
                &&& final(self)@.target@ == adjusted_target(
                    old(self)@.blocks.push(block@),
                    old(self)@.target@,
                )
            },
    {
        let last = if self.blocks.is_empty() {
            None
        } else {
            let last = &self.blocks[self.blocks.len() - 1];
            assert(self@.blocks.last() == last@);
            Some((last.hash(), last.header.timestamp))
        };
        let root = MerkleRoot::calculate(&block.transactions);
        match check_header(last, &block.header, block.header.hash(), root) {
            Ok(_) => {},
            Err(e) => {
                return Err(e);
            },
        }
        Blockchain::drop_confirmed(&mut self.mempool, &block);
        let ghost blocks = self.blocks@;
        self.blocks.push(block);
        assert(block_views(self.blocks@) =~= block_views(blocks).push(block@));
        self.try_adjust_target();
        Ok(())
    }

    /// Takes the transactions of a block out of the waiting ones.
    fn drop_confirmed(pool: &mut Vec<(Timestamp, Transaction)>, block: &Block)
        ensures
            pool_views(final(pool)@) == without_confirmed(pool_views(old(pool)@), block@),
    {
        let ghost ids = transaction_ids(block@.transactions);
        let mut confirmed: HashTable<()> = HashTable::new();
        let mut i: usize = 0;
        assert(ids.take(0) =~= Seq::empty());
        while i < block.transactions.len()
            invariant
                i <= block.transactions@.len(),
                ids == transaction_ids(block@.transactions),
                ids.len() == block.transactions@.len(),
                forall|h: crate::sha256::Hash|
                    #[trigger] confirmed@.contains_key(h) <==> ids.take(i as int).contains(h),
            decreases block.transactions@.len() - i,
        {
            let ghost seen = confirmed@;
            let id = block.transactions[i].hash();
            assert(ids[i as int] == id);
            confirmed.insert(id, ());
            proof {
                assert forall|h: crate::sha256::Hash| #[trigger]
                    confirmed@.contains_key(h) <==> ids.take(i + 1).contains(h) by {
                    assert(ids.take(i + 1) =~= ids.take(i as int).push(id));
                    lemma_push_contains(ids.take(i as int), id, h);
                    assert(seen.contains_key(h) <==> ids.take(i as int).contains(h));
                }
            }
            i = i + 1;
        }
        assert(ids.take(i as int) =~= ids);
        let ghost pred = |e: (Timestamp, TransactionView)| !ids.contains(e.1.id());
        let ghost orig = pool_views(pool@);
        let ghost mut done: int = 0;
        let mut k: usize = 0;
        proof {
            lemma_filter_start(orig, pred);
        }
        while k < pool.len()
            invariant
                0 <= done <= orig.len(),
                k == orig.take(done).filter(pred).len(),
                pool_views(pool@) == orig.take(done).filter(pred) + orig.skip(done),
                pred == (|e: (Timestamp, TransactionView)| !ids.contains(e.1.id())),
                forall|h: crate::sha256::Hash|
                    #[trigger] confirmed@.contains_key(h) <==> ids.contains(h),
            decreases pool@.len() - k,
        {
            let ghost now = pool_views(pool@);
            assert(now[k as int] == (pool@[k as int].0, pool@[k as int].1@));
            proof {
                lemma_filter_step(orig, done, pred);
            }
            let id = pool[k].1.hash();
            if confirmed.contains(&id) {
                pool.remove(k);
                assert(pool_views(pool@) =~= now.remove(k as int));
            } else {
                k = k + 1;
            }
            proof {
                done = done + 1;
            }
        }
        proof {
            assert(orig.skip(done).len() == 0);
            assert(orig.take(done) =~= orig);
            assert(pool_views(pool@) =~= orig.filter(pred));
        }
    }

    /// Adjusts the target to the time that the blocks of the last update
    /// interval took, if one has just ended.
    pub fn try_adjust_target(&mut self)
        ensures
            final(self)@ == (ChainView { target: final(self)@.target, ..old(self)@ }),
            final(self)@.target@ == adjusted_target(old(self)@.blocks, old(self)@.target@),
    {
        let interval: usize = crate::DIFFICULTY_UPDATE_INTERVAL as usize;
        if self.blocks.is_empty() {
            return ;
        }
        if self.blocks.len() % interval != 0 {
            return ;
        }
        let start_time = self.blocks[self.blocks.len() - interval].header.timestamp;
        let end_time = self.blocks[self.blocks.len() - 1].header.timestamp;
        self.target = retarget(&self.target, end_time.seconds_since(&start_time));
    }

    /// Takes out the transactions that have waited too long at an instant.
    pub fn cleanup_mempool_at(&mut self, now: Timestamp)
        ensures
            final(self)@ == (ChainView {
                mempool: still_young(old(self)@.mempool, now),
                ..old(self)@
            }),
    {
        let ghost pred = |e: (Timestamp, TransactionView)|
            now.elapsed_since(e.0) < crate::MAX_MEMPOOL_TRANSACTION_AGE;
        let ghost chain = self@;
        let ghost orig = pool_views(self.mempool@);
        let ghost mut done: int = 0;
        let mut k: usize = 0;
        proof {
            lemma_filter_start(orig, pred);
        }
        while k < self.mempool.len()
            invariant
                0 <= done <= orig.len(),
                orig == chain.mempool,
                self@ == (ChainView { mempool: self@.mempool, ..chain }),
                k == orig.take(done).filter(pred).len(),
                pool_views(self.mempool@) == orig.take(done).filter(pred) + orig.skip(done),
                pred == (|e: (Timestamp, TransactionView)|
                    now.elapsed_since(e.0) < crate::MAX_MEMPOOL_TRANSACTION_AGE),
            decreases self.mempool@.len() - k,
        {
            let ghost waiting = pool_views(self.mempool@);
            assert(waiting[k as int] == (self.mempool@[k as int].0, self.mempool@[k as int].1@));
            proof {
                lemma_filter_step(orig, done, pred);
            }
            let age: i64 = now.seconds_since(&self.mempool[k].0);
            if age >= crate::MAX_MEMPOOL_TRANSACTION_AGE as i64 {
                self.mempool.remove(k);
                assert(pool_views(self.mempool@) =~= waiting.remove(k as int));
            } else {
                k = k + 1;
            }
            proof {
                done = done + 1;
            }
        }
        proof {
            assert(orig.skip(done).len() == 0);
            assert(orig.take(done) =~= orig);
            assert(pool_views(self.mempool@) =~= orig.filter(pred));
        }
    }

    /// Takes out the transactions that have waited too long by now.
    pub fn cleanup_mempool(&mut self)
        ensures
            exists|now: Timestamp|
                now.is_clock_time() && final(self)@ == (ChainView {
                    mempool: #[trigger] still_young(old(self)@.mempool, now),
                    ..old(self)@
                }),
    {
        self.cleanup_mempool_at(Timestamp::now());
    }

    /// Rebuilds the unspent outputs from the blockchain's blocks: replays, from
    /// nothing, what every transaction spends and creates.
    pub fn rebuild_utxos(&mut self)
        ensures
            final(self)@ == old(self)@.rebuilt(),
    {
        let ghost blocks = block_views(self.blocks@);
        let ghost chain = self@;
        self.utxos = HashTable::new();
        let mut b: usize = 0;
        assert(blocks.take(0) =~= Seq::empty());
        while b < self.blocks.len()
            invariant
                b <= self.blocks@.len(),
                blocks == block_views(self.blocks@),
                chain.blocks == blocks,
                self@ == (ChainView { utxos: self@.utxos, ..chain }),
                self.utxos@ == after_blocks(Map::empty(), blocks.take(b as int)),
            decreases self.blocks@.len() - b,
        {
            let ghost before = self.utxos@;
            let ghost txs = blocks[b as int].transactions;
            let mut t: usize = 0;
            assert(txs.take(0) =~= Seq::empty());
            while t < self.blocks[b].transactions.len()
                invariant
                    b < self.blocks@.len(),
                    t <= self.blocks@[b as int].transactions@.len(),
                    blocks == block_views(self.blocks@),
                    chain.blocks == blocks,
                    self@ == (ChainView { utxos: self@.utxos, ..chain }),
                    txs == views(self.blocks@[b as int].transactions@),
                    self.utxos@ == after_transactions(before, txs.take(t as int)),
                decreases self.blocks@[b as int].transactions@.len() - t,
            {
                Blockchain::replay(&mut self.utxos, &self.blocks[b].transactions[t]);
                proof {
                    assert(txs.take(t + 1).drop_last() =~= txs.take(t as int));
                    assert(txs.take(t + 1).last() == self.blocks@[b as int].transactions@[t as int]@);
                }
                t = t + 1;
            }
            proof {
                assert(txs.take(t as int) =~= txs);
                assert(blocks.take(b + 1).drop_last() =~= blocks.take(b as int));
            }
            b = b + 1;
        }
        assert(blocks.take(b as int) =~= blocks);
    }

    /// Takes out what a transaction spends and puts in what it creates.
    fn replay(utxos: &mut HashTable<(bool, TransactionOutput)>, transaction: &Transaction)
        ensures
            final(utxos)@ == after_transaction(old(utxos)@, transaction@),
    {
        let ghost start = utxos@;
        let ghost hashes = input_hashes(transaction.inputs@);
        let mut i: usize = 0;
        assert(hashes.take(0) =~= Seq::empty());
        while i < transaction.inputs.len()
            invariant
                i <= transaction.inputs@.len(),
                hashes == input_hashes(transaction.inputs@),
                utxos@ == without_spent(start, hashes.take(i as int)),
            decreases transaction.inputs@.len() - i,
        {
            utxos.remove(&transaction.inputs[i].prev_transaction_output_hash);
            assert(hashes.take(i + 1).drop_last() =~= hashes.take(i as int));
            i = i + 1;
        }
        assert(hashes.take(i as int) =~= hashes);
        let ghost middle = utxos@;
        let ghost outputs = transaction.outputs@;
        let mut j: usize = 0;
        assert(outputs.take(0) =~= Seq::empty());
        while j < transaction.outputs.len()
            invariant
                j <= transaction.outputs@.len(),
                outputs == transaction.outputs@,
                utxos@ == with_created(middle, outputs.take(j as int)),
            decreases transaction.outputs@.len() - j,
        {
            let output = transaction.outputs[j];
            utxos.insert(output.hash(), (false, output));
            assert(outputs.take(j + 1).drop_last() =~= outputs.take(j as int));
            j = j + 1;
        }
        assert(outputs.take(j as int) =~= outputs);
    }
}

impl Blockchain {
    /// Whether all waiting transactions spend known outputs.
    pub fn waiting_inputs_known(&self) -> (r: bool)
        ensures
            r == pool_known(self@.mempool, self@.utxos),
    {
        let mut i: usize = 0;
        let ghost pool = self@.mempool;
        while i < self.mempool.len()
            invariant
                i <= self.mempool@.len(),
                pool == pool_views(self.mempool@),
                forall|k: int|
                    0 <= k < i ==> all_known(
                        input_hashes((#[trigger] pool[k]).1.inputs),
                        self.utxos@,
                    ),
            decreases self.mempool@.len() - i,
        {
            assert(pool[i as int].1 == self.mempool@[i as int].1@);
            let hashes = hashes_of_inputs(&self.mempool[i].1.inputs);
            if sum_spent(&hashes, &self.utxos).is_none() {
                return false;
            }
            i = i + 1;
        }
        true
    }

    /// Whether a transaction may wait for a block.
    pub fn admits(&self, tx: &Transaction) -> (r: bool)
        ensures
            r == is_admissible(tx@, self@.utxos),
    {
        let hashes = hashes_of_inputs(&tx.inputs);
        match sum_spent(&hashes, &self.utxos) {
            Some(input_value) => all_distinct(&hashes) && sum_values(&tx.outputs) <= input_value,
            None => false,
        }
    }

    /// Adds a transaction to the waiting ones.
    ///
    /// An output that is claimed anew is released first: the waiting transaction
    /// that creates it no longer marks what it spends. See
    /// [`ChainView::pooled`].
    pub fn add_to_mempool(&mut self, tx: Transaction) -> (r: Result<(), BlockChainError>)
        requires
            is_admissible(tx@, old(self)@.utxos) ==> pool_known(
                old(self)@.mempool,
                old(self)@.utxos,
            ),
        ensures
            exists|now: Timestamp|
                now.is_clock_time() && #[trigger] old(self)@.pooled(tx@, now, r, final(self)@),
            r is Ok <==> is_admissible(tx@, old(self)@.utxos),
    {
        self.add_to_mempool_at(tx, Timestamp::now())
    }

    /// Adds a transaction to the waiting ones, as of the given time.
    pub fn add_to_mempool_at(&mut self, tx: Transaction, now: Timestamp) -> (r: Result<
        (),
        BlockChainError,
    >)
        requires
            is_admissible(tx@, old(self)@.utxos) ==> pool_known(
                old(self)@.mempool,
                old(self)@.utxos,
            ),
        ensures
            old(self)@.pooled(tx@, now, r, final(self)@),
            r is Ok <==> is_admissible(tx@, old(self)@.utxos),
    {
        let ghost start = self@;
        let hashes = hashes_of_inputs(&tx.inputs);
        let input_value: u128 = match sum_spent(&hashes, &self.utxos) {
            Some(total) => total,
            None => {
                return Err(BlockChainError::InvalidTransaction);
            },
        };
        if !all_distinct(&hashes) {
            return Err(BlockChainError::InvalidTransaction);
        }
        let mut i: usize = 0;
        assert(hashes@.take(0) =~= Seq::empty());
        while i < hashes.len()
            invariant
                i <= hashes@.len(),
                self@ == (ChainView { utxos: self@.utxos, ..start }),
                self.utxos@ == all_released(start.utxos, start.mempool, hashes@.take(i as int)),
            decreases hashes@.len() - i,
        {
            Blockchain::release(&mut self.utxos, &self.mempool, &hashes[i]);
            proof {
                assert(hashes@.take(i + 1).drop_last() =~= hashes@.take(i as int));
                assert(hashes@.take(i + 1).last() == hashes@[i as int]);
            }
            i = i + 1;
        }
        assert(hashes@.take(i as int) =~= hashes@);
        if input_value < sum_values(&tx.outputs) {
            return Err(BlockChainError::InvalidTransaction);
        }
        let ghost released = self.utxos@;
        Blockchain::set_marks(&mut self.utxos, &hashes, true);
        self.mempool.push((now, tx));
        let ghost waiting = start.mempool.push((now, tx@));
        proof {
            lemma_all_released_same(start.utxos, start.mempool, hashes@);
            lemma_marked_same(released, hashes@, true);
            assert(same_outputs(start.utxos, self.utxos@));
            assert(pool_views(self.mempool@) =~= waiting);
            assert forall|k: int| 0 <= k < waiting.len() implies all_known(
                input_hashes((#[trigger] waiting[k]).1.inputs),
                self.utxos@,
            ) by {
                if k < start.mempool.len() {
                    assert(waiting[k] == start.mempool[k]);
                }
                lemma_same_outputs(
                    start.utxos,
                    self.utxos@,
                    input_hashes(waiting[k].1.inputs),
                );
            }
        }
        let mut keys: Vec<u128> = Vec::new();
        let mut k: usize = 0;
        while k < self.mempool.len()
            invariant
                k <= self.mempool@.len(),
                keys@.len() == k,
                pool_views(self.mempool@) == waiting,
                pool_known(waiting, self.utxos@),
                forall|j: int| 0 <= j < k ==> #[trigger] keys@[j] == fees(waiting, self.utxos@)[j],
            decreases self.mempool@.len() - k,
        {
            assert(waiting[k as int].1 == self.mempool@[k as int].1@);
            keys.push(transaction_fee(&self.mempool[k].1, &self.utxos));
            k = k + 1;
        }
        Blockchain::sort_by_fee(&mut self.mempool, keys);
        proof {
            let given = fees(waiting, self.utxos@);
            assert(as_nats(keys@) =~= given);
            assert(stably_sorted(waiting, given, pool_views(self.mempool@)));
        }
        Ok(())
    }

    /// Releases an output that is claimed anew.
    fn release(
        utxos: &mut HashTable<(bool, TransactionOutput)>,
        pool: &Vec<(Timestamp, Transaction)>,
        hash: &crate::sha256::Hash,
    )
        ensures
            final(utxos)@ == released(old(utxos)@, pool_views(pool@), *hash),
    {
        let is_marked = match utxos.get(hash) {
            Some(entry) => entry.0,
            None => false,
        };
        if !is_marked {
            return ;
        }
        match Blockchain::first_creator(pool, hash) {
            Some(i) => {
                let spent = hashes_of_inputs(&pool[i].1.inputs);
                proof {
                    let views = pool_views(pool@);
                    let chosen = choose|j: int| is_first_creator(views, *hash, j);
                    assert(is_first_creator(views, *hash, i as int));
                    assert(is_first_creator(views, *hash, chosen));
                    if chosen < i {
                        assert(output_hashes(views[chosen].1.outputs).contains(*hash));
                    } else if i < chosen {
                        assert(output_hashes(views[i as int].1.outputs).contains(*hash));
                    }
                    assert(views[i as int].1 == pool@[i as int].1@);
                }
                Blockchain::set_marks(utxos, &spent, false);
            },
            None => {},
        }
    }

    /// The position of the first waiting transaction that creates an output.
    fn first_creator(pool: &Vec<(Timestamp, Transaction)>, hash: &crate::sha256::Hash) -> (r: Option<
        usize,
    >)
        ensures
            match r {
                Some(i) => is_first_creator(pool_views(pool@), *hash, i as int),
                None => forall|i: int| !is_first_creator(pool_views(pool@), *hash, i),
            },
    {
        let ghost views = pool_views(pool@);
        let mut i: usize = 0;
        while i < pool.len()
            invariant
                i <= pool@.len(),
                views == pool_views(pool@),
                forall|j: int|
                    0 <= j < i ==> !output_hashes((#[trigger] views[j]).1.outputs).contains(*hash),
            decreases pool@.len() - i,
        {
            assert(views[i as int].1 == pool@[i as int].1@);
            let outputs = &pool[i].1.outputs;
            let ghost ids = output_hashes(outputs@);
            let mut k: usize = 0;
            while k < outputs.len()
                invariant
                    i < pool@.len(),
                    k <= outputs@.len(),
                    views == pool_views(pool@),
                    views[i as int].1.outputs == outputs@,
                    ids == output_hashes(outputs@),
                    forall|j: int|
                        0 <= j < i ==> !output_hashes((#[trigger] views[j]).1.outputs).contains(
                            *hash,
                        ),
                    forall|j: int| 0 <= j < k ==> #[trigger] ids[j] != *hash,
                decreases outputs@.len() - k,
            {
                let id = outputs[k].hash();
                assert(ids[k as int] == id);
                if id == *hash {
                    return Some(i);
                }
                k = k + 1;
            }
            i = i + 1;
        }
        None
    }

    /// Changes the mark of the known outputs among the given ones.
    fn set_marks(
        utxos: &mut HashTable<(bool, TransactionOutput)>,
        hashes: &Vec<crate::sha256::Hash>,
        mark: bool,
    )
        ensures
            final(utxos)@ == marked(old(utxos)@, hashes@, mark),
    {
        let ghost start = utxos@;
        let mut i: usize = 0;
        assert(utxos@ =~= marked(start, hashes@.take(0), mark));
        while i < hashes.len()
            invariant
                i <= hashes@.len(),
                utxos@ == marked(start, hashes@.take(i as int), mark),
            decreases hashes@.len() - i,
        {
            let hash = hashes[i];
            let output: Option<TransactionOutput> = match utxos.get(&hash) {
                Some(entry) => Some(entry.1),
                None => None,
            };
            proof {
                assert(hashes@.take(i + 1) =~= hashes@.take(i as int).push(hash));
                assert forall|h: crate::sha256::Hash| #[trigger]
                    hashes@.take(i + 1).contains(h) <==> hashes@.take(i as int).contains(h) || h
                        == hash by {
                    lemma_push_contains(hashes@.take(i as int), hash, h);
                }
            }
            match output {
                Some(output) => {
                    utxos.insert(hash, (mark, output));
                },
                None => {},
            }
            assert(utxos@ =~= marked(start, hashes@.take(i + 1), mark));
            i = i + 1;
        }
        assert(hashes@.take(i as int) =~= hashes@);
    }

    /// Sorts waiting transactions by descending keys. Equal keys keep their
    /// order.
    fn sort_by_fee(pool: &mut Vec<(Timestamp, Transaction)>, keys: Vec<u128>)
        requires
            keys@.len() == old(pool)@.len(),
        ensures
            stably_sorted(pool_views(old(pool)@), as_nats(keys@), pool_views(final(pool)@)),
    {
        let ghost orig = pool_views(pool@);
        let ghost n = pool@.len() as int;
        let ghost given = as_nats(keys@);
        let ghost mut order: Seq<int> = Seq::new(pool@.len(), |i: int| i);
        let mut sorted: Vec<u128> = Vec::new();
        let mut i: usize = 0;
        while i < pool.len()
            invariant
                i <= pool@.len() == n,
                keys@.len() == n,
                orig.len() == n,
                given == as_nats(keys@),
                order.len() == n,
                sorted@.len() == i,
                forall|k: int| 0 <= k < n ==> pool_views(pool@)[k] == orig[#[trigger] order[k]],
                forall|k: int| 0 <= k < i ==> 0 <= #[trigger] order[k] < i,
                forall|k: int| i <= k < n ==> #[trigger] order[k] == k,
                forall|k: int| 0 <= k < i ==> #[trigger] sorted@[k] == keys@[order[k]],
                order.no_duplicates(),
                forall|a: int, b: int|
                    0 <= a < b < i ==> {
                        ||| given[#[trigger] order[a]] > given[#[trigger] order[b]]
                        ||| given[order[a]] == given[order[b]] && order[a] < order[b]
                    },
            decreases n - i,
        {
            let key: u128 = keys[i];
            let mut at: usize = 0;
            while at < i && sorted[at] >= key
                invariant
                    at <= i == sorted@.len(),
                    forall|k: int| 0 <= k < at ==> #[trigger] sorted@[k] >= key,
                decreases i - at,
            {
                at = at + 1;
            }
            let ghost before = pool_views(pool@);
            let ghost old_order = order;
            let item = pool.remove(i);
            pool.insert(at, item);
            sorted.insert(at, key);
            proof {
                order = old_order.remove(i as int).insert(at as int, i as int);
                assert(pool_views(pool@) =~= before.remove(i as int).insert(
                    at as int,
                    before[i as int],
                ));
                lemma_inserted(old_order, i as int, at as int);
                assert forall|k: int| 0 <= k < n implies pool_views(pool@)[k]
                    == orig[#[trigger] order[k]] by {
                    if k == at {
                        assert(before[i as int] == orig[old_order[i as int]]);
                    } else if k < at || k > i {
                        assert(before[k] == orig[old_order[k]]);
                    } else {
                        assert(before[k - 1] == orig[old_order[k - 1]]);
                    }
                }
                assert forall|k: int| 0 <= k < i + 1 implies #[trigger] sorted@[k]
                    == keys@[order[k]] by {
                }
                assert forall|a: int, b: int| 0 <= a < b < i + 1 implies {
                    ||| given[#[trigger] order[a]] > given[#[trigger] order[b]]
                    ||| given[order[a]] == given[order[b]] && order[a] < order[b]
                } by {
                    let a2 = if a > at { a - 1 } else { a };
                    let b2 = if b > at { b - 1 } else { b };
                    assert(sorted@[a] == keys@[order[a]] && sorted@[b] == keys@[order[b]]);
                    if b == at {
                        assert(order[a] == old_order[a]);
                    } else if a == at {
                        // What follows the new entry has a smaller key than the entry
                        // at whose place it was put, or is that entry.
                        assert(order[b] == old_order[b2]);
                        if at < b2 {
                            assert(order[at + 1] == old_order[at as int]);
                            assert(given[old_order[at as int]] >= given[old_order[b2]]);
                        }
                    } else {
                        assert(order[a] == old_order[a2] && order[b] == old_order[b2]);
                    }
                }
            }
            i = i + 1;
        }
        proof {
            assert(is_sorting(orig, given, pool_views(pool@), order));
        }
    }
}

/// Integers as numbers.
pub open spec fn as_nats(keys: Seq<u128>) -> Seq<nat> {
    keys.map_values(|k: u128| k as nat)
}

/// Moving an entry to the front keeps a permutation a permutation.
proof fn lemma_inserted(order: Seq<int>, from: int, to: int)
    requires
        0 <= to <= from < order.len(),
        order.no_duplicates(),
        forall|k: int| 0 <= k < from ==> 0 <= #[trigger] order[k] < from,
        forall|k: int| from <= k < order.len() ==> #[trigger] order[k] == k,
    ensures
        ({
            let moved = order.remove(from).insert(to, from);
            &&& moved.len() == order.len()
            &&& moved.no_duplicates()
            &&& forall|k: int| 0 <= k < from + 1 ==> 0 <= #[trigger] moved[k] < from + 1
            &&& forall|k: int| from + 1 <= k < order.len() ==> #[trigger] moved[k] == k
        }),
{
    let moved = order.remove(from).insert(to, from);
    assert forall|k: int| 0 <= k < moved.len() implies #[trigger] moved[k] == (if k < to {
        order[k]
    } else if k == to {
        order[from]
    } else if k <= from {
        order[k - 1]
    } else {
        order[k]
    }) by {
    }
    assert forall|a: int, b: int| 0 <= a < moved.len() && 0 <= b < moved.len() && a
        != b implies moved[a] != moved[b] by {
        let a2 = if a < to || a > from {
            a
        } else if a == to {
            from
        } else {
            a - 1
        };
        let b2 = if b < to || b > from {
            b
        } else if b == to {
            from
        } else {
            b - 1
        };
        assert(moved[a] == order[a2] && moved[b] == order[b2]);
    }
}

/// What a transaction leaves to the miner.
pub fn transaction_fee(tx: &Transaction, utxos: &HashTable<(bool, TransactionOutput)>) -> (r: u128)
    requires
        all_known(input_hashes(tx@.inputs), utxos@),
    ensures
        r == fee(tx@, utxos@),
{
    let hashes = hashes_of_inputs(&tx.inputs);
    let inputs: u128 = match sum_spent(&hashes, utxos) {
        Some(total) => total,
        None => 0,
    };
    let outputs: u128 = sum_values(&tx.outputs);
    if inputs >= outputs {
        inputs - outputs
    } else {
        0
    }
}

/// Whether two sets of unspent outputs differ in their marks at most.
pub open spec fn same_outputs(a: Utxos, b: Utxos) -> bool {
    &&& forall|h: crate::sha256::Hash| #[trigger] a.contains_key(h) <==> b.contains_key(h)
    &&& forall|h: crate::sha256::Hash| #[trigger] a.contains_key(h) ==> a[h].1 == b[h].1
}

/// Marks change neither which outputs are known nor what they are worth.
pub proof fn lemma_same_outputs(a: Utxos, b: Utxos, hashes: Seq<crate::sha256::Hash>)
    requires
        same_outputs(a, b),
        all_known(hashes, a),
    ensures
        all_known(hashes, b),
        spent_value(hashes, a) == spent_value(hashes, b),
    decreases hashes.len(),
{
    if hashes.len() > 0 {
        assert(a.contains_key(hashes[hashes.len() - 1]));
        assert forall|i: int| 0 <= i < hashes.drop_last().len() implies a.contains_key(
            #[trigger] hashes.drop_last()[i],
        ) by {
            assert(hashes.drop_last()[i] == hashes[i]);
        }
        lemma_same_outputs(a, b, hashes.drop_last());
    }
    assert forall|i: int| 0 <= i < hashes.len() implies b.contains_key(#[trigger] hashes[i]) by {
        assert(a.contains_key(hashes[i]));
    }
}

proof fn lemma_marked_same(utxos: Utxos, hashes: Seq<crate::sha256::Hash>, mark: bool)
    ensures
        same_outputs(utxos, marked(utxos, hashes, mark)),
{
}

/// Releasing changes marks only.
pub proof fn lemma_all_released_same(
    utxos: Utxos,
    mempool: Seq<(Timestamp, TransactionView)>,
    hashes: Seq<crate::sha256::Hash>,
)
    ensures
        same_outputs(utxos, all_released(utxos, mempool, hashes)),
    decreases hashes.len(),
{
    if hashes.len() > 0 {
        lemma_all_released_same(utxos, mempool, hashes.drop_last());
    }
}

/// A sequence contains what it contained and what was pushed.
pub proof fn lemma_push_contains<A>(s: Seq<A>, a: A, x: A)
    ensures
        s.push(a).contains(x) <==> s.contains(x) || x == a,
{
    if s.contains(x) {
        let i = choose|i: int| 0 <= i < s.len() && s[i] == x;
        assert(s.push(a)[i] == x);
    }
    assert(s.push(a)[s.len() as int] == a);
    if s.push(a).contains(x) {
        let i = choose|i: int| 0 <= i < s.push(a).len() && s.push(a)[i] == x;
        if i < s.len() {
            assert(s[i] == x);
        }
    }
}

proof fn lemma_filter_start<A>(s: Seq<A>, pred: spec_fn(A) -> bool)
    ensures
        s.take(0).filter(pred).len() == 0,
        s.take(0).filter(pred) + s.skip(0) =~= s,
{
    reveal(Seq::filter);
    assert(s.take(0).len() == 0);
}

/// Filtering one more element keeps or drops it.
proof fn lemma_filter_step<A>(s: Seq<A>, n: int, pred: spec_fn(A) -> bool)
    ensures
        0 <= n < s.len() ==> {
            let kept = s.take(n).filter(pred);
            let next = s.take(n + 1).filter(pred);
            &&& next == if pred(s[n]) {
                kept.push(s[n])
            } else {
                kept
            }
            &&& pred(s[n]) ==> kept + s.skip(n) =~= next + s.skip(n + 1)
            &&& !pred(s[n]) ==> (kept + s.skip(n)).remove(kept.len() as int) =~= next + s.skip(
                n + 1,
            )
            &&& (kept + s.skip(n))[kept.len() as int] == s[n]
        },
{
    if 0 <= n < s.len() {
        reveal(Seq::filter);
        assert(s.take(n + 1).drop_last() =~= s.take(n));
        assert(s.take(n + 1).last() == s[n]);
    }
}

} // verus!
