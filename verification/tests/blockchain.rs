use rsbtc::crypto::{PrivateKey, Signature};
use rsbtc::error::BlockChainError;
use rsbtc::table::HashTable;
use rsbtc::time::Timestamp;
use rsbtc::types::block::{Block, BlockHeader};
use rsbtc::types::blockchain::{check_header, transaction_fee, Blockchain};
use rsbtc::types::transaction::{Transaction, TransactionInput, TransactionOutput};
use rsbtc::u256::U256;
use rsbtc::util::MerkleRoot;

const ANY: U256 = U256 { hi: u128::MAX, lo: u128::MAX };

fn key(n: u8) -> PrivateKey {
    PrivateKey::from_slice(&[n; 32]).unwrap()
}

fn output(value: u64, id: u128, owner: u8) -> TransactionOutput {
    TransactionOutput { value, unique_id: id, pubkey: key(owner).public_key() }
}

fn spend(out: &TransactionOutput, owner: u8) -> TransactionInput {
    let hash = out.hash();
    TransactionInput {
        prev_transaction_output_hash: hash,
        signature: Signature::sign_output(&hash, &key(owner)),
    }
}

fn at(seconds: i64) -> Timestamp {
    Timestamp::new(seconds, 0).unwrap()
}

fn tip(chain: &Blockchain) -> rsbtc::sha256::Hash {
    match chain.blocks().last() {
        Some(block) => block.hash(),
        None => rsbtc::sha256::Hash::zero(),
    }
}

fn next(chain: &Blockchain, seconds: i64, transactions: Vec<Transaction>) -> Block {
    let root = MerkleRoot::calculate(&transactions);
    Block::new(BlockHeader::new(at(seconds), 0, tip(chain), root, ANY), transactions)
}

fn coinbase(id: u128) -> Transaction {
    Transaction::new(vec![], vec![output(5_000_000_000, id, 1)])
}

fn funded(outputs: &[TransactionOutput]) -> Blockchain {
    let mut table = HashTable::new();
    for out in outputs {
        table.insert(out.hash(), (false, *out));
    }
    Blockchain::restore(table, rsbtc::min_target(), vec![])
}

fn mark(chain: &Blockchain, out: &TransactionOutput) -> Option<bool> {
    chain.utxos().get(&out.hash()).map(|entry| entry.0)
}

#[test]
fn new_chain_is_empty() {
    let chain = Blockchain::new();
    assert_eq!(chain.block_height(), 0);
    assert_eq!(chain.blocks().len(), 0);
    assert_eq!(chain.mempool().len(), 0);
    assert_eq!(chain.utxos().len(), 0);
    assert_eq!(*chain.target(), rsbtc::min_target());
}

#[test]
fn first_block_refers_to_zero() {
    let mut chain = Blockchain::new();
    let mut wrong = next(&chain, 0, vec![coinbase(1)]);
    wrong.header.prev_block_hash = rsbtc::sha256::Hash::hash(&"x");
    assert_eq!(chain.add_block(wrong), Err(BlockChainError::InvalidBlock));
    assert_eq!(chain.block_height(), 0);
    // The first block is not held to a target or a Merkle root.
    let mut first = next(&chain, 0, vec![coinbase(1)]);
    first.header.target = U256::zero();
    first.header.merkle_root = MerkleRoot(rsbtc::sha256::Hash::hash(&"x"));
    assert_eq!(chain.add_block(first), Ok(()));
    assert_eq!(chain.block_height(), 1);
}

#[test]
fn later_blocks_are_checked() {
    let mut chain = Blockchain::new();
    let first = next(&chain, 100, vec![coinbase(1)]);
    chain.add_block(first).unwrap();
    let good = next(&chain, 101, vec![coinbase(2)]);

    let mut unlinked = good.clone();
    unlinked.header.prev_block_hash = rsbtc::sha256::Hash::zero();
    assert_eq!(chain.add_block(unlinked), Err(BlockChainError::InvalidBlockHeader));

    let mut unmined = good.clone();
    unmined.header.target = U256::zero();
    assert_eq!(chain.add_block(unmined), Err(BlockChainError::InvalidBlockHeader));

    let mut unrooted = good.clone();
    unrooted.header.merkle_root = MerkleRoot(rsbtc::sha256::Hash::zero());
    assert_eq!(chain.add_block(unrooted), Err(BlockChainError::InvalidMerkleRoot));

    for seconds in [99, 100] {
        let early = next(&chain, seconds, vec![coinbase(2)]);
        assert_eq!(chain.add_block(early), Err(BlockChainError::InvalidBlockHeader));
    }

    assert_eq!(chain.block_height(), 1);
    assert_eq!(chain.add_block(good.clone()), Ok(()));
    assert_eq!(chain.block_height(), 2);
    assert_eq!(chain.blocks()[1].hash(), good.hash());
    assert_eq!(chain.add_block(good), Err(BlockChainError::InvalidBlockHeader));
}

#[test]
fn blocks_are_linked_and_later() {
    let mut chain = Blockchain::new();
    for n in 0..5 {
        let block = next(&chain, 10 * n, vec![coinbase(n as u128)]);
        chain.add_block(block).unwrap();
    }
    let blocks = chain.blocks();
    for i in 1..5 {
        assert_eq!(blocks[i].header.prev_block_hash, blocks[i - 1].hash());
        assert!(blocks[i].header.timestamp.after(&blocks[i - 1].header.timestamp));
        assert_eq!(blocks[i].header.merkle_root, MerkleRoot::calculate(&blocks[i].transactions));
    }
}

#[test]
fn rebuild_replays_the_blocks() {
    let mut chain = Blockchain::new();
    let reward = output(5_000_000_000, 1, 1);
    let (paid, change) = (output(100, 2, 2), output(4_999_999_900, 3, 1));
    let first = next(&chain, 0, vec![coinbase(1)]);
    chain.add_block(first).unwrap();
    assert_eq!(chain.utxos().len(), 0);
    let tx = Transaction::new(vec![spend(&reward, 1)], vec![paid, change]);
    let second = next(&chain, 1, vec![coinbase(4), tx]);
    chain.add_block(second).unwrap();
    chain.rebuild_utxos();
    assert_eq!(mark(&chain, &reward), None);
    assert_eq!(mark(&chain, &paid), Some(false));
    assert_eq!(mark(&chain, &change), Some(false));
    assert_eq!(chain.utxos().len(), 3);
    chain.rebuild_utxos();
    assert_eq!(chain.utxos().len(), 3);
    assert_eq!(chain.utxos().get(&paid.hash()), Some(&(false, paid)));
}

#[test]
fn rebuild_takes_marks_back() {
    let mut chain = Blockchain::new();
    let first = next(&chain, 0, vec![coinbase(1)]);
    chain.add_block(first).unwrap();
    chain.rebuild_utxos();
    let reward = output(5_000_000_000, 1, 1);
    let tx = Transaction::new(vec![spend(&reward, 1)], vec![output(1, 2, 2)]);
    chain.add_to_mempool(tx).unwrap();
    assert_eq!(mark(&chain, &reward), Some(true));
    chain.rebuild_utxos();
    assert_eq!(mark(&chain, &reward), Some(false));
}

#[test]
fn rebuild_starts_from_nothing() {
    let stranger = output(10, 7, 7);
    let mut chain = funded(&[stranger]);
    let tx = Transaction::new(vec![spend(&stranger, 7)], vec![]);
    chain.add_to_mempool(tx).unwrap();
    assert_eq!(mark(&chain, &stranger), Some(true));
    let first = next(&chain, 0, vec![coinbase(1)]);
    chain.add_block(first).unwrap();
    chain.rebuild_utxos();
    assert_eq!(mark(&chain, &stranger), None);
    assert_eq!(mark(&chain, &output(5_000_000_000, 1, 1)), Some(false));
    assert_eq!(chain.utxos().len(), 1);
    assert_eq!(chain.mempool().len(), 1);
}

#[test]
fn admitted_transaction_marks_what_it_spends() {
    let (a, b) = (output(10, 1, 1), output(20, 2, 1));
    let mut chain = funded(&[a, b]);
    let tx = Transaction::new(vec![spend(&a, 1)], vec![output(9, 3, 2)]);
    assert_eq!(transaction_fee(&tx, chain.utxos()), 1);
    assert_eq!(chain.add_to_mempool_at(tx.clone(), at(50)), Ok(()));
    assert_eq!(mark(&chain, &a), Some(true));
    assert_eq!(mark(&chain, &b), Some(false));
    assert_eq!(chain.mempool().len(), 1);
    assert_eq!(chain.mempool()[0].0, at(50));
    assert_eq!(chain.mempool()[0].1.hash(), tx.hash());
    assert!(chain.waiting_inputs_known());
}

#[test]
fn inadmissible_transactions_are_refused() {
    let (a, stranger) = (output(10, 1, 1), output(10, 2, 1));
    let mut chain = funded(&[a]);
    let unknown = Transaction::new(vec![spend(&stranger, 1)], vec![]);
    let twice = Transaction::new(vec![spend(&a, 1), spend(&a, 1)], vec![]);
    let greedy = Transaction::new(vec![spend(&a, 1)], vec![output(11, 3, 2)]);
    for tx in [unknown, twice, greedy] {
        assert_eq!(chain.add_to_mempool(tx), Err(BlockChainError::InvalidTransaction));
    }
    assert_eq!(chain.mempool().len(), 0);
    assert_eq!(mark(&chain, &a), Some(false));
    let exact = Transaction::new(vec![spend(&a, 1)], vec![output(10, 3, 2)]);
    assert_eq!(chain.add_to_mempool(exact), Ok(()));
}

#[test]
fn best_fees_come_first_and_equal_fees_keep_their_order() {
    let outputs: Vec<TransactionOutput> = (0..6).map(|n| output(100, n, 1)).collect();
    let mut chain = funded(&outputs);
    let fees = [5u64, 7, 5, 1, 7, 6];
    let mut ids = Vec::new();
    for (n, fee) in fees.iter().enumerate() {
        let tx = Transaction::new(
            vec![spend(&outputs[n], 1)],
            vec![output(100 - fee, 50 + n as u128, 2)],
        );
        ids.push(tx.hash());
        chain.add_to_mempool_at(tx, at(n as i64)).unwrap();
    }
    let order: Vec<rsbtc::sha256::Hash> = chain.mempool().iter().map(|e| e.1.hash()).collect();
    let expected: Vec<rsbtc::sha256::Hash> = [1, 4, 5, 0, 2, 3].iter().map(|n: &usize| ids[*n]).collect();
    assert_eq!(order, expected);
    let times: Vec<i64> = chain.mempool().iter().map(|e| e.0.seconds()).collect();
    assert_eq!(times, vec![1, 4, 5, 0, 2, 3]);
}

#[test]
fn claiming_a_marked_output_releases_what_its_creator_spends() {
    // The waiting transaction that creates `middle` spends `source`.
    let (source, middle) = (output(10, 1, 1), output(8, 2, 1));
    let mut chain = funded(&[source, middle]);
    let creator = Transaction::new(vec![spend(&source, 1)], vec![middle]);
    chain.add_to_mempool_at(creator, at(1)).unwrap();
    let first = Transaction::new(vec![spend(&middle, 1)], vec![output(7, 3, 1)]);
    chain.add_to_mempool_at(first, at(2)).unwrap();
    assert_eq!((mark(&chain, &source), mark(&chain, &middle)), (Some(true), Some(true)));
    let again = Transaction::new(vec![spend(&middle, 1)], vec![output(6, 4, 1)]);
    chain.add_to_mempool_at(again, at(3)).unwrap();
    assert_eq!((mark(&chain, &source), mark(&chain, &middle)), (Some(false), Some(true)));
    assert_eq!(chain.mempool().len(), 3);
}

#[test]
fn refused_claim_takes_marks_back_too() {
    let (source, middle) = (output(10, 1, 1), output(8, 2, 1));
    let mut chain = funded(&[source, middle]);
    let creator = Transaction::new(vec![spend(&source, 1)], vec![middle]);
    chain.add_to_mempool_at(creator, at(1)).unwrap();
    let first = Transaction::new(vec![spend(&middle, 1)], vec![]);
    chain.add_to_mempool_at(first, at(2)).unwrap();
    let greedy = Transaction::new(vec![spend(&middle, 1)], vec![output(9, 4, 1)]);
    assert_eq!(
        chain.add_to_mempool_at(greedy, at(3)),
        Err(BlockChainError::InvalidTransaction)
    );
    assert_eq!((mark(&chain, &source), mark(&chain, &middle)), (Some(false), Some(true)));
    assert_eq!(chain.mempool().len(), 2);
}

#[test]
fn confirmed_transactions_leave() {
    let (a, b) = (output(10, 1, 1), output(20, 2, 1));
    let mut chain = funded(&[a, b]);
    let one = Transaction::new(vec![spend(&a, 1)], vec![]);
    let two = Transaction::new(vec![spend(&b, 1)], vec![]);
    chain.add_to_mempool(one.clone()).unwrap();
    chain.add_to_mempool(two.clone()).unwrap();
    let block = next(&chain, 0, vec![coinbase(9), one]);
    chain.add_block(block).unwrap();
    assert_eq!(chain.mempool().len(), 1);
    assert_eq!(chain.mempool()[0].1.hash(), two.hash());
}

#[test]
fn old_transactions_leave() {
    let (a, b, c) = (output(10, 1, 1), output(20, 2, 1), output(30, 3, 1));
    let mut chain = funded(&[a, b, c]);
    for (out, seconds) in [(a, 0), (b, 1), (c, 2)] {
        chain.add_to_mempool_at(Transaction::new(vec![spend(&out, 1)], vec![]), at(seconds)).unwrap();
    }
    chain.cleanup_mempool_at(at(3599));
    assert_eq!(chain.mempool().len(), 3);
    chain.cleanup_mempool_at(at(3601));
    let left: Vec<i64> = chain.mempool().iter().map(|e| e.0.seconds()).collect();
    assert_eq!(left, vec![2]);
    chain.cleanup_mempool();
    assert_eq!(chain.mempool().len(), 0);
}

#[test]
fn target_is_adjusted_after_every_interval() {
    let start = U256 { hi: 1 << 80, lo: 0 };
    let mut chain = Blockchain::restore(HashTable::new(), start, vec![]);
    for n in 0..49 {
        let block = next(&chain, 20 * n, vec![]);
        chain.add_block(block).unwrap();
        assert_eq!(*chain.target(), start);
    }
    // 50 blocks, the last of which comes 1000 seconds after the first.
    let block = next(&chain, 1000, vec![]);
    chain.add_block(block).unwrap();
    assert_eq!(*chain.target(), U256 { hi: 2 << 80, lo: 0 });
    let block = next(&chain, 1001, vec![]);
    chain.add_block(block).unwrap();
    assert_eq!(*chain.target(), U256 { hi: 2 << 80, lo: 0 });
}

#[test]
fn fast_blocks_make_the_target_harder() {
    let start = U256 { hi: 1 << 80, lo: 0 };
    let mut chain = Blockchain::restore(HashTable::new(), start, vec![]);
    for n in 0..50 {
        let block = next(&chain, n, vec![]);
        chain.add_block(block).unwrap();
    }
    assert_eq!(*chain.target(), U256 { hi: 1 << 78, lo: 0 });
    chain.try_adjust_target();
    assert_eq!(*chain.target(), U256 { hi: 1 << 76, lo: 0 });
}

#[test]
fn target_of_an_empty_chain_stays() {
    let mut chain = Blockchain::new();
    chain.try_adjust_target();
    assert_eq!(*chain.target(), rsbtc::min_target());
}

#[test]
fn fee_is_what_is_left() {
    let a = output(10, 1, 1);
    let chain = funded(&[a]);
    let fee = |values: Vec<u64>| {
        let outputs = values.iter().enumerate().map(|(n, v)| output(*v, 70 + n as u128, 2)).collect();
        transaction_fee(&Transaction::new(vec![spend(&a, 1)], outputs), chain.utxos())
    };
    assert_eq!(fee(vec![]), 10);
    assert_eq!(fee(vec![3, 4]), 3);
    assert_eq!(fee(vec![10]), 0);
    assert_eq!(fee(vec![11]), 0);
    assert_eq!(fee(vec![u64::MAX, u64::MAX]), 0);
}

#[test]
fn waiting_transactions_may_lose_their_inputs() {
    let reward = output(5_000_000_000, 1, 1);
    let mut chain = Blockchain::new();
    let first = next(&chain, 0, vec![coinbase(1)]);
    chain.add_block(first).unwrap();
    chain.rebuild_utxos();
    let waiting = Transaction::new(vec![spend(&reward, 1)], vec![output(1, 2, 2)]);
    let rival = Transaction::new(vec![spend(&reward, 1)], vec![output(2, 3, 3)]);
    chain.add_to_mempool(waiting).unwrap();
    let second = next(&chain, 1, vec![coinbase(4), rival]);
    chain.add_block(second).unwrap();
    assert!(chain.waiting_inputs_known());
    chain.rebuild_utxos();
    assert!(!chain.waiting_inputs_known());
}

#[test]
fn header_is_checked_against_given_hashes() {
    let h = |n: u128| rsbtc::sha256::Hash(U256 { hi: 0, lo: n });
    let header = BlockHeader::new(at(10), 0, h(1), MerkleRoot(h(2)), U256 { hi: 0, lo: 100 });
    let root = MerkleRoot(h(2));
    assert_eq!(check_header(None, &header, h(3), root), Err(BlockChainError::InvalidBlock));
    assert_eq!(check_header(Some((h(1), at(9))), &header, h(100), root), Ok(()));
    assert_eq!(
        check_header(Some((h(9), at(9))), &header, h(3), root),
        Err(BlockChainError::InvalidBlockHeader)
    );
    assert_eq!(
        check_header(Some((h(1), at(9))), &header, h(101), root),
        Err(BlockChainError::InvalidBlockHeader)
    );
    assert_eq!(
        check_header(Some((h(1), at(9))), &header, h(3), MerkleRoot(h(3))),
        Err(BlockChainError::InvalidMerkleRoot)
    );
    assert_eq!(
        check_header(Some((h(1), at(10))), &header, h(3), root),
        Err(BlockChainError::InvalidBlockHeader)
    );
    let first = BlockHeader::new(at(0), 0, h(0), root, U256::zero());
    assert_eq!(check_header(None, &first, h(3), MerkleRoot(h(7))), Ok(()));
}
