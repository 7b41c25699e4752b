use rsbtc::crypto::{PrivateKey, Signature};
use rsbtc::error::BlockChainError;
use rsbtc::table::HashTable;
use rsbtc::time::Timestamp;
use rsbtc::types::block::{leftover, Block, BlockHeader};
use rsbtc::types::transaction::{Transaction, TransactionInput, TransactionOutput};
use rsbtc::u256::U256;
use rsbtc::util::MerkleRoot;

const REWARD: u64 = 5_000_000_000;

fn key(n: u8) -> PrivateKey {
    PrivateKey::from_slice(&[n; 32]).unwrap()
}

fn output(value: u64, id: u128, owner: u8) -> TransactionOutput {
    TransactionOutput { value, unique_id: id, pubkey: key(owner).public_key() }
}

fn spend(out: &TransactionOutput, owner: u8) -> TransactionInput {
    let hash = out.hash();
    TransactionInput {
        prev_transaction_output_hash: hash,
        signature: Signature::sign_output(&hash, &key(owner)),
    }
}

fn known(outputs: &[TransactionOutput]) -> HashTable<(bool, TransactionOutput)> {
    let mut table = HashTable::new();
    for out in outputs {
        table.insert(out.hash(), (false, *out));
    }
    table
}

fn header(nonce: u64, target: U256) -> BlockHeader {
    BlockHeader::new(
        Timestamp::new(1_704_067_200, 0).unwrap(),
        nonce,
        rsbtc::sha256::Hash::zero(),
        MerkleRoot(rsbtc::sha256::Hash::zero()),
        target,
    )
}

fn block(transactions: Vec<Transaction>) -> Block {
    Block::new(header(0, rsbtc::min_target()), transactions)
}

fn coinbase(value: u64) -> Transaction {
    Transaction::new(vec![], vec![output(value, 999, 9)])
}

#[test]
fn reward_halves() {
    assert_eq!(Block::calculate_block_reward(0), REWARD);
    assert_eq!(Block::calculate_block_reward(209), REWARD);
    assert_eq!(Block::calculate_block_reward(210), REWARD / 2);
    assert_eq!(Block::calculate_block_reward(419), REWARD / 2);
    assert_eq!(Block::calculate_block_reward(420), REWARD / 4);
    assert_eq!(Block::calculate_block_reward(210 * 32), 1);
    assert_eq!(Block::calculate_block_reward(210 * 33), 0);
    assert_eq!(Block::calculate_block_reward(210 * 64), 0);
    assert_eq!(Block::calculate_block_reward(u64::MAX), 0);
}

#[test]
fn block_without_transactions_is_invalid() {
    assert_eq!(
        block(vec![]).verify_transactions(0, &known(&[])),
        Err(BlockChainError::InvalidBlock)
    );
}

#[test]
fn coinbase_with_inputs_is_invalid() {
    let out = output(10, 1, 1);
    let b = block(vec![Transaction::new(vec![spend(&out, 1)], vec![output(REWARD, 2, 9)])]);
    assert_eq!(
        b.verify_coinbase_transaction(0, &known(&[out])),
        Err(BlockChainError::InvalidTransactionInput)
    );
    assert_eq!(
        b.verify_transactions(0, &known(&[out])),
        Err(BlockChainError::InvalidTransactionInput)
    );
}

#[test]
fn coinbase_without_outputs_is_invalid() {
    let b = block(vec![Transaction::new(vec![], vec![])]);
    assert_eq!(
        b.verify_coinbase_transaction(0, &known(&[])),
        Err(BlockChainError::InvalidTransactionOutput)
    );
}

#[test]
fn coinbase_must_be_worth_the_reward() {
    let none = known(&[]);
    assert_eq!(block(vec![coinbase(REWARD)]).verify_transactions(0, &none), Ok(()));
    assert_eq!(
        block(vec![coinbase(REWARD - 1)]).verify_transactions(0, &none),
        Err(BlockChainError::InvalidTransactionOutput)
    );
    assert_eq!(
        block(vec![coinbase(REWARD + 1)]).verify_transactions(0, &none),
        Err(BlockChainError::InvalidTransactionOutput)
    );
    assert_eq!(block(vec![coinbase(REWARD / 2)]).verify_transactions(210, &none), Ok(()));
    let shared = Transaction::new(vec![], vec![output(REWARD - 7, 1, 1), output(7, 2, 2)]);
    assert_eq!(block(vec![shared]).verify_transactions(0, &none), Ok(()));
}

#[test]
fn coinbase_collects_the_fees() {
    let out = output(1000, 1, 1);
    let tx = Transaction::new(vec![spend(&out, 1)], vec![output(900, 2, 2)]);
    let utxos = known(&[out]);
    let good = block(vec![coinbase(REWARD + 100), tx.clone()]);
    assert_eq!(good.calculate_miner_fees(&utxos), Ok(100));
    assert_eq!(good.verify_transactions(0, &utxos), Ok(()));
    let poor = block(vec![coinbase(REWARD), tx]);
    assert_eq!(
        poor.verify_transactions(0, &utxos),
        Err(BlockChainError::InvalidTransactionOutput)
    );
}

#[test]
fn unknown_output_is_invalid() {
    let out = output(1000, 1, 1);
    let tx = Transaction::new(vec![spend(&out, 1)], vec![]);
    let b = block(vec![coinbase(REWARD + 1000), tx]);
    assert_eq!(b.calculate_miner_fees(&known(&[])), Err(BlockChainError::InvalidTransaction));
    assert_eq!(b.verify_transactions(0, &known(&[])), Err(BlockChainError::InvalidTransaction));
}

#[test]
fn double_spend_is_invalid() {
    let out = output(1000, 1, 1);
    let a = Transaction::new(vec![spend(&out, 1)], vec![output(1000, 2, 2)]);
    let b = Transaction::new(vec![spend(&out, 1)], vec![output(1000, 3, 3)]);
    let twice = block(vec![coinbase(REWARD), a, b]);
    assert_eq!(
        twice.calculate_miner_fees(&known(&[out])),
        Err(BlockChainError::InvalidTransaction)
    );
    assert_eq!(
        twice.verify_transactions(0, &known(&[out])),
        Err(BlockChainError::InvalidTransaction)
    );
}

#[test]
fn output_created_twice_is_invalid() {
    let (x, y) = (output(10, 1, 1), output(10, 2, 1));
    let new = output(10, 3, 3);
    let a = Transaction::new(vec![spend(&x, 1)], vec![new]);
    let b = Transaction::new(vec![spend(&y, 1)], vec![new]);
    assert_eq!(
        block(vec![coinbase(REWARD), a, b]).calculate_miner_fees(&known(&[x, y])),
        Err(BlockChainError::InvalidTransaction)
    );
}

#[test]
fn wrong_signature_is_invalid() {
    let out = output(1000, 1, 1);
    let tx = Transaction::new(vec![spend(&out, 2)], vec![output(1000, 2, 2)]);
    assert_eq!(
        block(vec![coinbase(REWARD), tx]).verify_transactions(0, &known(&[out])),
        Err(BlockChainError::InvalidTransaction)
    );
}

#[test]
fn transaction_must_not_create_value() {
    let (x, y) = (output(10, 1, 1), output(10, 2, 1));
    // Together the two transactions balance, but the first creates value.
    let a = Transaction::new(vec![spend(&x, 1)], vec![output(15, 3, 3)]);
    let b = Transaction::new(vec![spend(&y, 1)], vec![output(5, 4, 3)]);
    let utxos = known(&[x, y]);
    let balanced = block(vec![coinbase(REWARD), a.clone(), b]);
    assert_eq!(balanced.calculate_miner_fees(&utxos), Ok(0));
    assert_eq!(balanced.verify_coinbase_transaction(0, &utxos), Ok(()));
    assert_eq!(
        balanced.verify_transactions(0, &utxos),
        Err(BlockChainError::InvalidTransaction)
    );
    assert_eq!(
        block(vec![coinbase(REWARD), a]).calculate_miner_fees(&utxos),
        Err(BlockChainError::InvalidTransaction)
    );
}

#[test]
fn fees_beyond_64_bits_are_invalid() {
    let (x, y) = (output(u64::MAX, 1, 1), output(1, 2, 1));
    let all = Transaction::new(vec![spend(&x, 1), spend(&y, 1)], vec![]);
    let most = Transaction::new(vec![spend(&x, 1), spend(&y, 1)], vec![output(1, 3, 1)]);
    let utxos = known(&[x, y]);
    assert_eq!(
        block(vec![coinbase(1), all]).calculate_miner_fees(&utxos),
        Err(BlockChainError::InvalidTransaction)
    );
    assert_eq!(block(vec![coinbase(1), most]).calculate_miner_fees(&utxos), Ok(u64::MAX));
}

#[test]
fn a_verified_block_creates_the_reward() {
    let (x, y) = (output(40, 1, 1), output(2, 2, 2));
    let tx = Transaction::new(vec![spend(&x, 1), spend(&y, 2)], vec![output(30, 3, 3), output(5, 4, 4)]);
    let b = block(vec![coinbase(REWARD + 7), tx]);
    assert_eq!(b.verify_transactions(0, &known(&[x, y])), Ok(()));
    let created: u64 = b.transactions.iter().flat_map(|t| t.outputs.iter()).map(|o| o.value).sum();
    assert_eq!(created, 40 + 2 + REWARD);
}

#[test]
fn any_hash_meets_the_largest_target() {
    let mut h = header(3, U256 { hi: u128::MAX, lo: u128::MAX });
    assert!(h.mine(0));
    assert_eq!(h.nonce, 3);
}

#[test]
fn mining_finds_the_first_nonce() {
    let target = U256 { hi: u128::MAX >> 5, lo: u128::MAX };
    let mut expected = header(0, target);
    while !expected.hash().matches(target) {
        expected.nonce += 1;
    }
    let mut h = header(0, target);
    assert!(h.mine(10_000));
    assert_eq!(h, expected);
}

#[test]
fn mining_in_parts_tries_the_same_headers() {
    let target = U256 { hi: u128::MAX >> 6, lo: 0 };
    let mut whole = header(0, target);
    assert!(whole.mine(100_000));
    let mut parts = header(0, target);
    let mut rounds = 0;
    while !parts.mine(5) {
        rounds += 1;
        assert_eq!(parts.nonce, rounds * 5);
    }
    assert_eq!(parts, whole);
}

#[test]
fn mining_fails_at_an_impossible_target() {
    let mut h = header(7, U256::zero());
    assert!(!h.mine(20));
    assert_eq!(h, header(27, U256::zero()));
}

#[test]
fn mining_starts_over_past_the_last_nonce() {
    let before = header(u64::MAX - 2, U256::zero());
    let mut h = before;
    assert!(!h.mine(5));
    assert_eq!(h.nonce, 2);
    assert!(h.timestamp.after(&before.timestamp));
    // The last nonce does not match: nonce zero is next, at the current time.
    let mut last = header(u64::MAX, U256::zero());
    let earliest = Timestamp::now();
    assert!(!last.mine(1));
    let latest = Timestamp::now();
    assert_eq!(last.nonce, 0);
    assert!(!earliest.after(&last.timestamp));
    assert!(!last.timestamp.after(&latest));
    // No time is renewed before the last nonce.
    let mut short = before;
    assert!(!short.mine(2));
    assert_eq!(short.nonce, u64::MAX);
    assert_eq!(short.timestamp, before.timestamp);
    let renewed = Timestamp::new(1_800_000_000, 0).unwrap();
    let mut again = header(u64::MAX, U256::zero());
    assert!(!again.start_over(renewed, 4));
    assert_eq!(again.nonce, 4);
    assert_eq!(again.timestamp, renewed);
}

#[test]
fn mining_a_range_walks_in_a_circle() {
    let mut h = header(10, U256::zero());
    assert!(!h.mine_range(1, 10, 13));
    assert_eq!(h.nonce, 11);
    assert!(!h.mine_range(2, 10, 13));
    assert_eq!(h.nonce, 10);
    assert!(!h.mine_range(0, 10, 13));
    assert_eq!(h.nonce, 10);
    let mut last = header(u64::MAX, U256::zero());
    assert!(!last.mine_range(1, 4, u64::MAX));
    assert_eq!(last.nonce, 4);
    let mut outside = header(50, U256::zero());
    assert!(!outside.mine_range(1, 4, 13));
    assert_eq!(outside.nonce, 4);
}

#[test]
fn mining_a_range_finds_the_first_nonce() {
    let target = U256 { hi: u128::MAX >> 4, lo: u128::MAX };
    let mut expected = header(0, target);
    while !expected.hash().matches(target) {
        expected.nonce += 1;
    }
    let mut h = header(0, target);
    assert!(h.mine_range(100_000, 0, u64::MAX));
    assert_eq!(h, expected);
    // Mining in a range does not look at the header after the last step.
    let mut short = header(0, target);
    assert!(!short.mine_range(expected.nonce as usize, 0, u64::MAX));
    assert_eq!(short.nonce, expected.nonce);
    assert!(short.mine_range(1, 0, u64::MAX));
}

#[test]
fn table_keeps_the_last_value() {
    let h = |n: u128| rsbtc::sha256::Hash(U256 { hi: 0, lo: n });
    let mut table: HashTable<u8> = HashTable::new();
    for n in [5u128, 1, 9, 3, 1] {
        table.insert(h(n), n as u8);
    }
    table.insert(h(3), 33);
    assert_eq!(table.len(), 4);
    assert_eq!(table.get(&h(3)), Some(&33));
    assert_eq!(table.get(&h(4)), None);
    assert!(table.contains(&h(9)));
    table.remove(&h(5));
    table.remove(&h(6));
    let all: Vec<(rsbtc::sha256::Hash, u8)> =
        (0..table.len()).map(|i| (*table.entry(i).0, *table.entry(i).1)).collect();
    assert_eq!(all, vec![(h(1), 1), (h(3), 33), (h(9), 9)]);
}

#[test]
fn leftover_of_given_hashes() {
    let h = |n: u128| rsbtc::sha256::Hash(U256 { hi: 0, lo: n });
    let mut utxos = HashTable::new();
    utxos.insert(h(1), (false, output(10, 1, 1)));
    utxos.insert(h(2), (true, output(5, 2, 1)));
    let new = vec![output(3, 3, 3), output(4, 4, 4)];
    let refused = Err(BlockChainError::InvalidTransaction);
    assert_eq!(leftover(&vec![h(1), h(2)], &new, &vec![h(7), h(8)], &utxos), Ok(8));
    assert_eq!(leftover(&vec![h(1), h(1)], &new, &vec![h(7), h(8)], &utxos), refused);
    assert_eq!(leftover(&vec![h(1), h(3)], &new, &vec![h(7), h(8)], &utxos), refused);
    assert_eq!(leftover(&vec![h(1), h(2)], &new, &vec![h(7), h(7)], &utxos), refused);
    assert_eq!(leftover(&vec![h(2)], &new, &vec![h(7), h(8)], &utxos), refused);
    assert_eq!(leftover(&vec![], &vec![], &vec![], &utxos), Ok(0));
}
