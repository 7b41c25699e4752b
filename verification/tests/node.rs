use rsbtc::crypto::{PrivateKey, Signature};
use rsbtc::error::BlockChainError;
use rsbtc::network::Message;
use rsbtc::node::{accept_block, ask_difference, can_rank, find_longest_chain, handle_connection, respond_with,
    Response};
use rsbtc::table::HashTable;
use rsbtc::time::Timestamp;
use rsbtc::types::block::{Block, BlockHeader};
use rsbtc::types::blockchain::Blockchain;
use rsbtc::types::transaction::{Transaction, TransactionInput, TransactionOutput};
use rsbtc::u256::U256;
use rsbtc::util::MerkleRoot;

const REWARD: u64 = 5_000_000_000;

const ANY: U256 = U256 { hi: u128::MAX, lo: u128::MAX };

fn key(n: u8) -> PrivateKey {
    PrivateKey::from_slice(&[n; 32]).unwrap()
}

fn output(value: u64, id: u128, owner: u8) -> TransactionOutput {
    TransactionOutput { value, unique_id: id, pubkey: key(owner).public_key() }
}

fn spend(out: &TransactionOutput, owner: u8) -> TransactionInput {
    let hash = out.hash();
    TransactionInput {
        prev_transaction_output_hash: hash,
        signature: Signature::sign_output(&hash, &key(owner)),
    }
}

fn at(seconds: i64) -> Timestamp {
    Timestamp::new(seconds, 0).unwrap()
}

// A chain whose target every hash meets.
fn funded(outputs: &[TransactionOutput]) -> Blockchain {
    let mut table = HashTable::new();
    for out in outputs {
        table.insert(out.hash(), (false, *out));
    }
    Blockchain::restore(table, ANY, vec![])
}

fn ask(chain: &mut Blockchain, message: Message, seconds: i64) -> Response {
    respond_with(chain, vec!["peer:1".to_string()], message, at(seconds), 77)
}

fn template(chain: &mut Blockchain, seconds: i64) -> Block {
    match ask(chain, Message::FetchTemplate(key(9).public_key()), seconds) {
        Response { reply: Some(Message::Template(block)), broadcast: None, keep_alive: true } => block,
        other => panic!("{:?}", other),
    }
}

fn is_silent(r: &Response, keep_alive: bool) -> bool {
    r.reply.is_none() && r.broadcast.is_none() && r.keep_alive == keep_alive
}

#[test]
fn template_pays_the_reward_and_the_fees() {
    let (a, b) = (output(100, 1, 1), output(50, 2, 1));
    let mut chain = funded(&[a, b]);
    chain.add_to_mempool_at(Transaction::new(vec![spend(&a, 1)], vec![output(90, 3, 2)]), at(1)).unwrap();
    chain.add_to_mempool_at(Transaction::new(vec![spend(&b, 1)], vec![output(20, 4, 2)]), at(2)).unwrap();
    let block = template(&mut chain, 3);
    assert_eq!(block.transactions.len(), 3);
    assert_eq!(block.transactions[0].inputs.len(), 0);
    assert_eq!(
        block.transactions[0].outputs,
        vec![TransactionOutput { value: REWARD + 40, unique_id: 77, pubkey: key(9).public_key() }]
    );
    assert_eq!(block.transactions[1].outputs[0].value, 20);
    assert_eq!(block.transactions[2].outputs[0].value, 90);
    assert_eq!(block.header.timestamp, at(3));
    assert_eq!(block.header.nonce, 0);
    assert_eq!(block.header.target, ANY);
    assert_eq!(block.header.prev_block_hash, rsbtc::sha256::Hash::zero());
    assert_eq!(block.header.merkle_root, MerkleRoot::calculate(&block.transactions));
    assert_eq!(block.verify_coinbase_transaction(0, chain.utxos()), Ok(()));
    assert_eq!(block.verify_transactions(0, chain.utxos()), Ok(()));
}

#[test]
fn template_of_an_empty_node_pays_the_reward() {
    let mut chain = Blockchain::new();
    let block = template(&mut chain, 3);
    assert_eq!(block.transactions.len(), 1);
    assert_eq!(block.transactions[0].outputs[0].value, REWARD);
    assert_eq!(block.header.target, rsbtc::min_target());
}

#[test]
fn template_holds_twenty_transactions() {
    let outputs: Vec<TransactionOutput> = (0..25).map(|n| output(100, n, 1)).collect();
    let mut chain = funded(&outputs);
    for (n, out) in outputs.iter().enumerate() {
        let tx = Transaction::new(vec![spend(out, 1)], vec![output(100 - n as u64, 500 + n as u128, 2)]);
        chain.add_to_mempool_at(tx, at(n as i64)).unwrap();
    }
    let block = template(&mut chain, 100);
    // One of them is the coinbase.
    assert_eq!(block.transactions.len(), 20);
    // The best fees are those of 24 down to 6.
    assert_eq!(block.transactions[0].outputs[0].value, REWARD + (6..25).sum::<u64>());
    assert_eq!(chain.mempool().len(), 25);
}

#[test]
fn template_needs_a_fee() {
    // Two waiting transactions that create the same output leave no fee.
    let (a, b) = (output(100, 1, 1), output(100, 2, 1));
    let new = output(10, 3, 3);
    let mut chain = funded(&[a, b]);
    chain.add_to_mempool_at(Transaction::new(vec![spend(&a, 1)], vec![new]), at(1)).unwrap();
    chain.add_to_mempool_at(Transaction::new(vec![spend(&b, 1)], vec![new]), at(2)).unwrap();
    let r = ask(&mut chain, Message::FetchTemplate(key(9).public_key()), 3);
    assert!(is_silent(&r, false));
}

#[test]
fn template_needs_a_value_of_64_bits() {
    let a = output(u64::MAX, 1, 1);
    let mut chain = funded(&[a]);
    chain.add_to_mempool_at(Transaction::new(vec![spend(&a, 1)], vec![]), at(1)).unwrap();
    let r = ask(&mut chain, Message::FetchTemplate(key(9).public_key()), 3);
    assert!(is_silent(&r, false));
}

#[test]
fn template_is_valid_mined_and_accepted() {
    let mut chain = funded(&[]);
    for n in 0..3 {
        let block = template(&mut chain, 10 + n);
        match ask(&mut chain, Message::ValidateTemplate(block.clone()), 20 + n) {
            Response { reply: Some(Message::TemplateValidity(valid)), broadcast: None, keep_alive: true } => {
                assert!(valid)
            }
            other => panic!("{:?}", other),
        }
        let mut mined = block.clone();
        assert!(mined.header.mine(0));
        let hash = mined.hash();
        match ask(&mut chain, Message::SubmitTemplate(mined), 30 + n) {
            Response { reply: None, broadcast: Some(Message::NewBlock(sent)), keep_alive: true } => {
                assert_eq!(sent.hash(), hash)
            }
            other => panic!("{:?}", other),
        }
        assert_eq!(chain.block_height(), n as usize + 1);
        assert!(chain.utxos().contains(&block.transactions[0].outputs[0].hash()));
        // The template is stale now.
        match ask(&mut chain, Message::ValidateTemplate(block), 40 + n) {
            Response { reply: Some(Message::TemplateValidity(valid)), .. } => assert!(!valid),
            other => panic!("{:?}", other),
        }
    }
}

#[test]
fn refused_block_closes_the_connection() {
    let mut chain = funded(&[]);
    let mut block = template(&mut chain, 10);
    block.header.prev_block_hash = rsbtc::sha256::Hash::hash(&"x");
    let r = ask(&mut chain, Message::SubmitTemplate(block.clone()), 11);
    assert!(is_silent(&r, false));
    assert_eq!(chain.block_height(), 0);
    let r = ask(&mut chain, Message::NewBlock(block), 12);
    assert!(is_silent(&r, true));
    assert_eq!(chain.block_height(), 0);
}

#[test]
fn forwarded_block_is_appended() {
    let mut chain = funded(&[]);
    let block = template(&mut chain, 10);
    let reward = block.transactions[0].outputs[0];
    let r = ask(&mut chain, Message::NewBlock(block.clone()), 11);
    assert!(is_silent(&r, true));
    assert_eq!(chain.block_height(), 1);
    assert_eq!(chain.utxos().get(&reward.hash()), Some(&(false, reward)));
    // The next forwarded block can spend what it created.
    let tx = Transaction::new(vec![spend(&reward, 9)], vec![output(REWARD, 5, 5)]);
    chain.add_to_mempool_at(tx, at(12)).unwrap();
    let mut next = template(&mut chain, 13);
    next.transactions[0].outputs[0].unique_id = 78;
    next.header.merkle_root = MerkleRoot::calculate(&next.transactions);
    assert!(is_silent(&ask(&mut chain, Message::NewBlock(next), 14), true));
    assert_eq!(chain.block_height(), 2);
    assert!(!chain.utxos().contains(&reward.hash()));
    assert!(chain.utxos().contains(&output(REWARD, 5, 5).hash()));
}

// Blocks with a good header whose transactions do not pass the check.
fn invalid_blocks(chain: &mut Blockchain, coin: &TransactionOutput) -> Vec<Block> {
    let block = template(chain, 10);
    let with = |transactions: Vec<Transaction>| {
        let mut changed = block.clone();
        changed.transactions = transactions;
        changed.header.merkle_root = MerkleRoot::calculate(&changed.transactions);
        changed
    };
    let reward = |value: u64| Transaction::new(vec![], vec![output(value, 9, 9)]);
    let stranger = output(1, 77, 7);
    vec![
        // no transactions, too large a reward, an unknown output, a forged
        // signature, value out of nothing
        with(vec![]),
        with(vec![reward(REWARD + 1)]),
        with(vec![reward(REWARD + 1), Transaction::new(vec![spend(&stranger, 7)], vec![])]),
        with(vec![reward(REWARD), Transaction::new(vec![spend(coin, 2)], vec![output(coin.value, 3, 3)])]),
        with(vec![reward(REWARD), Transaction::new(vec![spend(coin, 1)], vec![output(coin.value + 1, 3, 3)])]),
    ]
}

#[test]
fn blocks_with_invalid_transactions_are_refused() {
    let mut chain = funded(&[]);
    let coin = output(REWARD, 1, 1);
    let mut first = template(&mut chain, 1);
    first.transactions = vec![Transaction::new(vec![], vec![coin])];
    first.header.merkle_root = MerkleRoot::calculate(&first.transactions);
    assert_eq!(accept_block(&mut chain, first), Ok(()));
    for block in invalid_blocks(&mut chain, &coin) {
        assert!(is_silent(&ask(&mut chain, Message::SubmitTemplate(block.clone()), 11), false));
        assert!(is_silent(&ask(&mut chain, Message::NewBlock(block.clone()), 11), true));
        // The chain alone looks at the header only.
        let error = block.verify_transactions(1, chain.utxos()).unwrap_err();
        assert_eq!(accept_block(&mut chain, block), Err(error));
        assert_eq!(chain.block_height(), 1);
        assert_eq!(chain.utxos().len(), 1);
    }
    let mut unlinked = template(&mut chain, 12);
    unlinked.header.prev_block_hash = rsbtc::sha256::Hash::zero();
    assert_eq!(accept_block(&mut chain, unlinked), Err(BlockChainError::InvalidBlockHeader));
    let valid = template(&mut chain, 12);
    assert_eq!(accept_block(&mut chain, valid), Ok(()));
}

#[test]
fn blocks_hold_at_most_twenty_transactions() {
    // Together the coins are worth the reward.
    let coins: Vec<TransactionOutput> = (0..20).map(|n| output(REWARD / 20, n, 1)).collect();
    let mut chain = funded(&[]);
    let mut first = template(&mut chain, 1);
    first.transactions = vec![Transaction::new(vec![], coins.clone())];
    first.header.merkle_root = MerkleRoot::calculate(&first.transactions);
    assert_eq!(accept_block(&mut chain, first), Ok(()));
    let mut long = template(&mut chain, 2);
    for (n, coin) in coins.iter().enumerate() {
        let new = output(coin.value, 500 + n as u128, 2);
        long.transactions.push(Transaction::new(vec![spend(coin, 1)], vec![new]));
    }
    long.header.merkle_root = MerkleRoot::calculate(&long.transactions);
    assert_eq!(long.transactions.len(), 21);
    // Each of its transactions is valid.
    assert_eq!(long.verify_transactions(1, chain.utxos()), Ok(()));
    assert!(is_silent(&ask(&mut chain, Message::SubmitTemplate(long.clone()), 3), false));
    assert!(is_silent(&ask(&mut chain, Message::NewBlock(long.clone()), 3), true));
    assert_eq!(accept_block(&mut chain, long.clone()), Err(BlockChainError::InvalidBlock));
    assert_eq!(chain.block_height(), 1);
    assert_eq!(chain.utxos().len(), 20);
    let mut full = long;
    full.transactions.pop();
    full.header.merkle_root = MerkleRoot::calculate(&full.transactions);
    assert_eq!(full.transactions.len(), 20);
    assert_eq!(accept_block(&mut chain, full), Ok(()));
    assert_eq!(chain.block_height(), 2);
}

#[test]
fn template_with_a_forged_signature_is_refused() {
    // A waiting transaction is not held to its signatures, a block is.
    let mut chain = funded(&[]);
    let block = template(&mut chain, 1);
    let reward = block.transactions[0].outputs[0];
    ask(&mut chain, Message::SubmitTemplate(block), 2);
    let forged = Transaction::new(vec![spend(&reward, 3)], vec![output(1, 4, 4)]);
    ask(&mut chain, Message::SubmitTransaction(forged), 3);
    assert_eq!(chain.mempool().len(), 1);
    let block = template(&mut chain, 4);
    assert!(is_silent(&ask(&mut chain, Message::SubmitTemplate(block), 5), false));
    assert_eq!(chain.block_height(), 1);
}

#[test]
fn blocks_are_served_by_height() {
    let mut chain = funded(&[]);
    let block = template(&mut chain, 10);
    let hash = block.hash();
    ask(&mut chain, Message::SubmitTemplate(block), 11);
    match ask(&mut chain, Message::FetchBlock(0), 12) {
        Response { reply: Some(Message::NewBlock(sent)), broadcast: None, keep_alive: true } => {
            assert_eq!(sent.hash(), hash)
        }
        other => panic!("{:?}", other),
    }
    assert!(is_silent(&ask(&mut chain, Message::FetchBlock(1), 12), false));
    assert!(is_silent(&ask(&mut chain, Message::FetchBlock(usize::MAX), 12), false));
}

#[test]
fn difference_of_heights() {
    let mut chain = funded(&[]);
    let difference = |chain: &Blockchain, height: u32| match ask_difference(chain, height) {
        Response { reply: Some(Message::Difference(count)), broadcast: None, keep_alive: true } => count,
        other => panic!("{:?}", other),
    };
    assert_eq!(difference(&chain, 0), 0);
    assert_eq!(difference(&chain, 5), -5);
    let block = template(&mut chain, 10);
    ask(&mut chain, Message::SubmitTemplate(block), 11);
    assert_eq!(difference(&chain, 0), 1);
    assert_eq!(difference(&chain, 1), 0);
    assert_eq!(difference(&chain, i32::MAX as u32), -(i32::MAX - 1));
    assert_eq!(difference(&chain, 0x8000_0001), i32::MIN);
    assert_eq!(difference(&chain, u32::MAX), 2);
}

#[test]
fn known_nodes_are_listed() {
    let mut chain = funded(&[]);
    let r = respond_with(
        &mut chain,
        vec!["a:1".to_string(), "b:2".to_string()],
        Message::DiscoverNodes,
        at(0),
        0,
    );
    match r {
        Response { reply: Some(Message::NodeList(nodes)), broadcast: None, keep_alive: true } => {
            assert_eq!(nodes, vec!["a:1".to_string(), "b:2".to_string()])
        }
        other => panic!("{:?}", other),
    }
}

#[test]
fn wallet_gets_the_outputs_of_its_key() {
    let outputs = [output(1, 1, 1), output(2, 2, 2), output(3, 3, 1), output(4, 4, 3)];
    let mut chain = funded(&outputs);
    chain.add_to_mempool_at(Transaction::new(vec![spend(&outputs[2], 1)], vec![]), at(1)).unwrap();
    match ask(&mut chain, Message::FetchUTXOs(key(1).public_key()), 2) {
        Response { reply: Some(Message::UTXOs(list)), broadcast: None, keep_alive: false } => {
            let mut expected = vec![(outputs[0], false), (outputs[2], true)];
            expected.sort_by_key(|e| e.0.hash().as_bytes());
            assert_eq!(list, expected);
        }
        other => panic!("{:?}", other),
    }
    match ask(&mut chain, Message::FetchUTXOs(key(7).public_key()), 2) {
        Response { reply: Some(Message::UTXOs(list)), .. } => assert_eq!(list, vec![]),
        other => panic!("{:?}", other),
    }
}

#[test]
fn submitted_transaction_is_forwarded() {
    let a = output(10, 1, 1);
    let mut chain = funded(&[a]);
    let tx = Transaction::new(vec![spend(&a, 1)], vec![output(9, 2, 2)]);
    match ask(&mut chain, Message::SubmitTransaction(tx.clone()), 5) {
        Response { reply: None, broadcast: Some(Message::NewTransaction(sent)), keep_alive: false } => {
            assert_eq!(sent.hash(), tx.hash())
        }
        other => panic!("{:?}", other),
    }
    assert_eq!(chain.mempool().len(), 1);
    assert_eq!(chain.mempool()[0].0, at(5));
    let unknown = Transaction::new(vec![spend(&output(1, 9, 9), 9)], vec![]);
    let r = ask(&mut chain, Message::SubmitTransaction(unknown), 6);
    assert!(is_silent(&r, false));
    assert_eq!(chain.mempool().len(), 1);
}

#[test]
fn forwarded_transaction_is_kept() {
    let a = output(10, 1, 1);
    let mut chain = funded(&[a]);
    let tx = Transaction::new(vec![spend(&a, 1)], vec![output(9, 2, 2)]);
    assert!(is_silent(&ask(&mut chain, Message::NewTransaction(tx), 5), true));
    assert_eq!(chain.mempool().len(), 1);
    let greedy = Transaction::new(vec![spend(&a, 1)], vec![output(11, 3, 2)]);
    assert!(is_silent(&ask(&mut chain, Message::NewTransaction(greedy), 6), false));
    assert_eq!(chain.mempool().len(), 1);
}

#[test]
fn replies_close_the_connection() {
    let mut chain = funded(&[]);
    let header = BlockHeader::new(
        at(0),
        0,
        rsbtc::sha256::Hash::zero(),
        MerkleRoot(rsbtc::sha256::Hash::zero()),
        ANY,
    );
    for message in [
        Message::UTXOs(vec![]),
        Message::Template(Block::new(header, vec![])),
        Message::Difference(3),
        Message::TemplateValidity(true),
        Message::NodeList(vec![]),
    ] {
        assert!(is_silent(&ask(&mut chain, message, 1), false));
    }
    assert_eq!(chain.block_height(), 0);
}

#[test]
fn coinbases_get_random_identifiers() {
    let mut chain = funded(&[]);
    let mut ids = Vec::new();
    for _ in 0..2 {
        match handle_connection(&mut chain, vec![], Message::FetchTemplate(key(1).public_key())) {
            Response { reply: Some(Message::Template(block)), .. } => {
                ids.push(block.transactions[0].outputs[0].unique_id)
            }
            other => panic!("{:?}", other),
        }
    }
    assert_ne!(ids[0], ids[1]);
    for id in ids {
        assert_eq!((id >> 76) % 16, 4);
        assert_eq!((id >> 62) % 4, 2);
        assert_eq!(uuid::Uuid::from_u128(id).get_version_num(), 4);
        assert_eq!(uuid::Uuid::from_u128(id).get_variant(), uuid::Variant::RFC4122);
    }
}

#[test]
fn longest_chain_is_found() {
    assert_eq!(find_longest_chain(&vec![]), None);
    assert_eq!(find_longest_chain(&vec![-3]), Some(0));
    assert_eq!(find_longest_chain(&vec![2, 9, 4, 9]), Some(1));
}

#[test]
fn ranking_needs_known_inputs() {
    let (a, b) = (output(10, 1, 1), output(REWARD - 10, 2, 1));
    let mut chain = funded(&[]);
    let mut first = template(&mut chain, 0);
    first.transactions = vec![Transaction::new(vec![], vec![a, b])];
    accept_block(&mut chain, first).unwrap();
    let waiting = Transaction::new(vec![spend(&a, 1)], vec![]);
    ask(&mut chain, Message::NewTransaction(waiting), 1);
    let fresh = Transaction::new(vec![spend(&b, 1)], vec![]);
    assert!(chain.admits(&fresh));
    assert!(can_rank(&chain, &Message::NewTransaction(fresh.clone())));
    // A block that spends the same output takes it away from the one that waits.
    let mut block = template(&mut chain, 2);
    block.transactions[1] = Transaction::new(vec![spend(&a, 1)], vec![output(0, 5, 5)]);
    block.header.merkle_root = MerkleRoot::calculate(&block.transactions);
    ask(&mut chain, Message::SubmitTemplate(block), 3);
    assert_eq!(chain.block_height(), 2);
    assert_eq!(chain.mempool().len(), 1);
    assert!(!can_rank(&chain, &Message::NewTransaction(fresh.clone())));
    assert!(!can_rank(&chain, &Message::SubmitTransaction(fresh)));
    assert!(can_rank(&chain, &Message::DiscoverNodes));
    let unknown = Transaction::new(vec![spend(&output(1, 9, 9), 9)], vec![]);
    assert!(!chain.admits(&unknown));
    assert!(can_rank(&chain, &Message::SubmitTransaction(unknown)));
}
