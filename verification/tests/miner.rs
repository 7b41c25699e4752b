use rsbtc::crypto::PrivateKey;
use rsbtc::miner::{mine_round, parse_steps, Miner, MinerError, Round, ROUND_STEPS};
use rsbtc::network::Message;
use rsbtc::time::Timestamp;
use rsbtc::types::block::{Block, BlockHeader};
use rsbtc::u256::U256;
use rsbtc::util::MerkleRoot;

fn block(target: U256) -> Block {
    let header = BlockHeader::new(
        Timestamp::new(0, 0).unwrap(),
        0,
        rsbtc::sha256::Hash::zero(),
        MerkleRoot(rsbtc::sha256::Hash::zero()),
        target,
    );
    Block::new(header, vec![])
}

fn miner() -> Miner {
    Miner::new(PrivateKey::from_slice(&[1; 32]).unwrap().public_key())
}

const ANY: U256 = U256 { hi: u128::MAX, lo: u128::MAX };

#[test]
fn idle_miner_asks_for_a_template() {
    let m = miner();
    match m.fetch_and_validate_template() {
        Some(Message::FetchTemplate(key)) => assert_eq!(key, m.public_key),
        other => panic!("{:?}", other),
    }
    assert!(m.task().is_none());
}

#[test]
fn template_starts_mining() {
    let mut m = miner();
    assert_eq!(m.fetch_template(Message::Template(block(ANY))), Ok(()));
    assert!(m.mining);
    assert_eq!(m.task().unwrap().hash(), block(ANY).hash());
    match m.fetch_and_validate_template() {
        Some(Message::ValidateTemplate(template)) => assert_eq!(template.hash(), block(ANY).hash()),
        other => panic!("{:?}", other),
    }
}

#[test]
fn other_replies_are_errors() {
    let mut m = miner();
    assert_eq!(m.fetch_template(Message::DiscoverNodes), Err(MinerError::NoTemplate));
    assert!(!m.mining);
    assert_eq!(m.validate_template(Message::Template(block(ANY))), Err(MinerError::NoValidity));
    assert!(m.current_template.is_none());
}

#[test]
fn stale_template_stops_mining() {
    let mut m = miner();
    m.fetch_template(Message::Template(block(ANY))).unwrap();
    assert_eq!(m.validate_template(Message::TemplateValidity(true)), Ok(()));
    assert!(m.mining);
    assert_eq!(m.validate_template(Message::TemplateValidity(false)), Ok(()));
    assert!(!m.mining);
    assert!(matches!(m.fetch_and_validate_template(), Some(Message::FetchTemplate(_))));
    assert_eq!(m.validate_template(Message::TemplateValidity(true)), Ok(()));
    assert!(!m.mining);
}

#[test]
fn mined_block_is_submitted() {
    let mut m = miner();
    m.fetch_template(Message::Template(block(ANY))).unwrap();
    match m.submit_block(block(ANY)) {
        Message::SubmitTemplate(sent) => assert_eq!(sent.hash(), block(ANY).hash()),
        other => panic!("{:?}", other),
    }
    assert!(!m.mining);
}

#[test]
fn rounds_of_mining() {
    let mut easy = block(ANY);
    assert_eq!(mine_round(false, &mut easy), Round::Stopped);
    assert_eq!(mine_round(true, &mut easy), Round::Found);
    assert_eq!(easy.header.nonce, 0);
    let mut hard = block(U256::zero());
    assert_eq!(mine_round(true, &mut hard), Round::Searching);
    assert_eq!(hard.header.nonce, ROUND_STEPS as u64);
}

#[test]
fn steps_are_read() {
    assert_eq!(parse_steps("1"), Some(1));
    assert_eq!(parse_steps("10000"), Some(10_000));
    assert_eq!(parse_steps("0"), None);
    assert_eq!(parse_steps("-1"), None);
    assert_eq!(parse_steps(" 1"), None);
    assert_eq!(parse_steps("x"), None);
    assert_eq!(parse_steps(&usize::MAX.to_string()), Some(usize::MAX));
    assert_eq!(parse_steps("18446744073709551616"), None);
}
