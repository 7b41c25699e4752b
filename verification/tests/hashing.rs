use rsbtc::cbor::encode;
use rsbtc::crypto::{PrivateKey, PublicKey, Signature};
use rsbtc::time::Timestamp;
use rsbtc::types::block::{Block, BlockHeader};
use rsbtc::types::transaction::{Transaction, TransactionInput, TransactionOutput};
use rsbtc::u256::U256;
use rsbtc::util::MerkleRoot;

fn hash(hex: &str) -> rsbtc::sha256::Hash {
    rsbtc::sha256::Hash::from_hex(hex).unwrap()
}

fn key(n: u8) -> PrivateKey {
    PrivateKey::from_slice(&[n; 32]).unwrap()
}

fn cbor(value: &ciborium::Value) -> Vec<u8> {
    let mut bytes = Vec::new();
    ciborium::into_writer(value, &mut bytes).unwrap();
    bytes
}

fn text(s: &str) -> ciborium::Value {
    ciborium::Value::Text(s.to_string())
}

fn header() -> BlockHeader {
    BlockHeader::new(
        Timestamp::new(1_704_067_200, 0).unwrap(),
        5,
        rsbtc::sha256::Hash::zero(),
        MerkleRoot(rsbtc::sha256::Hash::zero()),
        rsbtc::min_target(),
    )
}

#[test]
fn hash_of_a_text() {
    assert_eq!(
        rsbtc::sha256::Hash::hash(&"test message"),
        hash("e7bed95aa9c8fe6c9dc3d67bff3fd6726ddd0175f65599105e30b01aa2f821b9")
    );
    assert_eq!(
        rsbtc::sha256::Hash::hash(&"different message"),
        hash("37f0fdb4270d8968b10237781f7264cdc66b01ba270f41e250bc0aebe6aa0b59")
    );
}

#[test]
fn hash_of_an_empty_transaction() {
    assert_eq!(
        Transaction::new(vec![], vec![]).hash(),
        hash("7016b7950ae24c5b6c05d0ec85b8ae35b04fa0865adece9f3942383d48deccbb")
    );
}

#[test]
fn hash_of_a_header_and_a_block() {
    assert_eq!(
        header().hash(),
        hash("3199af4dc755dac5867faf0d717c97a472f1b122ec1aba8406439206eacd5103")
    );
    let block = Block::new(header(), vec![Transaction::new(vec![], vec![])]);
    assert_eq!(
        block.hash(),
        hash("5f3a30527f5ea3c4f95c3a5c44696548be19df3593e6ee8542ff9fb3a39e27fd")
    );
}

#[test]
fn merkle_roots() {
    let leaf = hash("7016b7950ae24c5b6c05d0ec85b8ae35b04fa0865adece9f3942383d48deccbb");
    let pair = hash("0e230a686761dd1de19eae0ee0e5bf9f3296bd57605c529af60674e0314edba2");
    let four = hash("e7c3271fd2aad1135f14b3333d4f289764ea7309d50eaafbd5ecddc25614694e");
    let some = |n: usize| -> Vec<Transaction> {
        (0..n).map(|_| Transaction::new(vec![], vec![])).collect()
    };
    assert_eq!(MerkleRoot::calculate(&some(0)), MerkleRoot(rsbtc::sha256::Hash::zero()));
    assert_eq!(MerkleRoot::calculate(&some(1)), MerkleRoot(leaf));
    assert_eq!(MerkleRoot::calculate(&some(2)), MerkleRoot(pair));
    assert_eq!(MerkleRoot::calculate(&some(3)), MerkleRoot(four));
    assert_eq!(MerkleRoot::calculate(&some(4)), MerkleRoot(four));
}

#[test]
fn merkle_root_depends_on_the_order() {
    let a = Transaction::new(vec![], vec![]);
    let b = Transaction::new(
        vec![],
        vec![TransactionOutput { value: 1, unique_id: 2, pubkey: key(1).public_key() }],
    );
    let forth = MerkleRoot::calculate(&vec![a.clone(), b.clone()]);
    let back = MerkleRoot::calculate(&vec![b, a]);
    assert_ne!(forth, back);
}

#[test]
fn public_key_is_encoded_as_the_curve_library_does() {
    let ours = key(9).public_key();
    let theirs =
        ecdsa::VerifyingKey::<k256::Secp256k1>::from_sec1_bytes(&ours.to_sec1_bytes()).unwrap();
    let mut bytes = Vec::new();
    ciborium::into_writer(&theirs, &mut bytes).unwrap();
    assert_eq!(encode(&ours), bytes);
    let read: ecdsa::VerifyingKey<k256::Secp256k1> =
        ciborium::from_reader(encode(&ours).as_slice()).unwrap();
    assert_eq!(PublicKey::from_sec1_bytes(read.to_encoded_point(false).as_bytes()), Some(ours));
}

#[test]
fn signature_is_encoded_as_the_curve_library_does() {
    let ours = Signature::sign_output(&rsbtc::sha256::Hash::hash(&"x"), &key(4));
    let theirs = ecdsa::Signature::<k256::Secp256k1>::from_slice(&ours.to_bytes()).unwrap();
    let mut bytes = Vec::new();
    ciborium::into_writer(&theirs, &mut bytes).unwrap();
    assert_eq!(encode(&ours), bytes);
}

#[test]
fn timestamp_is_encoded_as_the_time_library_does() {
    for (seconds, nanos) in [
        (0, 0),
        (1_704_067_200, 0),
        (1_704_067_200, 120_000_000),
        (1_704_067_200, 123_456_000),
        (1_704_067_200, 123_456_789),
        (-1, 999_999_999),
        (59, 1_500_000_000),
        (253_402_300_800, 0),
        (-62_167_219_201, 5),
    ] {
        let ours = Timestamp::new(seconds, nanos).unwrap();
        let theirs = chrono::DateTime::from_timestamp(seconds, nanos).unwrap();
        let mut bytes = Vec::new();
        ciborium::into_writer(&theirs, &mut bytes).unwrap();
        assert_eq!(encode(&ours), bytes);
    }
}

#[test]
fn integer_is_encoded_as_four_words() {
    let value = U256 { hi: 3 + (4 << 64), lo: 1 + (2 << 64) };
    let mut bytes = Vec::new();
    ciborium::into_writer(&[1u64, 2, 3, 4], &mut bytes).unwrap();
    assert_eq!(encode(&value), bytes);
}

#[test]
fn output_is_encoded_as_a_map() {
    let output = TransactionOutput {
        value: 5_000_000_000,
        unique_id: 0x0123_4567_89ab_4def_8123_4567_89ab_cdef,
        pubkey: key(1).public_key(),
    };
    let key = ecdsa::VerifyingKey::<k256::Secp256k1>::from_sec1_bytes(&output.pubkey.to_sec1_bytes())
        .unwrap();
    let id = uuid::Uuid::from_u128(output.unique_id);
    let expected = ciborium::Value::Map(vec![
        (text("value"), ciborium::Value::serialized(&output.value).unwrap()),
        (text("unique_id"), ciborium::Value::serialized(&id).unwrap()),
        (text("pubkey"), ciborium::Value::serialized(&key).unwrap()),
    ]);
    // A value is self-describing, where the encoder is not: the identifier of a
    // binary format is a byte string.
    let mut direct = Vec::new();
    ciborium::into_writer(&id, &mut direct).unwrap();
    assert_eq!(direct, cbor(&ciborium::Value::Bytes(output.unique_id.to_be_bytes().to_vec())));
    assert_eq!(encode(&output), cbor(&expected));
}

#[test]
fn transaction_is_encoded_as_a_map() {
    let input = TransactionInput {
        prev_transaction_output_hash: rsbtc::sha256::Hash::zero(),
        signature: Signature::sign_output(&rsbtc::sha256::Hash::zero(), &key(1)),
    };
    let signature =
        ecdsa::Signature::<k256::Secp256k1>::from_slice(&input.signature.to_bytes()).unwrap();
    let expected = ciborium::Value::Map(vec![
        (
            text("inputs"),
            ciborium::Value::Array(vec![ciborium::Value::Map(vec![
                (
                    text("prev_transaction_output_hash"),
                    ciborium::Value::serialized(&[0u64; 4]).unwrap(),
                ),
                (text("signature"), ciborium::Value::serialized(&signature).unwrap()),
            ])]),
        ),
        (text("outputs"), ciborium::Value::Array(vec![])),
    ]);
    assert_eq!(encode(&Transaction::new(vec![input], vec![])), cbor(&expected));
}

#[test]
fn hash_matches_a_target() {
    let h = rsbtc::sha256::Hash(U256 { hi: 7, lo: 9 });
    assert!(h.matches(U256 { hi: 7, lo: 9 }));
    assert!(h.matches(U256 { hi: 8, lo: 0 }));
    assert!(!h.matches(U256 { hi: 7, lo: 8 }));
    assert!(!h.matches(U256 { hi: 6, lo: u128::MAX }));
    assert!(rsbtc::sha256::Hash::zero().matches(U256::zero()));
}

#[test]
fn hash_as_bytes() {
    let h = hash("e7bed95aa9c8fe6c9dc3d67bff3fd6726ddd0175f65599105e30b01aa2f821b9");
    let expected =
        hex::decode("e7bed95aa9c8fe6c9dc3d67bff3fd6726ddd0175f65599105e30b01aa2f821b9").unwrap();
    assert_eq!(h.as_bytes().to_vec(), expected);
    assert_eq!(rsbtc::sha256::Hash::zero().as_bytes(), [0u8; 32]);
}

#[test]
fn hash_bytes_are_the_digest() {
    let tx = Transaction::new(vec![], vec![]);
    let digest = hex::decode(sha256::digest(encode(&tx))).unwrap();
    assert_eq!(tx.hash().as_bytes().to_vec(), digest);
    assert_ne!(tx.hash().as_bytes(), rsbtc::sha256::Hash::hash(&"x").as_bytes());
}

#[test]
fn hash_in_hexadecimal_digits() {
    assert_eq!(rsbtc::sha256::Hash::zero().to_hex(), "0");
    assert_eq!(rsbtc::sha256::Hash(U256 { hi: 0, lo: 0xabc }).to_hex(), "abc");
    assert_eq!(
        rsbtc::sha256::Hash(U256 { hi: 1, lo: 0 }).to_hex(),
        "100000000000000000000000000000000"
    );
    assert_eq!(
        hash("0e230a686761dd1de19eae0ee0e5bf9f3296bd57605c529af60674e0314edba2").to_hex(),
        "e230a686761dd1de19eae0ee0e5bf9f3296bd57605c529af60674e0314edba2"
    );
}

#[test]
fn hash_is_not_read_from_other_texts() {
    assert_eq!(rsbtc::sha256::Hash::from_hex("00"), None);
    assert_eq!(rsbtc::sha256::Hash::from_hex("xyz"), None);
    assert_eq!(rsbtc::sha256::Hash::from_hex(""), None);
}
