use rsbtc::cbor::encode;
use rsbtc::command::{parse_command, show_help, Command};
use rsbtc::crypto::PrivateKey;
use rsbtc::network::Message;
use rsbtc::screen::{error_note, no_contacts, on_send, queued_note, show_coins, show_contacts,
    show_outputs, show_send, show_status, sync_note, FormError};
use rsbtc::table::HashTable;
use rsbtc::time::Timestamp;
use rsbtc::types::block::{Block, BlockHeader};
use rsbtc::types::blockchain::{transaction_fee, Blockchain};
use rsbtc::types::transaction::{Transaction, TransactionOutput};
use rsbtc::util::MerkleRoot;
use rsbtc::wallet::{Core, FeeType, Key, LoadedKey, Recipient, UtxoStore, WalletError};

fn key(n: u8) -> PrivateKey {
    PrivateKey::from_slice(&[n; 32]).unwrap()
}

fn pair(n: u8) -> LoadedKey {
    LoadedKey { private_key: key(n), public_key: key(n).public_key() }
}

fn output(value: u64, id: u128, owner: u8) -> TransactionOutput {
    TransactionOutput { value, unique_id: id, pubkey: key(owner).public_key() }
}

fn contact(name: &str) -> Recipient {
    Recipient { name: name.to_string(), public_key_path: format!("{}.pub.pem", name) }
}

fn wallet(keys: &[u8], utxos: Vec<(TransactionOutput, bool)>) -> Core {
    let mut store = UtxoStore::new();
    for n in keys {
        store.add_key(pair(*n));
    }
    let mut core = Core::new("node:8765".to_string(), vec![contact("bob"), contact("eve")], store);
    core.utxos = utxos;
    core
}

#[test]
fn balance_counts_what_is_unspent() {
    let core = wallet(&[1], vec![(output(5, 1, 1), false), (output(7, 2, 1), true), (output(9, 3, 1), false)]);
    assert_eq!(core.total_unspent(), 14);
    assert_eq!(core.get_balance(), 14);
    assert_eq!(wallet(&[1], vec![]).get_balance(), 0);
    let rich = wallet(&[1], vec![(output(u64::MAX, 1, 1), false), (output(1, 2, 1), false)]);
    assert_eq!(rich.total_unspent(), u64::MAX as u128 + 1);
}

#[test]
fn payment_of_the_usage_example() {
    // A balance of 5000000000, a payment of 100000000 and a fee of 1000 leave
    // 4899999000.
    let coin = output(5_000_000_000, 1, 1);
    let core = wallet(&[1], vec![(coin, false)]);
    let tx = core
        .create_transaction_with(&key(2).public_key(), 100_000_000, 1000, 10, 11)
        .unwrap();
    assert_eq!(tx.outputs, vec![output(100_000_000, 10, 2), output(4_899_999_000, 11, 1)]);
    assert_eq!(tx.inputs.len(), 1);
    assert_eq!(tx.inputs[0].prev_transaction_output_hash, coin.hash());
    assert!(tx.inputs[0].signature.verify_output(&coin.hash(), &key(1).public_key()));
}

#[test]
fn outputs_are_selected_greedily_in_order() {
    let coins = [output(3, 1, 1), output(4, 2, 1), output(5, 3, 1), output(6, 4, 1)];
    let list: Vec<(TransactionOutput, bool)> =
        coins.iter().enumerate().map(|(n, c)| (*c, n == 1)).collect();
    let core = wallet(&[1], list);
    let spent = |amount: u64, fee: u64| -> Vec<rsbtc::sha256::Hash> {
        core.create_transaction_with(&key(2).public_key(), amount, fee, 1, 2)
            .unwrap()
            .inputs
            .iter()
            .map(|i| i.prev_transaction_output_hash)
            .collect()
    };
    assert_eq!(spent(2, 1), vec![coins[0].hash()]);
    assert_eq!(spent(3, 1), vec![coins[0].hash(), coins[2].hash()]);
    assert_eq!(spent(8, 0), vec![coins[0].hash(), coins[2].hash()]);
    assert_eq!(spent(8, 1), vec![coins[0].hash(), coins[2].hash(), coins[3].hash()]);
    assert_eq!(spent(0, 0), vec![coins[0].hash()]);
}

#[test]
fn there_is_no_change_of_nothing() {
    let core = wallet(&[1], vec![(output(10, 1, 1), false)]);
    let tx = core.create_transaction_with(&key(2).public_key(), 9, 1, 5, 6).unwrap();
    assert_eq!(tx.outputs, vec![output(9, 5, 2)]);
}

#[test]
fn nothing_is_needed_for_nothing() {
    let core = wallet(&[], vec![]);
    let tx = core.create_transaction_with(&key(2).public_key(), 0, 0, 5, 6).unwrap();
    assert_eq!(tx.inputs.len(), 0);
    assert_eq!(tx.outputs, vec![output(0, 5, 2)]);
}

#[test]
fn insufficient_funds() {
    let core = wallet(&[1], vec![(output(10, 1, 1), false), (output(90, 2, 1), true)]);
    let error = core.create_transaction_with(&key(2).public_key(), 10, 1, 5, 6).unwrap_err();
    assert_eq!(error, WalletError::InsufficientFunds { have: 10, need: 11 });
    assert_eq!(error.text(), "Insufficient funds: have 10 satoshis, need 11");
    let error = core
        .create_transaction_with(&key(2).public_key(), u64::MAX, u64::MAX, 5, 6)
        .unwrap_err();
    assert_eq!(
        error,
        WalletError::InsufficientFunds { have: 10, need: 2 * u64::MAX as u128 }
    );
    let keyless = wallet(&[], vec![(output(10, 1, 1), false)]);
    assert!(keyless.create_transaction_with(&key(2).public_key(), 11, 0, 5, 6).is_err());
}

#[test]
fn signing_needs_a_key() {
    let coins = || vec![(output(10, 1, 1), false), (output(10, 2, 1), true)];
    assert!(wallet(&[1], coins()).has_signer(5, 0));
    assert!(!wallet(&[], coins()).has_signer(5, 0));
    assert!(!wallet(&[], coins()).has_signer(0, 0));
    assert!(wallet(&[], coins()).has_signer(11, 0));
    assert!(wallet(&[], vec![(output(10, 2, 1), true)]).has_signer(0, 0));
}

#[test]
fn every_input_is_signed_by_its_owner() {
    let coins = [output(3, 1, 2), output(4, 2, 1), output(5, 3, 3)];
    let core = wallet(&[1, 2], coins.iter().map(|c| (*c, false)).collect());
    let tx = core.create_transaction(&key(4).public_key(), 10, 1).unwrap();
    let owners = [2u8, 1, 1];
    for n in 0..3 {
        let hash = coins[n].hash();
        assert_eq!(tx.inputs[n].prev_transaction_output_hash, hash);
        // A stranger's output is signed with the first key.
        assert!(tx.inputs[n].signature.verify_output(&hash, &key(owners[n]).public_key()));
    }
    // The change goes to the first key.
    assert_eq!(tx.outputs[1].pubkey, key(1).public_key());
    assert_eq!(tx.outputs[1].value, 1);
    assert_ne!(tx.outputs[0].unique_id, tx.outputs[1].unique_id);
}

#[test]
fn payment_is_admitted_by_a_node_and_leaves_its_fee() {
    let coins = [output(30, 1, 1), output(40, 2, 1)];
    let core = wallet(&[1], coins.iter().map(|c| (*c, false)).collect());
    let tx = core.create_transaction(&key(2).public_key(), 50, 7).unwrap();
    let mut table = HashTable::new();
    for c in coins {
        table.insert(c.hash(), (false, c));
    }
    let mut chain = Blockchain::restore(table, rsbtc::min_target(), vec![]);
    assert_eq!(transaction_fee(&tx, chain.utxos()), 7);
    assert_eq!(chain.add_to_mempool(tx), Ok(()));
}

#[test]
fn payment_passes_the_check_of_a_block() {
    let coins = [output(30, 1, 1), output(40, 2, 2)];
    let core = wallet(&[1, 2], coins.iter().map(|c| (*c, false)).collect());
    let tx = core.create_transaction(&key(3).public_key(), 50, 7).unwrap();
    let spent: u64 = coins.iter().map(|c| c.value).sum();
    let created: u64 = tx.outputs.iter().map(|o| o.value).sum();
    assert_eq!(spent, created + 7);
    let mut utxos = HashTable::new();
    for c in coins {
        utxos.insert(c.hash(), (false, c));
    }
    let coinbase = Transaction::new(vec![], vec![output(5_000_000_007, 9, 9)]);
    let transactions = vec![coinbase, tx.clone()];
    let header = BlockHeader::new(
        Timestamp::new(0, 0).unwrap(),
        0,
        rsbtc::sha256::Hash::zero(),
        MerkleRoot::calculate(&transactions),
        rsbtc::min_target(),
    );
    let block = Block::new(header, transactions);
    assert_eq!(block.verify_transactions(0, &utxos), Ok(()));
    // Once spent, an output cannot be spent again.
    let mut chain = Blockchain::restore(utxos, rsbtc::min_target(), vec![]);
    assert!(chain.admits(&tx));
    chain.add_block(block.clone()).unwrap();
    chain.rebuild_utxos();
    assert!(!chain.admits(&tx));
    assert!(block.verify_transactions(1, chain.utxos()).is_err());
}

#[test]
fn outputs_are_asked_for_once_per_key() {
    let core = wallet(&[1, 2], vec![]);
    let keys: Vec<_> = core
        .requests()
        .iter()
        .map(|m| match m {
            Message::FetchUTXOs(key) => *key,
            other => panic!("{:?}", other),
        })
        .collect();
    assert_eq!(keys, vec![key(1).public_key(), key(2).public_key()]);
}

#[test]
fn transaction_is_submitted() {
    let core = wallet(&[1], vec![(output(10, 1, 1), false)]);
    let tx = core.create_transaction(&key(2).public_key(), 9, 1).unwrap();
    match core.send_transaction(tx.clone()) {
        Message::SubmitTransaction(sent) => assert_eq!(sent.hash(), tx.hash()),
        other => panic!("{:?}", other),
    }
}

#[test]
fn replies_are_merged() {
    let mut core = wallet(&[1, 2, 3], vec![(output(99, 9, 1), false)]);
    let (a, b, c) = ((output(1, 1, 1), false), (output(2, 2, 1), true), (output(3, 3, 3), false));
    core.fetch_utxos(vec![
        Some(Message::UTXOs(vec![a, b])),
        Some(Message::TemplateValidity(true)),
        Some(Message::UTXOs(vec![c])),
    ]);
    assert_eq!(core.utxos, vec![a, b, c]);
    let bytes = |n: u8| UtxoStore::pubkey_bytes(&key(n).public_key());
    assert_eq!(core.utxo_store.known(&bytes(1)), Some(&vec![a, b]));
    assert_eq!(core.utxo_store.known(&bytes(2)), None);
    assert_eq!(core.utxo_store.known(&bytes(3)), Some(&vec![c]));
    // The next replies replace these; a missing one leaves what is known of a key.
    core.fetch_utxos(vec![Some(Message::UTXOs(vec![])), None, None]);
    assert_eq!(core.utxos, vec![]);
    assert_eq!(core.utxo_store.known(&bytes(1)), Some(&vec![]));
    assert_eq!(core.utxo_store.known(&bytes(3)), Some(&vec![c]));
    assert_eq!(core.utxo_store.keys().len(), 3);
}

#[test]
fn store_is_keyed_by_encoded_keys() {
    let public = key(1).public_key();
    assert_eq!(UtxoStore::pubkey_bytes(&public), encode(&public));
    assert_ne!(UtxoStore::pubkey_bytes(&public), UtxoStore::pubkey_bytes(&key(2).public_key()));
}

#[test]
fn files_are_loaded() {
    let entry = Key { private_key_path: "a".to_string(), public_key_path: "b".to_string() };
    assert_eq!(entry.load(key(1), key(1).public_key()), pair(1));
    let loaded = contact("bob").load(key(2).public_key());
    assert_eq!((loaded.name, loaded.public_key), ("bob".to_string(), key(2).public_key()));
}

#[test]
fn fee_types() {
    assert_eq!(FeeType::Fixed.fee(1000, 5), 1000);
    assert_eq!(FeeType::Percentage.fee(1000, 5), 5);
}

#[test]
fn contacts_are_found_by_name() {
    let mut core = wallet(&[1], vec![]);
    core.contacts.push(Recipient { name: "bob".to_string(), public_key_path: "other".to_string() });
    assert_eq!(core.find_contact("bob").unwrap().public_key_path, "bob.pub.pem");
    assert_eq!(core.find_contact("eve").unwrap().name, "eve");
    let error = core.find_contact("mallory").unwrap_err();
    assert_eq!(error, WalletError::ContactNotFound);
    assert_eq!(error.text(), "Contact not found");
    assert_eq!(core.node_addr(), "node:8765");
}

#[test]
fn form_is_checked() {
    let bob = || Some("bob".to_string());
    assert_eq!(on_send(bob(), " 12\n"), Ok(("bob".to_string(), 12)));
    assert_eq!(on_send(bob(), "+12"), Ok(("bob".to_string(), 12)));
    assert_eq!(on_send(bob(), ""), Err(FormError::InvalidAmount));
    assert_eq!(on_send(bob(), "1.5"), Err(FormError::InvalidAmount));
    assert_eq!(on_send(bob(), "-1"), Err(FormError::InvalidAmount));
    assert_eq!(on_send(None, "x"), Err(FormError::InvalidAmount));
    assert_eq!(on_send(None, "1"), Err(FormError::NoRecipient));
    assert_eq!(FormError::InvalidAmount.text(), "Invalid amount. Enter a whole number of coins.");
    assert_eq!(FormError::NoRecipient.text(), "No recipient selected.");
}

#[test]
fn screen_texts() {
    assert_eq!(show_coins(5_000_000_000), "5000000000 coins");
    assert_eq!(show_outputs(&vec![]), "No UTXOs found.");
    assert_eq!(
        show_outputs(&vec![(output(5, 1, 1), true), (output(60, 2, 1), false)]),
        "[pending] 5 coins\n[unspent] 60 coins"
    );
    assert_eq!(show_outputs(&vec![(output(0, 1, 1), false)]), "[unspent] 0 coins");
    assert_eq!(
        show_status(&sync_note(true)),
        "[S]end  [C]ontacts  [R]efresh  [Q]uit  — synced"
    );
    assert_eq!(sync_note(false), "node unreachable");
    assert_eq!(queued_note(7, "bob"), "Queued: 7 coins → bob");
    assert_eq!(error_note("oops"), "Error: oops");
}

#[test]
fn contact_texts() {
    assert_eq!(show_contacts(&vec![]), None);
    assert_eq!(no_contacts(), "No contacts configured.");
    assert_eq!(show_contacts(&vec![contact("bob"), contact("eve")]), Some("  bob\n  eve".to_string()));
    assert_eq!(show_send(&vec![]), None);
    assert_eq!(
        show_send(&vec![contact("bob"), contact("eve")]),
        Some(vec!["bob".to_string(), "eve".to_string()])
    );
}

#[test]
fn commands() {
    assert_eq!(show_help().lines().count(), 5);
    assert!(matches!(parse_command("balance"), Command::Balance));
    assert!(matches!(parse_command("  contacts\n"), Command::Contacts));
    assert!(matches!(parse_command("help"), Command::Help));
    assert!(matches!(parse_command("exit"), Command::Exit));
    assert!(matches!(parse_command("quit\r\n"), Command::Exit));
    match parse_command("send  bob\t100000000") {
        Command::Send { contact, amount } => {
            assert_eq!((contact, amount), ("bob".to_string(), 100_000_000))
        }
        other => panic!("{:?}", other),
    }
    for line in ["", "balance now", "send bob", "send bob x", "send bob 1 2", "Balance", "bob"] {
        assert!(matches!(parse_command(line), Command::Unknown), "{}", line);
    }
}
