use coinsim::block::Block;
use coinsim::crypto::hash_text;
use coinsim::text::{decimal, starts_with_zeros};
use coinsim::transaction::{get_utxo_id, Transaction, TxInput, TxOutput, UTXO};
use coinsim::wallet::address_from_key_bytes;

fn tx_with_id(id: &str) -> Transaction {
    Transaction { id: id.to_string(), inputs: vec![], outputs: vec![], timestamp: 0 }
}

#[test]
fn decimal_renders_without_leading_zeros() {
    assert_eq!(decimal(0), "0");
    assert_eq!(decimal(7), "7");
    assert_eq!(decimal(1234567890), "1234567890");
    assert_eq!(decimal(u64::MAX), "18446744073709551615");
}

#[test]
fn hash_text_is_lowercase_hex_sha256() {
    assert_eq!(hash_text("abc"), "ba7816bf8f01cfea414140de5dae2223b00361a396177a9cb410ff61f20015ad");
    assert_eq!(hash_text(""), "e3b0c44298fc1c149afbf4c8996fb92427ae41e4649b934ca495991b7852b855");
}

#[test]
fn leading_zero_check() {
    assert!(starts_with_zeros("00ab", 2));
    assert!(!starts_with_zeros("0a0b", 2));
    assert!(starts_with_zeros("", 0));
    assert!(starts_with_zeros("ff", 0));
    assert!(!starts_with_zeros("0", 2));
}

#[test]
fn utxo_id_appends_decimal_index() {
    assert_eq!(get_utxo_id("abc", 3), "abc3");
    assert_eq!(get_utxo_id("abc", 12), "abc12");
}

#[test]
fn address_is_base58check_of_key_digest() {
    let mut key = vec![2u8];
    key.extend_from_slice(&[7u8; 32]);
    assert_eq!(address_from_key_bytes(&key), "1CnsFRx3oQcJ7i3dQ2K3c2AR3fF3Be9crH");
}

#[test]
fn transaction_id_hashes_inputs_outputs_and_timestamp() {
    let inputs = vec![TxInput {
        utxo_id: "tx10".to_string(),
        utxo_output_index: 0,
        signature: vec![1, 2, 3],
        sender_address: "alice".to_string(),
    }];
    let outputs = vec![
        TxOutput { amount: 30, recipient_address: "bob".to_string() },
        TxOutput { amount: 20, recipient_address: "alice".to_string() },
    ];
    let tx = Transaction::new_at(inputs, outputs, 1_700_000_000);
    assert_eq!(tx.id, "16a6114e33938a9d972bb58cb446f59697cfa4c9a7b802af541ff1f21404461d");
    assert_eq!(tx.calculate_hash(), tx.id);
    let copy = tx.duplicate();
    assert_eq!(copy.calculate_hash(), copy.id);
    assert_eq!(copy, tx);
}

#[test]
fn new_transaction_id_matches_its_content() {
    let tx = Transaction::new(vec![], vec![TxOutput { amount: 5, recipient_address: "x".to_string() }]);
    assert_eq!(tx.calculate_hash(), tx.id);
    assert_eq!(tx.id.len(), 64);
}

#[test]
fn coinbase_id_is_digest_then_nonce() {
    let tx = Transaction::coinbase_at("bob".to_string(), 50, 1_700_000_000, 42);
    assert!(tx.inputs.is_empty());
    assert_eq!(tx.outputs.len(), 1);
    assert_eq!(tx.outputs[0].amount, 50);
    assert_eq!(tx.id, "64b20e1ab52c4acca0de7a1c89adad59b248e0609fcfa2e61b097a0bd85dd2d742");
}

#[test]
fn random_coinbases_differ() {
    let a = Transaction::new_coinbase("bob".to_string(), 50);
    let b = Transaction::new_coinbase("bob".to_string(), 50);
    assert!(a.inputs.is_empty());
    assert!(a.id.starts_with(&a.calculate_hash()));
    assert_ne!(a.id, b.id);
}

#[test]
fn totals_and_validity() {
    let set = vec![
        UTXO { transaction_id: "t1".to_string(), output_index: 0, amount: 30, recipient_address: "a".to_string() },
        UTXO { transaction_id: "t1".to_string(), output_index: 1, amount: 20, recipient_address: "a".to_string() },
    ];
    let input = |id: &str, i: usize| TxInput {
        utxo_id: id.to_string(),
        utxo_output_index: i,
        signature: vec![],
        sender_address: "a".to_string(),
    };
    let out = |amount: u64| TxOutput { amount, recipient_address: "b".to_string() };
    let tx = Transaction::new_at(vec![input("t10", 0), input("t11", 1)], vec![out(45), out(5)], 1);
    assert_eq!(tx.get_total_input_amount(&set), 50);
    assert_eq!(tx.get_total_output_amount(), 50);
    assert!(tx.is_valid(&set));
    let over = Transaction::new_at(vec![input("t10", 0)], vec![out(31)], 1);
    assert_eq!(over.get_total_input_amount(&set), 30);
    assert!(!over.is_valid(&set));
    let wrong_index = Transaction::new_at(vec![input("t10", 1)], vec![out(1)], 1);
    assert_eq!(wrong_index.get_total_input_amount(&set), 0);
    assert!(!wrong_index.is_valid(&set));
    let coinbase = Transaction::coinbase_at("b".to_string(), 50, 1, 0);
    assert!(coinbase.is_valid(&[]));
}

#[test]
fn merkle_root_small_cases() {
    let empty = Block::new(0, 0, vec![], "0".to_string());
    assert_eq!(empty.merkle_root, "0");
    let one = Block::new(0, 0, vec![tx_with_id("a")], "0".to_string());
    assert_eq!(one.merkle_root, hash_text("aa"));
    assert_eq!(one.merkle_root, "961b6dd3ede3cb8ecbaacbd68de040cd78eb2ed5889130cceb4c49268ea4d506");
}

#[test]
fn merkle_root_duplicates_odd_levels() {
    let two = Block::new(0, 0, vec![tx_with_id("a"), tx_with_id("b")], "0".to_string());
    assert_eq!(two.merkle_root, "fb8e20fc2e4c3f248c60c39bd652f3c1347298bb977b8b4d5903b85055620603");
    let three = Block::new(0, 0, vec![tx_with_id("a"), tx_with_id("b"), tx_with_id("c")], "0".to_string());
    assert_eq!(three.merkle_root, "5c700ad7ee9dc104f1a6e92da5a3a76f73d62b0d1c86a205eace21ed914dcdbf");
    let five = Block::new(
        0,
        0,
        vec![tx_with_id("a"), tx_with_id("b"), tx_with_id("c"), tx_with_id("d"), tx_with_id("e")],
        "0".to_string(),
    );
    assert_eq!(five.merkle_root, "3da44b6eb5511a3300965d849e0a2d000e4bf10d9e0afa62c66ebf2b0f04aa04");
}

#[test]
fn block_hash_covers_header() {
    let b = Block::new(1, 1_700_000_001, vec![tx_with_id("a"), tx_with_id("b")], "prevhash".to_string());
    assert_eq!(b.nonce, 0);
    assert_eq!(b.hash, "d8de376da24ab5a8363e0bce0e86fa171472c8137d039e24207eb4f940ebf46d");
    assert_eq!(b.calculate_hash(), b.hash);
}

#[test]
fn mining_at_zero_difficulty_changes_nothing() {
    let mut b = Block::new(1, 5, vec![tx_with_id("a")], "p".to_string());
    let before = b.hash.clone();
    assert!(b.mine_block(0));
    assert_eq!(b.nonce, 0);
    assert_eq!(b.hash, before);
}

#[test]
fn mining_finds_leading_zeros() {
    let mut b = Block::new(3, 99, vec![tx_with_id("a")], "p".to_string());
    assert!(b.mine_block(2));
    assert!(b.hash.starts_with("00"));
    assert_eq!(b.calculate_hash(), b.hash);
    let mut again = b.clone();
    assert!(again.mine_block(2));
    assert_eq!(again.nonce, b.nonce);
}

#[test]
fn mining_restarts_from_nonce_zero() {
    let mut fresh = Block::new(2, 7, vec![tx_with_id("a")], "p".to_string());
    assert!(fresh.mine_block(2));
    let mut moved = Block::new(2, 7, vec![tx_with_id("a")], "p".to_string());
    moved.nonce = fresh.nonce + 1000;
    moved.hash = "00".to_string();
    assert!(moved.mine_block(2));
    assert_eq!(moved.nonce, fresh.nonce);
    assert_eq!(moved.hash, fresh.hash);
    let mut zero = Block::new(2, 7, vec![tx_with_id("a")], "p".to_string());
    zero.nonce = 5;
    zero.hash = "ff".to_string();
    assert!(zero.mine_block(0));
    assert_eq!(zero.nonce, 0);
    assert_eq!(zero.hash, zero.calculate_hash());
}
