use coinsim::block::Block;
use coinsim::node::Node;
use coinsim::transaction::{Transaction, TxInput, TxOutput, UTXO};
use coinsim::wallet::Wallet;

fn owned(w: &Wallet, tx: &str, index: usize, amount: u64) -> UTXO {
    UTXO {
        transaction_id: tx.to_string(),
        output_index: index,
        amount,
        recipient_address: w.get_address().to_string(),
    }
}

fn funded_wallet() -> Wallet {
    let mut w = Wallet::new();
    let a = owned(&w, "t1", 0, 30);
    let b = owned(&w, "t2", 0, 20);
    w.add_utxo(a);
    w.add_utxo(b);
    w
}

#[test]
fn new_wallet_is_empty_with_base58_address() {
    let w = Wallet::new();
    assert_eq!(w.get_balance(), 0);
    assert!(w.owned_utxos().is_empty());
    let address = w.get_address();
    assert!(address.starts_with('1'));
    assert!(address.len() >= 25 && address.len() <= 34);
    assert_ne!(Wallet::new().get_address(), address);
}

#[test]
fn signature_round_trip() {
    let w = Wallet::new();
    let sig = w.sign(b"message");
    assert!(w.verify(b"message", &sig));
    assert!(!w.verify(b"other message", &sig));
    assert!(!Wallet::new().verify(b"message", &sig));
}

#[test]
fn malformed_signature_is_rejected() {
    let w = Wallet::new();
    assert!(!w.verify(b"message", &[]));
    assert!(!w.verify(b"message", &[1, 2, 3]));
}

#[test]
fn balance_follows_added_and_removed_outputs() {
    let mut w = funded_wallet();
    assert_eq!(w.get_balance(), 50);
    let foreign = UTXO {
        transaction_id: "t3".to_string(),
        output_index: 0,
        amount: 99,
        recipient_address: "someone else".to_string(),
    };
    w.add_utxo(foreign);
    assert_eq!(w.get_balance(), 50);
    w.remove_utxo("t1", 0);
    assert_eq!(w.get_balance(), 20);
    assert_eq!(w.owned_utxos().len(), 1);
    w.remove_utxo("missing", 0);
    assert_eq!(w.get_balance(), 20);
    let sum: u64 = w.owned_utxos().iter().map(|u| u.amount).sum();
    assert_eq!(sum, w.get_balance());
}

#[test]
fn payment_with_change() {
    let w = funded_wallet();
    let tx = w.create_transaction("bob", 40).unwrap();
    assert_eq!(tx.inputs.len(), 2);
    assert_eq!(tx.inputs[0].utxo_id, "t10");
    assert_eq!(tx.inputs[1].utxo_id, "t20");
    assert_eq!(tx.inputs[0].sender_address, w.get_address());
    assert_eq!(tx.outputs.len(), 2);
    assert_eq!(tx.outputs[0].amount, 40);
    assert_eq!(tx.outputs[0].recipient_address, "bob");
    assert_eq!(tx.outputs[1].amount, 10);
    assert_eq!(tx.outputs[1].recipient_address, w.get_address());
    assert_eq!(tx.calculate_hash(), tx.id);
    assert!(w.verify(b"t10040", &tx.inputs[0].signature));
}

#[test]
fn payment_of_whole_balance_has_no_change() {
    let w = funded_wallet();
    let tx = w.create_transaction("bob", 50).unwrap();
    assert_eq!(tx.inputs.len(), 2);
    assert_eq!(tx.outputs.len(), 1);
    assert_eq!(tx.outputs[0].amount, 50);
}

#[test]
fn payment_above_balance_is_refused() {
    let w = funded_wallet();
    assert!(w.create_transaction("bob", 51).is_none());
    assert!(Wallet::new().create_transaction("bob", 1).is_none());
}

#[test]
fn zero_payment_draws_first_output() {
    let w = funded_wallet();
    let tx = w.create_transaction("bob", 0).unwrap();
    assert_eq!(tx.inputs.len(), 1);
    assert_eq!(tx.outputs.len(), 2);
    assert_eq!(tx.outputs[1].amount, 30);
}

#[test]
fn wallet_follows_transactions() {
    let mut w = funded_wallet();
    let tx = w.create_transaction("bob", 25).unwrap();
    w.update_utxos(&[tx.clone()]);
    assert_eq!(w.get_balance(), 20 + 5);
    assert!(w.owned_utxos().iter().any(|u| u.transaction_id == tx.id && u.output_index == 1));
    w.update_utxos(&[tx]);
    assert_eq!(w.get_balance(), 25);
}

fn node_with_outputs() -> Node {
    let mut node = Node::new(0, None);
    node.utxo_set.push(UTXO {
        transaction_id: "t1".to_string(),
        output_index: 0,
        amount: 30,
        recipient_address: "a".to_string(),
    });
    node
}

fn spend(id: &str, amount: u64) -> Transaction {
    Transaction::new_at(
        vec![TxInput { utxo_id: id.to_string(), utxo_output_index: 0, signature: vec![], sender_address: "a".to_string() }],
        vec![TxOutput { amount, recipient_address: "b".to_string() }],
        1,
    )
}

#[test]
fn node_transaction_checks() {
    let node = node_with_outputs();
    assert!(node.verify_transaction(&spend("t10", 30)));
    assert!(!node.verify_transaction(&spend("t10", 31)));
    assert!(!node.verify_transaction(&spend("zz0", 0)));
    assert!(node.verify_transaction(&Transaction::coinbase_at("x".to_string(), 1, 1, 1)));
}

#[test]
fn connections_skip_self_and_repeats() {
    let mut node = Node::new(4, None);
    node.add_connection(4);
    node.add_connection(1);
    node.add_connection(1);
    node.add_connection(2);
    assert_eq!(node.connections, vec![1, 2]);
}

#[test]
fn only_the_validator_builds_blocks() {
    let mut node = Node::new(0, None);
    assert!(node.create_block(1).is_none());
    node.is_validator = true;
    let block = node.create_block(1).unwrap();
    assert_eq!(block.index, 0);
    assert_eq!(block.previous_hash, "0");
    assert_eq!(block.transactions.len(), 1);
    assert!(block.transactions[0].inputs.is_empty());
    assert_eq!(block.transactions[0].outputs[0].amount, 5_000_000_000);
    assert!(block.hash.starts_with('0'));
}

#[test]
fn block_holds_at_most_nine_pending_transactions() {
    let mut node = Node::new(0, None);
    node.is_validator = true;
    for k in 0..12u64 {
        node.mempool.push(Transaction::coinbase_at("x".to_string(), 1, k, k));
    }
    let block = node.create_block(0).unwrap();
    assert_eq!(block.transactions.len(), 10);
    assert_eq!(node.mempool.len(), 3);
    assert_eq!(block.transactions[1].timestamp, 0);
    assert_eq!(node.mempool[0].timestamp, 9);
}

#[test]
fn empty_chain_accepts_only_index_zero() {
    let node = Node::new(0, None);
    let genesis = Block::new(0, 1, vec![], "0".to_string());
    let other = Block::new(1, 1, vec![], "0".to_string());
    assert!(node.is_valid_new_block(&genesis, 2));
    assert!(!node.is_valid_new_block(&other, 2));
}

#[test]
fn genesis_given_to_a_node_is_replayed() {
    let coinbase = Transaction::coinbase_at("x".to_string(), 7, 1, 1);
    let genesis = Block::new(0, 1, vec![coinbase.clone()], "0".to_string());
    let node = Node::new(3, Some(genesis));
    assert_eq!(node.blockchain.len(), 1);
    assert_eq!(node.utxo_set.len(), 1);
    assert_eq!(node.utxo_set[0].transaction_id, coinbase.id);
    assert_eq!(node.utxo_set[0].amount, 7);
    assert_eq!(node.get_balance(), 0);
}

#[test]
fn chain_check_detects_tampering() {
    let mut node = Node::new(0, None);
    node.is_validator = true;
    for _ in 0..3 {
        let b = node.create_block(2).unwrap();
        node.append_block(b);
    }
    assert!(node.is_chain_valid());
    assert!(node.is_chain_valid_with_difficulty(&node.blockchain, 2));
    let mut chain = node.blockchain.clone();
    chain[2].hash = "00ff".to_string();
    assert!(!node.is_chain_valid_with_difficulty(&chain, 2));
    let mut chain = node.blockchain.clone();
    chain[1].previous_hash = "00".to_string();
    assert!(!node.is_chain_valid_with_difficulty(&chain, 2));
    assert!(!node.is_chain_valid_with_difficulty(&node.blockchain, 64));
}

#[test]
fn rebuilt_outputs_equal_applied_outputs() {
    let mut node = Node::new(0, None);
    node.is_validator = true;
    for _ in 0..3 {
        let b = node.create_block(1).unwrap();
        node.append_block(b);
    }
    let applied = node.utxo_set.clone();
    node.rebuild_utxo_set();
    assert_eq!(node.utxo_set, applied);
    assert_eq!(node.utxo_set.len(), 3);
    assert_eq!(node.get_balance(), 15_000_000_000);
}

#[test]
fn blocks_without_transactions_are_refused() {
    let mut node = Node::new(0, None);
    node.is_validator = true;
    let first = node.create_block(1).unwrap();
    node.append_block(first);
    let last = node.blockchain[0].clone();
    let mut empty = Block::new(1, 5, vec![], last.hash.clone());
    assert!(empty.mine_block(1));
    assert!(!node.is_valid_new_block(&empty, 1));
    assert!(!node.add_block_from_network(empty.clone(), 1));
    let chain = vec![last, empty];
    assert!(!node.is_chain_valid_with_difficulty(&chain, 1));
}

#[test]
fn signatures_depend_on_key_and_data_alone() {
    let w = Wallet::new();
    assert_eq!(w.sign(b"abc"), w.sign(b"abc"));
    assert_ne!(w.sign(b"abc"), w.sign(b"abd"));
    assert_eq!(w.get_public_key().len(), 33);
}

#[test]
fn block_skips_spend_of_an_output_made_in_the_same_block() {
    let mut node = Node::new(0, None);
    node.is_validator = true;
    let first = node.create_block(0).unwrap();
    let coinbase_id = first.transactions[0].id.clone();
    node.append_block(first);
    let input = |id: String| TxInput { utxo_id: id, utxo_output_index: 0, signature: vec![], sender_address: "a".to_string() };
    let pay = |amount: u64| vec![TxOutput { amount, recipient_address: "b".to_string() }];
    let spend = Transaction::new_at(vec![input(format!("{}0", coinbase_id))], pay(10), 1);
    let chained = Transaction::new_at(vec![input(format!("{}0", spend.id))], pay(5), 2);
    node.mempool.push(spend.clone());
    node.mempool.push(chained.clone());
    let block = node.create_block(0).unwrap();
    assert_eq!(block.transactions.len(), 2);
    assert_eq!(block.transactions[1].id, spend.id);
    assert_eq!(node.mempool, vec![chained]);
}

#[test]
fn signature_of_a_payment_input_verifies() {
    let w = funded_wallet();
    let tx = w.create_transaction("bob", 40).unwrap();
    assert!(w.verify(b"t20040", &tx.inputs[1].signature));
    assert_eq!(tx.inputs[1].signature, w.sign(b"t20040"));
}
