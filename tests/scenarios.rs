use coinsim::network::BlockchainNetwork;
use coinsim::node::Node;
use coinsim::transaction::{Transaction, TxInput, TxOutput};

const COIN: u64 = 100_000_000;

fn full_network(n: usize) -> BlockchainNetwork {
    let mut net = BlockchainNetwork::new();
    for k in 0..n {
        assert_eq!(net.add_node(), k);
    }
    for i in 0..n {
        for j in (i + 1)..n {
            net.connect_nodes(i, j);
        }
    }
    net
}

fn mine_with(net: &mut BlockchainNetwork, validator: usize) {
    net.assign_validator(validator);
    assert!(net.mine_block().is_some());
}

fn total_balance(net: &BlockchainNetwork) -> u64 {
    net.nodes.iter().map(|n| n.get_balance()).sum()
}

#[test]
fn network_starts_empty() {
    let mut net = BlockchainNetwork::new();
    assert_eq!(net.node_count(), 0);
    assert_eq!(net.current_val_id(), None);
    assert_eq!(net.difficulty, 2);
    assert!(net.mine_block().is_none());
    net.select_random_validator();
    assert_eq!(net.current_val_id(), None);
    assert_eq!(net.get_node_address(0), "Unknown Node");
    assert!(net.get_node_blockchain_hashes(0).is_empty());
}

#[test]
fn connections_are_symmetric() {
    let mut net = full_network(3);
    net.connect_nodes(0, 0);
    net.connect_nodes(0, 7);
    assert_eq!(net.nodes[0].connections, vec![1, 2, 7]);
    assert_eq!(net.nodes[1].connections, vec![0, 2]);
    assert_eq!(net.nodes[2].connections, vec![0, 1]);
}

#[test]
fn random_validator_is_unique() {
    let mut net = full_network(5);
    for _ in 0..10 {
        net.select_random_validator();
        let v = net.current_val_id().unwrap();
        let flagged: Vec<usize> = (0..5).filter(|&i| net.nodes[i].is_validator).collect();
        assert_eq!(flagged, vec![v]);
    }
    net.assign_validator(9);
    assert_eq!(net.nodes.iter().filter(|n| n.is_validator).count(), 1);
}

#[test]
fn genesis_reward_goes_to_validator() {
    let mut net = full_network(5);
    net.assign_validator(2);
    let block = net.mine_block().unwrap();
    assert_eq!(block.transactions.len(), 1);
    assert_eq!(block.index, 0);
    assert!(block.hash.starts_with("00"));
    for i in 0..5 {
        assert_eq!(net.nodes[i].blockchain.len(), 1);
        let expected = if i == 2 { 50 * COIN } else { 0 };
        assert_eq!(net.nodes[i].get_balance(), expected);
        assert_eq!(net.nodes[i].utxo_set, net.nodes[2].utxo_set);
    }
    assert!(net.current_val_id().is_some());
}

#[test]
fn transfer_then_new_validator_mines() {
    let mut net = full_network(5);
    mine_with(&mut net, 2);
    let w_address = net.get_node_address(4);
    let tx = net.create_transaction(2, &w_address, 5 * COIN).unwrap();
    assert_eq!(net.mempool.len(), 1);
    assert_eq!(net.mempool[0].id, tx.id);
    mine_with(&mut net, 0);
    assert!(net.mempool.is_empty());
    assert_eq!(net.nodes[2].get_balance(), 45 * COIN);
    assert_eq!(net.nodes[4].get_balance(), 5 * COIN);
    assert_eq!(net.nodes[0].get_balance(), 50 * COIN);
    assert_eq!(total_balance(&net), 2 * 50 * COIN);
    for i in 0..5 {
        assert_eq!(net.nodes[i].blockchain.len(), 2);
    }
}

#[test]
fn transfer_mined_by_the_sender() {
    let mut net = full_network(3);
    mine_with(&mut net, 1);
    let w_address = net.get_node_address(2);
    assert!(net.create_transaction(1, &w_address, 5 * COIN).is_some());
    mine_with(&mut net, 1);
    assert_eq!(net.nodes[1].get_balance(), 95 * COIN);
    assert_eq!(net.nodes[2].get_balance(), 5 * COIN);
    assert_eq!(total_balance(&net), 2 * 50 * COIN);
}

#[test]
fn transfer_refused_without_funds_or_sender() {
    let mut net = full_network(3);
    mine_with(&mut net, 1);
    let address = net.get_node_address(0);
    assert!(net.create_transaction(0, &address, 1).is_none());
    assert!(net.create_transaction(1, &address, 50 * COIN + 1).is_none());
    assert!(net.create_transaction(9, &address, 1).is_none());
    assert!(net.mempool.is_empty());
}

#[test]
fn spent_output_cannot_be_spent_again() {
    let mut net = full_network(5);
    mine_with(&mut net, 2);
    let coinbase_id = net.nodes[2].blockchain[0].transactions[0].id.clone();
    let first = net.get_node_address(3);
    let tx = net.create_transaction(2, &first, 50 * COIN).unwrap();
    assert_eq!(tx.inputs[0].utxo_id, format!("{}0", coinbase_id));
    mine_with(&mut net, 0);
    assert_eq!(net.nodes[3].get_balance(), 50 * COIN);
    assert_eq!(net.nodes[2].get_balance(), 0);
    let sender = net.nodes[2].get_address().to_string();
    let again = Transaction::new_at(
        vec![TxInput {
            utxo_id: format!("{}0", coinbase_id),
            utxo_output_index: 0,
            signature: vec![],
            sender_address: sender,
        }],
        vec![TxOutput { amount: 50 * COIN, recipient_address: net.get_node_address(4) }],
        1,
    );
    for i in 0..5 {
        assert!(!net.nodes[i].verify_transaction(&again));
    }
    assert!(net.create_transaction(2, &net.get_node_address(4), 50 * COIN).is_none());
}

#[test]
fn tampering_detected_by_majority() {
    let mut net = full_network(5);
    mine_with(&mut net, 2);
    mine_with(&mut net, 1);
    let honest = net.get_node_blockchain_hashes(0);
    assert!(!net.try_manipulate_blockchain(3, None));
    assert_eq!(net.get_node_blockchain_hashes(3), honest);
    assert!(!net.try_manipulate_blockchain(4, Some("deadbeef".to_string())));
    assert_eq!(net.get_node_blockchain_hashes(4), honest);
    assert!(net.nodes[4].is_chain_valid());
}

#[test]
fn tampering_accepted_without_majority() {
    let mut net = full_network(3);
    mine_with(&mut net, 1);
    mine_with(&mut net, 2);
    net.nodes[1].blockchain[1].hash = "bad".to_string();
    let honest = net.get_node_blockchain_hashes(2);
    assert!(net.try_manipulate_blockchain(0, Some("ffff".to_string())));
    assert_eq!(net.get_node_blockchain_hashes(2), honest);
    let tampered = net.get_node_blockchain_hashes(0);
    assert!(tampered[1].starts_with("00"));
    assert_eq!(net.nodes[0].blockchain[1].hash, net.nodes[0].blockchain[1].calculate_hash());
    assert!(net.nodes[0].is_chain_valid());
    assert!(net.try_manipulate_blockchain(0, Some("00ab".to_string())));
    assert_eq!(net.nodes[0].blockchain[1].hash, "00ab");
    assert!(!net.nodes[0].is_chain_valid());
    assert_eq!(net.get_node_blockchain_hashes(2), honest);
}

#[test]
fn tampering_an_empty_or_unknown_node_does_nothing() {
    let mut net = full_network(3);
    assert!(!net.try_manipulate_blockchain(0, None));
    assert!(!net.try_manipulate_blockchain(8, None));
}

#[test]
fn hash_manipulation_outcomes() {
    let mut net = full_network(3);
    assert!(!net.try_manipulate_hash(0, "x".to_string()));
    assert!(!net.try_manipulate_hash(5, "x".to_string()));
    net.assign_validator(1);
    assert!(net.try_manipulate_hash(1, "x".to_string()));
    assert!(!net.try_manipulate_hash(0, "x".to_string()));
    let mut pair = full_network(2);
    assert!(pair.try_manipulate_hash(0, "x".to_string()));
}

#[test]
fn longest_valid_chain_replaces_local_chain() {
    let mut producer = Node::new(0, None);
    producer.is_validator = true;
    let mut follower = Node::new(1, None);
    for k in 0..5 {
        let block = producer.create_block(2).unwrap();
        if k < 3 {
            assert!(follower.add_block_from_network(block.clone(), 2));
        }
        producer.append_block(block);
    }
    assert_eq!(follower.blockchain.len(), 3);
    assert_eq!(follower.utxo_set.len(), 3);
    let address = follower.get_address().to_string();
    let included = producer.blockchain[4].transactions[0].clone();
    let unrelated = Transaction::coinbase_at("x".to_string(), 1, 1, 1);
    follower.mempool.push(included);
    follower.mempool.push(unrelated.clone());
    follower.update_blockchain(producer.blockchain.clone(), 2);
    assert_eq!(follower.blockchain.len(), 5);
    assert_eq!(follower.get_address(), address);
    assert_eq!(follower.get_balance(), 0);
    assert_eq!(follower.mempool, vec![unrelated]);
    assert_eq!(follower.utxo_set, producer.utxo_set);
    let mut rebuilt = follower.clone();
    rebuilt.rebuild_utxo_set();
    assert_eq!(rebuilt.utxo_set, follower.utxo_set);
}

#[test]
fn equal_length_fork_is_kept() {
    let mut a = Node::new(0, None);
    a.is_validator = true;
    let mut b = Node::new(1, None);
    b.is_validator = true;
    for _ in 0..2 {
        let block = a.create_block(1).unwrap();
        a.append_block(block);
        let block = b.create_block(1).unwrap();
        b.append_block(block);
    }
    let before: Vec<String> = a.blockchain.iter().map(|x| x.hash.clone()).collect();
    a.update_blockchain(b.blockchain.clone(), 1);
    let after: Vec<String> = a.blockchain.iter().map(|x| x.hash.clone()).collect();
    assert_eq!(before, after);
}

#[test]
fn invalid_longer_chain_is_refused() {
    let mut a = Node::new(0, None);
    a.is_validator = true;
    let block = a.create_block(1).unwrap();
    a.append_block(block);
    let mut b = Node::new(1, None);
    b.is_validator = true;
    for _ in 0..3 {
        let block = b.create_block(1).unwrap();
        b.append_block(block);
    }
    let mut forged = b.blockchain.clone();
    forged[2].previous_hash = "0".to_string();
    a.update_blockchain(forged, 1);
    assert_eq!(a.blockchain.len(), 1);
}

#[test]
fn block_broadcast_rejected_by_peer_with_other_chain() {
    let mut net = full_network(2);
    mine_with(&mut net, 0);
    let mut stray = Node::new(9, None);
    stray.is_validator = true;
    let block = stray.create_block(2).unwrap();
    net.current_validator_id = None;
    net.nodes[0].is_validator = false;
    net.nodes[1].is_validator = false;
    net.broadcast_block(&block);
    assert_eq!(net.nodes[0].blockchain.len(), 1);
    assert_eq!(net.nodes[1].blockchain.len(), 1);
}

#[test]
fn mining_mode_switches() {
    let mut net = full_network(2);
    assert!(net.start_automatic_mining().is_err());
    net.assign_validator(0);
    assert!(net.start_automatic_mining().is_ok());
    assert!(net.mining_active);
    assert!(net.start_automatic_mining().is_err());
    assert!(net.stop_automatic_mining().is_ok());
    assert!(!net.mining_active);
    assert!(net.stop_automatic_mining().is_err());
}

#[test]
fn settings_change() {
    let mut net = BlockchainNetwork::new();
    net.set_difficulty(3);
    net.set_block_time(60);
    assert_eq!(net.difficulty, 3);
    assert_eq!(net.block_time, 60);
}

#[test]
fn double_spend_rejected() {
    let mut net = full_network(5);
    mine_with(&mut net, 2);
    let first = net.get_node_address(3);
    let second = net.get_node_address(4);
    let a = net.create_transaction(2, &first, 50 * COIN).unwrap();
    let b = net.create_transaction(2, &second, 50 * COIN).unwrap();
    assert_eq!(a.inputs[0].utxo_id, b.inputs[0].utxo_id);
    net.assign_validator(0);
    let block = net.mine_block().unwrap();
    let has_a = block.transactions.iter().any(|t| t.id == a.id);
    let has_b = block.transactions.iter().any(|t| t.id == b.id);
    assert!(has_a ^ has_b);
    assert_eq!(block.transactions.len(), 2);
    let left = if has_a { &b } else { &a };
    assert_eq!(net.mempool.len(), 1);
    assert_eq!(net.mempool[0].id, left.id);
    for i in 0..5 {
        assert!(!net.nodes[i].verify_transaction(left));
    }
    assert_eq!(total_balance(&net), 2 * 50 * COIN);
}
