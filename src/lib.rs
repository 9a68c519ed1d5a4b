//! A simulated proof-of-work cryptocurrency network: blocks with Merkle roots,
//! UTXO transactions, wallets with secp256k1 keys, validating nodes and a
//! coordinator that gossips blocks and repairs tampered chains by majority.

pub mod crypto;
pub mod text;
pub mod transaction;
pub mod block;
pub mod ledger;
pub mod wallet;
pub mod node;
pub mod network;
