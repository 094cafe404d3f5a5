//! The value types of the collections.

pub mod hash_set;
pub mod peer_card;
pub mod tx_db;
pub mod txs;
pub mod utxo;
pub mod wallet_db;
