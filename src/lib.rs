pub mod address;
pub mod block;
pub mod blockchain;
pub mod encoding;
pub mod forger;
pub mod hash;
pub mod keys;
pub mod laws;
pub mod ledger;
pub mod lottery;
pub mod mempool;
pub mod merkle;
pub mod models;
pub mod network;
pub mod p2p;
pub mod parameters;
pub mod pow;
pub mod public_key;
pub mod request_types;
pub mod sync;
pub mod undo;
pub mod utxo;
pub mod utxo_set;
pub mod vrf;
