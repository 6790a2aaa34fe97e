//! A minimal layer-1 blockchain: accounts and transfers with nonce replay protection,
//! blocks committed to by SHA3-256 hashes and Merkle roots, a round-based BFT consensus
//! engine, and a stack machine with gas metering.
pub mod account;
pub mod address_map;
pub mod block;
pub mod codec;
pub mod consensus;
pub mod crypto;
pub mod merkle;
pub mod state;
pub mod transaction;
pub mod vm;

pub use account::Account;
pub use merkle::MerkleTree;
pub use state::State;
pub use transaction::Transaction;
pub mod simulation;
