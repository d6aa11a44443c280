//! Pedersen commitments over the Ristretto group, aggregated into a binary
//! SHA-512 hash tree, and a ledger that answers membership queries.

pub mod group;
pub mod hashing;
pub mod merkle;
pub mod pedersen;
pub mod transaction;

pub use merkle::{MerkleError, MerkleNode, MerkleTree};
pub use pedersen::{blinding_from_bytes, BlindingError, PedersenCommitment};
pub use transaction::{Transaction, TransactionLedger};
