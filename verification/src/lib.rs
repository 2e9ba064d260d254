//! The cryptographic core of a shielded deposit and withdrawal pool:
//! 256-bit field arithmetic, the MiMC sponge hash, an incremental Merkle
//! tree with a bounded root history, and a Groth16 verifier, tied together
//! by a deposit/withdraw protocol.

pub mod field_set;
pub mod merkle_tree;
pub mod mimcsponge;
pub mod ordinal_cash;
pub mod pairing;
pub mod uint;
pub mod utils;

pub use merkle_tree::MerkleTreeWithHistory;
pub use ordinal_cash::{to_fr, Ordinal, OrdinalCash, SplOrdinal};
pub use pairing::{verify_proof, Proof};
pub use uint::{Address, U256};
pub use utils::{addmod, mod_pow, mulmod, normalize};
