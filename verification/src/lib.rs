//! Verified core of a proof-of-work nonce solver for the AshMaize puzzle:
//! difficulty checks, nonce and preimage encoding, hex parsing, nonce search
//! bookkeeping, GPU buffer layout and the BLAKE2b probe used to cross-check
//! hash implementations.
pub mod benchmark;
pub mod difficulty;
pub mod gpu_layout;
pub mod hex;
pub mod preimage;
pub mod probe;
pub mod rom;
pub mod search;
