//! A small proof-of-work miner: a fixed-layout block header, a double
//! SHA-256 digest, a leading-zero-byte difficulty test, a nonce search and a
//! driver that links mined blocks into a chain.

mod hashing;
mod header;
mod miner;
mod shape;

pub use header::{be32_bytes, be64_bytes, header_bytes, init_header, lemma_header_length};
pub use header::{HASH_LEN, HEADER_LEN, PADDING_LEN, VERSION};

pub use hashing::{double_hash, has_leading_zeroes, has_zero_prefix, sha256_2x, sha256_of, zero_prefix};

pub use shape::{vec_to_array, ShapeMismatch};

pub use miner::{block_number_to_nonce, chain_prev, chain_time, is_chain, mine_chain, MinedBlock};
pub use miner::{genesis_hash, is_mined, meets_target, minable, run_proof_of_work};
pub use miner::{lemma_chain_deterministic, lemma_chain_links, lemma_mining_deterministic};
pub use miner::{DIFFICULTY, GENESIS_TIMESTAMP, TIME_STEP};
