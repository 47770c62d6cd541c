//! Covenant-based exit pools: the commitment hash, the leaf trees, the ladder
//! of pools and the transactions that walk it.

pub mod config;
pub mod ctv_scripts;
pub mod depths;
pub mod encoding;
pub mod error;
pub mod fees;
pub mod ladder;
pub mod participants;
pub mod pools;
pub mod script;
pub mod sha256;
pub mod spend;
pub mod taproot;
pub mod tree;
pub mod tx;
