//! A relay-directory analysis library: a typed filter grammar over an
//! immutable snapshot of relay records, and the analyses built on it —
//! block-list configuration artifacts, exit-policy classification, and
//! nearest-duplicate search by edit distance.

pub mod commands;
pub mod config;
pub mod distance;
pub mod errors;
pub mod filter;
pub mod fingerprint;
pub mod policy;
pub mod relay;
pub mod sybil;
pub mod text;
