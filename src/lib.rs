//! Core of a Bitcoin SPV node: the wire codec (frames, block headers,
//! `headers`, `ping`/`pong` and inventory payloads, blocks), proof-of-work
//! validation, Merkle-root checking, the header chain, the wallet file
//! format and the decisions of the per-peer reader loop.

pub mod block;
pub mod block_header;
pub mod chain;
pub mod error;
pub mod hashing;
pub mod headers;
pub mod inventory;
pub mod message;
pub mod parser;
pub mod peer;
pub mod pow;
pub mod transaction;
pub mod wallet;
