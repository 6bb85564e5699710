//! Core of a toy blockchain: a stake-weighted voting round over candidate
//! blocks, and a priority-ordered, deduplicated mempool of pending
//! transactions. Blocks are identified by a digest of their canonical byte
//! encoding; transactions are identified by a digest of their content.

pub mod hashing;
pub mod types;
pub mod mempool;
pub mod consensus;
pub mod state;
pub mod producer;
pub mod validator;
pub mod p2p;
pub mod cli;
pub mod web;
pub mod bridge;
pub mod agent;
