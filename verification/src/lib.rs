//! MiniChain: a small permissioned ledger for signed records.
pub mod text;
pub mod keyed;
pub mod error;
pub mod crypto;
pub mod merkle;
pub mod json;
pub mod transaction;
pub mod block;
pub mod validation;
pub mod chain;
pub mod quorum;
pub mod validator;
pub mod authority;
pub mod mempool;
pub mod storage;
pub mod network;
pub mod api;
pub mod cli;
