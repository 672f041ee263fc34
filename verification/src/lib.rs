//! Business-logic core of a decentralized task marketplace: the task lifecycle
//! state machine with per-state boards, escrowed payments bound to each
//! transition, credential- and reputation-gated participation, and a
//! staked-vote arbitration pool.
//!
//! The store that a host ledger would provide is held explicitly: tasks keyed
//! by a monotonic index with a hash lookup, one board per lifecycle state,
//! escrow pools keyed by account and task, and a judgement record per dispute.
//! Every public operation either commits wholly or fails with a typed error
//! and no mutation.

pub mod errors;
pub mod escrow;
pub mod hashing;
pub mod identity;
pub mod judge_pool;
pub mod ledger;
pub mod reputation;
pub mod task_board;
pub mod types;
