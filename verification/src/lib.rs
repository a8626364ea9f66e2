//! Reward-accrual and stake-accounting core of a pooled-staking NFT
//! collection.
//!
//! The library models the contract state as a plain value ([`state::PoolState`])
//! and exposes the commands that mutate it: the validator stake ledger
//! (delegate / undelegate / redelegate), the two-phase reward-claim pipeline
//! (claim fan-out, then a self-addressed settle callback), and the per-token
//! lifecycle (mint / break) built on a monotone reward accumulator.
//! Outbound protocol messages are returned as values; the host adapter
//! performs the actual I/O.

pub mod encoding;
pub mod errors;
pub mod execute;
pub mod laws;
pub mod order;
pub mod query;
pub mod state;
