//! Block-synchronization core of a light client for a Substrate-style chain.
//!
//! Two sibling state machines drive the local view of the chain forward (best
//! block) and upward (finalized block) from a set of untrusted block sources:
//!
//! - [`all_forks`] maintains every plausible fork above the latest finalized
//!   block and tolerates divergent views across sources.
//! - [`optimistic`] assumes cooperative sources and downloads a single
//!   canonical chain far ahead of verification, rolling back on any failure.
//!
//! Consensus cryptography, header hashing and the runtime virtual machine are
//! external collaborators: the engines consume their verdicts as plain values
//! and are verified for every possible verdict.

pub mod all_forks;
pub mod babe_config;
pub mod bytes;
pub mod chain_spec;
pub mod finality_slot;
pub mod optimistic;
pub mod pending_blocks;
pub mod tree;
pub mod verification_queue;
