//! A conflict-free replicated counter.
//!
//! Independent actors mutate a shared value locally and reconcile later by
//! exchanging append-only logs of operations. The merge engine folds
//! operations into a value under an algebra that is commutative and
//! idempotent, so replaying the union of all logs in any order, with any
//! duplication, yields one deterministic result.

pub mod codec;
pub mod counter;
pub mod identity;
pub mod merge;
pub mod ops;
pub mod store;
pub mod trusted;
