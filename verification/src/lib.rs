//! Core of a speculative parallel transaction executor: a multi-version
//! shared store, a per-attempt read proxy, a scheduler state machine, a
//! base-view resolver, and a quorum proof aggregator.

use vstd::prelude::*;

pub mod delta;
pub mod executor;
pub mod mvs;
pub mod proof_coordinator;
pub mod quorum_store_coordinator;
pub mod scheduler;
pub mod state_kv;
pub mod types;
pub mod view;

verus! {

/// A transaction's position in the batch, 0-based and dense.
pub type TxnIndex = usize;

/// Re-execution attempt count of one transaction, 0-based.
pub type Incarnation = usize;

/// Pair identifying one execution attempt of one transaction.
#[derive(Clone, Copy, PartialEq, Eq, Structural, Debug)]
pub struct Version {
    pub txn_idx: TxnIndex,
    pub incarnation: Incarnation,
}

impl Version {
    /// The version tag of one attempt.
    pub fn new(txn_idx: TxnIndex, incarnation: Incarnation) -> (r: Version)
        ensures
            r.txn_idx == txn_idx,
            r.incarnation == incarnation,
    {
        Version { txn_idx, incarnation }
    }
}

} // verus!
