//! The layout of the sharded state key-value store: which physical
//! database serves the metadata and each of the 256 shards, and which
//! shard a key belongs to.  Opening the physical databases is storage
//! plumbing outside this crate; the layout decided here is what that
//! plumbing follows.

use vstd::prelude::*;

verus! {

/// How many shards the state key-value store is split into.
pub const STATE_KV_SHARDS: usize = 256;

/// Which physical database serves a slot of the layout.
#[derive(Clone, Copy, PartialEq, Eq, Structural, Debug)]
pub enum ShardBacking {
    /// The pre-existing ledger database serves it.
    Ledger,
    /// A dedicated per-shard database serves it.
    Dedicated(usize),
}

/// The planned layout of the state key-value store.
pub struct StateKvDb {
    pub readonly: bool,
    pub metadata: ShardBacking,
    pub shards: Vec<ShardBacking>,
}

impl StateKvDb {
    /// Plans the layout that opening the store produces.  Without a split
    /// state database, the ledger database serves the metadata and every
    /// shard; with one, a metadata database and 256 dedicated shard
    /// databases are used, each shard by its own index.
    pub fn open(use_state_kv_db: bool, readonly: bool) -> (r: StateKvDb)
        ensures
            r.readonly == readonly,
            r.shards@.len() == STATE_KV_SHARDS,
            !use_state_kv_db ==> r.metadata == ShardBacking::Ledger && forall|i: int|
                0 <= i < STATE_KV_SHARDS ==> r.shards@[i] == ShardBacking::Ledger,
            use_state_kv_db ==> r.metadata == ShardBacking::Dedicated(STATE_KV_SHARDS)
                && forall|i: int|
                0 <= i < STATE_KV_SHARDS ==> r.shards@[i] == ShardBacking::Dedicated(i as usize),
    {
        let mut shards: Vec<ShardBacking> = Vec::new();
        let mut shard_id: usize = 0;
        while shard_id < STATE_KV_SHARDS
            invariant
                shard_id <= STATE_KV_SHARDS,
                shards@.len() == shard_id,
                !use_state_kv_db ==> forall|i: int|
                    0 <= i < shard_id ==> shards@[i] == ShardBacking::Ledger,
                use_state_kv_db ==> forall|i: int|
                    0 <= i < shard_id ==> shards@[i] == ShardBacking::Dedicated(i as usize),
            decreases STATE_KV_SHARDS - shard_id,
        {
            if use_state_kv_db {
                shards.push(ShardBacking::Dedicated(shard_id));
            } else {
                shards.push(ShardBacking::Ledger);
            }
            shard_id = shard_id + 1;
        }
        StateKvDb {
            readonly,
            metadata: if use_state_kv_db {
                ShardBacking::Dedicated(STATE_KV_SHARDS)
            } else {
                ShardBacking::Ledger
            },
            shards,
        }
    }

    /// The shard a key's hash routes to: the hash's top byte.
    pub fn shard_for_key(key_hash: u64) -> (r: usize)
        ensures
            r == key_hash as int / 0x100_0000_0000_0000,
            r < STATE_KV_SHARDS,
    {
        (key_hash / 0x100_0000_0000_0000) as usize
    }
}

} // verus!
