use block_stm_core::quorum_store_coordinator::{
    CoordinatorCommand, CoordinatorStep, LogicalTime, QuorumStoreCoordinator,
};
use block_stm_core::state_kv::{ShardBacking, StateKvDb, STATE_KV_SHARDS};

#[test]
fn commit_notification_fans_out_in_order() {
    let c = QuorumStoreCoordinator::new(1, 2);
    let lt = LogicalTime { epoch: 3, round: 8 };
    let steps = c.handle_command(CoordinatorCommand::CommitNotification(lt, vec![10, 11]));
    assert_eq!(steps.len(), 2);
    match &steps[0] {
        CoordinatorStep::ForwardCommitToProofManager(t, ds) => {
            assert_eq!(*t, lt);
            assert_eq!(*ds, vec![10, 11]);
        },
        _ => panic!("expected the proof manager first"),
    }
    match &steps[1] {
        CoordinatorStep::ForwardCommitToBatchGenerator(t) => assert_eq!(*t, lt),
        _ => panic!("expected the batch generator second"),
    }
}

#[test]
fn shutdown_stops_every_subsystem_before_acknowledging() {
    let c = QuorumStoreCoordinator::new(1, 3);
    let steps = c.handle_command(CoordinatorCommand::Shutdown);
    assert_eq!(steps.len(), 6);
    assert!(matches!(steps[0], CoordinatorStep::ShutdownBatchStore));
    assert!(matches!(steps[1], CoordinatorStep::ShutdownProofCoordinator));
    for i in 0..3usize {
        match steps[2 + i] {
            CoordinatorStep::ShutdownNetworkListener(j) => assert_eq!(j, i),
            _ => panic!("expected each listener in turn"),
        }
    }
    assert!(matches!(steps[5], CoordinatorStep::AckShutdown));
}

#[test]
fn layout_without_split_database_reuses_the_ledger() {
    let db = StateKvDb::open(false, false);
    assert!(!db.readonly);
    assert_eq!(db.metadata, ShardBacking::Ledger);
    assert_eq!(db.shards.len(), STATE_KV_SHARDS);
    for s in &db.shards {
        assert_eq!(*s, ShardBacking::Ledger);
    }
}

#[test]
fn layout_with_split_database_opens_every_shard() {
    let db = StateKvDb::open(true, true);
    assert!(db.readonly);
    assert_eq!(db.metadata, ShardBacking::Dedicated(STATE_KV_SHARDS));
    for (i, s) in db.shards.iter().enumerate() {
        assert_eq!(*s, ShardBacking::Dedicated(i));
    }
}

#[test]
fn keys_route_to_the_shard_of_their_top_byte() {
    assert_eq!(StateKvDb::shard_for_key(0), 0);
    assert_eq!(StateKvDb::shard_for_key(0x0100_0000_0000_0000), 1);
    assert_eq!(StateKvDb::shard_for_key(0xFFFF_FFFF_FFFF_FFFF), 255);
    assert_eq!(StateKvDb::shard_for_key(0xAB12_3456_789A_BCDE), 0xAB);
}
