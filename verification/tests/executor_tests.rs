use block_stm_core::delta::delta_add;
use block_stm_core::executor::{run_batch, TxnProfile};
use block_stm_core::mvs::MVHashMap;
use block_stm_core::types::{EntryPayload, ReadOutcome};
use block_stm_core::view::validate_read_set;

fn final_read(m: &MVHashMap, key: u64) -> ReadOutcome {
    m.read(key, m.num_txns)
}

#[test]
fn empty_batch_completes_at_once() {
    let out = run_batch(&vec![], 1);
    assert!(out.is_some());
    let (m, logs) = out.unwrap();
    assert_eq!(m.num_txns, 0);
    assert_eq!(logs.len(), 0);
}

#[test]
fn no_fuel_means_no_completion() {
    let txns = vec![TxnProfile { reads: vec![], writes: vec![(1, EntryPayload::Value(vec![1]))] }];
    assert!(run_batch(&txns, 0).is_none());
}

#[test]
fn single_transaction_commits_its_write() {
    let txns = vec![TxnProfile {
        reads: vec![7],
        writes: vec![(1, EntryPayload::Value(vec![b'a']))],
    }];
    let (m, logs) = run_batch(&txns, 10).unwrap();
    match final_read(&m, 1) {
        ReadOutcome::Version(v, bytes) => {
            assert_eq!(v.txn_idx, 0);
            assert_eq!(bytes, vec![b'a']);
        },
        _ => panic!("expected the committed write"),
    }
    // The committed read set still revalidates against the final state.
    assert!(validate_read_set(&m, &logs[0], 0));
}

#[test]
fn later_writer_wins_as_in_sequential_execution() {
    let txns = vec![
        TxnProfile { reads: vec![], writes: vec![(1, EntryPayload::Value(vec![b'a']))] },
        TxnProfile { reads: vec![1], writes: vec![(1, EntryPayload::Value(vec![b'b']))] },
        TxnProfile { reads: vec![1], writes: vec![] },
    ];
    let (m, logs) = run_batch(&txns, 32).unwrap();
    match final_read(&m, 1) {
        ReadOutcome::Version(v, bytes) => {
            assert_eq!(v.txn_idx, 1);
            assert_eq!(bytes, vec![b'b']);
        },
        _ => panic!("expected the last writer's value"),
    }
    // Transaction 2 read below itself: it saw transaction 1's write.
    assert!(validate_read_set(&m, &logs[2], 2));
}

#[test]
fn within_one_transaction_the_last_write_of_a_key_wins() {
    let txns = vec![TxnProfile {
        reads: vec![],
        writes: vec![
            (1, EntryPayload::Value(vec![1])),
            (1, EntryPayload::Value(vec![2])),
        ],
    }];
    let (m, _) = run_batch(&txns, 10).unwrap();
    match final_read(&m, 1) {
        ReadOutcome::Version(_, bytes) => assert_eq!(bytes, vec![2]),
        _ => panic!("expected the transaction's final write"),
    }
}

#[test]
fn delta_writers_leave_a_composed_overlay() {
    let txns = vec![
        TxnProfile { reads: vec![], writes: vec![(9, EntryPayload::Delta(delta_add(5, u128::MAX)))] },
        TxnProfile { reads: vec![], writes: vec![(9, EntryPayload::Delta(delta_add(3, u128::MAX)))] },
        TxnProfile { reads: vec![9], writes: vec![] },
    ];
    let (m, logs) = run_batch(&txns, 32).unwrap();
    match final_read(&m, 9) {
        ReadOutcome::Unresolved(d) => {
            assert!(d.plus);
            assert_eq!(d.amount, 8);
        },
        _ => panic!("expected the composed delta overlay"),
    }
    assert!(validate_read_set(&m, &logs[2], 2));
}

#[test]
fn disjoint_writers_all_commit() {
    let txns = vec![
        TxnProfile { reads: vec![], writes: vec![(1, EntryPayload::Value(vec![1]))] },
        TxnProfile { reads: vec![], writes: vec![(2, EntryPayload::Value(vec![2]))] },
        TxnProfile { reads: vec![], writes: vec![(3, EntryPayload::Value(vec![3]))] },
    ];
    let (m, _) = run_batch(&txns, 32).unwrap();
    for (k, b) in [(1u64, 1u8), (2, 2), (3, 3)] {
        match final_read(&m, k) {
            ReadOutcome::Version(_, bytes) => assert_eq!(bytes, vec![b]),
            _ => panic!("expected every disjoint write to commit"),
        }
    }
}

#[test]
fn completes_within_the_fuel_bound() {
    // Two scheduler steps per transaction plus the completing one suffice.
    let txns = vec![
        TxnProfile { reads: vec![2], writes: vec![(1, EntryPayload::Value(vec![1]))] },
        TxnProfile { reads: vec![1], writes: vec![(2, EntryPayload::Value(vec![2]))] },
        TxnProfile { reads: vec![1, 2], writes: vec![(3, EntryPayload::Value(vec![3]))] },
    ];
    assert!(run_batch(&txns, 7).is_some());
}
