use block_stm_core::mvs::MVHashMap;
use block_stm_core::scheduler::{Scheduler, Task, TxnStatus};
use block_stm_core::types::{EntryPayload, ReadOutcome};
use block_stm_core::view::{validate_read_set, MVHashMapView, ProxyRead};
use block_stm_core::Version;

fn ver(t: usize, i: usize) -> Version {
    Version { txn_idx: t, incarnation: i }
}

#[test]
fn empty_batch_is_done_immediately() {
    let mut s = Scheduler::new(0);
    assert_eq!(s.next_task(), Task::Done);
    assert_eq!(s.next_task(), Task::Done);
}

#[test]
fn single_transaction_one_execute_one_validate_then_commit() {
    let mut s = Scheduler::new(1);
    assert_eq!(s.next_task(), Task::Execute(ver(0, 0)));
    s.finish_execution(0, 0);
    assert_eq!(s.next_task(), Task::Validate(ver(0, 0)));
    s.finish_validation(0, true);
    assert_eq!(s.next_task(), Task::Done);
    assert_eq!(s.statuses[0], TxnStatus::Committed);
}

#[test]
fn committed_transactions_are_never_dispatched_again() {
    let mut s = Scheduler::new(2);
    assert_eq!(s.next_task(), Task::Execute(ver(0, 0)));
    s.finish_execution(0, 0);
    assert_eq!(s.next_task(), Task::Validate(ver(0, 0)));
    s.finish_validation(0, true);
    // The next call commits transaction 0 and dispatches transaction 1.
    assert_eq!(s.next_task(), Task::Execute(ver(1, 0)));
    assert_eq!(s.statuses[0], TxnStatus::Committed);
    s.finish_execution(1, 0);
    assert_eq!(s.next_task(), Task::Validate(ver(1, 0)));
    s.finish_validation(1, true);
    assert_eq!(s.next_task(), Task::Done);
    // Once done, no execute or validate task ever comes out again.
    assert_eq!(s.next_task(), Task::Done);
}

#[test]
fn dependency_parks_the_reader_until_the_writer_finishes() {
    let mut m = MVHashMap::new(2);
    let mut s = Scheduler::new(2);
    assert_eq!(s.next_task(), Task::Execute(ver(0, 0)));
    // Validation now trails execution but transaction 0 has not executed:
    // the slot is a no-op, then transaction 1 is dispatched.
    assert_eq!(s.next_task(), Task::NoTask);
    assert_eq!(s.next_task(), Task::Execute(ver(1, 0)));

    // Transaction 1 reads key 1 while transaction 0 has not written yet:
    // nothing is below it, so it would fall through to storage.  Make the
    // dependency visible instead: transaction 0 aborted an earlier write.
    m.write(1, ver(0, 0), EntryPayload::Value(vec![1]));
    m.mark_estimate(1, 0);
    let mut proxy = MVHashMapView::new(1);
    let dep = match proxy.read(&m, 1) {
        ProxyRead::Suspended(d) => d,
        _ => panic!("expected a suspension on the estimate"),
    };
    assert_eq!(dep, 0);
    assert!(s.wait_for_dependency(1, dep, 0));
    assert_eq!(s.statuses[1], TxnStatus::ReadyToExecute(0));

    // The writer finishes: the waiter is woken and redispatched.
    m.write(1, ver(0, 0), EntryPayload::Value(vec![42]));
    s.finish_execution(0, 0);
    assert_eq!(s.next_task(), Task::Validate(ver(0, 0)));
    s.finish_validation(0, true);
    assert_eq!(s.next_task(), Task::Execute(ver(1, 0)));
    let mut proxy2 = MVHashMapView::new(1);
    match proxy2.read(&m, 1) {
        ProxyRead::Done(_) => {},
        _ => panic!("expected the read to go through after the wake"),
    }
    match m.read(1, 1) {
        ReadOutcome::Version(v, bytes) => {
            assert_eq!(v, ver(0, 0));
            assert_eq!(bytes, vec![42]);
        },
        _ => panic!("expected the writer's value"),
    }
}

#[test]
fn wait_for_dependency_on_an_executed_writer_retries_at_once() {
    let mut s = Scheduler::new(2);
    assert_eq!(s.next_task(), Task::Execute(ver(0, 0)));
    s.finish_execution(0, 0);
    assert_eq!(s.next_task(), Task::Validate(ver(0, 0)));
    s.finish_validation(0, true);
    assert_eq!(s.next_task(), Task::Execute(ver(1, 0)));
    // The dependency is already executed (indeed committed): no parking.
    assert!(!s.wait_for_dependency(1, 0, 0));
    assert_eq!(s.statuses[1], TxnStatus::Executing(0));
}

#[test]
fn abort_promotes_the_next_incarnation_and_invalidation_is_detected() {
    let mut m = MVHashMap::new(2);
    let mut s = Scheduler::new(2);

    // Transaction 0 writes "a" and finishes.
    assert_eq!(s.next_task(), Task::Execute(ver(0, 0)));
    m.write(1, ver(0, 0), EntryPayload::Value(vec![b'a']));
    s.finish_execution(0, 0);

    // Transaction 1 executes and captures its read of "a".
    assert_eq!(s.next_task(), Task::Validate(ver(0, 0)));
    s.finish_validation(0, false);

    // The failed validation aborts transaction 0: estimate, then retry.
    assert!(s.try_abort(0, 0));
    assert_eq!(s.statuses[0], TxnStatus::Aborting(0));
    m.mark_estimate(1, 0);
    s.finish_abort(0, 0);
    assert_eq!(s.statuses[0], TxnStatus::ReadyToExecute(1));

    // A second aborter cannot claim the same incarnation.
    assert!(!s.try_abort(0, 0));

    // A read set captured against the old write no longer validates.
    let mut proxy = MVHashMapView::new(2);
    // It observes the estimate now, so its earlier capture of (0, inc 0)
    // must be revalidated against the store:
    let reads = vec![block_stm_core::types::ReadDescriptor::from_version(1, 0, 0)];
    assert!(!validate_read_set(&m, &reads, 2));

    // Re-execution writes "b"; a fresh read sees it with incarnation 1.
    assert_eq!(s.next_task(), Task::Execute(ver(0, 1)));
    m.write(1, ver(0, 1), EntryPayload::Value(vec![b'b']));
    s.finish_execution(0, 1);
    match proxy.read(&m, 2) {
        ProxyRead::Done(_) => {},
        _ => panic!("expected the replacement value"),
    }
    match m.read(1, 2) {
        ReadOutcome::Version(v, bytes) => {
            assert_eq!(v, ver(0, 1));
            assert_eq!(bytes, vec![b'b']);
        },
        _ => panic!("expected the replacement value"),
    }
    // And the captured read of incarnation 1 revalidates.
    let reads2 = vec![block_stm_core::types::ReadDescriptor::from_version(1, 0, 1)];
    assert!(validate_read_set(&m, &reads2, 2));
}
