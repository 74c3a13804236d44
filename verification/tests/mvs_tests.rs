use block_stm_core::delta::{delta_add, delta_sub};
use block_stm_core::mvs::MVHashMap;
use block_stm_core::types::{EntryPayload, ReadOutcome};
use block_stm_core::Version;

fn ver(t: usize, i: usize) -> Version {
    Version { txn_idx: t, incarnation: i }
}

#[test]
fn write_then_read_sees_the_value_with_its_version() {
    let mut m = MVHashMap::new(4);
    m.write(1, ver(1, 0), EntryPayload::Value(vec![10, 20]));
    match m.read(1, 3) {
        ReadOutcome::Version(v, bytes) => {
            assert_eq!(v, ver(1, 0));
            assert_eq!(bytes, vec![10, 20]);
        },
        _ => panic!("expected a versioned value"),
    }
}

#[test]
fn read_returns_the_highest_write_below_the_reader() {
    let mut m = MVHashMap::new(4);
    m.write(1, ver(0, 0), EntryPayload::Value(vec![1]));
    m.write(1, ver(2, 0), EntryPayload::Value(vec![2]));
    match m.read(1, 2) {
        ReadOutcome::Version(v, bytes) => {
            assert_eq!(v, ver(0, 0));
            assert_eq!(bytes, vec![1]);
        },
        _ => panic!("expected a versioned value"),
    }
    match m.read(1, 3) {
        ReadOutcome::Version(v, bytes) => {
            assert_eq!(v, ver(2, 0));
            assert_eq!(bytes, vec![2]);
        },
        _ => panic!("expected a versioned value"),
    }
}

#[test]
fn read_on_the_lowest_txn_with_no_prior_cell_is_not_found() {
    let mut m = MVHashMap::new(3);
    m.write(5, ver(1, 0), EntryPayload::Value(vec![9]));
    match m.read(5, 0) {
        ReadOutcome::NotFound => {},
        _ => panic!("expected nothing below the lowest transaction"),
    }
    match m.read(77, 3) {
        ReadOutcome::NotFound => {},
        _ => panic!("expected nothing for an unwritten key"),
    }
}

#[test]
fn estimate_reports_a_dependency_on_the_aborted_writer() {
    let mut m = MVHashMap::new(4);
    m.write(1, ver(0, 0), EntryPayload::Value(vec![1]));
    m.write(1, ver(2, 0), EntryPayload::Value(vec![2]));
    m.mark_estimate(1, 2);
    match m.read(1, 3) {
        ReadOutcome::Dependency(d) => assert_eq!(d, 2),
        _ => panic!("expected a dependency on the estimated cell"),
    }
    // The older value below the estimate stays reachable for lower readers.
    match m.read(1, 2) {
        ReadOutcome::Version(v, _) => assert_eq!(v, ver(0, 0)),
        _ => panic!("expected the older value"),
    }
}

#[test]
fn rewrite_over_estimate_yields_the_replacement() {
    let mut m = MVHashMap::new(4);
    m.write(1, ver(1, 0), EntryPayload::Value(vec![7]));
    m.mark_estimate(1, 1);
    m.write(1, ver(1, 1), EntryPayload::Value(vec![8]));
    match m.read(1, 3) {
        ReadOutcome::Version(v, bytes) => {
            assert_eq!(v, ver(1, 1));
            assert_eq!(bytes, vec![8]);
        },
        _ => panic!("expected the rewritten value, with no estimate left"),
    }
}

#[test]
fn delete_removes_the_cell() {
    let mut m = MVHashMap::new(3);
    m.write(4, ver(1, 0), EntryPayload::Value(vec![3]));
    m.delete(4, 1);
    match m.read(4, 2) {
        ReadOutcome::NotFound => {},
        _ => panic!("expected the cell to be gone"),
    }
}

#[test]
fn delta_chain_collapses_onto_a_value() {
    let mut m = MVHashMap::new(4);
    let ten: u128 = 10;
    m.write(9, ver(0, 0), EntryPayload::Value(ten.to_le_bytes().to_vec()));
    m.write(9, ver(1, 0), EntryPayload::Delta(delta_add(5, u128::MAX)));
    m.write(9, ver(2, 0), EntryPayload::Delta(delta_add(3, u128::MAX)));
    match m.read(9, 3) {
        ReadOutcome::Resolved(n) => assert_eq!(n, 18),
        _ => panic!("expected the chain to resolve"),
    }
}

#[test]
fn delta_chain_without_a_value_below_composes_unresolved() {
    let mut m = MVHashMap::new(4);
    m.write(9, ver(0, 0), EntryPayload::Delta(delta_add(5, u128::MAX)));
    m.write(9, ver(1, 0), EntryPayload::Delta(delta_add(3, u128::MAX)));
    match m.read(9, 3) {
        ReadOutcome::Unresolved(d) => {
            assert!(d.plus);
            assert_eq!(d.amount, 8);
            assert_eq!(d.limit, u128::MAX);
        },
        _ => panic!("expected the composed delta"),
    }
}

#[test]
fn delta_over_short_value_fails_application() {
    let mut m = MVHashMap::new(3);
    m.write(9, ver(0, 0), EntryPayload::Value(vec![1, 2, 3]));
    m.write(9, ver(1, 0), EntryPayload::Delta(delta_add(5, u128::MAX)));
    match m.read(9, 2) {
        ReadOutcome::DeltaApplicationFailure => {},
        _ => panic!("expected a failure on a value that is no integer"),
    }
}

#[test]
fn delta_underflow_fails_application() {
    let mut m = MVHashMap::new(3);
    let ten: u128 = 10;
    m.write(9, ver(0, 0), EntryPayload::Value(ten.to_le_bytes().to_vec()));
    m.write(9, ver(1, 0), EntryPayload::Delta(delta_sub(100, u128::MAX)));
    match m.read(9, 2) {
        ReadOutcome::DeltaApplicationFailure => {},
        _ => panic!("expected an underflow failure"),
    }
}

#[test]
fn delta_arithmetic_is_exact() {
    let d = delta_add(5, 20);
    assert_eq!(d.apply_to(10), Some(15));
    assert_eq!(d.apply_to(16), None);
    let s = delta_sub(4, 20);
    assert_eq!(s.apply_to(10), Some(6));
    assert_eq!(s.apply_to(3), None);
    let merged = delta_add(3, 20).merge_over(&delta_sub(5, 20)).unwrap();
    assert!(!merged.plus);
    assert_eq!(merged.amount, 2);
    let cancel = delta_sub(5, 20).merge_over(&delta_add(5, 20)).unwrap();
    assert!(cancel.plus);
    assert_eq!(cancel.amount, 0);
    assert_eq!(delta_add(1, 20).merge_over(&delta_add(u128::MAX, 20)), None);
}

#[test]
fn shrunken_write_set_deletes_vanished_keys() {
    let mut m = MVHashMap::new(2);
    m.write(1, ver(0, 0), EntryPayload::Value(vec![1]));
    m.write(2, ver(0, 0), EntryPayload::Value(vec![2]));
    // The re-execution no longer writes key 1: its cell is removed.
    m.remove_vanished(0, &vec![1, 2], &vec![2]);
    match m.read(1, 2) {
        ReadOutcome::NotFound => {},
        _ => panic!("expected the vanished key's cell to be gone"),
    }
    match m.read(2, 2) {
        ReadOutcome::Version(v, bytes) => {
            assert_eq!(v, ver(0, 0));
            assert_eq!(bytes, vec![2]);
        },
        _ => panic!("expected the kept key's cell to stay"),
    }
    // Equal lists leave every cell in place.
    m.remove_vanished(0, &vec![2], &vec![2]);
    match m.read(2, 2) {
        ReadOutcome::Version(_, bytes) => assert_eq!(bytes, vec![2]),
        _ => panic!("expected no change for an unshrunken write set"),
    }
}
