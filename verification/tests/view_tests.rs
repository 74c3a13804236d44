use block_stm_core::delta::delta_add;
use block_stm_core::mvs::MVHashMap;
use block_stm_core::types::{EntryPayload, ReadDescriptor, ReadKind, ReadResult};
use block_stm_core::view::{
    CachedData, LatestView, MVHashMapView, ProxyRead, StateMap, ViewRead, VmError,
};
use block_stm_core::Version;

fn ver(t: usize, i: usize) -> Version {
    Version { txn_idx: t, incarnation: i }
}

#[test]
fn proxy_captures_one_descriptor_per_read() {
    let mut m = MVHashMap::new(4);
    let ten: u128 = 10;
    m.write(1, ver(0, 0), EntryPayload::Value(vec![5]));
    m.write(2, ver(0, 0), EntryPayload::Value(ten.to_le_bytes().to_vec()));
    m.write(2, ver(1, 0), EntryPayload::Delta(delta_add(7, u128::MAX)));
    m.write(3, ver(0, 0), EntryPayload::Delta(delta_add(2, u128::MAX)));

    let mut proxy = MVHashMapView::new(3);
    match proxy.read(&m, 1) {
        ProxyRead::Done(ReadResult::Value(v)) => assert_eq!(v, vec![5]),
        _ => panic!("expected a value"),
    }
    match proxy.read(&m, 2) {
        ProxyRead::Done(ReadResult::U128(n)) => assert_eq!(n, 17),
        _ => panic!("expected a resolved integer"),
    }
    match proxy.read(&m, 3) {
        ProxyRead::Done(ReadResult::Unresolved(d)) => assert_eq!(d.amount, 2),
        _ => panic!("expected an unresolved delta"),
    }
    match proxy.read(&m, 4) {
        ProxyRead::Done(ReadResult::NotFound) => {},
        _ => panic!("expected nothing for an unwritten key"),
    }
    let reads = proxy.take_reads();
    assert_eq!(reads.len(), 4);
    assert_eq!(reads[0], ReadDescriptor { key: 1, kind: ReadKind::Version(ver(0, 0)) });
    assert_eq!(reads[1], ReadDescriptor { key: 2, kind: ReadKind::Resolved(17) });
    assert!(matches!(reads[2].kind, ReadKind::Unresolved(_)));
    assert_eq!(reads[3], ReadDescriptor { key: 4, kind: ReadKind::Storage });
    // Draining leaves the proxy empty.
    assert_eq!(proxy.take_reads().len(), 0);
}

#[test]
fn unresolved_delta_resolves_against_the_base_view() {
    let mut m = MVHashMap::new(3);
    m.write(9, ver(0, 0), EntryPayload::Delta(delta_add(5, u128::MAX)));
    m.write(9, ver(1, 0), EntryPayload::Delta(delta_add(3, u128::MAX)));
    let mut base = StateMap::new();
    let ten: u128 = 10;
    base.put(9, ten.to_le_bytes().to_vec());

    let mut view = LatestView::new_mv_view(2);
    match view.get_value(&m, &base, 9, false) {
        ViewRead::Data(Some(CachedData::U128(n))) => assert_eq!(n, 18),
        _ => panic!("expected the delta applied to the base value"),
    }
}

#[test]
fn missing_base_under_a_delta_is_a_storage_error() {
    let mut m = MVHashMap::new(2);
    m.write(9, ver(0, 0), EntryPayload::Delta(delta_add(5, u128::MAX)));
    let base = StateMap::new();
    let mut view = LatestView::new_mv_view(1);
    match view.get_value(&m, &base, 9, false) {
        ViewRead::Failure(VmError::StorageError) => {},
        _ => panic!("expected a storage error"),
    }
}

#[test]
fn failing_delta_application_on_the_base_is_an_execution_error() {
    let mut m = MVHashMap::new(2);
    m.write(9, ver(0, 0), EntryPayload::Delta(block_stm_core::delta::delta_sub(100, u128::MAX)));
    let mut base = StateMap::new();
    let ten: u128 = 10;
    base.put(9, ten.to_le_bytes().to_vec());
    let mut view = LatestView::new_mv_view(1);
    match view.get_value(&m, &base, 9, false) {
        ViewRead::Failure(VmError::DeltaApplicationError) => {},
        _ => panic!("expected a delta application error"),
    }
}

#[test]
fn miss_falls_back_to_base_bytes_with_and_without_layout_hint() {
    let m = MVHashMap::new(2);
    let mut base = StateMap::new();
    base.put(4, vec![1, 2, 3]);
    let mut view = LatestView::new_mv_view(1);
    match view.get_value(&m, &base, 4, false) {
        ViewRead::Data(Some(CachedData::Serialized(b))) => assert_eq!(b, vec![1, 2, 3]),
        _ => panic!("expected raw base bytes"),
    }
    match view.get_value(&m, &base, 4, true) {
        ViewRead::Data(Some(CachedData::Structured(b))) => assert_eq!(b, vec![1, 2, 3]),
        _ => panic!("expected hint-driven decoding of the base bytes"),
    }
    match view.get_value(&m, &base, 5, false) {
        ViewRead::Data(None) => {},
        _ => panic!("expected an absent key"),
    }
}

#[test]
fn btree_view_prefers_its_map_over_the_base() {
    let m = MVHashMap::new(1);
    let mut latest = StateMap::new();
    latest.put(4, vec![9]);
    let mut base = StateMap::new();
    base.put(4, vec![1]);
    base.put(5, vec![2]);
    let mut view = LatestView::new_btree_view(latest, 0);
    match view.get_value(&m, &base, 4, false) {
        ViewRead::Data(Some(CachedData::Serialized(b))) => assert_eq!(b, vec![9]),
        _ => panic!("expected the map's value"),
    }
    match view.get_value(&m, &base, 5, false) {
        ViewRead::Data(Some(CachedData::Serialized(b))) => assert_eq!(b, vec![2]),
        _ => panic!("expected the base's value"),
    }
}

#[test]
fn state_map_put_replaces_and_keeps_other_keys() {
    let mut base = StateMap::new();
    base.put(1, vec![1]);
    base.put(2, vec![2]);
    base.put(1, vec![3]);
    assert_eq!(base.get_state_value(1), Ok(Some(vec![3])));
    assert_eq!(base.get_state_value(2), Ok(Some(vec![2])));
    assert_eq!(base.get_state_value(3), Ok(None));
}

#[test]
fn undecodable_base_under_a_delta_is_a_storage_error() {
    let mut m = MVHashMap::new(2);
    m.write(9, ver(0, 0), EntryPayload::Delta(delta_add(5, u128::MAX)));
    let mut base = StateMap::new();
    // Three bytes are no 16-byte integer encoding.
    base.put(9, vec![1, 2, 3]);
    let mut view = LatestView::new_mv_view(1);
    match view.get_value(&m, &base, 9, false) {
        ViewRead::Failure(VmError::StorageError) => {},
        _ => panic!("expected a storage error on an undecodable base"),
    }
}

#[test]
fn failing_base_read_is_fatal_for_the_reader() {
    let mut base = StateMap::new();
    base.put(4, vec![1]);
    base.mark_fault(4);
    base.mark_fault(9);
    assert_eq!(base.get_state_value(4), Err(()));

    // A plain miss that consults the failing store surfaces the error.
    let m = MVHashMap::new(2);
    let mut view = LatestView::new_mv_view(1);
    match view.get_value(&m, &base, 4, false) {
        ViewRead::Failure(VmError::StorageError) => {},
        _ => panic!("expected the storage error to surface on the miss path"),
    }

    // So does a delta that needs the failing base value.
    let mut md = MVHashMap::new(2);
    md.write(9, ver(0, 0), EntryPayload::Delta(delta_add(5, u128::MAX)));
    let mut view2 = LatestView::new_mv_view(1);
    match view2.get_value(&md, &base, 9, false) {
        ViewRead::Failure(VmError::StorageError) => {},
        _ => panic!("expected the storage error to surface under the delta"),
    }

    // A hit in the latest-value map never consults the failing store.
    let mut latest = StateMap::new();
    latest.put(4, vec![7]);
    let mut view3 = LatestView::new_btree_view(latest, 0);
    match view3.get_value(&m, &base, 4, false) {
        ViewRead::Data(Some(CachedData::Serialized(b))) => assert_eq!(b, vec![7]),
        _ => panic!("expected the map's value despite the failing store"),
    }
}
