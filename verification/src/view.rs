//! The per-attempt read proxy and the latest-value view handed to the
//! virtual machine: reads resolve against the multi-version store first,
//! fall back to the pre-batch base view, and every access is captured as a
//! read descriptor for later validation.

use vstd::prelude::*;
use crate::delta::DeltaOp;
use crate::mvs::{key_in, scan, MVHashMap};
use crate::types::{
    cell_view, clone_bytes, decode_u128, decode_u128_spec, CellV, EntryCell, OutcomeV, PayloadV,
    ReadDescriptor, ReadKind, ReadOutcome, ReadResult, ReadResultV,
};
use crate::Version;

verus! {

/// What one proxy read comes back with: a result for the virtual machine,
/// or a suspension on a lower transaction whose estimate was observed.
pub enum ProxyRead {
    Done(ReadResult),
    Suspended(usize),
}

/// Mathematical view of a [`ProxyRead`].
pub enum ProxyReadV {
    Done(ReadResultV),
    Suspended(int),
}

impl View for ProxyRead {
    type V = ProxyReadV;

    open spec fn view(&self) -> ProxyReadV {
        match self {
            ProxyRead::Done(r) => ProxyReadV::Done(r@),
            ProxyRead::Suspended(d) => ProxyReadV::Suspended(*d as int),
        }
    }
}

/// What the proxy hands back for a raw read outcome: a version read gives
/// the value, a resolved chain the integer, a failed chain the integer zero
/// (validation audits the speculation), and an estimate a suspension.
pub open spec fn proxy_read_spec(out: OutcomeV) -> ProxyReadV {
    match out {
        OutcomeV::Version { value, .. } => ProxyReadV::Done(ReadResultV::Value(value)),
        OutcomeV::Resolved(n) => ProxyReadV::Done(ReadResultV::U128(n)),
        OutcomeV::NotFound => ProxyReadV::Done(ReadResultV::NotFound),
        OutcomeV::Unresolved(d) => ProxyReadV::Done(ReadResultV::Unresolved(d)),
        OutcomeV::Dependency(dep) => ProxyReadV::Suspended(dep),
        OutcomeV::DeltaApplicationFailure => ProxyReadV::Done(ReadResultV::U128(0)),
    }
}

/// The descriptor a read outcome leaves behind; a suspension captures
/// nothing, since the attempt retries.
pub open spec fn capture_of(key: u64, out: OutcomeV) -> Seq<ReadDescriptor> {
    match out {
        OutcomeV::Version { txn_idx, incarnation, .. } => seq![
            ReadDescriptor {
                key,
                kind: ReadKind::Version(
                    Version { txn_idx: txn_idx as usize, incarnation: incarnation as usize },
                ),
            },
        ],
        OutcomeV::Resolved(n) => seq![ReadDescriptor { key, kind: ReadKind::Resolved(n) }],
        OutcomeV::NotFound => seq![ReadDescriptor { key, kind: ReadKind::Storage }],
        OutcomeV::Unresolved(d) => seq![ReadDescriptor { key, kind: ReadKind::Unresolved(d) }],
        OutcomeV::Dependency(_) => Seq::empty(),
        OutcomeV::DeltaApplicationFailure => seq![
            ReadDescriptor { key, kind: ReadKind::DeltaFailure },
        ],
    }
}

/// A read proxy bound to one execution attempt of one transaction.  It
/// resolves the attempt's reads against the multi-version store and records
/// a descriptor for each; on observing an estimate it reports the
/// dependency, and the scheduler parks the attempt until the dependency
/// finishes.
pub struct MVHashMapView {
    pub txn_idx: usize,
    pub captured_reads: Vec<ReadDescriptor>,
}

impl MVHashMapView {
    /// A fresh proxy for one attempt, with nothing captured yet.
    pub fn new(txn_idx: usize) -> (r: MVHashMapView)
        ensures
            r.txn_idx == txn_idx,
            r.captured_reads@ == Seq::<ReadDescriptor>::empty(),
    {
        MVHashMapView { txn_idx, captured_reads: Vec::new() }
    }

    /// Drains the captured reads.
    pub fn take_reads(&mut self) -> (r: Vec<ReadDescriptor>)
        ensures
            r@ == old(self).captured_reads@,
            final(self).captured_reads@ == Seq::<ReadDescriptor>::empty(),
            final(self).txn_idx == old(self).txn_idx,
    {
        let mut out: Vec<ReadDescriptor> = Vec::new();
        let n = self.captured_reads.len();
        let mut i: usize = 0;
        while i < n
            invariant
                n == self.captured_reads@.len(),
                i <= n,
                out@ == self.captured_reads@.take(i as int),
            decreases n - i,
        {
            out.push(self.captured_reads[i]);
            proof {
                assert(out@ =~= self.captured_reads@.take(i as int + 1));
            }
            i = i + 1;
        }
        proof {
            assert(out@ =~= self.captured_reads@);
        }
        self.captured_reads = Vec::new();
        out
    }

    /// Captures a read issued by the attempt: the outcome is what the store
    /// scan denotes, the matching descriptor is appended, and an observed
    /// estimate is reported as a suspension with nothing captured.
    pub fn read(&mut self, versioned_map: &MVHashMap, key: u64) -> (r: ProxyRead)
        requires
            versioned_map.wf(),
            old(self).txn_idx <= versioned_map.num_txns,
        ensures
            final(self).txn_idx == old(self).txn_idx,
            r@ == proxy_read_spec(
                scan(versioned_map.cells_of(key), old(self).txn_idx as int - 1, Option::None),
            ),
            final(self).captured_reads@ == old(self).captured_reads@ + capture_of(
                key,
                scan(versioned_map.cells_of(key), old(self).txn_idx as int - 1, Option::None),
            ),
    {
        let outcome = versioned_map.read(key, self.txn_idx);
        let r = match outcome {
            ReadOutcome::Version(version, v) => {
                self.captured_reads.push(
                    ReadDescriptor::from_version(key, version.txn_idx, version.incarnation),
                );
                ProxyRead::Done(ReadResult::Value(v))
            },
            ReadOutcome::Resolved(n) => {
                self.captured_reads.push(ReadDescriptor::from_resolved(key, n));
                ProxyRead::Done(ReadResult::U128(n))
            },
            ReadOutcome::NotFound => {
                self.captured_reads.push(ReadDescriptor::from_storage(key));
                ProxyRead::Done(ReadResult::NotFound)
            },
            ReadOutcome::Unresolved(d) => {
                self.captured_reads.push(ReadDescriptor::from_unresolved(key, d));
                ProxyRead::Done(ReadResult::Unresolved(d))
            },
            ReadOutcome::Dependency(dep) => ProxyRead::Suspended(dep),
            ReadOutcome::DeltaApplicationFailure => {
                self.captured_reads.push(ReadDescriptor::from_delta_application_failure(key));
                ProxyRead::Done(ReadResult::U128(0))
            },
        };
        proof {
            assert(final(self).captured_reads@ =~= old(self).captured_reads@ + capture_of(
                key,
                scan(versioned_map.cells_of(key), old(self).txn_idx as int - 1, Option::None),
            ));
        }
        r
    }
}

/// A keyed map of byte values: the pre-batch base view, and the
/// latest-value map of a sequential fallback execution.  Keys listed under
/// `faults` stand for cells whose storage read fails: the backing store is
/// outside this crate, and a fault here models its read error, which is
/// non-speculative and fatal for the reading transaction.
pub struct StateMap {
    pub entries: Vec<(u64, Vec<u8>)>,
    pub faults: Vec<u64>,
}

impl StateMap {
    /// Every key occurs at most once.
    pub open spec fn wf(self) -> bool {
        forall|i: int, j: int|
            0 <= i < j < self.entries@.len() ==> (#[trigger] self.entries@[i]).0 != (
            #[trigger] self.entries@[j]).0
    }

    /// Whether `key` is present.
    pub open spec fn has_key(self, key: u64) -> bool {
        exists|i: int| 0 <= i < self.entries@.len() && (#[trigger] self.entries@[i]).0 == key
    }

    /// The position of `key` among the entries.
    pub open spec fn key_slot(self, key: u64) -> int {
        choose|i: int| 0 <= i < self.entries@.len() && (#[trigger] self.entries@[i]).0 == key
    }

    /// The bytes stored under `key`, if any.
    pub open spec fn value_of(self, key: u64) -> Option<Seq<u8>> {
        if self.has_key(key) {
            Some(self.entries@[self.key_slot(key)].1@)
        } else {
            None
        }
    }

    /// Whether the storage read of `key` fails.
    pub open spec fn faulty(self, key: u64) -> bool {
        key_in(self.faults@, key)
    }

    /// An empty map whose every read succeeds.
    pub fn new() -> (r: StateMap)
        ensures
            r.wf(),
            forall|key: u64| r.value_of(key) is None,
            forall|key: u64| !r.faulty(key),
    {
        StateMap { entries: Vec::new(), faults: Vec::new() }
    }

    /// Marks the storage read of `key` as failing; values and other keys'
    /// reads are untouched.
    pub fn mark_fault(&mut self, key: u64)
        requires
            old(self).wf(),
        ensures
            final(self).wf(),
            final(self).faulty(key),
            forall|k2: u64| k2 != key ==> final(self).faulty(k2) == old(self).faulty(k2),
            forall|k2: u64| final(self).value_of(k2) == old(self).value_of(k2),
    {
        let ghost pre = *self;
        self.faults.push(key);
        proof {
            assert(self.faults@[self.faults@.len() - 1] == key);
            assert(self.faulty(key));
            assert forall|k2: u64| k2 != key implies #[trigger] self.faulty(k2) == pre.faulty(
                k2,
            ) by {
                if pre.faulty(k2) {
                    let c = choose|i: int| 0 <= i < pre.faults@.len() && pre.faults@[i] == k2;
                    assert(self.faults@[c] == k2);
                }
                if self.faulty(k2) {
                    let c = choose|i: int| 0 <= i < self.faults@.len() && self.faults@[i] == k2;
                    assert(c < pre.faults@.len());
                    assert(pre.faults@[c] == k2);
                }
            }
            assert forall|k2: u64| #[trigger] self.value_of(k2) == pre.value_of(k2) by {
                if pre.has_key(k2) {
                    let c = pre.key_slot(k2);
                    assert(0 <= c < self.entries@.len() && self.entries@[c].0 == k2);
                }
                if self.has_key(k2) {
                    let c = self.key_slot(k2);
                    assert(0 <= c < pre.entries@.len() && pre.entries@[c].0 == k2);
                }
            }
        }
    }

    /// Finds the slot holding `key`, if any.
    fn find_slot(&self, key: u64) -> (r: Option<usize>)
        requires
            self.wf(),
        ensures
            match r {
                Some(i) => i < self.entries@.len() && self.entries@[i as int].0 == key
                    && self.has_key(key) && self.key_slot(key) == i,
                None => !self.has_key(key),
            },
    {
        let n = self.entries.len();
        let mut i: usize = 0;
        while i < n
            invariant
                n == self.entries@.len(),
                i <= n,
                self.wf(),
                forall|j: int| 0 <= j < i ==> (#[trigger] self.entries@[j]).0 != key,
            decreases n - i,
        {
            if self.entries[i].0 == key {
                proof {
                    let c = self.key_slot(key);
                    assert(0 <= c < self.entries@.len() && self.entries@[c].0 == key);
                    if c != i {
                        assert(self.entries@[c].0 != self.entries@[i as int].0);
                    }
                }
                return Some(i);
            }
            i = i + 1;
        }
        None
    }

    /// Binds `key` to `value`, replacing any prior binding.
    pub fn put(&mut self, key: u64, value: Vec<u8>)
        requires
            old(self).wf(),
        ensures
            final(self).wf(),
            final(self).value_of(key) == Some(value@),
            forall|k2: u64| k2 != key ==> final(self).value_of(k2) == old(self).value_of(k2),
            forall|k2: u64| final(self).faulty(k2) == old(self).faulty(k2),
    {
        let ghost pre = *self;
        match self.find_slot(key) {
            Some(i) => {
                self.entries[i] = (key, value);
                proof {
                    assert(self.entries@ =~= pre.entries@.update(
                        i as int,
                        self.entries@[i as int],
                    ));
                    assert forall|k2: u64| #[trigger] self.has_key(k2) == pre.has_key(k2) by {
                        if pre.has_key(k2) {
                            let w = pre.key_slot(k2);
                            assert(self.entries@[w].0 == k2);
                        }
                        if self.has_key(k2) {
                            let w = self.key_slot(k2);
                            assert(pre.entries@[w].0 == k2);
                        }
                    }
                    assert(self.wf());
                    let c = self.key_slot(key);
                    assert(0 <= c < self.entries@.len() && self.entries@[c].0 == key);
                    if c != i {
                        assert(self.entries@[c].0 != self.entries@[i as int].0);
                    }
                    assert forall|k2: u64| k2 != key implies self.value_of(k2) == pre.value_of(
                        k2,
                    ) by {
                        if self.has_key(k2) {
                            let w = self.key_slot(k2);
                            assert(0 <= w < self.entries@.len() && self.entries@[w].0 == k2);
                            assert(w != i);
                            assert(pre.entries@[w].0 == k2);
                            assert(pre.has_key(k2));
                            let pw = pre.key_slot(k2);
                            assert(0 <= pw < pre.entries@.len() && pre.entries@[pw].0 == k2);
                            if pw != w {
                                assert(pre.entries@[pw].0 != pre.entries@[w].0);
                            }
                            assert(self.entries@[w] == pre.entries@[w]);
                        }
                    }
                }
            },
            None => {
                self.entries.push((key, value));
                proof {
                    let n2 = self.entries@.len() - 1;
                    assert(self.entries@[n2].0 == key);
                    assert forall|k2: u64| k2 != key implies self.value_of(k2) == pre.value_of(
                        k2,
                    ) by {
                        if self.has_key(k2) {
                            let c = self.key_slot(k2);
                            assert(0 <= c < self.entries@.len() && self.entries@[c].0 == k2);
                            assert(c < n2);
                            assert(pre.entries@[c].0 == k2);
                            assert(pre.has_key(k2));
                            let pc = pre.key_slot(k2);
                            assert(0 <= pc < pre.entries@.len() && pre.entries@[pc].0 == k2);
                            if pc != c {
                                assert(pre.entries@[pc].0 != pre.entries@[c].0);
                            }
                        } else {
                            if pre.has_key(k2) {
                                let c = pre.key_slot(k2);
                                assert(self.entries@[c].0 == k2);
                            }
                        }
                    }
                    let c = self.key_slot(key);
                    assert(0 <= c < self.entries@.len() && self.entries@[c].0 == key);
                    if c != n2 {
                        assert(self.entries@[c].0 != self.entries@[n2].0);
                    }
                }
            },
        }
    }

    /// A read-only lookup, as the pre-batch storage offers it: the bytes
    /// under the key, nothing for an absent key, and the storage's own
    /// error where its read fails.
    pub fn get_state_value(&self, key: u64) -> (r: Result<Option<Vec<u8>>, ()>)
        requires
            self.wf(),
        ensures
            r is Err <==> self.faulty(key),
            match r {
                Ok(Some(v)) => self.value_of(key) == Some(v@),
                Ok(None) => self.value_of(key) is None,
                Err(_) => true,
            },
    {
        if crate::mvs::contains_key(&self.faults, key) {
            return Err(());
        }
        match self.lookup(key) {
            Some(v) => Ok(Some(v)),
            None => Ok(None),
        }
    }

    /// A plain in-memory lookup, for the sequential latest-value map,
    /// which cannot fail.
    pub fn lookup(&self, key: u64) -> (r: Option<Vec<u8>>)
        requires
            self.wf(),
        ensures
            match r {
                Some(v) => self.value_of(key) == Some(v@),
                None => self.value_of(key) is None,
            },
    {
        let n = self.entries.len();
        let mut i: usize = 0;
        while i < n
            invariant
                n == self.entries@.len(),
                i <= n,
                self.wf(),
                forall|j: int| 0 <= j < i ==> (#[trigger] self.entries@[j]).0 != key,
            decreases n - i,
        {
            if self.entries[i].0 == key {
                proof {
                    let c = self.key_slot(key);
                    assert(0 <= c < self.entries@.len() && self.entries@[c].0 == key);
                    if c != i {
                        assert(self.entries@[c].0 != self.entries@[i as int].0);
                    }
                }
                return Some(clone_bytes(&self.entries[i].1));
            }
            i = i + 1;
        }
        None
    }
}

/// A value handed to the virtual machine: raw bytes, bytes eagerly decoded
/// under a layout hint (the decoding itself belongs to the machine), or a
/// synthesized aggregated integer.
pub enum CachedData {
    Serialized(Vec<u8>),
    Structured(Vec<u8>),
    U128(u128),
}

/// Mathematical view of a [`CachedData`].
pub enum CachedDataV {
    Serialized(Seq<u8>),
    Structured(Seq<u8>),
    U128(u128),
}

impl View for CachedData {
    type V = CachedDataV;

    open spec fn view(&self) -> CachedDataV {
        match self {
            CachedData::Serialized(v) => CachedDataV::Serialized(v@),
            CachedData::Structured(v) => CachedDataV::Structured(v@),
            CachedData::U128(n) => CachedDataV::U128(*n),
        }
    }
}

/// A non-speculative execution error: a missing or undecodable base value
/// under a delta, or a delta that fails against its base.
#[derive(Clone, Copy, PartialEq, Eq, Structural, Debug)]
pub enum VmError {
    StorageError,
    DeltaApplicationError,
}

/// What a latest-view lookup comes back with.
pub enum ViewRead {
    Data(Option<CachedData>),
    Suspended(usize),
    Failure(VmError),
}

/// Mathematical view of a [`ViewRead`].
pub enum ViewReadV {
    Data(Option<CachedDataV>),
    Suspended(int),
    Failure(VmError),
}

impl View for ViewRead {
    type V = ViewReadV;

    open spec fn view(&self) -> ViewReadV {
        match self {
            ViewRead::Data(o) => ViewReadV::Data(
                match o {
                    Some(c) => Some(c@),
                    None => None,
                },
            ),
            ViewRead::Suspended(d) => ViewReadV::Suspended(*d as int),
            ViewRead::Failure(e) => ViewReadV::Failure(*e),
        }
    }
}

/// What a multi-version lookup yields once the base view is consulted: a
/// versioned value or a resolved integer as such; a failing storage read
/// of a consulted base is a fatal storage error; under an unresolved delta
/// the base bytes are decoded and the delta applied, a missing or
/// undecodable base being a storage error and a failing application an
/// execution error; a plain miss falls back to the base bytes, decoded
/// eagerly when a layout hint is present.
pub open spec fn get_value_spec(
    out: OutcomeV,
    base: Option<Seq<u8>>,
    faulty: bool,
    hint: bool,
) -> ViewReadV {
    match out {
        OutcomeV::Version { value, .. } => ViewReadV::Data(Some(CachedDataV::Serialized(value))),
        OutcomeV::Resolved(n) => ViewReadV::Data(Some(CachedDataV::U128(n))),
        OutcomeV::DeltaApplicationFailure => ViewReadV::Data(Some(CachedDataV::U128(0))),
        OutcomeV::Dependency(dep) => ViewReadV::Suspended(dep),
        OutcomeV::NotFound => if faulty {
            ViewReadV::Failure(VmError::StorageError)
        } else {
            match base {
                None => ViewReadV::Data(None),
                Some(b) => ViewReadV::Data(
                    Some(
                        if hint {
                            CachedDataV::Structured(b)
                        } else {
                            CachedDataV::Serialized(b)
                        },
                    ),
                ),
            }
        },
        OutcomeV::Unresolved(d) => if faulty {
            ViewReadV::Failure(VmError::StorageError)
        } else {
            match base {
                None => ViewReadV::Failure(VmError::StorageError),
                Some(b) => match decode_u128_spec(b) {
                    None => ViewReadV::Failure(VmError::StorageError),
                    Some(x) => match d.apply_spec(x) {
                        None => ViewReadV::Failure(VmError::DeltaApplicationError),
                        Some(y) => ViewReadV::Data(Some(CachedDataV::U128(y))),
                    },
                },
            }
        },
    }
}

/// Which map a [`LatestView`] resolves against first.
pub enum ViewMapKind {
    /// The speculative multi-version store, through a capturing proxy.
    MultiVersion(MVHashMapView),
    /// The latest-value map of a sequential fallback execution.
    BTree(StateMap),
}

/// The view the virtual machine reads through: a multi-version proxy or a
/// sequential latest-value map, backed by the pre-batch base view.
pub struct LatestView {
    pub txn_idx: usize,
    pub latest_view: ViewMapKind,
}

impl LatestView {
    /// The reads captured so far, when resolving multi-version.
    pub open spec fn captured(self) -> Seq<ReadDescriptor> {
        match self.latest_view {
            ViewMapKind::MultiVersion(p) => p.captured_reads@,
            ViewMapKind::BTree(_) => Seq::empty(),
        }
    }

    /// A view over the multi-version store for one execution attempt.
    pub fn new_mv_view(txn_idx: usize) -> (r: LatestView)
        ensures
            r.txn_idx == txn_idx,
            r.latest_view matches ViewMapKind::MultiVersion(p) && p.txn_idx == txn_idx
                && p.captured_reads@ == Seq::<ReadDescriptor>::empty(),
    {
        LatestView { txn_idx, latest_view: ViewMapKind::MultiVersion(MVHashMapView::new(txn_idx)) }
    }

    /// A view over a sequential latest-value map.
    pub fn new_btree_view(map: StateMap, txn_idx: usize) -> (r: LatestView)
        ensures
            r.txn_idx == txn_idx,
            r.latest_view == ViewMapKind::BTree(map),
    {
        LatestView { txn_idx, latest_view: ViewMapKind::BTree(map) }
    }

    /// Resolves one read for the virtual machine, consulting the speculative
    /// or sequential map first and the base view when needed.
    pub fn get_value(
        &mut self,
        versioned_map: &MVHashMap,
        base_view: &StateMap,
        key: u64,
        hint: bool,
    ) -> (r: ViewRead)
        requires
            versioned_map.wf(),
            base_view.wf(),
            old(self).txn_idx <= versioned_map.num_txns,
            old(self).latest_view matches ViewMapKind::BTree(m) ==> m.wf(),
            old(self).latest_view matches ViewMapKind::MultiVersion(p) ==> p.txn_idx == old(
                self,
            ).txn_idx,
        ensures
            final(self).txn_idx == old(self).txn_idx,
            match old(self).latest_view {
                ViewMapKind::MultiVersion(_) => {
                    let out = scan(
                        versioned_map.cells_of(key),
                        old(self).txn_idx as int - 1,
                        Option::None,
                    );
                    &&& r@ == get_value_spec(
                        out,
                        base_view.value_of(key),
                        base_view.faulty(key),
                        hint,
                    )
                    &&& final(self).captured() == old(self).captured() + capture_of(key, out)
                    &&& final(self).latest_view is MultiVersion
                },
                ViewMapKind::BTree(m) => {
                    &&& *final(self) == *old(self)
                    &&& r@ == (match m.value_of(key) {
                        Some(v) => ViewReadV::Data(Some(CachedDataV::Serialized(v))),
                        None => get_value_spec(
                            OutcomeV::NotFound,
                            base_view.value_of(key),
                            base_view.faulty(key),
                            hint,
                        ),
                    })
                },
            },
    {
        match &mut self.latest_view {
            ViewMapKind::MultiVersion(proxy) => {
                match proxy.read(versioned_map, key) {
                    ProxyRead::Suspended(dep) => ViewRead::Suspended(dep),
                    ProxyRead::Done(ReadResult::Value(v)) => ViewRead::Data(
                        Some(CachedData::Serialized(v)),
                    ),
                    ProxyRead::Done(ReadResult::U128(n)) => ViewRead::Data(
                        Some(CachedData::U128(n)),
                    ),
                    ProxyRead::Done(ReadResult::NotFound) => match base_view.get_state_value(key) {
                        Err(_) => ViewRead::Failure(VmError::StorageError),
                        Ok(None) => ViewRead::Data(None),
                        Ok(Some(b)) => {
                            if hint {
                                ViewRead::Data(Some(CachedData::Structured(b)))
                            } else {
                                ViewRead::Data(Some(CachedData::Serialized(b)))
                            }
                        },
                    },
                    ProxyRead::Done(ReadResult::Unresolved(d)) => {
                        match base_view.get_state_value(key) {
                            Err(_) => ViewRead::Failure(VmError::StorageError),
                            Ok(None) => ViewRead::Failure(VmError::StorageError),
                            Ok(Some(b)) => match decode_u128(&b) {
                                None => ViewRead::Failure(VmError::StorageError),
                                Some(x) => match d.apply_to(x) {
                                    None => ViewRead::Failure(VmError::DeltaApplicationError),
                                    Some(y) => ViewRead::Data(Some(CachedData::U128(y))),
                                },
                            },
                        }
                    },
                }
            },
            ViewMapKind::BTree(m) => {
                match m.lookup(key) {
                    Some(v) => ViewRead::Data(Some(CachedData::Serialized(v))),
                    None => match base_view.get_state_value(key) {
                        Err(_) => ViewRead::Failure(VmError::StorageError),
                        Ok(None) => ViewRead::Data(None),
                        Ok(Some(b)) => {
                            if hint {
                                ViewRead::Data(Some(CachedData::Structured(b)))
                            } else {
                                ViewRead::Data(Some(CachedData::Serialized(b)))
                            }
                        },
                    },
                }
            },
        }
    }
}

/// Whether a captured descriptor still matches a fresh read outcome.  A
/// versioned read is compared by its version tag: a re-executed writer has
/// a new incarnation, so the tag alone reveals a stale read.
pub open spec fn descriptor_matches(d: ReadDescriptor, out: OutcomeV) -> bool {
    match d.kind {
        ReadKind::Version(v) => out matches OutcomeV::Version { txn_idx, incarnation, .. }
            && txn_idx == v.txn_idx as int && incarnation == v.incarnation as int,
        ReadKind::Resolved(n) => out == OutcomeV::Resolved(n),
        ReadKind::Storage => out == OutcomeV::NotFound,
        ReadKind::Unresolved(delta) => out == OutcomeV::Unresolved(delta),
        ReadKind::DeltaFailure => out == OutcomeV::DeltaApplicationFailure,
    }
}

/// Whether every captured descriptor still matches what the store answers
/// now for its key below transaction `t`.
pub open spec fn reads_valid(m: MVHashMap, reads: Seq<ReadDescriptor>, t: int) -> bool {
    forall|i: int|
        0 <= i < reads.len() ==> descriptor_matches(
            #[trigger] reads[i],
            scan(m.cells_of(reads[i].key), t - 1, Option::None),
        )
}

/// What a proxy read captures matches, at capture time, the very outcome
/// it was captured from: each descriptor carries the read's key and passes
/// revalidation against an unchanged store.
pub proof fn lemma_capture_matches(m: MVHashMap, key: u64, t: int)
    requires
        m.wf(),
        0 <= t <= m.num_txns,
    ensures
        forall|i: int|
            0 <= i < capture_of(key, scan(m.cells_of(key), t - 1, Option::None)).len() ==> (
            #[trigger] capture_of(key, scan(m.cells_of(key), t - 1, Option::None))[i]).key == key
                && descriptor_matches(
                capture_of(key, scan(m.cells_of(key), t - 1, Option::None))[i],
                scan(m.cells_of(key), t - 1, Option::None),
            ),
{
    let cells = m.cells_of(key);
    let out = scan(cells, t - 1, Option::None);
    crate::mvs::lemma_scan_version(cells, t - 1, Option::None);
    match out {
        OutcomeV::Version { txn_idx, incarnation, value } => {
            assert(cells[txn_idx] == (CellV::Written {
                incarnation,
                payload: PayloadV::Value(value),
            }));
            assert(m.has_key(key)) by {
                if !m.has_key(key) {
                    assert(cells[txn_idx] == CellV::Empty);
                }
            }
            let stored = m.entries@[m.key_slot(key)].cells@[txn_idx];
            assert(cells[txn_idx] == cell_view(stored));
            match stored {
                Option::Some(EntryCell::Written { incarnation: si, .. }) => {
                    assert(incarnation == si as int);
                },
                _ => {
                    assert(false);
                },
            }
        },
        _ => {
        },
    }
}

/// Revalidates a captured read set: every descriptor must match what the
/// store answers now for the same key below the same transaction.
pub fn validate_read_set(
    versioned_map: &MVHashMap,
    reads: &Vec<ReadDescriptor>,
    txn_idx: usize,
) -> (r: bool)
    requires
        versioned_map.wf(),
        txn_idx <= versioned_map.num_txns,
    ensures
        r == reads_valid(*versioned_map, reads@, txn_idx as int),
{
    let n = reads.len();
    let mut i: usize = 0;
    while i < n
        invariant
            n == reads@.len(),
            i <= n,
            versioned_map.wf(),
            txn_idx <= versioned_map.num_txns,
            forall|j: int|
                0 <= j < i ==> descriptor_matches(
                    #[trigger] reads@[j],
                    scan(versioned_map.cells_of(reads@[j].key), txn_idx as int - 1, Option::None),
                ),
        decreases n - i,
    {
        let d = reads[i];
        let out = versioned_map.read(d.key, txn_idx);
        let ok = match (&d.kind, &out) {
            (ReadKind::Version(v), ReadOutcome::Version(v2, _)) => v.txn_idx == v2.txn_idx
                && v.incarnation == v2.incarnation,
            (ReadKind::Resolved(n1), ReadOutcome::Resolved(n2)) => n1 == n2,
            (ReadKind::Storage, ReadOutcome::NotFound) => true,
            (ReadKind::Unresolved(d1), ReadOutcome::Unresolved(d2)) => d1.plus == d2.plus
                && d1.amount == d2.amount && d1.limit == d2.limit,
            (ReadKind::DeltaFailure, ReadOutcome::DeltaApplicationFailure) => true,
            _ => false,
        };
        if !ok {
            return false;
        }
        i = i + 1;
    }
    true
}

} // verus!
