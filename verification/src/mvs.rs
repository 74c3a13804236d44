//! The multi-version shared store: for every key, the full history of
//! tentative writes of the current batch, indexed by transaction position.
//!
//! A key's history is a dense slot vector with one slot per transaction of
//! the batch, so the per-key cell map is ordered by transaction index by
//! construction.  A slot holds a written payload tagged with its incarnation,
//! an estimate marker left by an aborted writer, or nothing.

use vstd::prelude::*;
use crate::delta::DeltaOp;
use crate::types::{
    cell_view, cells_view, clone_bytes, decode_u128, decode_u128_spec, CellV, EntryCell,
    EntryPayload, OutcomeV, PayloadV, ReadOutcome,
};
use crate::Version;

verus! {

/// One key's version history: a slot per transaction of the batch.
pub struct KeyCells {
    pub key: u64,
    pub cells: Vec<Option<EntryCell>>,
}

/// The multi-version store.
pub struct MVHashMap {
    pub num_txns: usize,
    pub entries: Vec<KeyCells>,
}

impl MVHashMap {
    /// Every key occurs at most once and every history has one slot per
    /// transaction.
    pub open spec fn wf(self) -> bool {
        &&& forall|i: int|
            0 <= i < self.entries@.len() ==> (#[trigger] self.entries@[i]).cells@.len()
                == self.num_txns
        &&& forall|i: int, j: int|
            0 <= i < j < self.entries@.len() ==> (#[trigger] self.entries@[i]).key != (
            #[trigger] self.entries@[j]).key
    }

    /// Whether some history is stored under `key`.
    pub open spec fn has_key(self, key: u64) -> bool {
        exists|i: int| 0 <= i < self.entries@.len() && (#[trigger] self.entries@[i]).key == key
    }

    /// The position of `key`'s history among the stored entries.
    pub open spec fn key_slot(self, key: u64) -> int {
        choose|i: int| 0 <= i < self.entries@.len() && (#[trigger] self.entries@[i]).key == key
    }

    /// The history of a key nothing has written to.
    pub open spec fn empty_cells(self) -> Seq<CellV> {
        Seq::new(self.num_txns as nat, |i: int| CellV::Empty)
    }

    /// The cell map of `key`: one view cell per transaction index.
    pub open spec fn cells_of(self, key: u64) -> Seq<CellV> {
        if self.has_key(key) {
            cells_view(self.entries@[self.key_slot(key)].cells@)
        } else {
            self.empty_cells()
        }
    }

    /// A fresh store for a batch of `num_txns` transactions.
    pub fn new(num_txns: usize) -> (r: MVHashMap)
        ensures
            r.wf(),
            r.num_txns == num_txns,
            forall|key: u64| r.cells_of(key) == r.empty_cells(),
    {
        MVHashMap { num_txns, entries: Vec::new() }
    }

    /// Finds the slot holding `key`'s history, if any.
    fn find_slot(&self, key: u64) -> (r: Option<usize>)
        requires
            self.wf(),
        ensures
            match r {
                Some(i) => i < self.entries@.len() && self.entries@[i as int].key == key
                    && self.has_key(key) && self.key_slot(key) == i,
                None => !self.has_key(key),
            },
    {
        let n = self.entries.len();
        let mut i: usize = 0;
        while i < n
            invariant
                n == self.entries@.len(),
                i <= n,
                self.wf(),
                forall|j: int| 0 <= j < i ==> (#[trigger] self.entries@[j]).key != key,
            decreases n - i,
        {
            if self.entries[i].key == key {
                proof {
                    let c = self.key_slot(key);
                    assert(0 <= c < self.entries@.len() && self.entries@[c].key == key);
                    if c != i {
                        assert(self.entries@[c].key != self.entries@[i as int].key);
                    }
                }
                return Some(i);
            }
            i = i + 1;
        }
        None
    }

    /// A history of `len` empty slots.
    fn fresh_cells(len: usize) -> (r: Vec<Option<EntryCell>>)
        ensures
            r@.len() == len,
            forall|j: int| 0 <= j < len ==> cell_view(#[trigger] r@[j]) == CellV::Empty,
    {
        let mut cells: Vec<Option<EntryCell>> = Vec::new();
        let mut k: usize = 0;
        while k < len
            invariant
                k <= len,
                cells@.len() == k,
                forall|j: int| 0 <= j < k ==> cells@[j] is None,
            decreases len - k,
        {
            cells.push(None);
            k = k + 1;
        }
        cells
    }

    /// Replaces the cell at `txn_idx` of the key stored at `slot`; every
    /// other cell of every key is untouched.
    fn set_cell(&mut self, slot: usize, txn_idx: usize, c: Option<EntryCell>)
        requires
            old(self).wf(),
            slot < old(self).entries@.len(),
            txn_idx < old(self).num_txns,
        ensures
            final(self).wf(),
            final(self).num_txns == old(self).num_txns,
            final(self).cells_of(old(self).entries@[slot as int].key) == old(self).cells_of(
                old(self).entries@[slot as int].key,
            ).update(txn_idx as int, cell_view(c)),
            forall|k2: u64|
                k2 != old(self).entries@[slot as int].key ==> final(self).cells_of(k2) == old(
                    self,
                ).cells_of(k2),
    {
        let ghost pre = *self;
        let ghost key = self.entries@[slot as int].key;
        self.entries[slot].cells[txn_idx] = c;
        proof {
            assert(self.entries@ =~= pre.entries@.update(slot as int, self.entries@[slot as int]));
            assert forall|k2: u64| #[trigger] self.has_key(k2) == pre.has_key(k2) by {
                if pre.has_key(k2) {
                    let w = pre.key_slot(k2);
                    assert(self.entries@[w].key == k2);
                }
                if self.has_key(k2) {
                    let w = self.key_slot(k2);
                    assert(pre.entries@[w].key == k2);
                }
            }
            assert(self.wf());
            assert(self.has_key(key));
            let c2 = self.key_slot(key);
            if c2 != slot {
                assert(self.entries@[c2].key != self.entries@[slot as int].key);
            }
            assert(self.cells_of(key) =~= pre.cells_of(key).update(txn_idx as int, cell_view(c)));
            assert forall|k2: u64| k2 != key implies self.cells_of(k2) == pre.cells_of(k2) by {
                if self.has_key(k2) {
                    let w = self.key_slot(k2);
                    assert(w != slot);
                    assert(self.cells_of(k2) =~= pre.cells_of(k2));
                } else {
                    assert(self.empty_cells() =~= pre.empty_cells());
                }
            }
        }
    }

    /// Replaces the cell of `key` at `txn_idx`, if one is present, with an
    /// estimate marker, so that readers see a definite dependency instead of
    /// the stale prior value.  Without a present cell the store is unchanged.
    pub fn mark_estimate(&mut self, key: u64, txn_idx: usize)
        requires
            old(self).wf(),
            txn_idx < old(self).num_txns,
        ensures
            final(self).wf(),
            final(self).num_txns == old(self).num_txns,
            final(self).cells_of(key) == (if old(self).cells_of(key)[txn_idx as int]
                != CellV::Empty {
                old(self).cells_of(key).update(txn_idx as int, CellV::Estimate)
            } else {
                old(self).cells_of(key)
            }),
            forall|k2: u64| k2 != key ==> final(self).cells_of(k2) == old(self).cells_of(k2),
    {
        match self.find_slot(key) {
            Some(slot) => {
                if self.entries[slot].cells[txn_idx].is_some() {
                    self.set_cell(slot, txn_idx, Some(EntryCell::Estimate));
                }
            },
            None => {
            },
        }
    }

    /// Removes the cell of `key` at `txn_idx`, used when a re-execution no
    /// longer writes this key.
    pub fn delete(&mut self, key: u64, txn_idx: usize)
        requires
            old(self).wf(),
            txn_idx < old(self).num_txns,
        ensures
            final(self).wf(),
            final(self).num_txns == old(self).num_txns,
            final(self).cells_of(key) == old(self).cells_of(key).update(
                txn_idx as int,
                CellV::Empty,
            ),
            forall|k2: u64| k2 != key ==> final(self).cells_of(k2) == old(self).cells_of(k2),
    {
        match self.find_slot(key) {
            Some(slot) => {
                self.set_cell(slot, txn_idx, None);
            },
            None => {
                proof {
                    assert(self.cells_of(key).update(txn_idx as int, CellV::Empty)
                        =~= self.cells_of(key));
                }
            },
        }
    }

    /// Inserts or replaces the cell of `key` at the writer's transaction
    /// index with the written payload; every other cell of every key is
    /// untouched.  Replacing overrides any prior estimate.
    pub fn write(&mut self, key: u64, version: Version, payload: EntryPayload)
        requires
            old(self).wf(),
            version.txn_idx < old(self).num_txns,
        ensures
            final(self).wf(),
            final(self).num_txns == old(self).num_txns,
            final(self).cells_of(key) == old(self).cells_of(key).update(
                version.txn_idx as int,
                CellV::Written { incarnation: version.incarnation as int, payload: payload@ },
            ),
            forall|k2: u64| k2 != key ==> final(self).cells_of(k2) == old(self).cells_of(k2),
    {
        let ghost pre = *self;
        let slot: usize = match self.find_slot(key) {
            Some(i) => i,
            None => {
                let cells = Self::fresh_cells(self.num_txns);
                self.entries.push(KeyCells { key, cells });
                proof {
                    let n = self.entries@.len() - 1;
                    assert(self.entries@[n].key == key);
                    assert forall|k2: u64| self.has_key(k2) && k2 != key implies pre.has_key(k2)
                        && pre.key_slot(k2) == self.key_slot(k2) by {
                        let c = self.key_slot(k2);
                        assert(0 <= c < self.entries@.len() && self.entries@[c].key == k2);
                        assert(c < n);
                        assert(pre.entries@[c].key == k2);
                        let pc = pre.key_slot(k2);
                        if pc != c {
                            assert(pre.entries@[pc].key != pre.entries@[c].key);
                        }
                    }
                    assert(cells_view(self.entries@[n].cells@) =~= pre.empty_cells());
                    assert forall|k2: u64| !self.has_key(k2) implies !pre.has_key(k2) by {
                        if pre.has_key(k2) {
                            let c = pre.key_slot(k2);
                            assert(0 <= c < pre.entries@.len() && pre.entries@[c].key == k2);
                            assert(self.entries@[c] == pre.entries@[c]);
                            assert(self.has_key(k2));
                        }
                    }
                }
                self.entries.len() - 1
            },
        };
        proof {
            assert(self.entries@[slot as int].key == key);
            assert(self.has_key(key));
            let c = self.key_slot(key);
            if c != slot {
                assert(self.entries@[c].key != self.entries@[slot as int].key);
            }
            assert(self.cells_of(key) =~= pre.cells_of(key));
            assert forall|k2: u64| k2 != key implies self.cells_of(k2) == pre.cells_of(k2) by {
                if self.has_key(k2) {
                    assert(self.cells_of(k2) =~= pre.cells_of(k2));
                } else {
                    assert(!pre.has_key(k2));
                    assert(self.empty_cells() =~= pre.empty_cells());
                }
            }
        }
        let ghost mid = *self;
        self.entries[slot].cells[version.txn_idx] = Some(
            EntryCell::Written { incarnation: version.incarnation, payload },
        );
        proof {
            assert(self.entries@ =~= mid.entries@.update(
                slot as int,
                self.entries@[slot as int],
            ));
            assert forall|k2: u64| #[trigger] self.has_key(k2) == mid.has_key(k2) by {
                if mid.has_key(k2) {
                    let c = mid.key_slot(k2);
                    assert(self.entries@[c].key == k2);
                }
                if self.has_key(k2) {
                    let c = self.key_slot(k2);
                    assert(mid.entries@[c].key == k2);
                }
            }
            assert(self.wf());
            assert(self.has_key(key));
            let c = self.key_slot(key);
            if c != slot {
                assert(self.entries@[c].key != self.entries@[slot as int].key);
            }
            assert(self.cells_of(key) =~= mid.cells_of(key).update(
                version.txn_idx as int,
                CellV::Written { incarnation: version.incarnation as int, payload: payload@ },
            ));
            assert forall|k2: u64| k2 != key implies self.cells_of(k2) == mid.cells_of(k2) by {
                if self.has_key(k2) {
                    let c2 = self.key_slot(k2);
                    assert(c2 != slot);
                    assert(self.cells_of(k2) =~= mid.cells_of(k2));
                } else {
                    assert(self.empty_cells() =~= mid.empty_cells());
                }
            }
            assert(pre.cells_of(key).update(
                version.txn_idx as int,
                CellV::Written { incarnation: version.incarnation as int, payload: payload@ },
            ) =~= self.cells_of(key));
        }
    }
}

/// Whether `k` occurs in a key list.
pub open spec fn key_in(keys: Seq<u64>, k: u64) -> bool {
    exists|i: int| 0 <= i < keys.len() && keys[i] == k
}

/// Whether a key list holds `k`, decided by a scan.
pub fn contains_key(keys: &Vec<u64>, k: u64) -> (r: bool)
    ensures
        r == key_in(keys@, k),
{
    let n = keys.len();
    let mut i: usize = 0;
    while i < n
        invariant
            n == keys@.len(),
            i <= n,
            forall|j: int| 0 <= j < i ==> keys@[j] != k,
        decreases n - i,
    {
        if keys[i] == k {
            return true;
        }
        i = i + 1;
    }
    false
}

impl MVHashMap {
    /// The store side of finishing an execution whose write set shrank:
    /// every key the prior incarnation wrote that the new write set no
    /// longer covers loses its cell in this transaction's row; every other
    /// cell of every key is untouched.  With equal key lists nothing
    /// changes.
    pub fn remove_vanished(&mut self, txn_idx: usize, prior_keys: &Vec<u64>, new_keys: &Vec<u64>)
        requires
            old(self).wf(),
            txn_idx < old(self).num_txns,
        ensures
            final(self).wf(),
            final(self).num_txns == old(self).num_txns,
            forall|k: u64|
                key_in(prior_keys@, k) && !key_in(new_keys@, k)
                    ==> #[trigger] final(self).cells_of(k) == old(self).cells_of(k).update(
                    txn_idx as int,
                    CellV::Empty,
                ),
            forall|k: u64|
                !(key_in(prior_keys@, k) && !key_in(new_keys@, k))
                    ==> #[trigger] final(self).cells_of(k) == old(self).cells_of(k),
    {
        let ghost pre = *self;
        let np = prior_keys.len();
        let mut i: usize = 0;
        while i < np
            invariant
                np == prior_keys@.len(),
                i <= np,
                self.wf(),
                self.num_txns == pre.num_txns,
                pre.wf(),
                txn_idx < self.num_txns,
                forall|k: u64|
                    (exists|j: int| 0 <= j < i && prior_keys@[j] == k) && !key_in(new_keys@, k)
                        ==> #[trigger] self.cells_of(k) == pre.cells_of(k).update(
                        txn_idx as int,
                        CellV::Empty,
                    ),
                forall|k: u64|
                    !((exists|j: int| 0 <= j < i && prior_keys@[j] == k) && !key_in(new_keys@, k))
                        ==> #[trigger] self.cells_of(k) == pre.cells_of(k),
            decreases np - i,
        {
            let k0 = prior_keys[i];
            if !contains_key(new_keys, k0) {
                let ghost mid = *self;
                self.delete(k0, txn_idx);
                proof {
                    assert(self.cells_of(k0) =~= pre.cells_of(k0).update(
                        txn_idx as int,
                        CellV::Empty,
                    ));
                    assert forall|k: u64|
                        (exists|j: int| 0 <= j < i + 1 && prior_keys@[j] == k) && !key_in(
                            new_keys@,
                            k,
                        ) implies #[trigger] self.cells_of(k) == pre.cells_of(k).update(
                        txn_idx as int,
                        CellV::Empty,
                    ) by {
                        if k != k0 {
                            let j = choose|j: int| 0 <= j < i + 1 && prior_keys@[j] == k;
                            assert(j < i);
                            assert(mid.cells_of(k) == pre.cells_of(k).update(
                                txn_idx as int,
                                CellV::Empty,
                            ));
                        }
                    }
                    assert forall|k: u64|
                        !((exists|j: int| 0 <= j < i + 1 && prior_keys@[j] == k) && !key_in(
                            new_keys@,
                            k,
                        )) implies #[trigger] self.cells_of(k) == pre.cells_of(k) by {
                        assert(k != k0);
                        assert(mid.cells_of(k) == pre.cells_of(k));
                    }
                }
            } else {
                proof {
                    assert forall|k: u64|
                        (exists|j: int| 0 <= j < i + 1 && prior_keys@[j] == k) && !key_in(
                            new_keys@,
                            k,
                        ) implies #[trigger] self.cells_of(k) == pre.cells_of(k).update(
                        txn_idx as int,
                        CellV::Empty,
                    ) by {
                        if k == k0 {
                            assert(key_in(new_keys@, k));
                        } else {
                            let j = choose|j: int| 0 <= j < i + 1 && prior_keys@[j] == k;
                            assert(j < i);
                        }
                    }
                }
            }
            i = i + 1;
        }
    }
}

/// What scanning a key's cell map downward from slot `j` yields, with `acc`
/// the composition of the deltas already passed on the way down: the nearest
/// value cell with no deltas above it is returned with its version; a delta
/// chain collapses onto the first value cell beneath it or is handed back
/// composed when none exists; an estimate stops the scan with a dependency.
pub open spec fn scan(cells: Seq<CellV>, j: int, acc: Option<DeltaOp>) -> OutcomeV
    decreases j + 1,
{
    if j < 0 {
        match acc {
            Option::None => OutcomeV::NotFound,
            Option::Some(d) => OutcomeV::Unresolved(d),
        }
    } else {
        match cells[j] {
            CellV::Empty => scan(cells, j - 1, acc),
            CellV::Estimate => OutcomeV::Dependency(j),
            CellV::Written { incarnation, payload } => match payload {
                PayloadV::Value(v) => match acc {
                    Option::None => OutcomeV::Version { txn_idx: j, incarnation, value: v },
                    Option::Some(d) => match decode_u128_spec(v) {
                        Option::None => OutcomeV::DeltaApplicationFailure,
                        Option::Some(base) => match d.apply_spec(base) {
                            Option::None => OutcomeV::DeltaApplicationFailure,
                            Option::Some(n) => OutcomeV::Resolved(n),
                        },
                    },
                },
                PayloadV::Delta(d2) => match acc {
                    Option::None => scan(cells, j - 1, Some(d2)),
                    Option::Some(d) => match DeltaOp::merge_spec(d, d2) {
                        Option::None => OutcomeV::DeltaApplicationFailure,
                        Option::Some(m) => scan(cells, j - 1, Some(m)),
                    },
                },
            },
        }
    }
}

/// A scan that yields a versioned value read it off a written value cell
/// at that index, below the reader, with exactly that incarnation tag.
pub proof fn lemma_scan_version(cells: Seq<CellV>, j: int, acc: Option<DeltaOp>)
    requires
        -1 <= j < cells.len(),
    ensures
        scan(cells, j, acc) matches OutcomeV::Version { txn_idx, incarnation, value } ==> 0
            <= txn_idx <= j && cells[txn_idx] == (CellV::Written {
            incarnation,
            payload: PayloadV::Value(value),
        }),
    decreases j + 1,
{
    if j >= 0 {
        match cells[j] {
            CellV::Empty => {
                lemma_scan_version(cells, j - 1, acc);
            },
            CellV::Estimate => {
            },
            CellV::Written { payload, .. } => {
                match payload {
                    PayloadV::Value(_) => {
                    },
                    PayloadV::Delta(d2) => {
                        match acc {
                            Option::None => {
                                lemma_scan_version(cells, j - 1, Some(d2));
                            },
                            Option::Some(d) => {
                                match DeltaOp::merge_spec(d, d2) {
                                    Option::Some(mg) => {
                                        lemma_scan_version(cells, j - 1, Some(mg));
                                    },
                                    Option::None => {
                                    },
                                }
                            },
                        }
                    },
                }
            },
        }
    }
}

/// Scanning cells that are all empty below `j` finds nothing.
pub proof fn lemma_scan_no_cells(cells: Seq<CellV>, j: int)
    requires
        -1 <= j < cells.len(),
        forall|i: int| 0 <= i <= j ==> cells[i] == CellV::Empty,
    ensures
        scan(cells, j, Option::None) == OutcomeV::NotFound,
    decreases j + 1,
{
    if j >= 0 {
        lemma_scan_no_cells(cells, j - 1);
    }
}


/// The scan below `j` reads only the cells up to `j`: two maps that agree
/// there are scanned alike.
pub proof fn lemma_scan_frame(c1: Seq<CellV>, c2: Seq<CellV>, j: int, acc: Option<DeltaOp>)
    requires
        -1 <= j < c1.len(),
        j < c2.len(),
        forall|i: int| 0 <= i <= j ==> c1[i] == c2[i],
    ensures
        scan(c1, j, acc) == scan(c2, j, acc),
    decreases j + 1,
{
    if j >= 0 {
        match c1[j] {
            CellV::Empty => {
                lemma_scan_frame(c1, c2, j - 1, acc);
            },
            CellV::Estimate => {
            },
            CellV::Written { payload, .. } => {
                match payload {
                    PayloadV::Value(_) => {
                    },
                    PayloadV::Delta(d2) => {
                        match acc {
                            Option::None => {
                                lemma_scan_frame(c1, c2, j - 1, Some(d2));
                            },
                            Option::Some(d) => {
                                match DeltaOp::merge_spec(d, d2) {
                                    Option::Some(mg) => {
                                        lemma_scan_frame(c1, c2, j - 1, Some(mg));
                                    },
                                    Option::None => {
                                    },
                                }
                            },
                        }
                    },
                }
            },
        }
    }
}

/// Whether a cell slot holds a written delta.
pub open spec fn is_delta_cell(c: CellV) -> bool {
    match c {
        CellV::Written { payload: PayloadV::Delta(_), .. } => true,
        _ => false,
    }
}

/// A key's cell map as an ordered association list: the slots up to `j` that
/// hold a cell, in increasing order of transaction index.
pub open spec fn entry_list(cells: Seq<CellV>, j: int) -> Seq<(int, CellV)>
    decreases j + 1,
{
    if j < 0 {
        Seq::empty()
    } else if cells[j] == CellV::Empty {
        entry_list(cells, j - 1)
    } else {
        entry_list(cells, j - 1).push((j, cells[j]))
    }
}

/// The association list of a cell map is strictly monotone in transaction
/// index, and lists only slots up to `j`.
pub proof fn lemma_entry_list_monotone(cells: Seq<CellV>, j: int)
    ensures
        forall|a: int, b: int|
            0 <= a < b < entry_list(cells, j).len() ==> (#[trigger] entry_list(cells, j)[a]).0 < (
            #[trigger] entry_list(cells, j)[b]).0,
        forall|a: int|
            0 <= a < entry_list(cells, j).len() ==> (#[trigger] entry_list(cells, j)[a]).0 <= j,
    decreases j + 1,
{
    if j >= 0 {
        lemma_entry_list_monotone(cells, j - 1);
        let prev = entry_list(cells, j - 1);
        let cur = entry_list(cells, j);
        if cells[j] == CellV::Empty {
            assert(cur == prev);
        } else {
            assert(cur == prev.push((j, cells[j])));
            assert forall|a: int| 0 <= a < cur.len() implies (cur[a]).0 <= j by {
                if a < prev.len() {
                    assert(cur[a] == prev[a]);
                } else {
                    assert(cur[a] == (j, cells[j]));
                }
            }
            assert forall|a: int, b: int| 0 <= a < b < cur.len() implies (cur[a]).0 < (cur[b]).0 by {
                assert(cur[a] == prev[a]);
                if b < prev.len() {
                    assert(cur[b] == prev[b]);
                } else {
                    assert(cur[b] == (j, cells[j]));
                    assert((prev[a]).0 <= j - 1);
                }
            }
        }
    }
}

impl MVHashMap {
    /// For every key, the cell map — enumerated as an association list —
    /// is strictly monotone in transaction index, in any well-formed store.
    pub proof fn lemma_cell_map_monotone(self, key: u64)
        requires
            self.wf(),
        ensures
            forall|a: int, b: int|
                0 <= a < b < entry_list(self.cells_of(key), self.num_txns - 1).len() ==> (
                #[trigger] entry_list(self.cells_of(key), self.num_txns - 1)[a]).0 < (
                #[trigger] entry_list(self.cells_of(key), self.num_txns - 1)[b]).0,
    {
        lemma_entry_list_monotone(self.cells_of(key), self.num_txns - 1);
    }
}

/// A value written at `vt` with no cells above it up to the reader is what a
/// read below `t` observes, with its full version tag.
pub proof fn lemma_read_latest_value(cells: Seq<CellV>, vt: int, inc: int, b: Seq<u8>, t: int)
    requires
        0 <= vt < t <= cells.len(),
        cells[vt] == (CellV::Written { incarnation: inc, payload: PayloadV::Value(b) }),
        forall|i: int| vt < i < t ==> cells[i] == CellV::Empty,
    ensures
        scan(cells, t - 1, Option::None) == (OutcomeV::Version {
            txn_idx: vt,
            incarnation: inc,
            value: b,
        }),
    decreases t,
{
    if t - 1 > vt {
        lemma_read_latest_value(cells, vt, inc, b, t - 1);
    }
}

/// Writing a value, marking it as an estimate while its writer aborts, and
/// writing the replacement leaves exactly the replacement visible: a read
/// from above observes the new value with the new incarnation, with no
/// estimate left behind.
pub proof fn lemma_rewrite_over_estimate(
    cells: Seq<CellV>,
    vt: int,
    inc1: int,
    b1: Seq<u8>,
    inc2: int,
    b2: Seq<u8>,
    t: int,
)
    requires
        0 <= vt < t <= cells.len(),
        forall|i: int| vt < i < t ==> cells[i] == CellV::Empty,
    ensures
        scan(
            cells.update(vt, CellV::Written { incarnation: inc1, payload: PayloadV::Value(b1) })
                .update(vt, CellV::Estimate)
                .update(vt, CellV::Written { incarnation: inc2, payload: PayloadV::Value(b2) }),
            t - 1,
            Option::None,
        ) == (OutcomeV::Version { txn_idx: vt, incarnation: inc2, value: b2 }),
{
    let done = cells.update(
        vt,
        CellV::Written { incarnation: inc1, payload: PayloadV::Value(b1) },
    ).update(vt, CellV::Estimate).update(
        vt,
        CellV::Written { incarnation: inc2, payload: PayloadV::Value(b2) },
    );
    assert(done =~= cells.update(
        vt,
        CellV::Written { incarnation: inc2, payload: PayloadV::Value(b2) },
    ));
    lemma_read_latest_value(done, vt, inc2, b2, t);
}

/// A chain of deltas with no value cell beneath it never resolves to a
/// value: the scan hands back the composed delta, or reports a composition
/// failure; it reports nothing found only when there is no delta at all.
pub proof fn lemma_delta_chain_unresolved(cells: Seq<CellV>, j: int, acc: Option<DeltaOp>)
    requires
        -1 <= j < cells.len(),
        forall|i: int|
            0 <= i <= j ==> (cells[i] == CellV::Empty || is_delta_cell(#[trigger] cells[i])),
    ensures
        scan(cells, j, acc) matches OutcomeV::Unresolved(_) || scan(cells, j, acc)
            == OutcomeV::DeltaApplicationFailure || (scan(cells, j, acc) == OutcomeV::NotFound
            && acc is None && forall|i: int| 0 <= i <= j ==> cells[i] == CellV::Empty),
    decreases j + 1,
{
    if j >= 0 {
        match cells[j] {
            CellV::Empty => {
                lemma_delta_chain_unresolved(cells, j - 1, acc);
            },
            CellV::Written { payload, .. } => {
                match payload {
                    PayloadV::Delta(d2) => {
                        match acc {
                            Option::None => {
                                lemma_delta_chain_unresolved(cells, j - 1, Some(d2));
                            },
                            Option::Some(d) => {
                                match DeltaOp::merge_spec(d, d2) {
                                    Option::None => {
                                    },
                                    Option::Some(m) => {
                                        lemma_delta_chain_unresolved(cells, j - 1, Some(m));
                                    },
                                }
                            },
                        }
                    },
                    PayloadV::Value(_) => {
                        assert(false);
                    },
                }
            },
            CellV::Estimate => {
                assert(false);
            },
        }
    }
}

impl MVHashMap {
    /// Resolves a read of `key` issued by transaction `txn_idx`: the outcome
    /// is exactly what the downward scan of the key's cell map below
    /// `txn_idx` denotes.
    pub fn read(&self, key: u64, txn_idx: usize) -> (r: ReadOutcome)
        requires
            self.wf(),
            txn_idx <= self.num_txns,
        ensures
            r@ == scan(self.cells_of(key), txn_idx as int - 1, Option::None),
    {
        let ghost cv = self.cells_of(key);
        let slot: usize = match self.find_slot(key) {
            Some(i) => i,
            None => {
                proof {
                    lemma_scan_no_cells(cv, txn_idx as int - 1);
                }
                return ReadOutcome::NotFound;
            },
        };
        let mut j: usize = txn_idx;
        let mut acc: Option<DeltaOp> = None;
        while j > 0
            invariant
                self.wf(),
                slot < self.entries@.len(),
                self.entries@[slot as int].key == key,
                j <= txn_idx <= self.num_txns,
                cv == self.cells_of(key),
                cv.len() == self.num_txns,
                scan(cv, txn_idx as int - 1, Option::None) == scan(cv, j as int - 1, acc),
            decreases j,
        {
            let idx = j - 1;
            proof {
                assert(cv[idx as int] == cell_view(self.entries@[slot as int].cells@[idx as int]));
            }
            match &self.entries[slot].cells[idx] {
                Option::None => {
                    proof {
                        assert(scan(cv, idx as int, acc) == scan(cv, idx as int - 1, acc));
                    }
                    j = idx;
                },
                Option::Some(EntryCell::Estimate) => {
                    return ReadOutcome::Dependency(idx);
                },
                Option::Some(EntryCell::Written { incarnation, payload }) => {
                    match payload {
                        EntryPayload::Value(v) => {
                            match acc {
                                None => {
                                    return ReadOutcome::Version(
                                        Version { txn_idx: idx, incarnation: *incarnation },
                                        clone_bytes(v),
                                    );
                                },
                                Some(d) => {
                                    match decode_u128(v) {
                                        None => {
                                            return ReadOutcome::DeltaApplicationFailure;
                                        },
                                        Some(base) => {
                                            match d.apply_to(base) {
                                                None => {
                                                    return ReadOutcome::DeltaApplicationFailure;
                                                },
                                                Some(n) => {
                                                    return ReadOutcome::Resolved(n);
                                                },
                                            }
                                        },
                                    }
                                },
                            }
                        },
                        EntryPayload::Delta(d2) => {
                            let next: Option<DeltaOp> = match acc {
                                None => Some(*d2),
                                Some(d) => {
                                    match d.merge_over(d2) {
                                        None => {
                                            return ReadOutcome::DeltaApplicationFailure;
                                        },
                                        Some(m) => Some(m),
                                    }
                                },
                            };
                            proof {
                                assert(scan(cv, idx as int, acc) == scan(cv, idx as int - 1, next));
                            }
                            acc = next;
                            j = idx;
                        },
                    }
                },
            }
        }
        match acc {
            None => ReadOutcome::NotFound,
            Some(d) => ReadOutcome::Unresolved(d),
        }
    }
}

} // verus!
