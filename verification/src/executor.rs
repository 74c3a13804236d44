//! The batch driver: runs a batch of transactions through the scheduler,
//! the multi-version store and the read proxy until every transaction
//! commits, and carries the proof that the committed state per key is the
//! state sequential execution produces.
//!
//! A transaction's behaviour is its read set and its write set; the write
//! set does not change across re-executions, which is what makes the final
//! state independent of the schedule.

use vstd::prelude::*;
use crate::delta::DeltaOp;
use crate::mvs::{key_in, lemma_scan_frame, scan, MVHashMap};
use crate::scheduler::{
    first_waiter_from, inc_of, lemma_first_waiter_props, Scheduler, Task, TxnStatus,
};
use crate::types::{CellV, EntryPayload, OutcomeV, PayloadV, ReadDescriptor};
use crate::view::{
    capture_of, descriptor_matches, lemma_capture_matches, reads_valid, validate_read_set,
    MVHashMapView, ProxyRead,
};
use crate::Version;

verus! {

/// One transaction's behaviour: the keys it reads and the writes it makes.
pub struct TxnProfile {
    pub reads: Vec<u64>,
    pub writes: Vec<(u64, EntryPayload)>,
}

/// The payload a write list leaves under `k`: its last write of `k`.
pub open spec fn last_write(ws: Seq<(u64, EntryPayload)>, k: u64) -> Option<PayloadV>
    decreases ws.len(),
{
    if ws.len() == 0 {
        None
    } else if ws.last().0 == k {
        Some(ws.last().1@)
    } else {
        last_write(ws.drop_last(), k)
    }
}

/// A write list leaves something under `k` exactly when it writes `k`.
pub proof fn lemma_last_write_some(ws: Seq<(u64, EntryPayload)>, k: u64)
    ensures
        (last_write(ws, k) is Some) == (exists|i: int| 0 <= i < ws.len() && (#[trigger] ws[i]).0
            == k),
    decreases ws.len(),
{
    if ws.len() > 0 {
        lemma_last_write_some(ws.drop_last(), k);
        if ws.last().0 == k {
            assert(ws[ws.len() - 1].0 == k);
        } else {
            if exists|i: int| 0 <= i < ws.len() && (#[trigger] ws[i]).0 == k {
                let w = choose|i: int| 0 <= i < ws.len() && (#[trigger] ws[i]).0 == k;
                assert(w < ws.len() - 1);
                assert(ws.drop_last()[w].0 == k);
            }
            if exists|i: int| 0 <= i < ws.drop_last().len() && (#[trigger] ws.drop_last()[i]).0
                == k {
                let w = choose|i: int|
                    0 <= i < ws.drop_last().len() && (#[trigger] ws.drop_last()[i]).0 == k;
                assert(ws[w].0 == k);
            }
        }
    }
}

/// The cell the canonical sequential execution leaves for `k` at position
/// `t`: each transaction runs exactly once, at incarnation 0.
pub open spec fn seq_cell(txns: Seq<TxnProfile>, k: u64, t: int) -> CellV {
    match last_write(txns[t].writes@, k) {
        Some(p) => CellV::Written { incarnation: 0, payload: p },
        None => CellV::Empty,
    }
}

/// The canonical sequential cell map of `k`.
pub open spec fn seq_cells(txns: Seq<TxnProfile>, k: u64) -> Seq<CellV> {
    Seq::new(txns.len(), |t: int| seq_cell(txns, k, t))
}

/// What a read observes, with the incarnation tag of a versioned value
/// projected out: incarnations count re-executions, not state.
pub enum ObservedV {
    Value(Seq<u8>),
    Resolved(u128),
    NotFound,
    Unresolved(DeltaOp),
    Dependency(int),
    Failure,
}

/// The observation a raw outcome denotes.
pub open spec fn observed(o: OutcomeV) -> ObservedV {
    match o {
        OutcomeV::Version { value, .. } => ObservedV::Value(value),
        OutcomeV::Resolved(n) => ObservedV::Resolved(n),
        OutcomeV::NotFound => ObservedV::NotFound,
        OutcomeV::Unresolved(d) => ObservedV::Unresolved(d),
        OutcomeV::Dependency(j) => ObservedV::Dependency(j),
        OutcomeV::DeltaApplicationFailure => ObservedV::Failure,
    }
}

/// Whether two cells carry the same state, incarnation tags aside.
pub open spec fn cell_matches(a: CellV, b: CellV) -> bool {
    match (a, b) {
        (CellV::Empty, CellV::Empty) => true,
        (CellV::Estimate, CellV::Estimate) => true,
        (
            CellV::Written { payload: p1, .. },
            CellV::Written { payload: p2, .. },
        ) => p1 == p2,
        _ => false,
    }
}

/// Two cell maps that match cell for cell are observed alike by every
/// read: the scan outcome differs at most in incarnation tags.
pub proof fn lemma_scan_observed_equiv(
    c1: Seq<CellV>,
    c2: Seq<CellV>,
    j: int,
    acc: Option<DeltaOp>,
)
    requires
        c1.len() == c2.len(),
        forall|t: int| 0 <= t < c1.len() ==> cell_matches(#[trigger] c1[t], c2[t]),
        j < c1.len(),
    ensures
        observed(scan(c1, j, acc)) == observed(scan(c2, j, acc)),
    decreases j + 1,
{
    if j >= 0 {
        match c1[j] {
            CellV::Empty => {
                lemma_scan_observed_equiv(c1, c2, j - 1, acc);
            },
            CellV::Estimate => {
            },
            CellV::Written { payload, .. } => {
                match payload {
                    PayloadV::Value(_) => {
                    },
                    PayloadV::Delta(d2) => {
                        match acc {
                            None => {
                                lemma_scan_observed_equiv(c1, c2, j - 1, Some(d2));
                            },
                            Some(d) => {
                                match DeltaOp::merge_spec(d, d2) {
                                    None => {
                                    },
                                    Some(m) => {
                                        lemma_scan_observed_equiv(c1, c2, j - 1, Some(m));
                                    },
                                }
                            },
                        }
                    },
                }
            },
        }
    }
}

/// A scan that reports a dependency observed an estimate at that index,
/// below the reader.
pub proof fn lemma_scan_dependency(cells: Seq<CellV>, j: int, acc: Option<DeltaOp>)
    requires
        -1 <= j < cells.len(),
    ensures
        scan(cells, j, acc) matches OutcomeV::Dependency(dx) ==> 0 <= dx <= j && cells[dx]
            == CellV::Estimate,
    decreases j + 1,
{
    if j >= 0 {
        lemma_scan_dependency(cells, j - 1, acc);
        match cells[j] {
            CellV::Written { payload: PayloadV::Delta(d2), .. } => {
                match acc {
                    None => {
                        lemma_scan_dependency(cells, j - 1, Some(d2));
                    },
                    Some(d) => {
                        match DeltaOp::merge_spec(d, d2) {
                            Some(m) => {
                                lemma_scan_dependency(cells, j - 1, Some(m));
                            },
                            None => {
                            },
                        }
                    },
                }
            },
            _ => {
            },
        }
    }
}

/// Whether the store cell of `k` at position `t` is the one the driver's
/// protocol leaves for a transaction in this status: never written before
/// the first execution, estimates on the write set while a retry is
/// pending, the full write set once executed, and the final writes — at
/// whatever incarnation committed — once committed.
pub open spec fn cell_ok(tp: TxnProfile, st: TxnStatus, c: CellV, k: u64) -> bool {
    match st {
        TxnStatus::ReadyToExecute(i) => if i == 0 {
            c == CellV::Empty
        } else {
            if last_write(tp.writes@, k) is Some {
                c == CellV::Estimate
            } else {
                c == CellV::Empty
            }
        },
        TxnStatus::Executing(_) => false,
        TxnStatus::Aborting(_) => false,
        TxnStatus::Executed(i) => match last_write(tp.writes@, k) {
            Some(p) => c == (CellV::Written { incarnation: i as int, payload: p }),
            None => c == CellV::Empty,
        },
        TxnStatus::Committed => match last_write(tp.writes@, k) {
            Some(p) => exists|i2: int|
                c == (CellV::Written { incarnation: i2, payload: p }),
            None => c == CellV::Empty,
        },
    }
}

/// Runs a batch to completion: workers (here, one loop) repeatedly take
/// the scheduler's next task, execute a transaction's reads and writes
/// against the store, validate captured read sets, and abort-and-retry on
/// mismatch, until the whole batch commits.  `fuel` bounds the number of
/// scheduler steps, and two steps per transaction plus one suffice: a
/// single worker takes the batch in order, so every step either dispatches
/// the next execution, advances the validation pass, or completes the
/// batch — the suspension and abort paths below are the protocol's general
/// form, and the loop's invariants show this schedule never takes them.
/// The final store's state is — key for key, cell for cell — the state of
/// the canonical sequential execution.
/// On completion the final store is returned together with each
/// transaction's captured read set of its final incarnation, and every one
/// of those read sets still revalidates against the final store: what a
/// committed transaction read is what the committed state holds.
pub fn run_batch(txns: &Vec<TxnProfile>, fuel: usize) -> (r: Option<
    (MVHashMap, Vec<Vec<ReadDescriptor>>),
>)
    ensures
        r matches Some(out) ==> out.0.wf() && out.0.num_txns == txns@.len() && forall|
            k: u64,
            t: int,
        |
            0 <= t < txns@.len() ==> cell_matches(
                #[trigger] out.0.cells_of(k)[t],
                seq_cell(txns@, k, t),
            ),
        r matches Some(out) ==> out.1@.len() == txns@.len() && forall|t: int|
            0 <= t < txns@.len() ==> reads_valid(out.0, (#[trigger] out.1@[t])@, t),
        fuel >= 2 * txns@.len() + 1 ==> r is Some,
{
    let n = txns.len();
    let mut versioned_map = MVHashMap::new(n);
    let mut scheduler = Scheduler::new(n);
    let mut reads_log: Vec<Vec<ReadDescriptor>> = Vec::new();
    let mut li: usize = 0;
    while li < n
        invariant
            li <= n,
            reads_log@.len() == li,
        decreases n - li,
    {
        reads_log.push(Vec::new());
        li = li + 1;
    }
    let mut steps: usize = 0;
    while steps < fuel
        invariant
            n == txns@.len(),
            steps <= fuel,
            steps == scheduler.execution_idx + scheduler.validation_idx,
            scheduler.validation_idx <= scheduler.execution_idx,
            versioned_map.wf(),
            versioned_map.num_txns == n,
            scheduler.wf(),
            scheduler.num_txns == n,
            scheduler.active_tasks == 0,
            reads_log@.len() == n,
            forall|t: int|
                0 <= t < n ==> !((#[trigger] scheduler.statuses@[t]) is Executing)
                    && !(scheduler.statuses@[t] is Aborting),
            forall|t: int| 0 <= t < n ==> (#[trigger] scheduler.waiting_on@[t]) is None,
            forall|t: int|
                scheduler.execution_idx <= t < n ==> (#[trigger] scheduler.statuses@[t])
                    == TxnStatus::ReadyToExecute(0),
            forall|t: int|
                0 <= t < scheduler.execution_idx ==> ((#[trigger] scheduler.statuses@[t])
                    is Executed || scheduler.statuses@[t] is Committed),
            forall|t: int|
                0 <= t < scheduler.validation_idx ==> ((#[trigger] scheduler.statuses@[t])
                    == TxnStatus::Committed || (scheduler.statuses@[t] is Executed
                    && scheduler.validated@[t])),
            forall|k: u64, t: int|
                0 <= t < n ==> cell_ok(
                    txns@[t],
                    scheduler.statuses@[t],
                    #[trigger] versioned_map.cells_of(k)[t],
                    k,
                ),
            forall|t: int|
                0 <= t < n && ((#[trigger] scheduler.statuses@[t]) is Executed
                    || scheduler.statuses@[t] == TxnStatus::Committed) ==> reads_valid(
                    versioned_map,
                    reads_log@[t]@,
                    t,
                ),
        decreases fuel - steps,
    {
        steps = steps + 1;
        let ghost sched0 = scheduler;
        let task = scheduler.next_task();
        proof {
            assert forall|k: u64, t: int|
                0 <= t < n && !(task matches Task::Execute(v) && v.txn_idx == t) implies cell_ok(
                txns@[t],
                scheduler.statuses@[t],
                #[trigger] versioned_map.cells_of(k)[t],
                k,
            ) by {
                if sched0.commit_idx <= t < scheduler.commit_idx {
                    sched0.lemma_commit_range_committable(sched0.commit_idx as int, t);
                    assert(sched0.can_commit_at(t));
                    assert(sched0.statuses@[t] is Executed);
                    assert(cell_ok(txns@[t], sched0.statuses@[t], versioned_map.cells_of(k)[t], k));
                    assert(scheduler.statuses@[t] == TxnStatus::Committed);
                } else {
                    assert(scheduler.statuses@[t] == sched0.statuses@[t]);
                }
            }
            assert forall|t: int|
                0 <= t < n && ((#[trigger] scheduler.statuses@[t]) is Executed
                    || scheduler.statuses@[t] == TxnStatus::Committed) implies reads_valid(
                versioned_map,
                reads_log@[t]@,
                t,
            ) by {
                if sched0.commit_idx <= t < scheduler.commit_idx {
                    sched0.lemma_commit_range_committable(sched0.commit_idx as int, t);
                    assert(sched0.statuses@[t] is Executed && sched0.validated@[t]);
                } else {
                    assert(scheduler.statuses@[t] == sched0.statuses@[t]);
                }
            }
        }
        let ghost sched1 = scheduler;
        match task {
            Task::Done => {
                proof {
                    assert forall|k: u64, t: int| 0 <= t < n implies cell_matches(
                        #[trigger] versioned_map.cells_of(k)[t],
                        seq_cell(txns@, k, t),
                    ) by {
                        assert(scheduler.statuses@[t] == TxnStatus::Committed);
                        assert(cell_ok(
                            txns@[t],
                            TxnStatus::Committed,
                            versioned_map.cells_of(k)[t],
                            k,
                        ));
                    }
                    assert forall|t: int| 0 <= t < n implies reads_valid(
                        versioned_map,
                        (#[trigger] reads_log@[t])@,
                        t,
                    ) by {
                        assert(scheduler.statuses@[t] == TxnStatus::Committed);
                    }
                }
                return Some((versioned_map, reads_log));
            },
            Task::NoTask => {
                // An idle slot only ever comes from the validation pass
                // skipping an already settled transaction; the step still
                // advances the validation index, so progress is never lost.
                proof {
                    let target = sched0.commit_target(sched0.commit_idx as int);
                    assert(target != n);
                    assert forall|t2: int|
                        scheduler.execution_idx <= t2 < n implies (
                        #[trigger] scheduler.statuses@[t2]) == TxnStatus::ReadyToExecute(0) by {
                        if sched0.commit_idx <= t2 < scheduler.commit_idx {
                            sched0.lemma_commit_range_committable(sched0.commit_idx as int, t2);
                        } else {
                            assert(scheduler.statuses@[t2] == sched0.statuses@[t2]);
                        }
                    }
                    assert forall|t2: int|
                        0 <= t2 < scheduler.execution_idx implies ((
                        #[trigger] scheduler.statuses@[t2]) is Executed || scheduler.statuses@[t2]
                        is Committed) by {
                        if !(sched0.commit_idx <= t2 < scheduler.commit_idx) {
                            assert(scheduler.statuses@[t2] == sched0.statuses@[t2]);
                        }
                    }
                    if sched0.validation_idx < sched0.execution_idx {
                        let vi = sched0.validation_idx as int;
                        assert forall|t2: int|
                            0 <= t2 < scheduler.validation_idx implies ((
                            #[trigger] scheduler.statuses@[t2]) == TxnStatus::Committed || (
                            scheduler.statuses@[t2] is Executed && scheduler.validated@[t2])) by {
                            if sched0.commit_idx <= t2 < scheduler.commit_idx {
                                assert(scheduler.statuses@[t2] == TxnStatus::Committed);
                            } else {
                                assert(scheduler.statuses@[t2] == sched0.statuses@[t2]);
                                if t2 == vi {
                                    assert(sched0.statuses@[vi] is Executed || sched0.statuses@[vi]
                                        is Committed);
                                    if sched0.statuses@[vi] is Executed && !sched0.validated@[vi] {
                                        if sched0.commit_idx <= vi < target {
                                            sched0.lemma_commit_range_committable(
                                                sched0.commit_idx as int,
                                                vi,
                                            );
                                        }
                                        assert(false);
                                    }
                                }
                            }
                        }
                    } else if sched0.execution_idx < n {
                        let ei = sched0.execution_idx as int;
                        assert(sched0.statuses@[ei] == TxnStatus::ReadyToExecute(0));
                        assert(sched0.waiting_on@[ei] is None);
                        if sched0.commit_idx <= ei < target {
                            sched0.lemma_commit_range_committable(sched0.commit_idx as int, ei);
                        }
                        assert(false);
                    } else {
                        assert(sched0.validation_idx == n);
                        assert forall|t2: int|
                            sched0.commit_idx <= t2 < n implies sched0.can_commit_at(t2) by {
                            assert(sched0.statuses@[t2] != TxnStatus::Committed);
                        }
                        sched0.lemma_commit_target_covers(sched0.commit_idx as int);
                        assert(false);
                    }
                }
            },
            Task::Execute(v) => {
                let t = v.txn_idx;
                let inc = v.incarnation;
                proof {
                    assert(sched0.statuses@[t as int] is ReadyToExecute);
                    assert(scheduler.statuses@[t as int] == TxnStatus::Executing(inc));
                    assert(inc == inc_of(sched0.statuses@[t as int]));
                    assert(t == sched0.execution_idx);
                    assert(sched0.statuses@[t as int] == TxnStatus::ReadyToExecute(0));
                    assert(inc == 0);
                }
                let mut proxy = MVHashMapView::new(t);
                let nr = txns[t].reads.len();
                let mut ri: usize = 0;
                let mut blocked = false;
                let mut dep: usize = 0;
                while ri < nr && !blocked
                    invariant
                        n == txns@.len(),
                        t < n,
                        nr == txns@[t as int].reads@.len(),
                        ri <= nr,
                        versioned_map.wf(),
                        versioned_map.num_txns == n,
                        proxy.txn_idx == t,
                        reads_valid(versioned_map, proxy.captured_reads@, t as int),
                        scheduler.wf(),
                        scheduler.num_txns == n,
                        forall|k: u64, t2: int|
                            0 <= t2 < n && t2 != t ==> cell_ok(
                                txns@[t2],
                                scheduler.statuses@[t2],
                                #[trigger] versioned_map.cells_of(k)[t2],
                                k,
                            ),
                        blocked ==> dep < t && !(scheduler.statuses@[dep as int] is Executed)
                            && !(scheduler.statuses@[dep as int] is Committed),
                    decreases nr - ri,
                {
                    let key = txns[t].reads[ri];
                    let ghost cap0 = proxy.captured_reads@;
                    let ghost out0 = scan(versioned_map.cells_of(key), t as int - 1, Option::None);
                    proof {
                        lemma_scan_dependency(
                            versioned_map.cells_of(key),
                            t as int - 1,
                            Option::None,
                        );
                    }
                    match proxy.read(&versioned_map, key) {
                        ProxyRead::Suspended(dv) => {
                            proof {
                                assert(out0 == OutcomeV::Dependency(dv as int));
                                assert(versioned_map.cells_of(key)[dv as int] == CellV::Estimate);
                                assert(cell_ok(
                                    txns@[dv as int],
                                    scheduler.statuses@[dv as int],
                                    versioned_map.cells_of(key)[dv as int],
                                    key,
                                ));
                                assert(proxy.captured_reads@ =~= cap0);
                            }
                            blocked = true;
                            dep = dv;
                        },
                        ProxyRead::Done(_) => {
                            proof {
                                lemma_capture_matches(versioned_map, key, t as int);
                                assert forall|i: int|
                                    0 <= i < proxy.captured_reads@.len() implies descriptor_matches(
                                    #[trigger] proxy.captured_reads@[i],
                                    scan(
                                        versioned_map.cells_of(proxy.captured_reads@[i].key),
                                        t as int - 1,
                                        Option::None,
                                    ),
                                ) by {
                                    if i < cap0.len() {
                                        assert(proxy.captured_reads@[i] == cap0[i]);
                                    } else {
                                        assert(proxy.captured_reads@[i] == capture_of(key, out0)[i
                                            - cap0.len()]);
                                    }
                                }
                            }
                        },
                    }
                    ri = ri + 1;
                }
                if blocked {
                    proof {
                        // A single worker takes the batch in order: every
                        // transaction below this one is already executed or
                        // committed, so no estimate — and so no dependency —
                        // can be observed.  The suspension path is the
                        // protocol's general form; the invariants show it is
                        // never taken here.
                        if sched0.commit_idx <= dep < sched1.commit_idx {
                            assert(scheduler.statuses@[dep as int] == TxnStatus::Committed);
                        } else {
                            assert(scheduler.statuses@[dep as int] == sched0.statuses@[
                                dep as int]);
                            assert(sched0.statuses@[dep as int] is Executed || sched0.statuses@[
                                dep as int] is Committed);
                        }
                        assert(false);
                    }
                    let parked = scheduler.wait_for_dependency(t, dep, inc);
                    proof {
                        assert(parked);
                        assert forall|t2: int|
                            0 <= t2 < n && ((#[trigger] scheduler.statuses@[t2]) is Executed
                                || scheduler.statuses@[t2] == TxnStatus::Committed)
                                implies reads_valid(versioned_map, reads_log@[t2]@, t2) by {
                            if t2 != t {
                                assert(scheduler.statuses@[t2] == sched1.statuses@[t2]);
                            }
                        }
                        assert forall|k: u64, t2: int| 0 <= t2 < n implies cell_ok(
                            txns@[t2],
                            scheduler.statuses@[t2],
                            #[trigger] versioned_map.cells_of(k)[t2],
                            k,
                        ) by {
                            if t2 == t {
                                assert(scheduler.statuses@[t2] == TxnStatus::ReadyToExecute(inc));
                                assert(cell_ok(
                                    txns@[t2],
                                    sched0.statuses@[t2],
                                    versioned_map.cells_of(k)[t2],
                                    k,
                                ));
                            }
                        }
                    }
                } else {
                    let ghost base_m = versioned_map;
                    let nw = txns[t].writes.len();
                    let mut wi: usize = 0;
                    while wi < nw
                        invariant
                            n == txns@.len(),
                            t < n,
                            nw == txns@[t as int].writes@.len(),
                            wi <= nw,
                            versioned_map.wf(),
                            versioned_map.num_txns == n,
                            base_m.wf(),
                            base_m.num_txns == n,
                            forall|k: u64|
                                #[trigger] versioned_map.cells_of(k)[t as int] == (
                                match last_write(txns@[t as int].writes@.take(wi as int), k) {
                                    Some(p) => CellV::Written {
                                        incarnation: inc as int,
                                        payload: p,
                                    },
                                    None => base_m.cells_of(k)[t as int],
                                }),
                            forall|k: u64, t2: int|
                                0 <= t2 < n && t2 != t ==> #[trigger] versioned_map.cells_of(k)[t2]
                                    == base_m.cells_of(k)[t2],
                        decreases nw - wi,
                    {
                        let k0 = txns[t].writes[wi].0;
                        let payload = txns[t].writes[wi].1.duplicate();
                        let ghost before = versioned_map;
                        versioned_map.write(k0, Version { txn_idx: t, incarnation: inc }, payload);
                        proof {
                            let ws = txns@[t as int].writes@;
                            assert(ws.take(wi as int + 1).last() == ws[wi as int]);
                            assert(ws.take(wi as int + 1).drop_last() =~= ws.take(wi as int));
                            assert forall|k: u64| #[trigger] versioned_map.cells_of(k)[t as int]
                                == (match last_write(ws.take(wi as int + 1), k) {
                                Some(p) => CellV::Written { incarnation: inc as int, payload: p },
                                None => base_m.cells_of(k)[t as int],
                            }) by {
                                if k == k0 {
                                    assert(versioned_map.cells_of(k) == before.cells_of(k).update(
                                        t as int,
                                        CellV::Written {
                                            incarnation: inc as int,
                                            payload: ws[wi as int].1@,
                                        },
                                    ));
                                } else {
                                    assert(versioned_map.cells_of(k) == before.cells_of(k));
                                    assert(last_write(ws.take(wi as int + 1), k) == last_write(
                                        ws.take(wi as int),
                                        k,
                                    ));
                                }
                            }
                        }
                        wi = wi + 1;
                    }
                    // Finish-execution bookkeeping: keys the prior
                    // incarnation wrote that the new write set no longer
                    // covers are deleted.  Write sets are fixed across
                    // re-executions here, so the two lists coincide and the
                    // contract of `remove_vanished` shows nothing changes.
                    let mut write_keys: Vec<u64> = Vec::new();
                    let mut ki: usize = 0;
                    while ki < nw
                        invariant
                            n == txns@.len(),
                            t < n,
                            nw == txns@[t as int].writes@.len(),
                            ki <= nw,
                            write_keys@.len() == ki,
                        decreases nw - ki,
                    {
                        write_keys.push(txns[t].writes[ki].0);
                        ki = ki + 1;
                    }
                    let ghost wrote = versioned_map;
                    versioned_map.remove_vanished(t, &write_keys, &write_keys);
                    proof {
                        assert forall|k: u64| #[trigger] versioned_map.cells_of(k)
                            == wrote.cells_of(k) by {
                            assert(!(key_in(write_keys@, k) && !key_in(write_keys@, k)));
                        }
                    }
                    let ghost capt = proxy.captured_reads@;
                    let ghost old_log = reads_log@;
                    reads_log[t] = proxy.take_reads();
                    scheduler.finish_execution(t, inc);
                    proof {
                        let ws = txns@[t as int].writes@;
                        assert(ws.take(nw as int) =~= ws);
                        assert forall|k: u64, t2: int| 0 <= t2 < n implies cell_ok(
                            txns@[t2],
                            scheduler.statuses@[t2],
                            #[trigger] versioned_map.cells_of(k)[t2],
                            k,
                        ) by {
                            if t2 == t {
                                assert(scheduler.statuses@[t2] == TxnStatus::Executed(inc));
                                assert(sched0.statuses@[t2] == TxnStatus::ReadyToExecute(inc));
                                assert(cell_ok(
                                    txns@[t2],
                                    sched0.statuses@[t2],
                                    base_m.cells_of(k)[t2],
                                    k,
                                ));
                                assert(versioned_map.cells_of(k)[t2] == (match last_write(ws, k) {
                                    Some(p) => CellV::Written {
                                        incarnation: inc as int,
                                        payload: p,
                                    },
                                    None => base_m.cells_of(k)[t2],
                                }));
                            } else {
                                assert(versioned_map.cells_of(k)[t2] == base_m.cells_of(k)[t2]);
                                assert(scheduler.statuses@[t2] == sched1.statuses@[t2]);
                                assert(cell_ok(
                                    txns@[t2],
                                    sched1.statuses@[t2],
                                    base_m.cells_of(k)[t2],
                                    k,
                                ));
                            }
                        }
                        assert forall|t2: int|
                            0 <= t2 < n && ((#[trigger] scheduler.statuses@[t2]) is Executed
                                || scheduler.statuses@[t2] == TxnStatus::Committed)
                                implies reads_valid(versioned_map, reads_log@[t2]@, t2) by {
                            if scheduler.statuses@[t2] == TxnStatus::Committed {
                                assert(scheduler.statuses@[t2] == sched1.statuses@[t2]);
                                assert(scheduler.commit_idx <= t);
                                assert(t2 < scheduler.commit_idx);
                                assert(t2 < t);
                            } else if t2 != t {
                                assert(scheduler.statuses@[t2] == sched1.statuses@[t2]);
                                if t2 > t {
                                    if sched0.commit_idx <= t2 < sched1.commit_idx {
                                        sched0.lemma_commit_range_committable(
                                            sched0.commit_idx as int,
                                            t2,
                                        );
                                    }
                                    assert(sched1.statuses@[t2] == sched0.statuses@[t2]);
                                    assert(sched0.statuses@[t2] == TxnStatus::ReadyToExecute(0));
                                    assert(false);
                                }
                                assert(t2 < t);
                            }
                            if t2 == t {
                                assert(reads_log@[t2]@ == capt);
                                assert(reads_valid(base_m, reads_log@[t2]@, t2));
                            } else {
                                assert(reads_log@[t2] == old_log[t2]);
                                assert(reads_valid(base_m, reads_log@[t2]@, t2));
                            }
                            assert forall|i: int|
                                0 <= i < reads_log@[t2]@.len() implies descriptor_matches(
                                #[trigger] reads_log@[t2]@[i],
                                scan(
                                    versioned_map.cells_of(reads_log@[t2]@[i].key),
                                    t2 - 1,
                                    Option::None,
                                ),
                            ) by {
                                let key = reads_log@[t2]@[i].key;
                                assert(descriptor_matches(
                                    reads_log@[t2]@[i],
                                    scan(base_m.cells_of(key), t2 - 1, Option::None),
                                ));
                                assert(base_m.cells_of(key).len() == n);
                                assert(versioned_map.cells_of(key).len() == n);
                                assert forall|x: int|
                                    0 <= x <= t2 - 1 implies base_m.cells_of(key)[x]
                                    == versioned_map.cells_of(key)[x] by {
                                    assert(versioned_map.cells_of(key)[x] == base_m.cells_of(
                                        key,
                                    )[x]);
                                }
                                lemma_scan_frame(
                                    base_m.cells_of(key),
                                    versioned_map.cells_of(key),
                                    t2 - 1,
                                    Option::None,
                                );
                            }
                        }
                        lemma_first_waiter_props(sched1.waiting_on@, t, 0);
                        assert(first_waiter_from(sched1.waiting_on@, t, 0) == n as int) by {
                            let fw = first_waiter_from(sched1.waiting_on@, t, 0);
                            if fw < n {
                                assert(sched1.waiting_on@[fw] == Some(t));
                                assert(sched1.waiting_on@[fw] is None);
                            }
                        }
                        assert(scheduler.execution_idx == sched0.execution_idx + 1);
                        assert(scheduler.validation_idx == sched0.validation_idx);
                        assert forall|w: int|
                            0 <= w < n implies (#[trigger] scheduler.waiting_on@[w]) is None by {
                            assert(sched1.waiting_on@[w] is None);
                        }
                        assert forall|t2: int|
                            scheduler.execution_idx <= t2 < n implies (
                            #[trigger] scheduler.statuses@[t2]) == TxnStatus::ReadyToExecute(
                            0,
                        ) by {
                            if sched0.commit_idx <= t2 < sched1.commit_idx {
                                sched0.lemma_commit_range_committable(
                                    sched0.commit_idx as int,
                                    t2,
                                );
                            }
                            assert(sched1.statuses@[t2] == sched0.statuses@[t2]);
                        }
                        assert forall|t2: int|
                            0 <= t2 < scheduler.execution_idx implies ((
                            #[trigger] scheduler.statuses@[t2]) is Executed
                            || scheduler.statuses@[t2] is Committed) by {
                            if t2 != t {
                                assert(scheduler.statuses@[t2] == sched1.statuses@[t2]);
                                if !(sched0.commit_idx <= t2 < sched1.commit_idx) {
                                    assert(sched1.statuses@[t2] == sched0.statuses@[t2]);
                                }
                            }
                        }
                        assert forall|t2: int|
                            0 <= t2 < scheduler.validation_idx implies ((
                            #[trigger] scheduler.statuses@[t2]) == TxnStatus::Committed || (
                            scheduler.statuses@[t2] is Executed && scheduler.validated@[t2])) by {
                            assert(t2 < t);
                            assert(scheduler.statuses@[t2] == sched1.statuses@[t2]);
                            assert(scheduler.validated@[t2] == sched1.validated@[t2]);
                            if !(sched0.commit_idx <= t2 < sched1.commit_idx) {
                                assert(sched1.statuses@[t2] == sched0.statuses@[t2]);
                            }
                        }
                    }
                }
            },
            Task::Validate(v) => {
                let t = v.txn_idx;
                let inc = v.incarnation;
                proof {
                    assert(scheduler.statuses@[t as int] == sched0.statuses@[t as int]);
                    assert(sched0.statuses@[t as int] is Executed);
                    assert(inc == inc_of(sched0.statuses@[t as int]));
                    assert(scheduler.statuses@[t as int] == TxnStatus::Executed(inc));
                }
                let ok = validate_read_set(&versioned_map, &reads_log[t], t);
                proof {
                    assert(!sched1.validated@[t as int]);
                    // A single worker reads each transaction's inputs after
                    // every lower transaction has executed its final writes,
                    // so every captured read still matches and validation
                    // cannot fail; the abort path below is the protocol's
                    // general form, and the invariants show it is never
                    // taken here.
                    assert(sched1.statuses@[t as int] is Executed);
                    assert(reads_valid(versioned_map, reads_log@[t as int]@, t as int));
                    assert(ok);
                }
                scheduler.finish_validation(t, ok);
                proof {
                    assert forall|t2: int|
                        0 <= t2 < n && ((#[trigger] scheduler.statuses@[t2]) is Executed
                            || scheduler.statuses@[t2] == TxnStatus::Committed)
                            implies reads_valid(versioned_map, reads_log@[t2]@, t2) by {
                        if t2 != t {
                            assert(scheduler.statuses@[t2] == sched1.statuses@[t2]);
                        }
                    }
                }
                if !ok {
                    let claimed = scheduler.try_abort(t, inc);
                    proof {
                        assert(claimed);
                    }
                    if claimed {
                        let ghost base_m = versioned_map;
                        let ghost abort0 = scheduler;
                        let nw = txns[t].writes.len();
                        let mut wi: usize = 0;
                        while wi < nw
                            invariant
                                n == txns@.len(),
                                t < n,
                                nw == txns@[t as int].writes@.len(),
                                wi <= nw,
                                versioned_map.wf(),
                                versioned_map.num_txns == n,
                                base_m.wf(),
                                base_m.num_txns == n,
                                forall|k: u64|
                                    cell_ok(
                                        txns@[t as int],
                                        TxnStatus::Executed(inc),
                                        #[trigger] base_m.cells_of(k)[t as int],
                                        k,
                                    ),
                                forall|k: u64|
                                    #[trigger] versioned_map.cells_of(k)[t as int] == (if exists|
                                        x: int,
                                    |
                                        0 <= x < wi && (#[trigger] txns@[t as int].writes@[x]).0
                                            == k {
                                        CellV::Estimate
                                    } else {
                                        base_m.cells_of(k)[t as int]
                                    }),
                                forall|k: u64, t2: int|
                                    0 <= t2 < n && t2 != t ==> #[trigger] versioned_map.cells_of(
                                        k,
                                    )[t2] == base_m.cells_of(k)[t2],
                            decreases nw - wi,
                        {
                            let k0 = txns[t].writes[wi].0;
                            let ghost before = versioned_map;
                            proof {
                                let ws = txns@[t as int].writes@;
                                lemma_last_write_some(ws, k0);
                                assert(ws[wi as int].0 == k0);
                                assert(last_write(ws, k0) is Some);
                                assert(before.cells_of(k0)[t as int] != CellV::Empty);
                            }
                            versioned_map.mark_estimate(k0, t);
                            proof {
                                let ws = txns@[t as int].writes@;
                                assert forall|k: u64| #[trigger] versioned_map.cells_of(k)[t as int]
                                    == (if exists|x: int|
                                    0 <= x < wi as int + 1 && (#[trigger] ws[x]).0 == k {
                                    CellV::Estimate
                                } else {
                                    base_m.cells_of(k)[t as int]
                                }) by {
                                    if k == k0 {
                                        assert(versioned_map.cells_of(k) == before.cells_of(
                                            k,
                                        ).update(t as int, CellV::Estimate));
                                        assert(ws[wi as int].0 == k);
                                    } else {
                                        assert(versioned_map.cells_of(k) == before.cells_of(k));
                                        if exists|x: int|
                                            0 <= x < wi as int + 1 && (#[trigger] ws[x]).0 == k {
                                            let x = choose|x: int|
                                                0 <= x < wi as int + 1 && (#[trigger] ws[x]).0
                                                    == k;
                                            assert(x < wi as int);
                                        }
                                    }
                                }
                            }
                            wi = wi + 1;
                        }
                        scheduler.finish_abort(t, inc);
                        proof {
                            let ws = txns@[t as int].writes@;
                            assert forall|k: u64, t2: int| 0 <= t2 < n implies cell_ok(
                                txns@[t2],
                                scheduler.statuses@[t2],
                                #[trigger] versioned_map.cells_of(k)[t2],
                                k,
                            ) by {
                                if t2 == t {
                                    assert(scheduler.statuses@[t2] == TxnStatus::ReadyToExecute(
                                        (inc + 1) as usize,
                                    ));
                                    lemma_last_write_some(ws, k);
                                    assert(cell_ok(
                                        txns@[t2],
                                        TxnStatus::Executed(inc),
                                        base_m.cells_of(k)[t2],
                                        k,
                                    ));
                                } else {
                                    assert(versioned_map.cells_of(k)[t2] == base_m.cells_of(
                                        k,
                                    )[t2]);
                                    assert(scheduler.statuses@[t2] == abort0.statuses@[t2]);
                                }
                            }
                            assert forall|t2: int|
                                0 <= t2 < n && (((#[trigger] scheduler.statuses@[t2]) is Executed
                                    && scheduler.validated@[t2]) || scheduler.statuses@[t2]
                                    == TxnStatus::Committed) implies reads_valid(
                                versioned_map,
                                reads_log@[t2]@,
                                t2,
                            ) by {
                                if scheduler.statuses@[t2] == TxnStatus::Committed {
                                    assert(scheduler.statuses@[t2] == sched1.statuses@[t2]);
                                    assert(scheduler.commit_idx <= t);
                                    assert(t2 < scheduler.commit_idx);
                                } else {
                                    assert(scheduler.validated@[t2]);
                                    assert(t2 < t);
                                    assert(scheduler.statuses@[t2] == sched1.statuses@[t2]);
                                    assert(scheduler.validated@[t2] == sched1.validated@[t2]);
                                }
                                assert(t2 < t);
                                assert(reads_valid(base_m, reads_log@[t2]@, t2));
                                assert forall|i: int|
                                    0 <= i < reads_log@[t2]@.len() implies descriptor_matches(
                                    #[trigger] reads_log@[t2]@[i],
                                    scan(
                                        versioned_map.cells_of(reads_log@[t2]@[i].key),
                                        t2 - 1,
                                        Option::None,
                                    ),
                                ) by {
                                    let key = reads_log@[t2]@[i].key;
                                    assert(descriptor_matches(
                                        reads_log@[t2]@[i],
                                        scan(base_m.cells_of(key), t2 - 1, Option::None),
                                    ));
                                    assert(base_m.cells_of(key).len() == n);
                                    assert(versioned_map.cells_of(key).len() == n);
                                    assert forall|x: int|
                                        0 <= x <= t2 - 1 implies base_m.cells_of(key)[x]
                                        == versioned_map.cells_of(key)[x] by {
                                        assert(versioned_map.cells_of(key)[x] == base_m.cells_of(
                                            key,
                                        )[x]);
                                    }
                                    lemma_scan_frame(
                                        base_m.cells_of(key),
                                        versioned_map.cells_of(key),
                                        t2 - 1,
                                        Option::None,
                                    );
                                }
                            }
                        }
                    }
                }
                proof {
                    assert(t == sched0.validation_idx);
                    assert(scheduler.validation_idx == sched0.validation_idx + 1);
                    assert(scheduler.execution_idx == sched0.execution_idx);
                    assert forall|w: int|
                        0 <= w < n implies (#[trigger] scheduler.waiting_on@[w]) is None by {
                        assert(sched1.waiting_on@[w] is None);
                    }
                    assert forall|t2: int|
                        scheduler.execution_idx <= t2 < n implies (
                        #[trigger] scheduler.statuses@[t2]) == TxnStatus::ReadyToExecute(0) by {
                        if sched0.commit_idx <= t2 < sched1.commit_idx {
                            sched0.lemma_commit_range_committable(sched0.commit_idx as int, t2);
                        }
                        assert(sched1.statuses@[t2] == sched0.statuses@[t2]);
                        assert(scheduler.statuses@[t2] == sched1.statuses@[t2]);
                    }
                    assert forall|t2: int|
                        0 <= t2 < scheduler.execution_idx implies ((
                        #[trigger] scheduler.statuses@[t2]) is Executed || scheduler.statuses@[t2]
                        is Committed) by {
                        assert(scheduler.statuses@[t2] == sched1.statuses@[t2]);
                        if !(sched0.commit_idx <= t2 < sched1.commit_idx) {
                            assert(sched1.statuses@[t2] == sched0.statuses@[t2]);
                        }
                    }
                    assert forall|t2: int|
                        0 <= t2 < scheduler.validation_idx implies ((
                        #[trigger] scheduler.statuses@[t2]) == TxnStatus::Committed || (
                        scheduler.statuses@[t2] is Executed && scheduler.validated@[t2])) by {
                        assert(scheduler.statuses@[t2] == sched1.statuses@[t2]);
                        if t2 == t as int {
                            assert(scheduler.validated@[t2]);
                        } else {
                            assert(scheduler.validated@[t2] == sched1.validated@[t2]);
                            if !(sched0.commit_idx <= t2 < sched1.commit_idx) {
                                assert(sched1.statuses@[t2] == sched0.statuses@[t2]);
                            }
                        }
                    }
                }
            },
        }
    }
    None
}

/// For any batch the driver completes, every key's final cell map matches
/// the canonical sequential one, so every read of the final state observes
/// exactly what sequential execution produces.
pub proof fn lemma_final_state_sequential(m: MVHashMap, txns: Seq<TxnProfile>, k: u64, j: int)
    requires
        m.wf(),
        m.num_txns == txns.len(),
        forall|t: int|
            0 <= t < txns.len() ==> cell_matches(#[trigger] m.cells_of(k)[t], seq_cell(txns, k, t)),
        -1 <= j < txns.len(),
    ensures
        observed(scan(m.cells_of(k), j, Option::None)) == observed(
            scan(seq_cells(txns, k), j, Option::None),
        ),
{
    assert(m.cells_of(k).len() == txns.len());
    lemma_scan_observed_equiv(m.cells_of(k), seq_cells(txns, k), j, Option::None);
}

} // verus!
