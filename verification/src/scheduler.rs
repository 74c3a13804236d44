//! The scheduler: hands out execution and validation tasks, tracks each
//! transaction's status, coordinates abort-and-retry, manages dependency
//! suspensions and wakeups, and advances the commit wavefront.

use vstd::prelude::*;
use crate::Version;

verus! {

/// Status of one transaction of the batch.
#[derive(Clone, Copy, PartialEq, Eq, Structural, Debug)]
pub enum TxnStatus {
    /// The next incarnation may be handed out for execution.
    ReadyToExecute(usize),
    /// An incarnation currently holds the execution slot.
    Executing(usize),
    /// The incarnation finished executing and awaits validation.
    Executed(usize),
    /// An aborter claimed the incarnation and is marking its writes.
    Aborting(usize),
    /// Terminal: the transaction's output is final.
    Committed,
}

/// The incarnation a non-terminal status carries.
pub open spec fn inc_of(s: TxnStatus) -> usize {
    match s {
        TxnStatus::ReadyToExecute(i) => i,
        TxnStatus::Executing(i) => i,
        TxnStatus::Executed(i) => i,
        TxnStatus::Aborting(i) => i,
        TxnStatus::Committed => 0,
    }
}

/// What the scheduler hands a worker.
#[derive(Clone, Copy, PartialEq, Eq, Structural, Debug)]
pub enum Task {
    /// Run this incarnation of this transaction.
    Execute(Version),
    /// Revalidate the captured reads of this incarnation.
    Validate(Version),
    /// Nothing dispatchable right now; retry after yielding.
    NoTask,
    /// The batch is complete.
    Done,
}

/// The transaction index an execute task targets, `-1` for any other task.
pub open spec fn task_execute_idx(r: Task) -> int {
    match r {
        Task::Execute(v) => v.txn_idx as int,
        _ => -1,
    }
}

/// The incarnation an execute task targets.
pub open spec fn task_execute_inc(r: Task) -> usize {
    match r {
        Task::Execute(v) => v.incarnation,
        _ => 0,
    }
}

/// The lowest transaction at or above `i` waiting on `dep`, or the batch
/// size when none waits.
pub open spec fn first_waiter_from(waiting: Seq<Option<usize>>, dep: usize, i: int) -> int
    decreases waiting.len() - i,
{
    if i < 0 || i >= waiting.len() {
        waiting.len() as int
    } else if waiting[i] == Some(dep) {
        i
    } else {
        first_waiter_from(waiting, dep, i + 1)
    }
}

/// `first_waiter_from` names the least waiter at or above `i`.
pub proof fn lemma_first_waiter_props(waiting: Seq<Option<usize>>, dep: usize, i: int)
    requires
        0 <= i <= waiting.len(),
    ensures
        i <= first_waiter_from(waiting, dep, i) <= waiting.len(),
        first_waiter_from(waiting, dep, i) < waiting.len() ==> waiting[first_waiter_from(
            waiting,
            dep,
            i,
        )] == Some(dep),
        forall|j: int|
            i <= j < first_waiter_from(waiting, dep, i) ==> waiting[j] != Some(dep),
    decreases waiting.len() - i,
{
    if i < waiting.len() && waiting[i] != Some(dep) {
        lemma_first_waiter_props(waiting, dep, i + 1);
    }
}

/// The scheduler's batch-level state.
pub struct Scheduler {
    pub num_txns: usize,
    pub statuses: Vec<TxnStatus>,
    pub validated: Vec<bool>,
    pub waiting_on: Vec<Option<usize>>,
    pub execution_idx: usize,
    pub validation_idx: usize,
    pub commit_idx: usize,
    pub active_tasks: usize,
    pub done_marker: bool,
}

impl Scheduler {
    /// Sizes agree, the committed prefix is exactly `[0, commit_idx)`, and
    /// the indices stay within the batch.
    pub open spec fn wf(self) -> bool {
        &&& self.statuses@.len() == self.num_txns
        &&& self.validated@.len() == self.num_txns
        &&& self.waiting_on@.len() == self.num_txns
        &&& self.commit_idx <= self.num_txns
        &&& self.execution_idx <= self.num_txns
        &&& self.validation_idx <= self.num_txns
        &&& forall|i: int| 0 <= i < self.commit_idx ==> self.statuses@[i] == TxnStatus::Committed
        &&& forall|i: int|
            self.commit_idx <= i < self.num_txns ==> self.statuses@[i] != TxnStatus::Committed
        &&& (self.done_marker ==> self.commit_idx == self.num_txns)
    }

    /// Whether the transaction at `i` may join the committed prefix: it is
    /// executed, its current incarnation passed validation, and the
    /// validation index has moved beyond it.
    pub open spec fn can_commit_at(self, i: int) -> bool {
        &&& self.statuses@[i] is Executed
        &&& self.validated@[i]
        &&& self.validation_idx > i
    }

    /// Where the commit wavefront starting at `i` stops.
    pub open spec fn commit_target(self, i: int) -> int
        decreases self.num_txns - i,
    {
        if i < self.num_txns && self.can_commit_at(i) {
            self.commit_target(i + 1)
        } else {
            i
        }
    }

    /// Every position the commit wavefront passes over was committable.
    pub proof fn lemma_commit_range_committable(self, i: int, t: int)
        requires
            i <= t < self.commit_target(i),
        ensures
            self.can_commit_at(t),
        decreases t - i,
    {
        if i < self.num_txns && self.can_commit_at(i) {
            if t > i {
                self.lemma_commit_range_committable(i + 1, t);
            }
        }
    }

    /// When everything from `i` on is committable, the wavefront started
    /// at `i` runs to the end of the batch.
    pub proof fn lemma_commit_target_covers(self, i: int)
        requires
            0 <= i <= self.num_txns,
            forall|t: int| i <= t < self.num_txns ==> self.can_commit_at(t),
        ensures
            self.commit_target(i) == self.num_txns,
        decreases self.num_txns - i,
    {
        if i < self.num_txns {
            self.lemma_commit_target_covers(i + 1);
        }
    }

    /// Once every transaction is committed the wavefront is at the end and
    /// stays there: as soon as no handed-out task is outstanding, the next
    /// task is the batch-complete signal and nothing else ever again.
    pub proof fn lemma_all_committed_means_done(self)
        requires
            self.wf(),
            forall|t: int|
                0 <= t < self.num_txns ==> self.statuses@[t] == TxnStatus::Committed,
        ensures
            self.commit_idx == self.num_txns,
            self.commit_target(self.commit_idx as int) == self.num_txns,
    {
        if self.commit_idx < self.num_txns {
            assert(self.statuses@[self.commit_idx as int] != TxnStatus::Committed);
            assert(self.statuses@[self.commit_idx as int] == TxnStatus::Committed);
        }
    }

    /// Whether incarnation `inc` of transaction `t` currently holds the
    /// execution slot or is being aborted.
    pub open spec fn inflight(self, t: int, inc: usize) -> bool {
        self.statuses@[t] == TxnStatus::Executing(inc) || self.statuses@[t]
            == TxnStatus::Aborting(inc)
    }

    /// At most one incarnation of a given transaction is executing or
    /// aborting at any moment: any two in-flight incarnations coincide.
    pub proof fn lemma_single_inflight_incarnation(self, t: int, inc1: usize, inc2: usize)
        requires
            self.inflight(t, inc1),
            self.inflight(t, inc2),
        ensures
            inc1 == inc2,
    {
    }

    /// A fresh scheduler: every transaction ready at incarnation 0, nothing
    /// validated, nothing waiting, all indices at the start.
    pub fn new(num_txns: usize) -> (r: Scheduler)
        ensures
            r.wf(),
            r.num_txns == num_txns,
            forall|t: int| 0 <= t < num_txns ==> r.statuses@[t] == TxnStatus::ReadyToExecute(0),
            forall|t: int| 0 <= t < num_txns ==> r.validated@[t] == false,
            forall|t: int| 0 <= t < num_txns ==> r.waiting_on@[t] is None,
            r.execution_idx == 0,
            r.validation_idx == 0,
            r.commit_idx == 0,
            r.active_tasks == 0,
            !r.done_marker,
    {
        let mut statuses: Vec<TxnStatus> = Vec::new();
        let mut validated: Vec<bool> = Vec::new();
        let mut waiting_on: Vec<Option<usize>> = Vec::new();
        let mut k: usize = 0;
        while k < num_txns
            invariant
                k <= num_txns,
                statuses@.len() == k,
                validated@.len() == k,
                waiting_on@.len() == k,
                forall|t: int| 0 <= t < k ==> statuses@[t] == TxnStatus::ReadyToExecute(0),
                forall|t: int| 0 <= t < k ==> validated@[t] == false,
                forall|t: int| 0 <= t < k ==> waiting_on@[t] is None,
            decreases num_txns - k,
        {
            statuses.push(TxnStatus::ReadyToExecute(0));
            validated.push(false);
            waiting_on.push(None);
            k = k + 1;
        }
        Scheduler {
            num_txns,
            statuses,
            validated,
            waiting_on,
            execution_idx: 0,
            validation_idx: 0,
            commit_idx: 0,
            active_tasks: 0,
            done_marker: false,
        }
    }

    /// Hands out the next task.  The commit wavefront advances as far as it
    /// can; the batch is done once it reaches the end and no handed-out
    /// task is still outstanding.  Otherwise validation
    /// is preferred while it trails execution, else the next ready
    /// transaction is dispatched for execution.  An execute task only ever
    /// targets a transaction that was ready — never a committed one.
    pub fn next_task(&mut self) -> (r: Task)
        requires
            old(self).wf(),
            old(self).active_tasks < usize::MAX,
        ensures
            final(self).wf(),
            final(self).num_txns == old(self).num_txns,
            final(self).validated@ == old(self).validated@,
            final(self).waiting_on@ == old(self).waiting_on@,
            final(self).commit_idx == old(self).commit_target(old(self).commit_idx as int),
            forall|t: int|
                0 <= t < old(self).num_txns ==> final(self).statuses@[t] == (if old(self).commit_idx
                    <= t < final(self).commit_idx {
                    TxnStatus::Committed
                } else if t == task_execute_idx(r) {
                    TxnStatus::Executing(task_execute_inc(r))
                } else {
                    old(self).statuses@[t]
                }),
            task_execute_idx(r) >= 0 ==> old(self).statuses@[task_execute_idx(r)]
                is ReadyToExecute,
            forall|t: int|
                0 <= t < old(self).num_txns && old(self).statuses@[t] == TxnStatus::Committed
                    ==> final(self).statuses@[t] == TxnStatus::Committed && task_execute_idx(r)
                    != t,
            ({
                let target = old(self).commit_target(old(self).commit_idx as int);
                if target == old(self).num_txns && old(self).active_tasks == 0 {
                    &&& r == Task::Done
                    &&& final(self).done_marker
                    &&& final(self).validation_idx == old(self).validation_idx
                    &&& final(self).execution_idx == old(self).execution_idx
                    &&& final(self).active_tasks == old(self).active_tasks
                } else if old(self).validation_idx < old(self).execution_idx {
                    &&& final(self).done_marker == old(self).done_marker
                    &&& final(self).execution_idx == old(self).execution_idx
                    &&& final(self).validation_idx == old(self).validation_idx + 1
                    &&& {
                        let vi = old(self).validation_idx as int;
                        let st = old(self).statuses@[vi];
                        if st is Executed && !old(self).validated@[vi] && !(old(self).commit_idx
                            <= vi < target) {
                            &&& r == Task::Validate(
                                Version {
                                    txn_idx: old(self).validation_idx,
                                    incarnation: inc_of(st),
                                },
                            )
                            &&& final(self).active_tasks == old(self).active_tasks + 1
                        } else {
                            &&& r == Task::NoTask
                            &&& final(self).active_tasks == old(self).active_tasks
                        }
                    }
                } else if old(self).execution_idx < old(self).num_txns {
                    &&& final(self).done_marker == old(self).done_marker
                    &&& final(self).validation_idx == old(self).validation_idx
                    &&& final(self).execution_idx == old(self).execution_idx + 1
                    &&& {
                        let ei = old(self).execution_idx as int;
                        let st = old(self).statuses@[ei];
                        if st is ReadyToExecute && old(self).waiting_on@[ei] is None && !(old(
                            self,
                        ).commit_idx <= ei < target) {
                            &&& r == Task::Execute(
                                Version {
                                    txn_idx: old(self).execution_idx,
                                    incarnation: inc_of(st),
                                },
                            )
                            &&& final(self).active_tasks == old(self).active_tasks + 1
                        } else {
                            &&& r == Task::NoTask
                            &&& final(self).active_tasks == old(self).active_tasks
                        }
                    }
                } else {
                    &&& r == Task::NoTask
                    &&& final(self).done_marker == old(self).done_marker
                    &&& final(self).validation_idx == old(self).validation_idx
                    &&& final(self).execution_idx == old(self).execution_idx
                    &&& final(self).active_tasks == old(self).active_tasks
                }
            }),
    {
        let ghost pre = *self;
        loop
            invariant
                self.num_txns == pre.num_txns,
                self.validated@ == pre.validated@,
                self.waiting_on@ == pre.waiting_on@,
                self.execution_idx == pre.execution_idx,
                self.validation_idx == pre.validation_idx,
                self.active_tasks == pre.active_tasks,
                self.done_marker == pre.done_marker,
                pre.wf(),
                self.statuses@.len() == self.num_txns,
                pre.commit_idx <= self.commit_idx <= self.num_txns,
                forall|t: int|
                    pre.commit_idx <= t < self.commit_idx ==> self.statuses@[t]
                        == TxnStatus::Committed,
                forall|t: int|
                    0 <= t < self.num_txns && !(pre.commit_idx <= t < self.commit_idx)
                        ==> self.statuses@[t] == pre.statuses@[t],
                forall|i: int| 0 <= i < self.commit_idx ==> self.statuses@[i] == TxnStatus::Committed,
                pre.commit_target(pre.commit_idx as int) == pre.commit_target(
                    self.commit_idx as int,
                ),
            ensures
                self.commit_idx == pre.commit_target(pre.commit_idx as int),
            decreases self.num_txns - self.commit_idx,
        {
            if self.commit_idx >= self.num_txns {
                proof {
                    assert(pre.commit_target(self.commit_idx as int) == self.commit_idx as int);
                }
                break;
            }
            let ci = self.commit_idx;
            let committable = match self.statuses[ci] {
                TxnStatus::Executed(_) => self.validated[ci] && self.validation_idx > ci,
                _ => false,
            };
            if !committable {
                proof {
                    assert(self.statuses@[ci as int] == pre.statuses@[ci as int]);
                    assert(!pre.can_commit_at(ci as int));
                    assert(pre.commit_target(ci as int) == ci as int);
                }
                break;
            }
            proof {
                assert(self.statuses@[ci as int] == pre.statuses@[ci as int]);
                assert(pre.can_commit_at(ci as int));
                assert(pre.commit_target(ci as int) == pre.commit_target(ci as int + 1));
            }
            self.statuses[ci] = TxnStatus::Committed;
            self.commit_idx = ci + 1;
        }
        proof {
            assert forall|i: int|
                self.commit_idx <= i < self.num_txns implies self.statuses@[i]
                != TxnStatus::Committed by {
                assert(self.statuses@[i] == pre.statuses@[i]);
            }
        }
        if self.commit_idx == self.num_txns && self.active_tasks == 0 {
            self.done_marker = true;
            return Task::Done;
        }
        if self.validation_idx < self.execution_idx {
            let vi = self.validation_idx;
            self.validation_idx = vi + 1;
            match self.statuses[vi] {
                TxnStatus::Executed(inc) => {
                    if !self.validated[vi] {
                        self.active_tasks = self.active_tasks + 1;
                        return Task::Validate(Version { txn_idx: vi, incarnation: inc });
                    }
                    return Task::NoTask;
                },
                _ => {
                    return Task::NoTask;
                },
            }
        }
        if self.execution_idx < self.num_txns {
            let ei = self.execution_idx;
            self.execution_idx = ei + 1;
            match self.statuses[ei] {
                TxnStatus::ReadyToExecute(inc) => {
                    let free = match self.waiting_on[ei] {
                        Some(_) => false,
                        None => true,
                    };
                    if free {
                        self.statuses[ei] = TxnStatus::Executing(inc);
                        self.active_tasks = self.active_tasks + 1;
                        return Task::Execute(Version { txn_idx: ei, incarnation: inc });
                    }
                    return Task::NoTask;
                },
                _ => {
                    return Task::NoTask;
                },
            }
        }
        Task::NoTask
    }

    /// Clears every suspension on `dep` and pulls the execution index back
    /// to the lowest transaction that was woken, so it is dispatched again.
    fn wake_waiters(&mut self, dep: usize)
        requires
            old(self).wf(),
        ensures
            final(self).wf(),
            final(self).num_txns == old(self).num_txns,
            final(self).statuses@ == old(self).statuses@,
            final(self).validated@ == old(self).validated@,
            final(self).validation_idx == old(self).validation_idx,
            final(self).commit_idx == old(self).commit_idx,
            final(self).active_tasks == old(self).active_tasks,
            final(self).done_marker == old(self).done_marker,
            forall|w: int|
                0 <= w < old(self).num_txns ==> final(self).waiting_on@[w] == (if old(
                    self,
                ).waiting_on@[w] == Some(dep) {
                    Option::<usize>::None
                } else {
                    old(self).waiting_on@[w]
                }),
            final(self).execution_idx == vstd::math::min(
                old(self).execution_idx as int,
                first_waiter_from(old(self).waiting_on@, dep, 0),
            ),
    {
        let ghost pre = *self;
        proof {
            lemma_first_waiter_props(pre.waiting_on@, dep, 0);
        }
        let ghost fw = first_waiter_from(pre.waiting_on@, dep, 0);
        let n = self.num_txns;
        let mut w: usize = 0;
        while w < n
            invariant
                n == self.num_txns,
                w <= n,
                pre.wf(),
                self.num_txns == pre.num_txns,
                self.statuses@ == pre.statuses@,
                self.validated@ == pre.validated@,
                self.validation_idx == pre.validation_idx,
                self.commit_idx == pre.commit_idx,
                self.active_tasks == pre.active_tasks,
                self.done_marker == pre.done_marker,
                self.waiting_on@.len() == n,
                fw == first_waiter_from(pre.waiting_on@, dep, 0),
                0 <= fw <= n,
                fw < n ==> pre.waiting_on@[fw] == Some(dep),
                forall|j: int| 0 <= j < fw ==> pre.waiting_on@[j] != Some(dep),
                forall|i: int|
                    0 <= i < w ==> self.waiting_on@[i] == (if pre.waiting_on@[i] == Some(dep) {
                        Option::<usize>::None
                    } else {
                        pre.waiting_on@[i]
                    }),
                forall|i: int| w <= i < n ==> self.waiting_on@[i] == pre.waiting_on@[i],
                self.execution_idx == (if fw < w {
                    vstd::math::min(pre.execution_idx as int, fw)
                } else {
                    pre.execution_idx as int
                }),
            decreases n - w,
        {
            let hit = match self.waiting_on[w] {
                Some(d) => d == dep,
                None => false,
            };
            proof {
                assert(self.waiting_on@[w as int] == pre.waiting_on@[w as int]);
                if hit && fw >= w {
                    assert(pre.waiting_on@[w as int] == Some(dep));
                    assert(fw <= w);
                    assert(fw == w);
                }
                if !hit && fw == w {
                    assert(pre.waiting_on@[fw] == Some(dep));
                    assert(false);
                }
            }
            if hit {
                self.waiting_on[w] = None;
                if w < self.execution_idx {
                    self.execution_idx = w;
                }
            }
            w = w + 1;
        }
    }

    /// Records that an incarnation finished executing: its status becomes
    /// executed and unvalidated, the validation index is pulled back so it
    /// (and everything after it) is revalidated, and every transaction that
    /// was waiting on this one is woken.
    pub fn finish_execution(&mut self, txn_idx: usize, incarnation: usize)
        requires
            old(self).wf(),
            txn_idx < old(self).num_txns,
            old(self).statuses@[txn_idx as int] == TxnStatus::Executing(incarnation),
            old(self).active_tasks >= 1,
        ensures
            final(self).wf(),
            final(self).num_txns == old(self).num_txns,
            final(self).statuses@ == old(self).statuses@.update(
                txn_idx as int,
                TxnStatus::Executed(incarnation),
            ),
            forall|w: int|
                0 <= w < old(self).num_txns ==> final(self).validated@[w] == (if txn_idx <= w {
                    false
                } else {
                    old(self).validated@[w]
                }),
            final(self).validation_idx == vstd::math::min(
                old(self).validation_idx as int,
                txn_idx as int,
            ),
            final(self).commit_idx == old(self).commit_idx,
            final(self).done_marker == old(self).done_marker,
            final(self).active_tasks == old(self).active_tasks - 1,
            forall|w: int|
                0 <= w < old(self).num_txns ==> final(self).waiting_on@[w] == (if old(
                    self,
                ).waiting_on@[w] == Some(txn_idx) {
                    Option::<usize>::None
                } else {
                    old(self).waiting_on@[w]
                }),
            final(self).execution_idx == vstd::math::min(
                old(self).execution_idx as int,
                first_waiter_from(old(self).waiting_on@, txn_idx, 0),
            ),
    {
        self.statuses[txn_idx] = TxnStatus::Executed(incarnation);
        self.clear_validated_from(txn_idx);
        if txn_idx < self.validation_idx {
            self.validation_idx = txn_idx;
        }
        self.active_tasks = self.active_tasks - 1;
        self.wake_waiters(txn_idx);
    }

    /// Marks this transaction and everything after it as needing
    /// revalidation: their earlier validations may rest on state this
    /// transaction just changed.
    fn clear_validated_from(&mut self, txn_idx: usize)
        requires
            old(self).wf(),
            txn_idx <= old(self).num_txns,
        ensures
            final(self).wf(),
            final(self).num_txns == old(self).num_txns,
            final(self).statuses@ == old(self).statuses@,
            final(self).waiting_on@ == old(self).waiting_on@,
            final(self).execution_idx == old(self).execution_idx,
            final(self).validation_idx == old(self).validation_idx,
            final(self).commit_idx == old(self).commit_idx,
            final(self).active_tasks == old(self).active_tasks,
            final(self).done_marker == old(self).done_marker,
            forall|w: int|
                0 <= w < old(self).num_txns ==> final(self).validated@[w] == (if txn_idx <= w {
                    false
                } else {
                    old(self).validated@[w]
                }),
    {
        let ghost pre = *self;
        let n = self.num_txns;
        let mut w: usize = txn_idx;
        while w < n
            invariant
                n == self.num_txns,
                txn_idx <= w <= n,
                pre.wf(),
                self.num_txns == pre.num_txns,
                self.statuses@ == pre.statuses@,
                self.waiting_on@ == pre.waiting_on@,
                self.execution_idx == pre.execution_idx,
                self.validation_idx == pre.validation_idx,
                self.commit_idx == pre.commit_idx,
                self.active_tasks == pre.active_tasks,
                self.done_marker == pre.done_marker,
                self.validated@.len() == n,
                forall|i: int|
                    0 <= i < n ==> self.validated@[i] == (if txn_idx <= i < w {
                        false
                    } else {
                        pre.validated@[i]
                    }),
            decreases n - w,
        {
            self.validated[w] = false;
            w = w + 1;
        }
    }

    /// Suspends `txn_idx` on `dep_idx` unless the dependency is already
    /// executed or committed: when it is, the caller retries at once; when
    /// it is not, the reader gives up its execution slot and is parked until
    /// the dependency finishes.
    pub fn wait_for_dependency(&mut self, txn_idx: usize, dep_idx: usize, incarnation: usize) -> (r:
        bool)
        requires
            old(self).wf(),
            txn_idx < old(self).num_txns,
            dep_idx < txn_idx,
            old(self).statuses@[txn_idx as int] == TxnStatus::Executing(incarnation),
            old(self).active_tasks >= 1,
        ensures
            final(self).wf(),
            final(self).num_txns == old(self).num_txns,
            r == !(old(self).statuses@[dep_idx as int] is Executed
                || old(self).statuses@[dep_idx as int] is Committed),
            !r ==> *final(self) == *old(self),
            r ==> final(self).statuses@ == old(self).statuses@.update(
                txn_idx as int,
                TxnStatus::ReadyToExecute(incarnation),
            ),
            r ==> final(self).waiting_on@ == old(self).waiting_on@.update(
                txn_idx as int,
                Some(dep_idx),
            ),
            r ==> final(self).active_tasks == old(self).active_tasks - 1,
            r ==> final(self).validated@ == old(self).validated@,
            r ==> final(self).execution_idx == old(self).execution_idx,
            r ==> final(self).validation_idx == old(self).validation_idx,
            r ==> final(self).commit_idx == old(self).commit_idx,
            r ==> final(self).done_marker == old(self).done_marker,
    {
        let resolved = match self.statuses[dep_idx] {
            TxnStatus::Executed(_) => true,
            TxnStatus::Committed => true,
            _ => false,
        };
        if resolved {
            return false;
        }
        self.statuses[txn_idx] = TxnStatus::ReadyToExecute(incarnation);
        self.waiting_on[txn_idx] = Some(dep_idx);
        self.active_tasks = self.active_tasks - 1;
        true
    }

    /// Records the outcome of a validation task.  A success marks the
    /// incarnation validated; a failure leaves the abort to
    /// [`Self::try_abort`].  Either way the task is retired.
    pub fn finish_validation(&mut self, txn_idx: usize, ok: bool)
        requires
            old(self).wf(),
            txn_idx < old(self).num_txns,
            old(self).statuses@[txn_idx as int] is Executed,
            old(self).active_tasks >= 1,
        ensures
            final(self).wf(),
            final(self).num_txns == old(self).num_txns,
            final(self).statuses@ == old(self).statuses@,
            final(self).validated@ == (if ok {
                old(self).validated@.update(txn_idx as int, true)
            } else {
                old(self).validated@
            }),
            final(self).waiting_on@ == old(self).waiting_on@,
            final(self).execution_idx == old(self).execution_idx,
            final(self).validation_idx == old(self).validation_idx,
            final(self).commit_idx == old(self).commit_idx,
            final(self).done_marker == old(self).done_marker,
            final(self).active_tasks == old(self).active_tasks - 1,
    {
        if ok {
            self.validated[txn_idx] = true;
        }
        self.active_tasks = self.active_tasks - 1;
    }

    /// Claims the abort of one incarnation: succeeds exactly when the
    /// incarnation is the one currently executed, so that only a single
    /// aborter proceeds to mark the write set.
    pub fn try_abort(&mut self, txn_idx: usize, incarnation: usize) -> (r: bool)
        requires
            old(self).wf(),
            txn_idx < old(self).num_txns,
        ensures
            final(self).wf(),
            final(self).num_txns == old(self).num_txns,
            r == (old(self).statuses@[txn_idx as int] == TxnStatus::Executed(incarnation)),
            r ==> final(self).statuses@ == old(self).statuses@.update(
                txn_idx as int,
                TxnStatus::Aborting(incarnation),
            ),
            !r ==> final(self).statuses@ == old(self).statuses@,
            final(self).validated@ == old(self).validated@,
            final(self).waiting_on@ == old(self).waiting_on@,
            final(self).execution_idx == old(self).execution_idx,
            final(self).validation_idx == old(self).validation_idx,
            final(self).commit_idx == old(self).commit_idx,
            final(self).done_marker == old(self).done_marker,
            final(self).active_tasks == old(self).active_tasks,
    {
        let claim = match self.statuses[txn_idx] {
            TxnStatus::Executed(i) => i == incarnation,
            _ => false,
        };
        if claim {
            self.statuses[txn_idx] = TxnStatus::Aborting(incarnation);
        }
        claim
    }

    /// Completes an abort once the write set is marked: the next incarnation
    /// becomes ready, validation and execution are pulled back to the
    /// aborted transaction, and its waiters are woken to retry.
    pub fn finish_abort(&mut self, txn_idx: usize, incarnation: usize)
        requires
            old(self).wf(),
            txn_idx < old(self).num_txns,
            old(self).statuses@[txn_idx as int] == TxnStatus::Aborting(incarnation),
            incarnation < usize::MAX,
        ensures
            final(self).wf(),
            final(self).num_txns == old(self).num_txns,
            final(self).statuses@ == old(self).statuses@.update(
                txn_idx as int,
                TxnStatus::ReadyToExecute((incarnation + 1) as usize),
            ),
            forall|w: int|
                0 <= w < old(self).num_txns ==> final(self).validated@[w] == (if txn_idx <= w {
                    false
                } else {
                    old(self).validated@[w]
                }),
            final(self).validation_idx == vstd::math::min(
                old(self).validation_idx as int,
                txn_idx as int,
            ),
            final(self).commit_idx == old(self).commit_idx,
            final(self).done_marker == old(self).done_marker,
            final(self).active_tasks == old(self).active_tasks,
            forall|w: int|
                0 <= w < old(self).num_txns ==> final(self).waiting_on@[w] == (if old(
                    self,
                ).waiting_on@[w] == Some(txn_idx) {
                    Option::<usize>::None
                } else {
                    old(self).waiting_on@[w]
                }),
            final(self).execution_idx == vstd::math::min(
                vstd::math::min(old(self).execution_idx as int, txn_idx as int),
                first_waiter_from(old(self).waiting_on@, txn_idx, 0),
            ),
    {
        self.statuses[txn_idx] = TxnStatus::ReadyToExecute(incarnation + 1);
        self.clear_validated_from(txn_idx);
        if txn_idx < self.validation_idx {
            self.validation_idx = txn_idx;
        }
        if txn_idx < self.execution_idx {
            self.execution_idx = txn_idx;
        }
        self.wake_waiters(txn_idx);
    }
}

} // verus!
