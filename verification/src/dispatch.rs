//! The dispatcher's per-tick decisions: expire overdue pending items
//! ("exact time or never"), select at most one due candidate per second
//! under the arbiter's total order, and record the outcome of one
//! execution with exactly-once bookkeeping.
//!
//! The embedding program drives the loop: each second it calls
//! [`SimpleAutomationManager::expire_overdue`], then
//! [`SimpleAutomationManager::select_due`] (both do nothing while the
//! global automation switch is off, so an off switch silences the whole
//! tick); when a candidate comes back
//! it resolves the credential, performs the delivery outside any lock,
//! and hands the outcome to
//! [`SimpleAutomationManager::record_execution`].  At most one
//! execution log entry can arise per tick because at most one candidate
//! is ever selected.

use vstd::prelude::*;
use crate::model::{AutomationTask, PlannedItem, TaskExecutionLog, ItemStatus};
use crate::manager::SimpleAutomationManager;
use crate::plan::{spec_find_task, find_task_index};
use crate::arbiter::{
    CpV, cp_lt, spec_candidate_priority, compute_priority, precedes,
    lemma_priority_order_transitive,
};

verus! {

/// Whether a pending item is overdue at `now`: its scheduled instant is
/// more than one second in the past, so it will never execute.
pub open spec fn overdue(p: PlannedItem, now: i64) -> bool {
    p.status is Pending && p.scheduled_at < now - 1
}

/// Whether `n` is `o` marked skipped, everything else kept (and never
/// executed: the execution stamp stays as it was).
pub open spec fn skipped_version(n: PlannedItem, o: PlannedItem) -> bool {
    &&& n.id == o.id
    &&& n.task_id == o.task_id
    &&& n.date == o.date
    &&& n.time == o.time
    &&& n.position == o.position
    &&& n.status is Skipped
    &&& n.created_at == o.created_at
    &&& n.executed_at == o.executed_at
    &&& n.scheduled_at == o.scheduled_at
    &&& n.scheduled_end_at == o.scheduled_end_at
    &&& n.duration_sec == o.duration_sec
}

impl SimpleAutomationManager {
    /// The housekeeping pass: every pending planned item whose scheduled
    /// instant is more than one second in the past is marked skipped,
    /// without ever being executed.  The scheduler does not catch up on
    /// missed occurrences.  When the global automation switch is off the
    /// pass does nothing, like the rest of the tick.
    pub fn expire_overdue(&mut self, now: i64)
        requires
            old(self).wf(),
        ensures
            final(self).wf(),
            final(self).tasks == old(self).tasks,
            final(self).logs == old(self).logs,
            final(self).api_keys == old(self).api_keys,
            final(self).automation_enabled == old(self).automation_enabled,
            final(self).planning_inflight == old(self).planning_inflight,
            !old(self).automation_enabled ==> final(self).planned == old(self).planned,
            final(self).planned@.len() == old(self).planned@.len(),
            old(self).automation_enabled ==> forall|i: int|
                0 <= i < old(self).planned@.len() ==> {
                    if overdue(#[trigger] old(self).planned@[i], now) {
                        skipped_version(final(self).planned@[i], old(self).planned@[i])
                    } else {
                        final(self).planned@[i] == old(self).planned@[i]
                    }
                },
    {
        if !self.automation_enabled {
            return ;
        }
        let n = self.planned.len();
        let mut i: usize = 0;
        while i < n
            invariant
                old(self).wf(),
                self.tasks == old(self).tasks,
                self.logs == old(self).logs,
                self.api_keys == old(self).api_keys,
                self.automation_enabled == old(self).automation_enabled,
                self.planning_inflight == old(self).planning_inflight,
                n == self.planned@.len(),
                n == old(self).planned@.len(),
                i <= n,
                forall|k: int|
                    0 <= k < i ==> {
                        if overdue(#[trigger] old(self).planned@[k], now) {
                            skipped_version(self.planned@[k], old(self).planned@[k])
                        } else {
                            self.planned@[k] == old(self).planned@[k]
                        }
                    },
                forall|k: int| i <= k < n ==> self.planned@[k] == old(self).planned@[k],
            decreases n - i,
        {
            let is_pending = matches!(self.planned[i].status, ItemStatus::Pending);
            let late = now != i64::MIN && self.planned[i].scheduled_at < now - 1;
            if is_pending && late {
                self.planned[i].status = ItemStatus::Skipped;
            } else {
                proof {
                    if now == i64::MIN {
                        assert(!(old(self).planned@[i as int].scheduled_at < now - 1));
                    }
                }
            }
            i = i + 1;
        }
    }

    /// Whether the planned item at index `i` is due at `now`: pending,
    /// scheduled exactly at this second, and owned by a currently
    /// enabled task.
    pub open spec fn due_at(&self, i: int, now: i64) -> bool {
        &&& 0 <= i < self.planned@.len()
        &&& self.planned@[i].status is Pending
        &&& self.planned@[i].scheduled_at == now
        &&& match spec_find_task(self.tasks@, self.planned@[i].task_id@) {
            Some(t) => t.enabled,
            None => false,
        }
    }

    /// The arbiter key of the task owning the planned item at index `i`.
    pub open spec fn due_key(&self, i: int) -> CpV {
        spec_candidate_priority(
            spec_find_task(self.tasks@, self.planned@[i].task_id@)->Some_0,
            true,
        )
    }

    /// Selects the one planned item to execute this second: among the
    /// items due at `now`, the first by the arbiter's total order (its
    /// final tiebreak is the task id).  Nothing is selected when the
    /// global automation switch is off, so at most one execution can
    /// start per second.
    pub fn select_due(&self, now: i64) -> (r: Option<usize>)
        requires
            self.wf(),
        ensures
            match r {
                None => !self.automation_enabled || forall|j: int| !self.due_at(j, now),
                Some(i) => self.automation_enabled && self.due_at(i as int, now) && (forall|j: int|
                    self.due_at(j, now) ==> !cp_lt(self.due_key(j), self.due_key(i as int))) && (
                forall|j: int|
                    self.due_at(j, now) && self.due_key(j) == self.due_key(i as int) ==> i <= j),
            },
    {
        if !self.automation_enabled {
            return None;
        }
        let n = self.planned.len();
        let mut best: Option<usize> = None;
        let mut best_key: Option<crate::arbiter::CandidatePriority> = None;
        let mut i: usize = 0;
        while i < n
            invariant
                self.wf(),
                n == self.planned@.len(),
                i <= n,
                best is Some <==> best_key is Some,
                best is None ==> forall|j: int| 0 <= j < i ==> !self.due_at(j, now),
                best matches Some(b) ==> b < i,
                best matches Some(b) ==> self.due_at(b as int, now),
                best matches Some(b) ==> best_key matches Some(k) && k@ == self.due_key(b as int),
                best matches Some(b) ==> forall|j: int|
                    0 <= j < i && self.due_at(j, now) ==> !cp_lt(
                        self.due_key(j),
                        self.due_key(b as int),
                    ),
                best matches Some(b) ==> forall|j: int|
                    0 <= j < i && self.due_at(j, now) && self.due_key(j) == self.due_key(b as int)
                        ==> b <= j,
            decreases n - i,
        {
            let p = &self.planned[i];
            let is_pending = matches!(p.status, ItemStatus::Pending);
            if is_pending && p.scheduled_at == now {
                match find_task_index(&self.tasks, p.task_id.as_str()) {
                    Some(ti) => {
                        if self.tasks[ti].enabled {
                            proof {
                                assert(self.due_at(i as int, now));
                            }
                            let key = compute_priority(&self.tasks[ti], true);
                            proof {
                                assert(key@ == self.due_key(i as int));
                            }
                            let replace = match &best_key {
                                Some(bk) => precedes(&key, bk),
                                None => true,
                            };
                            if replace {
                                proof {
                                    crate::arbiter::lemma_priority_order_strict(
                                        self.due_key(i as int),
                                        self.due_key(i as int),
                                    );
                                    if best is Some {
                                        let b = best->Some_0 as int;
                                        assert(cp_lt(self.due_key(i as int), self.due_key(b)));
                                        assert forall|j: int|
                                            0 <= j < i && self.due_at(j, now) implies !cp_lt(
                                            self.due_key(j),
                                            self.due_key(i as int),
                                        ) by {
                                            if cp_lt(self.due_key(j), self.due_key(i as int)) {
                                                lemma_priority_order_transitive(
                                                    self.due_key(j),
                                                    self.due_key(i as int),
                                                    self.due_key(b),
                                                );
                                            }
                                        }
                                        assert forall|j: int|
                                            0 <= j < i && self.due_at(j, now) && self.due_key(j)
                                                == self.due_key(i as int) implies i as int <= j by {
                                            assert(cp_lt(self.due_key(j), self.due_key(b)));
                                        }
                                    }
                                }
                                best = Some(i);
                                best_key = Some(key);
                            } else {
                                proof {
                                    let b = best->Some_0 as int;
                                    assert(!cp_lt(self.due_key(i as int), self.due_key(b)));
                                }
                            }
                        } else {
                            proof {
                                assert(!self.due_at(i as int, now));
                            }
                        }
                    },
                    None => {
                        proof {
                            assert(!self.due_at(i as int, now));
                        }
                    },
                }
            } else {
                proof {
                    assert(!self.due_at(i as int, now));
                }
            }
            i = i + 1;
        }
        proof {
            if best is Some {
                let b = best->Some_0 as int;
                assert forall|j: int| self.due_at(j, now) implies !cp_lt(
                    self.due_key(j),
                    self.due_key(b),
                ) by {}
            }
        }
        best
    }

    /// Whether `n` is `o` with the outcome of one execution recorded:
    /// done on success, skipped on failure, stamped with the execution
    /// instant.
    pub open spec fn executed_version(
        n: PlannedItem,
        o: PlannedItem,
        now: i64,
        success: bool,
    ) -> bool {
        &&& n.id == o.id
        &&& n.task_id == o.task_id
        &&& n.date == o.date
        &&& n.time == o.time
        &&& n.position == o.position
        &&& n.status == (if success {
            ItemStatus::Done
        } else {
            ItemStatus::Skipped
        })
        &&& n.created_at == o.created_at
        &&& n.executed_at == Some(now)
        &&& n.scheduled_at == o.scheduled_at
        &&& n.scheduled_end_at == o.scheduled_end_at
        &&& n.duration_sec == o.duration_sec
    }

    /// Whether `n` is `o` with one attempt's bookkeeping: the run count
    /// up by one (saturating), the error count up by one on failure, the
    /// last-run stamp set, and — the one-shot rule — the fixed instant
    /// cleared so the task never fires again.
    pub open spec fn booked_version(
        n: AutomationTask,
        o: AutomationTask,
        now: i64,
        success: bool,
    ) -> bool {
        &&& n.id == o.id
        &&& n.name == o.name
        &&& n.task_type == o.task_type
        &&& n.enabled == o.enabled
        &&& n.schedule == o.schedule
        &&& n.device_ids == o.device_ids
        &&& n.config == o.config
        &&& n.last_run == Some(now)
        &&& n.next_run == o.next_run
        &&& n.run_count == (if o.run_count < u64::MAX {
            (o.run_count + 1) as u64
        } else {
            o.run_count
        })
        &&& n.error_count == (if success {
            o.error_count
        } else if o.error_count < u64::MAX {
            (o.error_count + 1) as u64
        } else {
            o.error_count
        })
        &&& n.created_at == o.created_at
        &&& n.updated_at == o.updated_at
        &&& n.fixed_at is None
        &&& n.interval_sec == o.interval_sec
        &&& n.priority == o.priority
        &&& n.duration_sec == o.duration_sec
    }

    /// The log entry recorded for one attempt.
    pub open spec fn logged_entry(
        l: TaskExecutionLog,
        log_id: String,
        task_id: Seq<char>,
        now: i64,
        success: bool,
        error_message: Option<String>,
        duration_ms: u64,
    ) -> bool {
        &&& l.id == log_id
        &&& l.task_id@ == task_id
        &&& l.executed_at == now
        &&& l.success == success
        &&& l.error_message == error_message
        &&& l.duration_ms == duration_ms
    }

    /// Records the outcome of one execution of the planned item at
    /// `idx`: exactly one log entry is appended (the store keeps the
    /// most recent 100), the item is marked done or skipped with its
    /// execution stamp, and the owning task's stats are updated — a
    /// one-shot fixed instant is cleared so the task never fires again.
    /// An index outside the queue is rejected and changes nothing.
    pub fn record_execution(
        &mut self,
        idx: usize,
        log_id: String,
        now: i64,
        success: bool,
        error_message: Option<String>,
        duration_ms: u64,
    ) -> (r: Result<(), String>)
        requires
            old(self).wf(),
        ensures
            final(self).wf(),
            final(self).api_keys == old(self).api_keys,
            final(self).automation_enabled == old(self).automation_enabled,
            final(self).planning_inflight == old(self).planning_inflight,
            r is Err <==> idx >= old(self).planned@.len(),
            r is Err ==> *final(self) == *old(self),
            r is Ok ==> {
                let item = old(self).planned@[idx as int];
                // exactly one new log entry, the store cut to the most
                // recent 100
                &&& final(self).logs@.len() == (if old(self).logs@.len() + 1 <= 100 {
                    old(self).logs@.len() + 1
                } else {
                    100nat
                })
                &&& Self::logged_entry(
                    final(self).logs@.last(),
                    log_id,
                    item.task_id@,
                    now,
                    success,
                    error_message,
                    duration_ms,
                )
                &&& final(self).logs@ == (old(self).logs@.push(final(self).logs@.last())).skip(
                    old(self).logs@.len() + 1 - final(self).logs@.len(),
                )
                // the planned item records the outcome exactly once
                &&& final(self).planned@.len() == old(self).planned@.len()
                &&& Self::executed_version(final(self).planned@[idx as int], item, now, success)
                &&& (forall|k: int|
                    0 <= k < old(self).planned@.len() && k != idx ==> final(self).planned@[k]
                        == old(self).planned@[k])
                // the owning task's bookkeeping
                &&& (match spec_find_task(old(self).tasks@, item.task_id@) {
                    Some(t) => exists|j: int|
                        0 <= j < old(self).tasks@.len() && old(self).tasks@[j] == t
                            && Self::booked_version(
                            #[trigger] final(self).tasks@[j],
                            t,
                            now,
                            success,
                        ) && (forall|k: int|
                            0 <= k < old(self).tasks@.len() && k != j
                                ==> final(self).tasks@[k] == old(self).tasks@[k]),
                    None => final(self).tasks == old(self).tasks,
                })
            },
    {
        if idx >= self.planned.len() {
            return Err(String::from_str("no such planned item"));
        }
        // mark the planned item
        let outcome = if success {
            ItemStatus::Done
        } else {
            ItemStatus::Skipped
        };
        self.planned[idx].status = outcome;
        self.planned[idx].executed_at = Some(now);
        // task bookkeeping
        match find_task_index(&self.tasks, self.planned[idx].task_id.as_str()) {
            Some(j) => {
                proof {
                    assert(old(self).tasks@[j as int] == self.tasks@[j as int]);
                }
                self.tasks[j].last_run = Some(now);
                if self.tasks[j].run_count < u64::MAX {
                    let rc = self.tasks[j].run_count;
                    self.tasks[j].run_count = rc + 1;
                }
                if !success {
                    if self.tasks[j].error_count < u64::MAX {
                        let ec = self.tasks[j].error_count;
                        self.tasks[j].error_count = ec + 1;
                    }
                }
                self.tasks[j].fixed_at = None;
                proof {
                    assert forall|a: int, b: int|
                        0 <= a < b < self.tasks@.len() implies (#[trigger] self.tasks@[a]).id@ != (
                    #[trigger] self.tasks@[b]).id@ by {
                        assert(self.tasks@[a].id@ == old(self).tasks@[a].id@);
                        assert(self.tasks@[b].id@ == old(self).tasks@[b].id@);
                    }
                }
            },
            None => {},
        }
        // the log entry, bounded to the most recent 100
        let entry = TaskExecutionLog {
            id: log_id,
            task_id: self.planned[idx].task_id.clone(),
            executed_at: now,
            success,
            error_message,
            duration_ms,
        };
        let ghost pushed = self.logs@.push(entry);
        self.logs.push(entry);
        let ghost snap = *self;
        while self.logs.len() > 100
            invariant
                self.tasks == snap.tasks,
                self.api_keys == snap.api_keys,
                self.automation_enabled == snap.automation_enabled,
                self.planning_inflight == snap.planning_inflight,
                self.planned == snap.planned,
                pushed.len() >= self.logs@.len(),
                self.logs@ == pushed.skip(pushed.len() - self.logs@.len()),
                self.logs@.len() >= 1,
                self.logs@.len() >= 100 || self.logs@.len() == pushed.len(),
            decreases self.logs@.len(),
        {
            let ghost before = self.logs@;
            self.logs.remove(0);
            proof {
                assert(self.logs@ =~= before.drop_first());
                assert(before.drop_first() =~= pushed.skip(pushed.len() - before.len() + 1));
            }
        }
        proof {
            assert(self.logs@.last() == pushed.last());
            assert(Self::logged_entry(
                self.logs@.last(),
                log_id,
                old(self).planned@[idx as int].task_id@,
                now,
                success,
                error_message,
                duration_ms,
            ));
            let item = old(self).planned@[idx as int];
            match spec_find_task(old(self).tasks@, item.task_id@) {
                Some(t) => {
                    let j = choose|j: int|
                        0 <= j < old(self).tasks@.len() && old(self).tasks@[j] == t
                            && #[trigger] old(self).tasks@[j].id@ == t.id@;
                },
                None => {},
            }
        }
        Ok(())
    }

    /// Whether no pending planned item of the date remains: the day's
    /// plan is complete and the embedding program may announce it.
    pub fn day_plan_complete(&self, date: &str) -> (r: bool)
        ensures
            r == forall|i: int|
                0 <= i < self.planned@.len() && (#[trigger] self.planned@[i]).date@ == date@
                    ==> !(self.planned@[i].status is Pending),
    {
        let n = self.planned.len();
        let mut i: usize = 0;
        while i < n
            invariant
                n == self.planned@.len(),
                i <= n,
                forall|k: int|
                    0 <= k < i && (#[trigger] self.planned@[k]).date@ == date@ ==> !(
                    self.planned@[k].status is Pending),
            decreases n - i,
        {
            let is_pending = matches!(self.planned[i].status, ItemStatus::Pending);
            if is_pending && crate::strutil::str_eq(self.planned[i].date.as_str(), date) {
                return false;
            }
            i = i + 1;
        }
        true
    }
}

impl SimpleAutomationManager {
    /// At most one candidate can win a tick: any two indices that both
    /// satisfy the selection contract are the same index, so at most one
    /// execution — and so at most one log entry — can arise per second.
    pub proof fn lemma_selection_unique(&self, now: i64, i1: int, i2: int)
        requires
            self.due_at(i1, now),
            self.due_at(i2, now),
            forall|j: int| self.due_at(j, now) ==> !cp_lt(self.due_key(j), self.due_key(i1)),
            forall|j: int|
                self.due_at(j, now) && self.due_key(j) == self.due_key(i1) ==> i1 <= j,
            forall|j: int| self.due_at(j, now) ==> !cp_lt(self.due_key(j), self.due_key(i2)),
            forall|j: int|
                self.due_at(j, now) && self.due_key(j) == self.due_key(i2) ==> i2 <= j,
        ensures
            i1 == i2,
    {
        crate::arbiter::lemma_priority_order_total(self.due_key(i1), self.due_key(i2));
        assert(!cp_lt(self.due_key(i1), self.due_key(i2)));
        assert(!cp_lt(self.due_key(i2), self.due_key(i1)));
        assert(self.due_key(i1) == self.due_key(i2));
        assert(i1 <= i2 && i2 <= i1);
    }
}

impl SimpleAutomationManager {
    /// Whether `n` is `o` with one manual attempt's bookkeeping: as
    /// [`Self::booked_version`], except that the fixed instant is kept —
    /// a manual run bypasses the plan, so the one-shot rule does not
    /// apply.
    pub open spec fn manually_booked_version(
        n: AutomationTask,
        o: AutomationTask,
        now: i64,
        success: bool,
    ) -> bool {
        &&& n.id == o.id
        &&& n.name == o.name
        &&& n.task_type == o.task_type
        &&& n.enabled == o.enabled
        &&& n.schedule == o.schedule
        &&& n.device_ids == o.device_ids
        &&& n.config == o.config
        &&& n.last_run == Some(now)
        &&& n.next_run == o.next_run
        &&& n.run_count == (if o.run_count < u64::MAX {
            (o.run_count + 1) as u64
        } else {
            o.run_count
        })
        &&& n.error_count == (if success {
            o.error_count
        } else if o.error_count < u64::MAX {
            (o.error_count + 1) as u64
        } else {
            o.error_count
        })
        &&& n.created_at == o.created_at
        &&& n.updated_at == o.updated_at
        &&& n.fixed_at == o.fixed_at
        &&& n.interval_sec == o.interval_sec
        &&& n.priority == o.priority
        &&& n.duration_sec == o.duration_sec
    }

    /// Records the outcome of one manual, plan-bypassing execution:
    /// exactly one log entry is appended (the store keeps the most
    /// recent 100) and the task's stats are updated; the planned queue
    /// is untouched.  A missing task id changes only the log.
    pub fn record_manual_execution(
        &mut self,
        task_id: &str,
        log_id: String,
        now: i64,
        success: bool,
        error_message: Option<String>,
        duration_ms: u64,
    ) -> (r: Result<(), String>)
        requires
            old(self).wf(),
        ensures
            r is Ok,
            final(self).wf(),
            final(self).api_keys == old(self).api_keys,
            final(self).automation_enabled == old(self).automation_enabled,
            final(self).planning_inflight == old(self).planning_inflight,
            final(self).planned == old(self).planned,
            final(self).logs@.len() == (if old(self).logs@.len() + 1 <= 100 {
                old(self).logs@.len() + 1
            } else {
                100nat
            }),
            Self::logged_entry(
                final(self).logs@.last(),
                log_id,
                task_id@,
                now,
                success,
                error_message,
                duration_ms,
            ),
            final(self).logs@ == (old(self).logs@.push(final(self).logs@.last())).skip(
                old(self).logs@.len() + 1 - final(self).logs@.len(),
            ),
            (match spec_find_task(old(self).tasks@, task_id@) {
                Some(t) => exists|j: int|
                    0 <= j < old(self).tasks@.len() && old(self).tasks@[j] == t
                        && Self::manually_booked_version(
                        #[trigger] final(self).tasks@[j],
                        t,
                        now,
                        success,
                    ) && (forall|k: int|
                        0 <= k < old(self).tasks@.len() && k != j ==> final(self).tasks@[k]
                            == old(self).tasks@[k]),
                None => final(self).tasks == old(self).tasks,
            }),
    {
        match find_task_index(&self.tasks, task_id) {
            Some(j) => {
                self.tasks[j].last_run = Some(now);
                if self.tasks[j].run_count < u64::MAX {
                    let rc = self.tasks[j].run_count;
                    self.tasks[j].run_count = rc + 1;
                }
                if !success {
                    if self.tasks[j].error_count < u64::MAX {
                        let ec = self.tasks[j].error_count;
                        self.tasks[j].error_count = ec + 1;
                    }
                }
                proof {
                    assert forall|a: int, b: int|
                        0 <= a < b < self.tasks@.len() implies (#[trigger] self.tasks@[a]).id@ != (
                    #[trigger] self.tasks@[b]).id@ by {
                        assert(self.tasks@[a].id@ == old(self).tasks@[a].id@);
                        assert(self.tasks@[b].id@ == old(self).tasks@[b].id@);
                    }
                }
            },
            None => {},
        }
        let entry = TaskExecutionLog {
            id: log_id,
            task_id: String::from_str(task_id),
            executed_at: now,
            success,
            error_message,
            duration_ms,
        };
        let ghost pushed = self.logs@.push(entry);
        self.logs.push(entry);
        let ghost snap = *self;
        while self.logs.len() > 100
            invariant
                self.tasks == snap.tasks,
                self.api_keys == snap.api_keys,
                self.automation_enabled == snap.automation_enabled,
                self.planning_inflight == snap.planning_inflight,
                self.planned == snap.planned,
                pushed.len() >= self.logs@.len(),
                self.logs@ == pushed.skip(pushed.len() - self.logs@.len()),
                self.logs@.len() >= 1,
                self.logs@.len() >= 100 || self.logs@.len() == pushed.len(),
            decreases self.logs@.len(),
        {
            let ghost before = self.logs@;
            self.logs.remove(0);
            proof {
                assert(self.logs@ =~= before.drop_first());
                assert(before.drop_first() =~= pushed.skip(pushed.len() - before.len() + 1));
            }
        }
        proof {
            assert(self.logs@.last() == pushed.last());
        }
        Ok(())
    }
}

} // verus!
