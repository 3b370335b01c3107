//! The task store and the result log: keyed tasks with an atomic
//! scan-and-advance of due tasks, and a bounded history of executions.

use vstd::prelude::*;

use crate::schedule::{compute_next_run, is_instant, next_run_after};
use crate::task::{
    Task,
    TaskError,
    TaskResult,
    advanced,
    execution_record,
    is_due,
    outcome_view,
    scheduled,
    task_ok,
    toggled,
};

verus! {

/// How many execution records the log keeps.
pub const RESULT_CAPACITY: usize = 100;

/// How many records a query returns when it names no limit.
pub const DEFAULT_RESULT_LIMIT: usize = 50;

/// Ids are pairwise distinct.
pub open spec fn ids_unique(s: Seq<Task>) -> bool {
    forall|i: int, j: int| 0 <= i < s.len() && 0 <= j < s.len() && i != j ==> s[i].id@ != s[j].id@
}

/// Some task has this id.
pub open spec fn has_id(s: Seq<Task>, id: Seq<char>) -> bool {
    exists|i: int| 0 <= i < s.len() && s[i].id@ == id
}

/// Ids unique and every task well formed.
pub open spec fn tasks_ok(s: Seq<Task>) -> bool {
    &&& ids_unique(s)
    &&& forall|i: int| 0 <= i < s.len() ==> task_ok(#[trigger] s[i])
}

/// Each task after a scan at `now`: the due ones advanced, the others as they were.
pub open spec fn after_pull(s: Seq<Task>, now: int) -> Seq<Task> {
    s.map_values(|t: Task| if is_due(t, now) { advanced(t, now) } else { t })
}

/// The advanced copies of the tasks due at `now`, in store order.
pub open spec fn pulled(s: Seq<Task>, now: int) -> Seq<Task>
    decreases s.len(),
{
    if s.len() == 0 {
        Seq::empty()
    } else {
        let rest = pulled(s.drop_last(), now);
        if is_due(s.last(), now) {
            rest.push(advanced(s.last(), now))
        } else {
            rest
        }
    }
}

/// The log after one append: the record at the tail, the oldest records
/// dropped beyond the capacity.
pub open spec fn appended(log: Seq<TaskResult>, r: TaskResult) -> Seq<TaskResult> {
    let all = log.push(r);
    if all.len() > RESULT_CAPACITY {
        all.subrange(all.len() - RESULT_CAPACITY, all.len() as int)
    } else {
        all
    }
}

/// The records that a query with `limit` returns: the most recent first.
pub open spec fn newest_first(log: Seq<TaskResult>, limit: int) -> Seq<TaskResult> {
    let n = if limit < log.len() {
        limit
    } else {
        log.len() as int
    };
    Seq::new(n as nat, |i: int| log[log.len() - 1 - i])
}

/// The limit that a query uses.
pub open spec fn limit_or_default(limit: Option<usize>) -> int {
    match limit {
        Some(n) => n as int,
        None => DEFAULT_RESULT_LIMIT as int,
    }
}

/// The tasks and the history of their executions.
pub struct TaskScheduler {
    tasks: Vec<Task>,
    results: Vec<TaskResult>,
}

impl TaskScheduler {
    /// The stored tasks, in no meaningful order.
    pub closed spec fn task_list(&self) -> Seq<Task> {
        self.tasks@
    }

    /// The execution records, oldest first.
    pub closed spec fn result_list(&self) -> Seq<TaskResult> {
        self.results@
    }

    pub open spec fn wf(&self) -> bool {
        &&& tasks_ok(self.task_list())
        &&& self.result_list().len() <= RESULT_CAPACITY
    }

    /// An empty scheduler.
    pub fn new() -> (r: TaskScheduler)
        ensures
            r.wf(),
            r.task_list() == Seq::<Task>::empty(),
            r.result_list() == Seq::<TaskResult>::empty(),
    {
        TaskScheduler { tasks: Vec::new(), results: Vec::new() }
    }

    /// Rebuilds a scheduler from stored tasks, with an empty log. Refuses
    /// records with an invalid schedule, with a next run that does not agree
    /// with the enabled flag, or with an id used twice.
    pub fn from_tasks(tasks: Vec<Task>) -> (r: Result<TaskScheduler, TaskError>)
        ensures
            match r {
                Ok(s) => {
                    &&& s.wf()
                    &&& s.task_list() == tasks@
                    &&& s.result_list() == Seq::<TaskResult>::empty()
                },
                Err(e) => {
                    &&& !tasks_ok(tasks@)
                    &&& e == TaskError::DuplicateId <==> !ids_unique(tasks@)
                },
            },
            r is Ok <==> tasks_ok(tasks@),
    {
        let mut i: usize = 0;
        let mut well_formed = true;
        while i < tasks.len()
            invariant
                0 <= i <= tasks.len(),
                well_formed <==> forall|k: int| 0 <= k < i ==> task_ok(#[trigger] tasks@[k]),
            decreases tasks.len() - i,
        {
            let t = &tasks[i];
            let ok = t.schedule_type.check_valid() && t.enabled == t.next_run.is_some();
            if !ok {
                well_formed = false;
            }
            i = i + 1;
        }
        let mut unique = true;
        let mut i: usize = 0;
        while i < tasks.len()
            invariant
                0 <= i <= tasks.len(),
                unique <==> forall|a: int, b: int|
                    0 <= a < i && 0 <= b < tasks.len() && a != b ==> tasks@[a].id@
                        != tasks@[b].id@,
            decreases tasks.len() - i,
        {
            let mut j: usize = 0;
            while j < tasks.len()
                invariant
                    0 <= i < tasks.len(),
                    0 <= j <= tasks.len(),
                    unique <==> (forall|a: int, b: int|
                        0 <= a < i && 0 <= b < tasks.len() && a != b ==> tasks@[a].id@
                            != tasks@[b].id@) && (forall|b: int|
                        0 <= b < j && i != b ==> tasks@[i as int].id@ != tasks@[b].id@),
                decreases tasks.len() - j,
            {
                if i != j && tasks[i].id == tasks[j].id {
                    unique = false;
                }
                j = j + 1;
            }
            i = i + 1;
        }
        if !unique {
            return Err(TaskError::DuplicateId);
        }
        if !well_formed {
            return Err(TaskError::Validation);
        }
        Ok(TaskScheduler { tasks, results: Vec::new() })
    }

    /// The position of the task with this id.
    fn position(&self, id: &str) -> (r: Option<usize>)
        ensures
            match r {
                Some(i) => i < self.task_list().len() && self.task_list()[i as int].id@ == id@,
                None => !has_id(self.task_list(), id@),
            },
    {
        let key = id.to_owned();
        let mut i: usize = 0;
        while i < self.tasks.len()
            invariant
                0 <= i <= self.tasks.len(),
                key@ == id@,
                forall|k: int| 0 <= k < i ==> self.tasks@[k].id@ != id@,
            decreases self.tasks.len() - i,
        {
            if self.tasks[i].id == key {
                return Some(i);
            }
            i = i + 1;
        }
        None
    }

    /// Arms `task` from `now` (an enabled task gets its next run, a disabled
    /// one none) and stores it. Refuses an invalid schedule, then an id that
    /// is already stored; the store is then unchanged.
    pub fn add_task(&mut self, task: Task, now: i64) -> (r: Result<Task, TaskError>)
        requires
            old(self).wf(),
            is_instant(now as int),
        ensures
            final(self).wf(),
            final(self).result_list() == old(self).result_list(),
            !task.schedule_type.is_valid() ==> r == Err::<Task, TaskError>(TaskError::Validation),
            task.schedule_type.is_valid() && has_id(old(self).task_list(), task.id@) ==> r == Err::<
                Task,
                TaskError,
            >(TaskError::DuplicateId),
            r is Err ==> final(self).task_list() == old(self).task_list(),
            r is Ok <==> task.schedule_type.is_valid() && !has_id(old(self).task_list(), task.id@),
            r is Ok ==> r == Ok::<Task, TaskError>(scheduled(task, now as int))
                && final(self).task_list() == old(self).task_list().push(scheduled(task, now as int)),
    {
        if !task.schedule_type.check_valid() {
            return Err(TaskError::Validation);
        }
        if self.position(task.id.as_str()).is_some() {
            return Err(TaskError::DuplicateId);
        }
        let mut armed = task;
        armed.next_run = if armed.enabled {
            Some(compute_next_run(&armed.schedule_type, now))
        } else {
            None
        };
        let ghost before = self.tasks@;
        self.tasks.push(armed.duplicate());
        proof {
            assert forall|i: int, j: int|
                0 <= i < self.tasks@.len() && 0 <= j < self.tasks@.len() && i != j implies #[trigger] self.tasks@[i].id@
                    != #[trigger] self.tasks@[j].id@ by {
                if i < before.len() && j < before.len() {
                    assert(before[i] == self.tasks@[i]);
                    assert(before[j] == self.tasks@[j]);
                }
            }
            assert forall|i: int| 0 <= i < self.tasks@.len() implies task_ok(#[trigger] self.tasks@[i]) by {
                if i < before.len() {
                    assert(before[i] == self.tasks@[i]);
                }
            }
        }
        Ok(armed)
    }

    /// A snapshot of all stored tasks.
    pub fn get_tasks(&self) -> (r: Vec<Task>)
        ensures
            r@ == self.task_list(),
    {
        let mut out: Vec<Task> = Vec::new();
        let mut i: usize = 0;
        while i < self.tasks.len()
            invariant
                0 <= i <= self.tasks.len(),
                out@ == self.tasks@.subrange(0, i as int),
            decreases self.tasks.len() - i,
        {
            out.push(self.tasks[i].duplicate());
            i = i + 1;
            assert(out@ =~= self.tasks@.subrange(0, i as int));
        }
        assert(out@ =~= self.tasks@);
        out
    }

    /// Removes the task with this id, or reports that none has it and
    /// changes nothing.
    pub fn delete_task(&mut self, id: &str) -> (r: Result<(), TaskError>)
        requires
            old(self).wf(),
        ensures
            final(self).wf(),
            final(self).result_list() == old(self).result_list(),
            r is Ok <==> has_id(old(self).task_list(), id@),
            r is Err ==> r == Err::<(), TaskError>(TaskError::NotFound) && final(self).task_list()
                == old(self).task_list(),
            r is Ok ==> exists|i: int|
                0 <= i < old(self).task_list().len() && #[trigger] old(self).task_list()[i].id@
                    == id@ && final(self).task_list() == old(self).task_list().remove(i),
    {
        match self.position(id) {
            None => Err(TaskError::NotFound),
            Some(i) => {
                let ghost before = self.tasks@;
                self.tasks.remove(i);
                proof {
                    assert forall|a: int, b: int|
                        0 <= a < self.tasks@.len() && 0 <= b < self.tasks@.len() && a != b implies #[trigger] self.tasks@[a].id@
                            != #[trigger] self.tasks@[b].id@ by {
                        let a0 = if a < i { a } else { a + 1 };
                        let b0 = if b < i { b } else { b + 1 };
                        assert(self.tasks@[a] == before[a0]);
                        assert(self.tasks@[b] == before[b0]);
                    }
                    assert forall|a: int| 0 <= a < self.tasks@.len() implies task_ok(#[trigger] self.tasks@[a]) by {
                        let a0 = if a < i { a } else { a + 1 };
                        assert(self.tasks@[a] == before[a0]);
                    }
                    assert(before[i as int].id@ == id@);
                }
                Ok(())
            },
        }
    }

    /// Sets whether the task with this id is enabled. Enabling arms it from
    /// `now`; disabling clears its next run.
    pub fn toggle_task(&mut self, id: &str, enabled: bool, now: i64) -> (r: Result<Task, TaskError>)
        requires
            old(self).wf(),
            is_instant(now as int),
        ensures
            final(self).wf(),
            final(self).result_list() == old(self).result_list(),
            r is Ok <==> has_id(old(self).task_list(), id@),
            r is Err ==> r == Err::<Task, TaskError>(TaskError::NotFound) && final(self).task_list()
                == old(self).task_list(),
            r is Ok ==> exists|i: int|
                0 <= i < old(self).task_list().len() && #[trigger] old(self).task_list()[i].id@
                    == id@ && r == Ok::<Task, TaskError>(
                    toggled(old(self).task_list()[i], enabled, now as int),
                ) && final(self).task_list() == old(self).task_list().update(
                    i,
                    toggled(old(self).task_list()[i], enabled, now as int),
                ),
            r matches Ok(t) ==> {
                &&& t.enabled == enabled
                &&& !enabled ==> t.next_run.is_none()
                &&& enabled ==> (t.next_run matches Some(n) && n > now)
            },
    {
        match self.position(id) {
            None => Err(TaskError::NotFound),
            Some(i) => {
                let ghost before = self.tasks@;
                let mut t = self.tasks[i].duplicate();
                proof {
                    assert(task_ok(before[i as int]));
                }
                t.enabled = enabled;
                t.next_run = if enabled {
                    Some(compute_next_run(&t.schedule_type, now))
                } else {
                    None
                };
                self.tasks.set(i, t.duplicate());
                proof {
                    assert forall|a: int, b: int|
                        0 <= a < self.tasks@.len() && 0 <= b < self.tasks@.len() && a != b implies #[trigger] self.tasks@[a].id@
                            != #[trigger] self.tasks@[b].id@ by {
                        assert(self.tasks@[a].id@ == before[a].id@);
                        assert(self.tasks@[b].id@ == before[b].id@);
                    }
                    assert forall|a: int| 0 <= a < self.tasks@.len() implies task_ok(#[trigger] self.tasks@[a]) by {
                        if a != i {
                            assert(self.tasks@[a] == before[a]);
                        }
                    }
                }
                Ok(t)
            },
        }
    }

    /// Finds the tasks due at `now` and advances each of them in the same
    /// step: it records the run at `now`, counts it, and re-arms the task
    /// from `now`. Returns the advanced copies, in store order.
    pub fn pull_due_tasks(&mut self, now: i64) -> (r: Vec<Task>)
        requires
            old(self).wf(),
            is_instant(now as int),
            forall|i: int|
                0 <= i < old(self).task_list().len() ==> #[trigger] old(self).task_list()[i].run_count
                    < u32::MAX,
        ensures
            final(self).wf(),
            final(self).result_list() == old(self).result_list(),
            final(self).task_list() == after_pull(old(self).task_list(), now as int),
            r@ == pulled(old(self).task_list(), now as int),
    {
        let ghost before = self.tasks@;
        let mut due: Vec<Task> = Vec::new();
        let mut i: usize = 0;
        while i < self.tasks.len()
            invariant
                self.wf(),
                self.results@ == old(self).results@,
                before == old(self).tasks@,
                forall|k: int| 0 <= k < before.len() ==> #[trigger] before[k].run_count < u32::MAX,
                is_instant(now as int),
                0 <= i <= self.tasks@.len(),
                self.tasks@.len() == before.len(),
                forall|k: int|
                    0 <= k < i ==> #[trigger] self.tasks@[k] == after_pull(before, now as int)[k],
                forall|k: int| i <= k < before.len() ==> #[trigger] self.tasks@[k] == before[k],
                due@ == pulled(before.subrange(0, i as int), now as int),
            decreases before.len() - i,
        {
            proof {
                assert(before.subrange(0, i + 1).drop_last() =~= before.subrange(0, i as int));
                assert(task_ok(self.tasks@[i as int]));
            }
            if self.tasks[i].due_at(now) {
                let mut t = self.tasks[i].duplicate();
                t.last_run = Some(now);
                t.run_count = t.run_count + 1;
                t.next_run = Some(compute_next_run(&t.schedule_type, now));
                due.push(t.duplicate());
                let ghost cur = self.tasks@;
                self.tasks.set(i, t);
                proof {
                    assert forall|a: int, b: int|
                        0 <= a < self.tasks@.len() && 0 <= b < self.tasks@.len() && a != b implies #[trigger] self.tasks@[a].id@
                            != #[trigger] self.tasks@[b].id@ by {
                        assert(self.tasks@[a].id@ == cur[a].id@);
                        assert(self.tasks@[b].id@ == cur[b].id@);
                    }
                    assert forall|a: int| 0 <= a < self.tasks@.len() implies task_ok(#[trigger] self.tasks@[a]) by {
                        if a != i {
                            assert(self.tasks@[a] == cur[a]);
                        }
                    }
                }
            }
            i = i + 1;
        }
        proof {
            assert(before.subrange(0, before.len() as int) =~= before);
            assert(self.tasks@ =~= after_pull(before, now as int));
        }
        due
    }

    /// Appends an execution record; beyond the capacity the oldest records
    /// leave, in insertion order.
    pub fn add_result(&mut self, result: TaskResult)
        requires
            old(self).wf(),
        ensures
            final(self).wf(),
            final(self).task_list() == old(self).task_list(),
            final(self).result_list() == appended(old(self).result_list(), result),
    {
        let ghost before = self.results@;
        if self.results.len() >= RESULT_CAPACITY {
            self.results.remove(0);
        }
        self.results.push(result);
        assert(self.results@ =~= appended(before, result));
    }

    /// Up to `limit` records (50 when no limit is given), the most recent first.
    pub fn get_results(&self, limit: Option<usize>) -> (r: Vec<TaskResult>)
        ensures
            r@ == newest_first(self.result_list(), limit_or_default(limit)),
    {
        let n: usize = match limit {
            Some(n) => n,
            None => DEFAULT_RESULT_LIMIT,
        };
        let len = self.results.len();
        let count: usize = if n < len {
            n
        } else {
            len
        };
        let mut out: Vec<TaskResult> = Vec::new();
        let mut i: usize = 0;
        while i < count
            invariant
                0 <= i <= count,
                count <= len,
                len == self.results@.len(),
                out@.len() == i,
                forall|k: int| 0 <= k < i ==> #[trigger] out@[k] == self.results@[len - 1 - k],
            decreases count - i,
        {
            out.push(self.results[len - 1 - i].duplicate());
            i = i + 1;
        }
        assert(out@ =~= newest_first(self.results@, n as int));
        out
    }

    /// Records the outcome of one execution of `task` at `executed_at` with
    /// the rendered `prompt`: the executor's response, or its failure.
    pub fn record_execution(
        &mut self,
        task: &Task,
        executed_at: i64,
        prompt: String,
        outcome: Result<String, String>,
    )
        requires
            old(self).wf(),
        ensures
            final(self).wf(),
            final(self).task_list() == old(self).task_list(),
            exists|rec: TaskResult|
                #[trigger] execution_record(
                    rec,
                    *task,
                    executed_at as int,
                    prompt@,
                    outcome_view(outcome),
                ) && final(self).result_list() == appended(old(self).result_list(), rec),
    {
        let rec = TaskResult::from_outcome(task, executed_at, prompt, outcome);
        self.add_result(rec);
    }
}

/// The log after appending each of `items` in turn.
pub open spec fn appended_all(log: Seq<TaskResult>, items: Seq<TaskResult>) -> Seq<TaskResult>
    decreases items.len(),
{
    if items.len() == 0 {
        log
    } else {
        appended(appended_all(log, items.drop_last()), items.last())
    }
}

/// The last `RESULT_CAPACITY` elements of `s`, or all of them when fewer.
pub open spec fn latest(s: Seq<TaskResult>) -> Seq<TaskResult> {
    if s.len() > RESULT_CAPACITY {
        s.subrange(s.len() - RESULT_CAPACITY, s.len() as int)
    } else {
        s
    }
}

/// After a scan at `now`, no task is due at `now` any more: a second scan at
/// the same instant, by the same caller or another, finds nothing.
pub proof fn lemma_pull_due_once_per_instant(s: Seq<Task>, now: int)
    requires
        tasks_ok(s),
        is_instant(now),
    ensures
        forall|i: int| 0 <= i < s.len() ==> !is_due(#[trigger] after_pull(s, now)[i], now),
        pulled(after_pull(s, now), now) == Seq::<Task>::empty(),
{
    assert forall|i: int| 0 <= i < s.len() implies !is_due(#[trigger] after_pull(s, now)[i], now) by {
        assert(task_ok(s[i]));
        if is_due(s[i], now) {
            crate::schedule::lemma_next_run_after_later(s[i].schedule_type, now);
        }
    }
    lemma_pulled_none_due(after_pull(s, now), now);
}

/// A scan over tasks none of which is due returns nothing.
proof fn lemma_pulled_none_due(s: Seq<Task>, now: int)
    requires
        forall|i: int| 0 <= i < s.len() ==> !is_due(#[trigger] s[i], now),
    ensures
        pulled(s, now) == Seq::<Task>::empty(),
    decreases s.len(),
{
    if s.len() > 0 {
        assert(!is_due(s[s.len() - 1], now));
        assert forall|i: int| 0 <= i < s.drop_last().len() implies !is_due(
            #[trigger] s.drop_last()[i],
            now,
        ) by {
            assert(s.drop_last()[i] == s[i]);
        }
        lemma_pulled_none_due(s.drop_last(), now);
    }
}

/// An interval task that fires at `now` is not due again before one full
/// period has passed, and is due when it has: a clock that moves in whole
/// periods sees one firing per period, none skipped and none repeated.
pub proof fn lemma_interval_fires_once_per_period(t: Task, now: int, minutes: u32)
    requires
        task_ok(t),
        t.schedule_type == (crate::schedule::ScheduleType::Interval { minutes }),
        is_due(t, now),
        is_instant(now),
    ensures
        forall|x: int| x < now + minutes * 60 ==> !is_due(#[trigger] advanced(t, now), x),
        is_due(advanced(t, now), now + minutes * 60),
        advanced(t, now).last_run == Some(now as i64),
        advanced(t, now).next_run == Some((now + minutes * 60) as i64),
{
}

/// Appending records one by one to a log keeps the most recent
/// `RESULT_CAPACITY` of all records seen, in insertion order.
pub proof fn lemma_log_keeps_latest(log: Seq<TaskResult>, items: Seq<TaskResult>)
    requires
        log.len() <= RESULT_CAPACITY,
    ensures
        appended_all(log, items) == latest(log + items),
        appended_all(log, items).len() <= RESULT_CAPACITY,
    decreases items.len(),
{
    if items.len() > 0 {
        lemma_log_keeps_latest(log, items.drop_last());
        let prev = log + items.drop_last();
        assert(log + items =~= prev.push(items.last()));
        let l = latest(prev);
        let all = prev.push(items.last());
        if prev.len() > RESULT_CAPACITY {
            assert(appended(l, items.last()) =~= latest(all));
        } else {
            assert(appended(l, items.last()) =~= latest(all));
        }
    }
}

} // verus!
