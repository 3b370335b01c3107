//! Task records, execution records, and the errors of the scheduler's operations.

use vstd::prelude::*;

use crate::schedule::{ScheduleType, next_run_after};

verus! {

/// A recurring job: which agent to ask, what to ask it, and when.
///
/// Times are seconds since the Unix epoch (UTC).
#[derive(Clone, Debug)]
pub struct Task {
    pub id: String,
    pub name: String,
    pub agent_id: String,
    pub prompt_template: String,
    pub schedule_type: ScheduleType,
    pub enabled: bool,
    pub created_at: i64,
    pub last_run: Option<i64>,
    pub next_run: Option<i64>,
    pub run_count: u32,
}

/// One execution of a task, as recorded in the result log.
#[derive(Clone, Debug)]
pub struct TaskResult {
    pub task_id: String,
    pub task_name: String,
    pub agent_name: String,
    pub executed_at: i64,
    pub prompt: String,
    pub response: String,
    pub success: bool,
    pub error: Option<String>,
}

/// Why an operation on the scheduler was refused.
#[derive(Clone, Copy, Debug, PartialEq, Eq, Structural)]
pub enum TaskError {
    /// A schedule field is out of range, or a stored record breaks the rules
    /// of a task.
    Validation,
    /// No task has the given id.
    NotFound,
    /// A task with the same id is already stored.
    DuplicateId,
}

/// A stored task keeps a valid schedule, and has a next run exactly when it
/// is enabled.
pub open spec fn task_ok(t: Task) -> bool {
    &&& t.schedule_type.is_valid()
    &&& t.enabled <==> t.next_run.is_some()
}

/// A task is due at `now` when it is enabled and its next run is not after `now`.
pub open spec fn is_due(t: Task, now: int) -> bool {
    &&& t.enabled
    &&& t.next_run matches Some(n) && n <= now
}

/// The task after it fired at `now`.
pub open spec fn advanced(t: Task, now: int) -> Task {
    Task {
        last_run: Some(now as i64),
        run_count: (t.run_count + 1) as u32,
        next_run: Some(next_run_after(t.schedule_type, now) as i64),
        ..t
    }
}

/// The task with its enabled flag set at `now`: armed from `now` when enabled,
/// without a next run when disabled.
pub open spec fn toggled(t: Task, enabled: bool, now: int) -> Task {
    Task {
        enabled,
        next_run: if enabled {
            Some(next_run_after(t.schedule_type, now) as i64)
        } else {
            None
        },
        ..t
    }
}

/// The task as it is stored when it is added at `now`.
pub open spec fn scheduled(t: Task, now: int) -> Task {
    toggled(t, t.enabled, now)
}

/// The record of one execution: a response on success, the failure's
/// description otherwise.
pub open spec fn execution_record(
    r: TaskResult,
    task: Task,
    executed_at: int,
    prompt: Seq<char>,
    outcome: Result<Seq<char>, Seq<char>>,
) -> bool {
    &&& r.task_id@ == task.id@
    &&& r.task_name@ == task.name@
    &&& r.agent_name@ == task.agent_id@
    &&& r.executed_at == executed_at
    &&& r.prompt@ == prompt
    &&& match outcome {
        Ok(resp) => r.success && r.response@ == resp && r.error.is_none(),
        Err(e) => {
            &&& !r.success
            &&& r.response@ == Seq::<char>::empty()
            &&& r.error matches Some(msg) && msg@ == e
        },
    }
}

/// The views of an executor's outcome.
pub open spec fn outcome_view(outcome: Result<String, String>) -> Result<Seq<char>, Seq<char>> {
    match outcome {
        Ok(s) => Ok(s@),
        Err(e) => Err(e@),
    }
}

impl Task {
    /// A new enabled task that has not run yet; it is armed when added to
    /// a scheduler.
    pub fn new(
        id: String,
        name: String,
        agent_id: String,
        prompt_template: String,
        schedule_type: ScheduleType,
        created_at: i64,
    ) -> (r: Task)
        ensures
            r.id == id,
            r.name == name,
            r.agent_id == agent_id,
            r.prompt_template == prompt_template,
            r.schedule_type == schedule_type,
            r.enabled,
            r.created_at == created_at,
            r.last_run.is_none(),
            r.next_run.is_none(),
            r.run_count == 0,
    {
        Task {
            id,
            name,
            agent_id,
            prompt_template,
            schedule_type,
            enabled: true,
            created_at,
            last_run: None,
            next_run: None,
            run_count: 0,
        }
    }

    /// A field-by-field copy.
    pub fn duplicate(&self) -> (r: Task)
        ensures
            r == *self,
    {
        Task {
            id: self.id.clone(),
            name: self.name.clone(),
            agent_id: self.agent_id.clone(),
            prompt_template: self.prompt_template.clone(),
            schedule_type: self.schedule_type,
            enabled: self.enabled,
            created_at: self.created_at,
            last_run: self.last_run,
            next_run: self.next_run,
            run_count: self.run_count,
        }
    }

    /// Whether the task is due at `now`.
    pub fn due_at(&self, now: i64) -> (r: bool)
        ensures
            r == is_due(*self, now as int),
    {
        if !self.enabled {
            return false;
        }
        match self.next_run {
            Some(n) => n <= now,
            None => false,
        }
    }
}

impl TaskResult {
    /// A field-by-field copy.
    pub fn duplicate(&self) -> (r: TaskResult)
        ensures
            r == *self,
    {
        TaskResult {
            task_id: self.task_id.clone(),
            task_name: self.task_name.clone(),
            agent_name: self.agent_name.clone(),
            executed_at: self.executed_at,
            prompt: self.prompt.clone(),
            response: self.response.clone(),
            success: self.success,
            error: match &self.error {
                Some(e) => Some(e.clone()),
                None => None,
            },
        }
    }

    /// Records the outcome of one execution of `task` at `executed_at`.
    pub fn from_outcome(
        task: &Task,
        executed_at: i64,
        prompt: String,
        outcome: Result<String, String>,
    ) -> (r: TaskResult)
        ensures
            execution_record(r, *task, executed_at as int, prompt@, outcome_view(outcome)),
    {
        match outcome {
            Ok(response) => TaskResult {
                task_id: task.id.clone(),
                task_name: task.name.clone(),
                agent_name: task.agent_id.clone(),
                executed_at,
                prompt,
                response,
                success: true,
                error: None,
            },
            Err(error) => TaskResult {
                task_id: task.id.clone(),
                task_name: task.name.clone(),
                agent_name: task.agent_id.clone(),
                executed_at,
                prompt,
                response: String::new(),
                success: false,
                error: Some(error),
            },
        }
    }
}

} // verus!
