//! The result of scheduling a project, as far as progress tracking,
//! baselines and the status dashboard read it.
use vstd::prelude::*;
use crate::date::Date;
use crate::model::{Duration, TaskStatus};

verus! {

/// A task with its computed schedule.
#[derive(Clone, Debug)]
pub struct ScheduledTask {
    pub task_id: String,
    pub start: Date,
    pub finish: Date,
    pub duration: Duration,
    /// Slack (float) time
    pub slack: Duration,
    /// On the critical path
    pub is_critical: bool,
    pub early_start: Date,
    pub early_finish: Date,
    pub late_start: Date,
    pub late_finish: Date,
    /// Actual start if known, otherwise the planned start
    pub forecast_start: Date,
    /// Finish forecast from progress
    pub forecast_finish: Date,
    pub remaining_duration: Duration,
    /// Completion percentage (0-100)
    pub percent_complete: u8,
    pub status: TaskStatus,
    /// Planned start ignoring progress
    pub baseline_start: Date,
    /// Planned finish ignoring progress
    pub baseline_finish: Date,
    /// forecast_start - baseline_start in days, positive = late
    pub start_variance_days: i64,
    /// forecast_finish - baseline_finish in days, positive = late
    pub finish_variance_days: i64,
    /// Some assignment is to an abstract profile
    pub has_abstract_assignments: bool,
}

impl ScheduledTask {
    /// A scheduled task without progress: early, late, forecast and
    /// baseline dates all equal the scheduled ones, nothing complete.
    pub fn test_new(task_id: &str, start: Date, finish: Date, duration: Duration, slack: Duration, is_critical: bool) -> (t: ScheduledTask)
        ensures
            t.task_id@ == task_id@,
            t.start == start && t.finish == finish,
            t.duration == duration && t.slack == slack,
            t.is_critical == is_critical,
            t.early_start == start && t.early_finish == finish,
            t.late_start == start && t.late_finish == finish,
            t.forecast_start == start && t.forecast_finish == finish,
            t.remaining_duration == duration,
            t.percent_complete == 0,
            t.status == TaskStatus::NotStarted,
            t.baseline_start == start && t.baseline_finish == finish,
            t.start_variance_days == 0 && t.finish_variance_days == 0,
            !t.has_abstract_assignments,
    {
        ScheduledTask {
            task_id: task_id.to_owned(),
            start,
            finish,
            duration,
            slack,
            is_critical,
            early_start: start,
            early_finish: finish,
            late_start: start,
            late_finish: finish,
            forecast_start: start,
            forecast_finish: finish,
            remaining_duration: duration,
            percent_complete: 0,
            status: TaskStatus::NotStarted,
            baseline_start: start,
            baseline_finish: finish,
            start_variance_days: 0,
            finish_variance_days: 0,
            has_abstract_assignments: false,
        }
    }
}

/// The result of scheduling a project; each task id occurs once.
#[derive(Clone, Debug)]
pub struct Schedule {
    pub tasks: Vec<ScheduledTask>,
    /// Tasks on the critical path
    pub critical_path: Vec<String>,
    pub project_duration: Duration,
    pub project_end: Date,
    /// Overall progress (0-100), weighted by task duration
    pub project_progress: u8,
    /// Latest baseline finish
    pub project_baseline_finish: Date,
    /// Latest forecast finish
    pub project_forecast_finish: Date,
    /// Forecast minus baseline finish, in days
    pub project_variance_days: i64,
    /// Planned value at the status date (0-100)
    pub planned_value: u8,
    /// Earned value (0-100)
    pub earned_value: u8,
}

impl Schedule {
    /// No task id occurs twice.
    pub open spec fn wf(self) -> bool {
        forall|i: int, j: int|
            0 <= i < j < self.tasks@.len() ==> #[trigger] self.tasks@[i].task_id@ != #[trigger] self.tasks@[j].task_id@
    }

    /// Some scheduled task has id `id`.
    pub open spec fn has_task(self, id: Seq<char>) -> bool {
        exists|i: int| 0 <= i < self.tasks@.len() && #[trigger] self.tasks@[i].task_id@ == id
    }
}

} // verus!
