//! The project status dashboard: counts of task states from a schedule and
//! the on-track / at-risk / behind classification of the schedule variance.
use vstd::prelude::*;
use crate::date::Date;
use crate::model::TaskStatus;
use crate::project::Project;
use crate::schedule::{Schedule, ScheduledTask};

verus! {

/// Status classification of a project.
#[derive(Clone, Copy, Debug, PartialEq, Eq, Structural)]
pub enum StatusIndicator {
    /// On or ahead of schedule (variance <= 0)
    OnTrack,
    /// At risk (0 < variance <= 5 days)
    AtRisk,
    /// Behind schedule (variance > 5 days)
    Behind,
}

impl StatusIndicator {
    /// The indicator as text.
    pub open spec fn text(self) -> Seq<char> {
        match self {
            StatusIndicator::OnTrack => "On Track"@,
            StatusIndicator::AtRisk => "At Risk"@,
            StatusIndicator::Behind => "Behind"@,
        }
    }

    /// The indicator as text (e.g. "On Track").
    pub fn as_str(&self) -> (s: &'static str)
        ensures
            s@ == self.text(),
    {
        match self {
            StatusIndicator::OnTrack => "On Track",
            StatusIndicator::AtRisk => "At Risk",
            StatusIndicator::Behind => "Behind",
        }
    }
}

/// The indicator for a variance in days.
pub open spec fn indicator_for(variance_days: int) -> StatusIndicator {
    if variance_days <= 0 {
        StatusIndicator::OnTrack
    } else if variance_days <= 5 {
        StatusIndicator::AtRisk
    } else {
        StatusIndicator::Behind
    }
}

/// The variance text: "on schedule", "+N days late" or "N days ahead".
pub open spec fn variance_text(variance_days: int) -> Seq<char> {
    if variance_days == 0 {
        "on schedule"@
    } else if variance_days > 0 {
        "+"@ + crate::text::decimal(variance_days as nat) + " days late"@
    } else {
        crate::text::decimal((-variance_days) as nat) + " days ahead"@
    }
}

/// Aggregated status of a project at a status date.
#[derive(Clone, Debug)]
pub struct ProjectStatus {
    pub project_name: String,
    /// The as-of date
    pub status_date: Date,
    pub start_date: Date,
    /// Planned finish
    pub baseline_finish: Date,
    /// Current forecast finish
    pub forecast_finish: Date,
    /// Overall progress (0-100), weighted by task duration
    pub overall_progress: u8,
    /// Forecast minus baseline finish in days, positive = late
    pub variance_days: i64,
    /// Planned value at the status date (0-100)
    pub planned_value: u8,
    /// Earned value (0-100)
    pub earned_value: u8,
    pub total_tasks: usize,
    /// Tasks complete
    pub completed_tasks: usize,
    /// Tasks in progress or at risk
    pub in_progress_tasks: usize,
    /// Tasks not started, blocked or on hold
    pub not_started_tasks: usize,
    /// Tasks in progress that finish late, or not started that start late
    pub behind_tasks: usize,
    /// Tasks on the critical path
    pub critical_path_length: usize,
    /// Days from the status date to the forecast finish
    pub days_remaining: i64,
}

/// A task in this state counts as in progress.
pub open spec fn counts_in_progress(s: TaskStatus) -> bool {
    s == TaskStatus::InProgress || s == TaskStatus::AtRisk
}

/// A task in this state counts as not started.
pub open spec fn counts_not_started(s: TaskStatus) -> bool {
    s == TaskStatus::NotStarted || s == TaskStatus::Blocked || s == TaskStatus::OnHold
}

/// A scheduled task is behind: in progress and finishing late, or not
/// started and starting late.
pub open spec fn is_behind(t: ScheduledTask) -> bool {
    (counts_in_progress(t.status) && t.finish_variance_days > 0) || (counts_not_started(t.status)
        && t.start_variance_days > 0)
}

/// The task is complete.
pub open spec fn complete_task() -> spec_fn(ScheduledTask) -> bool {
    |t: ScheduledTask| t.status == TaskStatus::Complete
}

/// The task is in progress or at risk.
pub open spec fn in_progress_task() -> spec_fn(ScheduledTask) -> bool {
    |t: ScheduledTask| counts_in_progress(t.status)
}

/// The task is not started, blocked or on hold.
pub open spec fn not_started_task() -> spec_fn(ScheduledTask) -> bool {
    |t: ScheduledTask| counts_not_started(t.status)
}

/// The task is behind (see `is_behind`).
pub open spec fn behind_task() -> spec_fn(ScheduledTask) -> bool {
    |t: ScheduledTask| is_behind(t)
}

/// Number of tasks satisfying `p`.
pub open spec fn count_tasks(ts: Seq<ScheduledTask>, p: spec_fn(ScheduledTask) -> bool) -> nat
    decreases ts.len(),
{
    if ts.len() == 0 {
        0
    } else {
        count_tasks(ts.drop_last(), p) + if p(ts.last()) {
            1nat
        } else {
            0nat
        }
    }
}

/// A scheduled entry stands for a leaf task: the project has no task with
/// its identifier that has children.
pub open spec fn is_leaf_entry(project: Project, t: ScheduledTask) -> bool {
    !(crate::project::find_task_in(project.tasks@, t.task_id@) matches Some(x) && x.children@.len() > 0)
}

/// The entry is a leaf task of `project`.
pub open spec fn leaf_task(project: Project) -> spec_fn(ScheduledTask) -> bool {
    |t: ScheduledTask| is_leaf_entry(project, t)
}

/// The entry is a leaf task of `project` and satisfies `p`.
pub open spec fn leaf_and(project: Project, p: spec_fn(ScheduledTask) -> bool) -> spec_fn(ScheduledTask) -> bool {
    |t: ScheduledTask| is_leaf_entry(project, t) && p(t)
}

/// Every leaf task is complete, in progress or not started, so those three
/// counts add up to the number of leaf tasks; the tasks behind are among
/// those in progress or not started.
pub proof fn lemma_state_counts_partition(project: Project, ts: Seq<ScheduledTask>)
    ensures
        count_tasks(ts, leaf_and(project, complete_task())) + count_tasks(ts, leaf_and(project, in_progress_task()))
            + count_tasks(ts, leaf_and(project, not_started_task())) == count_tasks(ts, leaf_task(project)),
        count_tasks(ts, leaf_and(project, behind_task())) <= count_tasks(ts, leaf_and(project, in_progress_task()))
            + count_tasks(ts, leaf_and(project, not_started_task())),
    decreases ts.len(),
{
    if ts.len() > 0 {
        lemma_state_counts_partition(project, ts.drop_last());
    }
}

impl ProjectStatus {
    /// The status of a project and its schedule at `status_date`: task
    /// state counts, schedule figures, and the days from the status date to
    /// the forecast finish.
    pub fn from_schedule(project: &Project, schedule: &Schedule, status_date: Date) -> (r: ProjectStatus)
        requires
            schedule.project_forecast_finish.wf(),
            status_date.wf(),
        ensures
            r.project_name@ == project.name@,
            r.status_date == status_date,
            r.start_date == project.start,
            r.baseline_finish == schedule.project_baseline_finish,
            r.forecast_finish == schedule.project_forecast_finish,
            r.overall_progress == schedule.project_progress,
            r.variance_days == schedule.project_variance_days,
            r.planned_value == schedule.planned_value,
            r.earned_value == schedule.earned_value,
            r.total_tasks == count_tasks(schedule.tasks@, leaf_task(*project)),
            r.completed_tasks == count_tasks(schedule.tasks@, leaf_and(*project, complete_task())),
            r.in_progress_tasks == count_tasks(schedule.tasks@, leaf_and(*project, in_progress_task())),
            r.not_started_tasks == count_tasks(schedule.tasks@, leaf_and(*project, not_started_task())),
            r.behind_tasks == count_tasks(schedule.tasks@, leaf_and(*project, behind_task())),
            r.critical_path_length == schedule.critical_path@.len(),
            r.days_remaining == schedule.project_forecast_finish.ordinal() - status_date.ordinal(),
    {
        let ghost ts = schedule.tasks@;
        let ghost p = *project;
        let mut total: usize = 0;
        let mut completed: usize = 0;
        let mut in_progress: usize = 0;
        let mut not_started: usize = 0;
        let mut behind: usize = 0;
        let n = schedule.tasks.len();
        let mut i: usize = 0;
        while i < n
            invariant
                n == ts.len(),
                ts == schedule.tasks@,
                p == *project,
                i <= n,
                total == count_tasks(ts.take(i as int), leaf_task(p)),
                completed == count_tasks(ts.take(i as int), leaf_and(p, complete_task())),
                in_progress == count_tasks(ts.take(i as int), leaf_and(p, in_progress_task())),
                not_started == count_tasks(ts.take(i as int), leaf_and(p, not_started_task())),
                behind == count_tasks(ts.take(i as int), leaf_and(p, behind_task())),
                completed + in_progress + not_started == total,
                total <= i,
                behind <= i,
            decreases n - i,
        {
            let t = &schedule.tasks[i];
            assert(ts.take(i + 1).drop_last() =~= ts.take(i as int));
            assert(ts.take(i + 1).last() == ts[i as int]);
            let is_container = match project.get_task(t.task_id.as_str()) {
                Some(x) => x.children.len() > 0,
                None => false,
            };
            assert(leaf_task(p)(ts[i as int]) == !is_container);
            assert(leaf_and(p, complete_task())(ts[i as int]) == (!is_container && ts[i as int].status
                == TaskStatus::Complete));
            assert(leaf_and(p, in_progress_task())(ts[i as int]) == (!is_container && counts_in_progress(
                ts[i as int].status,
            )));
            assert(leaf_and(p, not_started_task())(ts[i as int]) == (!is_container && counts_not_started(
                ts[i as int].status,
            )));
            assert(leaf_and(p, behind_task())(ts[i as int]) == (!is_container && is_behind(ts[i as int])));
            if !is_container {
                total = total + 1;
                match t.status {
                    TaskStatus::Complete => {
                        completed = completed + 1;
                    },
                    TaskStatus::InProgress | TaskStatus::AtRisk => {
                        in_progress = in_progress + 1;
                        if t.finish_variance_days > 0 {
                            behind = behind + 1;
                        }
                    },
                    TaskStatus::NotStarted | TaskStatus::Blocked | TaskStatus::OnHold => {
                        not_started = not_started + 1;
                        if t.start_variance_days > 0 {
                            behind = behind + 1;
                        }
                    },
                }
            }
            i = i + 1;
        }
        assert(ts.take(n as int) =~= ts);
        let days_remaining = schedule.project_forecast_finish.days_since(&status_date);
        ProjectStatus {
            project_name: project.name.clone(),
            status_date,
            start_date: project.start,
            baseline_finish: schedule.project_baseline_finish,
            forecast_finish: schedule.project_forecast_finish,
            overall_progress: schedule.project_progress,
            variance_days: schedule.project_variance_days,
            planned_value: schedule.planned_value,
            earned_value: schedule.earned_value,
            total_tasks: total,
            completed_tasks: completed,
            in_progress_tasks: in_progress,
            not_started_tasks: not_started,
            behind_tasks: behind,
            critical_path_length: schedule.critical_path.len(),
            days_remaining,
        }
    }

    /// On Track for a variance of at most 0 days, At Risk up to 5 days,
    /// Behind beyond.
    pub fn status_indicator(&self) -> (r: StatusIndicator)
        ensures
            r == indicator_for(self.variance_days as int),
    {
        if self.variance_days <= 0 {
            StatusIndicator::OnTrack
        } else if self.variance_days <= 5 {
            StatusIndicator::AtRisk
        } else {
            StatusIndicator::Behind
        }
    }

    /// The variance as text: "on schedule", "+N days late" or
    /// "N days ahead".
    pub fn variance_string(&self) -> (r: String)
        ensures
            r@ == variance_text(self.variance_days as int),
    {
        let d = self.variance_days;
        let mut r = String::new();
        if d == 0 {
            crate::text::push_str(&mut r, "on schedule");
        } else if d > 0 {
            crate::text::push_str(&mut r, "+");
            let s = crate::text::u64_to_string(d as u64);
            crate::text::push_str(&mut r, s.as_str());
            crate::text::push_str(&mut r, " days late");
        } else {
            let m: u64 = if d == i64::MIN {
                9223372036854775808u64
            } else {
                (-d) as u64
            };
            let s = crate::text::u64_to_string(m);
            crate::text::push_str(&mut r, s.as_str());
            crate::text::push_str(&mut r, " days ahead");
        }
        proof {
            reveal_strlit("on schedule");
            reveal_strlit("+");
            reveal_strlit(" days late");
            reveal_strlit(" days ahead");
        }
        r
    }
}

} // verus!
