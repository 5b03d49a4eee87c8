//! Tasks and projects: the work breakdown tree, its builders, and the
//! progress roll-up of containers from their leaves.
use vstd::prelude::*;
use crate::date::Date;
use crate::model::{Dependency, DependencyType, Duration, TaskStatus};

verus! {

/// Allocation of a resource to a task, in percent of a full-time unit
/// (100 = one full unit).
#[derive(Clone, Debug)]
pub struct ResourceRef {
    pub resource_id: String,
    pub units_percent: u32,
}

/// Constraint on task scheduling.
#[derive(Clone, Copy, Debug, PartialEq, Eq, Structural)]
pub enum TaskConstraint {
    /// Task must start on this date
    MustStartOn(Date),
    /// Task must finish on this date
    MustFinishOn(Date),
    /// Task cannot start before this date
    StartNoEarlierThan(Date),
    /// Task must start by this date
    StartNoLaterThan(Date),
    /// Task cannot finish before this date
    FinishNoEarlierThan(Date),
    /// Task must finish by this date
    FinishNoLaterThan(Date),
}

/// A schedulable unit of work; tasks with children are containers.
#[derive(Debug)]
pub struct Task {
    /// Unique identifier
    pub id: String,
    /// Human-readable description
    pub name: String,
    /// Optional short display name
    pub summary: Option<String>,
    /// Work effort required (person-time)
    pub effort: Option<Duration>,
    /// Calendar duration (overrides effort-based calculation)
    pub duration: Option<Duration>,
    /// Task dependencies
    pub depends: Vec<Dependency>,
    /// Resource assignments
    pub assigned: Vec<ResourceRef>,
    /// Scheduling priority (higher = scheduled first)
    pub priority: u32,
    /// Scheduling constraints
    pub constraints: Vec<TaskConstraint>,
    /// Is this a milestone (zero duration)?
    pub milestone: bool,
    /// Child tasks (WBS hierarchy)
    pub children: Vec<Task>,
    /// Completion percentage, as written (not yet clamped)
    pub complete: Option<i32>,
    /// Actual start date
    pub actual_start: Option<Date>,
    /// Actual finish date
    pub actual_finish: Option<Date>,
    /// Explicit status
    pub status: Option<TaskStatus>,
    /// Custom attributes, in the order they were given
    pub attributes: Vec<(String, String)>,
}

/// A percentage clamped to `0..=100`.
pub open spec fn clamp_percent(c: int) -> int {
    if c < 0 {
        0
    } else if c > 100 {
        100
    } else {
        c
    }
}

/// `w / t` rounded to the nearest integer, halves away from zero.
pub open spec fn rounded_ratio(w: int, t: int) -> int
    recommends
        t != 0,
{
    let a = if t < 0 {
        -w
    } else {
        w
    };
    let b = if t < 0 {
        -t
    } else {
        t
    };
    if a >= 0 {
        (2 * a + b) / (2 * b)
    } else {
        -((2 * (-a) + b) / (2 * b))
    }
}

/// A value saturated into the range of `u8`.
pub open spec fn saturate_u8(x: int) -> int {
    if x < 0 {
        0
    } else if x > 255 {
        255
    } else {
        x
    }
}

impl Task {
    /// The clamped completion percentage, 0 when unset.
    pub open spec fn percent(self) -> int {
        match self.complete {
            Some(c) => clamp_percent(c as int),
            None => 0,
        }
    }

    /// The planned length in minutes: the duration, else the effort, else 0.
    pub open spec fn planned_minutes(self) -> int {
        match self.duration {
            Some(d) => d.minutes as int,
            None => match self.effort {
                Some(e) => e.minutes as int,
                None => 0,
            },
        }
    }

    /// The task has children.
    pub open spec fn has_children(self) -> bool {
        self.children@.len() > 0
    }
}

/// Progress weights of the leaves under the first `i` children of `t`:
/// the sum of percent × minutes, and the sum of minutes.
pub open spec fn progress_sums(t: Task, i: int) -> (int, int)
    decreases t, i,
{
    if i <= 0 || i > t.children@.len() {
        (0, 0)
    } else {
        let prev = progress_sums(t, i - 1);
        let c = t.children@[i - 1];
        let s = if c.has_children() {
            progress_sums(c, c.children@.len() as int)
        } else {
            (c.percent() * c.planned_minutes(), c.planned_minutes())
        };
        (prev.0 + s.0, prev.1 + s.1)
    }
}

/// Sum of the absolute planned minutes of the leaves under the first `i`
/// children of `t`; it bounds both progress sums.
pub open spec fn weight_bound(t: Task, i: int) -> int
    decreases t, i,
{
    if i <= 0 || i > t.children@.len() {
        0
    } else {
        let c = t.children@[i - 1];
        let s = if c.has_children() {
            weight_bound(c, c.children@.len() as int)
        } else {
            abs_int(c.planned_minutes())
        };
        weight_bound(t, i - 1) + s
    }
}

/// Absolute value.
pub open spec fn abs_int(x: int) -> int {
    if x < 0 {
        -x
    } else {
        x
    }
}

/// The progress sums of `t` stay within `i64` at every step of the roll-up.
pub open spec fn weights_fit(t: Task) -> bool {
    100 * weight_bound(t, t.children@.len() as int) <= i64::MAX
}

/// The derived progress of a container: the duration-weighted average of
/// the completion of its leaves, rounded; `None` for a leaf or when the
/// leaves carry no planned time.
pub open spec fn container_progress_of(t: Task) -> Option<u8> {
    if !t.has_children() {
        None
    } else {
        let s = progress_sums(t, t.children@.len() as int);
        if s.1 == 0 {
            None
        } else {
            Some(saturate_u8(rounded_ratio(s.0, s.1)) as u8)
        }
    }
}

/// The progress used for a task: the manual completion when set, else the
/// container progress, else 0.
pub open spec fn effective_progress_of(t: Task) -> u8 {
    match t.complete {
        Some(c) => clamp_percent(c as int) as u8,
        None => match container_progress_of(t) {
            Some(p) => p,
            None => 0,
        },
    }
}

/// The status of a task: the explicit one when set, else derived from its
/// progress and actual dates.
pub open spec fn derived_status_of(t: Task) -> TaskStatus {
    match t.status {
        Some(s) => s,
        None => {
            let pct = effective_progress_of(t);
            if pct >= 100 || t.actual_finish is Some {
                TaskStatus::Complete
            } else if pct > 0 || t.actual_start is Some {
                TaskStatus::InProgress
            } else {
                TaskStatus::NotStarted
            }
        },
    }
}

/// The remaining planned minutes of a task: the planned time scaled by the
/// part not yet complete, rounded, and never negative.
pub open spec fn remaining_minutes_of(t: Task) -> int {
    let r = rounded_ratio(t.planned_minutes() * (100 - t.percent()), 100);
    if r < 0 {
        0
    } else {
        r
    }
}

proof fn lemma_weight_bound(t: Task, i: int)
    ensures
        weight_bound(t, i) >= 0,
        abs_int(progress_sums(t, i).0) <= 100 * weight_bound(t, i),
        abs_int(progress_sums(t, i).1) <= weight_bound(t, i),
    decreases t, i,
{
    if i <= 0 || i > t.children@.len() {
    } else {
        lemma_weight_bound(t, i - 1);
        let c = t.children@[i - 1];
        if c.has_children() {
            lemma_weight_bound(c, c.children@.len() as int);
        } else {
            let m = c.planned_minutes();
            let p = c.percent();
            assert(abs_int(p * m) <= 100 * abs_int(m)) by (nonlinear_arith)
                requires
                    0 <= p <= 100,
            ;
        }
    }
}

proof fn lemma_weight_bound_monotone(t: Task, i: int, j: int)
    requires
        0 <= i <= j <= t.children@.len(),
    ensures
        weight_bound(t, i) <= weight_bound(t, j),
    decreases j - i,
{
    if i < j {
        lemma_weight_bound_monotone(t, i, j - 1);
        let c = t.children@[j - 1];
        if c.has_children() {
            lemma_weight_bound(c, c.children@.len() as int);
        }
    }
}

/// The weights of a child container are part of its parent's.
proof fn lemma_child_fits(t: Task, k: int)
    requires
        weights_fit(t),
        0 <= k < t.children@.len(),
        t.children@[k].has_children(),
    ensures
        weights_fit(t.children@[k]),
        weight_bound(t.children@[k], t.children@[k].children@.len() as int) <= weight_bound(t, k + 1) - weight_bound(t, k),
{
    lemma_weight_bound_monotone(t, k + 1, t.children@.len() as int);
    lemma_weight_bound(t, k);
}

/// Integer quotient rounded half away from zero, as `f64::round` does on
/// the exact quotient.
fn round_ratio(w: i64, t: i64) -> (r: i128)
    requires
        t != 0,
    ensures
        r == rounded_ratio(w as int, t as int),
{
    let (a, b): (i128, i128) = if t < 0 {
        (-(w as i128), -(t as i128))
    } else {
        (w as i128, t as i128)
    };
    if a >= 0 {
        (2 * a + b) / (2 * b)
    } else {
        -((2 * (-a) + b) / (2 * b))
    }
}

fn saturating_u8(x: i128) -> (r: u8)
    ensures
        r == saturate_u8(x as int),
{
    if x < 0 {
        0
    } else if x > 255 {
        255
    } else {
        x as u8
    }
}

fn clamp_to_percent(c: i32) -> (r: u8)
    ensures
        r == clamp_percent(c as int),
{
    if c < 0 {
        0
    } else if c > 100 {
        100
    } else {
        c as u8
    }
}

impl Task {
    /// `true` when the task has children.
    pub fn is_container(&self) -> (r: bool)
        ensures
            r == self.has_children(),
    {
        self.children.len() > 0
    }

    /// `true` when the task has children (a summary task).
    pub fn is_summary(&self) -> (r: bool)
        ensures
            r == self.has_children(),
    {
        self.children.len() > 0
    }

    /// The completion percentage clamped to `0..=100`, 0 when unset.
    pub fn effective_percent_complete(&self) -> (r: u8)
        ensures
            r == self.percent(),
    {
        match self.complete {
            Some(c) => clamp_to_percent(c),
            None => 0,
        }
    }

    fn planned(&self) -> (r: i64)
        ensures
            r == self.planned_minutes(),
    {
        match self.duration {
            Some(d) => d.minutes,
            None => match self.effort {
                Some(e) => e.minutes,
                None => 0,
            },
        }
    }

    fn calculate_weighted_progress(&self) -> (r: (i64, i64))
        requires
            weights_fit(*self),
        ensures
            r.0 == progress_sums(*self, self.children@.len() as int).0,
            r.1 == progress_sums(*self, self.children@.len() as int).1,
        decreases self,
    {
        let n = self.children.len();
        let mut total_weighted: i64 = 0;
        let mut total_duration: i64 = 0;
        let mut i: usize = 0;
        while i < n
            invariant
                n == self.children@.len(),
                weights_fit(*self),
                i <= n,
                total_weighted == progress_sums(*self, i as int).0,
                total_duration == progress_sums(*self, i as int).1,
            decreases n - i,
        {
            proof {
                lemma_weight_bound(*self, i + 1);
                lemma_weight_bound_monotone(*self, i + 1, n as int);
            }
            let child = &self.children[i];
            if child.is_container() {
                proof {
                    lemma_child_fits(*self, i as int);
                }
                let (cw, cd) = child.calculate_weighted_progress();
                total_weighted = total_weighted + cw;
                total_duration = total_duration + cd;
            } else {
                let m = child.planned();
                let pct = child.effective_percent_complete() as i64;
                proof {
                    lemma_weight_bound(*self, i as int);
                    assert(abs_int(pct * m) <= 100 * abs_int(m as int)) by (nonlinear_arith)
                        requires
                            0 <= pct <= 100,
                    ;
                }
                total_weighted = total_weighted + pct * m;
                total_duration = total_duration + m;
            }
            i = i + 1;
        }
        (total_weighted, total_duration)
    }

    /// Progress of a container derived from its leaves, weighted by their
    /// duration (or effort): Σ(percent × minutes) / Σ(minutes), rounded.
    /// `None` for a leaf or when no leaf has planned time.
    pub fn container_progress(&self) -> (r: Option<u8>)
        requires
            weights_fit(*self),
        ensures
            r == container_progress_of(*self),
    {
        if self.children.len() == 0 {
            return None;
        }
        let (total_weighted, total_duration) = self.calculate_weighted_progress();
        if total_duration == 0 {
            return None;
        }
        Some(saturating_u8(round_ratio(total_weighted, total_duration)))
    }

    /// The progress of the task: the manual completion when set (clamped),
    /// else the derived container progress, else 0.
    pub fn effective_progress(&self) -> (r: u8)
        requires
            weights_fit(*self),
        ensures
            r == effective_progress_of(*self),
    {
        if let Some(c) = self.complete {
            return clamp_to_percent(c);
        }
        match self.container_progress() {
            Some(p) => p,
            None => 0,
        }
    }

    /// The explicit status when set; otherwise Complete at 100% or with an
    /// actual finish, InProgress with some progress or an actual start, and
    /// NotStarted otherwise.
    pub fn derived_status(&self) -> (r: TaskStatus)
        requires
            weights_fit(*self),
        ensures
            r == derived_status_of(*self),
    {
        if let Some(s) = self.status {
            return s;
        }
        let pct = self.effective_progress();
        if pct >= 100 || self.actual_finish.is_some() {
            TaskStatus::Complete
        } else if pct > 0 || self.actual_start.is_some() {
            TaskStatus::InProgress
        } else {
            TaskStatus::NotStarted
        }
    }

    /// For a container with a manual completion that differs from its
    /// derived progress by more than `threshold` points, the pair
    /// (manual, derived); `None` otherwise.
    pub fn progress_mismatch(&self, threshold: u8) -> (r: Option<(u8, u8)>)
        requires
            weights_fit(*self),
        ensures
            r == (if self.has_children() && self.complete is Some && container_progress_of(*self) is Some
                && abs_int(clamp_percent(self.complete->0 as int) - container_progress_of(*self)->0 as int)
                > threshold {
                Some((clamp_percent(self.complete->0 as int) as u8, container_progress_of(*self)->0))
            } else {
                None
            }),
    {
        if !self.is_container() {
            return None;
        }
        let manual = match self.complete {
            Some(c) => clamp_to_percent(c),
            None => {
                return None;
            },
        };
        let derived = match self.container_progress() {
            Some(d) => d,
            None => {
                return None;
            },
        };
        let diff: u8 = if manual >= derived {
            manual - derived
        } else {
            derived - manual
        };
        if diff > threshold {
            Some((manual, derived))
        } else {
            None
        }
    }

    /// Remaining planned time by linear interpolation:
    /// planned × (1 − percent/100), rounded to the minute and never negative.
    pub fn remaining_duration(&self) -> (r: Duration)
        ensures
            r.minutes == remaining_minutes_of(*self),
    {
        let original = self.planned();
        let pct = self.effective_percent_complete() as i64;
        proof {
            assert(-100 * 9223372036854775808 <= original * (100 - pct) <= 100 * 9223372036854775807)
                by (nonlinear_arith)
                requires
                    -9223372036854775808 <= original <= 9223372036854775807,
                    0 <= pct <= 100,
            ;
        }
        let scaled: i128 = (original as i128) * ((100 - pct) as i128);
        let q = round_div_100(scaled);
        if q < 0 {
            Duration::minutes(0)
        } else {
            Duration::minutes(q)
        }
    }
}

fn round_div_100(x: i128) -> (r: i64)
    requires
        -100 * 9223372036854775808 <= x <= 100 * 9223372036854775807,
    ensures
        r == rounded_ratio(x as int, 100),
{
    let q: i128 = if x >= 0 {
        (2 * x + 100) / 200
    } else {
        -((2 * (-x) + 100) / 200)
    };
    q as i64
}

/// No leaf under the first `i` children of `t` has negative planned time.
pub open spec fn plans_nonnegative(t: Task, i: int) -> bool
    decreases t, i,
{
    if i <= 0 || i > t.children@.len() {
        true
    } else {
        let c = t.children@[i - 1];
        &&& plans_nonnegative(t, i - 1)
        &&& if c.has_children() {
            plans_nonnegative(c, c.children@.len() as int)
        } else {
            c.planned_minutes() >= 0
        }
    }
}

proof fn lemma_sums_weighted_average(t: Task, i: int)
    requires
        plans_nonnegative(t, i),
    ensures
        0 <= progress_sums(t, i).0 <= 100 * progress_sums(t, i).1,
    decreases t, i,
{
    if i <= 0 || i > t.children@.len() {
    } else {
        lemma_sums_weighted_average(t, i - 1);
        let c = t.children@[i - 1];
        if c.has_children() {
            lemma_sums_weighted_average(c, c.children@.len() as int);
        } else {
            let m = c.planned_minutes();
            let p = c.percent();
            assert(0 <= p * m <= 100 * m) by (nonlinear_arith)
                requires
                    0 <= p <= 100,
                    m >= 0,
            ;
        }
    }
}

/// Progress is a percentage: when no leaf has negative planned time, the
/// derived container progress and the effective progress of any task lie
/// in `0..=100`.
pub proof fn lemma_progress_is_percentage(t: Task)
    requires
        plans_nonnegative(t, t.children@.len() as int),
    ensures
        container_progress_of(t) matches Some(p) ==> p <= 100,
        effective_progress_of(t) <= 100,
{
    let s = progress_sums(t, t.children@.len() as int);
    lemma_sums_weighted_average(t, t.children@.len() as int);
    if s.1 != 0 {
        let w = s.0;
        let d = s.1;
        assert(0 <= (2 * w + d) / (2 * d) <= 100) by (nonlinear_arith)
            requires
                0 <= w <= 100 * d,
                d > 0,
        ;
    }
}

/// The remaining time of a task with non-negative planned time lies between
/// zero and the planned time: all of it at 0%, none of it at 100%.
pub proof fn lemma_remaining_time_bounds(t: Task)
    requires
        t.planned_minutes() >= 0,
    ensures
        0 <= remaining_minutes_of(t) <= t.planned_minutes(),
        t.percent() == 0 ==> remaining_minutes_of(t) == t.planned_minutes(),
        t.percent() == 100 ==> remaining_minutes_of(t) == 0,
{
    let m = t.planned_minutes();
    let p = t.percent();
    assert(0 <= m * (100 - p) <= 100 * m) by (nonlinear_arith)
        requires
            m >= 0,
            0 <= p <= 100,
    ;
    let x = m * (100 - p);
    assert(0 <= (2 * x + 100) / 200 <= m) by (nonlinear_arith)
        requires
            0 <= x <= 100 * m,
    ;
    if p == 0 {
        assert(x == 100 * m) by (nonlinear_arith)
            requires
                x == m * (100 - p),
                p == 0,
        ;
    }
    if p == 100 {
        assert(x == 0) by (nonlinear_arith)
            requires
                x == m * (100 - p),
                p == 100,
        ;
        assert((2 * x + 100) / 200 == 0) by (nonlinear_arith)
            requires
                x == 0,
        ;
    }
}

/// A task without an explicit status whose progress reaches 100% is
/// complete; one with no progress and no actual dates has not started.
pub proof fn lemma_status_follows_progress(t: Task)
    requires
        t.status is None,
    ensures
        effective_progress_of(t) >= 100 ==> derived_status_of(t) == TaskStatus::Complete,
        effective_progress_of(t) == 0 && t.actual_start is None && t.actual_finish is None
            ==> derived_status_of(t) == TaskStatus::NotStarted,
        t.actual_finish is Some ==> derived_status_of(t) == TaskStatus::Complete,
{
}

impl Task {
    /// A new task with the given identifier, also used as its name; no
    /// timing, dependencies or assignments, priority 500.
    pub fn new(id: &str) -> (t: Task)
        ensures
            t.id@ == id@,
            t.name@ == id@,
            t.summary is None,
            t.effort is None,
            t.duration is None,
            t.depends@.len() == 0,
            t.assigned@.len() == 0,
            t.priority == 500,
            t.constraints@.len() == 0,
            !t.milestone,
            t.children@.len() == 0,
            t.complete is None,
            t.actual_start is None,
            t.actual_finish is None,
            t.status is None,
            t.attributes@.len() == 0,
    {
        Task {
            id: id.to_owned(),
            name: id.to_owned(),
            summary: None,
            effort: None,
            duration: None,
            depends: Vec::new(),
            assigned: Vec::new(),
            priority: 500,
            constraints: Vec::new(),
            milestone: false,
            children: Vec::new(),
            complete: None,
            actual_start: None,
            actual_finish: None,
            status: None,
            attributes: Vec::new(),
        }
    }

    /// Sets the name.
    pub fn name(self, name: &str) -> (t: Task)
        ensures
            t.name@ == name@,
            t == (Task { name: t.name, ..self }),
    {
        Task { name: name.to_owned(), ..self }
    }

    /// Sets the short display name.
    pub fn summary(self, summary: &str) -> (t: Task)
        ensures
            t.summary matches Some(x) && x@ == summary@,
            t == (Task { summary: t.summary, ..self }),
    {
        Task { summary: Some(summary.to_owned()), ..self }
    }

    /// Sets the effort.
    pub fn effort(self, effort: Duration) -> (t: Task)
        ensures
            t == (Task { effort: Some(effort), ..self }),
    {
        Task { effort: Some(effort), ..self }
    }

    /// Sets the duration.
    pub fn duration(self, duration: Duration) -> (t: Task)
        ensures
            t == (Task { duration: Some(duration), ..self }),
    {
        Task { duration: Some(duration), ..self }
    }

    /// Adds a finish-to-start dependency on `predecessor`, without lag.
    pub fn depends_on(self, predecessor: &str) -> (t: Task)
        ensures
            t.depends@.len() == self.depends@.len() + 1,
            t.depends@.take(self.depends@.len() as int) == self.depends@,
            t.depends@.last().predecessor@ == predecessor@,
            t.depends@.last().dep_type == DependencyType::FinishToStart,
            t.depends@.last().lag is None,
            t == (Task { depends: t.depends, ..self }),
    {
        let mut t = self;
        t.depends.push(
            Dependency { predecessor: predecessor.to_owned(), dep_type: DependencyType::FinishToStart, lag: None },
        );
        t
    }

    /// Adds a dependency as given.
    pub fn with_dependency(self, dep: Dependency) -> (t: Task)
        ensures
            t.depends@ == self.depends@.push(dep),
            t == (Task { depends: t.depends, ..self }),
    {
        let mut t = self;
        t.depends.push(dep);
        t
    }

    /// Assigns a resource at full allocation (100%).
    pub fn assign(self, resource: &str) -> (t: Task)
        ensures
            t.assigned@.len() == self.assigned@.len() + 1,
            t.assigned@.take(self.assigned@.len() as int) == self.assigned@,
            t.assigned@.last().resource_id@ == resource@,
            t.assigned@.last().units_percent == 100,
            t == (Task { assigned: t.assigned, ..self }),
    {
        self.assign_with_units(resource, 100)
    }

    /// Assigns a resource at the given allocation, in percent of a unit.
    pub fn assign_with_units(self, resource: &str, units_percent: u32) -> (t: Task)
        ensures
            t.assigned@.len() == self.assigned@.len() + 1,
            t.assigned@.take(self.assigned@.len() as int) == self.assigned@,
            t.assigned@.last().resource_id@ == resource@,
            t.assigned@.last().units_percent == units_percent,
            t == (Task { assigned: t.assigned, ..self }),
    {
        let mut t = self;
        t.assigned.push(ResourceRef { resource_id: resource.to_owned(), units_percent });
        assert(t.assigned@.take(self.assigned@.len() as int) =~= self.assigned@);
        t
    }

    /// Sets the priority.
    pub fn priority(self, priority: u32) -> (t: Task)
        ensures
            t == (Task { priority, ..self }),
    {
        Task { priority, ..self }
    }

    /// Marks the task as a milestone, of zero duration.
    pub fn milestone(self) -> (t: Task)
        ensures
            t == (Task { milestone: true, duration: Some(Duration { minutes: 0 }), ..self }),
    {
        Task { milestone: true, duration: Some(Duration::zero()), ..self }
    }

    /// Adds a child task.
    pub fn child(self, child: Task) -> (t: Task)
        ensures
            t.children@ == self.children@.push(child),
            t == (Task { children: t.children, ..self }),
    {
        let mut t = self;
        t.children.push(child);
        t
    }

    /// Adds a scheduling constraint.
    pub fn constraint(self, constraint: TaskConstraint) -> (t: Task)
        ensures
            t.constraints@ == self.constraints@.push(constraint),
            t == (Task { constraints: t.constraints, ..self }),
    {
        let mut t = self;
        t.constraints.push(constraint);
        t
    }

    /// Sets the completion percentage.
    pub fn complete(self, pct: i32) -> (t: Task)
        ensures
            t == (Task { complete: Some(pct), ..self }),
    {
        Task { complete: Some(pct), ..self }
    }

    /// Sets the actual start date.
    pub fn actual_start(self, date: Date) -> (t: Task)
        ensures
            t == (Task { actual_start: Some(date), ..self }),
    {
        Task { actual_start: Some(date), ..self }
    }

    /// Sets the actual finish date.
    pub fn actual_finish(self, date: Date) -> (t: Task)
        ensures
            t == (Task { actual_finish: Some(date), ..self }),
    {
        Task { actual_finish: Some(date), ..self }
    }

    /// Sets the explicit status.
    pub fn with_status(self, status: TaskStatus) -> (t: Task)
        ensures
            t == (Task { status: Some(status), ..self }),
    {
        Task { status: Some(status), ..self }
    }
}

/// The first task, in depth-first order, whose identifier is `id`.
pub open spec fn find_task_in(ts: Seq<Task>, id: Seq<char>) -> Option<Task>
    decreases ts,
{
    if ts.len() == 0 {
        None
    } else {
        let t = ts[0];
        if t.id@ == id {
            Some(t)
        } else {
            match find_task_in(t.children@, id) {
                Some(x) => Some(x),
                None => find_task_in(ts.drop_first(), id),
            }
        }
    }
}

/// The leaves (tasks without children) of a forest, in depth-first order.
pub open spec fn leaves_of(ts: Seq<Task>) -> Seq<Task>
    decreases ts,
{
    if ts.len() == 0 {
        Seq::empty()
    } else {
        let t = ts[0];
        let head = if t.children@.len() == 0 {
            seq![t]
        } else {
            leaves_of(t.children@)
        };
        head + leaves_of(ts.drop_first())
    }
}

/// The first task, in depth-first order, whose identifier is `id`.
pub fn find_task_by_id<'a>(tasks: &'a Vec<Task>, id: &str) -> (r: Option<&'a Task>)
    ensures
        r is Some <==> find_task_in(tasks@, id@) is Some,
        r matches Some(x) ==> find_task_in(tasks@, id@) == Some(*x),
    decreases tasks@,
{
    let n = tasks.len();
    let mut i: usize = 0;
    assert(tasks@.skip(0) =~= tasks@);
    while i < n
        invariant
            n == tasks@.len(),
            i <= n,
            find_task_in(tasks@, id@) == find_task_in(tasks@.skip(i as int), id@),
        decreases n - i,
    {
        let t = &tasks[i];
        assert(tasks@.skip(i as int)[0] == tasks@[i as int]);
        assert(tasks@.skip(i as int).drop_first() =~= tasks@.skip(i + 1));
        if crate::text::str_eq(t.id.as_str(), id) {
            return Some(t);
        }
        assert(decreases_to!(tasks@ => tasks@[i as int]));
        match find_task_by_id(&t.children, id) {
            Some(found) => {
                return Some(found);
            },
            None => {},
        }
        i = i + 1;
    }
    assert(tasks@.skip(n as int) =~= Seq::<Task>::empty());
    None
}

fn collect_leaves<'a>(tasks: &'a Vec<Task>, result: &mut Vec<&'a Task>)
    ensures
        final(result)@.len() == old(result)@.len() + leaves_of(tasks@).len(),
        forall|k: int| 0 <= k < old(result)@.len() ==> *final(result)@[k] == *old(result)@[k],
        forall|k: int|
            0 <= k < leaves_of(tasks@).len() ==> *final(result)@[old(result)@.len() + k] == leaves_of(tasks@)[k],
    decreases tasks@,
{
    let ghost start = result@;
    let n = tasks.len();
    let mut i: usize = 0;
    while i < n
        invariant
            n == tasks@.len(),
            i <= n,
            result@.len() == start.len() + leaves_of(tasks@.take(i as int)).len(),
            forall|k: int| 0 <= k < start.len() ==> *result@[k] == *start[k],
            forall|k: int|
                0 <= k < leaves_of(tasks@.take(i as int)).len() ==> *result@[start.len() + k] == leaves_of(
                    tasks@.take(i as int),
                )[k],
        decreases n - i,
    {
        let t = &tasks[i];
        proof {
            lemma_leaves_split(tasks@, i as int);
        }
        let ghost before = result@;
        if t.children.len() == 0 {
            result.push(t);
        } else {
            assert(decreases_to!(tasks@ => tasks@[i as int]));
            collect_leaves(&t.children, result);
        }
        i = i + 1;
    }
    assert(tasks@.take(n as int) =~= tasks@);
}

proof fn lemma_leaves_append(a: Seq<Task>, b: Seq<Task>)
    ensures
        leaves_of(a + b) == leaves_of(a) + leaves_of(b),
    decreases a.len(),
{
    if a.len() == 0 {
        assert(a + b =~= b);
        assert(leaves_of(a) =~= Seq::<Task>::empty());
        assert(Seq::<Task>::empty() + leaves_of(b) =~= leaves_of(b));
    } else {
        lemma_leaves_append(a.drop_first(), b);
        assert((a + b).drop_first() =~= a.drop_first() + b);
        assert((a + b)[0] == a[0]);
        let t = a[0];
        let head = if t.children@.len() == 0 {
            seq![t]
        } else {
            leaves_of(t.children@)
        };
        assert(head + (leaves_of(a.drop_first()) + leaves_of(b)) =~= (head + leaves_of(a.drop_first()))
            + leaves_of(b));
    }
}

proof fn lemma_leaves_split(ts: Seq<Task>, i: int)
    requires
        0 <= i < ts.len(),
    ensures
        leaves_of(ts.take(i + 1)) == leaves_of(ts.take(i)) + (if ts[i].children@.len() == 0 {
            seq![ts[i]]
        } else {
            leaves_of(ts[i].children@)
        }),
{
    assert(ts.take(i + 1) =~= ts.take(i) + seq![ts[i]]);
    lemma_leaves_append(ts.take(i), seq![ts[i]]);
    assert(seq![ts[i]].drop_first() =~= Seq::<Task>::empty());
    assert(leaves_of(Seq::<Task>::empty()) =~= Seq::<Task>::empty());
    let h = if ts[i].children@.len() == 0 {
        seq![ts[i]]
    } else {
        leaves_of(ts[i].children@)
    };
    assert(h + Seq::<Task>::empty() =~= h);
}

/// A span of working time within a day, in minutes from midnight.
#[derive(Clone, Copy, Debug, PartialEq, Eq, Structural)]
pub struct TimeRange {
    pub start: u16,
    pub end: u16,
}

impl TimeRange {
    /// Length of the range in minutes.
    pub fn duration_minutes(&self) -> (r: u16)
        requires
            self.start <= self.end,
        ensures
            r == self.end - self.start,
    {
        self.end - self.start
    }
}

/// A named run of non-working days, both ends included.
#[derive(Clone, Debug)]
pub struct Holiday {
    pub name: String,
    pub start: Date,
    pub end: Date,
}

impl Holiday {
    /// `true` when `date` falls within the holiday.
    pub fn contains(&self, date: Date) -> (r: bool)
        requires
            self.start.wf(),
            self.end.wf(),
            date.wf(),
        ensures
            r == (self.start.ordinal() <= date.ordinal() <= self.end.ordinal()),
    {
        !self.start.is_after(&date) && !date.is_after(&self.end)
    }
}

/// Working time definition.
#[derive(Clone, Debug)]
pub struct Calendar {
    pub id: String,
    pub name: String,
    /// Working hours of a working day
    pub working_hours: Vec<TimeRange>,
    /// Working days, 0 = Sunday through 6 = Saturday
    pub working_days: Vec<u8>,
    pub holidays: Vec<Holiday>,
}

impl Calendar {
    /// The standard calendar: 09:00–12:00 and 13:00–17:00, Monday to Friday.
    pub fn standard() -> (c: Calendar)
        ensures
            c.id@ == "default"@,
            c.name@ == "Standard"@,
            c.working_hours@ == seq![TimeRange { start: 540, end: 720 }, TimeRange { start: 780, end: 1020 }],
            c.working_days@ == seq![1u8, 2u8, 3u8, 4u8, 5u8],
            c.holidays@.len() == 0,
    {
        let c = Calendar {
            id: "default".to_owned(),
            name: "Standard".to_owned(),
            working_hours: vec![TimeRange { start: 540, end: 720 }, TimeRange { start: 780, end: 1020 }],
            working_days: vec![1, 2, 3, 4, 5],
            holidays: Vec::new(),
        };
        assert(c.working_hours@ =~= seq![TimeRange { start: 540, end: 720 }, TimeRange { start: 780, end: 1020 }]);
        assert(c.working_days@ =~= seq![1u8, 2u8, 3u8, 4u8, 5u8]);
        c
    }

    /// The holidays' dates are all valid.
    pub open spec fn wf(self) -> bool {
        forall|i: int| #![trigger self.holidays@[i]] 0 <= i < self.holidays@.len() ==> self.holidays@[i].start.wf() && self.holidays@[i].end.wf()
    }

    /// Total working minutes of a working day.
    pub fn minutes_per_day(&self) -> (r: u128)
        requires
            forall|i: int| 0 <= i < self.working_hours@.len() ==> #[trigger] self.working_hours@[i].start <= self.working_hours@[i].end,
        ensures
            r == sum_ranges(self.working_hours@),
    {
        let n = self.working_hours.len();
        let mut total: u128 = 0;
        let mut i: usize = 0;
        while i < n
            invariant
                n == self.working_hours@.len(),
                i <= n,
                forall|k: int| 0 <= k < n ==> #[trigger] self.working_hours@[k].start <= self.working_hours@[k].end,
                total == sum_ranges(self.working_hours@.take(i as int)),
                total <= 65535 * i,
            decreases n - i,
        {
            let r = self.working_hours[i];
            assert(self.working_hours@.take(i + 1).drop_last() =~= self.working_hours@.take(i as int));
            total = total + r.duration_minutes() as u128;
            i = i + 1;
        }
        assert(self.working_hours@.take(n as int) =~= self.working_hours@);
        total
    }

    /// `true` when `date` is one of the working days of the week and no
    /// holiday covers it.
    pub fn is_working_day(&self, date: Date) -> (r: bool)
        requires
            self.wf(),
            date.wf(),
        ensures
            r == (self.working_days@.contains((date.ordinal() % 7) as u8) && !exists|i: int|
                0 <= i < self.holidays@.len() && #[trigger] self.holidays@[i].start.ordinal() <= date.ordinal()
                    <= self.holidays@[i].end.ordinal()),
    {
        let weekday = date.weekday_from_sunday() as u8;
        let mut found = false;
        let mut k: usize = 0;
        while k < self.working_days.len()
            invariant
                k <= self.working_days@.len(),
                found == exists|j: int| 0 <= j < k && self.working_days@[j] == weekday,
            decreases self.working_days@.len() - k,
        {
            if self.working_days[k] == weekday {
                found = true;
            }
            k = k + 1;
        }
        if !found {
            assert(!self.working_days@.contains(weekday));
            return false;
        }
        let n = self.holidays.len();
        let mut i: usize = 0;
        while i < n
            invariant
                n == self.holidays@.len(),
                self.wf(),
                date.wf(),
                i <= n,
                forall|j: int| 0 <= j < i ==> !(#[trigger] self.holidays@[j].start.ordinal() <= date.ordinal()
                    <= self.holidays@[j].end.ordinal()),
            decreases n - i,
        {
            assert(self.holidays@[i as int].start.wf() && self.holidays@[i as int].end.wf());
            if self.holidays[i].contains(date) {
                return false;
            }
            i = i + 1;
        }
        true
    }
}

/// Total minutes of a list of time ranges.
pub open spec fn sum_ranges(rs: Seq<TimeRange>) -> int
    decreases rs.len(),
{
    if rs.len() == 0 {
        0
    } else {
        sum_ranges(rs.drop_last()) + (rs.last().end - rs.last().start)
    }
}

/// A person or equipment that can be assigned to tasks.
#[derive(Clone, Debug)]
pub struct Resource {
    pub id: String,
    pub name: String,
    /// Calendar of the resource, when it differs from the project's
    pub calendar: Option<String>,
    /// Profile the resource specializes
    pub specializes: Option<String>,
}

impl Resource {
    /// A new resource with the given identifier, also used as its name.
    pub fn new(id: &str) -> (r: Resource)
        ensures
            r.id@ == id@,
            r.name@ == id@,
            r.calendar is None,
            r.specializes is None,
    {
        Resource { id: id.to_owned(), name: id.to_owned(), calendar: None, specializes: None }
    }

    /// Sets the name.
    pub fn name(self, name: &str) -> (r: Resource)
        ensures
            r.name@ == name@,
            r == (Resource { name: r.name, ..self }),
    {
        Resource { name: name.to_owned(), ..self }
    }

    /// Sets the profile this resource specializes.
    pub fn specializes(self, profile: &str) -> (r: Resource)
        ensures
            r.specializes matches Some(p) && p@ == profile@,
            r == (Resource { specializes: r.specializes, ..self }),
    {
        Resource { specializes: Some(profile.to_owned()), ..self }
    }

    /// `true` when the resource specializes a profile.
    pub fn is_specialized(&self) -> (r: bool)
        ensures
            r == self.specializes is Some,
    {
        self.specializes.is_some()
    }
}

/// A named characteristic of resources (e.g. seniority).
#[derive(Clone, Debug)]
pub struct Trait {
    pub id: String,
    pub name: String,
    pub description: Option<String>,
}

impl Trait {
    /// A new trait with the given identifier, also used as its name.
    pub fn new(id: &str) -> (t: Trait)
        ensures
            t.id@ == id@,
            t.name@ == id@,
            t.description is None,
    {
        Trait { id: id.to_owned(), name: id.to_owned(), description: None }
    }

    /// Sets the description.
    pub fn description(self, desc: &str) -> (t: Trait)
        ensures
            t.description matches Some(d) && d@ == desc@,
            t == (Trait { description: t.description, ..self }),
    {
        Trait { description: Some(desc.to_owned()), ..self }
    }
}

/// An abstract role or capability that tasks can be assigned to.
#[derive(Clone, Debug)]
pub struct ResourceProfile {
    pub id: String,
    pub name: String,
    pub description: Option<String>,
    /// Parent profile
    pub specializes: Option<String>,
    pub skills: Vec<String>,
    /// Traits applied to the profile
    pub traits: Vec<String>,
    pub calendar: Option<String>,
}

impl ResourceProfile {
    /// A new profile with the given identifier, also used as its name.
    pub fn new(id: &str) -> (p: ResourceProfile)
        ensures
            p.id@ == id@,
            p.name@ == id@,
            p.description is None,
            p.specializes is None,
            p.skills@.len() == 0,
            p.traits@.len() == 0,
            p.calendar is None,
    {
        ResourceProfile {
            id: id.to_owned(),
            name: id.to_owned(),
            description: None,
            specializes: None,
            skills: Vec::new(),
            traits: Vec::new(),
            calendar: None,
        }
    }

    /// Sets the parent profile.
    pub fn specializes(self, parent: &str) -> (p: ResourceProfile)
        ensures
            p.specializes matches Some(x) && x@ == parent@,
            p == (ResourceProfile { specializes: p.specializes, ..self }),
    {
        ResourceProfile { specializes: Some(parent.to_owned()), ..self }
    }

    /// Adds a skill.
    pub fn skill(self, skill: &str) -> (p: ResourceProfile)
        ensures
            p.skills@.len() == self.skills@.len() + 1,
            p.skills@.take(self.skills@.len() as int) == self.skills@,
            p.skills@.last()@ == skill@,
            p == (ResourceProfile { skills: p.skills, ..self }),
    {
        let mut p = self;
        p.skills.push(skill.to_owned());
        assert(p.skills@.take(self.skills@.len() as int) =~= self.skills@);
        p
    }

    /// Adds a trait.
    pub fn with_trait(self, trait_id: &str) -> (p: ResourceProfile)
        ensures
            p.traits@.len() == self.traits@.len() + 1,
            p.traits@.take(self.traits@.len() as int) == self.traits@,
            p.traits@.last()@ == trait_id@,
            p == (ResourceProfile { traits: p.traits, ..self }),
    {
        let mut p = self;
        p.traits.push(trait_id.to_owned());
        assert(p.traits@.take(self.traits@.len() as int) =~= self.traits@);
        p
    }

    /// Adds several traits, in order.
    pub fn with_traits(self, trait_ids: &[&str]) -> (p: ResourceProfile)
        ensures
            p.traits@.len() == self.traits@.len() + trait_ids@.len(),
            p.traits@.take(self.traits@.len() as int) == self.traits@,
            forall|k: int| 0 <= k < trait_ids@.len() ==> #[trigger] p.traits@[self.traits@.len() + k]@ == trait_ids@[k]@,
            p == (ResourceProfile { traits: p.traits, ..self }),
    {
        let mut p = self;
        let mut i: usize = 0;
        while i < trait_ids.len()
            invariant
                i <= trait_ids@.len(),
                p.traits@.len() == self.traits@.len() + i,
                p.traits@.take(self.traits@.len() as int) == self.traits@,
                forall|k: int| 0 <= k < i ==> #[trigger] p.traits@[self.traits@.len() + k]@ == trait_ids@[k]@,
                p == (ResourceProfile { traits: p.traits, ..self }),
            decreases trait_ids@.len() - i,
        {
            let ghost before = p.traits@;
            p.traits.push(trait_ids[i].to_owned());
            assert(p.traits@.take(self.traits@.len() as int) =~= before.take(self.traits@.len() as int));
            assert forall|k: int| 0 <= k < i + 1 implies #[trigger] p.traits@[self.traits@.len() + k]@ == trait_ids@[k]@ by {
                if k < i {
                    assert(p.traits@[self.traits@.len() + k] == before[self.traits@.len() + k]);
                }
            }
            i = i + 1;
        }
        p
    }

    /// Adds several skills, in order.
    pub fn skills(self, skills: &[&str]) -> (p: ResourceProfile)
        ensures
            p.skills@.len() == self.skills@.len() + skills@.len(),
            p.skills@.take(self.skills@.len() as int) == self.skills@,
            forall|k: int| 0 <= k < skills@.len() ==> #[trigger] p.skills@[self.skills@.len() + k]@ == skills@[k]@,
            p == (ResourceProfile { skills: p.skills, ..self }),
    {
        let mut p = self;
        let mut i: usize = 0;
        while i < skills.len()
            invariant
                i <= skills@.len(),
                p.skills@.len() == self.skills@.len() + i,
                p.skills@.take(self.skills@.len() as int) == self.skills@,
                forall|k: int| 0 <= k < i ==> #[trigger] p.skills@[self.skills@.len() + k]@ == skills@[k]@,
                p == (ResourceProfile { skills: p.skills, ..self }),
            decreases skills@.len() - i,
        {
            let ghost before = p.skills@;
            p.skills.push(skills[i].to_owned());
            assert(p.skills@.take(self.skills@.len() as int) =~= before.take(self.skills@.len() as int));
            assert forall|k: int| 0 <= k < i + 1 implies #[trigger] p.skills@[self.skills@.len() + k]@ == skills@[k]@ by {
                if k < i {
                    assert(p.skills@[self.skills@.len() + k] == before[self.skills@.len() + k]);
                }
            }
            i = i + 1;
        }
        p
    }
}

/// A complete project definition.
#[derive(Debug)]
pub struct Project {
    pub id: String,
    pub name: String,
    pub start: Date,
    pub end: Option<Date>,
    /// Default calendar
    pub calendar: String,
    /// Currency for cost calculations
    pub currency: String,
    /// Top-level tasks (each may hold children)
    pub tasks: Vec<Task>,
    pub resources: Vec<Resource>,
    pub calendars: Vec<Calendar>,
    /// Custom attributes, in the order they were given
    pub attributes: Vec<(String, String)>,
    /// Resource profiles (abstract roles)
    pub profiles: Vec<ResourceProfile>,
    /// Trait definitions
    pub traits: Vec<Trait>,
}

impl Project {
    /// A new, empty project starting on 2025-01-01 with the standard
    /// calendar and USD as currency.
    pub fn new(name: &str) -> (p: Project)
        ensures
            p.id@.len() == 0,
            p.name@ == name@,
            p.start == (Date { year: 2025, month: 1, day: 1 }),
            p.end is None,
            p.calendar@ == "default"@,
            p.currency@ == "USD"@,
            p.tasks@.len() == 0,
            p.resources@.len() == 0,
            p.calendars@.len() == 1,
            p.calendars@[0].id@ == "default"@,
            p.calendars@[0].holidays@.len() == 0,
            p.attributes@.len() == 0,
            p.profiles@.len() == 0,
            p.traits@.len() == 0,
    {
        Project {
            id: String::new(),
            name: name.to_owned(),
            start: Date { year: 2025, month: 1, day: 1 },
            end: None,
            calendar: "default".to_owned(),
            currency: "USD".to_owned(),
            tasks: Vec::new(),
            resources: Vec::new(),
            calendars: vec![Calendar::standard()],
            attributes: Vec::new(),
            profiles: Vec::new(),
            traits: Vec::new(),
        }
    }

    /// The first task, searching depth-first through the hierarchy, whose
    /// identifier is `id`.
    pub fn get_task(&self, id: &str) -> (r: Option<&Task>)
        ensures
            r is Some <==> find_task_in(self.tasks@, id@) is Some,
            r matches Some(x) ==> find_task_in(self.tasks@, id@) == Some(*x),
    {
        find_task_by_id(&self.tasks, id)
    }

    /// The resource with identifier `id`, the first one if several match.
    pub fn get_resource(&self, id: &str) -> (r: Option<&Resource>)
        ensures
            r is None <==> forall|i: int| 0 <= i < self.resources@.len() ==> #[trigger] self.resources@[i].id@ != id@,
            r matches Some(x) ==> exists|i: int|
                0 <= i < self.resources@.len() && *x == self.resources@[i] && x.id@ == id@ && forall|j: int|
                    0 <= j < i ==> #[trigger] self.resources@[j].id@ != id@,
    {
        let mut i: usize = 0;
        while i < self.resources.len()
            invariant
                i <= self.resources@.len(),
                forall|j: int| 0 <= j < i ==> #[trigger] self.resources@[j].id@ != id@,
            decreases self.resources@.len() - i,
        {
            if crate::text::str_eq(self.resources[i].id.as_str(), id) {
                return Some(&self.resources[i]);
            }
            i = i + 1;
        }
        None
    }

    /// The first resource profile with the given identifier.
    pub fn get_profile(&self, id: &str) -> (r: Option<&ResourceProfile>)
        ensures
            r is None <==> forall|i: int| 0 <= i < self.profiles@.len() ==> #[trigger] self.profiles@[i].id@ != id@,
            r matches Some(x) ==> exists|i: int|
                0 <= i < self.profiles@.len() && *x == self.profiles@[i] && x.id@ == id@ && forall|j: int|
                    0 <= j < i ==> #[trigger] self.profiles@[j].id@ != id@,
    {
        let mut i: usize = 0;
        while i < self.profiles.len()
            invariant
                i <= self.profiles@.len(),
                forall|j: int| 0 <= j < i ==> #[trigger] self.profiles@[j].id@ != id@,
            decreases self.profiles@.len() - i,
        {
            if crate::text::str_eq(self.profiles[i].id.as_str(), id) {
                return Some(&self.profiles[i]);
            }
            i = i + 1;
        }
        None
    }

    /// The first trait with the given identifier.
    pub fn get_trait(&self, id: &str) -> (r: Option<&Trait>)
        ensures
            r is None <==> forall|i: int| 0 <= i < self.traits@.len() ==> #[trigger] self.traits@[i].id@ != id@,
            r matches Some(x) ==> exists|i: int|
                0 <= i < self.traits@.len() && *x == self.traits@[i] && x.id@ == id@ && forall|j: int|
                    0 <= j < i ==> #[trigger] self.traits@[j].id@ != id@,
    {
        let mut i: usize = 0;
        while i < self.traits.len()
            invariant
                i <= self.traits@.len(),
                forall|j: int| 0 <= j < i ==> #[trigger] self.traits@[j].id@ != id@,
            decreases self.traits@.len() - i,
        {
            if crate::text::str_eq(self.traits[i].id.as_str(), id) {
                return Some(&self.traits[i]);
            }
            i = i + 1;
        }
        None
    }

    /// All leaf tasks (tasks without children), depth-first.
    pub fn leaf_tasks(&self) -> (r: Vec<&Task>)
        ensures
            r@.len() == leaves_of(self.tasks@).len(),
            forall|k: int| 0 <= k < r@.len() ==> *r@[k] == leaves_of(self.tasks@)[k],
    {
        let mut r: Vec<&Task> = Vec::new();
        collect_leaves(&self.tasks, &mut r);
        r
    }
}

} // verus!
