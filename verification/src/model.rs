//! Plain domain values of the project model: working-time durations,
//! dependencies, task status, scheduling modes and the result and error
//! types of scheduling.
use vstd::prelude::*;

verus! {

/// Minutes in one working day (8-hour workday).
pub const MINUTES_PER_DAY: i64 = 480;

/// Minutes in one working week (5-day workweek).
pub const MINUTES_PER_WEEK: i64 = 2400;

/// Duration in working time, counted in minutes.
#[derive(Clone, Copy, Debug, PartialEq, Eq, Structural)]
pub struct Duration {
    /// Number of minutes
    pub minutes: i64,
}

impl Duration {
    /// The empty duration.
    pub fn zero() -> (d: Self)
        ensures
            d.minutes == 0,
    {
        Duration { minutes: 0 }
    }

    /// A duration of `m` minutes.
    pub fn minutes(m: i64) -> (d: Self)
        ensures
            d.minutes == m,
    {
        Duration { minutes: m }
    }

    /// A duration of `h` hours.
    pub fn hours(h: i64) -> (d: Self)
        requires
            i64::MIN <= h * 60 <= i64::MAX,
        ensures
            d.minutes == h * 60,
    {
        Duration { minutes: h * 60 }
    }

    /// A duration of `d` working days of eight hours.
    pub fn days(d: i64) -> (r: Self)
        requires
            i64::MIN <= d * MINUTES_PER_DAY <= i64::MAX,
        ensures
            r.minutes == d * MINUTES_PER_DAY,
    {
        Duration { minutes: d * MINUTES_PER_DAY }
    }

    /// A duration of `w` working weeks of five days.
    pub fn weeks(w: i64) -> (r: Self)
        requires
            i64::MIN <= w * MINUTES_PER_WEEK <= i64::MAX,
        ensures
            r.minutes == w * MINUTES_PER_WEEK,
    {
        Duration { minutes: w * MINUTES_PER_WEEK }
    }

    /// Sum of two durations.
    pub fn plus(self, rhs: Duration) -> (r: Duration)
        requires
            i64::MIN <= self.minutes + rhs.minutes <= i64::MAX,
        ensures
            r.minutes == self.minutes + rhs.minutes,
    {
        Duration { minutes: self.minutes + rhs.minutes }
    }

    /// Difference of two durations.
    pub fn minus(self, rhs: Duration) -> (r: Duration)
        requires
            i64::MIN <= self.minutes - rhs.minutes <= i64::MAX,
        ensures
            r.minutes == self.minutes - rhs.minutes,
    {
        Duration { minutes: self.minutes - rhs.minutes }
    }
}

/// Types of task dependencies.
#[derive(Clone, Copy, Debug, PartialEq, Eq, Structural)]
pub enum DependencyType {
    /// Finish-to-Start: successor starts after predecessor finishes
    FinishToStart,
    /// Start-to-Start: successor starts when predecessor starts
    StartToStart,
    /// Finish-to-Finish: successor finishes when predecessor finishes
    FinishToFinish,
    /// Start-to-Finish: successor finishes when predecessor starts
    StartToFinish,
}

impl Default for DependencyType {
    fn default() -> (d: Self)
        ensures
            d == DependencyType::FinishToStart,
    {
        DependencyType::FinishToStart
    }
}

impl DependencyType {
    /// The dependency type named by its two-letter code (FS, SS, FF, SF);
    /// any other text means finish-to-start.
    pub open spec fn from_code_spec(code: Seq<char>) -> DependencyType {
        if code == "SS"@ {
            DependencyType::StartToStart
        } else if code == "FF"@ {
            DependencyType::FinishToFinish
        } else if code == "SF"@ {
            DependencyType::StartToFinish
        } else {
            DependencyType::FinishToStart
        }
    }

    /// The dependency type named by its two-letter code (FS, SS, FF, SF);
    /// any other text means finish-to-start.
    pub fn from_code(code: &str) -> (d: DependencyType)
        ensures
            d == Self::from_code_spec(code@),
    {
        if crate::text::str_eq(code, "SS") {
            DependencyType::StartToStart
        } else if crate::text::str_eq(code, "FF") {
            DependencyType::FinishToFinish
        } else if crate::text::str_eq(code, "SF") {
            DependencyType::StartToFinish
        } else {
            DependencyType::FinishToStart
        }
    }
}

/// Task dependency with type and lag.
#[derive(Clone, Debug)]
pub struct Dependency {
    /// ID of the predecessor task
    pub predecessor: String,
    /// Type of dependency
    pub dep_type: DependencyType,
    /// Lag time (positive) or lead time (negative)
    pub lag: Option<Duration>,
}

/// Task status for progress tracking.
#[derive(Clone, Copy, Debug, PartialEq, Eq, Structural)]
pub enum TaskStatus {
    NotStarted,
    InProgress,
    Complete,
    Blocked,
    AtRisk,
    OnHold,
}

impl Default for TaskStatus {
    fn default() -> (s: Self)
        ensures
            s == TaskStatus::NotStarted,
    {
        TaskStatus::NotStarted
    }
}

impl TaskStatus {
    /// Human-readable status text.
    pub open spec fn text(self) -> Seq<char> {
        match self {
            TaskStatus::NotStarted => "Not Started"@,
            TaskStatus::InProgress => "In Progress"@,
            TaskStatus::Complete => "Complete"@,
            TaskStatus::Blocked => "Blocked"@,
            TaskStatus::AtRisk => "At Risk"@,
            TaskStatus::OnHold => "On Hold"@,
        }
    }

    /// Human-readable status text (e.g. "Not Started").
    pub fn as_str(&self) -> (s: &'static str)
        ensures
            s@ == self.text(),
    {
        match self {
            TaskStatus::NotStarted => "Not Started",
            TaskStatus::InProgress => "In Progress",
            TaskStatus::Complete => "Complete",
            TaskStatus::Blocked => "Blocked",
            TaskStatus::AtRisk => "At Risk",
            TaskStatus::OnHold => "On Hold",
        }
    }

    /// The status named by its keyword in project files; any other text
    /// means not started.
    pub open spec fn from_keyword_spec(k: Seq<char>) -> TaskStatus {
        if k == "in_progress"@ {
            TaskStatus::InProgress
        } else if k == "complete"@ {
            TaskStatus::Complete
        } else if k == "blocked"@ {
            TaskStatus::Blocked
        } else if k == "at_risk"@ {
            TaskStatus::AtRisk
        } else if k == "on_hold"@ {
            TaskStatus::OnHold
        } else {
            TaskStatus::NotStarted
        }
    }

    /// The status named by its keyword in project files (`not_started`,
    /// `in_progress`, `complete`, `blocked`, `at_risk`, `on_hold`); any
    /// other text means not started.
    pub fn from_keyword(k: &str) -> (s: TaskStatus)
        ensures
            s == Self::from_keyword_spec(k@),
    {
        if crate::text::str_eq(k, "in_progress") {
            TaskStatus::InProgress
        } else if crate::text::str_eq(k, "complete") {
            TaskStatus::Complete
        } else if crate::text::str_eq(k, "blocked") {
            TaskStatus::Blocked
        } else if crate::text::str_eq(k, "at_risk") {
            TaskStatus::AtRisk
        } else if crate::text::str_eq(k, "on_hold") {
            TaskStatus::OnHold
        } else {
            TaskStatus::NotStarted
        }
    }
}

/// Scheduling mode classification for capability awareness.
///
/// Describes what kind of schedule a project represents, not whether it is
/// correct or complete.
#[derive(Clone, Copy, Debug, PartialEq, Eq, Structural)]
pub enum SchedulingMode {
    /// Tasks use `duration:` only, no effort or resource assignments
    DurationBased,
    /// Tasks use `effort:` with resource assignments
    EffortBased,
    /// Tasks use `effort:` with resource assignments and resources have rates
    ResourceLoaded,
}

impl Default for SchedulingMode {
    fn default() -> (m: Self)
        ensures
            m == SchedulingMode::DurationBased,
    {
        SchedulingMode::DurationBased
    }
}

/// Capabilities available for a given scheduling mode.
#[derive(Clone, Copy, Debug, PartialEq, Eq, Structural)]
pub struct SchedulingCapabilities {
    /// Can calculate task start/end dates
    pub timeline: bool,
    /// Can track resource utilization
    pub utilization: bool,
    /// Can track project costs
    pub cost_tracking: bool,
}

impl SchedulingMode {
    /// Human-readable description.
    pub open spec fn text(self) -> Seq<char> {
        match self {
            SchedulingMode::DurationBased => "duration-based (no effort tracking)"@,
            SchedulingMode::EffortBased => "effort-based (no cost tracking)"@,
            SchedulingMode::ResourceLoaded => "resource-loaded (full tracking)"@,
        }
    }

    /// Human-readable description for diagnostics.
    pub fn description(&self) -> (s: &'static str)
        ensures
            s@ == self.text(),
    {
        match self {
            SchedulingMode::DurationBased => "duration-based (no effort tracking)",
            SchedulingMode::EffortBased => "effort-based (no cost tracking)",
            SchedulingMode::ResourceLoaded => "resource-loaded (full tracking)",
        }
    }

    /// What capabilities are available in this mode: a timeline always,
    /// utilization once effort is tracked, cost once resources are loaded.
    pub fn capabilities(&self) -> (c: SchedulingCapabilities)
        ensures
            c.timeline,
            c.utilization == (*self != SchedulingMode::DurationBased),
            c.cost_tracking == (*self == SchedulingMode::ResourceLoaded),
    {
        match self {
            SchedulingMode::DurationBased => SchedulingCapabilities {
                timeline: true,
                utilization: false,
                cost_tracking: false,
            },
            SchedulingMode::EffortBased => SchedulingCapabilities {
                timeline: true,
                utilization: true,
                cost_tracking: false,
            },
            SchedulingMode::ResourceLoaded => SchedulingCapabilities {
                timeline: true,
                utilization: true,
                cost_tracking: true,
            },
        }
    }
}

/// Capabilities only grow along the modes: every capability of a mode is
/// also a capability of each mode after it.
pub proof fn lemma_capabilities_monotone(a: SchedulingMode, b: SchedulingMode)
    requires
        mode_rank(a) <= mode_rank(b),
    ensures
        (a != SchedulingMode::DurationBased) ==> (b != SchedulingMode::DurationBased),
        (a == SchedulingMode::ResourceLoaded) ==> (b == SchedulingMode::ResourceLoaded),
{
}

/// Position of a mode in the order duration-based, effort-based, resource-loaded.
pub open spec fn mode_rank(m: SchedulingMode) -> int {
    match m {
        SchedulingMode::DurationBased => 0,
        SchedulingMode::EffortBased => 1,
        SchedulingMode::ResourceLoaded => 2,
    }
}

/// Policy for calculating expected cost from ranges.
#[derive(Clone, Copy, Debug, PartialEq, Eq, Structural)]
pub enum CostPolicy {
    /// Use midpoint: (min + max) / 2
    Midpoint,
    /// Use minimum (optimistic)
    Optimistic,
    /// Use maximum (pessimistic)
    Pessimistic,
}

impl Default for CostPolicy {
    fn default() -> (p: Self)
        ensures
            p == CostPolicy::Midpoint,
    {
        CostPolicy::Midpoint
    }
}

/// Kind of scheduling conflict.
#[derive(Clone, Copy, Debug, PartialEq, Eq, Structural)]
pub enum ConflictType {
    CircularDependency,
    ResourceOverallocation,
    ImpossibleConstraint,
    DeadlineMissed,
}

/// Scheduling conflict.
#[derive(Clone, Debug)]
pub struct Conflict {
    pub conflict_type: ConflictType,
    pub description: String,
    pub involved_tasks: Vec<String>,
    pub involved_resources: Vec<String>,
}

/// Suggestion for resolving issues.
#[derive(Clone, Debug)]
pub struct Suggestion {
    pub description: String,
    pub impact: String,
}

/// Result of feasibility check.
#[derive(Clone, Debug)]
pub struct FeasibilityResult {
    pub feasible: bool,
    pub conflicts: Vec<Conflict>,
    pub suggestions: Vec<Suggestion>,
}

/// Type of effect a constraint has on scheduling.
#[derive(Clone, Copy, Debug, PartialEq, Eq, Structural)]
pub enum ConstraintEffectType {
    /// Constraint pushed ES/EF forward (floor constraint active)
    PushedStart,
    /// Constraint capped LS/LF (ceiling constraint active)
    CappedLate,
    /// Constraint pinned task to specific date (MustStartOn/MustFinishOn)
    Pinned,
    /// Constraint was redundant (dependencies already more restrictive)
    Redundant,
}

/// Scheduling error.
#[derive(Clone, Debug, PartialEq, Eq)]
pub enum ScheduleError {
    CircularDependency(String),
    ResourceNotFound(String),
    TaskNotFound(String),
    CalendarNotFound(String),
    Infeasible(String),
    ConstraintViolation(String),
    Internal(String),
}

/// Rendering error.
#[derive(Clone, Debug, PartialEq, Eq)]
pub enum RenderError {
    /// An input/output failure, by its message
    Io(String),
    Format(String),
    InvalidData(String),
}

impl ScheduleError {
    /// The error message text.
    pub open spec fn text(self) -> Seq<char> {
        match self {
            ScheduleError::CircularDependency(s) => "Circular dependency detected: "@ + s@,
            ScheduleError::ResourceNotFound(s) => "Resource not found: "@ + s@,
            ScheduleError::TaskNotFound(s) => "Task not found: "@ + s@,
            ScheduleError::CalendarNotFound(s) => "Calendar not found: "@ + s@,
            ScheduleError::Infeasible(s) => "Infeasible schedule: "@ + s@,
            ScheduleError::ConstraintViolation(s) => "Constraint violation: "@ + s@,
            ScheduleError::Internal(s) => "Internal error: "@ + s@,
        }
    }

    /// The error message (as its `Display` would render it).
    pub fn message(&self) -> (r: String)
        ensures
            r@ == self.text(),
    {
        let (prefix, detail) = match self {
            ScheduleError::CircularDependency(s) => ("Circular dependency detected: ", s),
            ScheduleError::ResourceNotFound(s) => ("Resource not found: ", s),
            ScheduleError::TaskNotFound(s) => ("Task not found: ", s),
            ScheduleError::CalendarNotFound(s) => ("Calendar not found: ", s),
            ScheduleError::Infeasible(s) => ("Infeasible schedule: ", s),
            ScheduleError::ConstraintViolation(s) => ("Constraint violation: ", s),
            ScheduleError::Internal(s) => ("Internal error: ", s),
        };
        let mut r = String::new();
        crate::text::push_str(&mut r, prefix);
        crate::text::push_str(&mut r, detail.as_str());
        r
    }
}

impl RenderError {
    /// The error message text.
    pub open spec fn text(self) -> Seq<char> {
        match self {
            RenderError::Io(s) => "IO error: "@ + s@,
            RenderError::Format(s) => "Format error: "@ + s@,
            RenderError::InvalidData(s) => "Invalid data: "@ + s@,
        }
    }

    /// The error message (as its `Display` would render it).
    pub fn message(&self) -> (r: String)
        ensures
            r@ == self.text(),
    {
        let (prefix, detail) = match self {
            RenderError::Io(s) => ("IO error: ", s),
            RenderError::Format(s) => ("Format error: ", s),
            RenderError::InvalidData(s) => ("Invalid data: ", s),
        };
        let mut r = String::new();
        crate::text::push_str(&mut r, prefix);
        crate::text::push_str(&mut r, detail.as_str());
        r
    }
}

} // verus!
