use utf8proj::model::{CostPolicy, Duration, SchedulingMode, TaskStatus};

#[test]
fn task_status_display() {
    assert_eq!(TaskStatus::NotStarted.as_str(), "Not Started");
    assert_eq!(TaskStatus::InProgress.as_str(), "In Progress");
    assert_eq!(TaskStatus::Complete.as_str(), "Complete");
    assert_eq!(TaskStatus::Blocked.as_str(), "Blocked");
    assert_eq!(TaskStatus::AtRisk.as_str(), "At Risk");
    assert_eq!(TaskStatus::OnHold.as_str(), "On Hold");
}

#[test]
fn cost_policy_default_is_midpoint() {
    assert_eq!(CostPolicy::default(), CostPolicy::Midpoint);
}

#[test]
fn scheduling_mode_default_is_duration_based() {
    assert_eq!(SchedulingMode::default(), SchedulingMode::DurationBased);
}

#[test]
fn scheduling_mode_description() {
    assert_eq!(SchedulingMode::DurationBased.description(), "duration-based (no effort tracking)");
    assert_eq!(SchedulingMode::EffortBased.description(), "effort-based (no cost tracking)");
    assert_eq!(SchedulingMode::ResourceLoaded.description(), "resource-loaded (full tracking)");
}

#[test]
fn scheduling_mode_display() {
    assert_eq!(SchedulingMode::DurationBased.description(), "duration-based (no effort tracking)");
    assert_eq!(SchedulingMode::ResourceLoaded.description(), "resource-loaded (full tracking)");
}

#[test]
fn scheduling_mode_capabilities_duration_based() {
    let caps = SchedulingMode::DurationBased.capabilities();
    assert!(caps.timeline);
    assert!(!caps.utilization);
    assert!(!caps.cost_tracking);
}

#[test]
fn scheduling_mode_capabilities_effort_based() {
    let caps = SchedulingMode::EffortBased.capabilities();
    assert!(caps.timeline);
    assert!(caps.utilization);
    assert!(!caps.cost_tracking);
}

#[test]
fn scheduling_mode_capabilities_resource_loaded() {
    let caps = SchedulingMode::ResourceLoaded.capabilities();
    assert!(caps.timeline);
    assert!(caps.utilization);
    assert!(caps.cost_tracking);
}

#[test]
fn duration_constructors() {
    let d_min = Duration::minutes(120);
    assert_eq!(d_min.minutes, 120);
    let d_hours = Duration::hours(3);
    assert_eq!(d_hours.minutes, 180);
    let d_weeks = Duration::weeks(1);
    assert_eq!(d_weeks.minutes, 5 * 8 * 60);
    assert_eq!(Duration::days(2).minutes, 960);
}

#[test]
fn duration_arithmetic() {
    let d1 = Duration::days(5);
    let d2 = Duration::days(3);
    assert_eq!(d1.plus(d2).minutes, 8 * 480);
    assert_eq!(d1.minus(d2).minutes, 2 * 480);
}

#[test]
fn task_status_from_keyword() {
    assert_eq!(TaskStatus::from_keyword("in_progress"), TaskStatus::InProgress);
    assert_eq!(TaskStatus::from_keyword("on_hold"), TaskStatus::OnHold);
    assert_eq!(TaskStatus::from_keyword("whatever"), TaskStatus::NotStarted);
}
