// Project status here carries no schedule performance index; the tests
// below leave out what they asserted of it.
use utf8proj::date::Date;
use utf8proj::model::{Duration, TaskStatus};
use utf8proj::project::{Project, Task};
use utf8proj::schedule::{Schedule, ScheduledTask};
use utf8proj::status::{ProjectStatus, StatusIndicator};

fn date(y: i32, m: u32, d: u32) -> Date {
    Date::from_ymd(y, m, d).unwrap()
}

fn create_test_project() -> Project {
    let mut project = Project::new("Test Project");
    project.start = date(2026, 1, 6);
    project
}

fn create_scheduled_task(
    task_id: &str,
    start: Date,
    finish: Date,
    status: TaskStatus,
    finish_variance_days: i64,
) -> ScheduledTask {
    let mut t = ScheduledTask::test_new(
        task_id,
        start,
        finish,
        Duration::days(finish.days_since(&start)),
        Duration::zero(),
        false,
    );
    t.remaining_duration = Duration::zero();
    t.percent_complete = match status {
        TaskStatus::Complete => 100,
        TaskStatus::InProgress | TaskStatus::AtRisk => 50,
        TaskStatus::NotStarted | TaskStatus::Blocked | TaskStatus::OnHold => 0,
    };
    t.status = status;
    t.finish_variance_days = finish_variance_days;
    t
}

#[allow(clippy::too_many_arguments)]
fn status(
    forecast_finish: Date,
    overall_progress: u8,
    variance_days: i64,
    planned_value: u8,
    earned_value: u8,
    counts: (usize, usize, usize, usize, usize, usize),
    days_remaining: i64,
) -> ProjectStatus {
    ProjectStatus {
        project_name: "Test".to_string(),
        status_date: date(2026, 2, 10),
        start_date: date(2026, 1, 6),
        baseline_finish: date(2026, 3, 15),
        forecast_finish,
        overall_progress,
        variance_days,
        planned_value,
        earned_value,
        total_tasks: counts.0,
        completed_tasks: counts.1,
        in_progress_tasks: counts.2,
        not_started_tasks: counts.3,
        behind_tasks: counts.4,
        critical_path_length: counts.5,
        days_remaining,
    }
}

#[test]
fn test_status_indicator_on_track() {
    let s = status(date(2026, 3, 13), 53, -2, 60, 53, (24, 12, 5, 7, 2, 8), 23);
    assert_eq!(s.status_indicator(), StatusIndicator::OnTrack);
}

#[test]
fn test_status_indicator_at_risk() {
    let s = status(date(2026, 3, 18), 45, 3, 60, 45, (24, 10, 6, 8, 4, 8), 26);
    assert_eq!(s.status_indicator(), StatusIndicator::AtRisk);
}

#[test]
fn test_status_indicator_behind() {
    let s = status(date(2026, 3, 25), 35, 10, 60, 35, (24, 8, 5, 11, 8, 8), 33);
    assert_eq!(s.status_indicator(), StatusIndicator::Behind);
}

#[test]
fn test_status_indicator_boundary_at_risk() {
    let s = status(date(2026, 3, 20), 50, 5, 60, 50, (10, 5, 3, 2, 2, 5), 28);
    assert_eq!(s.status_indicator(), StatusIndicator::AtRisk);
}

#[test]
fn test_status_indicator_boundary_behind() {
    let s = status(date(2026, 3, 21), 48, 6, 60, 48, (10, 5, 3, 2, 3, 5), 29);
    assert_eq!(s.status_indicator(), StatusIndicator::Behind);
}

#[test]
fn test_status_indicator_boundary_on_track() {
    let s = status(date(2026, 3, 15), 60, 0, 60, 60, (10, 6, 2, 2, 0, 5), 23);
    assert_eq!(s.status_indicator(), StatusIndicator::OnTrack);
}

#[test]
fn test_variance_string_ahead() {
    let s = status(date(2026, 3, 12), 55, -3, 50, 55, (10, 5, 3, 2, 0, 5), 20);
    assert_eq!(s.variance_string(), "3 days ahead");
}

#[test]
fn test_variance_string_late() {
    let s = status(date(2026, 3, 17), 45, 2, 50, 45, (10, 4, 4, 2, 2, 5), 25);
    assert_eq!(s.variance_string(), "+2 days late");
}

#[test]
fn test_variance_string_on_schedule() {
    let s = status(date(2026, 3, 15), 50, 0, 50, 50, (10, 5, 3, 2, 0, 5), 23);
    assert_eq!(s.variance_string(), "on schedule");
}

#[allow(clippy::too_many_arguments)]
fn schedule(
    tasks: Vec<ScheduledTask>,
    critical_path: &[&str],
    project_duration: Duration,
    project_end: Date,
    project_progress: u8,
    project_baseline_finish: Date,
    project_forecast_finish: Date,
    project_variance_days: i64,
    planned_value: u8,
    earned_value: u8,
) -> Schedule {
    Schedule {
        tasks,
        critical_path: critical_path.iter().map(|s| s.to_string()).collect(),
        project_duration,
        project_end,
        project_progress,
        project_baseline_finish,
        project_forecast_finish,
        project_variance_days,
        planned_value,
        earned_value,
    }
}

#[test]
fn test_from_schedule_empty_project() {
    let project = create_test_project();
    let s = schedule(
        vec![],
        &[],
        Duration::zero(),
        date(2026, 1, 6),
        0,
        date(2026, 1, 6),
        date(2026, 1, 6),
        0,
        0,
        0,
    );
    let status = ProjectStatus::from_schedule(&project, &s, date(2026, 2, 10));
    assert_eq!(status.project_name, "Test Project");
    assert_eq!(status.total_tasks, 0);
    assert_eq!(status.completed_tasks, 0);
    assert_eq!(status.in_progress_tasks, 0);
    assert_eq!(status.not_started_tasks, 0);
    assert_eq!(status.behind_tasks, 0);
    assert_eq!(status.critical_path_length, 0);
}

#[test]
fn test_from_schedule_task_counts() {
    let project = create_test_project();
    let tasks = vec![
        create_scheduled_task("task1", date(2026, 1, 6), date(2026, 1, 10), TaskStatus::Complete, 0),
        create_scheduled_task("task2", date(2026, 1, 11), date(2026, 1, 15), TaskStatus::InProgress, 0),
        create_scheduled_task("task3", date(2026, 1, 11), date(2026, 1, 17), TaskStatus::InProgress, 2),
        create_scheduled_task("task4", date(2026, 1, 18), date(2026, 1, 22), TaskStatus::NotStarted, 0),
    ];
    let s = schedule(
        tasks,
        &["task1", "task2"],
        Duration::days(17),
        date(2026, 1, 22),
        40,
        date(2026, 1, 22),
        date(2026, 1, 22),
        0,
        50,
        40,
    );
    let status = ProjectStatus::from_schedule(&project, &s, date(2026, 1, 13));
    assert_eq!(status.total_tasks, 4);
    assert_eq!(status.completed_tasks, 1);
    assert_eq!(status.in_progress_tasks, 2);
    assert_eq!(status.not_started_tasks, 1);
    assert_eq!(status.behind_tasks, 1);
    assert_eq!(status.critical_path_length, 2);
    assert_eq!(status.overall_progress, 40);
}

#[test]
fn test_from_schedule_all_complete() {
    let project = create_test_project();
    let tasks = vec![
        create_scheduled_task("task1", date(2026, 1, 6), date(2026, 1, 10), TaskStatus::Complete, 0),
        create_scheduled_task("task2", date(2026, 1, 11), date(2026, 1, 15), TaskStatus::Complete, 0),
    ];
    let s = schedule(
        tasks,
        &["task1", "task2"],
        Duration::days(10),
        date(2026, 1, 15),
        100,
        date(2026, 1, 15),
        date(2026, 1, 15),
        0,
        100,
        100,
    );
    let status = ProjectStatus::from_schedule(&project, &s, date(2026, 1, 16));
    assert_eq!(status.total_tasks, 2);
    assert_eq!(status.completed_tasks, 2);
    assert_eq!(status.in_progress_tasks, 0);
    assert_eq!(status.not_started_tasks, 0);
    assert_eq!(status.overall_progress, 100);
}

#[test]
fn test_from_schedule_days_remaining() {
    let project = create_test_project();
    let tasks =
        vec![create_scheduled_task("task1", date(2026, 1, 6), date(2026, 1, 20), TaskStatus::InProgress, 0)];
    let s = schedule(
        tasks,
        &["task1"],
        Duration::days(15),
        date(2026, 1, 20),
        50,
        date(2026, 1, 20),
        date(2026, 1, 22),
        2,
        50,
        50,
    );
    let status = ProjectStatus::from_schedule(&project, &s, date(2026, 1, 10));
    // 12 days from Jan 10 to Jan 22 (forecast finish)
    assert_eq!(status.days_remaining, 12);
}

#[test]
fn test_status_indicator_display() {
    assert_eq!(StatusIndicator::OnTrack.as_str(), "On Track");
    assert_eq!(StatusIndicator::AtRisk.as_str(), "At Risk");
    assert_eq!(StatusIndicator::Behind.as_str(), "Behind");
}

#[test]
fn test_earned_value_metrics() {
    let project = create_test_project();
    let tasks =
        vec![create_scheduled_task("task1", date(2026, 1, 6), date(2026, 1, 15), TaskStatus::InProgress, 0)];
    let s = schedule(
        tasks,
        &["task1"],
        Duration::days(10),
        date(2026, 1, 15),
        53,
        date(2026, 1, 15),
        date(2026, 1, 17),
        2,
        60,
        53,
    );
    let status = ProjectStatus::from_schedule(&project, &s, date(2026, 1, 10));
    assert_eq!(status.planned_value, 60);
    assert_eq!(status.earned_value, 53);
}

#[test]
fn status_counts_blocked_and_at_risk_tasks() {
    let project = create_test_project();
    let tasks = vec![
        create_scheduled_task("a", date(2026, 1, 6), date(2026, 1, 10), TaskStatus::AtRisk, 0),
        create_scheduled_task("b", date(2026, 1, 6), date(2026, 1, 10), TaskStatus::Blocked, 0),
        create_scheduled_task("c", date(2026, 1, 6), date(2026, 1, 10), TaskStatus::OnHold, 0),
    ];
    let s = schedule(
        tasks,
        &[],
        Duration::days(4),
        date(2026, 1, 10),
        10,
        date(2026, 1, 10),
        date(2026, 1, 12),
        2,
        20,
        10,
    );
    let status = ProjectStatus::from_schedule(&project, &s, date(2026, 1, 8));
    assert_eq!(status.in_progress_tasks, 1);
    assert_eq!(status.not_started_tasks, 2);
    assert_eq!(status.start_date, date(2026, 1, 6));
    assert_eq!(status.variance_string(), "+2 days late");
    assert_eq!(status.status_indicator(), StatusIndicator::AtRisk);
}

#[test]
fn test_from_schedule_counts_leaf_tasks_only() {
    let mut project = create_test_project();
    project.tasks.push(Task::new("phase").child(Task::new("a")).child(Task::new("b")));
    let tasks = vec![
        create_scheduled_task("phase", date(2026, 1, 6), date(2026, 1, 15), TaskStatus::InProgress, 3),
        create_scheduled_task("a", date(2026, 1, 6), date(2026, 1, 10), TaskStatus::Complete, 0),
        create_scheduled_task("b", date(2026, 1, 11), date(2026, 1, 15), TaskStatus::NotStarted, 0),
    ];
    let s = schedule(
        tasks,
        &["a", "b"],
        Duration::days(9),
        date(2026, 1, 15),
        50,
        date(2026, 1, 15),
        date(2026, 1, 15),
        0,
        50,
        50,
    );
    let status = ProjectStatus::from_schedule(&project, &s, date(2026, 1, 8));
    assert_eq!(status.total_tasks, 2);
    assert_eq!(status.completed_tasks, 1);
    assert_eq!(status.in_progress_tasks, 0);
    assert_eq!(status.not_started_tasks, 1);
    assert_eq!(status.behind_tasks, 0);
}
