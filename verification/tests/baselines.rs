use utf8proj::baseline::{
    compare_schedule_to_baseline, count_containers, extract_leaf_tasks, Baseline, BaselineError, BaselineStore,
    ComparisonSummary, TaskSnapshot, TaskVariance, VarianceStatus,
};
use utf8proj::date::Date;
use utf8proj::model::Duration;
use utf8proj::project::{Project, Task};
use utf8proj::schedule::{Schedule, ScheduledTask};

fn date(y: i32, m: u32, d: u32) -> Date {
    Date::from_ymd(y, m, d).unwrap()
}

#[test]
fn test_task_snapshot_new() {
    let snapshot = TaskSnapshot::new("design", date(2026, 1, 1), date(2026, 1, 10));
    assert_eq!(snapshot.task_id, "design");
    assert_eq!(snapshot.start, date(2026, 1, 1));
    assert_eq!(snapshot.finish, date(2026, 1, 10));
}

#[test]
fn test_baseline_add_task() {
    let mut b = Baseline::new("original");
    assert_eq!(b.project_finish, date(1970, 1, 1));
    b.add_task(TaskSnapshot::new("design", date(2026, 1, 1), date(2026, 1, 10)));
    b.add_task(TaskSnapshot::new("build", date(2026, 1, 11), date(2026, 2, 15)));
    assert_eq!(b.task_count(), 2);
    assert_eq!(b.project_finish, date(2026, 2, 15));
    assert_eq!(b.tasks[0].task_id, "build");
    b.add_task(TaskSnapshot::new("design", date(2026, 1, 2), date(2026, 1, 3)));
    assert_eq!(b.task_count(), 2);
    assert_eq!(b.tasks[1].start, date(2026, 1, 2));
    assert_eq!(b.project_finish, date(2026, 2, 15));
}

#[test]
fn test_baseline_store_operations() {
    let mut store = BaselineStore::new();
    assert!(store.is_empty());
    store.add(Baseline::new("v2")).unwrap();
    store.add(Baseline::new("original")).unwrap();
    assert_eq!(store.len(), 2);
    assert!(store.contains("v2"));
    assert!(store.get("original").is_some());
    assert_eq!(store.names(), vec!["original", "v2"]);
    assert_eq!(store.add(Baseline::new("v2")), Err(BaselineError::AlreadyExists("v2".to_string())));
    let removed = store.remove("v2").unwrap();
    assert_eq!(removed.name, "v2");
    assert!(store.remove("v2").is_none());
    assert_eq!(store.len(), 1);
}

#[test]
fn test_task_variance_kinds() {
    let v = TaskVariance::existing("t", date(2026, 1, 1), date(2026, 1, 10), date(2026, 1, 3), date(2026, 1, 15));
    assert_eq!(v.start_variance_days, Some(2));
    assert_eq!(v.finish_variance_days, Some(5));
    assert_eq!(v.status, VarianceStatus::Delayed);
    let v = TaskVariance::existing("t", date(2026, 1, 1), date(2026, 1, 10), date(2025, 12, 30), date(2026, 1, 8));
    assert_eq!(v.start_variance_days, Some(-2));
    assert_eq!(v.status, VarianceStatus::Ahead);
    let v = TaskVariance::existing("t", date(2026, 1, 1), date(2026, 1, 10), date(2026, 1, 1), date(2026, 1, 10));
    assert_eq!(v.status, VarianceStatus::OnSchedule);
    let v = TaskVariance::added("n", date(2026, 1, 1), date(2026, 1, 2));
    assert_eq!(v.status, VarianceStatus::Added);
    assert!(v.baseline_start.is_none());
    let v = TaskVariance::removed("r", date(2026, 1, 1), date(2026, 1, 2));
    assert_eq!(v.status, VarianceStatus::Removed);
    assert!(v.current_finish.is_none());
}

#[test]
fn test_variance_status_display() {
    assert_eq!(VarianceStatus::OnSchedule.as_str(), "on_schedule");
    assert_eq!(VarianceStatus::Delayed.as_str(), "delayed");
    assert_eq!(VarianceStatus::Ahead.as_str(), "ahead");
    assert_eq!(VarianceStatus::Added.as_str(), "added");
    assert_eq!(VarianceStatus::Removed.as_str(), "removed");
}

#[test]
fn test_baseline_error_display() {
    assert_eq!(BaselineError::AlreadyExists("original".to_string()).message(), "Baseline \"original\" already exists");
    assert_eq!(BaselineError::NotFound("missing".to_string()).message(), "Baseline \"missing\" not found");
    assert_eq!(BaselineError::NoBaselinesFile.message(), "No baselines file found for this project");
    assert_eq!(BaselineError::TasksWithoutIds(5).message(), "Cannot baseline: 5 tasks have no ID");
}

#[test]
fn test_comparison_summary_default() {
    let summary = ComparisonSummary::default();
    assert_eq!(summary.tasks_compared, 0);
    assert_eq!(summary.project_variance_days, 0);
}

fn st(id: &str, s: Date, f: Date) -> ScheduledTask {
    ScheduledTask::test_new(id, s, f, Duration::days(1), Duration::zero(), false)
}

#[test]
fn compare_against_baseline() {
    let mut project = Project::new("P");
    project.tasks.push(Task::new("phase").child(Task::new("a")));
    project.tasks.push(Task::new("b"));
    project.tasks.push(Task::new("c"));
    let schedule = Schedule {
        tasks: vec![
            st("c", date(2026, 1, 5), date(2026, 1, 9)),
            st("phase", date(2026, 1, 1), date(2026, 1, 12)),
            st("phase.a", date(2026, 1, 1), date(2026, 1, 12)),
            st("b", date(2026, 1, 1), date(2026, 1, 3)),
        ],
        critical_path: vec![],
        project_duration: Duration::days(10),
        project_end: date(2026, 1, 12),
        project_progress: 0,
        project_baseline_finish: date(2026, 1, 12),
        project_forecast_finish: date(2026, 1, 12),
        project_variance_days: 0,
        planned_value: 0,
        earned_value: 0,
    };
    let mut baseline = Baseline::new("original");
    baseline.add_task(TaskSnapshot::new("phase.a", date(2026, 1, 1), date(2026, 1, 10)));
    baseline.add_task(TaskSnapshot::new("b", date(2026, 1, 1), date(2026, 1, 5)));
    baseline.add_task(TaskSnapshot::new("gone", date(2026, 1, 1), date(2026, 1, 2)));
    let cmp = compare_schedule_to_baseline(&schedule, &baseline, &project);
    let ids: Vec<&str> = cmp.tasks.iter().map(|v| v.task_id.as_str()).collect();
    assert_eq!(ids, vec!["b", "c", "gone", "phase.a"]);
    assert_eq!(cmp.tasks[0].status, VarianceStatus::Ahead);
    assert_eq!(cmp.tasks[0].finish_variance_days, Some(-2));
    assert_eq!(cmp.tasks[1].status, VarianceStatus::Added);
    assert_eq!(cmp.tasks[2].status, VarianceStatus::Removed);
    assert_eq!(cmp.tasks[3].status, VarianceStatus::Delayed);
    assert_eq!(cmp.summary.tasks_compared, 2);
    assert_eq!(cmp.summary.tasks_ahead, 1);
    assert_eq!(cmp.summary.tasks_delayed, 1);
    assert_eq!(cmp.summary.tasks_added, 1);
    assert_eq!(cmp.summary.tasks_removed, 1);
    assert_eq!(cmp.summary.project_variance_days, 2);
    assert_eq!(count_containers(&project), 1);
    let leaves = extract_leaf_tasks(&schedule, &project);
    let ids: Vec<&str> = leaves.iter().map(|s| s.task_id.as_str()).collect();
    assert_eq!(ids, vec!["b", "c", "phase.a"]);
}

#[test]
fn test_baseline_new() {
    let baseline = Baseline::new("original").description("Initial plan").parent("none");
    assert_eq!(baseline.name, "original");
    assert_eq!(baseline.description, Some("Initial plan".to_string()));
    assert_eq!(baseline.parent, Some("none".to_string()));
    assert!(baseline.tasks.is_empty());
}

#[test]
fn test_baseline_store_add_and_get() {
    let mut store = BaselineStore::new();
    let baseline = Baseline::new("original");
    store.add(baseline.clone()).unwrap();
    assert!(store.contains("original"));
    assert_eq!(store.get("original").unwrap().name, "original");
    assert_eq!(store.len(), 1);
}

#[test]
fn test_baseline_store_duplicate_error() {
    let mut store = BaselineStore::new();
    store.add(Baseline::new("original")).unwrap();
    let result = store.add(Baseline::new("original"));
    assert!(matches!(result, Err(BaselineError::AlreadyExists(_))));
}

#[test]
fn test_baseline_store_remove() {
    let mut store = BaselineStore::new();
    store.add(Baseline::new("original")).unwrap();
    let removed = store.remove("original");
    assert!(removed.is_some());
    assert!(!store.contains("original"));
}

#[test]
fn test_baseline_store_names() {
    let mut store = BaselineStore::new();
    store.add(Baseline::new("original")).unwrap();
    store.add(Baseline::new("change_order")).unwrap();
    let names = store.names();
    assert_eq!(names, vec!["change_order", "original"]);
}

#[test]
fn test_task_variance_existing_on_schedule() {
    let variance =
        TaskVariance::existing("design", date(2026, 1, 1), date(2026, 1, 10), date(2026, 1, 1), date(2026, 1, 10));
    assert_eq!(variance.status, VarianceStatus::OnSchedule);
    assert_eq!(variance.finish_variance_days, Some(0));
}

#[test]
fn test_task_variance_existing_delayed() {
    let variance =
        TaskVariance::existing("design", date(2026, 1, 1), date(2026, 1, 10), date(2026, 1, 3), date(2026, 1, 15));
    assert_eq!(variance.status, VarianceStatus::Delayed);
    assert_eq!(variance.finish_variance_days, Some(5));
    assert_eq!(variance.start_variance_days, Some(2));
}

#[test]
fn test_task_variance_existing_ahead() {
    let variance =
        TaskVariance::existing("design", date(2026, 1, 5), date(2026, 1, 15), date(2026, 1, 1), date(2026, 1, 10));
    assert_eq!(variance.status, VarianceStatus::Ahead);
    assert_eq!(variance.finish_variance_days, Some(-5));
}

#[test]
fn test_task_variance_added() {
    let variance = TaskVariance::added("new_task", date(2026, 2, 1), date(2026, 2, 10));
    assert_eq!(variance.status, VarianceStatus::Added);
    assert!(variance.baseline_start.is_none());
    assert!(variance.baseline_finish.is_none());
    assert_eq!(variance.current_start, Some(date(2026, 2, 1)));
}

#[test]
fn test_task_variance_removed() {
    let variance = TaskVariance::removed("old_task", date(2026, 1, 1), date(2026, 1, 10));
    assert_eq!(variance.status, VarianceStatus::Removed);
    assert!(variance.current_start.is_none());
    assert!(variance.current_finish.is_none());
    assert_eq!(variance.baseline_start, Some(date(2026, 1, 1)));
}
