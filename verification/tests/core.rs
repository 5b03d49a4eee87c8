// Units of assignment are percentages here (1.0 is 100), progress is a
// whole percentage, and lengths of time are minutes.
use utf8proj::date::Date;
use utf8proj::diagnostic::SourceSpan;
use utf8proj::model::{Dependency, DependencyType, Duration, TaskStatus};
use utf8proj::project::{Calendar, Holiday, Project, Resource, ResourceProfile, Task, TimeRange, Trait};
use utf8proj::schedule::ScheduledTask;

fn date(y: i32, m: u32, d: u32) -> Date {
    Date::from_ymd(y, m, d).unwrap()
}

#[test]
fn project_leaf_tasks() {
    let mut project = Project::new("Test");
    project.tasks = vec![
        Task::new("parent").child(Task::new("child1")).child(Task::new("child2")),
        Task::new("standalone"),
    ];
    let leaves = project.leaf_tasks();
    assert_eq!(leaves.len(), 3);
    assert!(leaves.iter().any(|t| t.id == "child1"));
    assert!(leaves.iter().any(|t| t.id == "child2"));
    assert!(leaves.iter().any(|t| t.id == "standalone"));
}

#[test]
fn task_is_summary() {
    let leaf_task = Task::new("leaf").name("Leaf Task");
    assert!(!leaf_task.is_summary());
    let summary_task = Task::new("summary").name("Summary Task").child(Task::new("child1")).child(Task::new("child2"));
    assert!(summary_task.is_summary());
}

#[test]
fn task_assign_with_units() {
    let task = Task::new("task1").assign("dev1").assign_with_units("dev2", 50).assign_with_units("contractor", 25);
    assert_eq!(task.assigned.len(), 3);
    assert_eq!(task.assigned[0].units_percent, 100);
    assert_eq!(task.assigned[1].units_percent, 50);
    assert_eq!(task.assigned[2].units_percent, 25);
}

#[test]
fn calendar_hours_per_day() {
    let cal = Calendar::standard();
    // 9:00-12:00 (3h) + 13:00-17:00 (4h) = 7 hours
    assert_eq!(cal.minutes_per_day(), 7 * 60);
}

#[test]
fn time_range_duration() {
    let range = TimeRange { start: 9 * 60, end: 17 * 60 };
    assert_eq!(range.duration_minutes(), 8 * 60);
    let half_day = TimeRange { start: 9 * 60, end: 13 * 60 };
    assert_eq!(half_day.duration_minutes(), 4 * 60);
}

#[test]
fn depends_on_creates_fs_dependency() {
    let task = Task::new("task").depends_on("pred");
    assert_eq!(task.depends.len(), 1);
    let dep = &task.depends[0];
    assert_eq!(dep.predecessor, "pred");
    assert_eq!(dep.dep_type, DependencyType::FinishToStart);
    assert!(dep.lag.is_none());
}

#[test]
fn with_dependency_preserves_all_fields() {
    let dep = Dependency {
        predecessor: "other".into(),
        dep_type: DependencyType::StartToStart,
        lag: Some(Duration::days(2)),
    };
    let task = Task::new("task").with_dependency(dep);
    assert_eq!(task.depends.len(), 1);
    let d = &task.depends[0];
    assert_eq!(d.predecessor, "other");
    assert_eq!(d.dep_type, DependencyType::StartToStart);
    assert_eq!(d.lag, Some(Duration::days(2)));
}

#[test]
fn assign_sets_full_allocation() {
    let task = Task::new("task").assign("dev");
    assert_eq!(task.assigned.len(), 1);
    assert_eq!(task.assigned[0].resource_id, "dev");
    assert_eq!(task.assigned[0].units_percent, 100);
}

#[test]
fn assign_with_units_sets_custom_allocation() {
    let task = Task::new("task").assign_with_units("dev", 75);
    assert_eq!(task.assigned.len(), 1);
    assert_eq!(task.assigned[0].resource_id, "dev");
    assert_eq!(task.assigned[0].units_percent, 75);
}

#[test]
fn remaining_duration_zero_complete() {
    let task = Task::new("task").duration(Duration::days(10));
    assert_eq!(task.remaining_duration(), Duration::days(10));
}

#[test]
fn remaining_duration_fully_complete() {
    let task = Task::new("task").duration(Duration::days(10)).complete(100);
    assert_eq!(task.remaining_duration(), Duration::days(0));
}

#[test]
fn remaining_duration_uses_effort_if_no_duration() {
    let task = Task::new("task").effort(Duration::days(20)).complete(50);
    assert_eq!(task.remaining_duration(), Duration::days(10));
}

#[test]
fn effective_percent_complete_default() {
    let task = Task::new("task");
    assert_eq!(task.effective_percent_complete(), 0);
}

#[test]
fn derived_status_not_started() {
    assert_eq!(Task::new("task").derived_status(), TaskStatus::NotStarted);
}

#[test]
fn derived_status_in_progress_from_percent() {
    assert_eq!(Task::new("task").complete(50).derived_status(), TaskStatus::InProgress);
}

#[test]
fn derived_status_in_progress_from_actual_start() {
    let task = Task::new("task").actual_start(date(2026, 1, 15));
    assert_eq!(task.derived_status(), TaskStatus::InProgress);
}

#[test]
fn derived_status_complete_from_percent() {
    assert_eq!(Task::new("task").complete(100).derived_status(), TaskStatus::Complete);
}

#[test]
fn derived_status_complete_from_actual_finish() {
    let task = Task::new("task").actual_finish(date(2026, 1, 20));
    assert_eq!(task.derived_status(), TaskStatus::Complete);
}

#[test]
fn derived_status_explicit_overrides() {
    let task = Task::new("task").complete(100).with_status(TaskStatus::Blocked);
    assert_eq!(task.derived_status(), TaskStatus::Blocked);
}

#[test]
fn task_builder_with_progress_fields() {
    let date_start = date(2026, 1, 15);
    let date_finish = date(2026, 1, 20);
    let task = Task::new("task")
        .duration(Duration::days(5))
        .complete(75)
        .actual_start(date_start)
        .actual_finish(date_finish)
        .with_status(TaskStatus::Complete);
    assert_eq!(task.complete, Some(75));
    assert_eq!(task.actual_start, Some(date_start));
    assert_eq!(task.actual_finish, Some(date_finish));
    assert_eq!(task.status, Some(TaskStatus::Complete));
}

#[test]
fn container_progress_empty_container() {
    let container = Task::new("empty");
    assert!(!container.is_container());
    assert_eq!(container.container_progress(), None);
}

#[test]
fn container_progress_all_complete() {
    let container = Task::new("done")
        .child(Task::new("a").duration(Duration::days(5)).complete(100))
        .child(Task::new("b").duration(Duration::days(5)).complete(100));
    assert_eq!(container.container_progress(), Some(100));
}

#[test]
fn container_progress_none_started() {
    let container = Task::new("pending")
        .child(Task::new("a").duration(Duration::days(5)))
        .child(Task::new("b").duration(Duration::days(5)));
    assert_eq!(container.container_progress(), Some(0));
}

#[test]
fn container_progress_zero_duration_children() {
    let container = Task::new("dev").child(Task::new("a").complete(50)).child(Task::new("b").complete(100));
    assert_eq!(container.container_progress(), None);
}

#[test]
fn effective_progress_container_no_override() {
    let container = Task::new("dev")
        .child(Task::new("a").duration(Duration::days(10)).complete(100))
        .child(Task::new("b").duration(Duration::days(10)).complete(0));
    assert_eq!(container.effective_progress(), 50);
}

#[test]
fn effective_progress_leaf_no_complete() {
    let task = Task::new("leaf").duration(Duration::days(5));
    assert_eq!(task.effective_progress(), 0);
}

#[test]
fn progress_mismatch_leaf_returns_none() {
    let task = Task::new("leaf").duration(Duration::days(5)).complete(50);
    assert!(task.progress_mismatch(10).is_none());
}

#[test]
fn calendar_with_holiday() {
    let mut cal = Calendar::standard();
    cal.holidays.push(Holiday { name: "New Year".into(), start: date(2025, 1, 1), end: date(2025, 1, 1) });
    assert!(!cal.is_working_day(date(2025, 1, 1)));
    assert!(cal.is_working_day(date(2025, 1, 2)));
}

#[test]
fn scheduled_task_test_new() {
    // Scheduled tasks here carry no assignment list.
    let start = date(2025, 1, 6);
    let finish = date(2025, 1, 10);
    let st = ScheduledTask::test_new("task1", start, finish, Duration::days(5), Duration::zero(), true);
    assert_eq!(st.task_id, "task1");
    assert_eq!(st.start, start);
    assert_eq!(st.finish, finish);
    assert!(st.is_critical);
    assert_eq!(st.percent_complete, 0);
    assert_eq!(st.status, TaskStatus::NotStarted);
}

#[test]
fn trait_builder() {
    // Traits here carry no rate multiplier.
    let senior = Trait::new("senior").description("5+ years experience");
    assert_eq!(senior.id, "senior");
    assert_eq!(senior.name, "senior");
    assert_eq!(senior.description, Some("5+ years experience".into()));
}

#[test]
fn resource_profile_with_traits() {
    let profile = ResourceProfile::new("senior_dev").with_trait("senior").with_traits(&["contractor", "remote"]);
    assert_eq!(profile.traits.len(), 3);
    assert!(profile.traits.contains(&"senior".into()));
    assert!(profile.traits.contains(&"contractor".into()));
    assert!(profile.traits.contains(&"remote".into()));
}

#[test]
fn resource_profile_skills_batch() {
    let profile = ResourceProfile::new("dev").skills(&["rust", "python", "go"]);
    assert_eq!(profile.skills.len(), 3);
    assert!(profile.skills.contains(&"rust".into()));
}

#[test]
fn resource_specializes() {
    // Resources here carry no availability.
    let resource = Resource::new("alice").name("Alice").specializes("backend_senior");
    assert_eq!(resource.specializes, Some("backend_senior".into()));
    assert!(resource.is_specialized());
}

#[test]
fn project_get_trait() {
    let mut project = Project::new("Test");
    project.traits.push(Trait::new("senior"));
    project.traits.push(Trait::new("junior"));
    let senior = project.get_trait("senior");
    assert!(senior.is_some());
    assert_eq!(senior.unwrap().id, "senior");
    assert!(project.get_trait("contractor").is_none());
}

#[test]
fn project_get_profile() {
    let mut project = Project::new("Test");
    project.profiles.push(ResourceProfile::new("developer"));
    project.profiles.push(ResourceProfile::new("designer"));
    let dev = project.get_profile("developer");
    assert!(dev.is_some());
    assert_eq!(dev.unwrap().id, "developer");
    assert!(project.get_profile("manager").is_none());
}

#[test]
fn project_has_rfc0001_fields() {
    let project = Project::new("Test");
    assert!(project.profiles.is_empty());
    assert!(project.traits.is_empty());
}

#[test]
fn task_builder_summary() {
    let task = Task::new("task1").summary("Short name");
    assert_eq!(task.summary, Some("Short name".to_string()));
}

#[test]
fn task_builder_effort() {
    let task = Task::new("task1").effort(Duration::days(5));
    assert_eq!(task.effort, Some(Duration::days(5)));
}

#[test]
fn task_builder_duration() {
    let task = Task::new("task1").duration(Duration::days(3));
    assert_eq!(task.duration, Some(Duration::days(3)));
}

#[test]
fn task_builder_depends_on() {
    let task = Task::new("task2").depends_on("task1");
    assert_eq!(task.depends.len(), 1);
    assert_eq!(task.depends[0].predecessor, "task1");
    assert_eq!(task.depends[0].dep_type, DependencyType::FinishToStart);
    assert_eq!(task.depends[0].lag, None);
}

#[test]
fn task_builder_assign() {
    let task = Task::new("task1").assign("alice");
    assert_eq!(task.assigned.len(), 1);
    assert_eq!(task.assigned[0].resource_id, "alice");
    assert_eq!(task.assigned[0].units_percent, 100);
}

#[test]
fn task_builder_assign_with_units() {
    let task = Task::new("task1").assign_with_units("bob", 50);
    assert_eq!(task.assigned.len(), 1);
    assert_eq!(task.assigned[0].resource_id, "bob");
    assert_eq!(task.assigned[0].units_percent, 50);
}

#[test]
fn source_span_with_label_and_display() {
    let span = SourceSpan::new(10, 5, 8).with_label("highlight");
    assert_eq!(span.line, 10);
    assert_eq!(span.column, 5);
    assert_eq!(span.length, 8);
    assert_eq!(span.label, Some("highlight".to_string()));
}
