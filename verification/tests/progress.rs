use utf8proj::date::Date;
use utf8proj::model::{DependencyType, Duration, TaskStatus};
use utf8proj::project::{Calendar, Holiday, Project, Resource, Task};

fn date(y: i32, m: u32, d: u32) -> Date {
    Date::from_ymd(y, m, d).unwrap()
}

#[test]
fn task_builder() {
    let task = Task::new("impl")
        .name("Implementation")
        .effort(Duration::days(10))
        .depends_on("design")
        .assign("dev")
        .priority(700);
    assert_eq!(task.id, "impl");
    assert_eq!(task.name, "Implementation");
    assert_eq!(task.effort, Some(Duration::days(10)));
    assert_eq!(task.depends.len(), 1);
    assert_eq!(task.depends[0].dep_type, DependencyType::FinishToStart);
    assert_eq!(task.assigned.len(), 1);
    assert_eq!(task.assigned[0].units_percent, 100);
    assert_eq!(task.priority, 700);
}

#[test]
fn task_milestone() {
    let milestone = Task::new("release").milestone();
    assert!(milestone.milestone);
    assert_eq!(milestone.duration, Some(Duration::zero()));
}

#[test]
fn remaining_duration_linear_interpolation() {
    let task = Task::new("task").duration(Duration::days(10)).complete(60);
    assert_eq!(task.remaining_duration(), Duration::days(4));
}

#[test]
fn remaining_duration_zero_and_full() {
    let task = Task::new("task").duration(Duration::days(10));
    assert_eq!(task.remaining_duration(), Duration::days(10));
    let task = Task::new("task").duration(Duration::days(10)).complete(100);
    assert_eq!(task.remaining_duration(), Duration::zero());
    let task = Task::new("task").effort(Duration::days(10));
    assert_eq!(task.remaining_duration(), Duration::days(10));
}

#[test]
fn effective_percent_complete_clamped() {
    assert_eq!(Task::new("t").effective_percent_complete(), 0);
    assert_eq!(Task::new("t").complete(150).effective_percent_complete(), 100);
    assert_eq!(Task::new("t").complete(-10).effective_percent_complete(), 0);
}

#[test]
fn derived_status_cases() {
    assert_eq!(Task::new("t").derived_status(), TaskStatus::NotStarted);
    assert_eq!(Task::new("t").complete(50).derived_status(), TaskStatus::InProgress);
    assert_eq!(Task::new("t").actual_start(date(2026, 1, 5)).derived_status(), TaskStatus::InProgress);
    assert_eq!(Task::new("t").complete(100).derived_status(), TaskStatus::Complete);
    assert_eq!(Task::new("t").actual_finish(date(2026, 1, 9)).derived_status(), TaskStatus::Complete);
    assert_eq!(Task::new("t").complete(100).with_status(TaskStatus::Blocked).derived_status(), TaskStatus::Blocked);
}

#[test]
fn container_progress_weighted_average() {
    let container = Task::new("development")
        .child(Task::new("backend").duration(Duration::days(20)).complete(60))
        .child(Task::new("frontend").duration(Duration::days(15)).complete(30))
        .child(Task::new("testing").duration(Duration::days(10)));
    assert!(container.is_container());
    assert_eq!(container.container_progress(), Some(37));
}

#[test]
fn container_progress_empty_and_zero() {
    assert_eq!(Task::new("empty").container_progress(), None);
    let container = Task::new("dev").child(Task::new("a").complete(50)).child(Task::new("b").complete(100));
    assert_eq!(container.container_progress(), None);
}

#[test]
fn container_progress_nested_containers() {
    let project = Task::new("project")
        .child(
            Task::new("phase1")
                .child(Task::new("task_a").duration(Duration::days(10)).complete(100))
                .child(Task::new("task_b").duration(Duration::days(10)).complete(50)),
        )
        .child(Task::new("phase2").child(Task::new("task_c").duration(Duration::days(20)).complete(25)));
    assert_eq!(project.children[0].container_progress(), Some(75));
    assert_eq!(project.container_progress(), Some(50));
}

#[test]
fn container_progress_effective_with_override() {
    let container = Task::new("dev")
        .complete(80)
        .child(Task::new("a").duration(Duration::days(10)).complete(50))
        .child(Task::new("b").duration(Duration::days(10)).complete(50));
    assert_eq!(container.container_progress(), Some(50));
    assert_eq!(container.effective_progress(), 80);
}

#[test]
fn container_progress_mismatch_detection() {
    let container = Task::new("dev")
        .complete(80)
        .child(Task::new("a").duration(Duration::days(10)).complete(30))
        .child(Task::new("b").duration(Duration::days(10)).complete(30));
    assert_eq!(container.progress_mismatch(20), Some((80, 30)));
    assert!(container.progress_mismatch(60).is_none());
    assert!(Task::new("leaf").duration(Duration::days(5)).complete(50).progress_mismatch(10).is_none());
}

#[test]
fn container_progress_uses_effort_fallback() {
    let container = Task::new("dev")
        .child(Task::new("a").effort(Duration::days(5)).complete(100))
        .child(Task::new("b").effort(Duration::days(5)).complete(0));
    assert_eq!(container.container_progress(), Some(50));
    assert_eq!(container.effective_progress(), 50);
}

#[test]
fn container_progress_rounds_half_up() {
    let container = Task::new("c")
        .child(Task::new("a").duration(Duration::minutes(1)).complete(75))
        .child(Task::new("b").duration(Duration::minutes(1)).complete(0));
    assert_eq!(container.container_progress(), Some(38));
}

#[test]
fn project_get_task_nested() {
    let mut project = Project::new("Test");
    project.tasks.push(
        Task::new("phase1")
            .child(Task::new("child1").name("Child 1").child(Task::new("grandchild").name("Grandchild")))
            .child(Task::new("child2")),
    );
    project.tasks.push(Task::new("standalone").name("Standalone"));
    assert_eq!(project.get_task("standalone").unwrap().name, "Standalone");
    assert_eq!(project.get_task("child1").unwrap().name, "Child 1");
    assert_eq!(project.get_task("grandchild").unwrap().name, "Grandchild");
    assert!(project.get_task("missing").is_none());
    let leaves: Vec<&str> = project.leaf_tasks().iter().map(|t| t.id.as_str()).collect();
    assert_eq!(leaves, vec!["grandchild", "child2", "standalone"]);
}

#[test]
fn project_get_resource() {
    let mut project = Project::new("Test");
    project.resources.push(Resource::new("dev1").name("Developer 1"));
    project.resources.push(Resource::new("pm").name("Project Manager"));
    assert_eq!(project.get_resource("dev1").unwrap().name, "Developer 1");
    assert_eq!(project.get_resource("pm").unwrap().name, "Project Manager");
    assert!(project.get_resource("missing").is_none());
}

#[test]
fn calendar_working_day() {
    let mut cal = Calendar::standard();
    assert!(cal.is_working_day(date(2025, 1, 6)));
    assert!(!cal.is_working_day(date(2025, 1, 4)));
    cal.holidays.push(Holiday { name: "New Year".to_string(), start: date(2025, 1, 1), end: date(2025, 1, 1) });
    assert!(!cal.is_working_day(date(2025, 1, 1)));
    assert!(cal.is_working_day(date(2025, 1, 2)));
    assert_eq!(cal.minutes_per_day(), 420);
}

#[test]
fn holiday_contains_date() {
    let holiday = Holiday { name: "Christmas".to_string(), start: date(2025, 12, 24), end: date(2025, 12, 26) };
    assert!(!holiday.contains(date(2025, 12, 23)));
    assert!(holiday.contains(date(2025, 12, 24)));
    assert!(holiday.contains(date(2025, 12, 26)));
    assert!(!holiday.contains(date(2025, 12, 27)));
}

#[test]
fn dates_validate_and_subtract() {
    assert!(Date::from_ymd(2024, 2, 29).is_some());
    assert!(Date::from_ymd(2025, 2, 29).is_none());
    assert!(Date::from_ymd(2025, 13, 1).is_none());
    assert_eq!(date(2026, 3, 1).days_since(&date(2026, 2, 1)), 28);
    assert_eq!(date(2025, 1, 1).days_since(&date(2026, 1, 1)), -365);
    assert_eq!(date(2025, 1, 6).weekday_from_sunday(), 1);
    assert_eq!(date(2025, 12, 31).succ(), Some(date(2026, 1, 1)));
    assert_eq!(date(2026, 1, 5).to_text(), "2026-01-05");
    assert_eq!(Date::parse("2026-01-05"), Some(date(2026, 1, 5)));
    assert_eq!(Date::parse("2026-02-30"), None);
}
