use utf8proj::date::Date;
use utf8proj::diagnostic::{Diagnostic, DiagnosticCode};
use utf8proj::hover::{
    analyze_constraint_effects, calculate_calendar_impact, diagnostic_icon, filter_task_diagnostics, format_constraint,
    hover_for_task,
};
use utf8proj::model::{Dependency, DependencyType, Duration, TaskStatus};
use utf8proj::project::{
    find_task_by_id, Calendar, Holiday, Project, Resource, ResourceProfile, ResourceRef, Task, TaskConstraint, Trait,
};
use utf8proj::schedule::{Schedule, ScheduledTask};

fn date(y: i32, m: u32, d: u32) -> Date {
    Date::from_ymd(y, m, d).unwrap()
}

#[test]
fn leveling_diagnostic_gets_scale_icon() {
    assert_eq!(diagnostic_icon(&DiagnosticCode::L001OverallocationResolved), "⚖️");
}

#[test]
fn calendar_diagnostic_gets_calendar_icon() {
    assert_eq!(diagnostic_icon(&DiagnosticCode::C010NonWorkingDay), "📆");
}

#[test]
fn filter_diagnostics_l001_links_to_task() {
    let diagnostics = vec![Diagnostic::new(
        DiagnosticCode::L001OverallocationResolved,
        "Task 'task1' shifted to resolve overallocation",
    )];
    let codes = filter_task_diagnostics("task1", &diagnostics);
    assert!(codes.contains(&DiagnosticCode::L001OverallocationResolved));
    let codes = filter_task_diagnostics("other_task", &diagnostics);
    assert!(!codes.contains(&DiagnosticCode::L001OverallocationResolved));
}

#[test]
fn filter_diagnostics_l002_reads_notes() {
    let diagnostics = vec![Diagnostic::new(DiagnosticCode::L002UnresolvableConflict, "resource 'dev' overloaded")
        .with_note("affects 'task9'")];
    assert_eq!(filter_task_diagnostics("task9", &diagnostics), vec![DiagnosticCode::L002UnresolvableConflict]);
    assert!(filter_task_diagnostics("task1", &diagnostics).is_empty());
}

#[test]
fn calendar_impact_counts_weekends_and_holidays() {
    let mut cal = Calendar::standard();
    cal.holidays.push(Holiday { name: "xmas".to_string(), start: date(2025, 12, 25), end: date(2025, 12, 26) });
    // Mon 2025-12-22 .. Sun 2025-12-28: 3 working, 2 holidays, 2 weekend
    assert_eq!(calculate_calendar_impact(date(2025, 12, 22), date(2025, 12, 28), &cal), (3, 2, 2));
    assert_eq!(calculate_calendar_impact(date(2025, 12, 28), date(2025, 12, 22), &cal), (0, 0, 0));
}

fn scheduled(id: &str, start: Date, finish: Date) -> ScheduledTask {
    ScheduledTask::test_new(id, start, finish, Duration::days(5), Duration::zero(), true)
}

#[test]
fn constraint_effects_pinned_and_redundant() {
    let task = Task::new("t")
        .constraint(TaskConstraint::MustStartOn(date(2025, 1, 6)))
        .constraint(TaskConstraint::StartNoEarlierThan(date(2025, 1, 1)));
    let st = scheduled("t", date(2025, 1, 6), date(2025, 1, 10));
    let effects = analyze_constraint_effects(&task, &st);
    assert_eq!(effects[0], "📌 `must_start_on: 2025-01-06` — Task pinned to this date");
    assert_eq!(effects[1], "○ `start_no_earlier_than: 2025-01-01` — Redundant (ES=2025-01-06)");
    assert_eq!(format_constraint(&TaskConstraint::FinishNoLaterThan(date(2025, 1, 20))), "finish_no_later_than: 2025-01-20");
}

#[test]
fn hover_task_plan_and_schedule() {
    let task = Task::new("task1")
        .name("First Task")
        .duration(Duration::days(5))
        .effort(Duration::days(10))
        .assign("alice")
        .assign_with_units("bob", 50)
        .depends_on("task0");
    let mut project = Project::new("P");
    project.tasks.push(Task::new("task0"));
    let mut st = scheduled("task1", date(2025, 1, 6), date(2025, 1, 10));
    st.status = TaskStatus::InProgress;
    let schedule = Schedule {
        tasks: vec![st],
        critical_path: vec!["task1".to_string()],
        project_duration: Duration::days(5),
        project_end: date(2025, 1, 10),
        project_progress: 0,
        project_baseline_finish: date(2025, 1, 10),
        project_forecast_finish: date(2025, 1, 10),
        project_variance_days: 0,
        planned_value: 0,
        earned_value: 0,
    };
    let text = hover_for_task(&task, "task1", &project, Some(&schedule), &[]);
    let expected = [
        "**Task: task1**",
        "Name: First Task",
        "Duration: 5 days",
        "Effort: 10 days",
        "Assigned: alice, bob@50%",
        "Depends on: task0",
        "---",
        "📅 **Schedule:** 2025-01-06 → 2025-01-10",
        "⏱️ Duration: 5 days",
        "🔴 **Critical Path** (0 days slack)",
    ]
    .join("\n\n");
    assert_eq!(text, expected);
}

#[test]
fn hover_task_container_with_diagnostics() {
    let task = Task::new("container").name("Container Task").child(Task::new("a")).child(Task::new("b"));
    let project = Project::new("P");
    let diags = vec![Diagnostic::new(DiagnosticCode::W014ContainerDependency, "dependency on container 'container'")];
    let text = hover_for_task(&task, "container", &project, None, &diags);
    let expected = [
        "**Task: container**",
        "Name: Container Task",
        "Type: Container (2 children)",
        "---",
        "**⚠️ Diagnostics:**",
        "• 🟡 `W014`",
    ]
    .join("\n\n");
    assert_eq!(text, expected);
}

// The project of the hover tests, without rates, capacities and
// efficiencies, which resources and profiles here do not carry.
fn make_test_project() -> Project {
    let mut project = Project::new("Test Project");
    project.traits.push(Trait::new("senior").description("Senior level expertise"));
    project.profiles.push(ResourceProfile::new("developer"));
    let mut senior_dev = ResourceProfile::new("senior_dev");
    senior_dev.specializes = Some("developer".to_string());
    senior_dev.traits = vec!["senior".to_string()];
    senior_dev.skills = vec!["rust".to_string(), "python".to_string()];
    project.profiles.push(senior_dev);
    project.profiles.push(ResourceProfile::new("fixed_rate_dev"));
    project.profiles.push(ResourceProfile::new("no_rate_profile"));
    let mut unknown_trait_profile = ResourceProfile::new("unknown_trait_profile");
    unknown_trait_profile.traits = vec!["nonexistent".to_string()];
    project.profiles.push(unknown_trait_profile);
    let mut alice = Resource::new("alice");
    alice.name = "Alice Smith".to_string();
    project.resources.push(alice);
    project.resources.push(Resource::new("bob"));

    let mut task1 = Task::new("task1");
    task1.name = "First Task".to_string();
    task1.duration = Some(Duration::days(5));
    task1.effort = Some(Duration::days(10));
    task1.assigned = vec![
        ResourceRef { resource_id: "alice".to_string(), units_percent: 100 },
        ResourceRef { resource_id: "bob".to_string(), units_percent: 50 },
    ];
    task1.depends =
        vec![Dependency { predecessor: "task0".to_string(), dep_type: DependencyType::FinishToStart, lag: None }];
    task1.complete = Some(50);
    project.tasks.push(task1);

    let mut milestone1 = Task::new("milestone1");
    milestone1.milestone = true;
    project.tasks.push(milestone1);

    let mut container = Task::new("container");
    container.name = "Container Task".to_string();
    let mut child1 = Task::new("child1");
    child1.duration = Some(Duration::days(3));
    container.children = vec![child1, Task::new("child2")];
    project.tasks.push(container);

    project.tasks.push(Task::new("simple"));
    project
}

fn make_scheduled_task(
    task_id: &str,
    start: Date,
    finish: Date,
    duration: Duration,
    slack: Duration,
    is_critical: bool,
) -> ScheduledTask {
    ScheduledTask::test_new(task_id, start, finish, duration, slack, is_critical)
}

fn one_task_schedule(st: ScheduledTask, critical: bool, duration: Duration, end: Date) -> Schedule {
    let id = st.task_id.clone();
    Schedule {
        tasks: vec![st],
        critical_path: if critical { vec![id] } else { vec![] },
        project_duration: duration,
        project_end: end,
        project_progress: 0,
        project_baseline_finish: end,
        project_forecast_finish: end,
        project_variance_days: 0,
        planned_value: 0,
        earned_value: 0,
    }
}

#[test]
fn hover_task_full() {
    let project = make_test_project();
    let task = project.get_task("task1").unwrap();
    let content = hover_for_task(task, "task1", &project, None, &[]);
    assert!(content.contains("**Task: task1**"));
    assert!(content.contains("Name: First Task"));
    assert!(content.contains("Duration: 5 days"));
    assert!(content.contains("Effort: 10 days"));
    assert!(content.contains("Assigned: alice, bob@50%"));
    assert!(content.contains("Depends on: task0"));
    assert!(content.contains("Progress: 50%"));
}

#[test]
fn hover_task_milestone() {
    let project = make_test_project();
    let task = project.get_task("milestone1").unwrap();
    let content = hover_for_task(task, "milestone1", &project, None, &[]);
    assert!(content.contains("**Task: milestone1**"));
    assert!(content.contains("Type: Milestone"));
}

#[test]
fn hover_task_container() {
    let project = make_test_project();
    let task = project.get_task("container").unwrap();
    let content = hover_for_task(task, "container", &project, None, &[]);
    assert!(content.contains("**Task: container**"));
    assert!(content.contains("Name: Container Task"));
    assert!(content.contains("Type: Container (2 children)"));
}

#[test]
fn hover_task_minimal() {
    let project = make_test_project();
    let task = project.get_task("simple").unwrap();
    let content = hover_for_task(task, "simple", &project, None, &[]);
    assert!(content.contains("**Task: simple**"));
    assert!(!content.contains("Name:"));
    assert!(!content.contains("Duration:"));
    assert!(!content.contains("Effort:"));
    assert!(!content.contains("Assigned:"));
    assert!(!content.contains("Depends on:"));
    assert!(!content.contains("Progress:"));
}

#[test]
fn hover_task_zero_progress_not_shown() {
    let mut project = make_test_project();
    let mut zero_task = Task::new("zero_progress");
    zero_task.complete = Some(0);
    project.tasks.push(zero_task);
    let task = project.get_task("zero_progress").unwrap();
    let content = hover_for_task(task, "zero_progress", &project, None, &[]);
    assert!(!content.contains("Progress:"));
}

#[test]
fn hover_task_with_schedule_critical_path() {
    let project = make_test_project();
    let task = project.get_task("task1").unwrap();
    let start = date(2025, 1, 6);
    let finish = date(2025, 1, 10);
    let scheduled = make_scheduled_task("task1", start, finish, Duration::days(5), Duration::days(0), true);
    let schedule = one_task_schedule(scheduled, true, Duration::days(5), finish);
    let content = hover_for_task(task, "task1", &project, Some(&schedule), &[]);
    assert!(content.contains("📅 **Schedule:** 2025-01-06 → 2025-01-10"));
    assert!(content.contains("⏱️ Duration: 5 days"));
    assert!(content.contains("🔴 **Critical Path**"));
}

#[test]
fn hover_task_with_schedule_slack() {
    let project = make_test_project();
    let task = project.get_task("task1").unwrap();
    let start = date(2025, 1, 6);
    let finish = date(2025, 1, 10);
    let scheduled = make_scheduled_task("task1", start, finish, Duration::days(5), Duration::days(3), false);
    let schedule = one_task_schedule(scheduled, false, Duration::days(8), date(2025, 1, 13));
    let content = hover_for_task(task, "task1", &project, Some(&schedule), &[]);
    assert!(content.contains("📅 **Schedule:**"));
    assert!(content.contains("🟢 Slack: 3 days"));
    assert!(!content.contains("Critical Path"));
}

#[test]
fn hover_task_with_constraints_shows_list() {
    let project = make_test_project();
    let mut task = Task::new("constrained_task");
    task.constraints.push(TaskConstraint::StartNoEarlierThan(date(2025, 1, 13)));
    task.constraints.push(TaskConstraint::FinishNoLaterThan(date(2025, 1, 20)));
    let content = hover_for_task(&task, "constrained_task", &project, None, &[]);
    assert!(content.contains("Constraints:"));
    assert!(content.contains("start_no_earlier_than: 2025-01-13"));
    assert!(content.contains("finish_no_later_than: 2025-01-20"));
}

#[test]
fn hover_task_with_constraint_effects_pinned() {
    let project = make_test_project();
    let mut task = Task::new("pinned_task");
    task.duration = Some(Duration::days(3));
    task.constraints.push(TaskConstraint::MustStartOn(date(2025, 1, 6)));
    let start = date(2025, 1, 6);
    let finish = date(2025, 1, 8);
    let scheduled = make_scheduled_task("pinned_task", start, finish, Duration::days(3), Duration::days(0), true);
    let schedule = one_task_schedule(scheduled, true, Duration::days(3), finish);
    let content = hover_for_task(&task, "pinned_task", &project, Some(&schedule), &[]);
    assert!(content.contains("Constraint Effects"));
    assert!(content.contains("📌"));
    assert!(content.contains("pinned"));
}

#[test]
fn hover_task_with_constraint_effects_redundant() {
    let project = make_test_project();
    let mut task = Task::new("redundant_task");
    task.duration = Some(Duration::days(5));
    task.constraints.push(TaskConstraint::StartNoEarlierThan(date(2025, 1, 1)));
    let start = date(2025, 1, 10);
    let finish = date(2025, 1, 14);
    let scheduled = make_scheduled_task("redundant_task", start, finish, Duration::days(5), Duration::days(2), false);
    let schedule = one_task_schedule(scheduled, false, Duration::days(7), date(2025, 1, 16));
    let content = hover_for_task(&task, "redundant_task", &project, Some(&schedule), &[]);
    assert!(content.contains("Constraint Effects"));
    assert!(content.contains("○"));
    assert!(content.contains("Redundant"));
}

#[test]
fn find_task_top_level() {
    let project = make_test_project();
    let task = find_task_by_id(&project.tasks, "task1");
    assert!(task.is_some());
    assert_eq!(task.unwrap().id, "task1");
}

#[test]
fn find_task_nested() {
    let project = make_test_project();
    let task = find_task_by_id(&project.tasks, "child1");
    assert!(task.is_some());
    assert_eq!(task.unwrap().id, "child1");
}

#[test]
fn find_task_not_found() {
    let project = make_test_project();
    assert!(find_task_by_id(&project.tasks, "nonexistent").is_none());
}

#[test]
fn filter_diagnostics_l003_links_to_task() {
    let diagnostics = vec![Diagnostic::new(
        DiagnosticCode::L003DurationIncreased,
        "Project duration increased due to leveling of 'task1'",
    )];
    let codes = filter_task_diagnostics("task1", &diagnostics);
    assert!(codes.contains(&DiagnosticCode::L003DurationIncreased));
}

#[test]
fn filter_diagnostics_l004_links_to_milestone() {
    let diagnostics = vec![Diagnostic::warning(
        DiagnosticCode::L004MilestoneDelayed,
        "Milestone 'launch' delayed by 3 days due to leveling",
    )];
    let codes = filter_task_diagnostics("launch", &diagnostics);
    assert!(codes.contains(&DiagnosticCode::L004MilestoneDelayed));
}

#[test]
fn hover_progress_shows_the_stored_percentage() {
    let project = Project::new("P");
    let task = Task::new("t").complete(75);
    let content = hover_for_task(&task, "t", &project, None, &[]);
    assert!(content.contains("Progress: 75%"));
    assert!(!content.contains("7500"));
}
