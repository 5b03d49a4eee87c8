use utf8proj::date::Date;
use utf8proj::display::task_row_name;
use utf8proj::model::{Duration, TaskStatus};
use utf8proj::project::{Project, Task};
use utf8proj::report::{schedule_report, unsupported_format_message, CostTexts, ReportFloats, SpiBand, SpreadBand};
use utf8proj::schedule::{Schedule, ScheduledTask};

fn date(y: i32, m: u32, d: u32) -> Date {
    Date::from_ymd(y, m, d).unwrap()
}

fn demo_project(second_name: &str) -> Project {
    let mut project = Project::new("Demo");
    project.start = date(2026, 1, 5);
    project.tasks.push(Task::new("a").name("Design"));
    project.tasks.push(Task::new("b").name(second_name));
    project
}

fn demo_schedule() -> Schedule {
    // The later task comes first: the table orders rows by start.
    let b = ScheduledTask::test_new("b", date(2026, 1, 12), date(2026, 1, 16), Duration::days(5), Duration::zero(), true);
    let a = ScheduledTask::test_new("a", date(2026, 1, 5), date(2026, 1, 9), Duration::days(5), Duration::days(2), false);
    Schedule {
        tasks: vec![b, a],
        critical_path: vec!["a".to_string(), "b".to_string()],
        project_duration: Duration::days(10),
        project_end: date(2026, 1, 16),
        project_progress: 40,
        project_baseline_finish: date(2026, 1, 16),
        project_forecast_finish: date(2026, 1, 16),
        project_variance_days: 0,
        planned_value: 50,
        earned_value: 40,
    }
}

fn floats(cost: Option<CostTexts>) -> ReportFloats {
    ReportFloats { duration_days: "10".to_string(), spi: "0.80".to_string(), spi_band: SpiBand::Behind, cost }
}

#[test]
fn report_standard_layout() {
    let project = demo_project("Build");
    let schedule = demo_schedule();
    let text = schedule_report(&project, &schedule, false, false, false, 20, &floats(None));
    let mut expected = String::new();
    expected.push_str("Project: Demo\nStart: 2026-01-05\nEnd: 2026-01-16\nDuration: 10 days\n");
    expected.push_str("Status: 40% complete, on schedule 🟢\n");
    expected.push_str("Earned Value: SPI 0.80 (behind schedule) 🔴 | EV 40% / PV 50%\n");
    expected.push('\n');
    expected.push_str("Critical Path: a -> b\n\n");
    expected.push_str(&format!(
        "{:<20} {:<12} {:<12} {:>8} {:>8} {}\n",
        "Task", "Start", "Finish", "Duration", "Slack", "Critical"
    ));
    expected.push_str(&format!("{}\n", "-".repeat(72)));
    expected.push_str(&format!(
        "{:<20} {:<12} {:<12} {:>6}d {:>6}d {}\n",
        "Design", "2026-01-05", "2026-01-09", 5, 2, ""
    ));
    expected.push_str(&format!(
        "{:<20} {:<12} {:<12} {:>6}d {:>6}d {}\n",
        "Build", "2026-01-12", "2026-01-16", 5, 0, "*"
    ));
    assert_eq!(text, expected);
}

#[test]
fn report_progress_layout_with_cost_and_cut_names() {
    let project = demo_project("A very long name");
    let mut schedule = demo_schedule();
    schedule.project_variance_days = 7;
    schedule.tasks[0].status = TaskStatus::InProgress;
    schedule.tasks[0].percent_complete = 50;
    schedule.tasks[0].remaining_duration = Duration::days(3);
    schedule.tasks[0].finish_variance_days = 2;
    schedule.tasks[1].status = TaskStatus::Complete;
    schedule.tasks[1].percent_complete = 100;
    schedule.tasks[1].remaining_duration = Duration::zero();
    schedule.tasks[1].finish_variance_days = -1;
    let cost = CostTexts {
        expected: "1500".to_string(),
        currency: "USD".to_string(),
        min: "1000".to_string(),
        max: "2000".to_string(),
        spread: "66.7".to_string(),
        band: SpreadBand::Wide,
        spread_shown: true,
    };
    let text = schedule_report(&project, &schedule, true, false, true, 10, &floats(Some(cost)));
    let mut expected = String::new();
    expected.push_str("Project: Demo\nStart: 2026-01-05\nEnd: 2026-01-16\nDuration: 10 days\n");
    expected.push_str("Status: 40% complete, +7d behind 🔴\n");
    expected.push_str("Earned Value: SPI 0.80 (behind schedule) 🔴 | EV 40% / PV 50%\n");
    expected.push_str("Cost: 1500 USD (min: 1000 / expected: 1500 / max: 2000) 🔴\n");
    expected.push_str("      spread: 66.7% (wide range)\n");
    expected.push('\n');
    expected.push_str("Critical Path: a -> b\n\n");
    expected.push_str(&format!(
        "{:<10} {:>6} {:<14} {:<12} {:<12} {:>8} {:>8} {}\n",
        "Task", "%Done", "Status", "Start", "Finish", "Remain", "Variance", "Critical"
    ));
    expected.push_str(&format!("{}\n", "-".repeat(84)));
    // "[a] Design" fits in 10 bytes; "[b] A very long name" is cut to 7 bytes and "...".
    expected.push_str(&format!(
        "{:<10} {:>5}% {:<14} {:<12} {:<12} {:>6}d {:>8} {}\n",
        "[a] Design", 100, "Complete", "2026-01-05", "2026-01-09", 0, "-1d", ""
    ));
    expected.push_str(&format!(
        "{:<10} {:>5}% {:<14} {:<12} {:<12} {:>6}d {:>8} {}\n",
        "[b] A v...", 50, "In Progress", "2026-01-12", "2026-01-16", 3, "+2d", "*"
    ));
    assert_eq!(text, expected);
}

#[test]
fn report_on_time_variance_and_ahead_status() {
    let project = demo_project("Build");
    let mut schedule = demo_schedule();
    schedule.project_variance_days = -3;
    schedule.critical_path = vec![];
    let text = schedule_report(&project, &schedule, true, true, false, 8, &floats(None));
    assert!(text.contains("Status: 40% complete, 3d ahead 🟢\n"));
    assert!(!text.contains("Critical Path"));
    // On-time tasks show a dash in the variance column; ids stand for names.
    assert!(text.contains(&format!("{:<8} {:>5}% {:<14}", "a", 0, "Not Started")));
    assert!(text.contains(&format!("{:>8} {}\n", "—", "*")));
}

#[test]
fn row_names_follow_the_flags() {
    let project = demo_project("Build");
    assert_eq!(task_row_name(&project.tasks, "b", true, true), "b");
    assert_eq!(task_row_name(&project.tasks, "b", false, true), "[b] Build");
    assert_eq!(task_row_name(&project.tasks, "b", false, false), "Build");
    assert_eq!(task_row_name(&project.tasks, "zz", false, false), "zz");
}

#[test]
fn unsupported_formats_are_explained() {
    assert_eq!(
        unsupported_format_message("svg", "plan.proj"),
        "Format 'svg' is not supported by 'schedule' command. Use 'gantt' command instead:\n  utf8proj gantt plan.proj -f svg -o <output>"
    );
    assert_eq!(
        unsupported_format_message("pdf", "plan.proj"),
        "Unknown format 'pdf'. Supported formats: text, json\nFor graphical outputs (xlsx, svg, html, mermaid, plantuml), use the 'gantt' command."
    );
}
