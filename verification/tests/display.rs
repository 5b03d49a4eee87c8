use utf8proj::display::{find_task_effort, find_task_info, get_task_display_name, truncate};
use utf8proj::model::Duration;
use utf8proj::project::Task;

fn tree() -> Vec<Task> {
    vec![
        Task::new("design").name("Design phase").summary("UX"),
        Task::new("build").name("build").child(Task::new("api").name("API").child(Task::new("db").name("Database"))),
    ]
}

#[test]
fn task_info_follows_dotted_paths() {
    let tasks = tree();
    assert_eq!(find_task_info(&tasks, "design"), Some(("Design phase".to_string(), Some("UX".to_string()))));
    assert_eq!(find_task_info(&tasks, "build.api"), Some(("API".to_string(), None)));
    assert_eq!(find_task_info(&tasks, "build.api.db"), Some(("Database".to_string(), None)));
    assert_eq!(find_task_info(&tasks, "api"), None);
    assert_eq!(find_task_info(&tasks, "build.db"), None);
}

#[test]
fn display_name_falls_back_to_the_id() {
    let tasks = tree();
    assert_eq!(get_task_display_name(&tasks, "design"), "Design phase");
    // The name equals the identifier: the identifier is shown.
    assert_eq!(get_task_display_name(&tasks, "build"), "build");
    assert_eq!(get_task_display_name(&tasks, "build.api.db"), "Database");
    assert_eq!(get_task_display_name(&tasks, "missing"), "missing");
    let unnamed = vec![Task::new("x").name("")];
    assert_eq!(get_task_display_name(&unnamed, "x"), "x");
}

#[test]
fn truncate_cuts_to_bytes_with_ellipsis() {
    assert_eq!(truncate("short", 10), "short");
    assert_eq!(truncate("exactly10!", 10), "exactly10!");
    assert_eq!(truncate("a longer task name", 10), "a longe...");
    // "é" takes two bytes: "héllo wörld" is 13 bytes.
    assert_eq!(truncate("héllo wörld", 9), "héllo...");
    assert_eq!(truncate("abcd", 3), "...");
}

#[test]
fn task_effort_follows_dotted_paths() {
    let tasks = vec![Task::new("phase").effort(Duration::days(9)).child(Task::new("impl").effort(Duration::days(4)))];
    assert_eq!(find_task_effort(&tasks, "phase"), Some(Duration::days(9)));
    assert_eq!(find_task_effort(&tasks, "phase.impl"), Some(Duration::days(4)));
    assert_eq!(find_task_effort(&tasks, "impl"), None);
    let no_effort = vec![Task::new("x")];
    assert_eq!(find_task_effort(&no_effort, "x"), None);
}
