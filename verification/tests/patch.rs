use utf8proj::fixes::{collect_container_dep_fixes, DepToAdd};
use utf8proj::model::{DependencyType, Duration};
use utf8proj::patch::apply_dependency_patches;
use utf8proj::project::Task;

fn fix(id: &str, preds: &[&str]) -> (String, Vec<DepToAdd>) {
    (
        id.to_string(),
        preds
            .iter()
            .map(|p| DepToAdd { predecessor: p.to_string(), dep_type: DependencyType::FinishToStart, lag: None })
            .collect(),
    )
}

#[test]
fn patch_appends_to_existing_depends_line() {
    let content = "task a {\n    depends: x\n}\n";
    let (out, n) = apply_dependency_patches(content, &vec![fix("a", &["y", "z"])]);
    assert_eq!(out, "task a {\n    depends: x, y, z\n}\n");
    assert_eq!(n, 2);
}

#[test]
fn patch_fills_an_empty_depends_line() {
    let content = "task a {\n    depends:\n}\n";
    let (out, n) = apply_dependency_patches(content, &vec![fix("a", &["y"])]);
    // The whitespace after `depends:` runs on to the closing brace, and the
    // rewritten line replaces it.
    assert_eq!(out, "task a {\n    depends: y}\n");
    assert_eq!(n, 1);
}

#[test]
fn patch_opens_depends_line_after_brace() {
    let content = "task a \"Alpha\" {\n    duration: 5d\n}\n";
    let (out, n) = apply_dependency_patches(content, &vec![fix("a", &["y"])]);
    assert_eq!(out, "task a \"Alpha\" {\n    depends: y\n    duration: 5d\n}\n");
    assert_eq!(n, 1);
}

#[test]
fn patch_finds_milestones() {
    let content = "  milestone m \"Done\" {\n  }\n";
    let (out, _) = apply_dependency_patches(content, &vec![fix("m", &["y"])]);
    assert_eq!(out, "  milestone m \"Done\" {\n      depends: y\n  }\n");
}

#[test]
fn patch_skips_unknown_tasks() {
    let content = "task a {\n}\n";
    let (out, n) = apply_dependency_patches(content, &vec![fix("ab", &["y"]), fix("b", &["y"])]);
    assert_eq!(out, content);
    assert_eq!(n, 0);
}

#[test]
fn patch_ignores_depends_of_nested_tasks() {
    let content = "task p {\n    task c {\n        depends: z\n    }\n}\n";
    let (out, n) = apply_dependency_patches(content, &vec![fix("p", &["y"])]);
    assert_eq!(out, "task p {\n    depends: y\n    task c {\n        depends: z\n    }\n}\n");
    assert_eq!(n, 1);
}

#[test]
fn patch_writes_types_and_lags() {
    let content = "task a {\n}\n";
    let deps = vec![
        DepToAdd { predecessor: "x".to_string(), dep_type: DependencyType::StartToStart, lag: Some(Duration::days(2)) },
        DepToAdd { predecessor: "y".to_string(), dep_type: DependencyType::FinishToFinish, lag: None },
    ];
    let (out, n) = apply_dependency_patches(content, &vec![("a".to_string(), deps)]);
    assert_eq!(out, "task a {\n    depends: x SS +2d, y FF\n}\n");
    assert_eq!(n, 2);
}

#[test]
fn container_dependency_fix_preserves_task_properties() {
    let content = "project \"Test Project\" {\n    start: 2026-01-01\n}\n\ntask parent \"Parent Task\" {\n    depends: external_task\n\n    task child \"Child Task\" {\n        duration: 5d\n        effort: 40d\n        assign: dev\n    }\n}\n";
    let tasks = vec![Task::new("parent")
        .depends_on("external_task")
        .child(Task::new("child").duration(Duration::days(5)).effort(Duration::days(40)).assign("dev"))];
    let fixes = collect_container_dep_fixes(&tasks, &Vec::new());
    let (out, n) = apply_dependency_patches(content, &fixes);
    assert_eq!(n, 1);
    assert!(out.contains("duration: 5d"));
    assert!(out.contains("effort: 40d"));
    assert!(out.contains("assign: dev"));
    // The header's match takes in the blank line before it, and so does the
    // indentation of the new line.
    assert!(out.contains("    task child \"Child Task\" {\n\n        depends: external_task\n        duration: 5d"));
}
