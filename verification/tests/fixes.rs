use utf8proj::fixes::{collect_container_dep_fixes, DepToAdd};
use utf8proj::model::{Dependency, DependencyType, Duration};
use utf8proj::project::Task;

fn dep(pred: &str, t: DependencyType, lag: Option<Duration>) -> DepToAdd {
    DepToAdd { predecessor: pred.to_string(), dep_type: t, lag }
}

#[test]
fn dep_to_add_renders_type_and_lag() {
    assert_eq!(dep("a", DependencyType::FinishToStart, None).render(), "a");
    assert_eq!(dep("a", DependencyType::StartToStart, None).render(), "a SS");
    assert_eq!(dep("b", DependencyType::FinishToFinish, Some(Duration::days(2))).render(), "b FF +2d");
    assert_eq!(dep("c", DependencyType::StartToFinish, Some(Duration::days(-3))).render(), "c SF -3d");
    // Half a day of lead truncates to zero days.
    assert_eq!(dep("d", DependencyType::FinishToStart, Some(Duration::hours(-4))).render(), "d 0d");
    assert_eq!(dep("e", DependencyType::FinishToStart, Some(Duration::hours(12))).render(), "e +1d");
}

fn find<'a>(fixes: &'a [(String, Vec<DepToAdd>)], id: &str) -> Option<&'a Vec<DepToAdd>> {
    fixes.iter().find(|(k, _)| k == id).map(|(_, v)| v)
}

#[test]
fn container_dependency_passes_to_children_without_it() {
    let tasks = vec![
        Task::new("design"),
        Task::new("phase")
            .depends_on("design")
            .child(Task::new("a"))
            .child(Task::new("b").depends_on("design")),
    ];
    let fixes = collect_container_dep_fixes(&tasks, &Vec::new());
    assert_eq!(fixes.len(), 1);
    let a = find(&fixes, "a").unwrap();
    assert_eq!(a.len(), 1);
    assert_eq!(a[0].predecessor, "design");
    assert!(find(&fixes, "b").is_none());
}

#[test]
fn nested_containers_pass_inherited_dependencies_down() {
    let tasks = vec![Task::new("outer")
        .depends_on("x")
        .child(
            Task::new("inner")
                .with_dependency(Dependency {
                    predecessor: "y".to_string(),
                    dep_type: DependencyType::StartToStart,
                    lag: Some(Duration::days(1)),
                })
                .child(Task::new("leaf")),
        )];
    let fixes = collect_container_dep_fixes(&tasks, &Vec::new());
    // "inner" lacks "x"; "leaf" lacks both "x" and "y".
    assert_eq!(fixes.len(), 2);
    let inner = find(&fixes, "inner").unwrap();
    assert_eq!(inner.len(), 1);
    assert_eq!(inner[0].render(), "x");
    let leaf = find(&fixes, "leaf").unwrap();
    let rendered: Vec<String> = leaf.iter().map(|d| d.render()).collect();
    assert_eq!(rendered, vec!["x".to_string(), "y SS +1d".to_string()]);
}

#[test]
fn no_fixes_without_container_dependencies() {
    let tasks = vec![Task::new("phase").child(Task::new("a")).child(Task::new("b"))];
    let fixes = collect_container_dep_fixes(&tasks, &Vec::new());
    assert!(fixes.is_empty());
}

#[test]
fn parent_dependencies_reach_top_level_children() {
    let parent = vec![dep("kickoff", DependencyType::FinishToStart, None)];
    let tasks = vec![Task::new("phase").child(Task::new("a"))];
    let fixes = collect_container_dep_fixes(&tasks, &parent);
    assert_eq!(fixes.len(), 1);
    assert_eq!(find(&fixes, "a").unwrap()[0].predecessor, "kickoff");
}
