use utf8proj::date::Date;
use utf8proj::model::{DependencyType, Duration};
use utf8proj::synthetic::{generate_chain, generate_diamond, generate_web, numbered_id};

#[test]
fn chain_generates_correct_count() {
    let project = generate_chain(100);
    assert_eq!(project.tasks.len(), 100);

    // First task has no dependencies
    assert!(project.tasks[0].depends.is_empty());

    // Last task depends on second-to-last
    assert_eq!(project.tasks[99].depends.len(), 1);
    assert_eq!(project.tasks[99].depends[0].predecessor, "task_000098");
}

#[test]
fn diamond_generates_correct_structure() {
    let project = generate_diamond(100);

    // start + 100 middle + end = 102 tasks
    assert_eq!(project.tasks.len(), 102);

    let end_task = project.tasks.iter().find(|t| t.id == "end").unwrap();
    assert_eq!(end_task.depends.len(), 100);
}

#[test]
fn web_generates_dag() {
    let project = generate_web(100);
    assert_eq!(project.tasks.len(), 100);

    for (i, task) in project.tasks.iter().enumerate() {
        for dep in &task.depends {
            let dep_idx: usize = dep.predecessor[5..].parse().unwrap();
            assert!(dep_idx < i, "Task {} depends on later task {}", i, dep_idx);
        }
    }
}

#[test]
fn generated_projects_start_on_a_monday() {
    for p in [generate_chain(3), generate_diamond(2), generate_web(5)] {
        assert_eq!(p.start, Date::from_ymd(2025, 1, 6).unwrap());
        assert!(p.resources.is_empty());
        assert_eq!(p.calendars.len(), 1);
    }
    assert_eq!(generate_chain(1).name, "Chain Benchmark");
    assert_eq!(generate_diamond(1).name, "Diamond Benchmark");
    assert_eq!(generate_web(1).name, "Web Benchmark");
}

#[test]
fn generated_tasks_are_one_day_long() {
    let p = generate_chain(3);
    assert_eq!(p.tasks[2].id, "task_000002");
    assert_eq!(p.tasks[2].name, "Task 2");
    assert_eq!(p.tasks[2].duration, Some(Duration::days(1)));
    assert_eq!(p.tasks[2].depends[0].dep_type, DependencyType::FinishToStart);
    assert_eq!(p.tasks[2].depends[0].lag, None);
}

#[test]
fn diamond_middles_depend_on_start() {
    let p = generate_diamond(3);
    assert_eq!(p.tasks[0].id, "start");
    assert!(p.tasks[0].depends.is_empty());
    assert_eq!(p.tasks[2].id, "middle_000001");
    assert_eq!(p.tasks[2].name, "Middle 1");
    assert_eq!(p.tasks[2].depends[0].predecessor, "start");
    let end: Vec<&str> = p.tasks[4].depends.iter().map(|d| d.predecessor.as_str()).collect();
    assert_eq!(end, vec!["middle_000000", "middle_000001", "middle_000002"]);
}

#[test]
fn web_layers_follow_the_square_root() {
    // Ten tasks: layers of four.
    let p = generate_web(10);
    assert!(p.tasks[3].depends.is_empty());
    let deps = |i: usize| -> Vec<String> { p.tasks[i].depends.iter().map(|d| d.predecessor.clone()).collect() };
    // Task 4: 1 + 4 % 3 = 2 dependencies, at offsets 4 % 4 and 11 % 4.
    assert_eq!(deps(4), vec!["task_000000".to_string(), "task_000003".to_string()]);
    // Task 9: 1 dependency at offset 9 % 4 in the layer of tasks 4..8.
    assert_eq!(deps(9), vec!["task_000005".to_string()]);
    assert!(generate_web(0).tasks.is_empty());
}

#[test]
fn numbered_ids_pad_to_six_digits() {
    assert_eq!(numbered_id("task_", 0), "task_000000");
    assert_eq!(numbered_id("task_", 42), "task_000042");
    assert_eq!(numbered_id("task_", 1234567), "task_1234567");
}
