use utf8proj::navigation::{
    find_calendar_definition, find_profile_definition, find_resource_definition, find_task_definition,
    find_trait_definition,
    determine_symbol_kind, find_all_occurrences, find_definition, find_definition_pattern, find_references,
    find_word_in_line, get_word_at_position, is_definition_site, SymbolKind,
};
use utf8proj::project::{Project, Resource, Task};

fn chars(s: &str) -> Vec<char> {
    s.chars().collect()
}

#[test]
fn navigation_get_word_at_position_basic() {
    let text = chars("depends: task_a");
    assert_eq!(get_word_at_position(&text, 0, 10), Some("task_a".to_string()));
}

#[test]
fn navigation_get_word_at_position_with_hyphen() {
    let text = chars("assign: my-resource");
    assert_eq!(get_word_at_position(&text, 0, 12), Some("my-resource".to_string()));
}

#[test]
fn get_word_at_position_out_of_range() {
    let text = chars("a b\nccc");
    assert_eq!(get_word_at_position(&text, 5, 0), None);
    assert_eq!(get_word_at_position(&text, 1, 9), None);
    assert_eq!(get_word_at_position(&text, 1, 3), Some("ccc".to_string()));
    assert_eq!(get_word_at_position(&chars("a   b"), 0, 2), None);
}

#[test]
fn find_word_in_line_basic() {
    let line = chars("depends: task_a, task_b");
    assert_eq!(find_word_in_line(&line, &chars("task_a"), 0), Some(9));
    assert_eq!(find_word_in_line(&line, &chars("task_b"), 0), Some(17));
}

#[test]
fn find_word_in_line_not_partial() {
    let line = chars("depends: task_abc");
    assert_eq!(find_word_in_line(&line, &chars("task_a"), 0), None);
}

#[test]
fn find_definition_pattern_task() {
    let line = chars("    task design \"Design Phase\" {");
    assert_eq!(find_definition_pattern(&line, "task", "design"), Some(9));
}

#[test]
fn find_definition_pattern_resource() {
    let line = chars("resource dev \"Developer\" {");
    assert_eq!(find_definition_pattern(&line, "resource", "dev"), Some(9));
}

#[test]
fn find_definition_pattern_rejects_longer_id() {
    let line = chars("task designer {");
    assert_eq!(find_definition_pattern(&line, "task", "design"), None);
    assert_eq!(find_definition_pattern(&chars("taskdesign {"), "task", "design"), None);
}

#[test]
fn is_definition_site_task() {
    let line = chars("task design \"Design\" {");
    assert!(is_definition_site(&line, 5, &chars("design"), &SymbolKind::Task));
}

#[test]
fn is_definition_site_not_reference() {
    let line = chars("    depends: design");
    assert!(!is_definition_site(&line, 13, &chars("design"), &SymbolKind::Task));
}

fn sample_project() -> Project {
    let mut p = Project::new("Sample");
    p.tasks.push(Task::new("design").child(Task::new("spec")));
    p.tasks.push(Task::new("build").depends_on("design"));
    p.resources.push(Resource::new("dev"));
    p
}

const TEXT: &str = "task design \"Design\" {\n    task spec \"Spec\" {}\n}\ntask build \"Build\" {\n    depends: design\n    assign: dev\n}\nresource dev \"Developer\" {}\n";

#[test]
fn definition_of_task_and_resource() {
    let p = sample_project();
    let d = find_definition(&p, TEXT, 4, 14).unwrap();
    assert_eq!(d.id, "design");
    assert_eq!(d.kind, SymbolKind::Task);
    assert_eq!((d.line, d.column), (0, 5));
    let r = find_definition(&p, TEXT, 5, 13).unwrap();
    assert_eq!(r.kind, SymbolKind::Resource);
    assert_eq!((r.line, r.column), (7, 9));
    assert!(find_definition(&p, TEXT, 4, 6).is_none());
}

#[test]
fn references_with_and_without_definition() {
    let p = sample_project();
    let all = find_references(&p, TEXT, 4, 14, true);
    assert_eq!(all, vec![(0, 5, 11), (4, 13, 19)]);
    let uses = find_references(&p, TEXT, 4, 14, false);
    assert_eq!(uses, vec![(4, 13, 19)]);
}

#[test]
fn occurrences_mark_definition_sites() {
    let occ = find_all_occurrences(&chars(TEXT), &chars("dev"), &SymbolKind::Resource);
    assert_eq!(occ, vec![(5, 12, false), (7, 9, true)]);
}

#[test]
fn symbol_kind_lookup_order() {
    let p = sample_project();
    assert_eq!(determine_symbol_kind(&p, "spec"), Some(SymbolKind::Task));
    assert_eq!(determine_symbol_kind(&p, "dev"), Some(SymbolKind::Resource));
    assert_eq!(determine_symbol_kind(&p, "default"), Some(SymbolKind::Calendar));
    assert_eq!(determine_symbol_kind(&p, "nothing"), None);
}

// Word lookup as the hover uses it (the same function).

#[test]
fn hover_get_word_at_position_basic() {
    assert_eq!(get_word_at_position(&chars("assign: developer"), 0, 10), Some("developer".to_string()));
}

#[test]
fn get_word_at_position_start() {
    assert_eq!(get_word_at_position(&chars("developer_senior"), 0, 0), Some("developer_senior".to_string()));
}

#[test]
fn hover_get_word_at_position_with_hyphen() {
    assert_eq!(get_word_at_position(&chars("senior-developer"), 0, 8), Some("senior-developer".to_string()));
}

#[test]
fn get_word_at_position_empty() {
    assert_eq!(get_word_at_position(&chars("   "), 0, 1), None);
}

#[test]
fn get_word_at_position_multiline() {
    assert_eq!(get_word_at_position(&chars("line one\nline two\nline three"), 1, 5), Some("two".to_string()));
}

#[test]
fn get_word_at_position_out_of_bounds_line() {
    assert_eq!(get_word_at_position(&chars("single line"), 5, 0), None);
}

#[test]
fn get_word_at_position_out_of_bounds_column() {
    assert_eq!(get_word_at_position(&chars("short"), 0, 100), None);
}

#[test]
fn get_word_at_position_at_space() {
    // At a space the word before it is found.
    assert_eq!(get_word_at_position(&chars("hello world"), 0, 5), Some("hello".to_string()));
}

#[test]
fn get_word_at_position_multiple_spaces() {
    assert_eq!(get_word_at_position(&chars("hello   world"), 0, 7), None);
}

#[test]
fn definitions_by_kind() {
    let text = "resource_profile dev {}\nresource dev \"Dev\" {}\ncalendar work {}\ntrait senior {}\n  milestone done {}\ntask build {}\n";
    assert_eq!(find_profile_definition(text, "dev"), Some((0, 17)));
    assert_eq!(find_resource_definition(text, "dev"), Some((1, 9)));
    assert_eq!(find_calendar_definition(text, "work"), Some((2, 9)));
    assert_eq!(find_trait_definition(text, "senior"), Some((3, 6)));
    assert_eq!(find_task_definition(text, "done"), Some((4, 12)));
    assert_eq!(find_task_definition(text, "build"), Some((5, 5)));
    assert_eq!(find_task_definition(text, "missing"), None);
}

#[test]
fn word_search_gives_byte_offsets() {
    // "é" takes two bytes: "task_a" begins at byte 4 of "é, task_a".
    // The neighbour before it is looked up by character position 3, the
    // word's own first character, so this occurrence is not taken.
    assert_eq!(find_word_in_line(&chars("é, task_a"), &chars("task_a"), 0), None);
    // With only ASCII before the word, offsets and positions agree.
    assert_eq!(find_word_in_line(&chars("task_a é"), &chars("task_a"), 0), Some(0));
    // An empty word is found where both neighbours allow it.
    assert_eq!(find_word_in_line(&chars("a "), &chars(""), 0), Some(2));
}

#[test]
fn definition_pattern_gives_byte_offsets() {
    assert_eq!(find_definition_pattern(&chars("  task café {"), "task", "café"), Some(7));
    // An ideographic space indents by three bytes.
    assert_eq!(find_definition_pattern(&chars("\u{3000}task x {"), "task", "x"), Some(8));
}

#[test]
fn empty_word_in_empty_text_has_no_occurrences() {
    assert!(find_all_occurrences(&chars(""), &chars(""), &SymbolKind::Task).is_empty());
}
