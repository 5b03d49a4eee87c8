use utf8proj::diagnostic::{Diagnostic, DiagnosticCode, Severity, SourceSpan};
use utf8proj::lsp::{build_document_symbols, to_lsp_diagnostic, to_lsp_diagnostics, OutlineKind};
use utf8proj::project::{Project, Resource, ResourceProfile, Task};

#[test]
fn convert_warning_diagnostic() {
    let diag = Diagnostic::new(
        DiagnosticCode::W001AbstractAssignment,
        "task 'api_dev' is assigned to abstract profile 'developer'",
    )
    .with_span(SourceSpan::new(10, 5, 12))
    .with_note("cost range is $500 - $1000")
    .with_hint("assign a concrete resource");
    let lsp_diag = to_lsp_diagnostic(&diag);
    assert_eq!(lsp_diag.severity, Severity::Warning);
    assert_eq!(lsp_diag.code, "W001");
    assert_eq!(lsp_diag.source, "utf8proj");
    assert!(lsp_diag.message.contains("task 'api_dev'"));
    assert!(lsp_diag.message.contains("cost range"));
    assert!(lsp_diag.message.contains("hint:"));
    assert_eq!(lsp_diag.start_line, 9);
    assert_eq!(lsp_diag.start_character, 4);
}

#[test]
fn convert_error_diagnostic() {
    let diag = Diagnostic::error(DiagnosticCode::E001CircularSpecialization, "circular specialization detected: a -> b -> a");
    let lsp_diag = to_lsp_diagnostic(&diag);
    assert_eq!(lsp_diag.severity, Severity::Error);
    assert_eq!(lsp_diag.code, "E001");
}

#[test]
fn convert_hint_diagnostic() {
    let diag = Diagnostic::new(DiagnosticCode::H002UnusedProfile, "profile 'designer' is defined but never assigned");
    assert_eq!(to_lsp_diagnostic(&diag).severity, Severity::Hint);
}

#[test]
fn convert_info_diagnostic() {
    let diag = Diagnostic::new(DiagnosticCode::I001ProjectCostSummary, "project 'Test' scheduled successfully");
    assert_eq!(to_lsp_diagnostic(&diag).severity, Severity::Info);
}

#[test]
fn diagnostic_without_span_defaults_to_start() {
    let diag = Diagnostic::new(DiagnosticCode::W001AbstractAssignment, "test message");
    let lsp_diag = to_lsp_diagnostic(&diag);
    assert_eq!(lsp_diag.start_line, 0);
    assert_eq!(lsp_diag.start_character, 0);
    assert_eq!(lsp_diag.end_line, 0);
    assert_eq!(lsp_diag.end_character, 1);
}

#[test]
fn editor_message_appends_notes_and_hints() {
    let diag = Diagnostic::new(DiagnosticCode::W001AbstractAssignment, "msg")
        .with_span(SourceSpan::new(3, 2, 4))
        .with_note("n1")
        .with_hint("h1");
    let d = to_lsp_diagnostic(&diag);
    assert_eq!(d.message, "msg\n\n  = n1\n  hint: h1\n");
    assert_eq!((d.start_line, d.start_character, d.end_line, d.end_character), (2, 1, 2, 5));
    let only_hint = to_lsp_diagnostic(&Diagnostic::new(DiagnosticCode::W001AbstractAssignment, "m").with_hint("h"));
    assert_eq!(only_hint.message, "m\n\n  hint: h\n");
    let all = to_lsp_diagnostics(&vec![diag, Diagnostic::new(DiagnosticCode::H002UnusedProfile, "x")]);
    assert_eq!(all.len(), 2);
    assert_eq!(all[1].code, "H002");
}

#[test]
fn document_symbols_list_profiles_resources_and_tasks() {
    let mut project = Project::new("P");
    project.profiles.push(ResourceProfile::new("dev"));
    project.resources.push(Resource::new("alice"));
    let mut ms = Task::new("done");
    ms.milestone = true;
    project.tasks.push(Task::new("phase").child(Task::new("build")).child(ms));
    project.tasks.push(Task::new("wrap"));
    let symbols = build_document_symbols(&project);
    let got: Vec<(String, OutlineKind, &str)> =
        symbols.iter().map(|s| (s.name.clone(), s.kind, s.container)).collect();
    assert_eq!(
        got,
        vec![
            ("dev".to_string(), OutlineKind::Class, "profiles"),
            ("alice".to_string(), OutlineKind::Variable, "resources"),
            ("phase".to_string(), OutlineKind::Module, "tasks"),
            ("phase.build".to_string(), OutlineKind::Function, "tasks"),
            ("phase.done".to_string(), OutlineKind::Event, "tasks"),
            ("wrap".to_string(), OutlineKind::Function, "tasks"),
        ]
    );
}
