use utf8proj::cli::{
    conflict_diagnostic, is_calendar_diagnostic, schedule_error_diagnostic, DiagnosticConfig, ExitCode, JsonEmitter,
    TerminalEmitter,
};
use utf8proj::model::{Conflict, ConflictType, ScheduleError};
use utf8proj::diagnostic::{Diagnostic, DiagnosticCode, DiagnosticEmitter, Severity, SourceSpan};

fn make_test_diagnostic() -> Diagnostic {
    Diagnostic::new(
        DiagnosticCode::W001AbstractAssignment,
        "task 'api_dev' is assigned to abstract profile 'developer'",
    )
    .with_file("/project/test.proj")
    .with_span(SourceSpan::new(17, 13, 9).with_label("abstract profile"))
    .with_note("cost range is $500 - $1,000 (100% spread)")
    .with_hint("assign a concrete resource to lock in exact cost")
}

#[test]
fn terminal_emitter_basic_output() {
    let config = DiagnosticConfig::default();
    let mut emitter = TerminalEmitter::new(config);
    emitter.emit(make_test_diagnostic());
    let output_str = emitter.output();
    assert!(output_str.contains("warning[W001]"));
    assert!(output_str.contains("task 'api_dev'"));
    assert!(output_str.contains("/project/test.proj:17"));
    assert!(output_str.contains("cost range is $500 - $1,000"));
    assert!(output_str.contains("hint: assign a concrete resource"));
}

#[test]
fn terminal_emitter_strict_mode() {
    let config = DiagnosticConfig::strict();
    let mut emitter = TerminalEmitter::new(config);
    emitter.emit(make_test_diagnostic());
    assert_eq!(emitter.error_count(), 1);
    assert_eq!(emitter.warning_count(), 0);
    assert!(emitter.output().contains("error[W001]"));
}

#[test]
fn terminal_emitter_quiet_mode() {
    let config = DiagnosticConfig::quiet();
    let mut emitter = TerminalEmitter::new(config);
    emitter.emit(make_test_diagnostic());
    assert!(emitter.output().is_empty());
}

#[test]
fn terminal_emitter_quiet_shows_errors() {
    let config = DiagnosticConfig::quiet();
    let mut emitter = TerminalEmitter::new(config);
    let error = Diagnostic::error(DiagnosticCode::E001CircularSpecialization, "circular specialization detected");
    emitter.emit(error);
    assert!(emitter.output().contains("error[E001]"));
}

#[test]
fn terminal_emitter_path_normalization() {
    let config = DiagnosticConfig::default().with_base_path("/project");
    let mut emitter = TerminalEmitter::new(config);
    emitter.emit(make_test_diagnostic());
    let output_str = emitter.output();
    assert!(output_str.contains("test.proj:17"));
    assert!(!output_str.contains("/project/test.proj"));
}

#[test]
fn json_emitter_basic_output() {
    let config = DiagnosticConfig::default();
    let mut emitter = JsonEmitter::new(config);
    emitter.emit(make_test_diagnostic());
    let diagnostics = emitter.diagnostics();
    assert_eq!(diagnostics.len(), 1);
    assert_eq!(diagnostics[0].code, "W001");
    assert_eq!(diagnostics[0].severity, "warning");
    assert!(diagnostics[0].message.contains("api_dev"));
}

#[test]
fn json_emitter_strict_mode() {
    let config = DiagnosticConfig::strict();
    let mut emitter = JsonEmitter::new(config);
    emitter.emit(make_test_diagnostic());
    assert_eq!(emitter.diagnostics()[0].severity, "error");
}

#[test]
fn json_emitter_quiet_mode() {
    let config = DiagnosticConfig::quiet();
    let mut emitter = JsonEmitter::new(config);
    emitter.emit(make_test_diagnostic());
    assert!(emitter.diagnostics().is_empty());
}

#[test]
fn json_emitter_to_json_value() {
    // The JSON value itself is built outside the library; its array holds
    // one record per collected diagnostic.
    let config = DiagnosticConfig::default();
    let mut emitter = JsonEmitter::new(config);
    emitter.emit(make_test_diagnostic());
    let arr = emitter.diagnostics();
    assert_eq!(arr.len(), 1);
    assert_eq!(arr[0].code, "W001");
}

#[test]
fn terminal_emitter_exit_code_quiet_doesnt_affect_code() {
    let config = DiagnosticConfig { strict: true, quiet: true, base_path: None };
    let mut emitter = TerminalEmitter::new(config);
    emitter.emit(make_test_diagnostic());
    assert_eq!(emitter.exit_code(), ExitCode::Failure);
}

#[test]
fn info_diagnostic_unchanged_in_strict() {
    let config = DiagnosticConfig::strict();
    let mut emitter = JsonEmitter::new(config);
    let info = Diagnostic::new(DiagnosticCode::I001ProjectCostSummary, "project 'Test' scheduled successfully");
    emitter.emit(info);
    assert_eq!(emitter.diagnostics()[0].severity, "info");
}

#[test]
fn hint_becomes_warning_in_strict() {
    let config = DiagnosticConfig::strict();
    let mut emitter = JsonEmitter::new(config);
    let hint = Diagnostic::new(DiagnosticCode::H002UnusedProfile, "profile 'dev' is defined but never assigned");
    emitter.emit(hint);
    assert_eq!(emitter.diagnostics()[0].severity, "warning");
}

#[test]
fn exit_code_zero_errors_is_success() {
    assert_eq!(ExitCode::from_error_count(0), ExitCode::Success);
    assert!(ExitCode::Success.is_success());
    assert!(!ExitCode::Success.is_failure());
    assert_eq!(ExitCode::Success.code(), 0);
}

#[test]
fn exit_code_with_errors_is_failure() {
    assert_eq!(ExitCode::from_error_count(1), ExitCode::Failure);
    assert_eq!(ExitCode::from_error_count(5), ExitCode::Failure);
    assert!(ExitCode::Failure.is_failure());
    assert!(!ExitCode::Failure.is_success());
    assert_eq!(ExitCode::Failure.code(), 1);
}

#[test]
fn terminal_emitter_exit_code_no_errors() {
    let config = DiagnosticConfig::default();
    let mut emitter = TerminalEmitter::new(config);
    emitter.emit(make_test_diagnostic());
    assert_eq!(emitter.exit_code(), ExitCode::Success);
}

#[test]
fn terminal_emitter_exit_code_with_errors() {
    let config = DiagnosticConfig::default();
    let mut emitter = TerminalEmitter::new(config);
    let error = Diagnostic::error(DiagnosticCode::E001CircularSpecialization, "circular specialization detected");
    emitter.emit(error);
    assert_eq!(emitter.exit_code(), ExitCode::Failure);
}

#[test]
fn terminal_emitter_exit_code_strict_escalation() {
    let config = DiagnosticConfig::strict();
    let mut emitter = TerminalEmitter::new(config);
    emitter.emit(make_test_diagnostic());
    assert_eq!(emitter.exit_code(), ExitCode::Failure);
}

#[test]
fn terminal_emitter_quiet_hides_and_skips_warnings() {
    let config = DiagnosticConfig::quiet();
    let mut emitter = TerminalEmitter::new(config);
    emitter.emit(make_test_diagnostic());
    assert_eq!(emitter.output(), "");
    assert_eq!(emitter.warning_count(), 0);
    assert_eq!(emitter.exit_code(), ExitCode::Success);
}

#[test]
fn json_emitter_exit_code_no_errors() {
    let config = DiagnosticConfig::default();
    let mut emitter = JsonEmitter::new(config);
    emitter.emit(make_test_diagnostic());
    assert_eq!(emitter.exit_code(), ExitCode::Success);
}

#[test]
fn json_emitter_exit_code_with_errors() {
    let config = DiagnosticConfig::default();
    let mut emitter = JsonEmitter::new(config);
    let error = Diagnostic::error(DiagnosticCode::E001CircularSpecialization, "circular specialization detected");
    emitter.emit(error);
    assert_eq!(emitter.exit_code(), ExitCode::Failure);
}

#[test]
fn json_emitter_exit_code_strict_escalation() {
    let config = DiagnosticConfig::strict();
    let mut emitter = JsonEmitter::new(config);
    emitter.emit(make_test_diagnostic());
    assert_eq!(emitter.exit_code(), ExitCode::Failure);
}

#[test]
fn hint_only_is_success_even_in_strict() {
    let config = DiagnosticConfig::strict();
    let mut emitter = JsonEmitter::new(config);
    let hint = Diagnostic::new(DiagnosticCode::H002UnusedProfile, "profile 'dev' is defined but never assigned");
    emitter.emit(hint);
    assert_eq!(emitter.exit_code(), ExitCode::Success);
}

#[test]
fn info_only_is_always_success() {
    let config = DiagnosticConfig::strict();
    let mut emitter = JsonEmitter::new(config);
    let info = Diagnostic::new(DiagnosticCode::I001ProjectCostSummary, "project scheduled successfully");
    emitter.emit(info);
    assert_eq!(emitter.exit_code(), ExitCode::Success);
}

#[test]
fn json_span_is_zero_based() {
    let config = DiagnosticConfig::default();
    let mut emitter = JsonEmitter::new(config);
    emitter.emit(make_test_diagnostic());
    let d = &emitter.diagnostics()[0];
    assert_eq!(d.code, "W001");
    assert_eq!(d.line, Some(17));
    assert_eq!(d.column, Some(13));
    let span = &d.spans[0];
    assert_eq!(span.start, 12);
    assert_eq!(span.end, 21);
    assert_eq!(span.label, Some("abstract profile".to_string()));
}

#[test]
fn effective_severity_policy() {
    let strict = DiagnosticConfig::strict();
    assert_eq!(strict.effective_severity(Severity::Warning), Severity::Error);
    assert_eq!(strict.effective_severity(Severity::Hint), Severity::Warning);
    assert_eq!(strict.effective_severity(Severity::Info), Severity::Info);
    let normal = DiagnosticConfig::default();
    assert_eq!(normal.effective_severity(Severity::Warning), Severity::Warning);
    let quiet = DiagnosticConfig::quiet();
    assert!(quiet.should_show(Severity::Error));
    assert!(!quiet.should_show(Severity::Warning));
}

#[test]
fn normalize_path_strips_base() {
    let config = DiagnosticConfig::default().with_base_path("/home/user/project");
    assert_eq!(config.normalize_path("/home/user/project/src/main.proj"), "src/main.proj");
    assert_eq!(config.normalize_path("/other/file.proj"), "/other/file.proj");
}

fn conflict(t: ConflictType) -> Conflict {
    Conflict {
        conflict_type: t,
        description: "task 'a' must start before its predecessor".to_string(),
        involved_tasks: vec!["a".to_string()],
        involved_resources: vec![],
    }
}

#[test]
fn feasibility_conflicts_become_errors() {
    let d = conflict_diagnostic(&conflict(ConflictType::ImpossibleConstraint), "plan.proj");
    assert_eq!(d.code, DiagnosticCode::E003InfeasibleConstraint);
    assert_eq!(d.severity, Severity::Error);
    assert_eq!(d.message, "constraint cannot be satisfied");
    assert_eq!(d.file, Some("plan.proj".to_string()));
    assert_eq!(d.notes, vec!["task 'a' must start before its predecessor".to_string()]);
    assert_eq!(d.hints, vec!["check that constraints don't conflict with dependencies".to_string()]);

    let d = conflict_diagnostic(&conflict(ConflictType::CircularDependency), "plan.proj");
    assert_eq!(d.code, DiagnosticCode::E001CircularSpecialization);
    assert_eq!(d.message, "circular dependency detected");
    assert!(d.hints.is_empty());

    let d = conflict_diagnostic(&conflict(ConflictType::DeadlineMissed), "plan.proj");
    assert_eq!(d.code, DiagnosticCode::E003InfeasibleConstraint);
    assert_eq!(d.message, "DeadlineMissed");
    assert_eq!(conflict_diagnostic(&conflict(ConflictType::ResourceOverallocation), "p").message, "ResourceOverallocation");
}

#[test]
fn infeasible_schedule_reports_e003() {
    let d = schedule_error_diagnostic(&ScheduleError::Infeasible("no room".to_string()), "plan.proj").unwrap();
    assert_eq!(d.code, DiagnosticCode::E003InfeasibleConstraint);
    assert_eq!(d.notes, vec!["no room".to_string()]);
    assert_eq!(d.hints.len(), 1);
    assert!(schedule_error_diagnostic(&ScheduleError::TaskNotFound("x".to_string()), "plan.proj").is_none());
}

#[test]
fn calendar_diagnostics_start_with_c() {
    assert!(is_calendar_diagnostic(&Diagnostic::new(DiagnosticCode::C010NonWorkingDay, "m")));
    assert!(!is_calendar_diagnostic(&Diagnostic::new(DiagnosticCode::W001AbstractAssignment, "m")));
}

#[test]
fn json_and_terminal_emitters_agree_on_exit_code() {
    let diags = vec![
        Diagnostic::new(DiagnosticCode::H002UnusedProfile, "unused"),
        Diagnostic::new(DiagnosticCode::W001AbstractAssignment, "abstract"),
        Diagnostic::error(DiagnosticCode::E001CircularSpecialization, "cycle"),
    ];
    for (strict, quiet) in [(false, false), (false, true), (true, false), (true, true)] {
        let mut config = if strict { DiagnosticConfig::strict() } else { DiagnosticConfig::quiet() };
        config.quiet = quiet;
        config.strict = strict;
        let mut json = JsonEmitter::new(config.clone());
        let mut term = TerminalEmitter::new(config);
        for d in diags.iter() {
            json.emit(d.clone());
            term.emit(d.clone());
        }
        // The error, and under strict mode the warning, count as errors.
        let expected = if strict { 2 } else { 1 };
        assert_eq!(json.error_count(), expected);
        assert_eq!(term.error_count(), expected);
        assert_eq!(json.exit_code(), term.exit_code());
        assert_eq!(json.exit_code(), ExitCode::Failure);
    }
}

#[test]
fn strict_hint_alone_gives_success() {
    let mut json = JsonEmitter::new(DiagnosticConfig::strict());
    let mut term = TerminalEmitter::new(DiagnosticConfig::strict());
    json.emit(Diagnostic::new(DiagnosticCode::H002UnusedProfile, "unused"));
    term.emit(Diagnostic::new(DiagnosticCode::H002UnusedProfile, "unused"));
    assert_eq!(json.error_count(), 0);
    assert!(!json.has_errors());
    assert_eq!(json.exit_code(), ExitCode::Success);
    assert_eq!(term.exit_code(), ExitCode::Success);
}
