use utf8proj::diagnostic::{CollectingEmitter, Diagnostic, DiagnosticCode, DiagnosticEmitter, Severity, SourceSpan};

#[test]
fn severity_as_str() {
    assert_eq!(Severity::Error.as_str(), "error");
    assert_eq!(Severity::Warning.as_str(), "warning");
    assert_eq!(Severity::Hint.as_str(), "hint");
    assert_eq!(Severity::Info.as_str(), "info");
}

#[test]
fn severity_display() {
    assert_eq!(Severity::Error.as_str(), "error");
    assert_eq!(Severity::Warning.as_str(), "warning");
}

#[test]
fn diagnostic_code_as_str() {
    assert_eq!(DiagnosticCode::E001CircularSpecialization.as_str(), "E001");
    assert_eq!(DiagnosticCode::W001AbstractAssignment.as_str(), "W001");
    assert_eq!(DiagnosticCode::H001MixedAbstraction.as_str(), "H001");
    assert_eq!(DiagnosticCode::I001ProjectCostSummary.as_str(), "I001");
}

#[test]
fn diagnostic_code_default_severity() {
    assert_eq!(DiagnosticCode::E001CircularSpecialization.default_severity(), Severity::Error);
    assert_eq!(DiagnosticCode::W001AbstractAssignment.default_severity(), Severity::Warning);
    assert_eq!(DiagnosticCode::H001MixedAbstraction.default_severity(), Severity::Hint);
    assert_eq!(DiagnosticCode::I001ProjectCostSummary.default_severity(), Severity::Info);
}

#[test]
fn diagnostic_code_ordering_priority() {
    assert!(
        DiagnosticCode::E001CircularSpecialization.ordering_priority()
            < DiagnosticCode::W001AbstractAssignment.ordering_priority()
    );
    assert!(
        DiagnosticCode::W001AbstractAssignment.ordering_priority()
            < DiagnosticCode::H001MixedAbstraction.ordering_priority()
    );
    assert!(
        DiagnosticCode::H001MixedAbstraction.ordering_priority()
            < DiagnosticCode::I001ProjectCostSummary.ordering_priority()
    );
}

#[test]
fn diagnostic_new_derives_severity() {
    let d = Diagnostic::new(DiagnosticCode::W001AbstractAssignment, "test message");
    assert_eq!(d.severity, Severity::Warning);
    assert_eq!(d.code, DiagnosticCode::W001AbstractAssignment);
    assert_eq!(d.message, "test message");
}

#[test]
fn diagnostic_builder_pattern() {
    let d = Diagnostic::new(DiagnosticCode::W001AbstractAssignment, "test")
        .with_file("test.proj")
        .with_span(SourceSpan::new(10, 5, 15))
        .with_note("additional info")
        .with_hint("try this instead");
    assert_eq!(d.file, Some("test.proj".to_string()));
    assert!(d.span.is_some());
    assert_eq!(d.span.as_ref().unwrap().line, 10);
    assert_eq!(d.notes.len(), 1);
    assert_eq!(d.hints.len(), 1);
}

#[test]
fn diagnostic_is_error() {
    let error = Diagnostic::error(DiagnosticCode::E001CircularSpecialization, "cycle");
    let warning = Diagnostic::warning(DiagnosticCode::W001AbstractAssignment, "abstract");
    assert!(error.is_error());
    assert!(!error.is_warning());
    assert!(!warning.is_error());
    assert!(warning.is_warning());
}

#[test]
fn source_span_with_label() {
    let span = SourceSpan::new(5, 10, 8).with_label("here");
    assert_eq!(span.line, 5);
    assert_eq!(span.column, 10);
    assert_eq!(span.length, 8);
    assert_eq!(span.label, Some("here".to_string()));
}

#[test]
fn collecting_emitter_basic() {
    let mut emitter = CollectingEmitter::new();
    emitter.emit(Diagnostic::error(DiagnosticCode::E001CircularSpecialization, "error1"));
    emitter.emit(Diagnostic::warning(DiagnosticCode::W001AbstractAssignment, "warn1"));
    emitter.emit(Diagnostic::warning(DiagnosticCode::W002WideCostRange, "warn2"));
    assert_eq!(emitter.diagnostics.len(), 3);
    assert!(emitter.has_errors());
    assert_eq!(emitter.error_count(), 1);
    assert_eq!(emitter.warning_count(), 2);
}

#[test]
fn collecting_emitter_sorted() {
    let mut emitter = CollectingEmitter::new();
    emitter.emit(Diagnostic::new(DiagnosticCode::I001ProjectCostSummary, "info"));
    emitter.emit(Diagnostic::new(DiagnosticCode::W001AbstractAssignment, "warn"));
    emitter.emit(Diagnostic::new(DiagnosticCode::E001CircularSpecialization, "error"));
    emitter.emit(Diagnostic::new(DiagnosticCode::H001MixedAbstraction, "hint"));
    let sorted = emitter.sorted();
    assert_eq!(sorted[0].code, DiagnosticCode::E001CircularSpecialization);
    assert_eq!(sorted[1].code, DiagnosticCode::W001AbstractAssignment);
    assert_eq!(sorted[2].code, DiagnosticCode::H001MixedAbstraction);
    assert_eq!(sorted[3].code, DiagnosticCode::I001ProjectCostSummary);
}

#[test]
fn collecting_emitter_sorted_by_location() {
    let mut emitter = CollectingEmitter::new();
    emitter.emit(
        Diagnostic::new(DiagnosticCode::W001AbstractAssignment, "second")
            .with_file("a.proj")
            .with_span(SourceSpan::new(20, 1, 5)),
    );
    emitter.emit(
        Diagnostic::new(DiagnosticCode::W001AbstractAssignment, "first")
            .with_file("a.proj")
            .with_span(SourceSpan::new(10, 1, 5)),
    );
    let sorted = emitter.sorted();
    assert_eq!(sorted[0].message, "first");
    assert_eq!(sorted[1].message, "second");
}

#[test]
fn sorted_keeps_emission_order_of_equal_keys() {
    let mut emitter = CollectingEmitter::new();
    emitter.emit(Diagnostic::new(DiagnosticCode::W001AbstractAssignment, "one"));
    emitter.emit(Diagnostic::new(DiagnosticCode::E001CircularSpecialization, "err"));
    emitter.emit(Diagnostic::new(DiagnosticCode::W001AbstractAssignment, "two"));
    let sorted = emitter.sorted();
    assert_eq!(sorted[0].message, "err");
    assert_eq!(sorted[1].message, "one");
    assert_eq!(sorted[2].message, "two");
}

#[test]
fn sorted_orders_files_by_components() {
    let mut emitter = CollectingEmitter::new();
    emitter.emit(Diagnostic::new(DiagnosticCode::W001AbstractAssignment, "b").with_file("b/x.proj"));
    emitter.emit(Diagnostic::new(DiagnosticCode::W001AbstractAssignment, "none"));
    emitter.emit(Diagnostic::new(DiagnosticCode::W001AbstractAssignment, "a").with_file("a.proj"));
    let sorted = emitter.sorted();
    assert_eq!(sorted[0].message, "none");
    assert_eq!(sorted[1].message, "a");
    assert_eq!(sorted[2].message, "b");
}

#[test]
fn diagnostic_code_as_str_all_codes() {
    assert_eq!(DiagnosticCode::E002ProfileWithoutRate.as_str(), "E002");
    assert_eq!(DiagnosticCode::E003InfeasibleConstraint.as_str(), "E003");
    assert_eq!(DiagnosticCode::W002WideCostRange.as_str(), "W002");
    assert_eq!(DiagnosticCode::W003UnknownTrait.as_str(), "W003");
    assert_eq!(DiagnosticCode::W004ApproximateLeveling.as_str(), "W004");
    assert_eq!(DiagnosticCode::W005ConstraintZeroSlack.as_str(), "W005");
    assert_eq!(DiagnosticCode::W006ScheduleVariance.as_str(), "W006");
    assert_eq!(DiagnosticCode::W014ContainerDependency.as_str(), "W014");
    assert_eq!(DiagnosticCode::H002UnusedProfile.as_str(), "H002");
    assert_eq!(DiagnosticCode::H003UnusedTrait.as_str(), "H003");
    assert_eq!(DiagnosticCode::H004TaskUnconstrained.as_str(), "H004");
    assert_eq!(DiagnosticCode::I002RefinementProgress.as_str(), "I002");
    assert_eq!(DiagnosticCode::I003ResourceUtilization.as_str(), "I003");
    assert_eq!(DiagnosticCode::I004ProjectStatus.as_str(), "I004");
    assert_eq!(DiagnosticCode::I005EarnedValueSummary.as_str(), "I005");
}

#[test]
fn diagnostic_code_default_severity_all() {
    assert_eq!(DiagnosticCode::E003InfeasibleConstraint.default_severity(), Severity::Error);
    assert_eq!(DiagnosticCode::E002ProfileWithoutRate.default_severity(), Severity::Warning);
    assert_eq!(DiagnosticCode::W004ApproximateLeveling.default_severity(), Severity::Warning);
    assert_eq!(DiagnosticCode::W005ConstraintZeroSlack.default_severity(), Severity::Warning);
    assert_eq!(DiagnosticCode::W006ScheduleVariance.default_severity(), Severity::Warning);
    assert_eq!(DiagnosticCode::H002UnusedProfile.default_severity(), Severity::Hint);
    assert_eq!(DiagnosticCode::H003UnusedTrait.default_severity(), Severity::Hint);
    assert_eq!(DiagnosticCode::H004TaskUnconstrained.default_severity(), Severity::Hint);
    assert_eq!(DiagnosticCode::I002RefinementProgress.default_severity(), Severity::Info);
    assert_eq!(DiagnosticCode::I003ResourceUtilization.default_severity(), Severity::Info);
    assert_eq!(DiagnosticCode::I004ProjectStatus.default_severity(), Severity::Info);
    assert_eq!(DiagnosticCode::I005EarnedValueSummary.default_severity(), Severity::Info);
}

#[test]
fn diagnostic_code_ordering_priority_all() {
    assert!(DiagnosticCode::E002ProfileWithoutRate.ordering_priority() < 10);
    assert!(DiagnosticCode::E003InfeasibleConstraint.ordering_priority() < 10);
    assert_eq!(DiagnosticCode::W002WideCostRange.ordering_priority(), 10);
    assert_eq!(DiagnosticCode::W004ApproximateLeveling.ordering_priority(), 11);
    assert_eq!(DiagnosticCode::W005ConstraintZeroSlack.ordering_priority(), 12);
    assert_eq!(DiagnosticCode::W006ScheduleVariance.ordering_priority(), 13);
    assert_eq!(DiagnosticCode::W014ContainerDependency.ordering_priority(), 14);
    assert_eq!(DiagnosticCode::W003UnknownTrait.ordering_priority(), 21);
    assert_eq!(DiagnosticCode::H002UnusedProfile.ordering_priority(), 31);
    assert_eq!(DiagnosticCode::H003UnusedTrait.ordering_priority(), 32);
    assert_eq!(DiagnosticCode::H004TaskUnconstrained.ordering_priority(), 33);
    assert_eq!(DiagnosticCode::I002RefinementProgress.ordering_priority(), 41);
    assert_eq!(DiagnosticCode::I003ResourceUtilization.ordering_priority(), 42);
    assert_eq!(DiagnosticCode::I004ProjectStatus.ordering_priority(), 43);
    assert_eq!(DiagnosticCode::I005EarnedValueSummary.ordering_priority(), 44);
}

#[test]
fn diagnostic_code_display() {
    assert_eq!(DiagnosticCode::E001CircularSpecialization.as_str(), "E001");
    assert_eq!(DiagnosticCode::W014ContainerDependency.as_str(), "W014");
    assert_eq!(DiagnosticCode::H004TaskUnconstrained.as_str(), "H004");
}
