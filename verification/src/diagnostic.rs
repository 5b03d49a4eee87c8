//! Diagnostic model: severities, stable diagnostic codes, spans, diagnostics
//! and the collecting emitter.
use vstd::prelude::*;

verus! {

/// Diagnostic severity level.
///
/// - Error: always fatal, blocks completion
/// - Warning: likely problem, becomes an error in strict mode
/// - Hint: suggestion, becomes a warning in strict mode
/// - Info: informational, unchanged in strict mode
#[derive(Debug, Clone, Copy, PartialEq, Eq, Structural, Hash)]
pub enum Severity {
    Error,
    Warning,
    Hint,
    Info,
}

impl Severity {
    /// The text used as prefix in diagnostic output.
    pub open spec fn text(self) -> Seq<char> {
        match self {
            Severity::Error => "error"@,
            Severity::Warning => "warning"@,
            Severity::Hint => "hint"@,
            Severity::Info => "info"@,
        }
    }

    /// Returns the string prefix used in diagnostic output (e.g. "error", "warning").
    pub fn as_str(&self) -> (s: &'static str)
        ensures
            s@ == self.text(),
    {
        match self {
            Severity::Error => "error",
            Severity::Warning => "warning",
            Severity::Hint => "hint",
            Severity::Info => "info",
        }
    }
}

/// Diagnostic code identifying the specific diagnostic type.
///
/// Codes are stable identifiers used for machine-readable output,
/// documentation references and filtering.
#[derive(Debug, Clone, Copy, PartialEq, Eq, Structural, Hash)]
pub enum DiagnosticCode {
    /// Circular specialization in profile inheritance chain
    E001CircularSpecialization,
    /// Profile has no rate and is used in cost-bearing assignments
    E002ProfileWithoutRate,
    /// Task constraint cannot be satisfied (ES > LS)
    E003InfeasibleConstraint,
    /// Calendar has no working hours defined
    C001ZeroWorkingHours,
    /// Calendar has no working days defined
    C002NoWorkingDays,
    /// Task assigned to abstract profile instead of concrete resource
    W001AbstractAssignment,
    /// Task cost range spread exceeds threshold
    W002WideCostRange,
    /// Profile references undefined trait
    W003UnknownTrait,
    /// Resource leveling could not fully resolve all conflicts
    W004ApproximateLeveling,
    /// Task constraint reduces slack to zero (now on critical path)
    W005ConstraintZeroSlack,
    /// Task is slipping beyond threshold (forecast > baseline)
    W006ScheduleVariance,
    /// Container has dependencies but child task has none
    W014ContainerDependency,
    /// Task scheduled on non-working day
    C010NonWorkingDay,
    /// Task and assigned resource use different calendars
    C011CalendarMismatch,
    /// Task has both concrete and abstract assignments
    H001MixedAbstraction,
    /// Profile is defined but never assigned
    H002UnusedProfile,
    /// Trait is defined but never referenced
    H003UnusedTrait,
    /// Task has no predecessors or date constraints
    H004TaskUnconstrained,
    /// Calendar has low availability (< 40% working days)
    C020LowAvailability,
    /// Calendar is missing common holiday
    C021MissingCommonHoliday,
    /// Calendar has suspicious working hours (e.g. 24/7)
    C022SuspiciousHours,
    /// Holiday falls on non-working day (redundant)
    C023RedundantHoliday,
    /// Project scheduling summary
    I001ProjectCostSummary,
    /// Refinement progress status
    I002RefinementProgress,
    /// Resource utilization summary
    I003ResourceUtilization,
    /// Project status summary (overall progress and variance)
    I004ProjectStatus,
    /// Earned value summary (EV, PV, SPI)
    I005EarnedValueSummary,
    /// Leveling shifted a task to resolve an overallocation
    L001OverallocationResolved,
    /// Leveling could not resolve a resource conflict
    L002UnresolvableConflict,
    /// Leveling increased the project duration
    L003DurationIncreased,
    /// Leveling delayed a milestone
    L004MilestoneDelayed,
}

/// Category of a code by its leading letter.
pub enum CodeClass {
    Error,
    Calendar,
    Warning,
    Hint,
    Info,
    Leveling,
}

impl DiagnosticCode {
    /// The short code text (e.g. "E001", "W002").
    pub open spec fn text(self) -> Seq<char> {
        match self {
            DiagnosticCode::E001CircularSpecialization => "E001"@,
            DiagnosticCode::E002ProfileWithoutRate => "E002"@,
            DiagnosticCode::E003InfeasibleConstraint => "E003"@,
            DiagnosticCode::C001ZeroWorkingHours => "C001"@,
            DiagnosticCode::C002NoWorkingDays => "C002"@,
            DiagnosticCode::W001AbstractAssignment => "W001"@,
            DiagnosticCode::W002WideCostRange => "W002"@,
            DiagnosticCode::W003UnknownTrait => "W003"@,
            DiagnosticCode::W004ApproximateLeveling => "W004"@,
            DiagnosticCode::W005ConstraintZeroSlack => "W005"@,
            DiagnosticCode::W006ScheduleVariance => "W006"@,
            DiagnosticCode::W014ContainerDependency => "W014"@,
            DiagnosticCode::C010NonWorkingDay => "C010"@,
            DiagnosticCode::C011CalendarMismatch => "C011"@,
            DiagnosticCode::H001MixedAbstraction => "H001"@,
            DiagnosticCode::H002UnusedProfile => "H002"@,
            DiagnosticCode::H003UnusedTrait => "H003"@,
            DiagnosticCode::H004TaskUnconstrained => "H004"@,
            DiagnosticCode::C020LowAvailability => "C020"@,
            DiagnosticCode::C021MissingCommonHoliday => "C021"@,
            DiagnosticCode::C022SuspiciousHours => "C022"@,
            DiagnosticCode::C023RedundantHoliday => "C023"@,
            DiagnosticCode::I001ProjectCostSummary => "I001"@,
            DiagnosticCode::I002RefinementProgress => "I002"@,
            DiagnosticCode::I003ResourceUtilization => "I003"@,
            DiagnosticCode::I004ProjectStatus => "I004"@,
            DiagnosticCode::I005EarnedValueSummary => "I005"@,
            DiagnosticCode::L001OverallocationResolved => "L001"@,
            DiagnosticCode::L002UnresolvableConflict => "L002"@,
            DiagnosticCode::L003DurationIncreased => "L003"@,
            DiagnosticCode::L004MilestoneDelayed => "L004"@,
        }
    }

    /// Returns the short code string (e.g. "E001", "W002").
    pub fn as_str(&self) -> (s: &'static str)
        ensures
            s@ == self.text(),
    {
        match self {
            DiagnosticCode::E001CircularSpecialization => "E001",
            DiagnosticCode::E002ProfileWithoutRate => "E002",
            DiagnosticCode::E003InfeasibleConstraint => "E003",
            DiagnosticCode::C001ZeroWorkingHours => "C001",
            DiagnosticCode::C002NoWorkingDays => "C002",
            DiagnosticCode::W001AbstractAssignment => "W001",
            DiagnosticCode::W002WideCostRange => "W002",
            DiagnosticCode::W003UnknownTrait => "W003",
            DiagnosticCode::W004ApproximateLeveling => "W004",
            DiagnosticCode::W005ConstraintZeroSlack => "W005",
            DiagnosticCode::W006ScheduleVariance => "W006",
            DiagnosticCode::W014ContainerDependency => "W014",
            DiagnosticCode::C010NonWorkingDay => "C010",
            DiagnosticCode::C011CalendarMismatch => "C011",
            DiagnosticCode::H001MixedAbstraction => "H001",
            DiagnosticCode::H002UnusedProfile => "H002",
            DiagnosticCode::H003UnusedTrait => "H003",
            DiagnosticCode::H004TaskUnconstrained => "H004",
            DiagnosticCode::C020LowAvailability => "C020",
            DiagnosticCode::C021MissingCommonHoliday => "C021",
            DiagnosticCode::C022SuspiciousHours => "C022",
            DiagnosticCode::C023RedundantHoliday => "C023",
            DiagnosticCode::I001ProjectCostSummary => "I001",
            DiagnosticCode::I002RefinementProgress => "I002",
            DiagnosticCode::I003ResourceUtilization => "I003",
            DiagnosticCode::I004ProjectStatus => "I004",
            DiagnosticCode::I005EarnedValueSummary => "I005",
            DiagnosticCode::L001OverallocationResolved => "L001",
            DiagnosticCode::L002UnresolvableConflict => "L002",
            DiagnosticCode::L003DurationIncreased => "L003",
            DiagnosticCode::L004MilestoneDelayed => "L004",
        }
    }

    /// The default severity of each code.
    pub open spec fn severity_of(self) -> Severity {
        match self {
            DiagnosticCode::E001CircularSpecialization => Severity::Error,
            DiagnosticCode::E002ProfileWithoutRate => Severity::Warning,
            DiagnosticCode::E003InfeasibleConstraint => Severity::Error,
            DiagnosticCode::C001ZeroWorkingHours => Severity::Error,
            DiagnosticCode::C002NoWorkingDays => Severity::Error,
            DiagnosticCode::W001AbstractAssignment => Severity::Warning,
            DiagnosticCode::W002WideCostRange => Severity::Warning,
            DiagnosticCode::W003UnknownTrait => Severity::Warning,
            DiagnosticCode::W004ApproximateLeveling => Severity::Warning,
            DiagnosticCode::W005ConstraintZeroSlack => Severity::Warning,
            DiagnosticCode::W006ScheduleVariance => Severity::Warning,
            DiagnosticCode::W014ContainerDependency => Severity::Warning,
            DiagnosticCode::C010NonWorkingDay => Severity::Warning,
            DiagnosticCode::C011CalendarMismatch => Severity::Warning,
            DiagnosticCode::H001MixedAbstraction => Severity::Hint,
            DiagnosticCode::H002UnusedProfile => Severity::Hint,
            DiagnosticCode::H003UnusedTrait => Severity::Hint,
            DiagnosticCode::H004TaskUnconstrained => Severity::Hint,
            DiagnosticCode::C020LowAvailability => Severity::Hint,
            DiagnosticCode::C021MissingCommonHoliday => Severity::Hint,
            DiagnosticCode::C022SuspiciousHours => Severity::Hint,
            DiagnosticCode::C023RedundantHoliday => Severity::Hint,
            DiagnosticCode::I001ProjectCostSummary => Severity::Info,
            DiagnosticCode::I002RefinementProgress => Severity::Info,
            DiagnosticCode::I003ResourceUtilization => Severity::Info,
            DiagnosticCode::I004ProjectStatus => Severity::Info,
            DiagnosticCode::I005EarnedValueSummary => Severity::Info,
            DiagnosticCode::L001OverallocationResolved => Severity::Info,
            DiagnosticCode::L002UnresolvableConflict => Severity::Warning,
            DiagnosticCode::L003DurationIncreased => Severity::Info,
            DiagnosticCode::L004MilestoneDelayed => Severity::Warning,
        }
    }

    /// Returns the default severity for this diagnostic code.
    pub fn default_severity(&self) -> (s: Severity)
        ensures
            s == self.severity_of(),
    {
        match self {
            DiagnosticCode::E001CircularSpecialization => Severity::Error,
            DiagnosticCode::E002ProfileWithoutRate => Severity::Warning,
            DiagnosticCode::E003InfeasibleConstraint => Severity::Error,
            DiagnosticCode::C001ZeroWorkingHours => Severity::Error,
            DiagnosticCode::C002NoWorkingDays => Severity::Error,
            DiagnosticCode::W001AbstractAssignment => Severity::Warning,
            DiagnosticCode::W002WideCostRange => Severity::Warning,
            DiagnosticCode::W003UnknownTrait => Severity::Warning,
            DiagnosticCode::W004ApproximateLeveling => Severity::Warning,
            DiagnosticCode::W005ConstraintZeroSlack => Severity::Warning,
            DiagnosticCode::W006ScheduleVariance => Severity::Warning,
            DiagnosticCode::W014ContainerDependency => Severity::Warning,
            DiagnosticCode::C010NonWorkingDay => Severity::Warning,
            DiagnosticCode::C011CalendarMismatch => Severity::Warning,
            DiagnosticCode::H001MixedAbstraction => Severity::Hint,
            DiagnosticCode::H002UnusedProfile => Severity::Hint,
            DiagnosticCode::H003UnusedTrait => Severity::Hint,
            DiagnosticCode::H004TaskUnconstrained => Severity::Hint,
            DiagnosticCode::C020LowAvailability => Severity::Hint,
            DiagnosticCode::C021MissingCommonHoliday => Severity::Hint,
            DiagnosticCode::C022SuspiciousHours => Severity::Hint,
            DiagnosticCode::C023RedundantHoliday => Severity::Hint,
            DiagnosticCode::I001ProjectCostSummary => Severity::Info,
            DiagnosticCode::I002RefinementProgress => Severity::Info,
            DiagnosticCode::I003ResourceUtilization => Severity::Info,
            DiagnosticCode::I004ProjectStatus => Severity::Info,
            DiagnosticCode::I005EarnedValueSummary => Severity::Info,
            DiagnosticCode::L001OverallocationResolved => Severity::Info,
            DiagnosticCode::L002UnresolvableConflict => Severity::Warning,
            DiagnosticCode::L003DurationIncreased => Severity::Info,
            DiagnosticCode::L004MilestoneDelayed => Severity::Warning,
        }
    }

    /// The emission priority of each code (lower is emitted first).
    pub open spec fn priority_of(self) -> u8 {
        match self {
            DiagnosticCode::E001CircularSpecialization => 0,
            DiagnosticCode::E002ProfileWithoutRate => 1,
            DiagnosticCode::E003InfeasibleConstraint => 2,
            DiagnosticCode::C001ZeroWorkingHours => 3,
            DiagnosticCode::C002NoWorkingDays => 4,
            DiagnosticCode::W002WideCostRange => 10,
            DiagnosticCode::W004ApproximateLeveling => 11,
            DiagnosticCode::W005ConstraintZeroSlack => 12,
            DiagnosticCode::W006ScheduleVariance => 13,
            DiagnosticCode::W014ContainerDependency => 14,
            DiagnosticCode::C010NonWorkingDay => 15,
            DiagnosticCode::C011CalendarMismatch => 16,
            DiagnosticCode::W001AbstractAssignment => 20,
            DiagnosticCode::W003UnknownTrait => 21,
            DiagnosticCode::L002UnresolvableConflict => 22,
            DiagnosticCode::L004MilestoneDelayed => 23,
            DiagnosticCode::H001MixedAbstraction => 30,
            DiagnosticCode::H002UnusedProfile => 31,
            DiagnosticCode::H003UnusedTrait => 32,
            DiagnosticCode::H004TaskUnconstrained => 33,
            DiagnosticCode::C020LowAvailability => 34,
            DiagnosticCode::C021MissingCommonHoliday => 35,
            DiagnosticCode::C022SuspiciousHours => 36,
            DiagnosticCode::C023RedundantHoliday => 37,
            DiagnosticCode::I001ProjectCostSummary => 40,
            DiagnosticCode::I002RefinementProgress => 41,
            DiagnosticCode::I003ResourceUtilization => 42,
            DiagnosticCode::I004ProjectStatus => 43,
            DiagnosticCode::I005EarnedValueSummary => 44,
            DiagnosticCode::L001OverallocationResolved => 45,
            DiagnosticCode::L003DurationIncreased => 46,
        }
    }

    /// Returns the diagnostic ordering priority (lower = emitted first).
    ///
    /// Ordering: errors, then cost warnings, then assignment warnings, then
    /// hints, then info.
    pub fn ordering_priority(&self) -> (p: u8)
        ensures
            p == self.priority_of(),
    {
        match self {
            DiagnosticCode::E001CircularSpecialization => 0,
            DiagnosticCode::E002ProfileWithoutRate => 1,
            DiagnosticCode::E003InfeasibleConstraint => 2,
            DiagnosticCode::C001ZeroWorkingHours => 3,
            DiagnosticCode::C002NoWorkingDays => 4,
            DiagnosticCode::W002WideCostRange => 10,
            DiagnosticCode::W004ApproximateLeveling => 11,
            DiagnosticCode::W005ConstraintZeroSlack => 12,
            DiagnosticCode::W006ScheduleVariance => 13,
            DiagnosticCode::W014ContainerDependency => 14,
            DiagnosticCode::C010NonWorkingDay => 15,
            DiagnosticCode::C011CalendarMismatch => 16,
            DiagnosticCode::W001AbstractAssignment => 20,
            DiagnosticCode::W003UnknownTrait => 21,
            DiagnosticCode::L002UnresolvableConflict => 22,
            DiagnosticCode::L004MilestoneDelayed => 23,
            DiagnosticCode::H001MixedAbstraction => 30,
            DiagnosticCode::H002UnusedProfile => 31,
            DiagnosticCode::H003UnusedTrait => 32,
            DiagnosticCode::H004TaskUnconstrained => 33,
            DiagnosticCode::C020LowAvailability => 34,
            DiagnosticCode::C021MissingCommonHoliday => 35,
            DiagnosticCode::C022SuspiciousHours => 36,
            DiagnosticCode::C023RedundantHoliday => 37,
            DiagnosticCode::I001ProjectCostSummary => 40,
            DiagnosticCode::I002RefinementProgress => 41,
            DiagnosticCode::I003ResourceUtilization => 42,
            DiagnosticCode::I004ProjectStatus => 43,
            DiagnosticCode::I005EarnedValueSummary => 44,
            DiagnosticCode::L001OverallocationResolved => 45,
            DiagnosticCode::L003DurationIncreased => 46,
        }
    }

    /// The class a code belongs to, by the letter it starts with.
    pub open spec fn class_of(self) -> CodeClass {
        match self {
            DiagnosticCode::E001CircularSpecialization | DiagnosticCode::E002ProfileWithoutRate
            | DiagnosticCode::E003InfeasibleConstraint => CodeClass::Error,
            DiagnosticCode::C001ZeroWorkingHours | DiagnosticCode::C002NoWorkingDays
            | DiagnosticCode::C010NonWorkingDay | DiagnosticCode::C011CalendarMismatch
            | DiagnosticCode::C020LowAvailability | DiagnosticCode::C021MissingCommonHoliday
            | DiagnosticCode::C022SuspiciousHours | DiagnosticCode::C023RedundantHoliday => CodeClass::Calendar,
            DiagnosticCode::W001AbstractAssignment | DiagnosticCode::W002WideCostRange
            | DiagnosticCode::W003UnknownTrait | DiagnosticCode::W004ApproximateLeveling
            | DiagnosticCode::W005ConstraintZeroSlack | DiagnosticCode::W006ScheduleVariance
            | DiagnosticCode::W014ContainerDependency => CodeClass::Warning,
            DiagnosticCode::H001MixedAbstraction | DiagnosticCode::H002UnusedProfile
            | DiagnosticCode::H003UnusedTrait | DiagnosticCode::H004TaskUnconstrained => CodeClass::Hint,
            DiagnosticCode::I001ProjectCostSummary | DiagnosticCode::I002RefinementProgress
            | DiagnosticCode::I003ResourceUtilization | DiagnosticCode::I004ProjectStatus
            | DiagnosticCode::I005EarnedValueSummary => CodeClass::Info,
            _ => CodeClass::Leveling,
        }
    }
}

/// Rank of the code classes whose order the emission priority follows:
/// errors, then warnings, then hints, then info.
pub open spec fn class_rank(c: CodeClass) -> int {
    match c {
        CodeClass::Error => 0,
        CodeClass::Warning => 1,
        CodeClass::Hint => 2,
        CodeClass::Info => 3,
        _ => -1,
    }
}

/// Emission order follows the code classes: every error code (E) is emitted
/// before every warning code (W), every warning code before every hint code
/// (H), and every hint code before every info code (I).
pub proof fn lemma_priority_follows_class(a: DiagnosticCode, b: DiagnosticCode)
    requires
        0 <= class_rank(a.class_of()) < class_rank(b.class_of()),
    ensures
        a.priority_of() < b.priority_of(),
{
}

/// The first character of every code names its class.
pub open spec fn class_letter(c: CodeClass) -> char {
    match c {
        CodeClass::Error => 'E',
        CodeClass::Calendar => 'C',
        CodeClass::Warning => 'W',
        CodeClass::Hint => 'H',
        CodeClass::Info => 'I',
        CodeClass::Leveling => 'L',
    }
}

/// Every code's text is four characters long and starts with its class letter.
pub proof fn lemma_code_text_shape(c: DiagnosticCode)
    ensures
        c.text().len() == 4,
        c.text()[0] == class_letter(c.class_of()),
{
    reveal_strlit("E001");
    reveal_strlit("E002");
    reveal_strlit("E003");
    reveal_strlit("C001");
    reveal_strlit("C002");
    reveal_strlit("W001");
    reveal_strlit("W002");
    reveal_strlit("W003");
    reveal_strlit("W004");
    reveal_strlit("W005");
    reveal_strlit("W006");
    reveal_strlit("W014");
    reveal_strlit("C010");
    reveal_strlit("C011");
    reveal_strlit("H001");
    reveal_strlit("H002");
    reveal_strlit("H003");
    reveal_strlit("H004");
    reveal_strlit("C020");
    reveal_strlit("C021");
    reveal_strlit("C022");
    reveal_strlit("C023");
    reveal_strlit("I001");
    reveal_strlit("I002");
    reveal_strlit("I003");
    reveal_strlit("I004");
    reveal_strlit("I005");
    reveal_strlit("L001");
    reveal_strlit("L002");
    reveal_strlit("L003");
    reveal_strlit("L004");
}

/// A character is an ASCII digit.
pub open spec fn ascii_digit(c: char) -> bool {
    '0' <= c && c <= '9'
}

/// A four-character code as a number: its letter's code point times 1000
/// plus the number its three digits spell.
pub open spec fn code_key(t: Seq<char>) -> int {
    t[0] as int * 1000 + (t[1] as int - 48) * 100 + (t[2] as int - 48) * 10 + (t[3] as int - 48)
}

/// The code whose text has the given key.
pub open spec fn code_with_key(k: int) -> DiagnosticCode {
    if k == 69001 {
        DiagnosticCode::E001CircularSpecialization
    } else if k == 69002 {
        DiagnosticCode::E002ProfileWithoutRate
    } else if k == 69003 {
        DiagnosticCode::E003InfeasibleConstraint
    } else if k == 67001 {
        DiagnosticCode::C001ZeroWorkingHours
    } else if k == 67002 {
        DiagnosticCode::C002NoWorkingDays
    } else if k == 87001 {
        DiagnosticCode::W001AbstractAssignment
    } else if k == 87002 {
        DiagnosticCode::W002WideCostRange
    } else if k == 87003 {
        DiagnosticCode::W003UnknownTrait
    } else if k == 87004 {
        DiagnosticCode::W004ApproximateLeveling
    } else if k == 87005 {
        DiagnosticCode::W005ConstraintZeroSlack
    } else if k == 87006 {
        DiagnosticCode::W006ScheduleVariance
    } else if k == 87014 {
        DiagnosticCode::W014ContainerDependency
    } else if k == 67010 {
        DiagnosticCode::C010NonWorkingDay
    } else if k == 67011 {
        DiagnosticCode::C011CalendarMismatch
    } else if k == 72001 {
        DiagnosticCode::H001MixedAbstraction
    } else if k == 72002 {
        DiagnosticCode::H002UnusedProfile
    } else if k == 72003 {
        DiagnosticCode::H003UnusedTrait
    } else if k == 72004 {
        DiagnosticCode::H004TaskUnconstrained
    } else if k == 67020 {
        DiagnosticCode::C020LowAvailability
    } else if k == 67021 {
        DiagnosticCode::C021MissingCommonHoliday
    } else if k == 67022 {
        DiagnosticCode::C022SuspiciousHours
    } else if k == 67023 {
        DiagnosticCode::C023RedundantHoliday
    } else if k == 73001 {
        DiagnosticCode::I001ProjectCostSummary
    } else if k == 73002 {
        DiagnosticCode::I002RefinementProgress
    } else if k == 73003 {
        DiagnosticCode::I003ResourceUtilization
    } else if k == 73004 {
        DiagnosticCode::I004ProjectStatus
    } else if k == 73005 {
        DiagnosticCode::I005EarnedValueSummary
    } else if k == 76001 {
        DiagnosticCode::L001OverallocationResolved
    } else if k == 76002 {
        DiagnosticCode::L002UnresolvableConflict
    } else if k == 76003 {
        DiagnosticCode::L003DurationIncreased
    } else if k == 76004 {
        DiagnosticCode::L004MilestoneDelayed
    } else {
        DiagnosticCode::E001CircularSpecialization
    }
}

proof fn lemma_code_key(c: DiagnosticCode)
    ensures
        code_with_key(code_key(c.text())) == c,
        forall|i: int| 1 <= i < 4 ==> ascii_digit(#[trigger] c.text()[i]),
{
    reveal_strlit("E001");
    reveal_strlit("E002");
    reveal_strlit("E003");
    reveal_strlit("C001");
    reveal_strlit("C002");
    reveal_strlit("W001");
    reveal_strlit("W002");
    reveal_strlit("W003");
    reveal_strlit("W004");
    reveal_strlit("W005");
    reveal_strlit("W006");
    reveal_strlit("W014");
    reveal_strlit("C010");
    reveal_strlit("C011");
    reveal_strlit("H001");
    reveal_strlit("H002");
    reveal_strlit("H003");
    reveal_strlit("H004");
    reveal_strlit("C020");
    reveal_strlit("C021");
    reveal_strlit("C022");
    reveal_strlit("C023");
    reveal_strlit("I001");
    reveal_strlit("I002");
    reveal_strlit("I003");
    reveal_strlit("I004");
    reveal_strlit("I005");
    reveal_strlit("L001");
    reveal_strlit("L002");
    reveal_strlit("L003");
    reveal_strlit("L004");
}

/// Every code's text ends in three ASCII digits, and two different codes
/// have different texts.
pub proof fn lemma_code_texts_distinct(c: DiagnosticCode, c2: DiagnosticCode)
    ensures
        forall|i: int| 1 <= i < 4 ==> ascii_digit(#[trigger] c.text()[i]),
        c != c2 ==> c.text() != c2.text(),
{
    lemma_code_key(c);
    lemma_code_key(c2);
}


/// Source location span for diagnostic highlighting.
#[derive(Debug, Clone, PartialEq, Eq)]
pub struct SourceSpan {
    /// Line number (1-based)
    pub line: usize,
    /// Column number (1-based)
    pub column: usize,
    /// Length of the span in characters
    pub length: usize,
    /// Optional label for this span
    pub label: Option<String>,
}

impl SourceSpan {
    /// A span without a label.
    pub fn new(line: usize, column: usize, length: usize) -> (s: Self)
        ensures
            s.line == line,
            s.column == column,
            s.length == length,
            s.label is None,
    {
        SourceSpan { line, column, length, label: None }
    }

    /// The same span carrying a label.
    pub fn with_label(self, label: &str) -> (s: Self)
        ensures
            s.line == self.line,
            s.column == self.column,
            s.length == self.length,
            s.label matches Some(l) && l@ == label@,
    {
        let mut s = self;
        s.label = Some(label.to_owned());
        s
    }
}

/// A diagnostic message emitted during analysis or scheduling.
///
/// The message text is fully rendered at emission time.
#[derive(Debug, Clone)]
pub struct Diagnostic {
    /// The diagnostic code
    pub code: DiagnosticCode,
    /// Severity level (derived from code by default)
    pub severity: Severity,
    /// The primary message (fully rendered)
    pub message: String,
    /// Source file path (if applicable)
    pub file: Option<String>,
    /// Primary source span (if applicable)
    pub span: Option<SourceSpan>,
    /// Additional spans for related locations
    pub secondary_spans: Vec<SourceSpan>,
    /// Additional notes (displayed after the main message)
    pub notes: Vec<String>,
    /// Hints for fixing the issue
    pub hints: Vec<String>,
}

impl Diagnostic {
    /// A diagnostic with the given parts and nothing else attached.
    pub open spec fn bare(self, code: DiagnosticCode, severity: Severity, message: Seq<char>) -> bool {
        &&& self.code == code
        &&& self.severity == severity
        &&& self.message@ == message
        &&& self.file is None
        &&& self.span is None
        &&& self.secondary_spans@.len() == 0
        &&& self.notes@.len() == 0
        &&& self.hints@.len() == 0
    }

    /// Everything but the attachments is kept from `other`.
    pub open spec fn same_head(self, other: Diagnostic) -> bool {
        &&& self.code == other.code
        &&& self.severity == other.severity
        &&& self.message@ == other.message@
    }

    /// Create a new diagnostic; its severity is the code's default.
    pub fn new(code: DiagnosticCode, message: &str) -> (d: Self)
        ensures
            d.bare(code, code.severity_of(), message@),
    {
        Diagnostic {
            severity: code.default_severity(),
            code,
            message: message.to_owned(),
            file: None,
            span: None,
            secondary_spans: Vec::new(),
            notes: Vec::new(),
            hints: Vec::new(),
        }
    }

    /// Create an error diagnostic.
    pub fn error(code: DiagnosticCode, message: &str) -> (d: Self)
        ensures
            d.bare(code, Severity::Error, message@),
    {
        Diagnostic {
            severity: Severity::Error,
            code,
            message: message.to_owned(),
            file: None,
            span: None,
            secondary_spans: Vec::new(),
            notes: Vec::new(),
            hints: Vec::new(),
        }
    }

    /// Create a warning diagnostic.
    pub fn warning(code: DiagnosticCode, message: &str) -> (d: Self)
        ensures
            d.bare(code, Severity::Warning, message@),
    {
        Diagnostic {
            severity: Severity::Warning,
            code,
            message: message.to_owned(),
            file: None,
            span: None,
            secondary_spans: Vec::new(),
            notes: Vec::new(),
            hints: Vec::new(),
        }
    }

    /// Set the source file.
    pub fn with_file(self, file: &str) -> (d: Self)
        ensures
            d.same_head(self),
            d.file matches Some(f) && f@ == file@,
            d.span == self.span,
            d.secondary_spans@ == self.secondary_spans@,
            d.notes@ == self.notes@,
            d.hints@ == self.hints@,
    {
        let mut d = self;
        d.file = Some(file.to_owned());
        d
    }

    /// Set the primary source span.
    pub fn with_span(self, span: SourceSpan) -> (d: Self)
        ensures
            d.same_head(self),
            d.file == self.file,
            d.span == Some(span),
            d.secondary_spans@ == self.secondary_spans@,
            d.notes@ == self.notes@,
            d.hints@ == self.hints@,
    {
        let mut d = self;
        d.span = Some(span);
        d
    }

    /// Add a secondary span.
    pub fn with_secondary_span(self, span: SourceSpan) -> (d: Self)
        ensures
            d.same_head(self),
            d.file == self.file,
            d.span == self.span,
            d.secondary_spans@ == self.secondary_spans@.push(span),
            d.notes@ == self.notes@,
            d.hints@ == self.hints@,
    {
        let mut d = self;
        d.secondary_spans.push(span);
        d
    }

    /// Add a note.
    pub fn with_note(self, note: &str) -> (d: Self)
        ensures
            d.same_head(self),
            d.file == self.file,
            d.span == self.span,
            d.secondary_spans@ == self.secondary_spans@,
            d.notes@.len() == self.notes@.len() + 1,
            d.notes@.take(self.notes@.len() as int) == self.notes@,
            d.notes@.last()@ == note@,
            d.hints@ == self.hints@,
    {
        let mut d = self;
        d.notes.push(note.to_owned());
        d
    }

    /// Add a hint.
    pub fn with_hint(self, hint: &str) -> (d: Self)
        ensures
            d.same_head(self),
            d.file == self.file,
            d.span == self.span,
            d.secondary_spans@ == self.secondary_spans@,
            d.notes@ == self.notes@,
            d.hints@.len() == self.hints@.len() + 1,
            d.hints@.take(self.hints@.len() as int) == self.hints@,
            d.hints@.last()@ == hint@,
    {
        let mut d = self;
        d.hints.push(hint.to_owned());
        d
    }

    /// Returns true if this is an error-level diagnostic.
    pub fn is_error(&self) -> (r: bool)
        ensures
            r == (self.severity == Severity::Error),
    {
        self.severity == Severity::Error
    }

    /// Returns true if this is a warning-level diagnostic.
    pub fn is_warning(&self) -> (r: bool)
        ensures
            r == (self.severity == Severity::Warning),
    {
        self.severity == Severity::Warning
    }
}

/// Receiver of diagnostic messages; backends decide how to present them.
pub trait DiagnosticEmitter {
    /// Emit a diagnostic.
    fn emit(&mut self, diagnostic: Diagnostic);
}

/// Number of diagnostics in `ds` whose severity is `s`.
pub open spec fn count_severity(ds: Seq<Diagnostic>, s: Severity) -> nat
    decreases ds.len(),
{
    if ds.len() == 0 {
        0
    } else {
        count_severity(ds.drop_last(), s) + if ds.last().severity == s {
            1nat
        } else {
            0nat
        }
    }
}

/// A simple diagnostic emitter that collects diagnostics in emission order.
#[derive(Debug)]
pub struct CollectingEmitter {
    pub diagnostics: Vec<Diagnostic>,
}

impl CollectingEmitter {
    /// An emitter that has collected nothing.
    pub fn new() -> (e: Self)
        ensures
            e.diagnostics@.len() == 0,
    {
        CollectingEmitter { diagnostics: Vec::new() }
    }

    /// Counts the collected diagnostics of one severity.
    fn count(&self, s: Severity) -> (n: usize)
        ensures
            n == count_severity(self.diagnostics@, s),
    {
        let mut n: usize = 0;
        let mut i: usize = 0;
        while i < self.diagnostics.len()
            invariant
                i <= self.diagnostics@.len(),
                n == count_severity(self.diagnostics@.take(i as int), s),
                n <= i,
            decreases self.diagnostics@.len() - i,
        {
            assert(self.diagnostics@.take(i + 1).drop_last() == self.diagnostics@.take(i as int));
            if self.diagnostics[i].severity == s {
                n = n + 1;
            }
            i = i + 1;
        }
        assert(self.diagnostics@.take(i as int) == self.diagnostics@);
        n
    }

    /// Returns true if any errors were emitted.
    pub fn has_errors(&self) -> (r: bool)
        ensures
            r == (count_severity(self.diagnostics@, Severity::Error) > 0),
    {
        self.count(Severity::Error) > 0
    }

    /// Returns the count of errors.
    pub fn error_count(&self) -> (n: usize)
        ensures
            n == count_severity(self.diagnostics@, Severity::Error),
    {
        self.count(Severity::Error)
    }

    /// Returns the count of warnings.
    pub fn warning_count(&self) -> (n: usize)
        ensures
            n == count_severity(self.diagnostics@, Severity::Warning),
    {
        self.count(Severity::Warning)
    }

    /// Appends a diagnostic.
    pub fn push(&mut self, diagnostic: Diagnostic)
        ensures
            final(self).diagnostics@ == old(self).diagnostics@.push(diagnostic),
    {
        self.diagnostics.push(diagnostic);
    }
}

/// Three-way comparison of two integers.
pub open spec fn order_nat(a: int, b: int) -> int {
    if a < b {
        -1
    } else if a > b {
        1
    } else {
        0
    }
}

/// Three-way comparison of optional file paths: no file sorts first, files
/// compare by their path components.
pub open spec fn order_files(a: Option<String>, b: Option<String>) -> int {
    match (a, b) {
        (None, None) => 0,
        (None, Some(_)) => -1,
        (Some(_), None) => 1,
        (Some(x), Some(y)) => crate::path::order_paths(x@, y@),
    }
}

/// The line of the primary span, 0 without one.
pub open spec fn line_of(d: Diagnostic) -> int {
    match d.span {
        Some(s) => s.line as int,
        None => 0,
    }
}

/// The column of the primary span, 0 without one.
pub open spec fn column_of(d: Diagnostic) -> int {
    match d.span {
        Some(s) => s.column as int,
        None => 0,
    }
}

/// The order diagnostics are reported in: by ordering priority, then by
/// file, then by line, then by column.
pub open spec fn order_diagnostics(a: Diagnostic, b: Diagnostic) -> int {
    let p = order_nat(a.code.priority_of() as int, b.code.priority_of() as int);
    let f = order_files(a.file, b.file);
    let l = order_nat(line_of(a), line_of(b));
    if p != 0 {
        p
    } else if f != 0 {
        f
    } else if l != 0 {
        l
    } else {
        order_nat(column_of(a), column_of(b))
    }
}

proof fn lemma_order_files(a: Option<String>, b: Option<String>, c: Option<String>)
    ensures
        order_files(a, b) == -order_files(b, a),
        order_files(a, b) <= 0 && order_files(b, c) <= 0 ==> order_files(a, c) <= 0,
        order_files(a, b) == 0 && order_files(b, c) == 0 ==> order_files(a, c) == 0,
{
    match (a, b, c) {
        (Some(x), Some(y), Some(z)) => {
            crate::path::lemma_order_components_props(
                crate::path::components(x@),
                crate::path::components(y@),
                crate::path::components(z@),
            );
        },
        (Some(x), Some(y), _) => {
            crate::path::lemma_order_components_props(
                crate::path::components(x@),
                crate::path::components(y@),
                crate::path::components(y@),
            );
        },
        _ => {},
    }
}

/// The report order is a total preorder: it is antisymmetric and transitive.
pub proof fn lemma_order_diagnostics(a: Diagnostic, b: Diagnostic, c: Diagnostic)
    ensures
        order_diagnostics(a, b) == -order_diagnostics(b, a),
        order_diagnostics(a, b) <= 0 && order_diagnostics(b, c) <= 0 ==> order_diagnostics(a, c)
            <= 0,
{
    lemma_order_files(a.file, b.file, c.file);
    lemma_order_files(b.file, c.file, a.file);
    lemma_order_files(a.file, c.file, b.file);
    lemma_order_files(b.file, a.file, c.file);
    crate::path::lemma_order_components_props(
        crate::path::components(a.file->0@),
        crate::path::components(b.file->0@),
        crate::path::components(c.file->0@),
    );
}

/// `r` lists each index below `n` exactly once.
pub open spec fn is_permutation(r: Seq<usize>, n: nat) -> bool {
    &&& r.len() == n
    &&& forall|i: int| 0 <= i < r.len() ==> #[trigger] r[i] < n
    &&& forall|i: int, j: int| 0 <= i < j < r.len() ==> r[i] != r[j]
}

/// `r` orders the diagnostics `ds` for reporting, keeping the emission order
/// of diagnostics that compare equal.
pub open spec fn sorts_stably(r: Seq<usize>, ds: Seq<Diagnostic>) -> bool {
    &&& is_permutation(r, ds.len())
    &&& forall|i: int, j: int|
        0 <= i < j < r.len() ==> order_diagnostics(ds[#[trigger] r[i] as int], ds[#[trigger] r[j] as int]) <= 0
    &&& forall|i: int, j: int|
        0 <= i < j < r.len() && order_diagnostics(ds[#[trigger] r[i] as int], ds[#[trigger] r[j] as int]) == 0
            ==> r[i] < r[j]
}

/// The sort key of a diagnostic, with its file split into components.
struct SortKey {
    priority: u8,
    file: Option<Vec<Vec<char>>>,
    line: usize,
    column: usize,
}

spec fn key_matches(k: SortKey, d: Diagnostic) -> bool {
    &&& k.priority == d.code.priority_of()
    &&& match (k.file, d.file) {
        (Some(c), Some(f)) => c.deep_view() == crate::path::components(f@),
        (None, None) => true,
        _ => false,
    }
    &&& k.line as int == line_of(d)
    &&& k.column as int == column_of(d)
}

fn sort_key(d: &Diagnostic) -> (k: SortKey)
    ensures
        key_matches(k, *d),
{
    let file = match &d.file {
        Some(f) => {
            let cs = crate::text::chars_of(f.as_str());
            let sl = cs.as_slice();
            Some(crate::path::path_components(sl))
        },
        None => None,
    };
    let (line, column) = match &d.span {
        Some(s) => (s.line, s.column),
        None => (0, 0),
    };
    SortKey { priority: d.code.ordering_priority(), file, line, column }
}

fn compare_keys(a: &SortKey, b: &SortKey, Ghost(da): Ghost<Diagnostic>, Ghost(db): Ghost<Diagnostic>) -> (r: i8)
    requires
        key_matches(*a, da),
        key_matches(*b, db),
    ensures
        r == order_diagnostics(da, db),
{
    if a.priority < b.priority {
        return -1;
    }
    if a.priority > b.priority {
        return 1;
    }
    let f: i8 = match (&a.file, &b.file) {
        (None, None) => 0,
        (None, Some(_)) => -1,
        (Some(_), None) => 1,
        (Some(x), Some(y)) => crate::path::compare_components(x, y),
    };
    if f != 0 {
        return f;
    }
    if a.line < b.line {
        return -1;
    }
    if a.line > b.line {
        return 1;
    }
    if a.column < b.column {
        -1
    } else if a.column > b.column {
        1
    } else {
        0
    }
}

/// The loop state of the insertion sort: `r` is a stably ordered
/// arrangement of the first `i` diagnostics.
spec fn ordered_prefix(ds: Seq<Diagnostic>, r: Seq<usize>, i: int) -> bool {
    &&& forall|a: int| 0 <= a < r.len() ==> #[trigger] r[a] < i
    &&& forall|a: int, b: int| 0 <= a < b < r.len() ==> r[a] != r[b]
    &&& forall|a: int, b: int|
        0 <= a < b < r.len() ==> order_diagnostics(ds[#[trigger] r[a] as int], ds[#[trigger] r[b] as int]) <= 0
    &&& forall|a: int, b: int|
        0 <= a < b < r.len() && order_diagnostics(ds[#[trigger] r[a] as int], ds[#[trigger] r[b] as int]) == 0
            ==> r[a] < r[b]
}

proof fn lemma_insert_pair(ds: Seq<Diagnostic>, old_r: Seq<usize>, pos: int, i: usize, a: int, b: int)
    requires
        0 <= pos <= old_r.len(),
        ordered_prefix(ds, old_r, i as int),
        forall|k: int| 0 <= k < pos ==> order_diagnostics(ds[#[trigger] old_r[k] as int], ds[i as int]) <= 0,
        pos < old_r.len() ==> order_diagnostics(ds[old_r[pos] as int], ds[i as int]) > 0,
        0 <= a < b < old_r.len() + 1,
    ensures
        ({
            let r = old_r.insert(pos, i);
            &&& r[a] != r[b]
            &&& order_diagnostics(ds[r[a] as int], ds[r[b] as int]) <= 0
            &&& order_diagnostics(ds[r[a] as int], ds[r[b] as int]) == 0 ==> r[a] < r[b]
        }),
{
    let r = old_r.insert(pos, i);
    let di = ds[i as int];
    if b < pos {
        assert(r[a] == old_r[a] && r[b] == old_r[b]);
    } else if b == pos {
        assert(r[a] == old_r[a]);
        assert(r[b] == i);
        assert(old_r[a] < i);
        assert(order_diagnostics(ds[old_r[a] as int], di) <= 0);
    } else if a < pos {
        assert(r[a] == old_r[a] && r[b] == old_r[b - 1]);
    } else if a == pos {
        let dp = ds[old_r[pos] as int];
        let dx = ds[old_r[b - 1] as int];
        assert(r[a] == i);
        assert(r[b] == old_r[b - 1]);
        assert(old_r[b - 1] < i);
        lemma_order_diagnostics(dp, di, di);
        if b - 1 > pos {
            assert(order_diagnostics(dp, dx) <= 0);
            lemma_order_diagnostics(di, dp, dx);
            lemma_order_diagnostics(dp, dx, di);
            lemma_order_diagnostics(di, dx, dp);
        }
    } else {
        assert(r[a] == old_r[a - 1] && r[b] == old_r[b - 1]);
    }
}

proof fn lemma_insert_in_order(ds: Seq<Diagnostic>, old_r: Seq<usize>, pos: int, i: usize)
    requires
        0 <= pos <= old_r.len(),
        ordered_prefix(ds, old_r, i as int),
        forall|k: int| 0 <= k < pos ==> order_diagnostics(ds[#[trigger] old_r[k] as int], ds[i as int]) <= 0,
        pos < old_r.len() ==> order_diagnostics(ds[old_r[pos] as int], ds[i as int]) > 0,
    ensures
        ordered_prefix(ds, old_r.insert(pos, i), i + 1),
{
    let r = old_r.insert(pos, i);
    assert forall|a: int| 0 <= a < r.len() implies #[trigger] r[a] < i + 1 by {
        if a < pos {
            assert(r[a] == old_r[a]);
        } else if a > pos {
            assert(r[a] == old_r[a - 1]);
        }
    }
    assert forall|a: int, b: int| 0 <= a < b < r.len() implies r[a] != r[b] by {
        lemma_insert_pair(ds, old_r, pos, i, a, b);
    }
    assert forall|a: int, b: int| 0 <= a < b < r.len() implies order_diagnostics(
        ds[#[trigger] r[a] as int],
        ds[#[trigger] r[b] as int],
    ) <= 0 by {
        lemma_insert_pair(ds, old_r, pos, i, a, b);
    }
    assert forall|a: int, b: int|
        0 <= a < b < r.len() && order_diagnostics(ds[#[trigger] r[a] as int], ds[#[trigger] r[b] as int]) == 0 implies r[a]
        < r[b] by {
        lemma_insert_pair(ds, old_r, pos, i, a, b);
    }
}

impl CollectingEmitter {
    /// Indices of the collected diagnostics in report order: by ordering
    /// priority, then file, line and column; diagnostics that compare equal
    /// keep their emission order.
    pub fn sorted_indices(&self) -> (r: Vec<usize>)
        ensures
            sorts_stably(r@, self.diagnostics@),
    {
        let ghost ds = self.diagnostics@;
        let n = self.diagnostics.len();
        let mut keys: Vec<SortKey> = Vec::new();
        let mut k: usize = 0;
        while k < n
            invariant
                n == ds.len(),
                ds == self.diagnostics@,
                k <= n,
                keys@.len() == k,
                forall|j: int| 0 <= j < k ==> key_matches(#[trigger] keys@[j], ds[j]),
            decreases n - k,
        {
            keys.push(sort_key(&self.diagnostics[k]));
            k = k + 1;
        }
        let mut r: Vec<usize> = Vec::new();
        let mut i: usize = 0;
        while i < n
            invariant
                n == ds.len(),
                ds == self.diagnostics@,
                keys@.len() == n,
                forall|j: int| 0 <= j < n ==> key_matches(#[trigger] keys@[j], ds[j]),
                i <= n,
                r@.len() == i,
                ordered_prefix(ds, r@, i as int),
            decreases n - i,
        {
            let mut pos: usize = 0;
            while pos < r.len()
                invariant
                    n == ds.len(),
                    keys@.len() == n,
                    forall|j: int| 0 <= j < n ==> key_matches(#[trigger] keys@[j], ds[j]),
                    i < n,
                    pos <= r@.len(),
                    ordered_prefix(ds, r@, i as int),
                    forall|a: int| 0 <= a < pos ==> order_diagnostics(ds[#[trigger] r@[a] as int], ds[i as int]) <= 0,
                ensures
                    pos <= r@.len(),
                    forall|a: int| 0 <= a < pos ==> order_diagnostics(ds[#[trigger] r@[a] as int], ds[i as int]) <= 0,
                    pos < r@.len() ==> order_diagnostics(ds[r@[pos as int] as int], ds[i as int]) > 0,
                decreases r@.len() - pos,
            {
                let rp = r[pos];
                let c = compare_keys(&keys[rp], &keys[i], Ghost(ds[rp as int]), Ghost(ds[i as int]));
                if c > 0 {
                    break;
                }
                pos = pos + 1;
            }
            let ghost old_r = r@;
            r.insert(pos, i);
            proof {
                lemma_insert_in_order(ds, old_r, pos as int, i);
            }
            i = i + 1;
        }
        r
    }

    /// The collected diagnostics in report order (see `sorted_indices`).
    pub fn sorted(&self) -> (r: Vec<&Diagnostic>)
        ensures
            exists|p: Seq<usize>| #![auto] sorts_stably(p, self.diagnostics@) && r@.len() == p.len() && forall|k: int|
                0 <= k < p.len() ==> *r@[k] == self.diagnostics@[p[k] as int],
    {
        let idx = self.sorted_indices();
        let mut r: Vec<&Diagnostic> = Vec::new();
        let mut k: usize = 0;
        while k < idx.len()
            invariant
                sorts_stably(idx@, self.diagnostics@),
                k <= idx@.len(),
                r@.len() == k,
                forall|j: int| 0 <= j < k ==> *r@[j] == self.diagnostics@[#[trigger] idx@[j] as int],
            decreases idx@.len() - k,
        {
            r.push(&self.diagnostics[idx[k]]);
            k = k + 1;
        }
        r
    }
}

impl DiagnosticEmitter for CollectingEmitter {
    /// Appends the diagnostic to the collected ones.
    fn emit(&mut self, diagnostic: Diagnostic)
        ensures
            final(self).diagnostics@ == old(self).diagnostics@.push(diagnostic),
    {
        self.diagnostics.push(diagnostic);
    }
}

} // verus!
