//! Diagnostic output policy of the command-line tool: exit codes, strict and
//! quiet modes, path normalization, and the terminal and JSON emitters.
//!
//! Exit code 0 means no errors (warnings, hints and info allowed); 1 means at
//! least one error after policy.  Strict mode escalates warnings to errors and
//! hints to warnings; quiet mode hides everything but errors and does not
//! affect the exit code.
use vstd::prelude::*;
use crate::diagnostic::{Diagnostic, DiagnosticCode, DiagnosticEmitter, Severity, SourceSpan};
use crate::text::{push_str, push_char, u64_to_string, decimal};
use crate::model::{Conflict, ConflictType, ScheduleError};
use crate::hover::views;

verus! {

/// Exit codes for command-line operations.
#[derive(Debug, Clone, Copy, PartialEq, Eq, Structural)]
pub enum ExitCode {
    /// No errors (warnings, hints and info allowed)
    Success,
    /// One or more errors emitted
    Failure,
}

impl ExitCode {
    /// The exit code for a number of errors (counted after policy).
    pub open spec fn for_errors(count: nat) -> ExitCode {
        if count > 0 {
            ExitCode::Failure
        } else {
            ExitCode::Success
        }
    }

    /// Determine the exit code from the error count.
    pub fn from_error_count(count: usize) -> (c: Self)
        ensures
            c == Self::for_errors(count as nat),
    {
        if count > 0 {
            ExitCode::Failure
        } else {
            ExitCode::Success
        }
    }

    /// Check if this represents success.
    pub fn is_success(self) -> (r: bool)
        ensures
            r == (self == ExitCode::Success),
    {
        match self {
            ExitCode::Success => true,
            ExitCode::Failure => false,
        }
    }

    /// Check if this represents failure.
    pub fn is_failure(self) -> (r: bool)
        ensures
            r == (self == ExitCode::Failure),
    {
        match self {
            ExitCode::Success => false,
            ExitCode::Failure => true,
        }
    }

    /// The numeric value handed to the operating system.
    pub fn code(self) -> (r: i32)
        ensures
            r == (if self == ExitCode::Success {
                0i32
            } else {
                1i32
            }),
    {
        match self {
            ExitCode::Success => 0,
            ExitCode::Failure => 1,
        }
    }
}

/// Configuration for diagnostic output.
#[derive(Debug, Clone)]
pub struct DiagnosticConfig {
    /// Escalate severities: warnings become errors, hints become warnings
    pub strict: bool,
    /// Suppress all output except errors
    pub quiet: bool,
    /// Base path to strip from file paths (for reproducible output)
    pub base_path: Option<String>,
}

/// Severity after the strict-mode escalation.
pub open spec fn escalate(strict: bool, s: Severity) -> Severity {
    if strict {
        match s {
            Severity::Warning => Severity::Error,
            Severity::Hint => Severity::Warning,
            _ => s,
        }
    } else {
        s
    }
}

/// Whether a diagnostic of severity `s` is shown under `cfg`.
pub open spec fn shown(cfg: DiagnosticConfig, s: Severity) -> bool {
    !cfg.quiet || escalate(cfg.strict, s) == Severity::Error
}

/// How a file path is printed under `cfg`.
pub open spec fn normalized(cfg: DiagnosticConfig, path: Seq<char>) -> Seq<char> {
    match cfg.base_path {
        Some(base) => match crate::path::strip_path_prefix(path, base@) {
            Some(p) => p,
            None => path,
        },
        None => path,
    }
}

impl Default for DiagnosticConfig {
    fn default() -> (c: Self)
        ensures
            !c.strict,
            !c.quiet,
            c.base_path is None,
    {
        DiagnosticConfig { strict: false, quiet: false, base_path: None }
    }
}

impl DiagnosticConfig {
    /// A config with strict mode enabled.
    pub fn strict() -> (c: Self)
        ensures
            c.strict,
            !c.quiet,
            c.base_path is None,
    {
        DiagnosticConfig { strict: true, quiet: false, base_path: None }
    }

    /// A config with quiet mode enabled.
    pub fn quiet() -> (c: Self)
        ensures
            !c.strict,
            c.quiet,
            c.base_path is None,
    {
        DiagnosticConfig { strict: false, quiet: true, base_path: None }
    }

    /// Set the base path for path normalization.
    pub fn with_base_path(self, path: &str) -> (c: Self)
        ensures
            c.strict == self.strict,
            c.quiet == self.quiet,
            c.base_path matches Some(p) && p@ == path@,
    {
        let mut c = self;
        c.base_path = Some(path.to_owned());
        c
    }

    /// Escalate severity according to strict mode rules.
    pub fn effective_severity(&self, severity: Severity) -> (s: Severity)
        ensures
            s == escalate(self.strict, severity),
    {
        if self.strict {
            match severity {
                Severity::Warning => Severity::Error,
                Severity::Hint => Severity::Warning,
                s => s,
            }
        } else {
            severity
        }
    }

    /// Whether a diagnostic should be shown: in quiet mode only errors are.
    pub fn should_show(&self, severity: Severity) -> (r: bool)
        ensures
            r == shown(*self, severity),
    {
        if self.quiet {
            self.effective_severity(severity) == Severity::Error
        } else {
            true
        }
    }

    /// Normalize a file path for output: the base path, when it is a
    /// component-wise prefix, is stripped.
    pub fn normalize_path(&self, path: &str) -> (r: String)
        ensures
            r@ == normalized(*self, path@),
    {
        match &self.base_path {
            Some(base) => match crate::path::strip_prefix(path, base.as_str()) {
                Some(p) => p,
                None => path.to_owned(),
            },
            None => path.to_owned(),
        }
    }
}

/// Quiet mode never hides an error: whatever is an error after escalation
/// is shown.
pub proof fn lemma_quiet_shows_errors(cfg: DiagnosticConfig, s: Severity)
    requires
        escalate(cfg.strict, s) == Severity::Error,
    ensures
        shown(cfg, s),
{
}

/// Strict mode only raises severities: an error stays an error, a warning
/// becomes an error, a hint becomes a warning and info stays info.
pub proof fn lemma_strict_escalation(s: Severity)
    ensures
        escalate(true, Severity::Error) == Severity::Error,
        escalate(true, Severity::Warning) == Severity::Error,
        escalate(true, Severity::Hint) == Severity::Warning,
        escalate(true, Severity::Info) == Severity::Info,
        escalate(false, s) == s,
{
}

/// Number of errors after policy among the shown diagnostics.
pub open spec fn errors_after_policy(cfg: DiagnosticConfig, ds: Seq<Diagnostic>) -> nat
    decreases ds.len(),
{
    if ds.len() == 0 {
        0
    } else {
        errors_after_policy(cfg, ds.drop_last()) + if shown(cfg, ds.last().severity)
            && escalate(cfg.strict, ds.last().severity) == Severity::Error {
            1nat
        } else {
            0nat
        }
    }
}

/// The exit code does not depend on quiet mode: the number of errors after
/// policy is the same whether or not output is suppressed.
pub proof fn lemma_quiet_keeps_exit_code(a: DiagnosticConfig, b: DiagnosticConfig, ds: Seq<Diagnostic>)
    requires
        a.strict == b.strict,
    ensures
        errors_after_policy(a, ds) == errors_after_policy(b, ds),
        ExitCode::for_errors(errors_after_policy(a, ds)) == ExitCode::for_errors(
            errors_after_policy(b, ds),
        ),
    decreases ds.len(),
{
    if ds.len() > 0 {
        lemma_quiet_keeps_exit_code(a, b, ds.drop_last());
    }
}

/// Concatenation of note lines `   = note\n`.
pub open spec fn note_lines(notes: Seq<String>) -> Seq<char>
    decreases notes.len(),
{
    if notes.len() == 0 {
        Seq::empty()
    } else {
        note_lines(notes.drop_last()) + "   = "@ + notes.last()@ + seq!['\n']
    }
}

/// Concatenation of hint lines `   = hint: text\n`.
pub open spec fn hint_lines(hints: Seq<String>) -> Seq<char>
    decreases hints.len(),
{
    if hints.len() == 0 {
        Seq::empty()
    } else {
        hint_lines(hints.drop_last()) + "   = hint: "@ + hints.last()@ + seq!['\n']
    }
}

/// The location line `  --> file[:line]\n`, if the diagnostic has a file.
pub open spec fn location_line(cfg: DiagnosticConfig, d: Diagnostic) -> Seq<char> {
    match d.file {
        Some(f) => match d.span {
            Some(sp) => "  --> "@ + normalized(cfg, f@) + seq![':'] + decimal(sp.line as nat)
                + seq!['\n'],
            None => "  --> "@ + normalized(cfg, f@) + seq!['\n'],
        },
        None => Seq::empty(),
    }
}

/// The rustc-style rendering of a diagnostic:
/// `severity[CODE]: message`, the location, notes, hints and a blank line.
pub open spec fn rendered(cfg: DiagnosticConfig, d: Diagnostic) -> Seq<char> {
    escalate(cfg.strict, d.severity).text() + seq!['['] + d.code.text() + "]: "@ + d.message@
        + seq!['\n'] + location_line(cfg, d) + (if d.notes@.len() > 0 {
        "   |\n"@ + note_lines(d.notes@)
    } else {
        Seq::empty()
    }) + hint_lines(d.hints@) + seq!['\n']
}

/// Terminal emitter: renders rustc-style diagnostics into a text buffer that
/// the caller writes out.
pub struct TerminalEmitter {
    output: String,
    config: DiagnosticConfig,
    error_count: usize,
    warning_count: usize,
}

impl TerminalEmitter {
    /// The rendered text so far.
    pub closed spec fn text(&self) -> Seq<char> {
        self.output@
    }

    /// The configuration in use.
    pub closed spec fn cfg(&self) -> DiagnosticConfig {
        self.config
    }

    /// Errors counted so far (after policy).
    pub closed spec fn errors(&self) -> nat {
        self.error_count as nat
    }

    /// Warnings counted so far (after policy).
    pub closed spec fn warnings(&self) -> nat {
        self.warning_count as nat
    }

    /// An emitter with nothing written and nothing counted.
    pub fn new(config: DiagnosticConfig) -> (e: Self)
        ensures
            e.text() == Seq::<char>::empty(),
            e.cfg() == config,
            e.errors() == 0,
            e.warnings() == 0,
    {
        TerminalEmitter { output: String::new(), config, error_count: 0, warning_count: 0 }
    }

    /// The text written so far.
    pub fn output(&self) -> (s: &str)
        ensures
            s@ == self.text(),
    {
        self.output.as_str()
    }

    /// Get the number of errors emitted.
    pub fn error_count(&self) -> (n: usize)
        ensures
            n == self.errors(),
    {
        self.error_count
    }

    /// Get the number of warnings emitted.
    pub fn warning_count(&self) -> (n: usize)
        ensures
            n == self.warnings(),
    {
        self.warning_count
    }

    /// Check if any errors were emitted.
    pub fn has_errors(&self) -> (r: bool)
        ensures
            r == (self.errors() > 0),
    {
        self.error_count > 0
    }

    /// The exit code for what was emitted: failure iff an error was emitted
    /// (after policy).
    pub fn exit_code(&self) -> (c: ExitCode)
        ensures
            c == ExitCode::for_errors(self.errors()),
    {
        ExitCode::from_error_count(self.error_count)
    }

    /// Format and write a diagnostic, counting it by its severity after policy.
    pub fn write_diagnostic(&mut self, diagnostic: &Diagnostic)
        requires
            old(self).errors() < usize::MAX,
            old(self).warnings() < usize::MAX,
        ensures
            final(self).cfg() == old(self).cfg(),
            shown(old(self).cfg(), diagnostic.severity) ==> {
                &&& final(self).text() == old(self).text() + rendered(old(self).cfg(), *diagnostic)
                &&& final(self).errors() == old(self).errors() + if escalate(
                    old(self).cfg().strict,
                    diagnostic.severity,
                ) == Severity::Error {
                    1nat
                } else {
                    0nat
                }
                &&& final(self).warnings() == old(self).warnings() + if escalate(
                    old(self).cfg().strict,
                    diagnostic.severity,
                ) == Severity::Warning {
                    1nat
                } else {
                    0nat
                }
            },
            !shown(old(self).cfg(), diagnostic.severity) ==> *final(self) == *old(self),
    {
        let effective = self.config.effective_severity(diagnostic.severity);
        if !self.config.should_show(diagnostic.severity) {
            return;
        }
        match effective {
            Severity::Error => self.error_count = self.error_count + 1,
            Severity::Warning => self.warning_count = self.warning_count + 1,
            _ => {},
        }
        let text = render(&self.config, diagnostic);
        push_str(&mut self.output, text.as_str());
    }
}

/// The rustc-style text of one diagnostic under a configuration.
pub fn render(cfg: &DiagnosticConfig, diagnostic: &Diagnostic) -> (r: String)
    ensures
        r@ == rendered(*cfg, *diagnostic),
{
    let effective = cfg.effective_severity(diagnostic.severity);
    let mut out = String::new();
    push_str(&mut out, effective.as_str());
    push_char(&mut out, '[');
    push_str(&mut out, diagnostic.code.as_str());
    push_str(&mut out, "]: ");
    push_str(&mut out, diagnostic.message.as_str());
    push_char(&mut out, '\n');
    let loc = render_location(cfg, diagnostic);
    push_str(&mut out, loc.as_str());
    if diagnostic.notes.len() > 0 {
        push_str(&mut out, "   |\n");
        let notes = render_notes(&diagnostic.notes);
        push_str(&mut out, notes.as_str());
    }
    let hints = render_hints(&diagnostic.hints);
    push_str(&mut out, hints.as_str());
    push_char(&mut out, '\n');
    assert(out@ =~= rendered(*cfg, *diagnostic));
    out
}

fn render_location(cfg: &DiagnosticConfig, diagnostic: &Diagnostic) -> (r: String)
    ensures
        r@ == location_line(*cfg, *diagnostic),
{
    let mut out = String::new();
    match &diagnostic.file {
        Some(file) => {
            let normalized_path = cfg.normalize_path(file.as_str());
            push_str(&mut out, "  --> ");
            push_str(&mut out, normalized_path.as_str());
            match &diagnostic.span {
                Some(span) => {
                    push_char(&mut out, ':');
                    let line = u64_to_string(span.line as u64);
                    push_str(&mut out, line.as_str());
                },
                None => {},
            }
            push_char(&mut out, '\n');
        },
        None => {},
    }
    assert(out@ =~= location_line(*cfg, *diagnostic));
    out
}

fn render_notes(notes: &Vec<String>) -> (r: String)
    ensures
        r@ == note_lines(notes@),
{
    let mut out = String::new();
    let mut i: usize = 0;
    while i < notes.len()
        invariant
            i <= notes@.len(),
            out@ == note_lines(notes@.take(i as int)),
        decreases notes@.len() - i,
    {
        assert(notes@.take(i + 1).drop_last() =~= notes@.take(i as int));
        push_str(&mut out, "   = ");
        push_str(&mut out, notes[i].as_str());
        push_char(&mut out, '\n');
        i = i + 1;
        assert(out@ =~= note_lines(notes@.take(i as int)));
    }
    assert(notes@.take(i as int) =~= notes@);
    out
}

fn render_hints(hints: &Vec<String>) -> (r: String)
    ensures
        r@ == hint_lines(hints@),
{
    let mut out = String::new();
    let mut i: usize = 0;
    while i < hints.len()
        invariant
            i <= hints@.len(),
            out@ == hint_lines(hints@.take(i as int)),
        decreases hints@.len() - i,
    {
        assert(hints@.take(i + 1).drop_last() =~= hints@.take(i as int));
        push_str(&mut out, "   = hint: ");
        push_str(&mut out, hints[i].as_str());
        push_char(&mut out, '\n');
        i = i + 1;
        assert(out@ =~= hint_lines(hints@.take(i as int)));
    }
    assert(hints@.take(i as int) =~= hints@);
    out
}

impl DiagnosticEmitter for TerminalEmitter {
    /// Writes the diagnostic; when a counter has reached its maximum the
    /// diagnostic is dropped.
    fn emit(&mut self, diagnostic: Diagnostic)
        ensures
            terminal_emitted(*old(self), *final(self), diagnostic),
    {
        if self.error_count < usize::MAX && self.warning_count < usize::MAX {
            self.write_diagnostic(&diagnostic);
        }
    }
}


/// JSON representation of a source span (0-based start and end columns).
#[derive(Debug, Clone)]
pub struct JsonSpan {
    pub start: usize,
    pub end: usize,
    pub label: Option<String>,
}

/// JSON representation of a diagnostic.
#[derive(Debug, Clone)]
pub struct JsonDiagnostic {
    pub code: String,
    pub severity: String,
    pub message: String,
    pub file: Option<String>,
    pub line: Option<usize>,
    pub column: Option<usize>,
    pub spans: Vec<JsonSpan>,
    pub notes: Vec<String>,
    pub hints: Vec<String>,
}

/// Two string lists hold the same texts.
pub open spec fn same_texts(a: Seq<String>, b: Seq<String>) -> bool {
    a.len() == b.len() && forall|i: int| 0 <= i < a.len() ==> #[trigger] a[i]@ == b[i]@
}

/// Two optional strings hold the same text.
pub open spec fn same_opt_text(a: Option<String>, b: Option<String>) -> bool {
    match (a, b) {
        (Some(x), Some(y)) => x@ == y@,
        (None, None) => true,
        _ => false,
    }
}

/// `j` is the JSON form of span `s`: columns become 0-based and the end is
/// the start plus the length.
pub open spec fn json_span_of(j: JsonSpan, s: SourceSpan) -> bool {
    &&& j.start == if s.column > 0 {
        (s.column - 1) as usize
    } else {
        0usize
    }
    &&& j.end == j.start + s.length
    &&& same_opt_text(j.label, s.label)
}

/// The spans of a diagnostic in output order: the primary span first.
pub open spec fn all_spans(d: Diagnostic) -> Seq<SourceSpan> {
    match d.span {
        Some(s) => seq![s] + d.secondary_spans@,
        None => d.secondary_spans@,
    }
}

/// Every span's end column fits in a `usize`.
pub open spec fn spans_fit(d: Diagnostic) -> bool {
    forall|i: int|
        0 <= i < all_spans(d).len() ==> (if #[trigger] all_spans(d)[i].column > 0 {
            all_spans(d)[i].column - 1
        } else {
            0
        }) + all_spans(d)[i].length <= usize::MAX
}

/// `j` is the JSON form of diagnostic `d` under `cfg`.
pub open spec fn json_of(j: JsonDiagnostic, cfg: DiagnosticConfig, d: Diagnostic) -> bool {
    &&& j.code@ == d.code.text()
    &&& j.severity@ == escalate(cfg.strict, d.severity).text()
    &&& j.message@ == d.message@
    &&& match d.file {
        Some(f) => j.file matches Some(g) && g@ == normalized(cfg, f@),
        None => j.file is None,
    }
    &&& j.line == match d.span {
        Some(s) => Some(s.line),
        None => None::<usize>,
    }
    &&& j.column == match d.span {
        Some(s) => Some(s.column),
        None => None::<usize>,
    }
    &&& j.spans@.len() == all_spans(d).len()
    &&& forall|i: int| 0 <= i < j.spans@.len() ==> json_span_of(#[trigger] j.spans@[i], all_spans(d)[i])
    &&& same_texts(j.notes@, d.notes@)
    &&& same_texts(j.hints@, d.hints@)
}

/// Number of JSON diagnostics whose severity text is "error".
pub open spec fn count_json_errors(js: Seq<JsonDiagnostic>) -> nat
    decreases js.len(),
{
    if js.len() == 0 {
        0
    } else {
        count_json_errors(js.drop_last()) + if js.last().severity@ == "error"@ {
            1nat
        } else {
            0nat
        }
    }
}

/// JSON emitter: collects machine-readable diagnostics.
pub struct JsonEmitter {
    diagnostics: Vec<JsonDiagnostic>,
    config: DiagnosticConfig,
}

fn copy_texts(v: &Vec<String>) -> (r: Vec<String>)
    ensures
        same_texts(r@, v@),
{
    let mut r: Vec<String> = Vec::new();
    let mut i: usize = 0;
    while i < v.len()
        invariant
            i <= v@.len(),
            r@.len() == i,
            forall|k: int| 0 <= k < i ==> #[trigger] r@[k]@ == v@[k]@,
        decreases v@.len() - i,
    {
        r.push(v[i].clone());
        i = i + 1;
    }
    r
}

fn copy_opt_text(o: &Option<String>) -> (r: Option<String>)
    ensures
        same_opt_text(r, *o),
{
    match o {
        Some(s) => Some(s.clone()),
        None => None,
    }
}

fn json_span(s: &SourceSpan) -> (j: JsonSpan)
    requires
        (if s.column > 0 {
            s.column - 1
        } else {
            0
        }) + s.length <= usize::MAX,
    ensures
        json_span_of(j, *s),
{
    let start = if s.column > 0 {
        s.column - 1
    } else {
        0
    };
    JsonSpan { start, end: start + s.length, label: copy_opt_text(&s.label) }
}

fn span_fits(s: &SourceSpan) -> (b: bool)
    ensures
        b == ((if s.column > 0 {
            s.column - 1
        } else {
            0
        }) + s.length <= usize::MAX),
{
    let start = if s.column > 0 {
        s.column - 1
    } else {
        0
    };
    s.length <= usize::MAX - start
}

/// Whether every span of a diagnostic fits (see `spans_fit`).
pub fn check_spans_fit(d: &Diagnostic) -> (r: bool)
    ensures
        r == spans_fit(*d),
{
    match &d.span {
        Some(s) => {
            if !span_fits(s) {
                assert(all_spans(*d)[0] == *s);
                assert(all_spans(*d).len() > 0);
                assert(!((if all_spans(*d)[0].column > 0 {
                    all_spans(*d)[0].column - 1
                } else {
                    0
                }) + all_spans(*d)[0].length <= usize::MAX));
                return false;
            }
        },
        None => {},
    }
    let mut i: usize = 0;
    while i < d.secondary_spans.len()
        invariant
            i <= d.secondary_spans@.len(),
            forall|k: int|
                0 <= k < i ==> (if #[trigger] d.secondary_spans@[k].column > 0 {
                    d.secondary_spans@[k].column - 1
                } else {
                    0
                }) + d.secondary_spans@[k].length <= usize::MAX,
            match d.span {
                Some(s) => (if s.column > 0 {
                    s.column - 1
                } else {
                    0
                }) + s.length <= usize::MAX,
                None => true,
            },
        decreases d.secondary_spans@.len() - i,
    {
        if !span_fits(&d.secondary_spans[i]) {
            let off: usize = if d.span.is_some() {
                1
            } else {
                0
            };
            let ghost k = off + i;
            assert(all_spans(*d)[k] == d.secondary_spans@[i as int]);
            assert(!((if all_spans(*d)[k].column > 0 {
                all_spans(*d)[k].column - 1
            } else {
                0
            }) + all_spans(*d)[k].length <= usize::MAX));
            return false;
        }
        i = i + 1;
    }
    assert forall|k: int| 0 <= k < all_spans(*d).len() implies (if #[trigger] all_spans(
        *d,
    )[k].column > 0 {
        all_spans(*d)[k].column - 1
    } else {
        0
    }) + all_spans(*d)[k].length <= usize::MAX by {
        match d.span {
            Some(s) => {
                if k > 0 {
                    assert(all_spans(*d)[k] == d.secondary_spans@[k - 1]);
                }
            },
            None => {},
        }
    }
    true
}

/// The JSON form of a diagnostic under `cfg`.
pub fn to_json(cfg: &DiagnosticConfig, d: &Diagnostic) -> (j: JsonDiagnostic)
    requires
        spans_fit(*d),
    ensures
        json_of(j, *cfg, *d),
{
    let effective = cfg.effective_severity(d.severity);
    let file = match &d.file {
        Some(f) => Some(cfg.normalize_path(f.as_str())),
        None => None,
    };
    let (line, column) = match &d.span {
        Some(s) => (Some(s.line), Some(s.column)),
        None => (None, None),
    };
    let mut spans: Vec<JsonSpan> = Vec::new();
    match &d.span {
        Some(s) => {
            assert(all_spans(*d)[0] == *s);
            spans.push(json_span(s));
        },
        None => {},
    }
    let off: usize = spans.len();
    let mut i: usize = 0;
    while i < d.secondary_spans.len()
        invariant
            spans_fit(*d),
            off == (if d.span is Some { 1usize } else { 0usize }),
            i <= d.secondary_spans@.len(),
            spans@.len() == off + i,
            forall|k: int| 0 <= k < spans@.len() ==> json_span_of(#[trigger] spans@[k], all_spans(*d)[k]),
        decreases d.secondary_spans@.len() - i,
    {
        assert(all_spans(*d)[off + i] == d.secondary_spans@[i as int]);
        spans.push(json_span(&d.secondary_spans[i]));
        i = i + 1;
    }
    let code = crate::text::string_of(crate::text::chars_of(d.code.as_str()).as_slice());
    let severity = crate::text::string_of(crate::text::chars_of(effective.as_str()).as_slice());
    JsonDiagnostic {
        code,
        severity,
        message: d.message.clone(),
        file,
        line,
        column,
        spans,
        notes: copy_texts(&d.notes),
        hints: copy_texts(&d.hints),
    }
}

impl JsonEmitter {
    /// The collected diagnostics.
    pub closed spec fn items(&self) -> Seq<JsonDiagnostic> {
        self.diagnostics@
    }

    /// The configuration in use.
    pub closed spec fn cfg(&self) -> DiagnosticConfig {
        self.config
    }

    /// An emitter that has collected nothing.
    pub fn new(config: DiagnosticConfig) -> (e: Self)
        ensures
            e.items().len() == 0,
            e.cfg() == config,
    {
        JsonEmitter { diagnostics: Vec::new(), config }
    }

    /// Get collected diagnostics.
    pub fn diagnostics(&self) -> (r: &[JsonDiagnostic])
        ensures
            r@ == self.items(),
    {
        self.diagnostics.as_slice()
    }

    /// Collects one diagnostic, unless quiet mode filters it.
    pub fn push_diagnostic(&mut self, diagnostic: &Diagnostic)
        requires
            spans_fit(*diagnostic),
        ensures
            final(self).cfg() == old(self).cfg(),
            shown(old(self).cfg(), diagnostic.severity) ==> {
                &&& final(self).items().len() == old(self).items().len() + 1
                &&& final(self).items().drop_last() == old(self).items()
                &&& json_of(final(self).items().last(), old(self).cfg(), *diagnostic)
            },
            !shown(old(self).cfg(), diagnostic.severity) ==> final(self).items() == old(self).items(),
    {
        if !self.config.should_show(diagnostic.severity) {
            return;
        }
        let j = to_json(&self.config, diagnostic);
        self.diagnostics.push(j);
        assert(self.diagnostics@.drop_last() =~= old(self).diagnostics@);
    }

    /// Get error count: the collected diagnostics whose severity is "error".
    pub fn error_count(&self) -> (n: usize)
        ensures
            n == count_json_errors(self.items()),
    {
        let mut n: usize = 0;
        let mut i: usize = 0;
        while i < self.diagnostics.len()
            invariant
                i <= self.diagnostics@.len(),
                n == count_json_errors(self.diagnostics@.take(i as int)),
                n <= i,
            decreases self.diagnostics@.len() - i,
        {
            assert(self.diagnostics@.take(i + 1).drop_last() =~= self.diagnostics@.take(i as int));
            if crate::text::str_eq(self.diagnostics[i].severity.as_str(), "error") {
                n = n + 1;
            }
            i = i + 1;
        }
        assert(self.diagnostics@.take(i as int) =~= self.diagnostics@);
        n
    }

    /// Check if any errors were emitted.
    pub fn has_errors(&self) -> (r: bool)
        ensures
            r == (count_json_errors(self.items()) > 0),
    {
        self.error_count() > 0
    }

    /// The exit code for what was collected: failure iff an error was
    /// collected (after policy).
    pub fn exit_code(&self) -> (c: ExitCode)
        ensures
            c == ExitCode::for_errors(count_json_errors(self.items())),
    {
        ExitCode::from_error_count(self.error_count())
    }
}

impl DiagnosticEmitter for JsonEmitter {
    /// Collects the diagnostic; one whose span columns would overflow is
    /// dropped.
    fn emit(&mut self, diagnostic: Diagnostic)
        ensures
            json_emitted(*old(self), *final(self), diagnostic),
    {
        if check_spans_fit(&diagnostic) {
            self.push_diagnostic(&diagnostic);
        }
    }
}

/// `after` is `before` once `d` was emitted to it: while both counters are
/// below their maximum and `d` is shown, its rendering is appended and it
/// is counted by its severity after policy; otherwise nothing changes.
pub open spec fn terminal_emitted(before: TerminalEmitter, after: TerminalEmitter, d: Diagnostic) -> bool {
    if before.errors() < usize::MAX && before.warnings() < usize::MAX && shown(before.cfg(), d.severity) {
        &&& after.cfg() == before.cfg()
        &&& after.text() == before.text() + rendered(before.cfg(), d)
        &&& after.errors() == before.errors() + if escalate(before.cfg().strict, d.severity) == Severity::Error {
            1nat
        } else {
            0nat
        }
        &&& after.warnings() == before.warnings() + if escalate(before.cfg().strict, d.severity)
            == Severity::Warning {
            1nat
        } else {
            0nat
        }
    } else {
        after == before
    }
}

/// `after` is `before` once `d` was emitted to it: the configuration stays;
/// when every span of `d` fits and `d` is shown, its JSON form is appended;
/// otherwise the items stay as they were.
pub open spec fn json_emitted(before: JsonEmitter, after: JsonEmitter, d: Diagnostic) -> bool {
    &&& after.cfg() == before.cfg()
    &&& if spans_fit(d) && shown(before.cfg(), d.severity) {
        &&& after.items().len() == before.items().len() + 1
        &&& after.items().drop_last() == before.items()
        &&& json_of(after.items().last(), before.cfg(), d)
    } else {
        after.items() == before.items()
    }
}

/// `es` are the states of a JSON emitter, `es[i + 1]` after emitting `ds[i]`
/// to `es[i]`, starting with nothing collected.
pub open spec fn json_run(es: Seq<JsonEmitter>, ds: Seq<Diagnostic>) -> bool {
    &&& es.len() == ds.len() + 1
    &&& es[0].items().len() == 0
    &&& forall|i: int| 0 <= i < ds.len() ==> json_emitted(#[trigger] es[i], es[i + 1], ds[i])
}

/// `ts` are the states of a terminal emitter, `ts[i + 1]` after emitting
/// `ds[i]` to `ts[i]`, starting with nothing counted.
pub open spec fn terminal_run(ts: Seq<TerminalEmitter>, ds: Seq<Diagnostic>) -> bool {
    &&& ts.len() == ds.len() + 1
    &&& ts[0].errors() == 0
    &&& ts[0].warnings() == 0
    &&& forall|i: int| 0 <= i < ds.len() ==> terminal_emitted(#[trigger] ts[i], ts[i + 1], ds[i])
}

/// After a run of emits, a JSON emitter has collected as many errors as
/// there are errors after policy among the emitted diagnostics (quiet mode
/// never filters an error), provided every span fits.
pub proof fn lemma_json_error_count_over_emits(es: Seq<JsonEmitter>, ds: Seq<Diagnostic>)
    requires
        json_run(es, ds),
        forall|i: int| 0 <= i < ds.len() ==> spans_fit(#[trigger] ds[i]),
    ensures
        es.last().cfg() == es[0].cfg(),
        count_json_errors(es.last().items()) == errors_after_policy(es[0].cfg(), ds),
    decreases ds.len(),
{
    if ds.len() > 0 {
        let n = ds.len() - 1;
        let es0 = es.drop_last();
        let ds0 = ds.drop_last();
        assert forall|i: int| 0 <= i < ds0.len() implies json_emitted(#[trigger] es0[i], es0[i + 1], ds0[i]) by {
            assert(json_emitted(es[i], es[i + 1], ds[i]));
        }
        assert forall|i: int| 0 <= i < ds0.len() implies spans_fit(#[trigger] ds0[i]) by {
            assert(spans_fit(ds[i]));
        }
        lemma_json_error_count_over_emits(es0, ds0);
        assert(json_emitted(es[n], es[n + 1], ds[n]));
        assert(spans_fit(ds[n]));
        let cfg = es[0].cfg();
        let d = ds.last();
        if shown(cfg, d.severity) {
            lemma_json_error_iff_policy_error(es.last().items().last(), cfg, d);
        }
    }
}

/// After a run of emits shorter than the counters' range, a terminal
/// emitter has counted as many errors as there are errors after policy
/// among the emitted diagnostics.
pub proof fn lemma_terminal_error_count_over_emits(ts: Seq<TerminalEmitter>, ds: Seq<Diagnostic>)
    requires
        terminal_run(ts, ds),
        ds.len() < usize::MAX,
    ensures
        ts.last().cfg() == ts[0].cfg(),
        ts.last().errors() == errors_after_policy(ts[0].cfg(), ds),
        ts.last().errors() + ts.last().warnings() <= ds.len(),
    decreases ds.len(),
{
    if ds.len() > 0 {
        let n = ds.len() - 1;
        let ts0 = ts.drop_last();
        let ds0 = ds.drop_last();
        assert forall|i: int| 0 <= i < ds0.len() implies terminal_emitted(#[trigger] ts0[i], ts0[i + 1], ds0[i]) by {
            assert(terminal_emitted(ts[i], ts[i + 1], ds[i]));
        }
        lemma_terminal_error_count_over_emits(ts0, ds0);
        assert(terminal_emitted(ts[n], ts[n + 1], ds[n]));
    }
}

/// Fed the same diagnostics under the same configuration, the JSON and the
/// terminal emitter end with the same exit code, the one for the number of
/// errors after policy; quiet mode does not change it.
pub proof fn lemma_emitters_agree_on_exit_code(
    es: Seq<JsonEmitter>,
    ts: Seq<TerminalEmitter>,
    ds: Seq<Diagnostic>,
    other: DiagnosticConfig,
)
    requires
        json_run(es, ds),
        terminal_run(ts, ds),
        es[0].cfg() == ts[0].cfg(),
        other.strict == es[0].cfg().strict,
        ds.len() < usize::MAX,
        forall|i: int| 0 <= i < ds.len() ==> spans_fit(#[trigger] ds[i]),
    ensures
        ExitCode::for_errors(count_json_errors(es.last().items())) == ExitCode::for_errors(ts.last().errors()),
        ExitCode::for_errors(ts.last().errors()) == ExitCode::for_errors(errors_after_policy(other, ds)),
{
    lemma_json_error_count_over_emits(es, ds);
    lemma_terminal_error_count_over_emits(ts, ds);
    lemma_quiet_keeps_exit_code(es[0].cfg(), other, ds);
}

/// A collected JSON diagnostic counts as an error exactly when its
/// diagnostic is an error after policy, so the JSON and terminal emitters
/// agree on the exit code.
pub proof fn lemma_json_error_iff_policy_error(j: JsonDiagnostic, cfg: DiagnosticConfig, d: Diagnostic)
    requires
        json_of(j, cfg, d),
    ensures
        (j.severity@ == "error"@) == (escalate(cfg.strict, d.severity) == Severity::Error),
{
    reveal_strlit("error");
    reveal_strlit("warning");
    reveal_strlit("hint");
    reveal_strlit("info");
    assert("error"@.len() == 5);
    assert("warning"@.len() == 7);
    assert("hint"@.len() == 4);
    assert("info"@.len() == 4);
}

/// `d` has the given code, severity and message, names `file`, carries
/// the given notes and hints in order, and no span.
pub open spec fn reported(
    d: Diagnostic,
    code: DiagnosticCode,
    message: Seq<char>,
    file: Seq<char>,
    notes: Seq<Seq<char>>,
    hints: Seq<Seq<char>>,
) -> bool {
    &&& d.code == code
    &&& d.severity == code.severity_of()
    &&& d.message@ == message
    &&& d.file matches Some(f) && f@ == file
    &&& d.span is None
    &&& d.secondary_spans@.len() == 0
    &&& views(d.notes@) == notes
    &&& views(d.hints@) == hints
}

/// The name of a conflict type as its debug form writes it.
pub open spec fn conflict_type_name(t: ConflictType) -> Seq<char> {
    match t {
        ConflictType::CircularDependency => "CircularDependency"@,
        ConflictType::ResourceOverallocation => "ResourceOverallocation"@,
        ConflictType::ImpossibleConstraint => "ImpossibleConstraint"@,
        ConflictType::DeadlineMissed => "DeadlineMissed"@,
    }
}

/// The hint given with an infeasible constraint.
pub open spec fn constraint_hint() -> Seq<char> {
    "check that constraints don't conflict with dependencies"@
}

fn note_and_hint(d: Diagnostic, note: &str, hint: Option<&str>) -> (r: Diagnostic)
    requires
        d.notes@.len() == 0,
        d.hints@.len() == 0,
        d.file is Some,
    ensures
        r.same_head(d),
        r.file == d.file,
        r.span == d.span,
        r.secondary_spans@ == d.secondary_spans@,
        views(r.notes@) == seq![note@],
        views(r.hints@) == (match hint {
            Some(h) => seq![h@],
            None => Seq::<Seq<char>>::empty(),
        }),
{
    let d1 = d.with_note(note);
    assert(views(d1.notes@) =~= seq![note@]);
    match hint {
        Some(h) => {
            let d2 = d1.with_hint(h);
            assert(views(d2.hints@) =~= seq![h@]);
            d2
        },
        None => {
            assert(views(d1.hints@) =~= Seq::<Seq<char>>::empty());
            d1
        },
    }
}

/// The diagnostic for a conflict found by the feasibility check, with the
/// conflict's description as note: E003 "constraint cannot be satisfied"
/// with a hint for an impossible constraint, E001 "circular dependency
/// detected" for a circular dependency, E003 named after the conflict type
/// otherwise.
pub fn conflict_diagnostic(conflict: &Conflict, file: &str) -> (d: Diagnostic)
    ensures
        match conflict.conflict_type {
            ConflictType::ImpossibleConstraint => reported(
                d,
                DiagnosticCode::E003InfeasibleConstraint,
                "constraint cannot be satisfied"@,
                file@,
                seq![conflict.description@],
                seq![constraint_hint()],
            ),
            ConflictType::CircularDependency => reported(
                d,
                DiagnosticCode::E001CircularSpecialization,
                "circular dependency detected"@,
                file@,
                seq![conflict.description@],
                Seq::empty(),
            ),
            _ => reported(
                d,
                DiagnosticCode::E003InfeasibleConstraint,
                conflict_type_name(conflict.conflict_type),
                file@,
                seq![conflict.description@],
                Seq::empty(),
            ),
        },
{
    proof {
        reveal_strlit("constraint cannot be satisfied");
        reveal_strlit("check that constraints don't conflict with dependencies");
        reveal_strlit("circular dependency detected");
    }
    match conflict.conflict_type {
        ConflictType::ImpossibleConstraint => {
            let d = Diagnostic::new(DiagnosticCode::E003InfeasibleConstraint, "constraint cannot be satisfied")
                .with_file(file);
            note_and_hint(d, conflict.description.as_str(), Some("check that constraints don't conflict with dependencies"))
        },
        ConflictType::CircularDependency => {
            let d = Diagnostic::new(DiagnosticCode::E001CircularSpecialization, "circular dependency detected")
                .with_file(file);
            note_and_hint(d, conflict.description.as_str(), None)
        },
        ConflictType::ResourceOverallocation => {
            let d = Diagnostic::new(DiagnosticCode::E003InfeasibleConstraint, "ResourceOverallocation").with_file(file);
            proof {
                reveal_strlit("ResourceOverallocation");
            }
            note_and_hint(d, conflict.description.as_str(), None)
        },
        ConflictType::DeadlineMissed => {
            let d = Diagnostic::new(DiagnosticCode::E003InfeasibleConstraint, "DeadlineMissed").with_file(file);
            proof {
                reveal_strlit("DeadlineMissed");
            }
            note_and_hint(d, conflict.description.as_str(), None)
        },
    }
}

/// The diagnostic for a schedule that could not be computed: for an
/// infeasible one E003 "constraint cannot be satisfied", with the solver's
/// message as note and a hint; none for other failures.
pub fn schedule_error_diagnostic(error: &ScheduleError, file: &str) -> (r: Option<Diagnostic>)
    ensures
        match error {
            ScheduleError::Infeasible(msg) => r matches Some(d) && reported(
                d,
                DiagnosticCode::E003InfeasibleConstraint,
                "constraint cannot be satisfied"@,
                file@,
                seq![msg@],
                seq![constraint_hint()],
            ),
            _ => r is None,
        },
{
    proof {
        reveal_strlit("constraint cannot be satisfied");
        reveal_strlit("check that constraints don't conflict with dependencies");
    }
    match error {
        ScheduleError::Infeasible(msg) => {
            let d = Diagnostic::new(DiagnosticCode::E003InfeasibleConstraint, "constraint cannot be satisfied")
                .with_file(file);
            Some(note_and_hint(d, msg.as_str(), Some("check that constraints don't conflict with dependencies")))
        },
        _ => None,
    }
}

/// Whether a diagnostic is about calendars: its code starts with `C`.
pub fn is_calendar_diagnostic(d: &Diagnostic) -> (r: bool)
    ensures
        r == (d.code.text().len() > 0 && d.code.text()[0] == 'C'),
{
    let text = crate::text::chars_of(d.code.as_str());
    text.len() > 0 && text[0] == 'C'
}

} // verus!
