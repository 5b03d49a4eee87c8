//! What the language server reports: diagnostics with editor ranges and
//! messages, and the outline of a project's symbols.
use vstd::prelude::*;
use crate::diagnostic::{Diagnostic, Severity};
use crate::project::{Project, Task};
use crate::baseline::qualified_id;
use crate::hover::views;
use crate::text::push_str;

verus! {

/// A diagnostic as the editor shows it: a 0-based range, the severity, the
/// code, the source ("utf8proj"), and the message with notes and hints
/// appended.
#[derive(Clone, Debug)]
pub struct EditorDiagnostic {
    pub start_line: u32,
    pub start_character: u32,
    pub end_line: u32,
    pub end_character: u32,
    pub severity: Severity,
    pub code: String,
    pub source: String,
    pub message: String,
}

/// Lines of notes in an editor message: each as `  = note`.
pub open spec fn note_text(notes: Seq<String>) -> Seq<char>
    decreases notes.len(),
{
    if notes.len() == 0 {
        Seq::empty()
    } else {
        note_text(notes.drop_last()) + "  = "@ + notes.last()@ + "\n"@
    }
}

/// Lines of hints in an editor message: each as `  hint: hint`.
pub open spec fn hint_text(hints: Seq<String>) -> Seq<char>
    decreases hints.len(),
{
    if hints.len() == 0 {
        Seq::empty()
    } else {
        hint_text(hints.drop_last()) + "  hint: "@ + hints.last()@ + "\n"@
    }
}

/// The editor message: the message, then after a blank line the notes and
/// hints.
pub open spec fn editor_message(d: Diagnostic) -> Seq<char> {
    d.message@ + (if d.notes@.len() > 0 {
        "\n\n"@ + note_text(d.notes@)
    } else {
        Seq::empty()
    }) + (if d.hints@.len() > 0 {
        (if d.notes@.len() == 0 {
            "\n\n"@
        } else {
            Seq::empty()
        }) + hint_text(d.hints@)
    } else {
        Seq::empty()
    })
}

/// `x - 1`, stopping at 0.
pub open spec fn minus_one(x: int) -> int {
    if x > 0 {
        x - 1
    } else {
        0
    }
}

fn append_notes(out: &mut String, notes: &Vec<String>)
    ensures
        final(out)@ == old(out)@ + note_text(notes@),
{
    let ghost start = out@;
    let mut i: usize = 0;
    while i < notes.len()
        invariant
            i <= notes@.len(),
            out@ == start + note_text(notes@.take(i as int)),
        decreases notes@.len() - i,
    {
        assert(notes@.take(i + 1).drop_last() =~= notes@.take(i as int));
        push_str(out, "  = ");
        push_str(out, notes[i].as_str());
        push_str(out, "\n");
        proof {
            reveal_strlit("  = ");
            reveal_strlit("\n");
        }
        i = i + 1;
    }
    assert(notes@.take(notes@.len() as int) =~= notes@);
}

fn append_hints(out: &mut String, hints: &Vec<String>)
    ensures
        final(out)@ == old(out)@ + hint_text(hints@),
{
    let ghost start = out@;
    let mut i: usize = 0;
    while i < hints.len()
        invariant
            i <= hints@.len(),
            out@ == start + hint_text(hints@.take(i as int)),
        decreases hints@.len() - i,
    {
        assert(hints@.take(i + 1).drop_last() =~= hints@.take(i as int));
        push_str(out, "  hint: ");
        push_str(out, hints[i].as_str());
        push_str(out, "\n");
        proof {
            reveal_strlit("  hint: ");
            reveal_strlit("\n");
        }
        i = i + 1;
    }
    assert(hints@.take(hints@.len() as int) =~= hints@);
}

/// `r` is the editor form of `d`: with a span, the range starts at its
/// line and column made 0-based and spans its length on that line; without
/// one it covers the first character of the file. Positions are cut to
/// `u32`.
pub open spec fn editor_diagnostic_of(d: Diagnostic, r: EditorDiagnostic) -> bool {
    &&& match d.span {
            Some(s) => {
                &&& r.start_line == (minus_one(s.line as int) as u32)
                &&& r.end_line == r.start_line
                &&& r.start_character == (minus_one(s.column as int) as u32)
                &&& r.end_character == ((minus_one(s.column as int) + s.length) as u32)
            },
            None => r.start_line == 0 && r.start_character == 0 && r.end_line == 0 && r.end_character == 1,
        }
    &&& r.severity == d.severity
    &&& r.code@ == d.code.text()
    &&& r.source@ == "utf8proj"@
    &&& r.message@ == editor_message(d)
}

/// A diagnostic for the editor (see `editor_diagnostic_of`).
pub fn to_lsp_diagnostic(diag: &Diagnostic) -> (r: EditorDiagnostic)
    ensures
        editor_diagnostic_of(*diag, r),
{
    let (sl, sc, el, ec) = match &diag.span {
        Some(s) => {
            let line = if s.line > 0 {
                s.line - 1
            } else {
                0
            };
            let col = if s.column > 0 {
                s.column - 1
            } else {
                0
            };
            let end: u128 = col as u128 + s.length as u128;
            #[verifier::truncate]
            let l32 = line as u32;
            #[verifier::truncate]
            let c32 = col as u32;
            #[verifier::truncate]
            let e32 = end as u32;
            (l32, c32, l32, e32)
        },
        None => (0, 0, 0, 1),
    };
    let mut message = diag.message.clone();
    proof {
        reveal_strlit("\n\n");
    }
    if diag.notes.len() > 0 {
        push_str(&mut message, "\n\n");
        append_notes(&mut message, &diag.notes);
    }
    if diag.hints.len() > 0 {
        if diag.notes.len() == 0 {
            push_str(&mut message, "\n\n");
        }
        append_hints(&mut message, &diag.hints);
    }
    let mut code = String::new();
    push_str(&mut code, diag.code.as_str());
    let r = EditorDiagnostic {
        start_line: sl,
        start_character: sc,
        end_line: el,
        end_character: ec,
        severity: diag.severity,
        code,
        source: crate::text::string_of(crate::text::chars_of("utf8proj").as_slice()),
        message,
    };
    assert(r.severity == diag.severity);
    assert(r.code@ == diag.code.text());
    assert(r.message@ == editor_message(*diag));
    r
}

/// The diagnostics for the editor, one for each, in order (see
/// `to_lsp_diagnostic`).
pub fn to_lsp_diagnostics(diagnostics: &Vec<Diagnostic>) -> (r: Vec<EditorDiagnostic>)
    ensures
        r@.len() == diagnostics@.len(),
        forall|i: int| 0 <= i < r@.len() ==> editor_diagnostic_of(diagnostics@[i], #[trigger] r@[i]),
{
    let mut r: Vec<EditorDiagnostic> = Vec::new();
    let mut i: usize = 0;
    while i < diagnostics.len()
        invariant
            i <= diagnostics@.len(),
            r@.len() == i,
            forall|k: int| 0 <= k < i ==> editor_diagnostic_of(diagnostics@[k], #[trigger] r@[k]),
        decreases diagnostics@.len() - i,
    {
        r.push(to_lsp_diagnostic(&diagnostics[i]));
        i = i + 1;
    }
    r
}

/// Kind of an outline symbol.
#[derive(Clone, Copy, Debug, PartialEq, Eq, Structural)]
pub enum OutlineKind {
    /// A resource profile
    Class,
    /// A resource
    Variable,
    /// A milestone
    Event,
    /// A container task
    Module,
    /// A leaf task
    Function,
}

/// An entry of the document outline.
#[derive(Clone, Debug)]
pub struct OutlineSymbol {
    pub name: String,
    pub kind: OutlineKind,
    /// "profiles", "resources" or "tasks"
    pub container: &'static str,
}

/// The outline kind of a task.
pub open spec fn task_kind(t: Task) -> OutlineKind {
    if t.milestone {
        OutlineKind::Event
    } else if t.children@.len() > 0 {
        OutlineKind::Module
    } else {
        OutlineKind::Function
    }
}

/// The outline of a task forest under `prefix`: each task by its qualified
/// id and kind, followed by its children.
pub open spec fn task_outline(ts: Seq<Task>, prefix: Seq<char>) -> Seq<(Seq<char>, OutlineKind)>
    decreases ts,
{
    if ts.len() == 0 {
        Seq::empty()
    } else {
        let t = ts[0];
        let q = qualified_id(prefix, t.id@);
        seq![(q, task_kind(t))] + (if t.children@.len() > 0 {
            task_outline(t.children@, q)
        } else {
            Seq::empty()
        }) + task_outline(ts.drop_first(), prefix)
    }
}

/// An outline entry as plain values.
pub open spec fn entry_of(s: OutlineSymbol) -> (Seq<char>, OutlineKind, Seq<char>) {
    (s.name@, s.kind, s.container@)
}

/// The whole outline: profiles, then resources, then the tasks.
pub open spec fn project_outline(p: Project) -> Seq<(Seq<char>, OutlineKind, Seq<char>)> {
    p.profiles@.map_values(|x: crate::project::ResourceProfile| (x.id@, OutlineKind::Class, "profiles"@))
        + p.resources@.map_values(|x: crate::project::Resource| (x.id@, OutlineKind::Variable, "resources"@))
        + task_outline(p.tasks@, Seq::empty()).map_values(
        |e: (Seq<char>, OutlineKind)| (e.0, e.1, "tasks"@),
    )
}

/// The entries of a list of outline symbols.
pub open spec fn entries(v: Seq<OutlineSymbol>) -> Seq<(Seq<char>, OutlineKind, Seq<char>)> {
    v.map_values(|s: OutlineSymbol| entry_of(s))
}

fn qualify_name(prefix: &str, id: &str) -> (r: String)
    ensures
        r@ == qualified_id(prefix@, id@),
{
    if prefix.is_empty() {
        id.to_owned()
    } else {
        let mut r = prefix.to_owned();
        push_str(&mut r, ".");
        push_str(&mut r, id);
        proof {
            reveal_strlit(".");
        }
        r
    }
}

fn add_tasks(tasks: &Vec<Task>, prefix: &str, symbols: &mut Vec<OutlineSymbol>)
    ensures
        entries(final(symbols)@) == entries(old(symbols)@) + task_outline(tasks@, prefix@).map_values(
            |e: (Seq<char>, OutlineKind)| (e.0, e.1, "tasks"@),
        ),
    decreases tasks@,
{
    let ghost start = entries(symbols@);
    let ghost f = |e: (Seq<char>, OutlineKind)| (e.0, e.1, "tasks"@);
    let n = tasks.len();
    let mut i: usize = 0;
    assert(tasks@.skip(0) =~= tasks@);
    proof {
        reveal_strlit("tasks");
    }
    while i < n
        invariant
            n == tasks@.len(),
            i <= n,
            f == (|e: (Seq<char>, OutlineKind)| (e.0, e.1, "tasks"@)),
            start + task_outline(tasks@, prefix@).map_values(f) == entries(symbols@) + task_outline(
                tasks@.skip(i as int),
                prefix@,
            ).map_values(f),
        decreases n - i,
    {
        let t = &tasks[i];
        let ghost rest = tasks@.skip(i as int);
        assert(rest[0] == tasks@[i as int]);
        assert(rest.drop_first() =~= tasks@.skip(i + 1));
        let name = qualify_name(prefix, t.id.as_str());
        let kind = if t.milestone {
            OutlineKind::Event
        } else if t.children.len() > 0 {
            OutlineKind::Module
        } else {
            OutlineKind::Function
        };
        let ghost before = entries(symbols@);
        let ghost q = name@;
        symbols.push(OutlineSymbol { name: name.clone(), kind, container: "tasks" });
        assert(entries(symbols@) =~= before.push((q, kind, "tasks"@)));
        let ghost mid = entries(symbols@);
        if t.children.len() > 0 {
            assert(decreases_to!(tasks@ => tasks@[i as int]));
            add_tasks(&t.children, name.as_str(), symbols);
        }
        proof {
            let sub: Seq<(Seq<char>, OutlineKind)> = if t.children@.len() > 0 {
                task_outline(t.children@, q)
            } else {
                Seq::empty()
            };
            assert(entries(symbols@) =~= mid + sub.map_values(f));
            let whole = task_outline(rest, prefix@);
            assert(whole == seq![(q, kind)] + sub + task_outline(tasks@.skip(i + 1), prefix@));
            assert(whole.map_values(f) =~= seq![(q, kind, "tasks"@)] + sub.map_values(f) + task_outline(
                tasks@.skip(i + 1),
                prefix@,
            ).map_values(f));
            assert(before + whole.map_values(f) =~= entries(symbols@) + task_outline(tasks@.skip(i + 1), prefix@).map_values(
                f,
            ));
        }
        i = i + 1;
    }
    assert(tasks@.skip(n as int) =~= Seq::<Task>::empty());
    assert(task_outline(Seq::<Task>::empty(), prefix@).map_values(f) =~= Seq::<(Seq<char>, OutlineKind, Seq<char>)>::empty());
}

/// The document outline of a project: its profiles, its resources, and
/// its tasks with qualified ids, depth-first.
pub fn build_document_symbols(project: &Project) -> (r: Vec<OutlineSymbol>)
    ensures
        entries(r@) == project_outline(*project),
{
    let mut symbols: Vec<OutlineSymbol> = Vec::new();
    proof {
        reveal_strlit("profiles");
        reveal_strlit("resources");
        reveal_strlit("");
        assert(""@ =~= Seq::<char>::empty());
    }
    let mut i: usize = 0;
    while i < project.profiles.len()
        invariant
            i <= project.profiles@.len(),
            entries(symbols@) == project.profiles@.take(i as int).map_values(
                |x: crate::project::ResourceProfile| (x.id@, OutlineKind::Class, "profiles"@),
            ),
        decreases project.profiles@.len() - i,
    {
        let ghost before = entries(symbols@);
        symbols.push(OutlineSymbol { name: project.profiles[i].id.clone(), kind: OutlineKind::Class, container: "profiles" });
        assert(entries(symbols@) =~= before.push((project.profiles@[i as int].id@, OutlineKind::Class, "profiles"@)));
        assert(project.profiles@.take(i + 1).map_values(
            |x: crate::project::ResourceProfile| (x.id@, OutlineKind::Class, "profiles"@),
        ) =~= project.profiles@.take(i as int).map_values(
            |x: crate::project::ResourceProfile| (x.id@, OutlineKind::Class, "profiles"@),
        ).push((project.profiles@[i as int].id@, OutlineKind::Class, "profiles"@)));
        i = i + 1;
    }
    assert(project.profiles@.take(project.profiles@.len() as int) =~= project.profiles@);
    let ghost after_profiles = entries(symbols@);
    let mut j: usize = 0;
    while j < project.resources.len()
        invariant
            j <= project.resources@.len(),
            entries(symbols@) == after_profiles + project.resources@.take(j as int).map_values(
                |x: crate::project::Resource| (x.id@, OutlineKind::Variable, "resources"@),
            ),
        decreases project.resources@.len() - j,
    {
        let ghost before = entries(symbols@);
        symbols.push(OutlineSymbol { name: project.resources[j].id.clone(), kind: OutlineKind::Variable, container: "resources" });
        assert(entries(symbols@) =~= before.push((project.resources@[j as int].id@, OutlineKind::Variable, "resources"@)));
        assert(project.resources@.take(j + 1).map_values(
            |x: crate::project::Resource| (x.id@, OutlineKind::Variable, "resources"@),
        ) =~= project.resources@.take(j as int).map_values(
            |x: crate::project::Resource| (x.id@, OutlineKind::Variable, "resources"@),
        ).push((project.resources@[j as int].id@, OutlineKind::Variable, "resources"@)));
        j = j + 1;
    }
    assert(project.resources@.take(project.resources@.len() as int) =~= project.resources@);
    add_tasks(&project.tasks, "", &mut symbols);
    symbols
}

} // verus!
