//! Project files: the format a file name says, the errors of reading one,
//! and the text of the baselines sidecar file (its name, its string escapes
//! and its serialized form).
use vstd::prelude::*;
use crate::baseline::{Baseline, BaselineStore, TaskSnapshot};
use crate::date::rfc3339_text;
use crate::hover::dtext;
use crate::path::{components, join_components, path_components, join_path};
use crate::text::{decimal, push_char, push_str};

verus! {

/// Error of parsing a project file.
#[derive(Clone, Debug, PartialEq, Eq)]
pub enum ParseError {
    /// Syntax error at a line and column
    Syntax { line: usize, column: usize, message: String },
    /// A value that could not be read
    InvalidValue(String),
    /// A name that is not defined
    UnknownIdentifier(String),
}

impl ParseError {
    /// The message of the error.
    pub open spec fn text(self) -> Seq<char> {
        match self {
            ParseError::Syntax { line, column, message } => "Syntax error at line "@ + decimal(line as nat)
                + ", column "@ + decimal(column as nat) + ": "@ + message@,
            ParseError::InvalidValue(v) => "Invalid value: "@ + v@,
            ParseError::UnknownIdentifier(v) => "Unknown identifier: "@ + v@,
        }
    }

    /// The message of the error, e.g. "Invalid value: x".
    pub fn message(&self) -> (r: String)
        ensures
            r@ == self.text(),
    {
        let mut r = String::new();
        match self {
            ParseError::Syntax { line, column, message } => {
                push_str(&mut r, "Syntax error at line ");
                let l = crate::text::u64_to_string(*line as u64);
                push_str(&mut r, l.as_str());
                push_str(&mut r, ", column ");
                let c = crate::text::u64_to_string(*column as u64);
                push_str(&mut r, c.as_str());
                push_str(&mut r, ": ");
                push_str(&mut r, message.as_str());
            },
            ParseError::InvalidValue(v) => {
                push_str(&mut r, "Invalid value: ");
                push_str(&mut r, v.as_str());
            },
            ParseError::UnknownIdentifier(v) => {
                push_str(&mut r, "Unknown identifier: ");
                push_str(&mut r, v.as_str());
            },
        }
        proof {
            reveal_strlit("Syntax error at line ");
            reveal_strlit(", column ");
            reveal_strlit(": ");
            reveal_strlit("Invalid value: ");
            reveal_strlit("Unknown identifier: ");
        }
        r
    }
}

/// Format of a project file.
#[derive(Clone, Copy, Debug, PartialEq, Eq, Structural)]
pub enum FileFormat {
    /// The native DSL (.proj)
    Native,
    /// TaskJuggler (.tjp)
    TaskJuggler,
}

/// The file name of a path: its last component, unless that is the root,
/// `.` or `..`.
pub open spec fn file_name_of(p: Seq<char>) -> Option<Seq<char>> {
    let cs = components(p);
    if cs.len() == 0 {
        None
    } else {
        let last = cs.last();
        if last == seq!['/'] || last == seq!['.'] || last == seq!['.', '.'] {
            None
        } else {
            Some(last)
        }
    }
}

/// Position of the last `.` in `s`.
pub open spec fn last_dot(s: Seq<char>) -> Option<int>
    decreases s.len(),
{
    if s.len() == 0 {
        None
    } else if s.last() == '.' {
        Some(s.len() - 1)
    } else {
        last_dot(s.drop_last())
    }
}

/// The extension of a path: what follows the last `.` of its file name,
/// when that dot is not the name's first character.
pub open spec fn extension_of(p: Seq<char>) -> Option<Seq<char>> {
    match file_name_of(p) {
        Some(n) => match last_dot(n) {
            Some(i) => if i == 0 {
                None
            } else {
                Some(n.skip(i + 1))
            },
            None => None,
        },
        None => None,
    }
}

fn is_special_name(c: &Vec<char>) -> (r: bool)
    ensures
        r == (c@ == seq!['/'] || c@ == seq!['.'] || c@ == seq!['.', '.']),
{
    if c.len() == 1 && (c[0] == '/' || c[0] == '.') {
        assert(c@ =~= seq![c@[0]]);
        true
    } else if c.len() == 2 && c[0] == '.' && c[1] == '.' {
        assert(c@ =~= seq!['.', '.']);
        true
    } else {
        proof {
            if c@ == seq!['/'] || c@ == seq!['.'] {
                assert(c@.len() == 1);
            }
            if c@ == seq!['.', '.'] {
                assert(c@.len() == 2);
            }
        }
        false
    }
}

/// The extension of a path (see `extension_of`).
pub fn extension(path: &str) -> (r: Option<String>)
    ensures
        match r {
            Some(e) => extension_of(path@) == Some(e@),
            None => extension_of(path@) is None,
        },
{
    let cs = crate::text::chars_of(path);
    let comps = path_components(cs.as_slice());
    if comps.len() == 0 {
        return None;
    }
    let last = &comps[comps.len() - 1];
    assert(last@ == comps.deep_view().last());
    if is_special_name(last) {
        return None;
    }
    let n = last.len();
    let mut i = n;
    assert(last@.take(n as int) =~= last@);
    while i > 0 && last[i - 1] != '.'
        invariant
            i <= n == last@.len(),
            last_dot(last@) == last_dot(last@.take(i as int)),
        decreases i,
    {
        assert(last@.take(i as int).drop_last() =~= last@.take(i - 1));
        i = i - 1;
    }
    if i == 0 {
        assert(last@.take(0) =~= Seq::<char>::empty());
        return None;
    }
    assert(last@.take(i as int).last() == '.');
    if i == 1 {
        return None;
    }
    let mut e = String::new();
    let mut k = i;
    while k < n
        invariant
            i <= k <= n == last@.len(),
            e@ == last@.subrange(i as int, k as int),
        decreases n - k,
    {
        push_char(&mut e, last[k]);
        assert(last@.subrange(i as int, k + 1) =~= last@.subrange(i as int, k as int).push(last@[k as int]));
        k = k + 1;
    }
    assert(last@.skip(i as int) =~= last@.subrange(i as int, n as int));
    Some(e)
}

/// The format a path names: TaskJuggler for the extension `tjp`, the
/// native format otherwise.
pub open spec fn format_of(path: Seq<char>) -> FileFormat {
    if extension_of(path) == Some("tjp"@) {
        FileFormat::TaskJuggler
    } else {
        FileFormat::Native
    }
}

/// The format of a project file, by its extension.
pub fn detect_format(path: &str) -> (r: FileFormat)
    ensures
        r == format_of(path@),
{
    proof {
        reveal_strlit("tjp");
    }
    match extension(path) {
        Some(e) => if crate::text::str_eq(e.as_str(), "tjp") {
            FileFormat::TaskJuggler
        } else {
            FileFormat::Native
        },
        None => FileFormat::Native,
    }
}

/// How a character is written inside a quoted string of a baselines file:
/// quote, backslash, newline and tab are escaped with a backslash.
pub open spec fn escape_char(c: char) -> Seq<char> {
    if c == '"' {
        seq!['\\', '"']
    } else if c == '\\' {
        seq!['\\', '\\']
    } else if c == '\n' {
        seq!['\\', 'n']
    } else if c == '\t' {
        seq!['\\', 't']
    } else {
        seq![c]
    }
}

/// A string as written inside quotes.
pub open spec fn escaped(s: Seq<char>) -> Seq<char>
    decreases s.len(),
{
    if s.len() == 0 {
        Seq::empty()
    } else {
        escape_char(s[0]) + escaped(s.drop_first())
    }
}

/// The character an escape `\n` stands for (the backslash and `n` kept
/// for an unknown escape).
pub open spec fn unescape_pair(n: char) -> Seq<char> {
    if n == '"' {
        seq!['"']
    } else if n == '\\' {
        seq!['\\']
    } else if n == 'n' {
        seq!['\n']
    } else if n == 't' {
        seq!['\t']
    } else {
        seq!['\\', n]
    }
}

/// The text a quoted string stands for: escapes replaced, a lone final
/// backslash kept.
pub open spec fn unescaped(s: Seq<char>) -> Seq<char>
    decreases s.len(),
{
    if s.len() == 0 {
        Seq::empty()
    } else if s[0] == '\\' {
        if s.len() >= 2 {
            unescape_pair(s[1]) + unescaped(s.skip(2))
        } else {
            seq!['\\']
        }
    } else {
        seq![s[0]] + unescaped(s.drop_first())
    }
}

proof fn lemma_escaped_append(a: Seq<char>, b: Seq<char>)
    ensures
        escaped(a + b) == escaped(a) + escaped(b),
    decreases a.len(),
{
    if a.len() == 0 {
        assert(a + b =~= b);
    } else {
        lemma_escaped_append(a.drop_first(), b);
        assert((a + b).drop_first() =~= a.drop_first() + b);
        assert((a + b)[0] == a[0]);
    }
}

/// Reading back an escaped string gives the string: escaping loses nothing.
pub proof fn lemma_unescape_escape(s: Seq<char>)
    ensures
        unescaped(escaped(s)) == s,
    decreases s.len(),
{
    if s.len() > 0 {
        lemma_unescape_escape(s.drop_first());
        let c = s[0];
        let e = escape_char(c);
        let y = escaped(s.drop_first());
        let x = e + y;
        assert(escaped(s) == x);
        if e.len() == 1 {
            assert(x[0] == c);
            assert(x.drop_first() =~= y);
        } else {
            assert(x[0] == '\\');
            assert(x.skip(2) =~= y);
        }
        assert(s =~= seq![c] + s.drop_first());
    }
}

/// A string escaped for a quoted string of a baselines file.
pub fn escape_string(s: &str) -> (r: String)
    ensures
        r@ == escaped(s@),
{
    let cs = crate::text::chars_of(s);
    let mut r = String::new();
    let mut i: usize = 0;
    while i < cs.len()
        invariant
            i <= cs@.len(),
            cs@ == s@,
            r@ == escaped(cs@.take(i as int)),
        decreases cs@.len() - i,
    {
        let c = cs[i];
        if c == '"' {
            push_char(&mut r, '\\');
            push_char(&mut r, '"');
        } else if c == '\\' {
            push_char(&mut r, '\\');
            push_char(&mut r, '\\');
        } else if c == '\n' {
            push_char(&mut r, '\\');
            push_char(&mut r, 'n');
        } else if c == '\t' {
            push_char(&mut r, '\\');
            push_char(&mut r, 't');
        } else {
            push_char(&mut r, c);
        }
        proof {
            lemma_escaped_append(cs@.take(i as int), seq![c]);
            assert(cs@.take(i + 1) =~= cs@.take(i as int) + seq![c]);
            assert(seq![c].drop_first() =~= Seq::<char>::empty());
            assert(seq![c][0] == c);
            assert(escaped(Seq::<char>::empty()) =~= Seq::<char>::empty());
            assert(escape_char(c) + Seq::<char>::empty() =~= escape_char(c));
            assert(escaped(seq![c]) =~= escape_char(c));
        }
        i = i + 1;
    }
    assert(cs@.take(cs@.len() as int) =~= cs@);
    r
}

/// The text a quoted string of a baselines file stands for, given what is
/// between the quotes.
pub fn unescape_string(inner: &str) -> (r: String)
    ensures
        r@ == unescaped(inner@),
{
    let cs = crate::text::chars_of(inner);
    let n = cs.len();
    let mut r = String::new();
    let mut i: usize = 0;
    assert(cs@.skip(0) =~= cs@);
    while i < n
        invariant
            n == cs@.len(),
            cs@ == inner@,
            i <= n,
            r@ + unescaped(cs@.skip(i as int)) == unescaped(cs@),
        decreases n - i,
    {
        let ghost rest = cs@.skip(i as int);
        let c = cs[i];
        assert(rest[0] == c);
        if c == '\\' {
            if i + 1 < n {
                let next = cs[i + 1];
                assert(rest[1] == next);
                assert(rest.skip(2) =~= cs@.skip(i + 2));
                let ghost before = r@;
                if next == '"' {
                    push_char(&mut r, '"');
                } else if next == '\\' {
                    push_char(&mut r, '\\');
                } else if next == 'n' {
                    push_char(&mut r, '\n');
                } else if next == 't' {
                    push_char(&mut r, '\t');
                } else {
                    push_char(&mut r, '\\');
                    push_char(&mut r, next);
                }
                assert(r@ =~= before + unescape_pair(next));
                assert(before + (unescape_pair(next) + unescaped(cs@.skip(i + 2))) =~= r@ + unescaped(cs@.skip(i + 2)));
                i = i + 2;
            } else {
                push_char(&mut r, '\\');
                assert(cs@.skip(i + 1) =~= Seq::<char>::empty());
                i = i + 1;
            }
        } else {
            let ghost before = r@;
            push_char(&mut r, c);
            assert(rest.drop_first() =~= cs@.skip(i + 1));
            assert(before + (seq![c] + unescaped(cs@.skip(i + 1))) =~= r@ + unescaped(cs@.skip(i + 1)));
            i = i + 1;
        }
    }
    assert(cs@.skip(n as int) =~= Seq::<char>::empty());
    r
}

/// The text a quoted-string token of a baselines file stands for: what lies
/// between its first and last character, unescaped.
pub open spec fn quoted_value(token: Seq<char>) -> Seq<char> {
    unescaped(token.subrange(1, token.len() - 1))
}

/// The text a quoted-string token of a baselines file stands for (see
/// `quoted_value`); the token holds at least its two quotes.
pub fn parse_quoted_string(token: &str) -> (r: String)
    requires
        token@.len() >= 2,
    ensures
        r@ == quoted_value(token@),
{
    let cs = crate::text::chars_of(token);
    let inner = crate::psplib::copy_range(cs.as_slice(), 1, cs.len() - 1);
    let text = crate::text::string_of(inner.as_slice());
    unescape_string(text.as_str())
}

/// Writing a string as a quoted token and reading the token back gives
/// the string.
pub proof fn lemma_quoted_roundtrip(s: Seq<char>)
    ensures
        quoted_value(seq!['"'] + escaped(s) + seq!['"']) == s,
{
    let t = seq!['"'] + escaped(s) + seq!['"'];
    assert(t.subrange(1, t.len() - 1) =~= escaped(s));
    lemma_unescape_escape(s);
}

/// The components of the baselines file that belongs to a project file:
/// the file name with `.baselines` appended (or `.baselines` added when
/// the path has no file name).
pub open spec fn baselines_components(p: Seq<char>) -> Seq<Seq<char>> {
    match file_name_of(p) {
        Some(n) => components(p).drop_last().push(n + ".baselines"@),
        None => components(p).push(".baselines"@),
    }
}

/// The path of the baselines sidecar file of a project file.
pub fn baselines_path(project_path: &str) -> (r: String)
    ensures
        r@ == join_components(baselines_components(project_path@)),
{
    let cs = crate::text::chars_of(project_path);
    let mut comps = path_components(cs.as_slice());
    let ghost before = comps.deep_view();
    let suffix = crate::text::chars_of(".baselines");
    proof {
        reveal_strlit(".baselines");
    }
    let n = comps.len();
    let has_name = n > 0 && !is_special_name(&comps[n - 1]);
    if has_name {
        assert(comps@[n - 1]@ == before.last());
        let mut last = comps.pop().unwrap();
        let ghost name = last@;
        let mut k: usize = 0;
        while k < suffix.len()
            invariant
                k <= suffix@.len(),
                last@ == name + suffix@.take(k as int),
            decreases suffix@.len() - k,
        {
            last.push(suffix[k]);
            assert(suffix@.take(k + 1) =~= suffix@.take(k as int).push(suffix@[k as int]));
            k = k + 1;
        }
        assert(suffix@.take(suffix@.len() as int) =~= suffix@);
        comps.push(last);
        assert(comps.deep_view() =~~= before.drop_last().push(name + ".baselines"@));
        assert(file_name_of(project_path@) == Some(name));
    } else {
        if n > 0 {
            assert(comps@[n - 1]@ == before.last());
        }
        assert(file_name_of(project_path@) is None);
        comps.push(suffix);
        assert(comps.deep_view() =~~= before.push(".baselines"@));
    }
    assert(before == components(project_path@));
    assert(comps.deep_view() == baselines_components(project_path@));
    assert(comps.deep_view().skip(0) =~~= comps.deep_view());
    join_path(&comps, 0)
}

/// The line of a task snapshot: `    id: start -> finish`.
pub open spec fn snapshot_text(t: TaskSnapshot) -> Seq<char> {
    "    "@ + t.task_id@ + ": "@ + dtext(t.start) + " -> "@ + dtext(t.finish) + "\n"@
}

/// The lines of a list of snapshots.
pub open spec fn snapshots_text(ts: Seq<TaskSnapshot>) -> Seq<char>
    decreases ts.len(),
{
    if ts.len() == 0 {
        Seq::empty()
    } else {
        snapshots_text(ts.drop_last()) + snapshot_text(ts.last())
    }
}

/// The block of a baseline: name, saved time, description, parent, a
/// blank line before its snapshots when it has any, the snapshots, and the
/// closing brace.
pub open spec fn baseline_text(b: Baseline) -> Seq<char> {
    "baseline "@ + b.name@ + " {\n"@ + "    saved: "@ + rfc3339_text(b.saved) + "\n"@ + (match b.description {
        Some(d) => "    description: \""@ + escaped(d@) + "\"\n"@,
        None => Seq::empty(),
    }) + (match b.parent {
        Some(p) => "    parent: "@ + p@ + "\n"@,
        None => Seq::empty(),
    }) + (if b.tasks@.len() > 0 {
        "\n"@
    } else {
        Seq::empty()
    }) + snapshots_text(b.tasks@) + "}\n"@
}

/// The blocks of a list of baselines, each followed by a blank line.
pub open spec fn baselines_text(bs: Seq<Baseline>) -> Seq<char>
    decreases bs.len(),
{
    if bs.len() == 0 {
        Seq::empty()
    } else {
        baselines_text(bs.drop_last()) + baseline_text(bs.last()) + "\n"@
    }
}

/// The header line of a baselines file.
pub open spec fn baselines_header() -> Seq<char> {
    "# Auto-generated by utf8proj. Manual edits not recommended.\n\n"@
}

fn serialize_snapshot(out: &mut String, t: &TaskSnapshot)
    requires
        t.wf(),
    ensures
        final(out)@ == old(out)@ + snapshot_text(*t),
{
    push_str(out, "    ");
    push_str(out, t.task_id.as_str());
    push_str(out, ": ");
    let a = t.start.to_text();
    push_str(out, a.as_str());
    push_str(out, " -> ");
    let b = t.finish.to_text();
    push_str(out, b.as_str());
    push_str(out, "\n");
    proof {
        reveal_strlit("    ");
        reveal_strlit(": ");
        reveal_strlit(" -> ");
        reveal_strlit("\n");
    }
}

fn serialize_baseline(out: &mut String, b: &Baseline)
    requires
        b.wf(),
    ensures
        final(out)@ == old(out)@ + baseline_text(*b),
{
    let ghost start = out@;
    proof {
        reveal_strlit("baseline ");
        reveal_strlit(" {\n");
        reveal_strlit("    saved: ");
        reveal_strlit("\n");
        reveal_strlit("    description: \"");
        reveal_strlit("\"\n");
        reveal_strlit("    parent: ");
        reveal_strlit("}\n");
    }
    push_str(out, "baseline ");
    push_str(out, b.name.as_str());
    push_str(out, " {\n");
    push_str(out, "    saved: ");
    let saved = b.saved.to_rfc3339();
    push_str(out, saved.as_str());
    push_str(out, "\n");
    let ghost p1 = "baseline "@ + b.name@ + " {\n"@ + "    saved: "@ + rfc3339_text(b.saved) + "\n"@;
    assert(out@ =~= start + p1);
    let ghost p2: Seq<char> = match &b.description {
        Some(d) => "    description: \""@ + escaped(d@) + "\"\n"@,
        None => Seq::empty(),
    };
    if let Some(d) = &b.description {
        push_str(out, "    description: \"");
        let e = escape_string(d.as_str());
        push_str(out, e.as_str());
        push_str(out, "\"\n");
    }
    assert(out@ =~= start + p1 + p2);
    let ghost p3: Seq<char> = match &b.parent {
        Some(p) => "    parent: "@ + p@ + "\n"@,
        None => Seq::empty(),
    };
    if let Some(p) = &b.parent {
        push_str(out, "    parent: ");
        push_str(out, p.as_str());
        push_str(out, "\n");
    }
    assert(out@ =~= start + p1 + p2 + p3);
    let ghost p4: Seq<char> = if b.tasks@.len() > 0 {
        "\n"@
    } else {
        Seq::empty()
    };
    if b.tasks.len() > 0 {
        push_str(out, "\n");
    }
    assert(out@ =~= start + p1 + p2 + p3 + p4);
    let ghost mid = out@;
    let mut i: usize = 0;
    while i < b.tasks.len()
        invariant
            b.wf(),
            i <= b.tasks@.len(),
            out@ == mid + snapshots_text(b.tasks@.take(i as int)),
        decreases b.tasks@.len() - i,
    {
        assert(b.tasks@.take(i + 1).drop_last() =~= b.tasks@.take(i as int));
        assert(b.tasks@[i as int].wf());
        serialize_snapshot(out, &b.tasks[i]);
        i = i + 1;
    }
    assert(b.tasks@.take(b.tasks@.len() as int) =~= b.tasks@);
    push_str(out, "}\n");
    assert(out@ =~= start + (p1 + p2 + p3 + p4 + snapshots_text(b.tasks@) + "}\n"@));
}

/// All baselines are well formed.
pub open spec fn store_wf(store: BaselineStore) -> bool {
    forall|i: int| 0 <= i < store.baselines@.len() ==> (#[trigger] store.baselines@[i]).wf()
}

/// The text of a baselines file: a header comment, then each baseline in
/// name order, each followed by a blank line.
pub fn serialize_baselines(store: &BaselineStore) -> (r: String)
    requires
        store_wf(*store),
    ensures
        r@ == baselines_header() + baselines_text(store.baselines@),
{
    let mut out = String::new();
    push_str(&mut out, "# Auto-generated by utf8proj. Manual edits not recommended.\n\n");
    let ghost head = out@;
    let mut i: usize = 0;
    while i < store.baselines.len()
        invariant
            store_wf(*store),
            i <= store.baselines@.len(),
            out@ == head + baselines_text(store.baselines@.take(i as int)),
        decreases store.baselines@.len() - i,
    {
        assert(store.baselines@.take(i + 1).drop_last() =~= store.baselines@.take(i as int));
        assert(store.baselines@[i as int].wf());
        serialize_baseline(&mut out, &store.baselines[i]);
        push_str(&mut out, "\n");
        proof {
            reveal_strlit("\n");
        }
        i = i + 1;
    }
    assert(store.baselines@.take(store.baselines@.len() as int) =~= store.baselines@);
    proof {
        reveal_strlit("# Auto-generated by utf8proj. Manual edits not recommended.\n\n");
    }
    out
}

} // verus!
