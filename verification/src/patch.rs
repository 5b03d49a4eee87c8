//! Adding dependencies to the task blocks of a project file as text: the
//! block of a task is found by its header line (`task <id> "name" {` or
//! `milestone <id> {`), and the dependencies are appended to its
//! `depends:` line, or a `depends:` line is opened right after the brace.
//! Whitespace is what std's `char::is_whitespace` calls so; a line starts
//! at the beginning of the text or after a line feed.
use vstd::prelude::*;
use crate::fixes::{dep_text, dep_view, deps_view, fixes_view, DepToAdd, DepView};
use crate::hover::{join_strings, join_with, views};
use crate::navigation::{char_is_whitespace, is_whitespace_char};
use crate::psplib::{copy_range, index_of, index_of_from, trim_chars, trim_seq};
use crate::text::{chars_of, matches_at, occurs_at, push_chars, push_str};

verus! {

/// The end of the run of whitespace that starts at `p`.
pub open spec fn ws_end(s: Seq<char>, p: int) -> int
    decreases s.len() - p,
{
    if 0 <= p < s.len() && is_whitespace_char(s[p]) {
        ws_end(s, p + 1)
    } else {
        p
    }
}

/// A line starts at `p`.
pub open spec fn at_line_start(s: Seq<char>, p: int) -> bool {
    p == 0 || (0 < p <= s.len() && s[p - 1] == '\n')
}

/// The end of the keyword `task` or `milestone` standing at `a`.
pub open spec fn keyword_end(s: Seq<char>, a: int) -> Option<int> {
    if occurs_at(s, "task"@, a) {
        Some(a + 4)
    } else if occurs_at(s, "milestone"@, a) {
        Some(a + 9)
    } else {
        None
    }
}

/// From `b`: whitespace, the identifier `id`, whitespace; where this
/// ends. The identifier is taken literally, its own leading whitespace
/// included.
pub open spec fn spaced_id_end(s: Seq<char>, b: int, id: Seq<char>) -> Option<int> {
    let r = ws_end(s, b);
    let k = ws_end(id, 0);
    if k < id.len() {
        let c = r - k;
        let d = c + id.len();
        if c > b && occurs_at(s, id, c) && ws_end(s, d) > d {
            Some(ws_end(s, d))
        } else {
            None
        }
    } else if exists|c: int| b < c && c + id.len() < r && #[trigger] occurs_at(s, id, c) {
        Some(r)
    } else {
        None
    }
}

/// From `e`: the opening brace, or a quoted name, whitespace and the
/// opening brace; where this ends.
pub open spec fn block_open_end(s: Seq<char>, e: int) -> Option<int> {
    if 0 <= e < s.len() && s[e] == '{' {
        Some(e + 1)
    } else if 0 <= e < s.len() && s[e] == '"' {
        match index_of_from(s, '"', e + 1) {
            Some(q) => {
                let f = ws_end(s, q + 1);
                if f < s.len() && s[f] == '{' {
                    Some(f + 1)
                } else {
                    None
                }
            },
            None => None,
        }
    } else {
        None
    }
}

/// A header line of the block of task `id` starts at `p`: where the
/// header ends (after its brace).
pub open spec fn header_at(s: Seq<char>, id: Seq<char>, p: int) -> Option<int> {
    if !at_line_start(s, p) {
        None
    } else {
        match keyword_end(s, ws_end(s, p)) {
            None => None,
            Some(b) => match spaced_id_end(s, b, id) {
                None => None,
                Some(e) => block_open_end(s, e),
            },
        }
    }
}

/// The first header of the block of task `id` at or after `p`: where it
/// starts and where it ends.
pub open spec fn first_header_from(s: Seq<char>, id: Seq<char>, p: int) -> Option<(int, int)>
    decreases s.len() + 1 - p,
{
    if p < 0 || p > s.len() {
        None
    } else {
        match header_at(s, id, p) {
            Some(e) => Some((p, e)),
            None => first_header_from(s, id, p + 1),
        }
    }
}

/// A nested task starts at `p`: a line of whitespace, `task` and
/// whitespace.
pub open spec fn nested_task_at(r: Seq<char>, p: int) -> bool {
    let a = ws_end(r, p);
    at_line_start(r, p) && occurs_at(r, "task"@, a) && ws_end(r, a + 4) > a + 4
}

/// The first nested task at or after `p`.
pub open spec fn first_nested_from(r: Seq<char>, p: int) -> Option<int>
    decreases r.len() + 1 - p,
{
    if p < 0 || p > r.len() {
        None
    } else if nested_task_at(r, p) {
        Some(p)
    } else {
        first_nested_from(r, p + 1)
    }
}

/// Where the own part of a block ends, in the text `r` after its header:
/// at the first nested task or the first closing brace, whichever comes
/// first, or at the end.
pub open spec fn body_end(r: Seq<char>) -> int {
    match (first_nested_from(r, 0), index_of_from(r, '}', 0)) {
        (Some(n), Some(b)) => if n < b {
            n
        } else {
            b
        },
        (Some(n), None) => n,
        (None, Some(b)) => b,
        (None, None) => r.len() as int,
    }
}

/// A `depends:` line starts at `p`: whitespace, then `depends:`.
pub open spec fn depends_at(body: Seq<char>, p: int) -> bool {
    at_line_start(body, p) && occurs_at(body, "depends:"@, ws_end(body, p))
}

/// The first `depends:` line at or after `p`.
pub open spec fn first_depends_from(body: Seq<char>, p: int) -> Option<int>
    decreases body.len() + 1 - p,
{
    if p < 0 || p > body.len() {
        None
    } else if depends_at(body, p) {
        Some(p)
    } else {
        first_depends_from(body, p + 1)
    }
}

/// Where the line that goes on at `v` ends: at the next line feed, or at
/// the end.
pub open spec fn line_end_from(body: Seq<char>, v: int) -> int {
    match index_of_from(body, '\n', v) {
        Some(q) => q,
        None => body.len() as int,
    }
}

/// The text with the dependencies `joined` added to the block of task
/// `id`; `None` where the text has no block for it. Where the own part of
/// the block has a `depends:` line, the values already on it (trimmed)
/// are kept and the new ones follow them; otherwise a `depends:` line
/// indented four more than the header is opened after the brace.
pub open spec fn patch_one(s: Seq<char>, id: Seq<char>, joined: Seq<char>) -> Option<Seq<char>> {
    match first_header_from(s, id, 0) {
        None => None,
        Some((p, t)) => {
            let indent = s.subrange(p, ws_end(s, p));
            let rem = s.skip(t);
            let body = rem.take(body_end(rem));
            match first_depends_from(body, 0) {
                Some(q) => {
                    let a = ws_end(body, q);
                    let v = ws_end(body, a + 8);
                    let le = line_end_from(body, v);
                    let existing = trim_seq(body.subrange(v, le));
                    let values = if existing.len() == 0 {
                        joined
                    } else {
                        existing + ", "@ + joined
                    };
                    Some(s.take(t + q) + body.subrange(q, a) + "depends: "@ + values + s.skip(t + le))
                },
                None => Some(s.take(t) + "\n"@ + indent + "    depends: "@ + joined + s.skip(t)),
            }
        },
    }
}

/// The written forms of a list of dependencies.
pub open spec fn dep_texts(deps: Seq<DepView>) -> Seq<Seq<char>> {
    deps.map_values(|d: DepView| dep_text(d))
}

/// The text after applying the fixes in order, and the number of
/// dependencies added; a fix for a task without a block is skipped.
pub open spec fn patched(s: Seq<char>, fixes: Seq<(Seq<char>, Seq<DepView>)>) -> (Seq<char>, nat)
    decreases fixes.len(),
{
    if fixes.len() == 0 {
        (s, 0)
    } else {
        let (t, n) = patched(s, fixes.drop_last());
        let f = fixes.last();
        match patch_one(t, f.0, join_with(dep_texts(f.1), ", "@)) {
            Some(u) => (u, n + f.1.len()),
            None => (t, n),
        }
    }
}

/// The number of dependencies in a list of fixes.
pub open spec fn dep_count(fixes: Seq<(Seq<char>, Seq<DepView>)>) -> nat
    decreases fixes.len(),
{
    if fixes.len() == 0 {
        0
    } else {
        dep_count(fixes.drop_last()) + fixes.last().1.len()
    }
}

fn ws_end_of(s: &[char], p: usize) -> (r: usize)
    requires
        p <= s@.len(),
    ensures
        r as int == ws_end(s@, p as int),
        p <= r <= s@.len(),
    decreases s@.len() - p,
{
    if p < s.len() && char_is_whitespace(s[p]) {
        ws_end_of(s, p + 1)
    } else {
        p
    }
}

fn line_starts_at(s: &[char], p: usize) -> (r: bool)
    requires
        p <= s@.len(),
    ensures
        r == at_line_start(s@, p as int),
{
    p == 0 || s[p - 1] == '\n'
}

fn keyword_end_at(s: &[char], a: usize) -> (r: Option<usize>)
    requires
        a <= s@.len(),
    ensures
        match r {
            Some(b) => keyword_end(s@, a as int) == Some(b as int) && b <= s@.len(),
            None => keyword_end(s@, a as int) is None,
        },
{
    proof {
        reveal_strlit("task");
        reveal_strlit("milestone");
    }
    let n = s.len();
    let t = chars_of("task");
    let m = chars_of("milestone");
    if matches_at(s, t.as_slice(), a) {
        Some(a + 4)
    } else if matches_at(s, m.as_slice(), a) {
        Some(a + 9)
    } else {
        None
    }
}

fn spaced_id_end_at(s: &[char], b: usize, id: &[char]) -> (r: Option<usize>)
    requires
        b <= s@.len(),
    ensures
        match r {
            Some(e) => spaced_id_end(s@, b as int, id@) == Some(e as int) && e <= s@.len(),
            None => spaced_id_end(s@, b as int, id@) is None,
        },
{
    let n = s.len();
    let r = ws_end_of(s, b);
    let k = if id.len() == 0 { 0 } else { ws_end_of(id, 0) };
    proof {
        lemma_ws_end_bounds(id@, 0);
    }
    if k < id.len() {
        if r < k || r - k <= b {
            return None;
        }
        let c = r - k;
        if !matches_at(s, id, c) {
            return None;
        }
        let d = c + id.len();
        let e = ws_end_of(s, d);
        if e > d {
            Some(e)
        } else {
            None
        }
    } else {
        if b >= r {
            return None;
        }
        let mut c = b + 1;
        while c <= r && r - c > id.len()
            invariant
                b < c,
                ws_end(id@, 0) >= id@.len(),
                r as int == ws_end(s@, b as int),
                r <= s@.len(),
                forall|c2: int| b < c2 < c ==> !#[trigger] occurs_at(s@, id@, c2),
            decreases r + 1 - c,
        {
            if matches_at(s, id, c) {
                assert(b < c && c + id@.len() < r && occurs_at(s@, id@, c as int));
                assert(spaced_id_end(s@, b as int, id@) == Some(r as int));
                return Some(r);
            }
            c = c + 1;
        }
        assert forall|c2: int| b < c2 && c2 + id@.len() < r implies !#[trigger] occurs_at(s@, id@, c2) by {
            if c2 >= c {
                assert(false);
            }
        }
        None
    }
}

fn block_open_end_at(s: &[char], e: usize) -> (r: Option<usize>)
    requires
        e <= s@.len(),
    ensures
        match r {
            Some(f) => block_open_end(s@, e as int) == Some(f as int) && f <= s@.len(),
            None => block_open_end(s@, e as int) is None,
        },
{
    if e < s.len() && s[e] == '{' {
        Some(e + 1)
    } else if e < s.len() && s[e] == '"' {
        match index_of(s, '"', e + 1) {
            Some(q) => {
                let f = ws_end_of(s, q + 1);
                if f < s.len() && s[f] == '{' {
                    Some(f + 1)
                } else {
                    None
                }
            },
            None => None,
        }
    } else {
        None
    }
}

fn header_at_pos(s: &[char], id: &[char], p: usize) -> (r: Option<usize>)
    requires
        p <= s@.len(),
    ensures
        match r {
            Some(e) => header_at(s@, id@, p as int) == Some(e as int) && e <= s@.len(),
            None => header_at(s@, id@, p as int) is None,
        },
{
    if !line_starts_at(s, p) {
        return None;
    }
    let a = ws_end_of(s, p);
    match keyword_end_at(s, a) {
        None => None,
        Some(b) => match spaced_id_end_at(s, b, id) {
            None => None,
            Some(e) => block_open_end_at(s, e),
        },
    }
}

fn first_header(s: &[char], id: &[char]) -> (r: Option<(usize, usize)>)
    ensures
        match r {
            Some(h) => first_header_from(s@, id@, 0) == Some((h.0 as int, h.1 as int)) && h.0 <= s@.len() && h.1
                <= s@.len(),
            None => first_header_from(s@, id@, 0) is None,
        },
{
    let mut p: usize = 0;
    loop
        invariant
            p <= s@.len(),
            first_header_from(s@, id@, 0) == first_header_from(s@, id@, p as int),
        decreases s@.len() - p,
    {
        match header_at_pos(s, id, p) {
            Some(e) => {
                return Some((p, e));
            },
            None => {},
        }
        if p == s.len() {
            assert(first_header_from(s@, id@, p + 1) is None);
            return None;
        }
        p = p + 1;
    }
}

proof fn lemma_ws_end_bounds(s: Seq<char>, p: int)
    requires
        0 <= p <= s.len(),
    ensures
        p <= ws_end(s, p) <= s.len(),
    decreases s.len() - p,
{
    if p < s.len() && is_whitespace_char(s[p]) {
        lemma_ws_end_bounds(s, p + 1);
    }
}

fn first_nested(r: &[char]) -> (q: Option<usize>)
    ensures
        match q {
            Some(i) => first_nested_from(r@, 0) == Some(i as int) && i <= r@.len(),
            None => first_nested_from(r@, 0) is None,
        },
{
    let n = r.len();
    let t = chars_of("task");
    proof {
        reveal_strlit("task");
    }
    let mut p: usize = 0;
    loop
        invariant
            p <= r@.len(),
            n == r@.len(),
            t@ == "task"@,
            first_nested_from(r@, 0) == first_nested_from(r@, p as int),
        decreases r@.len() - p,
    {
        proof {
            reveal_strlit("task");
        }
        if line_starts_at(r, p) {
            let a = ws_end_of(r, p);
            if matches_at(r, t.as_slice(), a) {
                let w = ws_end_of(r, a + 4);
                if w > a + 4 {
                    return Some(p);
                }
            }
        }
        if p == n {
            assert(first_nested_from(r@, p + 1) is None);
            return None;
        }
        p = p + 1;
    }
}

fn body_end_of(r: &[char]) -> (e: usize)
    ensures
        e as int == body_end(r@),
        e <= r@.len(),
{
    let n = r.len();
    match (first_nested(r), index_of(r, '}', 0)) {
        (Some(a), Some(b)) => if a < b {
            a
        } else {
            b
        },
        (Some(a), None) => a,
        (None, Some(b)) => b,
        (None, None) => n,
    }
}

fn first_depends(body: &[char]) -> (q: Option<usize>)
    ensures
        match q {
            Some(i) => first_depends_from(body@, 0) == Some(i as int) && i <= body@.len(),
            None => first_depends_from(body@, 0) is None,
        },
{
    let n = body.len();
    let d = chars_of("depends:");
    proof {
        reveal_strlit("depends:");
    }
    let mut p: usize = 0;
    loop
        invariant
            p <= body@.len(),
            n == body@.len(),
            d@ == "depends:"@,
            first_depends_from(body@, 0) == first_depends_from(body@, p as int),
        decreases body@.len() - p,
    {
        if line_starts_at(body, p) {
            let a = ws_end_of(body, p);
            if matches_at(body, d.as_slice(), a) {
                return Some(p);
            }
        }
        if p == n {
            assert(first_depends_from(body@, p + 1) is None);
            return None;
        }
        p = p + 1;
    }
}

/// The text with the dependencies `joined` added to the block of task
/// `id` (see `patch_one`).
pub fn patch_task(s: &[char], id: &[char], joined: &[char]) -> (r: Option<Vec<char>>)
    ensures
        match r {
            Some(t) => patch_one(s@, id@, joined@) == Some(t@),
            None => patch_one(s@, id@, joined@) is None,
        },
{
    let n = s.len();
    proof {
        reveal_strlit(", ");
        reveal_strlit("depends: ");
        reveal_strlit("\n");
        reveal_strlit("    depends: ");
    }
    match first_header(s, id) {
        None => None,
        Some((p, t)) => {
            let pe = ws_end_of(s, p);
            let rem = copy_range(s, t, n);
            assert(rem@ =~= s@.skip(t as int));
            let be = body_end_of(rem.as_slice());
            let body = copy_range(rem.as_slice(), 0, be);
            assert(body@ =~= rem@.take(be as int));
            let mut out: Vec<char> = Vec::new();
            match first_depends(body.as_slice()) {
                Some(q) => {
                    proof {
                        lemma_first_depends(body@, 0, q as int);
                    }
                    let a = ws_end_of(body.as_slice(), q);
                    let dv = chars_of("depends:");
                    proof {
                        reveal_strlit("depends:");
                    }
                    let v = ws_end_of(body.as_slice(), a + 8);
                    let le = match index_of(body.as_slice(), '\n', v) {
                        Some(x) => x,
                        None => be,
                    };
                    let old_values = copy_range(body.as_slice(), v, le);
                    let existing = trim_chars(old_values.as_slice());
                    let mut line = copy_range(s, 0, t + q);
                    assert(line@ =~= s@.take(t + q));
                    let indent = copy_range(body.as_slice(), q, a);
                    line.extend_from_slice(indent.as_slice());
                    let dep_word = chars_of("depends: ");
                    line.extend_from_slice(dep_word.as_slice());
                    if existing.len() > 0 {
                        line.extend_from_slice(existing.as_slice());
                        let sep = chars_of(", ");
                        line.extend_from_slice(sep.as_slice());
                    }
                    line.extend_from_slice(joined);
                    let tail = copy_range(s, t + le, n);
                    assert(tail@ =~= s@.skip(t + le));
                    line.extend_from_slice(tail.as_slice());
                    proof {
                        let existing_s = trim_seq(body@.subrange(v as int, le as int));
                        let values = if existing_s.len() == 0 {
                            joined@
                        } else {
                            existing_s + ", "@ + joined@
                        };
                        assert(line@ =~= s@.take(t + q) + body@.subrange(q as int, a as int) + "depends: "@ + values + s@.skip(
                            t + le,
                        ));
                    }
                    Some(line)
                },
                None => {
                    let mut line = copy_range(s, 0, t);
                    assert(line@ =~= s@.take(t as int));
                    line.push('\n');
                    let indent = copy_range(s, p, pe);
                    line.extend_from_slice(indent.as_slice());
                    let dep_word = chars_of("    depends: ");
                    line.extend_from_slice(dep_word.as_slice());
                    line.extend_from_slice(joined);
                    line.extend_from_slice(rem.as_slice());
                    assert(line@ =~= s@.take(t as int) + "\n"@ + s@.subrange(p as int, pe as int) + "    depends: "@
                        + joined@ + s@.skip(t as int));
                    Some(line)
                },
            }
        },
    }
}

proof fn lemma_first_depends(body: Seq<char>, p: int, q: int)
    requires
        0 <= p,
        first_depends_from(body, p) == Some(q),
    ensures
        depends_at(body, q),
        p <= q <= body.len(),
    decreases body.len() + 1 - p,
{
    if p <= body.len() && !depends_at(body, p) {
        lemma_first_depends(body, p + 1, q);
    }
}

proof fn lemma_dep_count_prefix(f: Seq<(Seq<char>, Seq<DepView>)>, i: int)
    requires
        0 <= i <= f.len(),
    ensures
        dep_count(f.take(i)) <= dep_count(f),
    decreases f.len() - i,
{
    if i < f.len() {
        lemma_dep_count_prefix(f.drop_last(), i);
        assert(f.drop_last().take(i) =~= f.take(i));
    } else {
        assert(f.take(i) =~= f);
    }
}

proof fn lemma_patched_count(s: Seq<char>, f: Seq<(Seq<char>, Seq<DepView>)>)
    ensures
        patched(s, f).1 <= dep_count(f),
    decreases f.len(),
{
    if f.len() > 0 {
        lemma_patched_count(s, f.drop_last());
    }
}

/// The written forms of a list of dependencies, joined with commas.
fn joined_deps(deps: &Vec<DepToAdd>) -> (r: Vec<char>)
    ensures
        r@ == join_with(dep_texts(deps_view(deps@)), ", "@),
{
    let mut texts: Vec<String> = Vec::new();
    let mut j: usize = 0;
    while j < deps.len()
        invariant
            j <= deps@.len(),
            views(texts@) == dep_texts(deps_view(deps@.take(j as int))),
        decreases deps@.len() - j,
    {
        let t = deps[j].render();
        let ghost before = texts@;
        texts.push(t);
        assert(views(texts@) =~= views(before).push(t@));
        assert(deps@.take(j + 1) =~= deps@.take(j as int).push(deps@[j as int]));
        assert(dep_texts(deps_view(deps@.take(j + 1))) =~= dep_texts(deps_view(deps@.take(j as int))).push(
            dep_text(dep_view(deps@[j as int])),
        ));
        j = j + 1;
    }
    assert(deps@.take(deps@.len() as int) =~= deps@);
    let joined = join_strings(&texts, ", ");
    chars_of(joined.as_str())
}

/// Applies the fixes, in order, to the text of a project file (see
/// `patched`): the patched text and the number of dependencies added.
pub fn apply_dependency_patches(content: &str, fixes: &Vec<(String, Vec<DepToAdd>)>) -> (r: (String, usize))
    requires
        dep_count(fixes_view(fixes@)) <= usize::MAX,
    ensures
        (r.0@, r.1 as nat) == patched(content@, fixes_view(fixes@)),
{
    let ghost fv = fixes_view(fixes@);
    let mut text = chars_of(content);
    let mut total: usize = 0;
    let mut i: usize = 0;
    assert(fv.take(0) =~= Seq::<(Seq<char>, Seq<DepView>)>::empty());
    while i < fixes.len()
        invariant
            i <= fixes@.len(),
            fv == fixes_view(fixes@),
            dep_count(fv) <= usize::MAX,
            (text@, total as nat) == patched(content@, fv.take(i as int)),
        decreases fixes@.len() - i,
    {
        let ghost pre = fv.take(i as int);
        assert(fv.take(i + 1).drop_last() =~= pre);
        assert(fv.take(i + 1).last() == fv[i as int]);
        proof {
            lemma_dep_count_prefix(fv, i + 1);
            lemma_patched_count(content@, pre);
            assert(dep_count(fv.take(i + 1)) == dep_count(pre) + fv[i as int].1.len());
        }
        let id = chars_of(fixes[i].0.as_str());
        let joined = joined_deps(&fixes[i].1);
        match patch_task(text.as_slice(), id.as_slice(), joined.as_slice()) {
            Some(t) => {
                text = t;
                total = total + fixes[i].1.len();
            },
            None => {},
        }
        i = i + 1;
    }
    assert(fv.take(fixes@.len() as int) =~= fv);
    let out = crate::text::string_of(text.as_slice());
    (out, total)
}

} // verus!
