//! Task names and cell text for schedule reports: looking a task up by its
//! dotted path, the name to show for it, and cutting text to a width given
//! in UTF-8 bytes.
use vstd::prelude::*;
use crate::model::Duration;
use crate::project::Task;
use crate::text::{chars_of, push_str, starts_with_seq, string_of};

verus! {

/// The text of an optional string.
pub open spec fn opt_text(o: Option<String>) -> Option<Seq<char>> {
    match o {
        Some(s) => Some(s@),
        None => None,
    }
}

/// The task at the dotted path `id` (such as `parent.child`): in order, a
/// task whose identifier is `id`, or a task whose identifier and a dot
/// begin `id` and under which the rest of the path leads to a task.
pub open spec fn task_at(ts: Seq<Task>, id: Seq<char>) -> Option<Task>
    decreases ts,
{
    if ts.len() == 0 {
        None
    } else {
        let t = ts[0];
        if t.id@ == id {
            Some(t)
        } else {
            let prefix = t.id@.push('.');
            let inner = if starts_with_seq(id, prefix) {
                task_at(t.children@, id.skip(prefix.len() as int))
            } else {
                None
            };
            match inner {
                Some(x) => Some(x),
                None => task_at(ts.drop_first(), id),
            }
        }
    }
}

/// The name and summary of the task at the dotted path `id`.
pub open spec fn task_info(ts: Seq<Task>, id: Seq<char>) -> Option<(Seq<char>, Option<Seq<char>>)> {
    match task_at(ts, id) {
        Some(t) => Some((t.name@, opt_text(t.summary))),
        None => None,
    }
}

fn clone_opt(o: &Option<String>) -> (r: Option<String>)
    ensures
        opt_text(r) == opt_text(*o),
{
    match o {
        Some(s) => Some(string_of(chars_of(s.as_str()).as_slice())),
        None => None,
    }
}

fn task_in<'a>(tasks: &'a Vec<Task>, id: &[char]) -> (r: Option<&'a Task>)
    ensures
        match r {
            Some(t) => task_at(tasks@, id@) == Some(*t),
            None => task_at(tasks@, id@) is None,
        },
    decreases tasks@,
{
    let mut k: usize = 0;
    assert(tasks@.skip(0) =~= tasks@);
    while k < tasks.len()
        invariant
            k <= tasks@.len(),
            task_at(tasks@, id@) == task_at(tasks@.skip(k as int), id@),
        decreases tasks@.len() - k,
    {
        let t = &tasks[k];
        let ghost rest = tasks@.skip(k as int);
        assert(rest[0] == *t);
        assert(rest.drop_first() =~= tasks@.skip(k + 1));
        let tid = chars_of(t.id.as_str());
        if crate::text::seq_eq(tid.as_slice(), id) {
            return Some(t);
        }
        let mut prefix = tid;
        prefix.push('.');
        if crate::text::matches_at(id, prefix.as_slice(), 0) {
            let child_id = crate::psplib::copy_range(id, prefix.len(), id.len());
            assert(child_id@ =~= id@.skip(prefix@.len() as int));
            proof {
                assert(decreases_to!(tasks@ => tasks@[k as int]));
                assert(decreases_to!(tasks@[k as int] => tasks@[k as int].children));
                assert(decreases_to!(tasks@[k as int].children => tasks@[k as int].children@));
            }
            match task_in(&t.children, child_id.as_slice()) {
                Some(x) => {
                    return Some(x);
                },
                None => {},
            }
        }
        k = k + 1;
    }
    assert(tasks@.skip(k as int) =~= Seq::<Task>::empty());
    None
}

/// The name and summary of the task at the dotted path `id` (see
/// `task_at`).
pub fn find_task_info(tasks: &Vec<Task>, id: &str) -> (r: Option<(String, Option<String>)>)
    ensures
        match r {
            Some(x) => task_info(tasks@, id@) == Some((x.0@, opt_text(x.1))),
            None => task_info(tasks@, id@) is None,
        },
{
    let cs = chars_of(id);
    match task_in(tasks, cs.as_slice()) {
        Some(t) => Some((string_of(chars_of(t.name.as_str()).as_slice()), clone_opt(&t.summary))),
        None => None,
    }
}

/// The effort of the task at the dotted path `id` (see `task_at`); `None`
/// where there is no such task or it has no effort.
pub fn find_task_effort(tasks: &Vec<Task>, id: &str) -> (r: Option<Duration>)
    ensures
        r == (match task_at(tasks@, id@) {
            Some(t) => t.effort,
            None => None,
        }),
{
    let cs = chars_of(id);
    match task_in(tasks, cs.as_slice()) {
        Some(t) => t.effort,
        None => None,
    }
}

/// The name to show for the task at the dotted path `id`: its name where
/// it has a nonempty one other than `id`, else `id` itself.
pub open spec fn display_name(ts: Seq<Task>, id: Seq<char>) -> Seq<char> {
    match task_info(ts, id) {
        Some(info) => if info.0.len() > 0 && info.0 != id {
            info.0
        } else {
            id
        },
        None => id,
    }
}

/// The name to show for a task (see `display_name`).
pub fn get_task_display_name(tasks: &Vec<Task>, id: &str) -> (r: String)
    ensures
        r@ == display_name(tasks@, id@),
{
    match find_task_info(tasks, id) {
        Some((name, _summary)) => {
            if name.as_str().unicode_len() > 0 && !crate::text::str_eq(name.as_str(), id) {
                name
            } else {
                string_of(chars_of(id).as_slice())
            }
        },
        None => string_of(chars_of(id).as_slice()),
    }
}

/// The name of a report row: the task's id with `task_ids`, its id in
/// brackets before its display name when `verbose`, else its display name.
pub open spec fn row_name(ts: Seq<Task>, id: Seq<char>, task_ids: bool, verbose: bool) -> Seq<char> {
    if task_ids {
        id
    } else if verbose {
        "["@ + id + "] "@ + display_name(ts, id)
    } else {
        display_name(ts, id)
    }
}

/// The name of a report row (see `row_name`).
pub fn task_row_name(tasks: &Vec<Task>, id: &str, task_ids: bool, verbose: bool) -> (r: String)
    ensures
        r@ == row_name(tasks@, id@, task_ids, verbose),
{
    if task_ids {
        string_of(chars_of(id).as_slice())
    } else if verbose {
        let name = get_task_display_name(tasks, id);
        let mut r = String::new();
        push_str(&mut r, "[");
        push_str(&mut r, id);
        push_str(&mut r, "] ");
        push_str(&mut r, name.as_str());
        proof {
            reveal_strlit("[");
            reveal_strlit("] ");
        }
        r
    } else {
        get_task_display_name(tasks, id)
    }
}

/// The number of bytes of a character in UTF-8.
pub open spec fn utf8_width(c: char) -> nat {
    if (c as u32) < 0x80 {
        1
    } else if (c as u32) < 0x800 {
        2
    } else if (c as u32) < 0x10000 {
        3
    } else {
        4
    }
}

/// The number of bytes of a text in UTF-8.
pub open spec fn utf8_len(s: Seq<char>) -> nat
    decreases s.len(),
{
    if s.len() == 0 {
        0
    } else {
        utf8_len(s.drop_last()) + utf8_width(s.last())
    }
}

/// A character boundary of `s` lies `b` bytes in.
pub open spec fn is_char_boundary(s: Seq<char>, b: int) -> bool {
    exists|k: int| 0 <= k <= s.len() && utf8_len(#[trigger] s.take(k)) == b
}

pub(crate) fn width_of(c: char) -> (w: usize)
    ensures
        w == utf8_width(c),
{
    let u = c as u32;
    if u < 0x80 {
        1
    } else if u < 0x800 {
        2
    } else if u < 0x10000 {
        3
    } else {
        4
    }
}

pub(crate) proof fn lemma_utf8_len_grows(s: Seq<char>, a: int, c: int)
    requires
        0 <= a < c <= s.len(),
    ensures
        utf8_len(s.take(a)) < utf8_len(s.take(c)),
    decreases c - a,
{
    assert(s.take(c).drop_last() =~= s.take(c - 1));
    if a < c - 1 {
        lemma_utf8_len_grows(s, a, c - 1);
    }
}

/// The text `s` cut to `max` bytes: unchanged where it fits; otherwise
/// its characters that make up the first `max - 3` bytes, and `...`.
pub open spec fn cut_text(s: Seq<char>, max: int) -> Seq<char> {
    if utf8_len(s) <= max {
        s
    } else {
        s.take(choose|k: int| 0 <= k <= s.len() && utf8_len(#[trigger] s.take(k)) == max - 3) + "..."@
    }
}

/// Text cut to `max` bytes: unchanged where it fits; otherwise its first
/// `max - 3` bytes and `...`. The cut must fall on a character boundary.
pub fn truncate(s: &str, max: usize) -> (r: String)
    requires
        utf8_len(s@) <= max || (max >= 3 && is_char_boundary(s@, max - 3)),
    ensures
        r@ == cut_text(s@, max as int),
        utf8_len(s@) <= max ==> r@ == s@,
        utf8_len(s@) > max ==> exists|k: int|
            0 <= k <= s@.len() && utf8_len(#[trigger] s@.take(k)) == max - 3 && r@ == s@.take(k) + "..."@,
{
    let cs = chars_of(s);
    let n = cs.len();
    let mut total: u128 = 0;
    let mut i: usize = 0;
    assert(cs@.take(0) =~= Seq::<char>::empty());
    while i < n
        invariant
            i <= n,
            n == cs@.len(),
            total == utf8_len(cs@.take(i as int)),
            total <= 4 * i,
        decreases n - i,
    {
        assert(cs@.take(i + 1).drop_last() =~= cs@.take(i as int));
        total = total + width_of(cs[i]) as u128;
        i = i + 1;
    }
    assert(cs@.take(n as int) =~= cs@);
    if total <= max as u128 {
        return string_of(cs.as_slice());
    }
    let target: u128 = (max - 3) as u128;
    let mut b: u128 = 0;
    let mut j: usize = 0;
    while j < n && b < target
        invariant
            j <= n,
            n == cs@.len(),
            b == utf8_len(cs@.take(j as int)),
            b <= 4 * j,
            forall|x: int| 0 <= x < j ==> utf8_len(#[trigger] cs@.take(x)) < target,
        decreases n - j,
    {
        assert(cs@.take(j + 1).drop_last() =~= cs@.take(j as int));
        b = b + width_of(cs[j]) as u128;
        j = j + 1;
    }
    proof {
        let k = choose|k: int| 0 <= k <= s@.len() && utf8_len(#[trigger] s@.take(k)) == max - 3;
        if k < j {
            assert(utf8_len(cs@.take(k)) < target);
        } else if k > j {
            lemma_utf8_len_grows(cs@, j as int, k);
        }
        assert(k == j);
    }
    let mut r = string_of(crate::psplib::copy_range(cs.as_slice(), 0, j).as_slice());
    push_str(&mut r, "...");
    assert(cs@.take(j as int) =~= cs@.subrange(0, j as int));
    r
}

} // verus!
