//! Hover text for tasks: their plan, schedule, calendar impact, the effect
//! of their constraints, and the diagnostics that mention them.
use vstd::prelude::*;
use crate::date::{date_text, day_number, Date, MAX_YEAR};
use crate::diagnostic::{Diagnostic, DiagnosticCode};
use crate::project::{Calendar, Project, Task, TaskConstraint, ResourceRef};
use crate::schedule::{Schedule, ScheduledTask};
use crate::baseline::scheduled_index;
use crate::text::{decimal, signed_decimal};
use crate::text::{contains_seq, push_str};

verus! {

/// The icon shown for a diagnostic code, by the letter its code starts
/// with: E, W, H, L (leveling), C (calendar), anything else.
pub open spec fn icon_for(code: Seq<char>) -> Seq<char> {
    if code.len() > 0 && code[0] == 'E' {
        "🔴"@
    } else if code.len() > 0 && code[0] == 'W' {
        "🟡"@
    } else if code.len() > 0 && code[0] == 'H' {
        "💡"@
    } else if code.len() > 0 && code[0] == 'L' {
        "⚖️"@
    } else if code.len() > 0 && code[0] == 'C' {
        "📆"@
    } else {
        "ℹ️"@
    }
}

/// The icon for a diagnostic code in hover text.
pub fn diagnostic_icon(code: &DiagnosticCode) -> (r: &'static str)
    ensures
        r@ == icon_for(code.text()),
{
    let cs = crate::text::chars_of(code.as_str());
    let first = if cs.len() > 0 {
        cs[0]
    } else {
        ' '
    };
    if cs.len() > 0 && first == 'E' {
        "🔴"
    } else if cs.len() > 0 && first == 'W' {
        "🟡"
    } else if cs.len() > 0 && first == 'H' {
        "💡"
    } else if cs.len() > 0 && first == 'L' {
        "⚖️"
    } else if cs.len() > 0 && first == 'C' {
        "📆"
    } else {
        "ℹ️"
    }
}

/// The task id in single quotes, as diagnostics mention tasks.
pub open spec fn quoted(id: Seq<char>) -> Seq<char> {
    "'"@ + id + "'"@
}

/// Some note of the diagnostic mentions the text.
pub open spec fn note_mentions(d: Diagnostic, q: Seq<char>) -> bool {
    exists|i: int| 0 <= i < d.notes@.len() && contains_seq(#[trigger] d.notes@[i]@, q)
}

/// A diagnostic concerns the task `id`: for the codes that name a task,
/// its message mentions `'id'` (for L002 also one of its notes).
pub open spec fn mentions_task(d: Diagnostic, id: Seq<char>) -> bool {
    let q = quoted(id);
    match d.code {
        DiagnosticCode::C010NonWorkingDay | DiagnosticCode::C011CalendarMismatch | DiagnosticCode::H004TaskUnconstrained
        | DiagnosticCode::W001AbstractAssignment | DiagnosticCode::H001MixedAbstraction
        | DiagnosticCode::W014ContainerDependency | DiagnosticCode::L001OverallocationResolved
        | DiagnosticCode::L003DurationIncreased | DiagnosticCode::L004MilestoneDelayed => contains_seq(d.message@, q),
        DiagnosticCode::L002UnresolvableConflict => note_mentions(d, q) || contains_seq(d.message@, q),
        _ => false,
    }
}

fn quote(id: &str) -> (r: String)
    ensures
        r@ == quoted(id@),
{
    let mut r = String::new();
    push_str(&mut r, "'");
    push_str(&mut r, id);
    push_str(&mut r, "'");
    proof {
        reveal_strlit("'");
    }
    r
}

/// Whether a diagnostic concerns the task `task_id`.
pub fn is_diagnostic_for_task(diagnostic: &Diagnostic, task_id: &str) -> (r: bool)
    ensures
        r == mentions_task(*diagnostic, task_id@),
{
    let q = quote(task_id);
    match diagnostic.code {
        DiagnosticCode::C010NonWorkingDay | DiagnosticCode::C011CalendarMismatch | DiagnosticCode::H004TaskUnconstrained
        | DiagnosticCode::W001AbstractAssignment | DiagnosticCode::H001MixedAbstraction
        | DiagnosticCode::W014ContainerDependency | DiagnosticCode::L001OverallocationResolved
        | DiagnosticCode::L003DurationIncreased | DiagnosticCode::L004MilestoneDelayed => crate::text::str_contains(
            diagnostic.message.as_str(),
            q.as_str(),
        ),
        DiagnosticCode::L002UnresolvableConflict => {
            let mut i: usize = 0;
            while i < diagnostic.notes.len()
                invariant
                    diagnostic.code == DiagnosticCode::L002UnresolvableConflict,
                    q@ == quoted(task_id@),
                    i <= diagnostic.notes@.len(),
                    forall|j: int| 0 <= j < i ==> !contains_seq(#[trigger] diagnostic.notes@[j]@, q@),
                decreases diagnostic.notes@.len() - i,
            {
                if crate::text::str_contains(diagnostic.notes[i].as_str(), q.as_str()) {
                    assert(contains_seq(diagnostic.notes@[i as int]@, q@));
                    assert(note_mentions(*diagnostic, quoted(task_id@)));
                    return true;
                }
                i = i + 1;
            }
            crate::text::str_contains(diagnostic.message.as_str(), q.as_str())
        },
        _ => false,
    }
}

/// The codes of the diagnostics that concern the task, in order.
pub open spec fn task_codes(ds: Seq<Diagnostic>, id: Seq<char>) -> Seq<DiagnosticCode>
    decreases ds.len(),
{
    if ds.len() == 0 {
        Seq::empty()
    } else {
        let rest = task_codes(ds.drop_last(), id);
        if mentions_task(ds.last(), id) {
            rest.push(ds.last().code)
        } else {
            rest
        }
    }
}

/// The codes of the diagnostics that concern the task `task_id`.
pub fn filter_task_diagnostics(task_id: &str, diagnostics: &[Diagnostic]) -> (r: Vec<DiagnosticCode>)
    ensures
        r@ == task_codes(diagnostics@, task_id@),
{
    let mut r: Vec<DiagnosticCode> = Vec::new();
    let mut i: usize = 0;
    while i < diagnostics.len()
        invariant
            i <= diagnostics@.len(),
            r@ == task_codes(diagnostics@.take(i as int), task_id@),
        decreases diagnostics@.len() - i,
    {
        assert(diagnostics@.take(i + 1).drop_last() =~= diagnostics@.take(i as int));
        if is_diagnostic_for_task(&diagnostics[i], task_id) {
            r.push(diagnostics[i].code);
        }
        i = i + 1;
    }
    assert(diagnostics@.take(diagnostics@.len() as int) =~= diagnostics@);
    r
}

/// How a calendar classifies day number `n`: 0 a holiday, 1 a non-working
/// day of the week, 2 a working day.
pub open spec fn day_class(cal: Calendar, n: int) -> int {
    class_of_day(cal.holidays@, cal.working_days@, n)
}

/// How holidays and working days of the week classify day number `n`
/// (see `day_class`).
pub open spec fn class_of_day(holidays: Seq<crate::project::Holiday>, working_days: Seq<u8>, n: int) -> int {
    if exists|i: int|
        0 <= i < holidays.len() && #[trigger] holidays[i].start.ordinal() <= n <= holidays[i].end.ordinal() {
        0
    } else if !working_days.contains((n % 7) as u8) {
        1
    } else {
        2
    }
}

/// Number of days from day number `s` to `f`, both included, of class `c`.
pub open spec fn count_days(cal: Calendar, s: int, f: int, c: int) -> nat
    decreases f - s + 1,
{
    if f < s {
        0
    } else {
        count_days(cal, s, f - 1, c) + if day_class(cal, f) == c {
            1nat
        } else {
            0nat
        }
    }
}

/// The days from `start` to `finish`, both included, counted as working,
/// weekend (non-working day of the week) and holiday days.
pub fn calculate_calendar_impact(start: Date, finish: Date, calendar: &Calendar) -> (r: (u32, u32, u32))
    requires
        start.wf(),
        finish.wf(),
        calendar.wf(),
        finish.ordinal() < day_number(MAX_YEAR as int, 12, 31),
    ensures
        r.0 == count_days(*calendar, start.ordinal(), finish.ordinal(), 2),
        r.1 == count_days(*calendar, start.ordinal(), finish.ordinal(), 1),
        r.2 == count_days(*calendar, start.ordinal(), finish.ordinal(), 0),
{
    if start.is_after(&finish) {
        return (0, 0, 0);
    }
    let mut working: u32 = 0;
    let mut weekend: u32 = 0;
    let mut holiday: u32 = 0;
    let mut current = start;
    proof {
        lemma_ordinal_bounds(start);
        lemma_ordinal_bounds(finish);
    }
    while !current.is_after(&finish)
        invariant
            current.wf(),
            finish.wf(),
            calendar.wf(),
            finish.ordinal() < day_number(MAX_YEAR as int, 12, 31),
            start.ordinal() <= current.ordinal() <= finish.ordinal() + 1,
            -100000000 <= start.ordinal() && finish.ordinal() <= 100000000,
            working == count_days(*calendar, start.ordinal(), current.ordinal() - 1, 2),
            weekend == count_days(*calendar, start.ordinal(), current.ordinal() - 1, 1),
            holiday == count_days(*calendar, start.ordinal(), current.ordinal() - 1, 0),
            working + weekend + holiday == current.ordinal() - start.ordinal(),
        decreases finish.ordinal() + 1 - current.ordinal(),
    {
        let weekday = current.weekday_from_sunday() as u8;
        let mut is_holiday = false;
        let mut i: usize = 0;
        while i < calendar.holidays.len()
            invariant
                calendar.wf(),
                current.wf(),
                i <= calendar.holidays@.len(),
                is_holiday == exists|j: int|
                    0 <= j < i && #[trigger] calendar.holidays@[j].start.ordinal() <= current.ordinal()
                        <= calendar.holidays@[j].end.ordinal(),
            decreases calendar.holidays@.len() - i,
        {
            assert(calendar.holidays@[i as int].start.wf() && calendar.holidays@[i as int].end.wf());
            if calendar.holidays[i].contains(current) {
                is_holiday = true;
            }
            i = i + 1;
        }
        let mut works = false;
        let mut k: usize = 0;
        while k < calendar.working_days.len()
            invariant
                k <= calendar.working_days@.len(),
                works == exists|j: int| 0 <= j < k && calendar.working_days@[j] == weekday,
            decreases calendar.working_days@.len() - k,
        {
            if calendar.working_days[k] == weekday {
                works = true;
            }
            k = k + 1;
        }
        proof {
            if works {
                let j = choose|j: int| 0 <= j < k && calendar.working_days@[j] == weekday;
                assert(calendar.working_days@.contains(weekday));
            }
        }
        if is_holiday {
            holiday = holiday + 1;
        } else if !works {
            weekend = weekend + 1;
        } else {
            working = working + 1;
        }
        match current.succ() {
            Some(next) => {
                current = next;
            },
            None => {
                assert(false);
            },
        }
    }
    (working, weekend, holiday)
}

proof fn lemma_ordinal_bounds(d: Date)
    requires
        d.wf(),
    ensures
        -100000000 <= d.ordinal() <= 100000000,
{
    let p = d.year as int - 1;
    assert(-262144 <= p <= 262141);
    assert(-65536 <= p / 4 <= 65535);
    assert(-2622 <= p / 100 <= 2621);
    assert(-656 <= p / 400 <= 655);
    assert(0 <= crate::date::days_before_month(d.year as int, d.month as int) <= 335);
}

/// The text of a date.
pub open spec fn dtext(d: Date) -> Seq<char> {
    date_text(d.year, d.month, d.day)
}

/// The keyword of a constraint and its date.
pub open spec fn constraint_parts(c: TaskConstraint) -> (Seq<char>, Date) {
    match c {
        TaskConstraint::MustStartOn(d) => ("must_start_on"@, d),
        TaskConstraint::MustFinishOn(d) => ("must_finish_on"@, d),
        TaskConstraint::StartNoEarlierThan(d) => ("start_no_earlier_than"@, d),
        TaskConstraint::StartNoLaterThan(d) => ("start_no_later_than"@, d),
        TaskConstraint::FinishNoEarlierThan(d) => ("finish_no_earlier_than"@, d),
        TaskConstraint::FinishNoLaterThan(d) => ("finish_no_later_than"@, d),
    }
}

/// A constraint as text, e.g. `start_no_earlier_than: 2025-01-13`.
pub open spec fn constraint_text(c: TaskConstraint) -> Seq<char> {
    constraint_parts(c).0 + ": "@ + dtext(constraint_parts(c).1)
}

/// The date of a constraint is valid.
pub open spec fn constraint_wf(c: TaskConstraint) -> bool {
    constraint_parts(c).1.wf()
}

fn constraint_name(c: &TaskConstraint) -> (r: (&'static str, Date))
    ensures
        r.0@ == constraint_parts(*c).0,
        r.1 == constraint_parts(*c).1,
{
    match c {
        TaskConstraint::MustStartOn(d) => ("must_start_on", *d),
        TaskConstraint::MustFinishOn(d) => ("must_finish_on", *d),
        TaskConstraint::StartNoEarlierThan(d) => ("start_no_earlier_than", *d),
        TaskConstraint::StartNoLaterThan(d) => ("start_no_later_than", *d),
        TaskConstraint::FinishNoEarlierThan(d) => ("finish_no_earlier_than", *d),
        TaskConstraint::FinishNoLaterThan(d) => ("finish_no_later_than", *d),
    }
}

/// A constraint as text, e.g. `start_no_earlier_than: 2025-01-13`.
pub fn format_constraint(constraint: &TaskConstraint) -> (r: String)
    requires
        constraint_wf(*constraint),
    ensures
        r@ == constraint_text(*constraint),
{
    let (name, d) = constraint_name(constraint);
    let mut r = String::new();
    push_str(&mut r, name);
    push_str(&mut r, ": ");
    let t = d.to_text();
    push_str(&mut r, t.as_str());
    proof {
        reveal_strlit(": ");
    }
    r
}

/// One line of constraint effects: icon, the constraint in backquotes, a
/// dash and the explanation.
pub open spec fn effect_form(icon: Seq<char>, c: TaskConstraint, tail: Seq<char>) -> Seq<char> {
    icon + " `"@ + constraint_text(c) + "` — "@ + tail
}

/// What a constraint did to the scheduled task: pinned it, pushed or
/// capped one of its dates, was superseded, redundant, or made it critical.
/// Starts compare with the scheduled start and late start, finishes with
/// the scheduled finish and late finish.
pub open spec fn effect_text(c: TaskConstraint, st: ScheduledTask) -> Seq<char> {
    let es = st.start;
    let ef = st.finish;
    let ls = st.late_start;
    let lf = st.late_finish;
    match c {
        TaskConstraint::MustStartOn(d) => if es == d && ls == d {
            effect_form("📌"@, c, "Task pinned to this date"@)
        } else if es == d {
            effect_form("✓"@, c, "Pushed early start"@)
        } else if es.ordinal() > d.ordinal() {
            effect_form("⚠️"@, c, "Superseded by dependencies (ES="@ + dtext(es) + ")"@)
        } else {
            effect_form("✓"@, c, "Capped late start"@)
        },
        TaskConstraint::MustFinishOn(d) => if ef == d && lf == d {
            effect_form("📌"@, c, "Task pinned to this date"@)
        } else if ef == d {
            effect_form("✓"@, c, "Pushed early finish"@)
        } else if ef.ordinal() > d.ordinal() {
            effect_form("⚠️"@, c, "Superseded by dependencies (EF="@ + dtext(ef) + ")"@)
        } else {
            effect_form("✓"@, c, "Capped late finish"@)
        },
        TaskConstraint::StartNoEarlierThan(d) => if es == d {
            effect_form("✓"@, c, "Task starts on boundary"@)
        } else if es.ordinal() > d.ordinal() {
            effect_form("○"@, c, "Redundant (ES="@ + dtext(es) + ")"@)
        } else {
            effect_form("✓"@, c, "Pushed early start"@)
        },
        TaskConstraint::StartNoLaterThan(d) => if ls == d {
            if st.slack.minutes == 0 {
                effect_form("🔴"@, c, "Made task critical"@)
            } else {
                effect_form("✓"@, c, "Capped late start"@)
            }
        } else if ls.ordinal() < d.ordinal() {
            effect_form("○"@, c, "Redundant (LS="@ + dtext(ls) + ")"@)
        } else {
            effect_form("✓"@, c, "Caps late start"@)
        },
        TaskConstraint::FinishNoEarlierThan(d) => if ef == d {
            effect_form("✓"@, c, "Task finishes on boundary"@)
        } else if ef.ordinal() > d.ordinal() {
            effect_form("○"@, c, "Redundant (EF="@ + dtext(ef) + ")"@)
        } else {
            effect_form("✓"@, c, "Pushed early finish"@)
        },
        TaskConstraint::FinishNoLaterThan(d) => if lf == d {
            if st.slack.minutes == 0 {
                effect_form("🔴"@, c, "Made task critical"@)
            } else {
                effect_form("✓"@, c, "Capped late finish"@)
            }
        } else if lf.ordinal() < d.ordinal() {
            effect_form("○"@, c, "Redundant (LF="@ + dtext(lf) + ")"@)
        } else {
            effect_form("✓"@, c, "Caps late finish"@)
        },
    }
}

/// The schedule already keeps the constraint with room to spare: the
/// early start or finish lies after a no-earlier-than date, or the late
/// start or finish lies before a no-later-than date.
pub open spec fn constraint_redundant(c: TaskConstraint, st: ScheduledTask) -> bool {
    match c {
        TaskConstraint::StartNoEarlierThan(d) => st.start.ordinal() > d.ordinal(),
        TaskConstraint::FinishNoEarlierThan(d) => st.finish.ordinal() > d.ordinal(),
        TaskConstraint::StartNoLaterThan(d) => st.late_start.ordinal() < d.ordinal(),
        TaskConstraint::FinishNoLaterThan(d) => st.late_finish.ordinal() < d.ordinal(),
        _ => false,
    }
}

/// A constraint's effect is marked redundant (`○`) exactly when the
/// schedule keeps it with room to spare; a no-later-than date before the
/// late date caps it (`✓`); a no-later-than date on the late date of a
/// task without slack makes the task critical (`🔴`); a must-start-on or
/// must-finish-on date pins the task (`📌`) exactly when both its early and
/// late dates fall on it, and is superseded (`⚠`) when dependencies push
/// the task past it; a no-earlier-than date after the early date pushes
/// the task (`✓`).
pub proof fn lemma_constraint_effect_marks(c: TaskConstraint, st: ScheduledTask)
    ensures
        effect_text(c, st).len() > 0,
        (effect_text(c, st)[0] == '○') <==> constraint_redundant(c, st),
        c matches TaskConstraint::FinishNoLaterThan(d) && d.ordinal() < st.late_finish.ordinal() ==> effect_text(
            c,
            st,
        )[0] == '✓',
        c matches TaskConstraint::StartNoLaterThan(d) && d.ordinal() < st.late_start.ordinal() ==> effect_text(
            c,
            st,
        )[0] == '✓',
        c matches TaskConstraint::FinishNoLaterThan(d) && d == st.late_finish && st.slack.minutes == 0
            ==> effect_text(c, st)[0] == '🔴',
        c matches TaskConstraint::StartNoLaterThan(d) && d == st.late_start && st.slack.minutes == 0
            ==> effect_text(c, st)[0] == '🔴',
        c matches TaskConstraint::MustStartOn(d) ==> ((effect_text(c, st)[0] == '📌') <==> (st.start == d
            && st.late_start == d)),
        c matches TaskConstraint::MustFinishOn(d) ==> ((effect_text(c, st)[0] == '📌') <==> (st.finish == d
            && st.late_finish == d)),
        c matches TaskConstraint::MustStartOn(d) && st.start.ordinal() > d.ordinal() ==> effect_text(c, st)[0]
            == '⚠',
        c matches TaskConstraint::MustFinishOn(d) && st.finish.ordinal() > d.ordinal() ==> effect_text(c, st)[0]
            == '⚠',
        c matches TaskConstraint::StartNoEarlierThan(d) && st.start.ordinal() < d.ordinal() ==> effect_text(
            c,
            st,
        )[0] == '✓',
        c matches TaskConstraint::FinishNoEarlierThan(d) && st.finish.ordinal() < d.ordinal() ==> effect_text(
            c,
            st,
        )[0] == '✓',
{
    reveal_strlit("📌");
    reveal_strlit("✓");
    reveal_strlit("⚠️");
    reveal_strlit("○");
    reveal_strlit("🔴");
    let t = effect_text(c, st);
    match c {
        TaskConstraint::MustStartOn(d) => {},
        TaskConstraint::MustFinishOn(d) => {},
        TaskConstraint::StartNoEarlierThan(d) => {},
        TaskConstraint::StartNoLaterThan(d) => {},
        TaskConstraint::FinishNoEarlierThan(d) => {},
        TaskConstraint::FinishNoLaterThan(d) => {},
    }
}

fn effect_line(icon: &str, c: &TaskConstraint, tail: &str, extra: Option<Date>) -> (r: String)
    requires
        constraint_wf(*c),
        extra matches Some(d) ==> d.wf(),
    ensures
        r@ == effect_form(icon@, *c, match extra {
            Some(d) => tail@ + dtext(d) + ")"@,
            None => tail@,
        }),
{
    let mut r = String::new();
    push_str(&mut r, icon);
    push_str(&mut r, " `");
    let ct = format_constraint(c);
    push_str(&mut r, ct.as_str());
    push_str(&mut r, "` — ");
    push_str(&mut r, tail);
    match extra {
        Some(d) => {
            let t = d.to_text();
            push_str(&mut r, t.as_str());
            push_str(&mut r, ")");
        },
        None => {},
    }
    proof {
        reveal_strlit(" `");
        reveal_strlit("` — ");
        reveal_strlit(")");
    }
    r
}

/// The dates a constraint effect reads are valid.
pub open spec fn effect_dates_wf(st: ScheduledTask) -> bool {
    st.start.wf() && st.finish.wf() && st.late_start.wf() && st.late_finish.wf()
}

fn effect_of(c: &TaskConstraint, st: &ScheduledTask) -> (r: String)
    requires
        constraint_wf(*c),
        effect_dates_wf(*st),
    ensures
        r@ == effect_text(*c, *st),
{
    let es = st.start;
    let ef = st.finish;
    let ls = st.late_start;
    let lf = st.late_finish;
    match c {
        TaskConstraint::MustStartOn(d) => if es == *d && ls == *d {
            effect_line("📌", c, "Task pinned to this date", None)
        } else if es == *d {
            effect_line("✓", c, "Pushed early start", None)
        } else if es.is_after(d) {
            effect_line("⚠️", c, "Superseded by dependencies (ES=", Some(es))
        } else {
            effect_line("✓", c, "Capped late start", None)
        },
        TaskConstraint::MustFinishOn(d) => if ef == *d && lf == *d {
            effect_line("📌", c, "Task pinned to this date", None)
        } else if ef == *d {
            effect_line("✓", c, "Pushed early finish", None)
        } else if ef.is_after(d) {
            effect_line("⚠️", c, "Superseded by dependencies (EF=", Some(ef))
        } else {
            effect_line("✓", c, "Capped late finish", None)
        },
        TaskConstraint::StartNoEarlierThan(d) => if es == *d {
            effect_line("✓", c, "Task starts on boundary", None)
        } else if es.is_after(d) {
            effect_line("○", c, "Redundant (ES=", Some(es))
        } else {
            effect_line("✓", c, "Pushed early start", None)
        },
        TaskConstraint::StartNoLaterThan(d) => if ls == *d {
            if st.slack.minutes == 0 {
                effect_line("🔴", c, "Made task critical", None)
            } else {
                effect_line("✓", c, "Capped late start", None)
            }
        } else if d.is_after(&ls) {
            effect_line("○", c, "Redundant (LS=", Some(ls))
        } else {
            effect_line("✓", c, "Caps late start", None)
        },
        TaskConstraint::FinishNoEarlierThan(d) => if ef == *d {
            effect_line("✓", c, "Task finishes on boundary", None)
        } else if ef.is_after(d) {
            effect_line("○", c, "Redundant (EF=", Some(ef))
        } else {
            effect_line("✓", c, "Pushed early finish", None)
        },
        TaskConstraint::FinishNoLaterThan(d) => if lf == *d {
            if st.slack.minutes == 0 {
                effect_line("🔴", c, "Made task critical", None)
            } else {
                effect_line("✓", c, "Capped late finish", None)
            }
        } else if d.is_after(&lf) {
            effect_line("○", c, "Redundant (LF=", Some(lf))
        } else {
            effect_line("✓", c, "Caps late finish", None)
        },
    }
}

/// Every constraint date of the task is valid.
pub open spec fn constraints_wf(t: Task) -> bool {
    forall|i: int| 0 <= i < t.constraints@.len() ==> constraint_wf(#[trigger] t.constraints@[i])
}

/// The effect of each constraint of the task on its schedule, in order
/// (see `effect_text`).
pub fn analyze_constraint_effects(task: &Task, scheduled: &ScheduledTask) -> (r: Vec<String>)
    requires
        constraints_wf(*task),
        effect_dates_wf(*scheduled),
    ensures
        r@.len() == task.constraints@.len(),
        forall|i: int| 0 <= i < r@.len() ==> #[trigger] r@[i]@ == effect_text(task.constraints@[i], *scheduled),
{
    let mut effects: Vec<String> = Vec::new();
    let mut i: usize = 0;
    while i < task.constraints.len()
        invariant
            constraints_wf(*task),
            effect_dates_wf(*scheduled),
            i <= task.constraints@.len(),
            effects@.len() == i,
            forall|k: int| 0 <= k < i ==> #[trigger] effects@[k]@ == effect_text(task.constraints@[k], *scheduled),
        decreases task.constraints@.len() - i,
    {
        assert(constraint_wf(task.constraints@[i as int]));
        let e = effect_of(&task.constraints[i], scheduled);
        effects.push(e);
        i = i + 1;
    }
    effects
}

/// Lines joined with a separator between them.
pub open spec fn join_with(ls: Seq<Seq<char>>, sep: Seq<char>) -> Seq<char>
    decreases ls.len(),
{
    if ls.len() == 0 {
        Seq::empty()
    } else if ls.len() == 1 {
        ls[0]
    } else {
        join_with(ls.drop_last(), sep) + sep + ls.last()
    }
}

/// The texts of a list of strings.
pub open spec fn views(v: Seq<String>) -> Seq<Seq<char>> {
    v.map_values(|x: String| x@)
}

/// Joins strings with a separator between them.
pub fn join_strings(v: &Vec<String>, sep: &str) -> (r: String)
    ensures
        r@ == join_with(views(v@), sep@),
{
    let mut r = String::new();
    let mut i: usize = 0;
    while i < v.len()
        invariant
            i <= v@.len(),
            r@ == join_with(views(v@.take(i as int)), sep@),
        decreases v@.len() - i,
    {
        assert(views(v@.take(i + 1)).drop_last() =~= views(v@.take(i as int)));
        assert(views(v@.take(i + 1)).last() == v@[i as int]@);
        if i > 0 {
            push_str(&mut r, sep);
        } else {
            assert(views(v@.take(0)) =~= Seq::<Seq<char>>::empty());
        }
        push_str(&mut r, v[i].as_str());
        i = i + 1;
    }
    assert(v@.take(v@.len() as int) =~= v@);
    r
}

/// Quotient rounded toward zero, as a float division cast to an integer.
pub open spec fn trunc_div(m: int, d: int) -> int
    recommends
        d > 0,
{
    if m >= 0 {
        m / d
    } else {
        -((-m) / d)
    }
}

pub(crate) fn whole_days(d: crate::model::Duration) -> (r: i64)
    ensures
        r == trunc_div(d.minutes as int, 480),
{
    d.minutes / 480
}

/// An assignment as shown: the resource, with `@N%` unless fully allocated.
pub open spec fn assignment_text(a: ResourceRef) -> Seq<char> {
    if a.units_percent == 100 {
        a.resource_id@
    } else {
        a.resource_id@ + "@"@ + decimal(a.units_percent as nat) + "%"@
    }
}

/// The heading and name lines of a task's hover.
pub open spec fn plan_head(task: Task) -> Seq<Seq<char>> {
    seq!["**Task: "@ + task.id@ + "**"@] + (if task.name@ != task.id@ {
        seq!["Name: "@ + task.name@]
    } else {
        Seq::empty()
    })
}

/// The type line of a task's hover.
pub open spec fn plan_type(task: Task) -> Seq<Seq<char>> {
    if task.milestone {
        seq!["Type: Milestone"@]
    } else if task.children@.len() > 0 {
        seq!["Type: Container ("@ + decimal(task.children@.len()) + " children)"@]
    } else {
        Seq::empty()
    }
}

/// A "label N days" line for an optional duration.
pub open spec fn days_line(label: Seq<char>, d: Option<crate::model::Duration>) -> Seq<Seq<char>> {
    match d {
        Some(x) => seq![label + signed_decimal(trunc_div(x.minutes as int, 480)) + " days"@],
        None => Seq::empty(),
    }
}

/// A "label a, b, c" line, absent for an empty list.
pub open spec fn list_line(label: Seq<char>, items: Seq<Seq<char>>) -> Seq<Seq<char>> {
    if items.len() > 0 {
        seq![label + join_with(items, ", "@)]
    } else {
        Seq::empty()
    }
}

/// The progress line of a task's hover.
pub open spec fn plan_progress(task: Task) -> Seq<Seq<char>> {
    match task.complete {
        Some(c) => if c > 0 {
            seq!["Progress: "@ + signed_decimal(c as int) + "%"@]
        } else {
            Seq::empty()
        },
        None => Seq::empty(),
    }
}

/// The plan part of a task's hover: id, name, type, duration, effort,
/// assignments, dependencies, constraints and progress.
pub open spec fn plan_lines(task: Task) -> Seq<Seq<char>> {
    plan_head(task) + plan_type(task) + days_line("Duration: "@, task.duration) + days_line("Effort: "@, task.effort)
        + list_line("Assigned: "@, task.assigned@.map_values(|a: ResourceRef| assignment_text(a))) + list_line(
        "Depends on: "@,
        task.depends@.map_values(|d: crate::model::Dependency| d.predecessor@),
    ) + list_line("Constraints: "@, task.constraints@.map_values(|c: TaskConstraint| constraint_text(c)))
        + plan_progress(task)
}

/// The scheduled task for `task_id`, else for the task's own id.
pub open spec fn scheduled_for(schedule: Schedule, task_id: Seq<char>, own_id: Seq<char>) -> Option<ScheduledTask> {
    match scheduled_index(schedule.tasks@, task_id) {
        Some(k) => Some(schedule.tasks@[k]),
        None => match scheduled_index(schedule.tasks@, own_id) {
            Some(k) => Some(schedule.tasks@[k]),
            None => None,
        },
    }
}

/// The first calendar with id `id`.
pub open spec fn first_calendar(cs: Seq<Calendar>, id: Seq<char>) -> Option<Calendar>
    decreases cs.len(),
{
    if cs.len() == 0 {
        None
    } else if cs[0].id@ == id {
        Some(cs[0])
    } else {
        first_calendar(cs.drop_first(), id)
    }
}

/// Days from `s` to `f`, both included, of class `c` under the given
/// holidays and working days.
pub open spec fn count_class(holidays: Seq<crate::project::Holiday>, working_days: Seq<u8>, s: int, f: int, c: int) -> nat
    decreases f - s + 1,
{
    if f < s {
        0
    } else {
        count_class(holidays, working_days, s, f - 1, c) + if class_of_day(holidays, working_days, f) == c {
            1nat
        } else {
            0nat
        }
    }
}

/// Working, weekend and holiday days of the scheduled span under the
/// project's calendar (the standard one, Monday to Friday without
/// holidays, when the project names no calendar it has).
pub open spec fn impact_of(project: Project, st: ScheduledTask) -> (nat, nat, nat) {
    let (h, w) = match first_calendar(project.calendars@, project.calendar@) {
        Some(c) => (c.holidays@, c.working_days@),
        None => (Seq::empty(), seq![1u8, 2u8, 3u8, 4u8, 5u8]),
    };
    let s = st.start.ordinal();
    let f = st.finish.ordinal();
    (count_class(h, w, s, f, 2), count_class(h, w, s, f, 1), count_class(h, w, s, f, 0))
}

/// The calendar-impact lines: shown when the span has weekend or holiday
/// days.
pub open spec fn impact_lines(counts: (nat, nat, nat)) -> Seq<Seq<char>> {
    let (w, we, h) = counts;
    if we > 0 || h > 0 {
        let parts = (if we > 0 {
            seq![decimal(we) + " weekend days"@]
        } else {
            Seq::empty()
        }) + (if h > 0 {
            seq![decimal(h) + " holidays"@]
        } else {
            Seq::empty()
        });
        seq!["---"@, "**📆 Calendar Impact:**"@, "• "@ + decimal(w) + " working days, "@ + join_with(parts, ", "@)]
    } else {
        Seq::empty()
    }
}

/// The schedule part of a task's hover.
pub open spec fn schedule_lines(task: Task, st: ScheduledTask, project: Project) -> Seq<Seq<char>> {
    let slack_days = trunc_div(st.slack.minutes as int, 480);
    seq![
        "---"@,
        "📅 **Schedule:** "@ + dtext(st.start) + " → "@ + dtext(st.finish),
        "⏱️ Duration: "@ + signed_decimal(trunc_div(st.duration.minutes as int, 480)) + " days"@,
    ] + (if st.is_critical {
        seq!["🔴 **Critical Path** (0 days slack)"@]
    } else if slack_days > 0 {
        seq!["🟢 Slack: "@ + signed_decimal(slack_days) + " days"@]
    } else {
        Seq::empty()
    }) + impact_lines(impact_of(project, st)) + (if task.constraints@.len() > 0 {
        seq!["---"@, "**Constraint Effects:**"@] + task.constraints@.map_values(|c: TaskConstraint| effect_text(c, st))
    } else {
        Seq::empty()
    })
}

/// The diagnostics part of a task's hover.
pub open spec fn diagnostic_lines(codes: Seq<DiagnosticCode>) -> Seq<Seq<char>> {
    if codes.len() > 0 {
        seq!["---"@, "**⚠️ Diagnostics:**"@] + codes.map_values(
            |c: DiagnosticCode| "• "@ + icon_for(c.text()) + " `"@ + c.text() + "`"@,
        )
    } else {
        Seq::empty()
    }
}

/// All lines of a task's hover.
pub open spec fn task_hover_lines(
    task: Task,
    task_id: Seq<char>,
    project: Project,
    schedule: Option<Schedule>,
    diagnostics: Seq<Diagnostic>,
) -> Seq<Seq<char>> {
    plan_lines(task) + (match schedule {
        Some(sched) => match scheduled_for(sched, task_id, task.id@) {
            Some(st) => schedule_lines(task, st, project),
            None => Seq::empty(),
        },
        None => Seq::empty(),
    }) + diagnostic_lines(task_codes(diagnostics, task_id))
}

/// What the hover of a task reads is valid: calendars, constraint dates,
/// and the dates of scheduled tasks, which finish before the last day
/// chrono represents.
pub open spec fn hover_inputs_wf(task: Task, project: Project, schedule: Option<Schedule>) -> bool {
    &&& constraints_wf(task)
    &&& forall|i: int| 0 <= i < project.calendars@.len() ==> (#[trigger] project.calendars@[i]).wf()
    &&& match schedule {
        Some(s) => s.wf() && forall|i: int|
            0 <= i < s.tasks@.len() ==> effect_dates_wf(#[trigger] s.tasks@[i]) && s.tasks@[i].finish.ordinal()
                < day_number(MAX_YEAR as int, 12, 31),
        None => true,
    }
}

fn push_line(lines: &mut Vec<String>, s: String)
    ensures
        views(final(lines)@) == views(old(lines)@).push(s@),
{
    let ghost before = views(lines@);
    lines.push(s);
    assert(views(lines@) =~= before.push(s@));
}

fn text2(a: &str, b: &str) -> (r: String)
    ensures
        r@ == a@ + b@,
{
    let mut r = String::new();
    push_str(&mut r, a);
    push_str(&mut r, b);
    r
}

fn text3(a: &str, b: &str, c: &str) -> (r: String)
    ensures
        r@ == a@ + b@ + c@,
{
    let mut r = String::new();
    push_str(&mut r, a);
    push_str(&mut r, b);
    push_str(&mut r, c);
    r
}

fn assignment_string(a: &ResourceRef) -> (r: String)
    ensures
        r@ == assignment_text(*a),
{
    if a.units_percent == 100 {
        a.resource_id.clone()
    } else {
        let n = crate::text::u64_to_string(a.units_percent as u64);
        let mut r = a.resource_id.clone();
        push_str(&mut r, "@");
        push_str(&mut r, n.as_str());
        push_str(&mut r, "%");
        proof {
            reveal_strlit("@");
            reveal_strlit("%");
        }
        r
    }
}

fn push_lines(lines: &mut Vec<String>, more: Vec<String>)
    ensures
        views(final(lines)@) == views(old(lines)@) + views(more@),
{
    let ghost start = views(lines@);
    let mut i: usize = 0;
    while i < more.len()
        invariant
            i <= more@.len(),
            views(lines@) == start + views(more@.take(i as int)),
        decreases more@.len() - i,
    {
        let ghost before = views(lines@);
        lines.push(more[i].clone());
        assert(views(lines@) =~= before.push(more@[i as int]@));
        assert(views(more@.take(i + 1)) =~= views(more@.take(i as int)).push(more@[i as int]@));
        i = i + 1;
    }
    assert(more@.take(more@.len() as int) =~= more@);
}

fn head_part(task: &Task) -> (r: Vec<String>)
    ensures
        views(r@) == plan_head(*task),
{
    let mut lines: Vec<String> = Vec::new();
    proof {
        reveal_strlit("**Task: ");
        reveal_strlit("**");
        reveal_strlit("Name: ");
    }
    push_line(&mut lines, text3("**Task: ", task.id.as_str(), "**"));
    if !crate::text::str_eq(task.name.as_str(), task.id.as_str()) {
        push_line(&mut lines, text2("Name: ", task.name.as_str()));
    }
    lines
}

fn type_part(task: &Task) -> (r: Vec<String>)
    ensures
        views(r@) == plan_type(*task),
{
    let mut lines: Vec<String> = Vec::new();
    proof {
        reveal_strlit("Type: Milestone");
        reveal_strlit("Type: Container (");
        reveal_strlit(" children)");
    }
    if task.milestone {
        push_line(&mut lines, "Type: Milestone".to_owned());
    } else if task.children.len() > 0 {
        let n = crate::text::u64_to_string(task.children.len() as u64);
        push_line(&mut lines, text3("Type: Container (", n.as_str(), " children)"));
    }
    lines
}

fn days_part(label: &str, d: Option<crate::model::Duration>) -> (r: Vec<String>)
    ensures
        views(r@) == days_line(label@, d),
{
    let mut lines: Vec<String> = Vec::new();
    proof {
        reveal_strlit(" days");
    }
    if let Some(x) = d {
        let n = crate::text::i64_to_string(whole_days(x));
        push_line(&mut lines, text3(label, n.as_str(), " days"));
    }
    lines
}

fn list_part(label: &str, items: &Vec<String>) -> (r: Vec<String>)
    ensures
        views(r@) == list_line(label@, views(items@)),
{
    let mut lines: Vec<String> = Vec::new();
    proof {
        reveal_strlit(", ");
    }
    if items.len() > 0 {
        let joined = join_strings(items, ", ");
        push_line(&mut lines, text2(label, joined.as_str()));
    }
    lines
}

fn progress_part(task: &Task) -> (r: Vec<String>)
    ensures
        views(r@) == plan_progress(*task),
{
    let mut lines: Vec<String> = Vec::new();
    proof {
        reveal_strlit("Progress: ");
        reveal_strlit("%");
    }
    if let Some(c) = task.complete {
        if c > 0 {
            let n = crate::text::i64_to_string(c as i64);
            push_line(&mut lines, text3("Progress: ", n.as_str(), "%"));
        }
    }
    lines
}

fn assignment_strings(task: &Task) -> (r: Vec<String>)
    ensures
        views(r@) == task.assigned@.map_values(|a: ResourceRef| assignment_text(a)),
{
    let mut parts: Vec<String> = Vec::new();
    let mut i: usize = 0;
    while i < task.assigned.len()
        invariant
            i <= task.assigned@.len(),
            views(parts@) == task.assigned@.take(i as int).map_values(|a: ResourceRef| assignment_text(a)),
        decreases task.assigned@.len() - i,
    {
        let ghost before = views(parts@);
        parts.push(assignment_string(&task.assigned[i]));
        assert(views(parts@) =~= before.push(assignment_text(task.assigned@[i as int])));
        assert(task.assigned@.take(i + 1).map_values(|a: ResourceRef| assignment_text(a)) =~= task.assigned@.take(
            i as int,
        ).map_values(|a: ResourceRef| assignment_text(a)).push(assignment_text(task.assigned@[i as int])));
        i = i + 1;
    }
    assert(task.assigned@.take(task.assigned@.len() as int) =~= task.assigned@);
    parts
}

fn predecessor_strings(task: &Task) -> (r: Vec<String>)
    ensures
        views(r@) == task.depends@.map_values(|d: crate::model::Dependency| d.predecessor@),
{
    let mut parts: Vec<String> = Vec::new();
    let mut i: usize = 0;
    while i < task.depends.len()
        invariant
            i <= task.depends@.len(),
            views(parts@) == task.depends@.take(i as int).map_values(|d: crate::model::Dependency| d.predecessor@),
        decreases task.depends@.len() - i,
    {
        let ghost before = views(parts@);
        parts.push(task.depends[i].predecessor.clone());
        assert(views(parts@) =~= before.push(task.depends@[i as int].predecessor@));
        assert(task.depends@.take(i + 1).map_values(|d: crate::model::Dependency| d.predecessor@) =~= task.depends@.take(
            i as int,
        ).map_values(|d: crate::model::Dependency| d.predecessor@).push(task.depends@[i as int].predecessor@));
        i = i + 1;
    }
    assert(task.depends@.take(task.depends@.len() as int) =~= task.depends@);
    parts
}

fn constraint_strings(task: &Task) -> (r: Vec<String>)
    requires
        constraints_wf(*task),
    ensures
        views(r@) == task.constraints@.map_values(|c: TaskConstraint| constraint_text(c)),
{
    let mut parts: Vec<String> = Vec::new();
    let mut i: usize = 0;
    while i < task.constraints.len()
        invariant
            constraints_wf(*task),
            i <= task.constraints@.len(),
            views(parts@) == task.constraints@.take(i as int).map_values(|c: TaskConstraint| constraint_text(c)),
        decreases task.constraints@.len() - i,
    {
        let ghost before = views(parts@);
        assert(constraint_wf(task.constraints@[i as int]));
        parts.push(format_constraint(&task.constraints[i]));
        assert(views(parts@) =~= before.push(constraint_text(task.constraints@[i as int])));
        assert(task.constraints@.take(i + 1).map_values(|c: TaskConstraint| constraint_text(c)) =~= task.constraints@.take(
            i as int,
        ).map_values(|c: TaskConstraint| constraint_text(c)).push(constraint_text(task.constraints@[i as int])));
        i = i + 1;
    }
    assert(task.constraints@.take(task.constraints@.len() as int) =~= task.constraints@);
    parts
}

fn plan_part(task: &Task, lines: &mut Vec<String>)
    requires
        constraints_wf(*task),
    ensures
        views(final(lines)@) == views(old(lines)@) + plan_lines(*task),
{
    let ghost start = views(lines@);
    proof {
        reveal_strlit("Duration: ");
        reveal_strlit("Effort: ");
        reveal_strlit("Assigned: ");
        reveal_strlit("Depends on: ");
        reveal_strlit("Constraints: ");
    }
    push_lines(lines, head_part(task));
    let ghost acc = plan_head(*task);
    push_lines(lines, type_part(task));
    proof {
        assert(views(lines@) =~= start + (acc + plan_type(*task)));
        acc = acc + plan_type(*task);
    }
    push_lines(lines, days_part("Duration: ", task.duration));
    proof {
        assert(views(lines@) =~= start + (acc + days_line("Duration: "@, task.duration)));
        acc = acc + days_line("Duration: "@, task.duration);
    }
    push_lines(lines, days_part("Effort: ", task.effort));
    proof {
        assert(views(lines@) =~= start + (acc + days_line("Effort: "@, task.effort)));
        acc = acc + days_line("Effort: "@, task.effort);
    }
    let a = assignment_strings(task);
    push_lines(lines, list_part("Assigned: ", &a));
    proof {
        let x = list_line("Assigned: "@, task.assigned@.map_values(|a: ResourceRef| assignment_text(a)));
        assert(views(lines@) =~= start + (acc + x));
        acc = acc + x;
    }
    let d = predecessor_strings(task);
    push_lines(lines, list_part("Depends on: ", &d));
    proof {
        let x = list_line("Depends on: "@, task.depends@.map_values(|d: crate::model::Dependency| d.predecessor@));
        assert(views(lines@) =~= start + (acc + x));
        acc = acc + x;
    }
    let c = constraint_strings(task);
    push_lines(lines, list_part("Constraints: ", &c));
    proof {
        let x = list_line("Constraints: "@, task.constraints@.map_values(|c: TaskConstraint| constraint_text(c)));
        assert(views(lines@) =~= start + (acc + x));
        acc = acc + x;
    }
    push_lines(lines, progress_part(task));
    proof {
        assert(views(lines@) =~= start + (acc + plan_progress(*task)));
        acc = acc + plan_progress(*task);
        assert(acc == plan_lines(*task));
    }
}

fn find_scheduled<'a>(schedule: &'a Schedule, id: &str) -> (r: Option<&'a ScheduledTask>)
    requires
        schedule.wf(),
    ensures
        match r {
            Some(x) => scheduled_index(schedule.tasks@, id@) matches Some(k) && *x == schedule.tasks@[k],
            None => scheduled_index(schedule.tasks@, id@) is None,
        },
{
    let mut i: usize = 0;
    while i < schedule.tasks.len()
        invariant
            schedule.wf(),
            i <= schedule.tasks@.len(),
            forall|j: int| 0 <= j < i ==> #[trigger] schedule.tasks@[j].task_id@ != id@,
        decreases schedule.tasks@.len() - i,
    {
        if crate::text::str_eq(schedule.tasks[i].task_id.as_str(), id) {
            proof {
                crate::baseline::lemma_scheduled_index_at(*schedule, i as int);
            }
            return Some(&schedule.tasks[i]);
        }
        i = i + 1;
    }
    None
}

fn find_calendar<'a>(cs: &'a Vec<Calendar>, id: &str) -> (r: Option<&'a Calendar>)
    ensures
        match r {
            Some(c) => first_calendar(cs@, id@) == Some(*c),
            None => first_calendar(cs@, id@) is None,
        },
{
    let mut i: usize = 0;
    assert(cs@.skip(0) =~= cs@);
    while i < cs.len()
        invariant
            i <= cs@.len(),
            first_calendar(cs@, id@) == first_calendar(cs@.skip(i as int), id@),
        decreases cs@.len() - i,
    {
        assert(cs@.skip(i as int)[0] == cs@[i as int]);
        assert(cs@.skip(i as int).drop_first() =~= cs@.skip(i + 1));
        if crate::text::str_eq(cs[i].id.as_str(), id) {
            return Some(&cs[i]);
        }
        i = i + 1;
    }
    None
}

proof fn lemma_count_days_class(cal: Calendar, s: int, f: int, c: int)
    ensures
        count_days(cal, s, f, c) == count_class(cal.holidays@, cal.working_days@, s, f, c),
    decreases f - s + 1,
{
    if f >= s {
        lemma_count_days_class(cal, s, f - 1, c);
    }
}

proof fn lemma_first_calendar_in(cs: Seq<Calendar>, id: Seq<char>)
    ensures
        first_calendar(cs, id) matches Some(c) ==> exists|i: int| 0 <= i < cs.len() && cs[i] == c,
    decreases cs.len(),
{
    if cs.len() > 0 && cs[0].id@ != id {
        lemma_first_calendar_in(cs.drop_first(), id);
        if first_calendar(cs.drop_first(), id) is Some {
            let c = first_calendar(cs.drop_first(), id)->0;
            let i = choose|i: int| 0 <= i < cs.drop_first().len() && cs.drop_first()[i] == c;
            assert(cs[i + 1] == c);
        }
    } else if cs.len() > 0 {
        assert(cs[0] == cs[0]);
    }
}

fn impact_for(project: &Project, st: &ScheduledTask) -> (r: (u32, u32, u32))
    requires
        forall|i: int| 0 <= i < project.calendars@.len() ==> (#[trigger] project.calendars@[i]).wf(),
        effect_dates_wf(*st),
        st.finish.ordinal() < day_number(MAX_YEAR as int, 12, 31),
    ensures
        (r.0 as nat, r.1 as nat, r.2 as nat) == impact_of(*project, *st),
{
    match find_calendar(&project.calendars, project.calendar.as_str()) {
        Some(c) => {
            proof {
                lemma_first_calendar_in(project.calendars@, project.calendar@);
                let i = choose|i: int| 0 <= i < project.calendars@.len() && project.calendars@[i] == *c;
                assert(project.calendars@[i].wf());
                lemma_count_days_class(*c, st.start.ordinal(), st.finish.ordinal(), 2);
                lemma_count_days_class(*c, st.start.ordinal(), st.finish.ordinal(), 1);
                lemma_count_days_class(*c, st.start.ordinal(), st.finish.ordinal(), 0);
            }
            calculate_calendar_impact(st.start, st.finish, c)
        },
        None => {
            let c = Calendar::standard();
            proof {
                lemma_count_days_class(c, st.start.ordinal(), st.finish.ordinal(), 2);
                lemma_count_days_class(c, st.start.ordinal(), st.finish.ordinal(), 1);
                lemma_count_days_class(c, st.start.ordinal(), st.finish.ordinal(), 0);
                assert(c.holidays@ =~= Seq::<crate::project::Holiday>::empty());
            }
            calculate_calendar_impact(st.start, st.finish, &c)
        },
    }
}

fn impact_part(w: u32, we: u32, h: u32) -> (r: Vec<String>)
    ensures
        views(r@) == impact_lines((w as nat, we as nat, h as nat)),
{
    let mut lines: Vec<String> = Vec::new();
    proof {
        reveal_strlit("---");
        reveal_strlit("**📆 Calendar Impact:**");
        reveal_strlit("• ");
        reveal_strlit(" working days, ");
        reveal_strlit(" weekend days");
        reveal_strlit(" holidays");
        reveal_strlit(", ");
    }
    if we > 0 || h > 0 {
        let mut parts: Vec<String> = Vec::new();
        if we > 0 {
            let n = crate::text::u64_to_string(we as u64);
            push_line(&mut parts, text2(n.as_str(), " weekend days"));
        }
        if h > 0 {
            let n = crate::text::u64_to_string(h as u64);
            push_line(&mut parts, text2(n.as_str(), " holidays"));
        }
        let joined = join_strings(&parts, ", ");
        push_line(&mut lines, "---".to_owned());
        push_line(&mut lines, "**📆 Calendar Impact:**".to_owned());
        let n = crate::text::u64_to_string(w as u64);
        let mut l = text3("• ", n.as_str(), " working days, ");
        push_str(&mut l, joined.as_str());
        push_line(&mut lines, l);
        let ghost pw: Seq<Seq<char>> = if we > 0 {
            seq![decimal(we as nat) + " weekend days"@]
        } else {
            Seq::empty()
        };
        let ghost ph: Seq<Seq<char>> = if h > 0 {
            seq![decimal(h as nat) + " holidays"@]
        } else {
            Seq::empty()
        };
        assert(views(parts@) =~= pw + ph);
    }
    lines
}

fn effects_part(task: &Task, st: &ScheduledTask) -> (r: Vec<String>)
    requires
        constraints_wf(*task),
        effect_dates_wf(*st),
    ensures
        views(r@) == (if task.constraints@.len() > 0 {
            seq!["---"@, "**Constraint Effects:**"@] + task.constraints@.map_values(|c: TaskConstraint| effect_text(c, *st))
        } else {
            Seq::<Seq<char>>::empty()
        }),
{
    let mut lines: Vec<String> = Vec::new();
    proof {
        reveal_strlit("---");
        reveal_strlit("**Constraint Effects:**");
    }
    if task.constraints.len() > 0 {
        let effects = analyze_constraint_effects(task, st);
        push_line(&mut lines, "---".to_owned());
        push_line(&mut lines, "**Constraint Effects:**".to_owned());
        push_lines(&mut lines, effects);
        assert(views(effects@) =~= task.constraints@.map_values(|c: TaskConstraint| effect_text(c, *st)));
    }
    lines
}

fn schedule_part(task: &Task, st: &ScheduledTask, project: &Project) -> (r: Vec<String>)
    requires
        constraints_wf(*task),
        effect_dates_wf(*st),
        st.finish.ordinal() < day_number(MAX_YEAR as int, 12, 31),
        forall|i: int| 0 <= i < project.calendars@.len() ==> (#[trigger] project.calendars@[i]).wf(),
    ensures
        views(r@) == schedule_lines(*task, *st, *project),
{
    let mut lines: Vec<String> = Vec::new();
    proof {
        reveal_strlit("---");
        reveal_strlit("📅 **Schedule:** ");
        reveal_strlit(" → ");
        reveal_strlit("⏱️ Duration: ");
        reveal_strlit(" days");
        reveal_strlit("🔴 **Critical Path** (0 days slack)");
        reveal_strlit("🟢 Slack: ");
    }
    push_line(&mut lines, "---".to_owned());
    let a = st.start.to_text();
    let b = st.finish.to_text();
    let mut l = text3("📅 **Schedule:** ", a.as_str(), " → ");
    push_str(&mut l, b.as_str());
    push_line(&mut lines, l);
    let n = crate::text::i64_to_string(whole_days(st.duration));
    push_line(&mut lines, text3("⏱️ Duration: ", n.as_str(), " days"));
    let slack_days = whole_days(st.slack);
    if st.is_critical {
        push_line(&mut lines, "🔴 **Critical Path** (0 days slack)".to_owned());
    } else if slack_days > 0 {
        let n = crate::text::i64_to_string(slack_days);
        push_line(&mut lines, text3("🟢 Slack: ", n.as_str(), " days"));
    }
    let (w, we, h) = impact_for(project, st);
    push_lines(&mut lines, impact_part(w, we, h));
    push_lines(&mut lines, effects_part(task, st));
    lines
}

fn diagnostics_part(task_id: &str, diagnostics: &[Diagnostic]) -> (r: Vec<String>)
    ensures
        views(r@) == diagnostic_lines(task_codes(diagnostics@, task_id@)),
{
    let codes = filter_task_diagnostics(task_id, diagnostics);
    let mut lines: Vec<String> = Vec::new();
    proof {
        reveal_strlit("---");
        reveal_strlit("**⚠️ Diagnostics:**");
        reveal_strlit("• ");
        reveal_strlit(" `");
        reveal_strlit("`");
    }
    if codes.len() > 0 {
        push_line(&mut lines, "---".to_owned());
        push_line(&mut lines, "**⚠️ Diagnostics:**".to_owned());
        let ghost head = views(lines@);
        let mut i: usize = 0;
        while i < codes.len()
            invariant
                i <= codes@.len(),
                views(lines@) == head + codes@.take(i as int).map_values(
                    |c: DiagnosticCode| "• "@ + icon_for(c.text()) + " `"@ + c.text() + "`"@,
                ),
            decreases codes@.len() - i,
        {
            let code = codes[i];
            let mut l = text3("• ", diagnostic_icon(&code), " `");
            push_str(&mut l, code.as_str());
            push_str(&mut l, "`");
            push_line(&mut lines, l);
            assert(codes@.take(i + 1).map_values(|c: DiagnosticCode| "• "@ + icon_for(c.text()) + " `"@ + c.text() + "`"@)
                =~= codes@.take(i as int).map_values(
                |c: DiagnosticCode| "• "@ + icon_for(c.text()) + " `"@ + c.text() + "`"@,
            ).push("• "@ + icon_for(code.text()) + " `"@ + code.text() + "`"@));
            i = i + 1;
        }
        assert(codes@.take(codes@.len() as int) =~= codes@);
    }
    lines
}

/// The schedule behind an optional reference.
pub open spec fn schedule_value(s: Option<&Schedule>) -> Option<Schedule> {
    match s {
        Some(x) => Some(*x),
        None => None,
    }
}

/// The hover text of a task: its plan; with a schedule that has the task
/// (under `task_id`, else its own id), the scheduled dates, duration,
/// criticality or slack, calendar impact and constraint effects; and the
/// diagnostics that mention it. Lines are separated by blank lines.
pub fn hover_for_task(task: &Task, task_id: &str, project: &Project, schedule: Option<&Schedule>, diagnostics: &[Diagnostic]) -> (r: String)
    requires
        hover_inputs_wf(*task, *project, schedule_value(schedule)),
    ensures
        r@ == join_with(
            task_hover_lines(*task, task_id@, *project, schedule_value(schedule), diagnostics@),
            "\n\n"@,
        ),
{
    let mut lines: Vec<String> = Vec::new();
    plan_part(task, &mut lines);
    match schedule {
        Some(sched) => {
            let found = match find_scheduled(sched, task_id) {
                Some(st) => Some(st),
                None => find_scheduled(sched, task.id.as_str()),
            };
            match found {
                Some(st) => {
                    proof {
                        match scheduled_index(sched.tasks@, task_id@) {
                            Some(k) => {
                                assert(effect_dates_wf(sched.tasks@[k]));
                            },
                            None => {
                                let k = scheduled_index(sched.tasks@, task.id@)->0;
                                assert(effect_dates_wf(sched.tasks@[k]));
                            },
                        }
                    }
                    push_lines(&mut lines, schedule_part(task, st, project));
                },
                None => {},
            }
        },
        None => {},
    }
    push_lines(&mut lines, diagnostics_part(task_id, diagnostics));
    assert(views(lines@) =~= task_hover_lines(*task, task_id@, *project, schedule_value(schedule), diagnostics@));
    join_strings(&lines, "\n\n")
}

} // verus!
