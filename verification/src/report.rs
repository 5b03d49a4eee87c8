//! The text report of a schedule: a header with dates, status, earned
//! value and cost, the critical path, and a table of the scheduled tasks in
//! order of start, in a standard or a progress-aware layout. What is
//! computed from floating-point values (the project's duration in days,
//! the SPI, the cost range) comes in as finished text.
use vstd::prelude::*;
use crate::date::{Date, date_text};
use crate::display::{row_name, cut_text, utf8_len, is_char_boundary, task_row_name, truncate};
use crate::hover::{join_with, join_strings, trunc_div, views, whole_days};
use crate::model::Duration;
use crate::project::Project;
use crate::schedule::{Schedule, ScheduledTask};
use crate::text::{decimal, signed_decimal, push_str, push_char, u64_to_string, i64_to_string, starts_with_seq};

verus! {

/// Where the schedule performance index stands: at least 1, at least 0.95,
/// or below.
#[derive(Clone, Copy, Debug, PartialEq, Eq, Structural)]
pub enum SpiBand {
    OnSchedule,
    SlightlyBehind,
    Behind,
}

/// How wide the cost range is: a spread under 10%, under 50%, or more.
#[derive(Clone, Copy, Debug, PartialEq, Eq, Structural)]
pub enum SpreadBand {
    Narrow,
    Moderate,
    Wide,
}

/// The cost range of a schedule, as text.
#[derive(Clone, Debug)]
pub struct CostTexts {
    pub expected: String,
    pub currency: String,
    pub min: String,
    pub max: String,
    /// The spread in percent, with one decimal
    pub spread: String,
    pub band: SpreadBand,
    /// The spread is above zero
    pub spread_shown: bool,
}

/// The parts of a report that come from floating-point values, as text.
#[derive(Clone, Debug)]
pub struct ReportFloats {
    /// The project's duration in days
    pub duration_days: String,
    /// The schedule performance index, with two decimals
    pub spi: String,
    pub spi_band: SpiBand,
    /// The cost range, where the schedule has one
    pub cost: Option<CostTexts>,
}

/// `n` spaces.
pub open spec fn spaces(n: int) -> Seq<char> {
    Seq::new(n as nat, |i: int| ' ')
}

/// `n` dashes.
pub open spec fn dashes(n: int) -> Seq<char> {
    Seq::new(n as nat, |i: int| '-')
}

/// `s` followed by spaces up to `w` characters.
pub open spec fn pad_right(s: Seq<char>, w: int) -> Seq<char> {
    if s.len() < w {
        s + spaces(w - s.len())
    } else {
        s
    }
}

/// `s` preceded by spaces up to `w` characters.
pub open spec fn pad_left(s: Seq<char>, w: int) -> Seq<char> {
    if s.len() < w {
        spaces(w - s.len()) + s
    } else {
        s
    }
}

/// A date as text.
pub open spec fn date_of(d: Date) -> Seq<char> {
    date_text(d.year, d.month, d.day)
}

/// A duration in whole days, rounded toward zero.
pub open spec fn days_of(d: Duration) -> Seq<char> {
    signed_decimal(trunc_div(d.minutes as int, 480))
}

/// The project variance: "on schedule", "+Nd behind" or "Nd ahead".
pub open spec fn variance_words(v: int) -> Seq<char> {
    if v == 0 {
        "on schedule"@
    } else if v > 0 {
        "+"@ + decimal(v as nat) + "d behind"@
    } else {
        decimal((-v) as nat) + "d ahead"@
    }
}

/// Red beyond 5 days late, yellow when late, green otherwise.
pub open spec fn variance_icon(v: int) -> Seq<char> {
    if v > 5 {
        "🔴"@
    } else if v > 0 {
        "🟡"@
    } else {
        "🟢"@
    }
}

/// The words for an SPI band.
pub open spec fn spi_words(b: SpiBand) -> Seq<char> {
    match b {
        SpiBand::OnSchedule => "on schedule"@,
        SpiBand::SlightlyBehind => "slightly behind"@,
        SpiBand::Behind => "behind schedule"@,
    }
}

/// The icon for an SPI band.
pub open spec fn spi_icon(b: SpiBand) -> Seq<char> {
    match b {
        SpiBand::OnSchedule => "🟢"@,
        SpiBand::SlightlyBehind => "🟡"@,
        SpiBand::Behind => "🔴"@,
    }
}

/// The word for a spread band.
pub open spec fn spread_words(b: SpreadBand) -> Seq<char> {
    match b {
        SpreadBand::Narrow => "narrow"@,
        SpreadBand::Moderate => "moderate"@,
        SpreadBand::Wide => "wide"@,
    }
}

/// The icon for a spread band.
pub open spec fn spread_icon(b: SpreadBand) -> Seq<char> {
    match b {
        SpreadBand::Narrow => "🟢"@,
        SpreadBand::Moderate => "🟡"@,
        SpreadBand::Wide => "🔴"@,
    }
}

/// The header lines: project, start, end, duration, status and earned
/// value.
pub open spec fn header_text(project: Project, schedule: Schedule, f: ReportFloats) -> Seq<char> {
    let v = schedule.project_variance_days as int;
    "Project: "@ + project.name@ + "\n"@ + "Start: "@ + date_of(project.start) + "\n"@ + "End: "@ + date_of(
        schedule.project_end,
    ) + "\n"@ + "Duration: "@ + f.duration_days@ + " days\n"@ + "Status: "@ + decimal(
        schedule.project_progress as nat,
    ) + "% complete, "@ + variance_words(v) + " "@ + variance_icon(v) + "\n"@ + "Earned Value: SPI "@ + f.spi@
        + " ("@ + spi_words(f.spi_band) + ") "@ + spi_icon(f.spi_band) + " | EV "@ + decimal(
        schedule.earned_value as nat,
    ) + "% / PV "@ + decimal(schedule.planned_value as nat) + "%\n"@
}

/// The cost lines, where there is a cost range.
pub open spec fn cost_text(c: Option<CostTexts>) -> Seq<char> {
    match c {
        Some(c) => "Cost: "@ + c.expected@ + " "@ + c.currency@ + " (min: "@ + c.min@ + " / expected: "@
            + c.expected@ + " / max: "@ + c.max@ + ") "@ + spread_icon(c.band) + "\n"@ + if c.spread_shown {
            "      spread: "@ + c.spread@ + "% ("@ + spread_words(c.band) + " range)\n"@
        } else {
            Seq::empty()
        },
        None => Seq::empty(),
    }
}

/// The critical path line, where there is a critical path.
pub open spec fn critical_text(cp: Seq<String>) -> Seq<char> {
    if cp.len() > 0 {
        "Critical Path: "@ + join_with(views(cp), " -> "@) + "\n\n"@
    } else {
        Seq::empty()
    }
}

/// The table header and its rule.
pub open spec fn table_header(show_progress: bool, w: int) -> Seq<char> {
    if show_progress {
        pad_right("Task"@, w) + " "@ + pad_left("%Done"@, 6) + " "@ + pad_right("Status"@, 14) + " "@ + pad_right(
            "Start"@,
            12,
        ) + " "@ + pad_right("Finish"@, 12) + " "@ + pad_left("Remain"@, 8) + " "@ + pad_left("Variance"@, 8)
            + " "@ + "Critical"@ + "\n"@ + dashes(w + 74) + "\n"@
    } else {
        pad_right("Task"@, w) + " "@ + pad_right("Start"@, 12) + " "@ + pad_right("Finish"@, 12) + " "@ + pad_left(
            "Duration"@,
            8,
        ) + " "@ + pad_left("Slack"@, 8) + " "@ + "Critical"@ + "\n"@ + dashes(w + 52) + "\n"@
    }
}

/// The finish variance of a task: "—" on time, "+Nd" late, "-Nd" early.
pub open spec fn variance_cell(v: int) -> Seq<char> {
    if v == 0 {
        "—"@
    } else if v > 0 {
        "+"@ + decimal(v as nat) + "d"@
    } else {
        signed_decimal(v) + "d"@
    }
}

/// A star for a critical task.
pub open spec fn critical_mark(t: ScheduledTask) -> Seq<char> {
    if t.is_critical {
        "*"@
    } else {
        ""@
    }
}

/// The table row of a scheduled task.
pub open spec fn row_text(
    tasks: Seq<crate::project::Task>,
    t: ScheduledTask,
    show_progress: bool,
    task_ids: bool,
    verbose: bool,
    w: int,
) -> Seq<char> {
    let name = pad_right(cut_text(row_name(tasks, t.task_id@, task_ids, verbose), w), w);
    if show_progress {
        name + " "@ + pad_left(decimal(t.percent_complete as nat), 5) + "% "@ + pad_right(t.status.text(), 14)
            + " "@ + pad_right(date_of(t.forecast_start), 12) + " "@ + pad_right(date_of(t.forecast_finish), 12)
            + " "@ + pad_left(days_of(t.remaining_duration), 6) + "d "@ + pad_left(
            variance_cell(t.finish_variance_days as int),
            8,
        ) + " "@ + critical_mark(t) + "\n"@
    } else {
        name + " "@ + pad_right(date_of(t.start), 12) + " "@ + pad_right(date_of(t.finish), 12) + " "@ + pad_left(
            days_of(t.duration),
            6,
        ) + "d "@ + pad_left(days_of(t.slack), 6) + "d "@ + critical_mark(t) + "\n"@
    }
}

/// How many of the tasks at positions `order` start no later than day
/// number `key`.
pub open spec fn count_not_later(order: Seq<usize>, ts: Seq<ScheduledTask>, key: int) -> nat
    decreases order.len(),
{
    if order.len() == 0 {
        0
    } else {
        count_not_later(order.drop_last(), ts, key) + if ts[order.last() as int].start.ordinal() <= key {
            1nat
        } else {
            0nat
        }
    }
}

/// The positions of the first `n` tasks in order of start, tasks with the
/// same start keeping their order: each task goes after every earlier one
/// that starts no later than it.
pub open spec fn start_order(ts: Seq<ScheduledTask>, n: nat) -> Seq<usize>
    decreases n,
{
    if n == 0 {
        Seq::empty()
    } else {
        let o = start_order(ts, (n - 1) as nat);
        o.insert(count_not_later(o, ts, ts[n - 1].start.ordinal()) as int, (n - 1) as usize)
    }
}

/// The rows of the tasks at positions `order`, in that order.
pub open spec fn rows_text(
    tasks: Seq<crate::project::Task>,
    ts: Seq<ScheduledTask>,
    order: Seq<usize>,
    show_progress: bool,
    task_ids: bool,
    verbose: bool,
    w: int,
) -> Seq<char>
    decreases order.len(),
{
    if order.len() == 0 {
        Seq::empty()
    } else {
        rows_text(tasks, ts, order.drop_last(), show_progress, task_ids, verbose, w) + row_text(
            tasks,
            ts[order.last() as int],
            show_progress,
            task_ids,
            verbose,
            w,
        )
    }
}

/// The whole report: header, cost, a blank line, the critical path, then
/// the table of tasks in order of start.
pub open spec fn report_text(
    project: Project,
    schedule: Schedule,
    show_progress: bool,
    task_ids: bool,
    verbose: bool,
    width: usize,
    f: ReportFloats,
) -> Seq<char> {
    header_text(project, schedule, f) + cost_text(f.cost) + "\n"@ + critical_text(schedule.critical_path@)
        + table_header(show_progress, width as int) + rows_text(
        project.tasks@,
        schedule.tasks@,
        start_order(schedule.tasks@, schedule.tasks@.len()),
        show_progress,
        task_ids,
        verbose,
        width as int,
    )
}

/// The report's first lines up to the status words: project, start, end,
/// duration, and the progress percentage.
pub open spec fn status_head(project: Project, schedule: Schedule, f: ReportFloats) -> Seq<char> {
    "Project: "@ + project.name@ + "\n"@ + "Start: "@ + date_of(project.start) + "\n"@ + "End: "@ + date_of(
        schedule.project_end,
    ) + "\n"@ + "Duration: "@ + f.duration_days@ + " days\n"@ + "Status: "@ + decimal(
        schedule.project_progress as nat,
    ) + "% complete, "@
}

proof fn lemma_prefix_of_concat(a: Seq<char>, b: Seq<char>, p: Seq<char>)
    requires
        starts_with_seq(a, p),
    ensures
        starts_with_seq(a + b, p),
{
    assert((a + b).subrange(0, p.len() as int) =~= a.subrange(0, p.len() as int));
}

/// The report's status line: a project up to 5 days late is marked yellow
/// (🟡), one more than 5 days late red (🔴), one on time or early green
/// (🟢); the words say how many days late or early it is.
pub proof fn lemma_report_status_line(
    project: Project,
    schedule: Schedule,
    show_progress: bool,
    task_ids: bool,
    verbose: bool,
    width: usize,
    f: ReportFloats,
)
    ensures
        1 <= schedule.project_variance_days <= 5 ==> starts_with_seq(
            report_text(project, schedule, show_progress, task_ids, verbose, width, f),
            status_head(project, schedule, f) + ("+"@ + decimal(schedule.project_variance_days as nat) + "d behind"@)
                + " "@ + "🟡"@ + "\n"@,
        ),
        schedule.project_variance_days > 5 ==> starts_with_seq(
            report_text(project, schedule, show_progress, task_ids, verbose, width, f),
            status_head(project, schedule, f) + ("+"@ + decimal(schedule.project_variance_days as nat) + "d behind"@)
                + " "@ + "🔴"@ + "\n"@,
        ),
        schedule.project_variance_days == 0 ==> starts_with_seq(
            report_text(project, schedule, show_progress, task_ids, verbose, width, f),
            status_head(project, schedule, f) + "on schedule"@ + " "@ + "🟢"@ + "\n"@,
        ),
        schedule.project_variance_days < 0 ==> starts_with_seq(
            report_text(project, schedule, show_progress, task_ids, verbose, width, f),
            status_head(project, schedule, f) + (decimal((-schedule.project_variance_days) as nat) + "d ahead"@)
                + " "@ + "🟢"@ + "\n"@,
        ),
{
    let v = schedule.project_variance_days as int;
    let line = status_head(project, schedule, f) + variance_words(v) + " "@ + variance_icon(v) + "\n"@;
    assert(line.subrange(0, line.len() as int) =~= line);
    let l1 = line + "Earned Value: SPI "@;
    lemma_prefix_of_concat(line, "Earned Value: SPI "@, line);
    let l2 = l1 + f.spi@;
    lemma_prefix_of_concat(l1, f.spi@, line);
    let l3 = l2 + " ("@;
    lemma_prefix_of_concat(l2, " ("@, line);
    let l4 = l3 + spi_words(f.spi_band);
    lemma_prefix_of_concat(l3, spi_words(f.spi_band), line);
    let l5 = l4 + ") "@;
    lemma_prefix_of_concat(l4, ") "@, line);
    let l6 = l5 + spi_icon(f.spi_band);
    lemma_prefix_of_concat(l5, spi_icon(f.spi_band), line);
    let l7 = l6 + " | EV "@;
    lemma_prefix_of_concat(l6, " | EV "@, line);
    let l8 = l7 + decimal(schedule.earned_value as nat);
    lemma_prefix_of_concat(l7, decimal(schedule.earned_value as nat), line);
    let l9 = l8 + "% / PV "@;
    lemma_prefix_of_concat(l8, "% / PV "@, line);
    let l10 = l9 + decimal(schedule.planned_value as nat);
    lemma_prefix_of_concat(l9, decimal(schedule.planned_value as nat), line);
    let h = l10 + "%\n"@;
    lemma_prefix_of_concat(l10, "%\n"@, line);
    assert(h == header_text(project, schedule, f));
    let r1 = h + cost_text(f.cost);
    lemma_prefix_of_concat(h, cost_text(f.cost), line);
    let r2 = r1 + "\n"@;
    lemma_prefix_of_concat(r1, "\n"@, line);
    let r3 = r2 + critical_text(schedule.critical_path@);
    lemma_prefix_of_concat(r2, critical_text(schedule.critical_path@), line);
    let r4 = r3 + table_header(show_progress, width as int);
    lemma_prefix_of_concat(r3, table_header(show_progress, width as int), line);
    let rows = rows_text(
        project.tasks@,
        schedule.tasks@,
        start_order(schedule.tasks@, schedule.tasks@.len()),
        show_progress,
        task_ids,
        verbose,
        width as int,
    );
    lemma_prefix_of_concat(r4, rows, line);
    assert(r4 + rows == report_text(project, schedule, show_progress, task_ids, verbose, width, f));
}

/// The dates of a scheduled task are real days.
pub open spec fn entry_dates_wf(t: ScheduledTask) -> bool {
    t.start.wf() && t.finish.wf() && t.forecast_start.wf() && t.forecast_finish.wf()
}

/// A name can be cut to `w` bytes: it fits, or `w - 3` bytes in falls on
/// a character boundary.
pub open spec fn name_fits(name: Seq<char>, w: int) -> bool {
    utf8_len(name) <= w || (w >= 3 && is_char_boundary(name, w - 3))
}

/// What the report asks of its inputs: real dates, a width whose rule
/// fits in memory, and row names that can be cut to it.
pub open spec fn report_inputs_ok(
    project: Project,
    schedule: Schedule,
    task_ids: bool,
    verbose: bool,
    width: usize,
) -> bool {
    &&& project.start.wf()
    &&& schedule.project_end.wf()
    &&& width <= usize::MAX - 74
    &&& forall|i: int| 0 <= i < schedule.tasks@.len() ==> entry_dates_wf(#[trigger] schedule.tasks@[i])
    &&& forall|i: int|
        0 <= i < schedule.tasks@.len() ==> name_fits(
            row_name(project.tasks@, (#[trigger] schedule.tasks@[i]).task_id@, task_ids, verbose),
            width as int,
        )
}

fn push_spaces(out: &mut String, n: usize)
    ensures
        final(out)@ == old(out)@ + spaces(n as int),
{
    let mut i: usize = 0;
    while i < n
        invariant
            i <= n,
            out@ == old(out)@ + spaces(i as int),
        decreases n - i,
    {
        push_char(out, ' ');
        i = i + 1;
        assert(out@ =~= old(out)@ + spaces(i as int));
    }
}

fn dash_rule(n: usize) -> (r: String)
    ensures
        r@ == dashes(n as int),
{
    let mut r = String::new();
    let mut i: usize = 0;
    while i < n
        invariant
            i <= n,
            r@ == dashes(i as int),
        decreases n - i,
    {
        push_char(&mut r, '-');
        i = i + 1;
        assert(r@ =~= dashes(i as int));
    }
    r
}

/// `s` padded with spaces on the right to `w` characters.
fn padded_right(s: &str, w: usize) -> (r: String)
    ensures
        r@ == pad_right(s@, w as int),
{
    let n = s.unicode_len();
    let mut r = String::new();
    push_str(&mut r, s);
    assert(r@ =~= s@);
    if n < w {
        push_spaces(&mut r, w - n);
    }
    r
}

/// `s` padded with spaces on the left to `w` characters.
fn padded_left(s: &str, w: usize) -> (r: String)
    ensures
        r@ == pad_left(s@, w as int),
{
    let n = s.unicode_len();
    let mut r = String::new();
    if n < w {
        push_spaces(&mut r, w - n);
        push_str(&mut r, s);
        assert(r@ =~= spaces(w - n) + s@);
    } else {
        push_str(&mut r, s);
        assert(r@ =~= s@);
    }
    r
}

fn date_string(d: &Date) -> (r: String)
    requires
        d.wf(),
    ensures
        r@ == date_of(*d),
{
    d.to_text()
}

fn days_string(d: Duration) -> (r: String)
    ensures
        r@ == days_of(d),
{
    i64_to_string(whole_days(d))
}

fn variance_words_string(v: i64) -> (r: String)
    ensures
        r@ == variance_words(v as int),
{
    let mut r = String::new();
    proof {
        reveal_strlit("on schedule");
        reveal_strlit("+");
        reveal_strlit("d behind");
        reveal_strlit("d ahead");
    }
    if v == 0 {
        push_str(&mut r, "on schedule");
    } else if v > 0 {
        push_str(&mut r, "+");
        let s = u64_to_string(v as u64);
        push_str(&mut r, s.as_str());
        push_str(&mut r, "d behind");
    } else {
        let m: u64 = if v == i64::MIN {
            9223372036854775808u64
        } else {
            (-v) as u64
        };
        let s = u64_to_string(m);
        push_str(&mut r, s.as_str());
        push_str(&mut r, "d ahead");
    }
    r
}

fn variance_icon_str(v: i64) -> (r: &'static str)
    ensures
        r@ == variance_icon(v as int),
{
    if v > 5 {
        "🔴"
    } else if v > 0 {
        "🟡"
    } else {
        "🟢"
    }
}

fn spi_words_str(b: SpiBand) -> (r: &'static str)
    ensures
        r@ == spi_words(b),
{
    match b {
        SpiBand::OnSchedule => "on schedule",
        SpiBand::SlightlyBehind => "slightly behind",
        SpiBand::Behind => "behind schedule",
    }
}

fn spi_icon_str(b: SpiBand) -> (r: &'static str)
    ensures
        r@ == spi_icon(b),
{
    match b {
        SpiBand::OnSchedule => "🟢",
        SpiBand::SlightlyBehind => "🟡",
        SpiBand::Behind => "🔴",
    }
}

fn spread_words_str(b: SpreadBand) -> (r: &'static str)
    ensures
        r@ == spread_words(b),
{
    match b {
        SpreadBand::Narrow => "narrow",
        SpreadBand::Moderate => "moderate",
        SpreadBand::Wide => "wide",
    }
}

fn spread_icon_str(b: SpreadBand) -> (r: &'static str)
    ensures
        r@ == spread_icon(b),
{
    match b {
        SpreadBand::Narrow => "🟢",
        SpreadBand::Moderate => "🟡",
        SpreadBand::Wide => "🔴",
    }
}

fn header_string(project: &Project, schedule: &Schedule, f: &ReportFloats) -> (r: String)
    requires
        project.start.wf(),
        schedule.project_end.wf(),
    ensures
        r@ == header_text(*project, *schedule, *f),
{
    let v = schedule.project_variance_days;
    let mut r = String::new();
    push_str(&mut r, "Project: ");
    assert(r@ =~= "Project: "@);
    push_str(&mut r, project.name.as_str());
    push_str(&mut r, "\n");
    push_str(&mut r, "Start: ");
    let s = date_string(&project.start);
    push_str(&mut r, s.as_str());
    push_str(&mut r, "\n");
    push_str(&mut r, "End: ");
    let e = date_string(&schedule.project_end);
    push_str(&mut r, e.as_str());
    push_str(&mut r, "\n");
    push_str(&mut r, "Duration: ");
    push_str(&mut r, f.duration_days.as_str());
    push_str(&mut r, " days\n");
    push_str(&mut r, "Status: ");
    let p = u64_to_string(schedule.project_progress as u64);
    push_str(&mut r, p.as_str());
    push_str(&mut r, "% complete, ");
    let vw = variance_words_string(v);
    push_str(&mut r, vw.as_str());
    push_str(&mut r, " ");
    push_str(&mut r, variance_icon_str(v));
    push_str(&mut r, "\n");
    push_str(&mut r, "Earned Value: SPI ");
    push_str(&mut r, f.spi.as_str());
    push_str(&mut r, " (");
    push_str(&mut r, spi_words_str(f.spi_band));
    push_str(&mut r, ") ");
    push_str(&mut r, spi_icon_str(f.spi_band));
    push_str(&mut r, " | EV ");
    let ev = u64_to_string(schedule.earned_value as u64);
    push_str(&mut r, ev.as_str());
    push_str(&mut r, "% / PV ");
    let pv = u64_to_string(schedule.planned_value as u64);
    push_str(&mut r, pv.as_str());
    push_str(&mut r, "%\n");
    r
}

fn spread_string(c: &CostTexts) -> (r: String)
    ensures
        r@ == (if c.spread_shown {
            "      spread: "@ + c.spread@ + "% ("@ + spread_words(c.band) + " range)\n"@
        } else {
            Seq::empty()
        }),
{
    let mut r = String::new();
    if c.spread_shown {
        push_str(&mut r, "      spread: ");
        assert(r@ =~= "      spread: "@);
        push_str(&mut r, c.spread.as_str());
        push_str(&mut r, "% (");
        push_str(&mut r, spread_words_str(c.band));
        push_str(&mut r, " range)\n");
    }
    r
}

fn cost_string(c: &Option<CostTexts>) -> (r: String)
    ensures
        r@ == cost_text(*c),
{
    let mut r = String::new();
    match c {
        Some(c) => {
            push_str(&mut r, "Cost: ");
            assert(r@ =~= "Cost: "@);
            push_str(&mut r, c.expected.as_str());
            push_str(&mut r, " ");
            push_str(&mut r, c.currency.as_str());
            push_str(&mut r, " (min: ");
            push_str(&mut r, c.min.as_str());
            push_str(&mut r, " / expected: ");
            push_str(&mut r, c.expected.as_str());
            push_str(&mut r, " / max: ");
            push_str(&mut r, c.max.as_str());
            push_str(&mut r, ") ");
            push_str(&mut r, spread_icon_str(c.band));
            push_str(&mut r, "\n");
            let sp = spread_string(c);
            push_str(&mut r, sp.as_str());
        },
        None => {},
    }
    r
}

fn critical_string(cp: &Vec<String>) -> (r: String)
    ensures
        r@ == critical_text(cp@),
{
    let mut r = String::new();
    if cp.len() > 0 {
        push_str(&mut r, "Critical Path: ");
        assert(r@ =~= "Critical Path: "@);
        let j = join_strings(cp, " -> ");
        push_str(&mut r, j.as_str());
        push_str(&mut r, "\n\n");
    }
    r
}

fn table_header_string(show_progress: bool, w: usize) -> (r: String)
    requires
        w <= usize::MAX - 74,
    ensures
        r@ == table_header(show_progress, w as int),
{
    let mut r = padded_right("Task", w);
    if show_progress {
        push_str(&mut r, " ");
        let a = padded_left("%Done", 6);
        push_str(&mut r, a.as_str());
        push_str(&mut r, " ");
        let b = padded_right("Status", 14);
        push_str(&mut r, b.as_str());
        push_str(&mut r, " ");
        let c = padded_right("Start", 12);
        push_str(&mut r, c.as_str());
        push_str(&mut r, " ");
        let d = padded_right("Finish", 12);
        push_str(&mut r, d.as_str());
        push_str(&mut r, " ");
        let e = padded_left("Remain", 8);
        push_str(&mut r, e.as_str());
        push_str(&mut r, " ");
        let f = padded_left("Variance", 8);
        push_str(&mut r, f.as_str());
        push_str(&mut r, " ");
        push_str(&mut r, "Critical");
        push_str(&mut r, "\n");
        let g = dash_rule(w + 74);
        push_str(&mut r, g.as_str());
        push_str(&mut r, "\n");
    } else {
        push_str(&mut r, " ");
        let c = padded_right("Start", 12);
        push_str(&mut r, c.as_str());
        push_str(&mut r, " ");
        let d = padded_right("Finish", 12);
        push_str(&mut r, d.as_str());
        push_str(&mut r, " ");
        let e = padded_left("Duration", 8);
        push_str(&mut r, e.as_str());
        push_str(&mut r, " ");
        let f = padded_left("Slack", 8);
        push_str(&mut r, f.as_str());
        push_str(&mut r, " ");
        push_str(&mut r, "Critical");
        push_str(&mut r, "\n");
        let g = dash_rule(w + 52);
        push_str(&mut r, g.as_str());
        push_str(&mut r, "\n");
    }
    r
}

fn variance_cell_string(v: i64) -> (r: String)
    ensures
        r@ == variance_cell(v as int),
{
    let mut r = String::new();
    proof {
        reveal_strlit("—");
        reveal_strlit("+");
        reveal_strlit("d");
    }
    if v == 0 {
        push_str(&mut r, "—");
    } else if v > 0 {
        push_str(&mut r, "+");
        let s = u64_to_string(v as u64);
        push_str(&mut r, s.as_str());
        push_str(&mut r, "d");
    } else {
        let s = i64_to_string(v);
        push_str(&mut r, s.as_str());
        push_str(&mut r, "d");
    }
    r
}

fn critical_mark_str(t: &ScheduledTask) -> (r: &'static str)
    ensures
        r@ == critical_mark(*t),
{
    if t.is_critical {
        "*"
    } else {
        ""
    }
}

fn row_string(
    tasks: &Vec<crate::project::Task>,
    t: &ScheduledTask,
    show_progress: bool,
    task_ids: bool,
    verbose: bool,
    w: usize,
) -> (r: String)
    requires
        entry_dates_wf(*t),
        name_fits(row_name(tasks@, t.task_id@, task_ids, verbose), w as int),
    ensures
        r@ == row_text(tasks@, *t, show_progress, task_ids, verbose, w as int),
{
    let name = task_row_name(tasks, t.task_id.as_str(), task_ids, verbose);
    let cut = truncate(name.as_str(), w);
    let mut r = padded_right(cut.as_str(), w);
    push_str(&mut r, " ");
    if show_progress {
        let pct = u64_to_string(t.percent_complete as u64);
        let a = padded_left(pct.as_str(), 5);
        push_str(&mut r, a.as_str());
        push_str(&mut r, "% ");
        let b = padded_right(t.status.as_str(), 14);
        push_str(&mut r, b.as_str());
        push_str(&mut r, " ");
        let fs = date_string(&t.forecast_start);
        let c = padded_right(fs.as_str(), 12);
        push_str(&mut r, c.as_str());
        push_str(&mut r, " ");
        let ff = date_string(&t.forecast_finish);
        let d = padded_right(ff.as_str(), 12);
        push_str(&mut r, d.as_str());
        push_str(&mut r, " ");
        let rem = days_string(t.remaining_duration);
        let e = padded_left(rem.as_str(), 6);
        push_str(&mut r, e.as_str());
        push_str(&mut r, "d ");
        let var = variance_cell_string(t.finish_variance_days);
        let f = padded_left(var.as_str(), 8);
        push_str(&mut r, f.as_str());
        push_str(&mut r, " ");
    } else {
        let s = date_string(&t.start);
        let c = padded_right(s.as_str(), 12);
        push_str(&mut r, c.as_str());
        push_str(&mut r, " ");
        let fin = date_string(&t.finish);
        let d = padded_right(fin.as_str(), 12);
        push_str(&mut r, d.as_str());
        push_str(&mut r, " ");
        let du = days_string(t.duration);
        let e = padded_left(du.as_str(), 6);
        push_str(&mut r, e.as_str());
        push_str(&mut r, "d ");
        let sl = days_string(t.slack);
        let f = padded_left(sl.as_str(), 6);
        push_str(&mut r, f.as_str());
        push_str(&mut r, "d ");
    }
    push_str(&mut r, critical_mark_str(t));
    push_str(&mut r, "\n");
    r
}

proof fn lemma_count_not_later_bound(order: Seq<usize>, ts: Seq<ScheduledTask>, key: int)
    ensures
        count_not_later(order, ts, key) <= order.len(),
    decreases order.len(),
{
    if order.len() > 0 {
        lemma_count_not_later_bound(order.drop_last(), ts, key);
    }
}

proof fn lemma_start_order_bounds(ts: Seq<ScheduledTask>, n: nat)
    ensures
        start_order(ts, n).len() == n,
        forall|k: int| 0 <= k < n ==> (#[trigger] start_order(ts, n)[k]) < n,
    decreases n,
{
    if n > 0 {
        let o = start_order(ts, (n - 1) as nat);
        lemma_start_order_bounds(ts, (n - 1) as nat);
        let c = count_not_later(o, ts, ts[n - 1].start.ordinal());
        lemma_count_not_later_bound(o, ts, ts[n - 1].start.ordinal());
        o.insert_ensures(c as int, (n - 1) as usize);
        assert forall|k: int| 0 <= k < n implies (#[trigger] start_order(ts, n)[k]) < n by {
            if k < c {
            } else if k == c {
            } else {
                assert(o.insert(c as int, (n - 1) as usize)[(k - 1) + 1] == o[k - 1]);
            }
        }
    }
}

fn start_order_of(ts: &Vec<ScheduledTask>) -> (r: Vec<usize>)
    requires
        forall|i: int| 0 <= i < ts@.len() ==> (#[trigger] ts@[i]).start.wf(),
    ensures
        r@ == start_order(ts@, ts@.len()),
{
    let n = ts.len();
    let mut order: Vec<usize> = Vec::new();
    let mut i: usize = 0;
    while i < n
        invariant
            n == ts@.len(),
            i <= n,
            order@ == start_order(ts@, i as nat),
            forall|k: int| 0 <= k < ts@.len() ==> (#[trigger] ts@[k]).start.wf(),
        decreases n - i,
    {
        proof {
            lemma_start_order_bounds(ts@, i as nat);
        }
        let key = &ts[i].start;
        let mut c: usize = 0;
        let mut j: usize = 0;
        while j < order.len()
            invariant
                n == ts@.len(),
                i < n,
                j <= order@.len(),
                order@.len() == i,
                forall|k: int| 0 <= k < i ==> (#[trigger] order@[k]) < i,
                forall|k: int| 0 <= k < ts@.len() ==> (#[trigger] ts@[k]).start.wf(),
                *key == ts@[i as int].start,
                c == count_not_later(order@.take(j as int), ts@, key.ordinal()),
                c <= j,
            decreases order@.len() - j,
        {
            assert(order@.take(j + 1).drop_last() =~= order@.take(j as int));
            let o = order[j];
            assert(order@[j as int] < i);
            if !ts[o].start.is_after(key) {
                c = c + 1;
            }
            j = j + 1;
        }
        assert(order@.take(j as int) =~= order@);
        order.insert(c, i);
        i = i + 1;
    }
    order
}

/// The text report of a schedule (see `report_text`); the floating-point
/// parts come in `floats`.
pub fn schedule_report(
    project: &Project,
    schedule: &Schedule,
    show_progress: bool,
    task_ids: bool,
    verbose: bool,
    width: usize,
    floats: &ReportFloats,
) -> (r: String)
    requires
        report_inputs_ok(*project, *schedule, task_ids, verbose, width),
    ensures
        r@ == report_text(*project, *schedule, show_progress, task_ids, verbose, width, *floats),
{
    let order = start_order_of(&schedule.tasks);
    proof {
        lemma_start_order_bounds(schedule.tasks@, schedule.tasks@.len());
    }
    let n = schedule.tasks.len();
    let mut rows = String::new();
    let mut k: usize = 0;
    while k < order.len()
        invariant
            n == schedule.tasks@.len(),
            order@ == start_order(schedule.tasks@, n as nat),
            order@.len() == n,
            forall|x: int| 0 <= x < n ==> (#[trigger] order@[x]) < n,
            report_inputs_ok(*project, *schedule, task_ids, verbose, width),
            k <= n,
            rows@ == rows_text(
                project.tasks@,
                schedule.tasks@,
                order@.take(k as int),
                show_progress,
                task_ids,
                verbose,
                width as int,
            ),
        decreases n - k,
    {
        assert(order@.take(k + 1).drop_last() =~= order@.take(k as int));
        let idx = order[k];
        assert(order@[k as int] < n);
        let t = &schedule.tasks[idx];
        assert(entry_dates_wf(schedule.tasks@[idx as int]));
        let row = row_string(&project.tasks, t, show_progress, task_ids, verbose, width);
        push_str(&mut rows, row.as_str());
        k = k + 1;
    }
    assert(order@.take(n as int) =~= order@);
    let mut out = header_string(project, schedule, floats);
    let c = cost_string(&floats.cost);
    push_str(&mut out, c.as_str());
    push_str(&mut out, "\n");
    let cp = critical_string(&schedule.critical_path);
    push_str(&mut out, cp.as_str());
    let th = table_header_string(show_progress, width);
    push_str(&mut out, th.as_str());
    push_str(&mut out, rows.as_str());
    out
}

/// The output formats that only the gantt command writes.
pub open spec fn is_chart_format(format: Seq<char>) -> bool {
    format == "xlsx"@ || format == "svg"@ || format == "html"@ || format == "mermaid"@ || format == "plantuml"@
}

/// The error for a format the schedule command does not write: a chart
/// format points to the gantt command for `file`; any other is unknown.
pub open spec fn unsupported_format_text(format: Seq<char>, file: Seq<char>) -> Seq<char> {
    if is_chart_format(format) {
        "Format '"@ + format + "' is not supported by 'schedule' command. Use 'gantt' command instead:\n  utf8proj gantt "@
            + file + " -f "@ + format + " -o <output>"@
    } else {
        "Unknown format '"@ + format
            + "'. Supported formats: text, json\nFor graphical outputs (xlsx, svg, html, mermaid, plantuml), use the 'gantt' command."@
    }
}

/// The error for a format the schedule command does not write (see
/// `unsupported_format_text`).
pub fn unsupported_format_message(format: &str, file: &str) -> (r: String)
    ensures
        r@ == unsupported_format_text(format@, file@),
{
    let chart = crate::text::str_eq(format, "xlsx") || crate::text::str_eq(format, "svg") || crate::text::str_eq(
        format,
        "html",
    ) || crate::text::str_eq(format, "mermaid") || crate::text::str_eq(format, "plantuml");
    let mut r = String::new();
    if chart {
        push_str(&mut r, "Format '");
        assert(r@ =~= "Format '"@);
        push_str(&mut r, format);
        push_str(&mut r, "' is not supported by 'schedule' command. Use 'gantt' command instead:\n  utf8proj gantt ");
        push_str(&mut r, file);
        push_str(&mut r, " -f ");
        push_str(&mut r, format);
        push_str(&mut r, " -o <output>");
    } else {
        push_str(&mut r, "Unknown format '");
        assert(r@ =~= "Unknown format '"@);
        push_str(&mut r, format);
        push_str(
            &mut r,
            "'. Supported formats: text, json\nFor graphical outputs (xlsx, svg, html, mermaid, plantuml), use the 'gantt' command.",
        );
    }
    r
}

} // verus!
