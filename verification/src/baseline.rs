//! Baselines: frozen snapshots of the scheduled dates of leaf tasks, the
//! store that keeps them by name, and the comparison of a schedule against
//! one of them.
use vstd::prelude::*;
use crate::date::{Date, Timestamp};
use crate::path::{compare_chars, lemma_order_chars_props, order_chars};
use crate::project::{Project, Task};
use crate::schedule::{Schedule, ScheduledTask};

verus! {

/// Snapshot of a leaf task's scheduled dates.
#[derive(Clone, Debug)]
pub struct TaskSnapshot {
    /// Fully-qualified task identifier (e.g. "phase1.design")
    pub task_id: String,
    /// Scheduled early start
    pub start: Date,
    /// Scheduled early finish
    pub finish: Date,
}

impl TaskSnapshot {
    /// A snapshot of the given task and dates.
    pub fn new(task_id: &str, start: Date, finish: Date) -> (s: TaskSnapshot)
        ensures
            s.task_id@ == task_id@,
            s.start == start,
            s.finish == finish,
    {
        TaskSnapshot { task_id: task_id.to_owned(), start, finish }
    }

    /// Both dates are valid.
    pub open spec fn wf(self) -> bool {
        self.start.wf() && self.finish.wf()
    }
}

/// Snapshots ordered strictly by task id.
pub open spec fn snapshots_sorted(s: Seq<TaskSnapshot>) -> bool {
    forall|i: int, j: int| 0 <= i < j < s.len() ==> order_chars(#[trigger] s[i].task_id@, #[trigger] s[j].task_id@) < 0
}

/// The position of the snapshot with id `id`, if there is one.
pub open spec fn snapshot_index(s: Seq<TaskSnapshot>, id: Seq<char>) -> Option<int> {
    if exists|i: int| 0 <= i < s.len() && #[trigger] s[i].task_id@ == id {
        Some(choose|i: int| 0 <= i < s.len() && #[trigger] s[i].task_id@ == id)
    } else {
        None
    }
}

/// A named schedule snapshot.
#[derive(Clone, Debug)]
pub struct Baseline {
    /// Unique baseline name
    pub name: String,
    /// When the baseline was saved
    pub saved: Timestamp,
    pub description: Option<String>,
    /// Parent baseline (lineage only)
    pub parent: Option<String>,
    /// Leaf task snapshots, ordered by task id
    pub tasks: Vec<TaskSnapshot>,
    /// Latest finish of the snapshots (at least 1970-01-01)
    pub project_finish: Date,
}

impl Baseline {
    /// Snapshots are ordered by id, all dates are valid, and no snapshot
    /// finishes after the project finish.
    pub open spec fn wf(self) -> bool {
        &&& snapshots_sorted(self.tasks@)
        &&& self.project_finish.wf()
        &&& forall|i: int| 0 <= i < self.tasks@.len() ==> (#[trigger] self.tasks@[i]).wf()
        &&& forall|i: int|
            0 <= i < self.tasks@.len() ==> (#[trigger] self.tasks@[i]).finish.ordinal() <= self.project_finish.ordinal()
    }

    /// An empty baseline saved now, with project finish 1970-01-01.
    pub fn new(name: &str) -> (b: Baseline)
        ensures
            b.wf(),
            b.name@ == name@,
            b.description is None,
            b.parent is None,
            b.tasks@.len() == 0,
            b.project_finish == (Date { year: 1970, month: 1, day: 1 }),
    {
        let b = Baseline {
            name: name.to_owned(),
            saved: crate::date::now(),
            description: None,
            parent: None,
            tasks: Vec::new(),
            project_finish: Date { year: 1970, month: 1, day: 1 },
        };
        assert(b.project_finish.wf());
        b
    }

    /// Sets the description.
    pub fn description(self, desc: &str) -> (b: Baseline)
        ensures
            b.description matches Some(d) && d@ == desc@,
            b == (Baseline { description: b.description, ..self }),
    {
        Baseline { description: Some(desc.to_owned()), ..self }
    }

    /// Sets the parent baseline.
    pub fn parent(self, parent: &str) -> (b: Baseline)
        ensures
            b.parent matches Some(p) && p@ == parent@,
            b == (Baseline { parent: b.parent, ..self }),
    {
        Baseline { parent: Some(parent.to_owned()), ..self }
    }

    /// Adds a snapshot, replacing the one with the same task id; the project
    /// finish moves to the snapshot's finish when that is later.
    pub fn add_task(&mut self, snapshot: TaskSnapshot)
        requires
            old(self).wf(),
            snapshot.wf(),
        ensures
            final(self).wf(),
            final(self).name == old(self).name,
            final(self).saved == old(self).saved,
            final(self).description == old(self).description,
            final(self).parent == old(self).parent,
            final(self).project_finish == (if snapshot.finish.ordinal() > old(self).project_finish.ordinal() {
                snapshot.finish
            } else {
                old(self).project_finish
            }),
            match snapshot_index(old(self).tasks@, snapshot.task_id@) {
                Some(i) => final(self).tasks@ == old(self).tasks@.update(i, snapshot),
                None => exists|p: int|
                    0 <= p <= old(self).tasks@.len() && final(self).tasks@ == old(self).tasks@.insert(p, snapshot),
            },
    {
        if snapshot.finish.is_after(&self.project_finish) {
            self.project_finish = snapshot.finish;
        }
        let (pos, found) = find_snapshot(&self.tasks, snapshot.task_id.as_str());
        let ghost old_tasks = self.tasks@;
        proof {
            lemma_sorted_unique_index(old_tasks, snapshot.task_id@, pos as int, found);
        }
        if found {
            self.tasks.set(pos, snapshot);
            proof {
                assert forall|i: int, j: int| 0 <= i < j < self.tasks@.len() implies order_chars(
                    #[trigger] self.tasks@[i].task_id@,
                    #[trigger] self.tasks@[j].task_id@,
                ) < 0 by {
                    assert(old_tasks[i].task_id@ == self.tasks@[i].task_id@);
                    assert(old_tasks[j].task_id@ == self.tasks@[j].task_id@);
                }
            }
        } else {
            proof {
                if pos < old_tasks.len() {
                    lemma_order_chars_props(old_tasks[pos as int].task_id@, snapshot.task_id@, snapshot.task_id@);
                }
                lemma_insert_sorted(old_tasks, snapshot, pos as int);
            }
            self.tasks.insert(pos, snapshot);
        }
    }

    /// Number of snapshots.
    pub fn task_count(&self) -> (r: usize)
        ensures
            r == self.tasks@.len(),
    {
        self.tasks.len()
    }
}

/// Where `id` belongs among sorted snapshots: the index of the first one
/// whose id is not below `id`, and whether that one has id `id`.
fn find_snapshot(tasks: &Vec<TaskSnapshot>, id: &str) -> (r: (usize, bool))
    ensures
        r.0 <= tasks@.len(),
        forall|k: int| 0 <= k < r.0 ==> order_chars(#[trigger] tasks@[k].task_id@, id@) < 0,
        r.0 < tasks@.len() ==> order_chars(tasks@[r.0 as int].task_id@, id@) >= 0,
        r.1 == (r.0 < tasks@.len() && tasks@[r.0 as int].task_id@ == id@),
{
    let key = crate::text::chars_of(id);
    let mut i: usize = 0;
    while i < tasks.len()
        invariant
            i <= tasks@.len(),
            key@ == id@,
            forall|k: int| 0 <= k < i ==> order_chars(#[trigger] tasks@[k].task_id@, id@) < 0,
        decreases tasks@.len() - i,
    {
        let cur = crate::text::chars_of(tasks[i].task_id.as_str());
        let c = compare_chars(cur.as_slice(), key.as_slice());
        if c >= 0 {
            proof {
                lemma_order_chars_props(tasks@[i as int].task_id@, id@, id@);
            }
            return (i, c == 0);
        }
        i = i + 1;
    }
    (i, false)
}

proof fn lemma_sorted_unique_index(s: Seq<TaskSnapshot>, id: Seq<char>, pos: int, found: bool)
    requires
        snapshots_sorted(s),
        0 <= pos <= s.len(),
        forall|k: int| 0 <= k < pos ==> order_chars(#[trigger] s[k].task_id@, id) < 0,
        pos < s.len() ==> order_chars(s[pos].task_id@, id) >= 0,
        found == (pos < s.len() && s[pos].task_id@ == id),
    ensures
        found ==> snapshot_index(s, id) == Some(pos),
        !found ==> snapshot_index(s, id) is None,
{
    assert forall|k: int| 0 <= k < s.len() && k != pos implies #[trigger] s[k].task_id@ != id by {
        if k < pos {
            lemma_order_chars_props(s[k].task_id@, id, id);
        } else {
            lemma_order_chars_props(s[pos].task_id@, s[k].task_id@, id);
            lemma_order_chars_props(s[k].task_id@, id, id);
        }
    }
    if found {
        assert(s[pos].task_id@ == id);
    }
}

proof fn lemma_insert_sorted(s: Seq<TaskSnapshot>, x: TaskSnapshot, pos: int)
    requires
        snapshots_sorted(s),
        0 <= pos <= s.len(),
        forall|k: int| 0 <= k < pos ==> order_chars(#[trigger] s[k].task_id@, x.task_id@) < 0,
        pos < s.len() ==> order_chars(s[pos].task_id@, x.task_id@) > 0,
    ensures
        snapshots_sorted(s.insert(pos, x)),
{
    let r = s.insert(pos, x);
    assert forall|i: int, j: int| 0 <= i < j < r.len() implies order_chars(
        #[trigger] r[i].task_id@,
        #[trigger] r[j].task_id@,
    ) < 0 by {
        if j < pos {
            assert(r[i] == s[i] && r[j] == s[j]);
        } else if j == pos {
            assert(r[i] == s[i]);
        } else if i < pos {
            assert(r[i] == s[i] && r[j] == s[j - 1]);
            lemma_order_chars_props(s[i].task_id@, s[pos].task_id@, s[j - 1].task_id@);
            if j - 1 > pos {
                assert(order_chars(s[pos].task_id@, s[j - 1].task_id@) < 0);
            }
            lemma_order_chars_props(s[i].task_id@, x.task_id@, s[pos].task_id@);
            lemma_order_chars_props(x.task_id@, s[pos].task_id@, s[pos].task_id@);
        } else if i == pos {
            assert(r[j] == s[j - 1]);
            lemma_order_chars_props(s[pos].task_id@, x.task_id@, x.task_id@);
            if j - 1 > pos {
                lemma_order_chars_props(x.task_id@, s[pos].task_id@, s[j - 1].task_id@);
            }
        } else {
            assert(r[i] == s[i - 1] && r[j] == s[j - 1]);
        }
    }
}

/// Baselines ordered strictly by name.
pub open spec fn baselines_sorted(s: Seq<Baseline>) -> bool {
    forall|i: int, j: int| 0 <= i < j < s.len() ==> order_chars(#[trigger] s[i].name@, #[trigger] s[j].name@) < 0
}

/// The position of the baseline named `name`, if there is one.
pub open spec fn baseline_index(s: Seq<Baseline>, name: Seq<char>) -> Option<int> {
    if exists|i: int| 0 <= i < s.len() && #[trigger] s[i].name@ == name {
        Some(choose|i: int| 0 <= i < s.len() && #[trigger] s[i].name@ == name)
    } else {
        None
    }
}

/// Errors of baseline operations.
#[derive(Clone, Debug, PartialEq, Eq)]
pub enum BaselineError {
    /// A baseline with this name already exists
    AlreadyExists(String),
    /// No baseline with this name
    NotFound(String),
    /// The project has no baselines file
    NoBaselinesFile,
    /// This many tasks have no id and cannot be baselined
    TasksWithoutIds(usize),
}

impl BaselineError {
    /// The message of the error.
    pub open spec fn text(self) -> Seq<char> {
        match self {
            BaselineError::AlreadyExists(n) => "Baseline \""@ + n@ + "\" already exists"@,
            BaselineError::NotFound(n) => "Baseline \""@ + n@ + "\" not found"@,
            BaselineError::NoBaselinesFile => "No baselines file found for this project"@,
            BaselineError::TasksWithoutIds(c) => "Cannot baseline: "@ + crate::text::decimal(c as nat)
                + " tasks have no ID"@,
        }
    }

    /// The message of the error, e.g. `Baseline "v1" already exists`.
    pub fn message(&self) -> (r: String)
        ensures
            r@ == self.text(),
    {
        let mut r = String::new();
        match self {
            BaselineError::AlreadyExists(n) => {
                crate::text::push_str(&mut r, "Baseline \"");
                crate::text::push_str(&mut r, n.as_str());
                crate::text::push_str(&mut r, "\" already exists");
            },
            BaselineError::NotFound(n) => {
                crate::text::push_str(&mut r, "Baseline \"");
                crate::text::push_str(&mut r, n.as_str());
                crate::text::push_str(&mut r, "\" not found");
            },
            BaselineError::NoBaselinesFile => {
                crate::text::push_str(&mut r, "No baselines file found for this project");
            },
            BaselineError::TasksWithoutIds(c) => {
                crate::text::push_str(&mut r, "Cannot baseline: ");
                let d = crate::text::u64_to_string(*c as u64);
                crate::text::push_str(&mut r, d.as_str());
                crate::text::push_str(&mut r, " tasks have no ID");
            },
        }
        proof {
            reveal_strlit("Baseline \"");
            reveal_strlit("\" already exists");
            reveal_strlit("\" not found");
            reveal_strlit("No baselines file found for this project");
            reveal_strlit("Cannot baseline: ");
            reveal_strlit(" tasks have no ID");
        }
        r
    }
}

/// The baselines of a project, kept in order of their names, which are
/// unique.
#[derive(Clone, Debug)]
pub struct BaselineStore {
    pub baselines: Vec<Baseline>,
}

impl BaselineStore {
    /// Names are unique and in order.
    pub open spec fn wf(self) -> bool {
        baselines_sorted(self.baselines@)
    }

    /// An empty store.
    pub fn new() -> (s: BaselineStore)
        ensures
            s.wf(),
            s.baselines@.len() == 0,
    {
        BaselineStore { baselines: Vec::new() }
    }

    /// Adds a baseline; a baseline of the same name must not exist already.
    pub fn add(&mut self, baseline: Baseline) -> (r: Result<(), BaselineError>)
        requires
            old(self).wf(),
        ensures
            final(self).wf(),
            r is Err <==> baseline_index(old(self).baselines@, baseline.name@) is Some,
            r matches Err(e) ==> e == BaselineError::AlreadyExists(baseline.name) && final(self).baselines@
                == old(self).baselines@,
            r is Ok ==> exists|p: int|
                0 <= p <= old(self).baselines@.len() && final(self).baselines@ == old(self).baselines@.insert(
                    p,
                    baseline,
                ),
    {
        let (pos, found) = find_baseline(&self.baselines, baseline.name.as_str());
        let ghost old_b = self.baselines@;
        proof {
            lemma_baseline_unique_index(old_b, baseline.name@, pos as int, found);
        }
        if found {
            return Err(BaselineError::AlreadyExists(baseline.name));
        }
        proof {
            if pos < old_b.len() {
                lemma_order_chars_props(old_b[pos as int].name@, baseline.name@, baseline.name@);
            }
            lemma_insert_baseline_sorted(old_b, baseline, pos as int);
        }
        self.baselines.insert(pos, baseline);
        Ok(())
    }

    /// The baseline named `name`.
    pub fn get(&self, name: &str) -> (r: Option<&Baseline>)
        requires
            self.wf(),
        ensures
            r is Some <==> baseline_index(self.baselines@, name@) is Some,
            r matches Some(b) ==> *b == self.baselines@[baseline_index(self.baselines@, name@)->0],
    {
        let (pos, found) = find_baseline(&self.baselines, name);
        proof {
            lemma_baseline_unique_index(self.baselines@, name@, pos as int, found);
        }
        if found {
            Some(&self.baselines[pos])
        } else {
            None
        }
    }

    /// Removes and returns the baseline named `name`.
    pub fn remove(&mut self, name: &str) -> (r: Option<Baseline>)
        requires
            old(self).wf(),
        ensures
            final(self).wf(),
            r is Some <==> baseline_index(old(self).baselines@, name@) is Some,
            r matches Some(b) ==> b == old(self).baselines@[baseline_index(old(self).baselines@, name@)->0]
                && final(self).baselines@ == old(self).baselines@.remove(
                baseline_index(old(self).baselines@, name@)->0,
            ),
            r is None ==> final(self).baselines@ == old(self).baselines@,
    {
        let (pos, found) = find_baseline(&self.baselines, name);
        proof {
            lemma_baseline_unique_index(self.baselines@, name@, pos as int, found);
        }
        if found {
            let ghost old_b = self.baselines@;
            let b = self.baselines.remove(pos);
            proof {
                assert forall|i: int, j: int| 0 <= i < j < self.baselines@.len() implies order_chars(
                    #[trigger] self.baselines@[i].name@,
                    #[trigger] self.baselines@[j].name@,
                ) < 0 by {
                    let oi = if i < pos { i } else { i + 1 };
                    let oj = if j < pos { j } else { j + 1 };
                    assert(self.baselines@[i] == old_b[oi]);
                    assert(self.baselines@[j] == old_b[oj]);
                }
            }
            Some(b)
        } else {
            None
        }
    }

    /// `true` when a baseline named `name` exists.
    pub fn contains(&self, name: &str) -> (r: bool)
        requires
            self.wf(),
        ensures
            r == baseline_index(self.baselines@, name@) is Some,
    {
        let (pos, found) = find_baseline(&self.baselines, name);
        proof {
            lemma_baseline_unique_index(self.baselines@, name@, pos as int, found);
        }
        found
    }

    /// Number of baselines.
    pub fn len(&self) -> (r: usize)
        ensures
            r == self.baselines@.len(),
    {
        self.baselines.len()
    }

    /// `true` when the store holds no baseline.
    pub fn is_empty(&self) -> (r: bool)
        ensures
            r == (self.baselines@.len() == 0),
    {
        self.baselines.len() == 0
    }

    /// The names of the baselines, in order.
    pub fn names(&self) -> (r: Vec<&str>)
        ensures
            r@.len() == self.baselines@.len(),
            forall|i: int| 0 <= i < r@.len() ==> r@[i]@ == #[trigger] self.baselines@[i].name@,
    {
        let mut r: Vec<&str> = Vec::new();
        let mut i: usize = 0;
        while i < self.baselines.len()
            invariant
                i <= self.baselines@.len(),
                r@.len() == i,
                forall|k: int| 0 <= k < i ==> r@[k]@ == #[trigger] self.baselines@[k].name@,
            decreases self.baselines@.len() - i,
        {
            r.push(self.baselines[i].name.as_str());
            i = i + 1;
        }
        r
    }
}

fn find_baseline(bs: &Vec<Baseline>, name: &str) -> (r: (usize, bool))
    ensures
        r.0 <= bs@.len(),
        forall|k: int| 0 <= k < r.0 ==> order_chars(#[trigger] bs@[k].name@, name@) < 0,
        r.0 < bs@.len() ==> order_chars(bs@[r.0 as int].name@, name@) >= 0,
        r.1 == (r.0 < bs@.len() && bs@[r.0 as int].name@ == name@),
{
    let key = crate::text::chars_of(name);
    let mut i: usize = 0;
    while i < bs.len()
        invariant
            i <= bs@.len(),
            key@ == name@,
            forall|k: int| 0 <= k < i ==> order_chars(#[trigger] bs@[k].name@, name@) < 0,
        decreases bs@.len() - i,
    {
        let cur = crate::text::chars_of(bs[i].name.as_str());
        let c = compare_chars(cur.as_slice(), key.as_slice());
        if c >= 0 {
            proof {
                lemma_order_chars_props(bs@[i as int].name@, name@, name@);
            }
            return (i, c == 0);
        }
        i = i + 1;
    }
    (i, false)
}

proof fn lemma_baseline_unique_index(s: Seq<Baseline>, name: Seq<char>, pos: int, found: bool)
    requires
        baselines_sorted(s),
        0 <= pos <= s.len(),
        forall|k: int| 0 <= k < pos ==> order_chars(#[trigger] s[k].name@, name) < 0,
        pos < s.len() ==> order_chars(s[pos].name@, name) >= 0,
        found == (pos < s.len() && s[pos].name@ == name),
    ensures
        found ==> baseline_index(s, name) == Some(pos),
        !found ==> baseline_index(s, name) is None,
{
    assert forall|k: int| 0 <= k < s.len() && k != pos implies #[trigger] s[k].name@ != name by {
        if k < pos {
            lemma_order_chars_props(s[k].name@, name, name);
        } else {
            lemma_order_chars_props(s[pos].name@, s[k].name@, name);
            lemma_order_chars_props(s[k].name@, name, name);
        }
    }
    if found {
        assert(s[pos].name@ == name);
    }
}

proof fn lemma_insert_baseline_sorted(s: Seq<Baseline>, x: Baseline, pos: int)
    requires
        baselines_sorted(s),
        0 <= pos <= s.len(),
        forall|k: int| 0 <= k < pos ==> order_chars(#[trigger] s[k].name@, x.name@) < 0,
        pos < s.len() ==> order_chars(s[pos].name@, x.name@) > 0,
    ensures
        baselines_sorted(s.insert(pos, x)),
{
    let r = s.insert(pos, x);
    assert forall|i: int, j: int| 0 <= i < j < r.len() implies order_chars(
        #[trigger] r[i].name@,
        #[trigger] r[j].name@,
    ) < 0 by {
        if j < pos {
            assert(r[i] == s[i] && r[j] == s[j]);
        } else if j == pos {
            assert(r[i] == s[i]);
        } else if i < pos {
            assert(r[i] == s[i] && r[j] == s[j - 1]);
            lemma_order_chars_props(s[i].name@, s[pos].name@, s[j - 1].name@);
            if j - 1 > pos {
                assert(order_chars(s[pos].name@, s[j - 1].name@) < 0);
            }
            lemma_order_chars_props(s[i].name@, x.name@, s[pos].name@);
            lemma_order_chars_props(x.name@, s[pos].name@, s[pos].name@);
        } else if i == pos {
            assert(r[j] == s[j - 1]);
            lemma_order_chars_props(s[pos].name@, x.name@, x.name@);
            if j - 1 > pos {
                lemma_order_chars_props(x.name@, s[pos].name@, s[j - 1].name@);
            }
        } else {
            assert(r[i] == s[i - 1] && r[j] == s[j - 1]);
        }
    }
}

/// How a task's schedule compares with the baseline.
#[derive(Clone, Copy, Debug, PartialEq, Eq, Structural)]
pub enum VarianceStatus {
    /// Finish matches the baseline
    OnSchedule,
    /// Finish is later than in the baseline
    Delayed,
    /// Finish is earlier than in the baseline
    Ahead,
    /// Scheduled now but not in the baseline
    Added,
    /// In the baseline but no longer scheduled
    Removed,
}

impl VarianceStatus {
    /// The status as text.
    pub open spec fn text(self) -> Seq<char> {
        match self {
            VarianceStatus::OnSchedule => "on_schedule"@,
            VarianceStatus::Delayed => "delayed"@,
            VarianceStatus::Ahead => "ahead"@,
            VarianceStatus::Added => "added"@,
            VarianceStatus::Removed => "removed"@,
        }
    }

    /// The status as text (e.g. "on_schedule").
    pub fn as_str(&self) -> (s: &'static str)
        ensures
            s@ == self.text(),
    {
        match self {
            VarianceStatus::OnSchedule => "on_schedule",
            VarianceStatus::Delayed => "delayed",
            VarianceStatus::Ahead => "ahead",
            VarianceStatus::Added => "added",
            VarianceStatus::Removed => "removed",
        }
    }
}

/// The status of a task from its finish variance in days.
pub open spec fn status_for(finish_days: int) -> VarianceStatus {
    if finish_days > 0 {
        VarianceStatus::Delayed
    } else if finish_days < 0 {
        VarianceStatus::Ahead
    } else {
        VarianceStatus::OnSchedule
    }
}

/// Variance of one task between baseline and current schedule.
#[derive(Clone, Debug)]
pub struct TaskVariance {
    pub task_id: String,
    /// None when the task was added after the baseline
    pub baseline_start: Option<Date>,
    pub baseline_finish: Option<Date>,
    /// None when the task was removed
    pub current_start: Option<Date>,
    pub current_finish: Option<Date>,
    /// current - baseline, in calendar days
    pub start_variance_days: Option<i32>,
    pub finish_variance_days: Option<i32>,
    pub status: VarianceStatus,
}

/// Everything a variance says besides its task id.
pub type VarianceFields = (Option<Date>, Option<Date>, Option<Date>, Option<Date>, Option<int>, Option<int>, VarianceStatus);

/// The fields of a variance, as in `VarianceFields`.
pub open spec fn fields_of(v: TaskVariance) -> VarianceFields {
    (
        v.baseline_start,
        v.baseline_finish,
        v.current_start,
        v.current_finish,
        match v.start_variance_days {
            Some(d) => Some(d as int),
            None => None,
        },
        match v.finish_variance_days {
            Some(d) => Some(d as int),
            None => None,
        },
        v.status,
    )
}

/// The variance of a task in both baseline and schedule.
pub open spec fn existing_fields(bs: Date, bf: Date, cs: Date, cf: Date) -> VarianceFields {
    (
        Some(bs),
        Some(bf),
        Some(cs),
        Some(cf),
        Some(cs.ordinal() - bs.ordinal()),
        Some(cf.ordinal() - bf.ordinal()),
        status_for(cf.ordinal() - bf.ordinal()),
    )
}

/// The variance of a task only in the schedule.
pub open spec fn added_fields(cs: Date, cf: Date) -> VarianceFields {
    (None, None, Some(cs), Some(cf), None, None, VarianceStatus::Added)
}

/// The variance of a task only in the baseline.
pub open spec fn removed_fields(bs: Date, bf: Date) -> VarianceFields {
    (Some(bs), Some(bf), None, None, None, None, VarianceStatus::Removed)
}

/// Day numbers of valid dates stay within ±96 million, so that their
/// differences fit an `i32`.
proof fn lemma_ordinal_range(d: Date)
    requires
        d.wf(),
    ensures
        -96000000 <= d.ordinal() <= 96000000,
{
    let p = d.year as int - 1;
    assert(-262144 <= p <= 262141);
    assert(-65536 <= p / 4 <= 65535);
    assert(-2622 <= p / 100 <= 2621);
    assert(-656 <= p / 400 <= 655);
    assert(0 <= crate::date::days_before_month(d.year as int, d.month as int) <= 335);
}

impl TaskVariance {
    /// The variance of a task scheduled both in the baseline and now.
    pub fn existing(task_id: &str, baseline_start: Date, baseline_finish: Date, current_start: Date, current_finish: Date) -> (v: TaskVariance)
        requires
            baseline_start.wf(),
            baseline_finish.wf(),
            current_start.wf(),
            current_finish.wf(),
        ensures
            v.task_id@ == task_id@,
            fields_of(v) == existing_fields(baseline_start, baseline_finish, current_start, current_finish),
    {
        proof {
            lemma_ordinal_range(baseline_start);
            lemma_ordinal_range(baseline_finish);
            lemma_ordinal_range(current_start);
            lemma_ordinal_range(current_finish);
        }
        let start_days = current_start.days_since(&baseline_start) as i32;
        let finish_days = current_finish.days_since(&baseline_finish) as i32;
        let status = if finish_days > 0 {
            VarianceStatus::Delayed
        } else if finish_days < 0 {
            VarianceStatus::Ahead
        } else {
            VarianceStatus::OnSchedule
        };
        TaskVariance {
            task_id: task_id.to_owned(),
            baseline_start: Some(baseline_start),
            baseline_finish: Some(baseline_finish),
            current_start: Some(current_start),
            current_finish: Some(current_finish),
            start_variance_days: Some(start_days),
            finish_variance_days: Some(finish_days),
            status,
        }
    }

    /// The variance of a task added after the baseline.
    pub fn added(task_id: &str, current_start: Date, current_finish: Date) -> (v: TaskVariance)
        ensures
            v.task_id@ == task_id@,
            fields_of(v) == added_fields(current_start, current_finish),
    {
        TaskVariance {
            task_id: task_id.to_owned(),
            baseline_start: None,
            baseline_finish: None,
            current_start: Some(current_start),
            current_finish: Some(current_finish),
            start_variance_days: None,
            finish_variance_days: None,
            status: VarianceStatus::Added,
        }
    }

    /// The variance of a task in the baseline but no longer scheduled.
    pub fn removed(task_id: &str, baseline_start: Date, baseline_finish: Date) -> (v: TaskVariance)
        ensures
            v.task_id@ == task_id@,
            fields_of(v) == removed_fields(baseline_start, baseline_finish),
    {
        TaskVariance {
            task_id: task_id.to_owned(),
            baseline_start: Some(baseline_start),
            baseline_finish: Some(baseline_finish),
            current_start: None,
            current_finish: None,
            start_variance_days: None,
            finish_variance_days: None,
            status: VarianceStatus::Removed,
        }
    }
}

/// Counts of a comparison.
#[derive(Clone, Copy, Debug, PartialEq, Eq, Structural)]
pub struct ComparisonSummary {
    /// Tasks in both baseline and schedule
    pub tasks_compared: usize,
    pub tasks_on_schedule: usize,
    pub tasks_delayed: usize,
    pub tasks_ahead: usize,
    pub tasks_added: usize,
    pub tasks_removed: usize,
    pub baseline_project_finish: Date,
    pub current_project_finish: Date,
    /// Current minus baseline project finish, in days
    pub project_variance_days: i32,
}

impl Default for ComparisonSummary {
    /// All counts zero, both finishes 1970-01-01.
    fn default() -> (s: Self)
        ensures
            s == (ComparisonSummary {
                tasks_compared: 0,
                tasks_on_schedule: 0,
                tasks_delayed: 0,
                tasks_ahead: 0,
                tasks_added: 0,
                tasks_removed: 0,
                baseline_project_finish: Date { year: 1970, month: 1, day: 1 },
                current_project_finish: Date { year: 1970, month: 1, day: 1 },
                project_variance_days: 0,
            }),
    {
        let epoch = Date { year: 1970, month: 1, day: 1 };
        ComparisonSummary {
            tasks_compared: 0,
            tasks_on_schedule: 0,
            tasks_delayed: 0,
            tasks_ahead: 0,
            tasks_added: 0,
            tasks_removed: 0,
            baseline_project_finish: epoch,
            current_project_finish: epoch,
            project_variance_days: 0,
        }
    }
}

/// Number of variances with the given status.
pub open spec fn count_status(vs: Seq<TaskVariance>, st: VarianceStatus) -> nat
    decreases vs.len(),
{
    if vs.len() == 0 {
        0
    } else {
        count_status(vs.drop_last(), st) + if vs.last().status == st {
            1nat
        } else {
            0nat
        }
    }
}

/// The summary of a list of variances.
pub open spec fn summary_of(vs: Seq<TaskVariance>, baseline_finish: Date, current_finish: Date) -> ComparisonSummary {
    ComparisonSummary {
        tasks_compared: (count_status(vs, VarianceStatus::OnSchedule) + count_status(vs, VarianceStatus::Delayed)
            + count_status(vs, VarianceStatus::Ahead)) as usize,
        tasks_on_schedule: count_status(vs, VarianceStatus::OnSchedule) as usize,
        tasks_delayed: count_status(vs, VarianceStatus::Delayed) as usize,
        tasks_ahead: count_status(vs, VarianceStatus::Ahead) as usize,
        tasks_added: count_status(vs, VarianceStatus::Added) as usize,
        tasks_removed: count_status(vs, VarianceStatus::Removed) as usize,
        baseline_project_finish: baseline_finish,
        current_project_finish: current_finish,
        project_variance_days: (current_finish.ordinal() - baseline_finish.ordinal()) as i32,
    }
}

/// Every variance has exactly one status, so the status counts add up to
/// the number of variances.
pub proof fn lemma_status_counts_partition(vs: Seq<TaskVariance>)
    ensures
        count_status(vs, VarianceStatus::OnSchedule) + count_status(vs, VarianceStatus::Delayed) + count_status(
            vs,
            VarianceStatus::Ahead,
        ) + count_status(vs, VarianceStatus::Added) + count_status(vs, VarianceStatus::Removed) == vs.len(),
    decreases vs.len(),
{
    if vs.len() > 0 {
        lemma_status_counts_partition(vs.drop_last());
    }
}

fn compute_summary(variances: &Vec<TaskVariance>, baseline: &Baseline, schedule: &Schedule) -> (r: ComparisonSummary)
    requires
        baseline.project_finish.wf(),
        schedule.project_end.wf(),
    ensures
        r == summary_of(variances@, baseline.project_finish, schedule.project_end),
{
    let mut summary = ComparisonSummary {
        baseline_project_finish: baseline.project_finish,
        current_project_finish: schedule.project_end,
        ..Default::default()
    };
    let n = variances.len();
    let mut i: usize = 0;
    while i < n
        invariant
            n == variances@.len(),
            i <= n,
            summary.tasks_on_schedule == count_status(variances@.take(i as int), VarianceStatus::OnSchedule),
            summary.tasks_delayed == count_status(variances@.take(i as int), VarianceStatus::Delayed),
            summary.tasks_ahead == count_status(variances@.take(i as int), VarianceStatus::Ahead),
            summary.tasks_added == count_status(variances@.take(i as int), VarianceStatus::Added),
            summary.tasks_removed == count_status(variances@.take(i as int), VarianceStatus::Removed),
            summary.tasks_compared == summary.tasks_on_schedule + summary.tasks_delayed + summary.tasks_ahead,
            summary.tasks_compared + summary.tasks_added + summary.tasks_removed == i,
            summary.baseline_project_finish == baseline.project_finish,
            summary.current_project_finish == schedule.project_end,
            summary.project_variance_days == 0,
        decreases n - i,
    {
        assert(variances@.take(i + 1).drop_last() =~= variances@.take(i as int));
        match variances[i].status {
            VarianceStatus::OnSchedule => {
                summary.tasks_compared = summary.tasks_compared + 1;
                summary.tasks_on_schedule = summary.tasks_on_schedule + 1;
            },
            VarianceStatus::Delayed => {
                summary.tasks_compared = summary.tasks_compared + 1;
                summary.tasks_delayed = summary.tasks_delayed + 1;
            },
            VarianceStatus::Ahead => {
                summary.tasks_compared = summary.tasks_compared + 1;
                summary.tasks_ahead = summary.tasks_ahead + 1;
            },
            VarianceStatus::Added => {
                summary.tasks_added = summary.tasks_added + 1;
            },
            VarianceStatus::Removed => {
                summary.tasks_removed = summary.tasks_removed + 1;
            },
        }
        i = i + 1;
    }
    assert(variances@.take(n as int) =~= variances@);
    proof {
        lemma_ordinal_range(baseline.project_finish);
        lemma_ordinal_range(schedule.project_end);
    }
    summary.project_variance_days = schedule.project_end.days_since(&baseline.project_finish) as i32;
    summary
}

/// The fully-qualified id of a task under `prefix` (`prefix.id`, or just
/// `id` at the top level).
pub open spec fn qualified_id(prefix: Seq<char>, id: Seq<char>) -> Seq<char> {
    if prefix.len() == 0 {
        id
    } else {
        prefix + "."@ + id
    }
}

/// `id` is the qualified id of a container task in the forest `ts` under
/// `prefix`.
pub open spec fn is_container_id(ts: Seq<Task>, prefix: Seq<char>, id: Seq<char>) -> bool
    decreases ts,
{
    if ts.len() == 0 {
        false
    } else {
        let t = ts[0];
        let q = qualified_id(prefix, t.id@);
        ||| (t.has_children() && q == id)
        ||| is_container_id(t.children@, q, id)
        ||| is_container_id(ts.drop_first(), prefix, id)
    }
}

/// The position of the scheduled task with id `id`, if there is one.
pub open spec fn scheduled_index(s: Seq<ScheduledTask>, id: Seq<char>) -> Option<int> {
    if exists|i: int| 0 <= i < s.len() && #[trigger] s[i].task_id@ == id {
        Some(choose|i: int| 0 <= i < s.len() && #[trigger] s[i].task_id@ == id)
    } else {
        None
    }
}

/// What the comparison reports for the task `id`: containers are skipped,
/// tasks in both are compared by their early dates, the others are added
/// or removed.
pub open spec fn expected_variance(schedule: Schedule, baseline: Baseline, tasks: Seq<Task>, id: Seq<char>) -> Option<
    VarianceFields,
> {
    match scheduled_index(schedule.tasks@, id) {
        Some(k) => if is_container_id(tasks, Seq::empty(), id) {
            None
        } else {
            let st = schedule.tasks@[k];
            match snapshot_index(baseline.tasks@, id) {
                Some(b) => Some(
                    existing_fields(
                        baseline.tasks@[b].start,
                        baseline.tasks@[b].finish,
                        st.early_start,
                        st.early_finish,
                    ),
                ),
                None => Some(added_fields(st.early_start, st.early_finish)),
            }
        },
        None => match snapshot_index(baseline.tasks@, id) {
            Some(b) => Some(removed_fields(baseline.tasks@[b].start, baseline.tasks@[b].finish)),
            None => None,
        },
    }
}

/// Variances ordered strictly by task id.
pub open spec fn variances_sorted(s: Seq<TaskVariance>) -> bool {
    forall|i: int, j: int| 0 <= i < j < s.len() ==> order_chars(#[trigger] s[i].task_id@, #[trigger] s[j].task_id@) < 0
}

/// Result of comparing a schedule against a baseline.
#[derive(Clone, Debug)]
pub struct ScheduleComparison {
    pub baseline_name: String,
    pub baseline_saved: Timestamp,
    /// When the comparison was made
    pub comparison_date: Timestamp,
    /// Per-task variances, ordered by task id
    pub tasks: Vec<TaskVariance>,
    pub summary: ComparisonSummary,
}

fn qualify(prefix: &str, id: &str) -> (r: String)
    ensures
        r@ == qualified_id(prefix@, id@),
{
    if prefix.is_empty() {
        id.to_owned()
    } else {
        let mut r = prefix.to_owned();
        crate::text::push_str(&mut r, ".");
        crate::text::push_str(&mut r, id);
        proof {
            reveal_strlit(".");
        }
        r
    }
}

/// Some string of `v` has the text `id`.
pub open spec fn has_id(v: Seq<String>, id: Seq<char>) -> bool {
    exists|j: int| 0 <= j < v.len() && #[trigger] v[j]@ == id
}

fn contains_id(v: &Vec<String>, id: &str) -> (r: bool)
    ensures
        r == has_id(v@, id@),
{
    let mut j: usize = 0;
    while j < v.len()
        invariant
            j <= v@.len(),
            forall|k: int| 0 <= k < j ==> #[trigger] v@[k]@ != id@,
        decreases v@.len() - j,
    {
        if crate::text::str_eq(v[j].as_str(), id) {
            return true;
        }
        j = j + 1;
    }
    false
}

/// The texts of a list of strings.
pub open spec fn texts(v: Seq<String>) -> Seq<Seq<char>> {
    v.map_values(|x: String| x@)
}

/// The ids in `out` together with the containers still to visit in `rest`
/// are those of `start` together with all containers of `all`.
pub open spec fn containers_accounted(
    out: Seq<String>,
    rest: Seq<Task>,
    start: Seq<String>,
    all: Seq<Task>,
    prefix: Seq<char>,
) -> bool {
    forall|id: Seq<char>|
        (#[trigger] has_id(out, id) || is_container_id(rest, prefix, id)) <==> (has_id(start, id) || is_container_id(
            all,
            prefix,
            id,
        ))
}

/// Adds the qualified ids of the containers in `tasks` under `prefix` to
/// `out`, each once.
fn collect_containers_recursive(tasks: &Vec<Task>, prefix: &str, out: &mut Vec<String>)
    requires
        texts(old(out)@).no_duplicates(),
    ensures
        texts(final(out)@).no_duplicates(),
        forall|id: Seq<char>|
            #[trigger] has_id(final(out)@, id) <==> (has_id(old(out)@, id) || is_container_id(tasks@, prefix@, id)),
    decreases tasks@,
{
    let ghost start = out@;
    let n = tasks.len();
    let mut i: usize = 0;
    assert(tasks@.skip(0) =~= tasks@);
    while i < n
        invariant
            n == tasks@.len(),
            i <= n,
            texts(out@).no_duplicates(),
            containers_accounted(out@, tasks@.skip(i as int), start, tasks@, prefix@),
        decreases n - i,
    {
        let t = &tasks[i];
        assert(tasks@.skip(i as int)[0] == tasks@[i as int]);
        assert(tasks@.skip(i as int).drop_first() =~= tasks@.skip(i + 1));
        let q = qualify(prefix, t.id.as_str());
        let ghost before = out@;
        let present = contains_id(out, q.as_str());
        if t.children.len() > 0 && !present {
            out.push(q.clone());
            proof {
                let m = texts(out@);
                let mb = texts(before);
                assert forall|a: int, b: int| 0 <= a < m.len() && 0 <= b < m.len() && a != b implies m[a] != m[b] by {
                    if a < mb.len() && b < mb.len() {
                        assert(m[a] == mb[a] && m[b] == mb[b]);
                    } else if a == mb.len() {
                        assert(m[b] == before[b]@);
                    } else {
                        assert(m[a] == before[a]@);
                    }
                }
                assert forall|id: Seq<char>| #[trigger] has_id(out@, id) <==> (has_id(before, id) || id == q@) by {
                    if has_id(out@, id) {
                        let j = choose|j: int| 0 <= j < out@.len() && #[trigger] out@[j]@ == id;
                        if j < before.len() {
                            assert(before[j]@ == id);
                        }
                    }
                    if has_id(before, id) {
                        let j = choose|j: int| 0 <= j < before.len() && #[trigger] before[j]@ == id;
                        assert(out@[j]@ == id);
                    }
                    if id == q@ {
                        assert(out@[before.len() as int]@ == id);
                    }
                }
            }
        }
        let ghost mid = out@;
        assert forall|id: Seq<char>| #[trigger] has_id(mid, id) <==> (has_id(before, id) || (t.has_children() && id == q@)) by {
            if t.has_children() && id == q@ && present {
                assert(has_id(before, id));
            }
        }
        assert(decreases_to!(tasks@ => tasks@[i as int]));
        collect_containers_recursive(&t.children, q.as_str(), out);
        proof {
            assert forall|id: Seq<char>|
                (#[trigger] has_id(out@, id) || is_container_id(tasks@.skip(i + 1), prefix@, id)) <==> (has_id(start, id)
                    || is_container_id(tasks@, prefix@, id)) by {
                assert(is_container_id(tasks@.skip(i as int), prefix@, id) == ((t.has_children() && q@ == id)
                    || is_container_id(t.children@, q@, id) || is_container_id(tasks@.skip(i + 1), prefix@, id)));
                assert(has_id(out@, id) == (has_id(mid, id) || is_container_id(t.children@, q@, id)));
                assert(has_id(mid, id) == (has_id(before, id) || (t.has_children() && id == q@)));
                assert((has_id(before, id) || is_container_id(tasks@.skip(i as int), prefix@, id)) == (has_id(start, id)
                    || is_container_id(tasks@, prefix@, id)));
            }
        }
        let ghost i0 = i as int;
        i = i + 1;
        assert(tasks@.skip(i as int) == tasks@.skip(i0 + 1));
        assert(containers_accounted(out@, tasks@.skip(i0 + 1), start, tasks@, prefix@));
    }
    assert(tasks@.skip(n as int) =~= Seq::<Task>::empty());
}

fn collect_container_ids(project: &Project) -> (r: Vec<String>)
    ensures
        texts(r@).no_duplicates(),
        forall|id: Seq<char>| #[trigger] has_id(r@, id) <==> is_container_id(project.tasks@, Seq::empty(), id),
{
    let mut r: Vec<String> = Vec::new();
    proof {
        reveal_strlit("");
        assert(""@ =~= Seq::<char>::empty());
        assert(texts(r@) =~= Seq::<Seq<char>>::empty());
        assert(forall|id: Seq<char>| !#[trigger] has_id(r@, id));
    }
    collect_containers_recursive(&project.tasks, "", &mut r);
    r
}

/// The qualified ids of the container tasks of a project.
pub open spec fn container_ids(project: Project) -> Set<Seq<char>> {
    Set::new(|id: Seq<char>| is_container_id(project.tasks@, Seq::empty(), id))
}

/// Number of distinct container tasks, which a baseline leaves out.
pub fn count_containers(project: &Project) -> (r: usize)
    ensures
        r == container_ids(*project).len(),
{
    let ids = collect_container_ids(project);
    proof {
        let t = texts(ids@);
        t.unique_seq_to_set();
        assert forall|id: Seq<char>| t.to_set().contains(id) <==> container_ids(*project).contains(id) by {
            if t.to_set().contains(id) {
                let j = choose|j: int| 0 <= j < t.len() && t[j] == id;
                assert(ids@[j]@ == id);
                assert(has_id(ids@, id));
            }
            if container_ids(*project).contains(id) {
                assert(has_id(ids@, id));
                let j = choose|j: int| 0 <= j < ids@.len() && #[trigger] ids@[j]@ == id;
                assert(t[j] == id);
            }
        }
        assert(t.to_set() =~= container_ids(*project));
    }
    ids.len()
}

fn has_scheduled(tasks: &Vec<ScheduledTask>, id: &str) -> (r: bool)
    ensures
        r == exists|j: int| 0 <= j < tasks@.len() && #[trigger] tasks@[j].task_id@ == id@,
{
    let mut j: usize = 0;
    while j < tasks.len()
        invariant
            j <= tasks@.len(),
            forall|k: int| 0 <= k < j ==> #[trigger] tasks@[k].task_id@ != id@,
        decreases tasks@.len() - j,
    {
        if crate::text::str_eq(tasks[j].task_id.as_str(), id) {
            return true;
        }
        j = j + 1;
    }
    false
}

pub(crate) proof fn lemma_scheduled_index_at(s: Schedule, i: int)
    requires
        s.wf(),
        0 <= i < s.tasks@.len(),
    ensures
        scheduled_index(s.tasks@, s.tasks@[i].task_id@) == Some(i),
{
    let id = s.tasks@[i].task_id@;
    assert(s.tasks@[i].task_id@ == id);
    let k = choose|k: int| 0 <= k < s.tasks@.len() && #[trigger] s.tasks@[k].task_id@ == id;
    if k < i {
        assert(s.tasks@[k].task_id@ != s.tasks@[i].task_id@);
    } else if k > i {
        assert(s.tasks@[i].task_id@ != s.tasks@[k].task_id@);
    }
}

proof fn lemma_snapshot_index_at(s: Seq<TaskSnapshot>, m: int)
    requires
        snapshots_sorted(s),
        0 <= m < s.len(),
    ensures
        snapshot_index(s, s[m].task_id@) == Some(m),
{
    let id = s[m].task_id@;
    assert(s[m].task_id@ == id);
    assert(snapshot_index(s, id) is Some);
    let k = snapshot_index(s, id)->0;
    assert(0 <= k < s.len() && s[k].task_id@ == id);
    if k < m {
        assert(order_chars(s[k].task_id@, s[m].task_id@) < 0);
        lemma_order_chars_props(s[k].task_id@, s[m].task_id@, s[m].task_id@);
    } else if k > m {
        assert(order_chars(s[m].task_id@, s[k].task_id@) < 0);
        lemma_order_chars_props(s[m].task_id@, s[k].task_id@, s[k].task_id@);
    }
}

proof fn lemma_insert_variance_sorted(s: Seq<TaskVariance>, x: TaskVariance, pos: int)
    requires
        variances_sorted(s),
        0 <= pos <= s.len(),
        forall|k: int| 0 <= k < pos ==> order_chars(#[trigger] s[k].task_id@, x.task_id@) < 0,
        pos < s.len() ==> order_chars(s[pos].task_id@, x.task_id@) > 0,
    ensures
        variances_sorted(s.insert(pos, x)),
{
    let r = s.insert(pos, x);
    assert forall|i: int, j: int| 0 <= i < j < r.len() implies order_chars(
        #[trigger] r[i].task_id@,
        #[trigger] r[j].task_id@,
    ) < 0 by {
        if j < pos {
            assert(r[i] == s[i] && r[j] == s[j]);
        } else if j == pos {
            assert(r[i] == s[i]);
        } else if i < pos {
            assert(r[i] == s[i] && r[j] == s[j - 1]);
            lemma_order_chars_props(s[i].task_id@, s[pos].task_id@, s[j - 1].task_id@);
            if j - 1 > pos {
                assert(order_chars(s[pos].task_id@, s[j - 1].task_id@) < 0);
            }
            lemma_order_chars_props(s[i].task_id@, x.task_id@, s[pos].task_id@);
            lemma_order_chars_props(x.task_id@, s[pos].task_id@, s[pos].task_id@);
        } else if i == pos {
            assert(r[j] == s[j - 1]);
            lemma_order_chars_props(s[pos].task_id@, x.task_id@, x.task_id@);
            if j - 1 > pos {
                lemma_order_chars_props(x.task_id@, s[pos].task_id@, s[j - 1].task_id@);
            }
        } else {
            assert(r[i] == s[i - 1] && r[j] == s[j - 1]);
        }
    }
}

/// Some variance is for task `id`.
pub open spec fn has_variance(out: Seq<TaskVariance>, id: Seq<char>) -> bool {
    exists|k: int| 0 <= k < out.len() && #[trigger] out[k].task_id@ == id
}

/// Every variance is what the comparison owes for its task.
#[verifier::opaque]
pub open spec fn all_expected(out: Seq<TaskVariance>, schedule: Schedule, baseline: Baseline, tasks: Seq<Task>) -> bool {
    forall|k: int|
        0 <= k < out.len() ==> expected_variance(schedule, baseline, tasks, #[trigger] out[k].task_id@) == Some(
            fields_of(out[k]),
        )
}

/// One of the first `n` scheduled tasks has id `id`.
pub open spec fn among_scheduled(sched: Seq<ScheduledTask>, n: int, id: Seq<char>) -> bool {
    exists|j: int| 0 <= j < n && #[trigger] sched[j].task_id@ == id
}

/// One of the first `m` snapshots has id `id`.
pub open spec fn among_snapshots(snaps: Seq<TaskSnapshot>, m: int, id: Seq<char>) -> bool {
    exists|b: int| 0 <= b < m && #[trigger] snaps[b].task_id@ == id
}

/// Every variance is for one of the first `n` scheduled tasks or one of the
/// first `m` snapshots.
#[verifier::opaque]
pub open spec fn ids_from(out: Seq<TaskVariance>, sched: Seq<ScheduledTask>, n: int, snaps: Seq<TaskSnapshot>, m: int) -> bool {
    forall|k: int|
        0 <= k < out.len() ==> among_scheduled(sched, n, #[trigger] out[k].task_id@) || among_snapshots(
            snaps,
            m,
            out[k].task_id@,
        )
}

/// Each of the first `n` scheduled tasks that is no container has a variance.
#[verifier::opaque]
pub open spec fn covers_scheduled(out: Seq<TaskVariance>, sched: Seq<ScheduledTask>, n: int, tasks: Seq<Task>) -> bool {
    forall|j: int|
        0 <= j < n && !is_container_id(tasks, Seq::empty(), #[trigger] sched[j].task_id@) ==> has_variance(
            out,
            sched[j].task_id@,
        )
}

/// Each of the first `m` snapshots of a task no longer scheduled has a
/// variance.
#[verifier::opaque]
pub open spec fn covers_removed(out: Seq<TaskVariance>, schedule: Schedule, snaps: Seq<TaskSnapshot>, m: int) -> bool {
    forall|b: int|
        0 <= b < m && !schedule.has_task(#[trigger] snaps[b].task_id@) ==> has_variance(out, snaps[b].task_id@)
}

proof fn lemma_has_variance_insert(old: Seq<TaskVariance>, v: TaskVariance, p: int)
    requires
        0 <= p <= old.len(),
    ensures
        forall|id: Seq<char>|
            #[trigger] has_variance(old.insert(p, v), id) <==> (has_variance(old, id) || id == v.task_id@),
{
    let r = old.insert(p, v);
    assert forall|id: Seq<char>| #[trigger] has_variance(r, id) <==> (has_variance(old, id) || id == v.task_id@) by {
        if has_variance(r, id) {
            let k = choose|k: int| 0 <= k < r.len() && #[trigger] r[k].task_id@ == id;
            if k < p {
                assert(r[k] == old[k]);
            } else if k > p {
                assert(r[k] == old[k - 1]);
            }
        }
        if has_variance(old, id) {
            let k = choose|k: int| 0 <= k < old.len() && #[trigger] old[k].task_id@ == id;
            if k < p {
                assert(r[k] == old[k]);
            } else {
                assert(r[k + 1] == old[k]);
            }
        }
        if id == v.task_id@ {
            assert(r[p] == v);
        }
    }
}

proof fn lemma_insert_keeps(
    old: Seq<TaskVariance>,
    v: TaskVariance,
    p: int,
    schedule: Schedule,
    baseline: Baseline,
    tasks: Seq<Task>,
    n: int,
    m: int,
)
    requires
        0 <= p <= old.len(),
        all_expected(old, schedule, baseline, tasks),
        expected_variance(schedule, baseline, tasks, v.task_id@) == Some(fields_of(v)),
        ids_from(old, schedule.tasks@, n, baseline.tasks@, m),
        among_scheduled(schedule.tasks@, n, v.task_id@) || among_snapshots(baseline.tasks@, m, v.task_id@),
    ensures
        all_expected(old.insert(p, v), schedule, baseline, tasks),
        ids_from(old.insert(p, v), schedule.tasks@, n, baseline.tasks@, m),
{
    reveal(all_expected);
    reveal(ids_from);
    let r = old.insert(p, v);
    assert forall|k: int| 0 <= k < r.len() implies expected_variance(
        schedule,
        baseline,
        tasks,
        #[trigger] r[k].task_id@,
    ) == Some(fields_of(r[k])) && (among_scheduled(schedule.tasks@, n, r[k].task_id@) || among_snapshots(
        baseline.tasks@,
        m,
        r[k].task_id@,
    )) by {
        if k < p {
            assert(r[k] == old[k]);
        } else if k > p {
            assert(r[k] == old[k - 1]);
        }
    }
}

proof fn lemma_ids_from_grow(out: Seq<TaskVariance>, sched: Seq<ScheduledTask>, n1: int, n2: int, snaps: Seq<TaskSnapshot>, m1: int, m2: int)
    requires
        ids_from(out, sched, n1, snaps, m1),
        n1 <= n2,
        m1 <= m2,
    ensures
        ids_from(out, sched, n2, snaps, m2),
{
    reveal(ids_from);
    assert forall|k: int| 0 <= k < out.len() implies among_scheduled(sched, n2, #[trigger] out[k].task_id@)
        || among_snapshots(snaps, m2, out[k].task_id@) by {
        let id = out[k].task_id@;
        if among_scheduled(sched, n1, id) {
            let j = choose|j: int| 0 <= j < n1 && #[trigger] sched[j].task_id@ == id;
            assert(0 <= j < n2 && sched[j].task_id@ == id);
        } else {
            let b = choose|b: int| 0 <= b < m1 && #[trigger] snaps[b].task_id@ == id;
            assert(0 <= b < m2 && snaps[b].task_id@ == id);
        }
    }
}

proof fn lemma_fresh_scheduled(out: Seq<TaskVariance>, schedule: Schedule, i: int, snaps: Seq<TaskSnapshot>)
    requires
        schedule.wf(),
        0 <= i < schedule.tasks@.len(),
        ids_from(out, schedule.tasks@, i, snaps, 0),
    ensures
        !has_variance(out, schedule.tasks@[i].task_id@),
{
    reveal(ids_from);
    if has_variance(out, schedule.tasks@[i].task_id@) {
        let k = choose|k: int| 0 <= k < out.len() && #[trigger] out[k].task_id@ == schedule.tasks@[i].task_id@;
        assert(among_scheduled(schedule.tasks@, i, out[k].task_id@) || among_snapshots(snaps, 0, out[k].task_id@));
        let j = choose|j: int| 0 <= j < i && #[trigger] schedule.tasks@[j].task_id@ == out[k].task_id@;
        assert(schedule.tasks@[j].task_id@ != schedule.tasks@[i].task_id@);
    }
}

proof fn lemma_fresh_removed(out: Seq<TaskVariance>, schedule: Schedule, snaps: Seq<TaskSnapshot>, m: int)
    requires
        snapshots_sorted(snaps),
        0 <= m < snaps.len(),
        ids_from(out, schedule.tasks@, schedule.tasks@.len() as int, snaps, m),
        !schedule.has_task(snaps[m].task_id@),
    ensures
        !has_variance(out, snaps[m].task_id@),
{
    reveal(ids_from);
    let id = snaps[m].task_id@;
    if has_variance(out, id) {
        let k = choose|k: int| 0 <= k < out.len() && #[trigger] out[k].task_id@ == id;
        assert(among_scheduled(schedule.tasks@, schedule.tasks@.len() as int, out[k].task_id@) || among_snapshots(
            snaps,
            m,
            out[k].task_id@,
        ));
        if among_scheduled(schedule.tasks@, schedule.tasks@.len() as int, id) {
            let j = choose|j: int| 0 <= j < schedule.tasks@.len() && #[trigger] schedule.tasks@[j].task_id@ == id;
            assert(schedule.tasks@[j].task_id@ == id);
        } else {
            let b = choose|b: int| 0 <= b < m && #[trigger] snaps[b].task_id@ == id;
            assert(order_chars(snaps[b].task_id@, snaps[m].task_id@) < 0);
            lemma_order_chars_props(snaps[b].task_id@, snaps[m].task_id@, snaps[m].task_id@);
        }
    }
}

/// Inserts a variance with a new task id at its place in id order.
fn insert_variance(out: &mut Vec<TaskVariance>, v: TaskVariance)
    requires
        variances_sorted(old(out)@),
        !has_variance(old(out)@, v.task_id@),
    ensures
        variances_sorted(final(out)@),
        exists|p: int| 0 <= p <= old(out)@.len() && final(out)@ == old(out)@.insert(p, v),
{
    let key = crate::text::chars_of(v.task_id.as_str());
    let mut i: usize = 0;
    while i < out.len()
        invariant
            i <= out@.len(),
            key@ == v.task_id@,
            forall|k: int| 0 <= k < i ==> order_chars(#[trigger] out@[k].task_id@, v.task_id@) < 0,
        ensures
            i <= out@.len(),
            forall|k: int| 0 <= k < i ==> order_chars(#[trigger] out@[k].task_id@, v.task_id@) < 0,
            i < out@.len() ==> order_chars(out@[i as int].task_id@, v.task_id@) >= 0,
        decreases out@.len() - i,
    {
        let cur = crate::text::chars_of(out[i].task_id.as_str());
        if compare_chars(cur.as_slice(), key.as_slice()) >= 0 {
            break;
        }
        i = i + 1;
    }
    proof {
        if i < out@.len() {
            assert(out@[i as int].task_id@ != v.task_id@);
            lemma_order_chars_props(out@[i as int].task_id@, v.task_id@, v.task_id@);
        }
        lemma_insert_variance_sorted(out@, v, i as int);
    }
    out.insert(i, v);
}

/// Compares the current schedule against a baseline. Container tasks of
/// the project are skipped; every other scheduled task is compared by its
/// early dates with its snapshot, or reported added; snapshots of tasks no
/// longer scheduled are reported removed. The variances come ordered by
/// task id, followed by their summary.
pub fn compare_schedule_to_baseline(schedule: &Schedule, baseline: &Baseline, project: &Project) -> (r: ScheduleComparison)
    requires
        schedule.wf(),
        baseline.wf(),
        schedule.project_end.wf(),
        forall|i: int|
            0 <= i < schedule.tasks@.len() ==> (#[trigger] schedule.tasks@[i]).early_start.wf()
                && schedule.tasks@[i].early_finish.wf(),
    ensures
        r.baseline_name@ == baseline.name@,
        r.baseline_saved == baseline.saved,
        variances_sorted(r.tasks@),
        forall|k: int|
            0 <= k < r.tasks@.len() ==> expected_variance(*schedule, *baseline, project.tasks@, #[trigger] r.tasks@[k].task_id@)
                == Some(fields_of(r.tasks@[k])),
        forall|id: Seq<char>|
            (#[trigger] expected_variance(*schedule, *baseline, project.tasks@, id)) is Some ==> has_variance(r.tasks@, id),
        r.summary == summary_of(r.tasks@, baseline.project_finish, schedule.project_end),
{
    let containers = collect_container_ids(project);
    let ghost tasks = project.tasks@;
    let ghost sched = schedule.tasks@;
    let ghost snaps = baseline.tasks@;
    let mut out: Vec<TaskVariance> = Vec::new();
    proof {
        reveal(all_expected);
        reveal(ids_from);
        reveal(covers_scheduled);
        reveal(covers_removed);
    }
    let n = schedule.tasks.len();
    let mut i: usize = 0;
    while i < n
        invariant
            n == sched.len(),
            sched == schedule.tasks@,
            snaps == baseline.tasks@,
            tasks == project.tasks@,
            schedule.wf(),
            baseline.wf(),
            forall|j: int|
                0 <= j < sched.len() ==> (#[trigger] sched[j]).early_start.wf() && sched[j].early_finish.wf(),
            forall|id: Seq<char>| #[trigger] has_id(containers@, id) <==> is_container_id(tasks, Seq::empty(), id),
            i <= n,
            variances_sorted(out@),
            all_expected(out@, *schedule, *baseline, tasks),
            ids_from(out@, sched, i as int, snaps, 0),
            covers_scheduled(out@, sched, i as int, tasks),
        decreases n - i,
    {
        let st = &schedule.tasks[i];
        let id = st.task_id.as_str();
        let ghost old_out = out@;
        if !contains_id(&containers, id) {
            let (pos, found) = find_snapshot(&baseline.tasks, id);
            proof {
                lemma_sorted_unique_index(snaps, id@, pos as int, found);
                lemma_scheduled_index_at(*schedule, i as int);
                assert(sched[i as int].early_start.wf() && sched[i as int].early_finish.wf());
                if found {
                    assert(baseline.tasks@[pos as int].wf());
                }
            }
            let v = if found {
                TaskVariance::existing(
                    id,
                    baseline.tasks[pos].start,
                    baseline.tasks[pos].finish,
                    st.early_start,
                    st.early_finish,
                )
            } else {
                TaskVariance::added(id, st.early_start, st.early_finish)
            };
            proof {
                lemma_fresh_scheduled(out@, *schedule, i as int, snaps);
            }
            insert_variance(&mut out, v);
            proof {
                let p = choose|p: int| 0 <= p <= old_out.len() && out@ == old_out.insert(p, v);
                assert(sched[i as int].task_id@ == v.task_id@);
                lemma_ids_from_grow(old_out, sched, i as int, i + 1, snaps, 0, 0);
                lemma_insert_keeps(old_out, v, p, *schedule, *baseline, tasks, i + 1, 0);
                lemma_has_variance_insert(old_out, v, p);
                reveal(covers_scheduled);
                assert(has_variance(out@, v.task_id@));
            }
        } else {
            proof {
                lemma_ids_from_grow(out@, sched, i as int, i + 1, snaps, 0, 0);
                reveal(covers_scheduled);
                assert(has_id(containers@, id@));
            }
        }
        i = i + 1;
    }
    proof {
        lemma_ids_from_grow(out@, sched, n as int, n as int, snaps, 0, 0);
        reveal(covers_removed);
    }
    let m_len = baseline.tasks.len();
    let mut m: usize = 0;
    while m < m_len
        invariant
            n == sched.len(),
            m_len == snaps.len(),
            sched == schedule.tasks@,
            snaps == baseline.tasks@,
            tasks == project.tasks@,
            schedule.wf(),
            baseline.wf(),
            m <= m_len,
            variances_sorted(out@),
            all_expected(out@, *schedule, *baseline, tasks),
            ids_from(out@, sched, n as int, snaps, m as int),
            covers_scheduled(out@, sched, n as int, tasks),
            covers_removed(out@, *schedule, snaps, m as int),
        decreases m_len - m,
    {
        let sn = &baseline.tasks[m];
        let id = sn.task_id.as_str();
        let ghost old_out = out@;
        if !has_scheduled(&schedule.tasks, id) {
            proof {
                lemma_snapshot_index_at(snaps, m as int);
                assert(!schedule.has_task(id@));
                assert(scheduled_index(sched, id@) is None);
                assert(baseline.tasks@[m as int].wf());
                lemma_fresh_removed(out@, *schedule, snaps, m as int);
            }
            let v = TaskVariance::removed(id, sn.start, sn.finish);
            insert_variance(&mut out, v);
            proof {
                let p = choose|p: int| 0 <= p <= old_out.len() && out@ == old_out.insert(p, v);
                assert(snaps[m as int].task_id@ == v.task_id@);
                lemma_ids_from_grow(old_out, sched, n as int, n as int, snaps, m as int, m + 1);
                lemma_insert_keeps(old_out, v, p, *schedule, *baseline, tasks, n as int, m + 1);
                lemma_has_variance_insert(old_out, v, p);
                reveal(covers_scheduled);
                reveal(covers_removed);
                assert(has_variance(out@, v.task_id@));
            }
        } else {
            proof {
                lemma_ids_from_grow(out@, sched, n as int, n as int, snaps, m as int, m + 1);
                reveal(covers_removed);
                assert(schedule.has_task(snaps[m as int].task_id@));
            }
        }
        m = m + 1;
    }
    proof {
        reveal(all_expected);
        reveal(covers_scheduled);
        reveal(covers_removed);
        assert forall|id: Seq<char>|
            (#[trigger] expected_variance(*schedule, *baseline, project.tasks@, id)) is Some implies has_variance(
            out@,
            id,
        ) by {
            match scheduled_index(sched, id) {
                Some(j) => {
                    assert(sched[j].task_id@ == id);
                },
                None => {
                    let b = snapshot_index(snaps, id)->0;
                    assert(snaps[b].task_id@ == id);
                    if schedule.has_task(id) {
                        let j = choose|j: int| 0 <= j < sched.len() && #[trigger] sched[j].task_id@ == id;
                        assert(sched[j].task_id@ == id);
                    }
                },
            }
        }
    }
    let summary = compute_summary(&out, baseline, schedule);
    ScheduleComparison {
        baseline_name: baseline.name.clone(),
        baseline_saved: baseline.saved,
        comparison_date: crate::date::now(),
        tasks: out,
        summary,
    }
}

/// The dates a baseline records for the task `id`: the early dates of a
/// scheduled task that is no container.
pub open spec fn leaf_snapshot_of(schedule: Schedule, tasks: Seq<Task>, id: Seq<char>) -> Option<(Date, Date)> {
    match scheduled_index(schedule.tasks@, id) {
        Some(k) => if is_container_id(tasks, Seq::empty(), id) {
            None
        } else {
            Some((schedule.tasks@[k].early_start, schedule.tasks@[k].early_finish))
        },
        None => None,
    }
}

/// Some snapshot is for task `id`.
pub open spec fn has_snapshot(out: Seq<TaskSnapshot>, id: Seq<char>) -> bool {
    exists|k: int| 0 <= k < out.len() && #[trigger] out[k].task_id@ == id
}

/// Snapshots of the scheduled tasks that are no containers, keyed by their
/// id: what a new baseline records.
pub fn extract_leaf_tasks(schedule: &Schedule, project: &Project) -> (r: Vec<TaskSnapshot>)
    requires
        schedule.wf(),
    ensures
        snapshots_sorted(r@),
        forall|k: int|
            0 <= k < r@.len() ==> leaf_snapshot_of(*schedule, project.tasks@, #[trigger] r@[k].task_id@) == Some(
                (r@[k].start, r@[k].finish),
            ),
        forall|id: Seq<char>|
            (#[trigger] leaf_snapshot_of(*schedule, project.tasks@, id)) is Some ==> has_snapshot(r@, id),
{
    let containers = collect_container_ids(project);
    let ghost tasks = project.tasks@;
    let ghost sched = schedule.tasks@;
    let mut out: Vec<TaskSnapshot> = Vec::new();
    let n = schedule.tasks.len();
    let mut i: usize = 0;
    while i < n
        invariant
            n == sched.len(),
            sched == schedule.tasks@,
            tasks == project.tasks@,
            schedule.wf(),
            forall|id: Seq<char>| #[trigger] has_id(containers@, id) <==> is_container_id(tasks, Seq::empty(), id),
            i <= n,
            snapshots_sorted(out@),
            forall|k: int|
                0 <= k < out@.len() ==> leaf_snapshot_of(*schedule, tasks, #[trigger] out@[k].task_id@) == Some(
                    (out@[k].start, out@[k].finish),
                ),
            forall|k: int| 0 <= k < out@.len() ==> among_scheduled(sched, i as int, #[trigger] out@[k].task_id@),
            forall|j: int|
                0 <= j < i && !is_container_id(tasks, Seq::empty(), #[trigger] sched[j].task_id@) ==> has_snapshot(
                    out@,
                    sched[j].task_id@,
                ),
        decreases n - i,
    {
        let st = &schedule.tasks[i];
        let id = st.task_id.as_str();
        let ghost old_out = out@;
        if !contains_id(&containers, id) {
            let (pos, found) = find_snapshot(&out, id);
            proof {
                lemma_scheduled_index_at(*schedule, i as int);
                if found {
                    let k = pos as int;
                    let j = choose|j: int| 0 <= j < i && #[trigger] sched[j].task_id@ == out@[k].task_id@;
                    assert(sched[j].task_id@ != sched[i as int].task_id@);
                }
                if pos < out@.len() {
                    lemma_order_chars_props(out@[pos as int].task_id@, id@, id@);
                }
            }
            let snap = TaskSnapshot::new(id, st.early_start, st.early_finish);
            proof {
                lemma_insert_sorted(old_out, snap, pos as int);
            }
            out.insert(pos, snap);
            proof {
                let r = out@;
                assert forall|k: int| 0 <= k < r.len() implies leaf_snapshot_of(
                    *schedule,
                    tasks,
                    #[trigger] r[k].task_id@,
                ) == Some((r[k].start, r[k].finish)) && among_scheduled(sched, i + 1, r[k].task_id@) by {
                    if k < pos {
                        assert(r[k] == old_out[k]);
                        let j = choose|j: int| 0 <= j < i && #[trigger] sched[j].task_id@ == r[k].task_id@;
                        assert(0 <= j < i + 1 && sched[j].task_id@ == r[k].task_id@);
                    } else if k > pos {
                        assert(r[k] == old_out[k - 1]);
                        let j = choose|j: int| 0 <= j < i && #[trigger] sched[j].task_id@ == r[k].task_id@;
                        assert(0 <= j < i + 1 && sched[j].task_id@ == r[k].task_id@);
                    } else {
                        assert(sched[i as int].task_id@ == r[k].task_id@);
                    }
                }
                assert forall|j: int|
                    0 <= j < i + 1 && !is_container_id(tasks, Seq::empty(), #[trigger] sched[j].task_id@) implies has_snapshot(
                    r,
                    sched[j].task_id@,
                ) by {
                    if j < i {
                        let k = choose|k: int| 0 <= k < old_out.len() && #[trigger] old_out[k].task_id@ == sched[j].task_id@;
                        if k < pos {
                            assert(r[k] == old_out[k]);
                        } else {
                            assert(r[k + 1] == old_out[k]);
                        }
                    } else {
                        assert(r[pos as int].task_id@ == sched[j].task_id@);
                    }
                }
            }
        } else {
            proof {
                assert(has_id(containers@, id@));
                assert forall|k: int| 0 <= k < out@.len() implies among_scheduled(sched, i + 1, #[trigger] out@[k].task_id@) by {
                    let j = choose|j: int| 0 <= j < i && #[trigger] sched[j].task_id@ == out@[k].task_id@;
                    assert(0 <= j < i + 1 && sched[j].task_id@ == out@[k].task_id@);
                }
            }
        }
        i = i + 1;
    }
    proof {
        assert forall|id: Seq<char>|
            (#[trigger] leaf_snapshot_of(*schedule, project.tasks@, id)) is Some implies has_snapshot(out@, id) by {
            let j = scheduled_index(sched, id)->0;
            assert(sched[j].task_id@ == id);
        }
    }
    out
}

} // verus!
