//! Synthetic benchmark projects built without parsing: a chain, a diamond
//! and a layered web of one-day tasks.
use vstd::prelude::*;
use crate::date::Date;
use crate::model::{Dependency, DependencyType, Duration};
use crate::project::{Project, Task};
use crate::text::{decimal, push_char, push_str, u64_to_string};

verus! {

/// `n` in decimal, padded with zeros on the left to `width` digits.
pub open spec fn zero_padded(n: nat, width: nat) -> Seq<char> {
    let d = decimal(n);
    if d.len() < width {
        Seq::new((width - d.len()) as nat, |i: int| '0') + d
    } else {
        d
    }
}

/// A numbered identifier: the prefix and the number in six digits.
pub open spec fn numbered(prefix: Seq<char>, n: nat) -> Seq<char> {
    prefix + zero_padded(n, 6)
}

/// A finish-to-start dependency without lag on `pred`.
pub open spec fn plain_dependency_on(d: Dependency, pred: Seq<char>) -> bool {
    d.predecessor@ == pred && d.dep_type == DependencyType::FinishToStart && d.lag is None
}

/// A generated task: the given identifier and name, `days` days long,
/// finish-to-start dependencies without lag on `preds` in order, and
/// nothing else set.
pub open spec fn generated_task(t: Task, id: Seq<char>, name: Seq<char>, days: int, preds: Seq<Seq<char>>) -> bool {
    &&& t.id@ == id
    &&& t.name@ == name
    &&& t.summary is None
    &&& t.effort is None
    &&& t.duration matches Some(d) && d.minutes == days * 480
    &&& t.depends@.len() == preds.len()
    &&& forall|k: int| 0 <= k < preds.len() ==> plain_dependency_on(#[trigger] t.depends@[k], preds[k])
    &&& t.assigned@.len() == 0
    &&& t.priority == 500
    &&& t.constraints@.len() == 0
    &&& !t.milestone
    &&& t.children@.len() == 0
    &&& t.complete is None
    &&& t.actual_start is None
    &&& t.actual_finish is None
    &&& t.status is None
    &&& t.attributes@.len() == 0
}

/// A generated project: the given name, starting on Monday 2025-01-06
/// with the standard calendar, and no resources.
pub open spec fn generated_project(p: Project, name: Seq<char>) -> bool {
    &&& p.id@.len() == 0
    &&& p.name@ == name
    &&& p.start == (Date { year: 2025, month: 1, day: 6 })
    &&& p.end is None
    &&& p.calendar@ == "default"@
    &&& p.currency@ == "USD"@
    &&& p.resources@.len() == 0
    &&& p.calendars@.len() == 1
    &&& p.calendars@[0].id@ == "default"@
    &&& p.attributes@.len() == 0
    &&& p.profiles@.len() == 0
    &&& p.traits@.len() == 0
}

/// The prefix and `n` in six digits (see `numbered`).
pub fn numbered_id(prefix: &str, n: u64) -> (r: String)
    ensures
        r@ == numbered(prefix@, n as nat),
{
    let d = u64_to_string(n);
    let mut r = String::new();
    push_str(&mut r, prefix);
    let len = d.as_str().unicode_len();
    let ghost base = r@;
    let mut k: usize = len;
    while k < 6
        invariant
            len == decimal(n as nat).len(),
            len <= k <= 6 || (len > 6 && k == len),
            r@ == base + Seq::new((k - len) as nat, |i: int| '0'),
        decreases 6 - k,
    {
        let ghost before = r@;
        push_char(&mut r, '0');
        assert(r@ =~= base + Seq::new((k + 1 - len) as nat, |i: int| '0'));
        k = k + 1;
    }
    push_str(&mut r, d.as_str());
    proof {
        if len < 6 {
            assert(r@ =~= prefix@ + (Seq::new((6 - len) as nat, |i: int| '0') + decimal(n as nat)));
        } else {
            assert(Seq::new((k - len) as nat, |i: int| '0') =~= Seq::<char>::empty());
            assert(r@ =~= prefix@ + decimal(n as nat));
        }
    }
    r
}

/// The prefix followed by `n` in decimal.
fn labelled(prefix: &str, n: u64) -> (r: String)
    ensures
        r@ == prefix@ + decimal(n as nat),
{
    let mut r = String::new();
    push_str(&mut r, prefix);
    let d = u64_to_string(n);
    push_str(&mut r, d.as_str());
    r
}

/// A task of the given identifier and name, one day long, depending on
/// `preds`.
fn one_day_task(id: &str, name: &str, preds: &Vec<String>) -> (t: Task)
    ensures
        generated_task(t, id@, name@, 1, preds@.map_values(|p: String| p@)),
{
    let mut t = Task::new(id).name(name).duration(Duration::days(1));
    let mut k: usize = 0;
    while k < preds.len()
        invariant
            k <= preds@.len(),
            generated_task(t, id@, name@, 1, preds@.map_values(|p: String| p@).take(k as int)),
        decreases preds@.len() - k,
    {
        let ghost before = t;
        t = t.depends_on(preds[k].as_str());
        assert forall|j: int| 0 <= j < k + 1 implies plain_dependency_on(
            #[trigger] t.depends@[j],
            preds@.map_values(|p: String| p@).take(k + 1)[j],
        ) by {
            if j < k {
                assert(t.depends@[j] == before.depends@[j]);
            }
        }
        k = k + 1;
    }
    assert(preds@.map_values(|p: String| p@).take(preds@.len() as int) =~= preds@.map_values(|p: String| p@));
    t
}

/// The dependencies of the `i`-th task of a chain: the task before it.
pub open spec fn chain_preds(i: nat) -> Seq<Seq<char>> {
    if i == 0 {
        Seq::empty()
    } else {
        seq![numbered("task_"@, (i - 1) as nat)]
    }
}

/// A linear chain `task_000000 -> task_000001 -> ...` of `task_count`
/// one-day tasks named `Task <i>`.
pub fn generate_chain(task_count: usize) -> (p: Project)
    ensures
        generated_project(p, "Chain Benchmark"@),
        p.tasks@.len() == task_count,
        forall|i: int|
            0 <= i < task_count ==> generated_task(
                #[trigger] p.tasks@[i],
                numbered("task_"@, i as nat),
                "Task "@ + decimal(i as nat),
                1,
                chain_preds(i as nat),
            ),
{
    let mut p = Project::new("Chain Benchmark");
    p.start = Date { year: 2025, month: 1, day: 6 };
    let mut tasks: Vec<Task> = Vec::new();
    let mut i: usize = 0;
    while i < task_count
        invariant
            i <= task_count,
            tasks@.len() == i,
            forall|j: int|
                0 <= j < i ==> generated_task(
                    #[trigger] tasks@[j],
                    numbered("task_"@, j as nat),
                    "Task "@ + decimal(j as nat),
                    1,
                    chain_preds(j as nat),
                ),
        decreases task_count - i,
    {
        let id = numbered_id("task_", i as u64);
        let name = labelled("Task ", i as u64);
        let mut preds: Vec<String> = Vec::new();
        if i > 0 {
            preds.push(numbered_id("task_", (i - 1) as u64));
        }
        assert(preds@.map_values(|p: String| p@) =~= chain_preds(i as nat));
        let t = one_day_task(id.as_str(), name.as_str(), &preds);
        tasks.push(t);
        i = i + 1;
    }
    p.tasks = tasks;
    p
}

/// The dependencies of the end task of a diamond: every middle task.
pub open spec fn middle_ids(n: nat) -> Seq<Seq<char>> {
    Seq::new(n, |i: int| numbered("middle_"@, i as nat))
}

/// A diamond: `start`, then `parallel_count` one-day tasks
/// `middle_000000`, ... that depend on it, then `end`, which depends on
/// all of them.
pub fn generate_diamond(parallel_count: usize) -> (p: Project)
    ensures
        generated_project(p, "Diamond Benchmark"@),
        p.tasks@.len() == parallel_count + 2,
        generated_task(p.tasks@[0], "start"@, "Start"@, 1, Seq::empty()),
        forall|i: int|
            0 <= i < parallel_count ==> generated_task(
                #[trigger] p.tasks@[i + 1],
                numbered("middle_"@, i as nat),
                "Middle "@ + decimal(i as nat),
                1,
                seq!["start"@],
            ),
        generated_task(p.tasks@[parallel_count + 1], "end"@, "End"@, 1, middle_ids(parallel_count as nat)),
{
    let mut p = Project::new("Diamond Benchmark");
    p.start = Date { year: 2025, month: 1, day: 6 };
    let mut tasks: Vec<Task> = Vec::new();
    let none: Vec<String> = Vec::new();
    assert(none@.map_values(|p: String| p@) =~= Seq::<Seq<char>>::empty());
    tasks.push(one_day_task("start", "Start", &none));
    let mut on_start: Vec<String> = Vec::new();
    on_start.push("start".to_string());
    assert(on_start@.map_values(|p: String| p@) =~= seq!["start"@]);
    let mut middles: Vec<String> = Vec::new();
    let mut i: usize = 0;
    while i < parallel_count
        invariant
            i <= parallel_count,
            tasks@.len() == i + 1,
            generated_task(tasks@[0], "start"@, "Start"@, 1, Seq::empty()),
            on_start@.map_values(|p: String| p@) == seq!["start"@],
            middles@.map_values(|p: String| p@) == middle_ids(i as nat),
            forall|j: int|
                0 <= j < i ==> generated_task(
                    #[trigger] tasks@[j + 1],
                    numbered("middle_"@, j as nat),
                    "Middle "@ + decimal(j as nat),
                    1,
                    seq!["start"@],
                ),
        decreases parallel_count - i,
    {
        let id = numbered_id("middle_", i as u64);
        let name = labelled("Middle ", i as u64);
        let t = one_day_task(id.as_str(), name.as_str(), &on_start);
        tasks.push(t);
        let ghost before = middles@;
        middles.push(id);
        assert(middles@.map_values(|p: String| p@) =~= before.map_values(|p: String| p@).push(
            numbered("middle_"@, i as nat),
        ));
        assert(middle_ids((i + 1) as nat) =~= middle_ids(i as nat).push(numbered("middle_"@, i as nat)));
        i = i + 1;
    }
    tasks.push(one_day_task("end", "End", &middles));
    p.tasks = tasks;
    p
}

/// `l` is the ceiling of the square root of `n`: the least `l` with
/// `l * l >= n`.
pub open spec fn is_ceil_sqrt(n: nat, l: nat) -> bool {
    l * l >= n && (l == 0 || (l - 1) * (l - 1) < n)
}

/// The ceiling of the square root of `n`.
pub open spec fn ceil_sqrt(n: nat) -> nat {
    choose|l: nat| is_ceil_sqrt(n, l)
}

proof fn lemma_ceil_sqrt_unique(n: nat, l: nat)
    requires
        is_ceil_sqrt(n, l),
    ensures
        ceil_sqrt(n) == l,
{
    let c = ceil_sqrt(n);
    assert(is_ceil_sqrt(n, c));
    if c < l {
        assert((l - 1) * (l - 1) >= c * c) by (nonlinear_arith)
            requires
                c < l,
        ;
    } else if c > l {
        assert((c - 1) * (c - 1) >= l * l) by (nonlinear_arith)
            requires
                l < c,
        ;
    }
}

fn square_below(l: usize, n: usize) -> (r: bool)
    ensures
        r == (l * l < n),
{
    let x = l as u128;
    assert(x * x <= u128::MAX) by (nonlinear_arith)
        requires
            x <= 0xffff_ffff_ffff_ffffu128,
    ;
    x * x < n as u128
}

/// The task that the `d`-th dependency of task `t` names, in a web whose
/// layers hold `l` tasks: offset `(t + 7d) % l` in the layer before.
pub open spec fn web_pred_index(t: nat, l: nat, d: int) -> nat {
    ((t / l - 1) * l + (t + 7 * d) % (l as int)) as nat
}

/// A web has no cycle: every dependency names an earlier task.
pub proof fn lemma_web_preds_earlier(t: nat, l: nat, d: int)
    requires
        l > 0,
        t / l > 0,
        0 <= d,
    ensures
        web_pred_index(t, l, d) < t,
{
    let layer = t / l;
    assert(layer * l <= t) by (nonlinear_arith)
        requires
            layer == t / l,
            l > 0,
    ;
    assert((layer - 1) * l + l == layer * l) by (nonlinear_arith);
    assert((t + 7 * d) % (l as int) < l);
}

/// The dependencies of task `t` of a web whose layers hold `l` tasks:
/// none in the first layer; otherwise `1 + t % 3` tasks of the layer
/// before, the `d`-th of them at offset `(t + 7d) % l` in that layer.
pub open spec fn web_preds(t: nat, l: nat) -> Seq<Seq<char>> {
    let layer = t / l;
    if layer == 0 {
        Seq::empty()
    } else {
        Seq::new((1 + t % 3) as nat, |d: int| numbered("task_"@, web_pred_index(t, l, d)))
    }
}

/// A layered web of `task_count` one-day tasks `task_000000`, ...: the
/// layers hold `ceil_sqrt(task_count)` tasks each, and each task after the
/// first layer depends on one to three tasks of the layer before (see
/// `web_preds`).
pub fn generate_web(task_count: usize) -> (p: Project)
    ensures
        generated_project(p, "Web Benchmark"@),
        p.tasks@.len() == task_count,
        forall|t: int|
            0 <= t < task_count ==> generated_task(
                #[trigger] p.tasks@[t],
                numbered("task_"@, t as nat),
                "Task "@ + decimal(t as nat),
                1,
                web_preds(t as nat, ceil_sqrt(task_count as nat)),
            ),
{
    let mut p = Project::new("Web Benchmark");
    p.start = Date { year: 2025, month: 1, day: 6 };
    if task_count == 0 {
        return p;
    }
    let n = task_count;
    let mut l: usize = 0;
    while square_below(l, n)
        invariant
            0 < n,
            l <= n,
            l == 0 || (l - 1) * (l - 1) < n,
        decreases n - l,
    {
        assert(l < n) by (nonlinear_arith)
            requires
                l * l < n,
        ;
        l = l + 1;
    }
    proof {
        lemma_ceil_sqrt_unique(n as nat, l as nat);
    }
    assert(l > 0);
    let mut tasks: Vec<Task> = Vec::new();
    let mut t: usize = 0;
    while t < n
        invariant
            t <= n,
            0 < l,
            ceil_sqrt(n as nat) == l,
            tasks@.len() == t,
            forall|j: int|
                0 <= j < t ==> generated_task(
                    #[trigger] tasks@[j],
                    numbered("task_"@, j as nat),
                    "Task "@ + decimal(j as nat),
                    1,
                    web_preds(j as nat, l as nat),
                ),
        decreases n - t,
    {
        let layer = t / l;
        let mut preds: Vec<String> = Vec::new();
        let ghost want = web_preds(t as nat, l as nat);
        if layer > 0 {
            let count = 1 + t % 3;
            assert(layer * l <= t) by (nonlinear_arith)
                requires
                    layer == t / l,
                    l > 0,
            ;
            assert((layer - 1) * l + l <= t) by (nonlinear_arith)
                requires
                    layer * l <= t,
                    layer >= 1,
            ;
            let prev_start = (layer - 1) * l;
            let mut d: usize = 0;
            while d < count
                invariant
                    d <= count,
                    count == 1 + t % 3,
                    0 < l,
                    layer == t / l,
                    layer > 0,
                    prev_start == (layer - 1) * l,
                    prev_start + l <= t,
                    want == web_preds(t as nat, l as nat),
                    preds@.map_values(|p: String| p@) == want.take(d as int),
                decreases count - d,
            {
                let off = ((t as u128 + (d as u128) * 7) % (l as u128)) as usize;
                let id = numbered_id("task_", (prev_start + off) as u64);
                let ghost before = preds@;
                preds.push(id);
                assert(preds@.map_values(|p: String| p@) =~= before.map_values(|p: String| p@).push(id@));
                assert(want.take(d + 1) =~= want.take(d as int).push(want[d as int]));
                d = d + 1;
            }
            assert(want.take(count as int) =~= want);
        } else {
            assert(preds@.map_values(|p: String| p@) =~= want);
        }
        let id = numbered_id("task_", t as u64);
        let name = labelled("Task ", t as u64);
        tasks.push(one_day_task(id.as_str(), name.as_str(), &preds));
        t = t + 1;
    }
    p.tasks = tasks;
    p
}

} // verus!
