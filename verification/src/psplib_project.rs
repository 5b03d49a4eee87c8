//! Turning a PSPLIB instance into a project: one task per job with a
//! positive duration, finish-to-start dependencies on its predecessors,
//! assignments by request over capacity, one resource per capacity entry,
//! and a calendar that works around the clock every day.
use vstd::prelude::*;
use std::collections::HashMap;
use crate::date::Date;
use crate::model::{Dependency, DependencyType, Duration};
use crate::project::{Calendar, Project, Resource, ResourceRef, Task, TimeRange};
use crate::psplib::{PsplibInstance, named_view};
use crate::text::{decimal, push_str, u64_to_string};

verus! {

/// What std's `str::to_lowercase` gives for `s`.
pub uninterp spec fn lowercased(s: Seq<char>) -> Seq<char>;

/// An ASCII capital letter made small; any other character unchanged.
pub open spec fn ascii_lower(c: char) -> char {
    if 65 <= c as u32 <= 90 {
        ((c as u32) + 32) as char
    } else {
        c
    }
}

/// Every character of `s` is ASCII.
pub open spec fn is_ascii_text(s: Seq<char>) -> bool {
    forall|i: int| 0 <= i < s.len() ==> (#[trigger] s[i] as u32) < 128
}

/// Text in lower case: ASCII text with its capital letters made small;
/// beyond ASCII what std's `str::to_lowercase` gives.
pub open spec fn lowercase_of(s: Seq<char>) -> Seq<char> {
    if is_ascii_text(s) {
        s.map_values(|c: char| ascii_lower(c))
    } else {
        lowercased(s)
    }
}

/// std's `str::to_lowercase` (Unicode lowercase mapping); on ASCII text it
/// turns exactly the capital letters into small ones.
#[verifier::external_body]
fn text_to_lowercase(s: &str) -> (r: String)
    ensures
        r@ == lowercase_of(s@),
        !is_ascii_text(s@) ==> r@ == lowercased(s@),
{
    s.to_lowercase()
}

/// Strictly increasing.
pub open spec fn ascending(s: Seq<u32>) -> bool {
    forall|i: int, j: int| 0 <= i < j < s.len() ==> s[i] < s[j]
}

/// `q` lists the members of `s` in increasing order.
pub open spec fn lists_in_order(q: Seq<u32>, s: Set<u32>) -> bool {
    &&& ascending(q)
    &&& forall|e: u32| #[trigger] q.contains(e) <==> s.contains(e)
}

/// The jobs with a positive duration (the supersource and the supersink
/// take no time).
pub open spec fn real_jobs(inst: PsplibInstance) -> Set<u32> {
    inst.durations@.dom().filter(|k: u32| inst.durations@[k] > 0)
}

/// The jobs with a positive duration that have `j` among their successors.
pub open spec fn predecessors_of(inst: PsplibInstance, j: u32) -> Set<u32> {
    inst.precedence@.dom().filter(
        |p: u32| inst.precedence@[p]@.contains(j) && inst.durations@.contains_key(p) && inst.durations@[p] > 0,
    )
}

/// The identifier of the task for job `j`.
pub open spec fn job_id(j: u32) -> Seq<char> {
    "j"@ + decimal(j as nat)
}

/// The amount given for `name` by the first entry that names it.
pub open spec fn first_amount(list: Seq<(Seq<char>, u32)>, name: Seq<char>) -> Option<u32>
    decreases list.len(),
{
    if list.len() == 0 {
        None
    } else if list[0].0 == name {
        Some(list[0].1)
    } else {
        first_amount(list.drop_first(), name)
    }
}

/// The capacity of a resource: its first entry, 10 where it has none.
pub open spec fn capacity_of(inst: PsplibInstance, name: Seq<char>) -> u32 {
    match first_amount(named_view(inst.capacities@), name) {
        Some(c) => c,
        None => 10,
    }
}

/// A request as a percentage of the capacity, rounded half up and capped
/// at `u32::MAX`; a capacity of 0 gives `u32::MAX`.
pub open spec fn units_percent_of(demand: u32, capacity: u32) -> u32 {
    if capacity == 0 {
        u32::MAX
    } else {
        let q = (demand * 100 + capacity / 2) / capacity as int;
        if q > u32::MAX {
            u32::MAX
        } else {
            q as u32
        }
    }
}

/// The assignments of job `j`, as resource and units: one per request, in
/// order, on the lowercased resource name.
pub open spec fn job_assignments(inst: PsplibInstance, j: u32) -> Seq<(Seq<char>, u32)> {
    match inst.demands@.get(j) {
        Some(v) => named_view(v@).map_values(
            |e: (Seq<char>, u32)| (lowercase_of(e.0), units_percent_of(e.1, capacity_of(inst, e.0))),
        ),
        None => Seq::empty(),
    }
}

/// The assignments of a task, as resource and units.
pub open spec fn assigned_view(v: Seq<ResourceRef>) -> Seq<(Seq<char>, u32)> {
    v.map_values(|a: ResourceRef| (a.resource_id@, a.units_percent))
}

/// `t` is the task for job `j`: named after it, lasting its duration in
/// days, depending finish-to-start on its predecessors in increasing
/// order, and assigned by its requests.
pub open spec fn job_task(inst: PsplibInstance, j: u32, t: Task) -> bool {
    &&& t.id@ == job_id(j)
    &&& t.name@ == "Job "@ + decimal(j as nat)
    &&& t.summary is None
    &&& t.effort is None
    &&& t.duration == Some(Duration { minutes: (inst.durations@[j] * 480) as i64 })
    &&& exists|preds: Seq<u32>|
        #![trigger lists_in_order(preds, predecessors_of(inst, j))]
        lists_in_order(preds, predecessors_of(inst, j)) && t.depends@.len() == preds.len() && forall|i: int|
            0 <= i < preds.len() ==> {
                &&& (#[trigger] t.depends@[i]).predecessor@ == job_id(preds[i])
                &&& t.depends@[i].dep_type == DependencyType::FinishToStart
                &&& t.depends@[i].lag is None
            }
    &&& assigned_view(t.assigned@) == job_assignments(inst, j)
    &&& t.priority == 500
    &&& t.constraints@.len() == 0
    &&& !t.milestone
    &&& t.children@.len() == 0
    &&& t.complete is None
    &&& t.actual_start is None
    &&& t.actual_finish is None
    &&& t.status is None
    &&& t.attributes@.len() == 0
}

/// The calendar of a PSPLIB project: every day, around the clock.
pub open spec fn continuous_calendar(c: Calendar) -> bool {
    &&& c.id@ == "continuous"@
    &&& c.name@ == "Continuous"@
    &&& c.working_hours@ == seq![TimeRange { start: 0, end: 1440 }]
    &&& c.working_days@ == seq![0u8, 1u8, 2u8, 3u8, 4u8, 5u8, 6u8]
    &&& c.holidays@.len() == 0
}

fn insert_in_order(v: &mut Vec<u32>, x: u32)
    requires
        ascending(old(v)@),
    ensures
        ascending(final(v)@),
        forall|e: u32| #[trigger] final(v)@.contains(e) <==> (old(v)@.contains(e) || e == x),
{
    let mut k: usize = 0;
    while k < v.len() && v[k] < x
        invariant
            k <= v@.len(),
            forall|i: int| 0 <= i < k ==> v@[i] < x,
        decreases v@.len() - k,
    {
        k = k + 1;
    }
    if k < v.len() && v[k] == x {
        assert(v@.contains(x));
        return;
    }
    let ghost before = v@;
    v.insert(k, x);
    proof {
        before.insert_ensures(k as int, x);
        assert forall|i: int, j: int| 0 <= i < j < v@.len() implies v@[i] < v@[j] by {
            if j < k {
            } else if j == k {
            } else if i < k {
                assert(v@[j] == before[j - 1]);
                assert(before[j - 1] >= before[k as int]);
            } else if i == k {
                assert(v@[j] == before[j - 1]);
                if j - 1 > k {
                    assert(before[k as int] < before[j - 1]);
                }
            } else {
                assert(v@[j] == before[j - 1]);
                assert(v@[i] == before[i - 1]);
            }
        }
        assert forall|e: u32| #[trigger] v@.contains(e) <==> (before.contains(e) || e == x) by {
            if v@.contains(e) {
                let i = choose|i: int| 0 <= i < v@.len() && v@[i] == e;
                if i < k {
                    assert(before[i] == e);
                } else if i > k {
                    assert(before[i - 1] == e);
                }
            }
            if before.contains(e) {
                let i = choose|i: int| 0 <= i < before.len() && before[i] == e;
                if i < k {
                    assert(v@[i] == e);
                } else {
                    assert(v@[i + 1] == e);
                }
            }
            if e == x {
                assert(v@[k as int] == x);
            }
        }
    }
}

/// The keys of a map in increasing order.
fn keys_in_order<V>(m: &HashMap<u32, V>) -> (r: Vec<u32>)
    ensures
        lists_in_order(r@, m@.dom()),
{
    broadcast use vstd::std_specs::hash::group_hash_axioms;

    let mut keys: Vec<u32> = Vec::new();
    for k in it: m.keys()
        invariant
            keys@.len() == it.index(),
            forall|i: int| 0 <= i < keys@.len() ==> keys@[i] == *it.seq()[i],
    {
        keys.push(*k);
    }
    let ghost ks = vstd::std_specs::iter::IteratorSpec::remaining(&vstd::std_specs::hash::spec_keys_iter(m)).unref();
    assert(keys@ =~= ks);
    assert(ks.to_set() == m@.dom());
    let mut r: Vec<u32> = Vec::new();
    let mut i: usize = 0;
    while i < keys.len()
        invariant
            i <= keys@.len(),
            ascending(r@),
            forall|e: u32| #[trigger] r@.contains(e) <==> keys@.take(i as int).contains(e),
        decreases keys@.len() - i,
    {
        let ghost prev = keys@.take(i as int);
        insert_in_order(&mut r, keys[i]);
        let ghost next = keys@.take(i + 1);
        assert forall|e: u32| #[trigger] r@.contains(e) <==> next.contains(e) by {
            assert(next =~= prev.push(keys@[i as int]));
            if prev.contains(e) {
                let j = choose|j: int| 0 <= j < prev.len() && prev[j] == e;
                assert(next[j] == e);
            }
            if next.contains(e) {
                let j = choose|j: int| 0 <= j < next.len() && next[j] == e;
                if j < i {
                    assert(prev[j] == e);
                }
            }
            if e == keys@[i as int] {
                assert(next[i as int] == e);
            }
        }
        i = i + 1;
    }
    assert(keys@.take(keys@.len() as int) =~= keys@);
    assert forall|e: u32| #[trigger] r@.contains(e) <==> m@.dom().contains(e) by {
        assert(ks.to_set().contains(e) <==> ks.contains(e));
    }
    r
}

fn vec_has(v: &Vec<u32>, x: u32) -> (r: bool)
    ensures
        r == v@.contains(x),
{
    let mut i: usize = 0;
    while i < v.len()
        invariant
            i <= v@.len(),
            forall|j: int| 0 <= j < i ==> v@[j] != x,
        decreases v@.len() - i,
    {
        if v[i] == x {
            assert(v@[i as int] == x);
            return true;
        }
        i = i + 1;
    }
    false
}

fn capacity_for(inst: &PsplibInstance, name: &str) -> (r: u32)
    ensures
        r == capacity_of(*inst, name@),
{
    let ghost caps = named_view(inst.capacities@);
    assert(caps.skip(0) =~= caps);
    let mut i: usize = 0;
    while i < inst.capacities.len()
        invariant
            i <= caps.len(),
            caps == named_view(inst.capacities@),
            first_amount(caps, name@) == first_amount(caps.skip(i as int), name@),
        decreases caps.len() - i,
    {
        assert(caps.skip(i as int)[0] == (inst.capacities@[i as int].0@, inst.capacities@[i as int].1));
        assert(caps.skip(i as int).drop_first() =~= caps.skip(i + 1));
        if crate::text::str_eq(inst.capacities[i].0.as_str(), name) {
            return inst.capacities[i].1;
        }
        i = i + 1;
    }
    assert(caps.skip(i as int) =~= Seq::<(Seq<char>, u32)>::empty());
    10
}

fn units_percent(demand: u32, capacity: u32) -> (r: u32)
    ensures
        r == units_percent_of(demand, capacity),
{
    if capacity == 0 {
        u32::MAX
    } else {
        let q: u64 = (demand as u64 * 100 + capacity as u64 / 2) / capacity as u64;
        if q > u32::MAX as u64 {
            u32::MAX
        } else {
            q as u32
        }
    }
}

fn job_id_string(j: u32) -> (r: String)
    ensures
        r@ == job_id(j),
{
    let mut r = String::new();
    push_str(&mut r, "j");
    let n = u64_to_string(j as u64);
    push_str(&mut r, n.as_str());
    proof {
        reveal_strlit("j");
    }
    r
}

fn assignments_of(inst: &PsplibInstance, j: u32) -> (r: Vec<ResourceRef>)
    ensures
        assigned_view(r@) == job_assignments(*inst, j),
{
    broadcast use vstd::std_specs::hash::group_hash_axioms;

    let mut r: Vec<ResourceRef> = Vec::new();
    match inst.demands.get(&j) {
        Some(v) => {
            let ghost want = job_assignments(*inst, j);
            let mut i: usize = 0;
            while i < v.len()
                invariant
                    i <= v@.len(),
                    inst.demands@.get(j) == Some(*v),
                    want == job_assignments(*inst, j),
                    want.len() == v@.len(),
                    assigned_view(r@) =~= want.take(i as int),
                decreases v@.len() - i,
            {
                let name = v[i].0.as_str();
                let cap = capacity_for(inst, name);
                let id = text_to_lowercase(name);
                let units = units_percent(v[i].1, cap);
                assert(named_view(v@)[i as int] == (v@[i as int].0@, v@[i as int].1));
                assert(want[i as int] == (lowercase_of(v@[i as int].0@), units_percent_of(
                    v@[i as int].1,
                    capacity_of(*inst, v@[i as int].0@),
                )));
                let ghost old_r = r@;
                r.push(ResourceRef { resource_id: id, units_percent: units });
                assert(assigned_view(r@) =~= assigned_view(old_r).push(want[i as int]));
                assert(want.take(i + 1) =~= want.take(i as int).push(want[i as int]));
                i = i + 1;
            }
            assert(want.take(i as int) =~= want);
        },
        None => {
            assert(assigned_view(r@) =~= job_assignments(*inst, j));
        },
    }
    r
}

fn dependencies_of(inst: &PsplibInstance, j: u32, pred_keys: &Vec<u32>) -> (r: Vec<Dependency>)
    requires
        lists_in_order(pred_keys@, inst.precedence@.dom()),
    ensures
        exists|preds: Seq<u32>|
            #![trigger lists_in_order(preds, predecessors_of(*inst, j))]
            lists_in_order(preds, predecessors_of(*inst, j)) && r@.len() == preds.len() && forall|i: int|
                0 <= i < preds.len() ==> {
                    &&& (#[trigger] r@[i]).predecessor@ == job_id(preds[i])
                    &&& r@[i].dep_type == DependencyType::FinishToStart
                    &&& r@[i].lag is None
                },
{
    broadcast use vstd::std_specs::hash::group_hash_axioms;

    let mut r: Vec<Dependency> = Vec::new();
    let ghost mut preds: Seq<u32> = Seq::empty();
    let mut k: usize = 0;
    while k < pred_keys.len()
        invariant
            k <= pred_keys@.len(),
            lists_in_order(pred_keys@, inst.precedence@.dom()),
            ascending(preds),
            forall|e: u32| #[trigger]
                preds.contains(e) <==> (pred_keys@.take(k as int).contains(e) && predecessors_of(*inst, j).contains(e)),
            forall|x: int| 0 <= x < preds.len() ==> exists|y: int| 0 <= y < k && pred_keys@[y] == #[trigger] preds[x],
            r@.len() == preds.len(),
            forall|i: int|
                0 <= i < preds.len() ==> {
                    &&& (#[trigger] r@[i]).predecessor@ == job_id(preds[i])
                    &&& r@[i].dep_type == DependencyType::FinishToStart
                    &&& r@[i].lag is None
                },
        decreases pred_keys@.len() - k,
    {
        let p = pred_keys[k];
        assert(pred_keys@.contains(p));
        let succ = inst.precedence.get(&p);
        let is_pred = match succ {
            Some(s) => vec_has(s, j) && match inst.durations.get(&p) {
                Some(d) => *d > 0,
                None => false,
            },
            None => false,
        };
        assert(is_pred == predecessors_of(*inst, j).contains(p));
        let ghost before = preds;
        if is_pred {
            r.push(Dependency { predecessor: job_id_string(p), dep_type: DependencyType::FinishToStart, lag: None });
            proof {
                preds = preds.push(p);
                assert forall|x: int| 0 <= x < before.len() implies before[x] < p by {
                    let y = choose|y: int| 0 <= y < k && pred_keys@[y] == before[x];
                }
                assert forall|x: int| 0 <= x < preds.len() implies exists|y: int|
                    0 <= y < k + 1 && pred_keys@[y] == #[trigger] preds[x] by {
                    if x < before.len() {
                        let y = choose|y: int| 0 <= y < k && pred_keys@[y] == before[x];
                        assert(pred_keys@[y] == preds[x]);
                    } else {
                        assert(pred_keys@[k as int] == preds[x]);
                    }
                }
            }
        }
        let ghost cur = pred_keys@.take(k as int);
        let ghost next = pred_keys@.take(k + 1);
        assert(!cur.contains(p)) by {
            if cur.contains(p) {
                let y = choose|y: int| 0 <= y < cur.len() && cur[y] == p;
                assert(pred_keys@[y] < pred_keys@[k as int]);
            }
        }
        assert forall|e: u32| #[trigger]
            preds.contains(e) <==> (next.contains(e) && predecessors_of(*inst, j).contains(e)) by {
            assert(before.contains(e) <==> (cur.contains(e) && predecessors_of(*inst, j).contains(e)));
            assert(next.contains(e) <==> (cur.contains(e) || e == p)) by {
                assert(next =~= cur.push(p));
                if cur.contains(e) {
                    let y = choose|y: int| 0 <= y < cur.len() && cur[y] == e;
                    assert(next[y] == e);
                }
                if next.contains(e) && e != p {
                    let y = choose|y: int| 0 <= y < next.len() && next[y] == e;
                    assert(cur[y] == e);
                }
                if e == p {
                    assert(next[k as int] == e);
                }
            }
            assert(preds.contains(e) <==> (before.contains(e) || (is_pred && e == p))) by {
                if is_pred {
                    assert(preds =~= before.push(p));
                    if preds.contains(e) && e != p {
                        let y = choose|y: int| 0 <= y < preds.len() && preds[y] == e;
                        assert(before[y] == e);
                    }
                    if before.contains(e) {
                        let y = choose|y: int| 0 <= y < before.len() && before[y] == e;
                        assert(preds[y] == e);
                    }
                    if e == p {
                        assert(preds[preds.len() - 1] == p);
                    }
                }
            }
        }
        k = k + 1;
    }
    assert(pred_keys@.take(k as int) =~= pred_keys@);
    assert forall|e: u32| #[trigger] preds.contains(e) <==> predecessors_of(*inst, j).contains(e) by {
        if predecessors_of(*inst, j).contains(e) {
            assert(inst.precedence@.dom().contains(e));
            assert(pred_keys@.contains(e));
        }
    }
    assert(lists_in_order(preds, predecessors_of(*inst, j)));
    r
}

impl PsplibInstance {
    /// A project for the instance, named after it, starting on 2026-01-05
    /// with a continuous calendar: one resource per capacity entry, on the
    /// lowercased name (`R1` gives `r1`); one task `j<N>` per job with a positive duration,
    /// in increasing job order, lasting that many days, depending
    /// finish-to-start on the jobs with a positive duration that have it as
    /// a successor, and assigned to each resource it requests at the
    /// request over the capacity, in percent.
    pub fn to_project(&self) -> (p: Project)
        ensures
            p.id@ == self.name@,
            p.name@ == self.name@,
            p.start == (Date { year: 2026, month: 1, day: 5 }),
            p.end is None,
            p.calendar@ == "continuous"@,
            p.currency@ == "USD"@,
            p.resources@.len() == self.capacities@.len(),
            forall|i: int|
                0 <= i < self.capacities@.len() ==> {
                    &&& (#[trigger] p.resources@[i]).id@ == lowercase_of(self.capacities@[i].0@)
                    &&& p.resources@[i].name@ == self.capacities@[i].0@
                    &&& p.resources@[i].calendar is None
                    &&& p.resources@[i].specializes is None
                },
            p.calendars@.len() == 1,
            continuous_calendar(p.calendars@[0]),
            p.attributes@.len() == 0,
            p.profiles@.len() == 0,
            p.traits@.len() == 0,
            exists|jobs: Seq<u32>|
                #![trigger lists_in_order(jobs, real_jobs(*self))]
                lists_in_order(jobs, real_jobs(*self)) && p.tasks@.len() == jobs.len() && forall|i: int|
                    0 <= i < jobs.len() ==> job_task(*self, jobs[i], #[trigger] p.tasks@[i]),
    {
        broadcast use vstd::std_specs::hash::group_hash_axioms;

        let mut resources: Vec<Resource> = Vec::new();
        let mut i: usize = 0;
        while i < self.capacities.len()
            invariant
                i <= self.capacities@.len(),
                resources@.len() == i,
                forall|x: int|
                    0 <= x < i ==> {
                        &&& (#[trigger] resources@[x]).id@ == lowercase_of(self.capacities@[x].0@)
                        &&& resources@[x].name@ == self.capacities@[x].0@
                        &&& resources@[x].calendar is None
                        &&& resources@[x].specializes is None
                    },
            decreases self.capacities@.len() - i,
        {
            let name = self.capacities[i].0.as_str();
            resources.push(
                Resource {
                    id: text_to_lowercase(name),
                    name: crate::text::string_of(crate::text::chars_of(name).as_slice()),
                    calendar: None,
                    specializes: None,
                },
            );
            i = i + 1;
        }
        let job_keys = keys_in_order(&self.durations);
        let pred_keys = keys_in_order(&self.precedence);
        let mut tasks: Vec<Task> = Vec::new();
        let ghost mut jobs: Seq<u32> = Seq::empty();
        let mut k: usize = 0;
        while k < job_keys.len()
            invariant
                k <= job_keys@.len(),
                lists_in_order(job_keys@, self.durations@.dom()),
                lists_in_order(pred_keys@, self.precedence@.dom()),
                ascending(jobs),
                forall|e: u32| #[trigger]
                    jobs.contains(e) <==> (job_keys@.take(k as int).contains(e) && real_jobs(*self).contains(e)),
                forall|x: int| 0 <= x < jobs.len() ==> exists|y: int| 0 <= y < k && job_keys@[y] == #[trigger] jobs[x],
                tasks@.len() == jobs.len(),
                forall|x: int| 0 <= x < jobs.len() ==> job_task(*self, jobs[x], #[trigger] tasks@[x]),
            decreases job_keys@.len() - k,
        {
            let j = job_keys[k];
            assert(job_keys@.contains(j));
            let d: u32 = match self.durations.get(&j) {
                Some(d) => *d,
                None => 0,
            };
            assert(d == self.durations@[j]);
            let ghost before = jobs;
            if d > 0 {
                let mut name = String::new();
                push_str(&mut name, "Job ");
                let n = u64_to_string(j as u64);
                push_str(&mut name, n.as_str());
                proof {
                    reveal_strlit("Job ");
                }
                let depends = dependencies_of(self, j, &pred_keys);
                let assigned = assignments_of(self, j);
                let t = Task {
                    id: job_id_string(j),
                    name,
                    summary: None,
                    effort: None,
                    duration: Some(Duration { minutes: d as i64 * 480 }),
                    depends,
                    assigned,
                    priority: 500,
                    constraints: Vec::new(),
                    milestone: false,
                    children: Vec::new(),
                    complete: None,
                    actual_start: None,
                    actual_finish: None,
                    status: None,
                    attributes: Vec::new(),
                };
                assert(job_task(*self, j, t));
                tasks.push(t);
                proof {
                    jobs = jobs.push(j);
                    assert forall|x: int| 0 <= x < before.len() implies before[x] < j by {
                        let y = choose|y: int| 0 <= y < k && job_keys@[y] == before[x];
                    }
                    assert forall|x: int| 0 <= x < jobs.len() implies exists|y: int|
                        0 <= y < k + 1 && job_keys@[y] == #[trigger] jobs[x] by {
                        if x < before.len() {
                            let y = choose|y: int| 0 <= y < k && job_keys@[y] == before[x];
                            assert(job_keys@[y] == jobs[x]);
                        } else {
                            assert(job_keys@[k as int] == jobs[x]);
                        }
                    }
                    assert forall|x: int| 0 <= x < jobs.len() implies job_task(*self, jobs[x], #[trigger] tasks@[x]) by {
                        if x < before.len() {
                            assert(jobs[x] == before[x]);
                        }
                    }
                }
            }
            let ghost cur = job_keys@.take(k as int);
            let ghost next = job_keys@.take(k + 1);
            assert(!cur.contains(j)) by {
                if cur.contains(j) {
                    let y = choose|y: int| 0 <= y < cur.len() && cur[y] == j;
                    assert(job_keys@[y] < job_keys@[k as int]);
                }
            }
            assert(real_jobs(*self).contains(j) == (d > 0));
            assert forall|e: u32| #[trigger]
                jobs.contains(e) <==> (next.contains(e) && real_jobs(*self).contains(e)) by {
                assert(before.contains(e) <==> (cur.contains(e) && real_jobs(*self).contains(e)));
                assert(next.contains(e) <==> (cur.contains(e) || e == j)) by {
                    assert(next =~= cur.push(j));
                    if cur.contains(e) {
                        let y = choose|y: int| 0 <= y < cur.len() && cur[y] == e;
                        assert(next[y] == e);
                    }
                    if next.contains(e) && e != j {
                        let y = choose|y: int| 0 <= y < next.len() && next[y] == e;
                        assert(cur[y] == e);
                    }
                    if e == j {
                        assert(next[k as int] == e);
                    }
                }
                assert(jobs.contains(e) <==> (before.contains(e) || (d > 0 && e == j))) by {
                    if d > 0 {
                        assert(jobs =~= before.push(j));
                        if jobs.contains(e) && e != j {
                            let y = choose|y: int| 0 <= y < jobs.len() && jobs[y] == e;
                            assert(before[y] == e);
                        }
                        if before.contains(e) {
                            let y = choose|y: int| 0 <= y < before.len() && before[y] == e;
                            assert(jobs[y] == e);
                        }
                        if e == j {
                            assert(jobs[jobs.len() - 1] == j);
                        }
                    }
                }
            }
            k = k + 1;
        }
        assert(job_keys@.take(k as int) =~= job_keys@);
        assert forall|e: u32| #[trigger] jobs.contains(e) <==> real_jobs(*self).contains(e) by {
            if real_jobs(*self).contains(e) {
                assert(self.durations@.dom().contains(e));
                assert(job_keys@.contains(e));
            }
        }
        assert(lists_in_order(jobs, real_jobs(*self)));
        let calendar = Calendar {
            id: crate::text::string_of(crate::text::chars_of("continuous").as_slice()),
            name: crate::text::string_of(crate::text::chars_of("Continuous").as_slice()),
            working_hours: vec![TimeRange { start: 0, end: 1440 }],
            working_days: vec![0, 1, 2, 3, 4, 5, 6],
            holidays: Vec::new(),
        };
        assert(calendar.working_hours@ =~= seq![TimeRange { start: 0, end: 1440 }]);
        assert(calendar.working_days@ =~= seq![0u8, 1u8, 2u8, 3u8, 4u8, 5u8, 6u8]);
        Project {
            id: crate::text::string_of(crate::text::chars_of(self.name.as_str()).as_slice()),
            name: crate::text::string_of(crate::text::chars_of(self.name.as_str()).as_slice()),
            start: Date { year: 2026, month: 1, day: 5 },
            end: None,
            calendar: crate::text::string_of(crate::text::chars_of("continuous").as_slice()),
            currency: crate::text::string_of(crate::text::chars_of("USD").as_slice()),
            tasks,
            resources,
            calendars: vec![calendar],
            attributes: Vec::new(),
            profiles: Vec::new(),
            traits: Vec::new(),
        }
    }
}

} // verus!
