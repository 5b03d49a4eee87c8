//! Container dependency fixes: the dependencies a container passes on to
//! children that do not already depend on any of them.
use vstd::prelude::*;
use crate::model::{Dependency, DependencyType, Duration};
use crate::project::Task;
use crate::hover::trunc_div;
use crate::text::{decimal, push_str, signed_decimal};
use crate::keyed::{last_wins, lemma_last_wins_append, lemma_last_wins_update, unique_keys};

verus! {

/// A dependency to add to a task.
#[derive(Clone, Debug)]
pub struct DepToAdd {
    pub predecessor: String,
    pub dep_type: DependencyType,
    pub lag: Option<Duration>,
}

/// A dependency as plain values.
pub type DepView = (Seq<char>, DependencyType, Option<Duration>);

/// The plain values of a dependency to add.
pub open spec fn dep_view(d: DepToAdd) -> DepView {
    (d.predecessor@, d.dep_type, d.lag)
}

/// The plain values of a task dependency.
pub open spec fn task_dep_view(d: Dependency) -> DepView {
    (d.predecessor@, d.dep_type, d.lag)
}

/// How a dependency is written in a `depends:` list: the predecessor, the
/// type unless finish-to-start, and the lag in whole days (`+N` when not
/// negative).
pub open spec fn dep_text(d: DepView) -> Seq<char> {
    let suffix: Seq<char> = match d.1 {
        DependencyType::StartToStart => " SS"@,
        DependencyType::StartToFinish => " SF"@,
        DependencyType::FinishToFinish => " FF"@,
        DependencyType::FinishToStart => Seq::empty(),
    };
    let lag: Seq<char> = match d.2 {
        Some(l) => if l.minutes >= 0 {
            " +"@ + decimal(trunc_div(l.minutes as int, 480) as nat) + "d"@
        } else {
            " "@ + signed_decimal(trunc_div(l.minutes as int, 480)) + "d"@
        },
        None => Seq::empty(),
    };
    d.0 + suffix + lag
}

impl DepToAdd {
    /// The dependency as written in a `depends:` list (see `dep_text`).
    pub fn render(&self) -> (r: String)
        ensures
            r@ == dep_text(dep_view(*self)),
    {
        let mut s = self.predecessor.clone();
        match self.dep_type {
            DependencyType::StartToStart => push_str(&mut s, " SS"),
            DependencyType::StartToFinish => push_str(&mut s, " SF"),
            DependencyType::FinishToFinish => push_str(&mut s, " FF"),
            DependencyType::FinishToStart => {},
        }
        match self.lag {
            Some(l) => {
                let days = l.minutes / 480;
                if l.minutes >= 0 {
                    push_str(&mut s, " +");
                    let t = crate::text::u64_to_string(days as u64);
                    push_str(&mut s, t.as_str());
                } else {
                    push_str(&mut s, " ");
                    let t = crate::text::i64_to_string(days);
                    push_str(&mut s, t.as_str());
                }
                push_str(&mut s, "d");
            },
            None => {},
        }
        proof {
            reveal_strlit(" SS");
            reveal_strlit(" SF");
            reveal_strlit(" FF");
            reveal_strlit(" +");
            reveal_strlit(" ");
            reveal_strlit("d");
        }
        s
    }
}

/// Some dependency among `deps` has a predecessor among the child's.
pub open spec fn shares_predecessor(deps: Seq<DepView>, child: Task) -> bool {
    exists|i: int, j: int|
        0 <= i < deps.len() && 0 <= j < child.depends@.len() && #[trigger] deps[i].0 == #[trigger] child.depends@[j].predecessor@
}

/// The fixes for the children of one container with dependencies `deps`,
/// in order: a child that shares no predecessor with them gets them all.
pub open spec fn child_writes(children: Seq<Task>, deps: Seq<DepView>) -> Seq<(Seq<char>, Seq<DepView>)>
    decreases children.len(),
{
    if children.len() == 0 {
        Seq::empty()
    } else {
        let c = children.last();
        let prev = child_writes(children.drop_last(), deps);
        if deps.len() > 0 && !shares_predecessor(deps, c) {
            prev.push((c.id@, deps))
        } else {
            prev
        }
    }
}

/// The dependencies a task passes to its children: those it inherited and
/// its own.
pub open spec fn passed_down(t: Task, parent: Seq<DepView>) -> Seq<DepView> {
    parent + t.depends@.map_values(|d: Dependency| task_dep_view(d))
}

/// All fixes for a forest whose parent passes `parent` down, in the order
/// they are found: for each container its children's fixes, then those of
/// its subtree.
pub open spec fn fix_writes(ts: Seq<Task>, parent: Seq<DepView>) -> Seq<(Seq<char>, Seq<DepView>)>
    decreases ts,
{
    if ts.len() == 0 {
        Seq::empty()
    } else {
        let t = ts[0];
        let down = passed_down(t, parent);
        (if t.children@.len() > 0 {
            child_writes(t.children@, down) + fix_writes(t.children@, down)
        } else {
            Seq::empty()
        }) + fix_writes(ts.drop_first(), parent)
    }
}

/// The plain values of a list of dependencies to add.
pub open spec fn deps_view(v: Seq<DepToAdd>) -> Seq<DepView> {
    v.map_values(|d: DepToAdd| dep_view(d))
}

/// The plain values of a list of fixes.
pub open spec fn fixes_view(v: Seq<(String, Vec<DepToAdd>)>) -> Seq<(Seq<char>, Seq<DepView>)> {
    v.map_values(|e: (String, Vec<DepToAdd>)| (e.0@, deps_view(e.1@)))
}

/// Records a fix for `id`, replacing an earlier one for it.
fn record(fixes: &mut Vec<(String, Vec<DepToAdd>)>, id: String, deps: Vec<DepToAdd>)
    requires
        unique_keys(fixes_view(old(fixes)@)),
    ensures
        unique_keys(fixes_view(final(fixes)@)),
        last_wins(fixes_view(final(fixes)@)) == last_wins(fixes_view(old(fixes)@)).insert(
            id@,
            deps_view(deps@),
        ),
{
    let ghost old_v = fixes_view(fixes@);
    let ghost e = (id@, deps_view(deps@));
    let mut i: usize = 0;
    while i < fixes.len()
        invariant
            i <= fixes@.len(),
            old_v == fixes_view(fixes@),
            unique_keys(old_v),
            e == (id@, deps_view(deps@)),
            old_v == fixes_view(old(fixes)@),
            forall|k: int| 0 <= k < i ==> #[trigger] old_v[k].0 != id@,
        decreases fixes@.len() - i,
    {
        proof {
            assert(old_v[i as int].0 == fixes@[i as int].0@);
        }
        let same = crate::text::str_eq(fixes[i].0.as_str(), id.as_str());
        if same {
            let ghost before = fixes@;
            proof {
                assert(old_v[i as int].0 == e.0);
            }
            fixes.set(i, (id, deps));
            proof {
                lemma_last_wins_update(old_v, i as int, e);
                assert forall|j: int| 0 <= j < old_v.len() implies #[trigger] fixes_view(fixes@)[j] == old_v.update(i as int, e)[j] by {
                    if j != i {
                        assert(fixes@[j] == before[j]);
                    }
                }
                assert(fixes_view(fixes@) =~= old_v.update(i as int, e));
            }
            return;
        }
        i = i + 1;
    }
    fixes.push((id, deps));
    proof {
        assert(fixes_view(fixes@) =~= old_v.push(e));
        assert(fixes_view(fixes@).drop_last() =~= old_v);
        assert forall|a: int, b: int| 0 <= a < b < fixes_view(fixes@).len() implies #[trigger] fixes_view(fixes@)[a].0
            != #[trigger] fixes_view(fixes@)[b].0 by {
            if b == old_v.len() {
                assert(fixes_view(fixes@)[a].0 == old_v[a].0);
            } else {
                assert(fixes_view(fixes@)[a].0 == old_v[a].0);
                assert(fixes_view(fixes@)[b].0 == old_v[b].0);
            }
        }
    }
}

fn copy_deps(v: &Vec<DepToAdd>) -> (r: Vec<DepToAdd>)
    ensures
        deps_view(r@) == deps_view(v@),
{
    let mut r: Vec<DepToAdd> = Vec::new();
    let mut i: usize = 0;
    while i < v.len()
        invariant
            i <= v@.len(),
            deps_view(r@) == deps_view(v@.take(i as int)),
        decreases v@.len() - i,
    {
        let d = &v[i];
        let ghost before = r@;
        let x = DepToAdd { predecessor: d.predecessor.clone(), dep_type: d.dep_type, lag: d.lag };
        assert(dep_view(x) == dep_view(v@[i as int]));
        r.push(x);
        assert(v@.take(i + 1) =~= v@.take(i as int).push(v@[i as int]));
        assert(r@ =~= before.push(x));
        assert(deps_view(r@) =~= deps_view(before).push(dep_view(x)));
        assert(deps_view(v@.take(i + 1)) =~= deps_view(v@.take(i as int)).push(dep_view(v@[i as int])));
        i = i + 1;
    }
    assert(v@.take(v@.len() as int) =~= v@);
    r
}

/// Whether some dependency among `deps` names a predecessor that the
/// child already depends on.
fn shares_any_predecessor(deps: &Vec<DepToAdd>, child: &Task) -> (r: bool)
    ensures
        r == shares_predecessor(deps_view(deps@), *child),
{
    let mut i: usize = 0;
    while i < deps.len()
        invariant
            i <= deps@.len(),
            forall|a: int, b: int|
                0 <= a < i && 0 <= b < child.depends@.len() ==> #[trigger] deps_view(deps@)[a].0
                    != #[trigger] child.depends@[b].predecessor@,
        decreases deps@.len() - i,
    {
        let mut j: usize = 0;
        while j < child.depends.len()
            invariant
                i < deps@.len(),
                j <= child.depends@.len(),
                forall|a: int, b: int|
                    0 <= a < i && 0 <= b < child.depends@.len() ==> #[trigger] deps_view(deps@)[a].0
                        != #[trigger] child.depends@[b].predecessor@,
                forall|b: int| 0 <= b < j ==> deps_view(deps@)[i as int].0 != #[trigger] child.depends@[b].predecessor@,
            decreases child.depends@.len() - j,
        {
            if crate::text::str_eq(deps[i].predecessor.as_str(), child.depends[j].predecessor.as_str()) {
                assert(deps_view(deps@)[i as int].0 == child.depends@[j as int].predecessor@);
                return true;
            }
            j = j + 1;
        }
        i = i + 1;
    }
    false
}

/// The dependencies `parent` followed by the task's own.
fn pass_down(task: &Task, parent: &Vec<DepToAdd>) -> (r: Vec<DepToAdd>)
    ensures
        deps_view(r@) == passed_down(*task, deps_view(parent@)),
{
    let mut r = copy_deps(parent);
    let ghost own = task.depends@.map_values(|d: Dependency| task_dep_view(d));
    let mut i: usize = 0;
    while i < task.depends.len()
        invariant
            i <= task.depends@.len(),
            own == task.depends@.map_values(|d: Dependency| task_dep_view(d)),
            deps_view(r@) == deps_view(parent@) + own.take(i as int),
        decreases task.depends@.len() - i,
    {
        let d = &task.depends[i];
        let ghost before = r@;
        let x = DepToAdd { predecessor: d.predecessor.clone(), dep_type: d.dep_type, lag: d.lag };
        r.push(x);
        assert(r@ =~= before.push(x));
        assert(deps_view(r@) =~= deps_view(before).push(dep_view(x)));
        assert(own.take(i + 1) =~= own.take(i as int).push(own[i as int]));
        i = i + 1;
    }
    assert(own.take(own.len() as int) =~= own);
    r
}

/// Every fix needed in `tasks`, whose parent passes `parent_deps` down: a
/// child of a container that depends on none of the predecessors the
/// container passes down gets all of them. Where a task gets more than one
/// fix, the one found last stands; no task appears twice in the result.
pub fn collect_container_dep_fixes(tasks: &Vec<Task>, parent_deps: &Vec<DepToAdd>) -> (r: Vec<(String, Vec<DepToAdd>)>)
    ensures
        unique_keys(fixes_view(r@)),
        last_wins(fixes_view(r@)) == last_wins(fix_writes(tasks@, deps_view(parent_deps@))),
    decreases tasks@,
{
    let ghost pv = deps_view(parent_deps@);
    let mut fixes: Vec<(String, Vec<DepToAdd>)> = Vec::new();
    let mut k: usize = 0;
    proof {
        assert(tasks@.skip(0) =~= tasks@);
        assert(fixes_view(fixes@) =~= Seq::empty());
        let w = last_wins(fix_writes(tasks@, pv));
        assert(Map::<Seq<char>, Seq<DepView>>::empty().union_prefer_right(w) =~= w);
    }
    while k < tasks.len()
        invariant
            k <= tasks@.len(),
            pv == deps_view(parent_deps@),
            unique_keys(fixes_view(fixes@)),
            last_wins(fix_writes(tasks@, pv)) == last_wins(fixes_view(fixes@)).union_prefer_right(
                last_wins(fix_writes(tasks@.skip(k as int), pv)),
            ),
        decreases tasks@.len() - k,
    {
        let task = &tasks[k];
        let ghost rest = tasks@.skip(k as int);
        let ghost l0 = last_wins(fixes_view(fixes@));
        proof {
            assert(rest[0] == *task);
            assert(rest.drop_first() =~= tasks@.skip(k + 1));
        }
        let down = pass_down(task, parent_deps);
        let ghost dv = deps_view(down@);
        if task.children.len() > 0 {
            let mut c: usize = 0;
            while c < task.children.len()
                invariant
                    c <= task.children@.len(),
                    dv == deps_view(down@),
                    unique_keys(fixes_view(fixes@)),
                    last_wins(fixes_view(fixes@)) == l0.union_prefer_right(
                        last_wins(child_writes(task.children@.take(c as int), dv)),
                    ),
                decreases task.children@.len() - c,
            {
                let child = &task.children[c];
                let ghost prev = child_writes(task.children@.take(c as int), dv);
                let ghost m = last_wins(prev);
                proof {
                    assert(task.children@.take(c + 1).drop_last() =~= task.children@.take(c as int));
                    assert(task.children@.take(c + 1).last() == *child);
                    let e = (child.id@, dv);
                    assert(prev.push(e).drop_last() =~= prev);
                    assert(last_wins(prev.push(e)) == m.insert(child.id@, dv));
                }
                if down.len() > 0 && !shares_any_predecessor(&down, child) {
                    record(&mut fixes, child.id.clone(), copy_deps(&down));
                    assert(l0.union_prefer_right(m).insert(child.id@, dv) =~= l0.union_prefer_right(
                        m.insert(child.id@, dv),
                    ));
                }
                c = c + 1;
            }
            proof {
                assert(task.children@.take(task.children@.len() as int) =~= task.children@);
            }
            proof {
                assert(decreases_to!(tasks@ => tasks@[k as int]));
                assert(decreases_to!(tasks@[k as int] => tasks@[k as int].children));
                assert(decreases_to!(tasks@[k as int].children => tasks@[k as int].children@));
            }
            let sub = collect_container_dep_fixes(&task.children, &down);
            let ghost l1 = last_wins(fixes_view(fixes@));
            let ghost sv = fixes_view(sub@);
            let mut s: usize = 0;
            while s < sub.len()
                invariant
                    s <= sub@.len(),
                    sv == fixes_view(sub@),
                    unique_keys(fixes_view(fixes@)),
                    last_wins(fixes_view(fixes@)) == l1.union_prefer_right(last_wins(sv.take(s as int))),
                decreases sub@.len() - s,
            {
                let ghost m = last_wins(sv.take(s as int));
                proof {
                    assert(sv.take(s + 1).drop_last() =~= sv.take(s as int));
                    assert(sv.take(s + 1).last() == sv[s as int]);
                }
                let id = sub[s].0.clone();
                let deps = copy_deps(&sub[s].1);
                record(&mut fixes, id, deps);
                assert(l1.union_prefer_right(m).insert(sv[s as int].0, sv[s as int].1) =~= l1.union_prefer_right(
                    m.insert(sv[s as int].0, sv[s as int].1),
                ));
                s = s + 1;
            }
            proof {
                assert(sv.take(sv.len() as int) =~= sv);
                lemma_last_wins_append(child_writes(task.children@, dv), fix_writes(task.children@, dv));
                let w1 = last_wins(child_writes(task.children@, dv));
                let w2 = last_wins(fix_writes(task.children@, dv));
                let w3 = last_wins(fix_writes(tasks@.skip(k + 1), pv));
                lemma_last_wins_append(
                    child_writes(task.children@, dv) + fix_writes(task.children@, dv),
                    fix_writes(tasks@.skip(k + 1), pv),
                );
                assert(l0.union_prefer_right(w1.union_prefer_right(w2).union_prefer_right(w3)) =~= l0.union_prefer_right(
                    w1,
                ).union_prefer_right(w2).union_prefer_right(w3));
            }
        } else {
            proof {
                assert(fix_writes(rest, pv) =~= Seq::empty() + fix_writes(tasks@.skip(k + 1), pv));
            }
        }
        k = k + 1;
    }
    proof {
        assert(tasks@.skip(tasks@.len() as int) =~= Seq::<Task>::empty());
        let m = last_wins(fixes_view(fixes@));
        assert(m.union_prefer_right(Map::empty()) =~= m);
    }
    fixes
}

} // verus!
