//! Lists of entries keyed by text, read as maps where a later entry for a
//! key overrides an earlier one.
use vstd::prelude::*;

verus! {

/// A keyed list as a map: for each key, the value of its last entry.
pub open spec fn last_wins<V>(ws: Seq<(Seq<char>, V)>) -> Map<Seq<char>, V>
    decreases ws.len(),
{
    if ws.len() == 0 {
        Map::empty()
    } else {
        last_wins(ws.drop_last()).insert(ws.last().0, ws.last().1)
    }
}

/// No key has two entries.
pub open spec fn unique_keys<V>(v: Seq<(Seq<char>, V)>) -> bool {
    forall|i: int, j: int| 0 <= i < j < v.len() ==> #[trigger] v[i].0 != #[trigger] v[j].0
}

/// Reading two lists one after the other: the second overrides the first.
pub proof fn lemma_last_wins_append<V>(a: Seq<(Seq<char>, V)>, b: Seq<(Seq<char>, V)>)
    ensures
        last_wins(a + b) == last_wins(a).union_prefer_right(last_wins(b)),
    decreases b.len(),
{
    if b.len() == 0 {
        assert(a + b =~= a);
        assert(last_wins(a).union_prefer_right(Map::empty()) =~= last_wins(a));
    } else {
        lemma_last_wins_append(a, b.drop_last());
        assert((a + b).drop_last() =~= a + b.drop_last());
        assert((a + b).last() == b.last());
        assert(last_wins(a + b) =~= last_wins(a).union_prefer_right(last_wins(b)));
    }
}

/// Replacing the entry for a key in a list without repeated keys.
pub proof fn lemma_last_wins_update<V>(v: Seq<(Seq<char>, V)>, i: int, e: (Seq<char>, V))
    requires
        unique_keys(v),
        0 <= i < v.len(),
        v[i].0 == e.0,
    ensures
        last_wins(v.update(i, e)) == last_wins(v).insert(e.0, e.1),
        unique_keys(v.update(i, e)),
    decreases v.len(),
{
    let w = v.update(i, e);
    if i == v.len() - 1 {
        assert(w.drop_last() =~= v.drop_last());
        assert(last_wins(w) =~= last_wins(v).insert(e.0, e.1));
    } else {
        lemma_last_wins_update(v.drop_last(), i, e);
        assert(w.drop_last() =~= v.drop_last().update(i, e));
        assert(v.last().0 != e.0) by {
            assert(v[i].0 != v[v.len() - 1].0);
        }
        assert(last_wins(w) =~= last_wins(v).insert(e.0, e.1));
    }
    assert forall|a: int, b: int| 0 <= a < b < w.len() implies #[trigger] w[a].0 != #[trigger] w[b].0 by {
        assert(w[a].0 == v[a].0 && w[b].0 == v[b].0);
    }
}

} // verus!
