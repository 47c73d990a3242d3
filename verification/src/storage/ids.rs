//! The ids under which the open cursors stand.

use std::collections::HashMap;

use vstd::prelude::*;
use vstd::std_specs::iter::IteratorSpec;

verus! {

broadcast use vstd::std_specs::hash::group_hash_axioms;

/// The ids of a table, each once.
pub(crate) fn ids_of<V>(cursors: &HashMap<u64, V>) -> (ids: Vec<u64>)
    ensures
        ids@.no_duplicates(),
        forall|id: u64| #[trigger] ids@.contains(id) <==> cursors@.dom().contains(id),
{
    let mut ids: Vec<u64> = Vec::new();
    let ghost keys = cursors.keys().remaining();
    for key in it: cursors.keys()
        invariant
            keys == cursors.keys().remaining(),
            it.seq() == keys,
            ids@ == keys.unref().take(it.index()),
    {
        ids.push(*key);
    }
    proof {
        assert(keys.unref().take(keys.len() as int) =~= keys.unref());
        assert(ids@ =~= keys.unref());
        assert forall|id: u64| #[trigger] ids@.contains(id) <==> cursors@.dom().contains(id) by {
            assert(keys.unref().to_set().contains(id) <==> keys.unref().contains(id));
        }
    }
    ids
}

/// One more of a list without repetitions is new.
pub proof fn lemma_step(ids: Seq<u64>, i: int)
    requires
        ids.no_duplicates(),
        0 <= i < ids.len(),
    ensures
        ids.contains(ids[i]),
        !ids.take(i).contains(ids[i]),
        ids.take(i + 1) == ids.take(i).push(ids[i]),
{
    if ids.take(i).contains(ids[i]) {
        let k = choose|k: int| 0 <= k < i && ids.take(i)[k] == ids[i];
        assert(ids[k] == ids[i]);
    }
    assert(ids.take(i + 1) =~= ids.take(i).push(ids[i]));
}

/// What a list with one more holds.
pub proof fn lemma_push_contains(s: Seq<u64>, last: u64, x: u64)
    ensures
        s.push(last).contains(x) <==> (s.contains(x) || x == last),
{
    let all = s.push(last);
    if s.contains(x) {
        let k = choose|k: int| 0 <= k < s.len() && s[k] == x;
        assert(all[k] == x);
    }
    assert(all[s.len() as int] == last);
    if all.contains(x) {
        let k = choose|k: int| 0 <= k < all.len() && all[k] == x;
        if k < s.len() {
            assert(s[k] == x);
        }
    }
}

/// A list without repetitions stays one with something new behind it.
pub proof fn lemma_push_distinct(s: Seq<u64>, last: u64)
    requires
        s.no_duplicates(),
        !s.contains(last),
    ensures
        s.push(last).no_duplicates(),
{
    let all = s.push(last);
    assert forall|i: int, j: int| 0 <= i < all.len() && 0 <= j < all.len() && i != j implies all[i]
        != all[j] by {
        if i == s.len() {
            assert(s.contains(s[j]));
        } else if j == s.len() {
            assert(s.contains(s[i]));
        }
    }
}

} // verus!
