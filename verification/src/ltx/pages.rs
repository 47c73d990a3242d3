//! Which pages a captured file holds, and where each is read.

use std::collections::HashMap;
use vstd::prelude::*;
use vstd::std_specs::iter::IteratorSpec;

verus! {

broadcast use vstd::std_specs::hash::group_hash_axioms;

/// Where a page is read: in the WAL's frame at an offset, or in the database.
#[derive(Clone, Copy, Debug, PartialEq, Eq, Structural)]
pub enum PageSource {
    Wal(i64),
    Database,
}

/// Where a page is read, given the last frame of each page that the WAL holds.
pub open spec fn source_of(page_map: Map<u32, i64>, pgno: u32) -> PageSource {
    if page_map.dom().contains(pgno) {
        PageSource::Wal(page_map[pgno])
    } else {
        PageSource::Database
    }
}

/// Whether a list names exactly the wanted pages, each once, in ascending order,
/// with where each is read.
pub open spec fn lists(
    sources: Seq<(u32, PageSource)>,
    wanted: Set<u32>,
    page_map: Map<u32, i64>,
) -> bool {
    &&& forall|i: int, j: int|
        0 <= i < j < sources.len() ==> (#[trigger] sources[i]).0 < (#[trigger] sources[j]).0
    &&& forall|i: int|
        0 <= i < sources.len() ==> wanted.contains((#[trigger] sources[i]).0) && sources[i].1
            == source_of(page_map, sources[i].0)
    &&& forall|pgno: u32| #[trigger]
        wanted.contains(pgno) ==> exists|i: int|
            0 <= i < sources.len() && (#[trigger] sources[i]).0 == pgno
}

/// The pages of a delta: those that the WAL holds, and those by which the
/// database grew. The lock page is none of the latter.
pub open spec fn delta_pages(
    page_map: Map<u32, i64>,
    prev_commit: u32,
    commit: u32,
    lock: u32,
) -> Set<u32> {
    Set::new(
        |pgno: u32|
            page_map.dom().contains(pgno) || (prev_commit < pgno <= commit && pgno != lock),
    )
}

/// The pages of a snapshot: all of the database but the lock page.
pub open spec fn snapshot_pages(commit: u32, lock: u32) -> Set<u32> {
    Set::new(|pgno: u32| 1 <= pgno <= commit && pgno != lock)
}

/// Sort the page numbers, by `slice::sort_unstable`: the same numbers, each as
/// often as before, in ascending order.
#[verifier::external_body]
fn sort_pgnos(pgnos: &mut Vec<u32>)
    ensures
        final(pgnos)@.to_multiset() == old(pgnos)@.to_multiset(),
        forall|i: int, j: int|
            0 <= i <= j < final(pgnos)@.len() ==> final(pgnos)@[i] <= final(pgnos)@[j],
{
    pgnos.sort_unstable();
}

fn page_source(page_map: &HashMap<u32, i64>, pgno: u32) -> (source: PageSource)
    ensures
        source == source_of(page_map@, pgno),
{
    match page_map.get(&pgno) {
        Some(offset) => PageSource::Wal(*offset),
        None => PageSource::Database,
    }
}

fn mapped_pgnos(page_map: &HashMap<u32, i64>) -> (pgnos: Vec<u32>)
    ensures
        pgnos@.no_duplicates(),
        forall|pgno: u32| #[trigger] pgnos@.contains(pgno) <==> page_map@.dom().contains(pgno),
{
    let mut pgnos: Vec<u32> = Vec::new();
    let ghost keys = page_map.keys().remaining();
    for key in it: page_map.keys()
        invariant
            keys == page_map.keys().remaining(),
            it.seq() == keys,
            pgnos@ == keys.unref().take(it.index()),
    {
        pgnos.push(*key);
    }
    proof {
        assert(keys.unref().take(keys.len() as int) =~= keys.unref());
        assert(pgnos@ =~= keys.unref());
        assert forall|pgno: u32| #[trigger] pgnos@.contains(pgno) <==> page_map@.dom().contains(
            pgno,
        ) by {
            assert(keys.unref().to_set().contains(pgno) <==> keys.unref().contains(pgno));
        }
    }
    pgnos
}

/// Sorting keeps what a list without repetitions holds, and leaves it ascending.
proof fn lemma_sorted_is_strict(before: Seq<u32>, after: Seq<u32>)
    requires
        before.no_duplicates(),
        after.to_multiset() == before.to_multiset(),
        forall|i: int, j: int| 0 <= i <= j < after.len() ==> after[i] <= after[j],
    ensures
        forall|i: int, j: int| 0 <= i < j < after.len() ==> after[i] < after[j],
        forall|pgno: u32| #[trigger] after.contains(pgno) <==> before.contains(pgno),
{
    broadcast use vstd::seq_lib::group_to_multiset_ensures;

    before.lemma_multiset_has_no_duplicates();
    after.lemma_multiset_has_no_duplicates_conv();
    assert forall|pgno: u32| #[trigger] after.contains(pgno) <==> before.contains(pgno) by {
        assert(before.contains(pgno) <==> before.to_multiset().count(pgno) > 0);
        assert(after.contains(pgno) <==> after.to_multiset().count(pgno) > 0);
    }
}

/// The pages of a delta, ascending, with where each is read.
pub fn collect_wal_pages(
    page_map: &HashMap<u32, i64>,
    prev_commit: u32,
    commit: u32,
    lock: u32,
) -> (sources: Vec<(u32, PageSource)>)
    ensures
        lists(
            sources@,
            delta_pages(page_map@, prev_commit, commit, lock),
            page_map@,
        ),
{
    let mut pgnos: Vec<u32> = mapped_pgnos(page_map);
    let ghost wanted = delta_pages(page_map@, prev_commit, commit, lock);
    let mut last: u32 = prev_commit;
    while last < commit
        invariant
            prev_commit <= last,
            last <= commit || last == prev_commit,
            pgnos@.no_duplicates(),
            forall|pgno: u32| #[trigger]
                pgnos@.contains(pgno) <==> page_map@.dom().contains(pgno) || (prev_commit < pgno
                    <= last && pgno != lock),
        decreases commit - last,
    {
        let ghost before = pgnos@;
        let pgno: u32 = last + 1;
        if pgno != lock && !page_map.contains_key(&pgno) {
            assert(!before.contains(pgno));
            pgnos.push(pgno);
            assert forall|p: u32| #[trigger] pgnos@.contains(p) <==> before.contains(p) || p
                == pgno by {
                if before.contains(p) {
                    let i = choose|i: int| 0 <= i < before.len() && before[i] == p;
                    assert(pgnos@[i] == p);
                }
                if p == pgno {
                    assert(pgnos@[before.len() as int] == p);
                }
            }
        }
        last = pgno;
    }
    let ghost before = pgnos@;
    sort_pgnos(&mut pgnos);
    proof {
        lemma_sorted_is_strict(before, pgnos@);
        assert forall|pgno: u32| #[trigger] wanted.contains(pgno) <==> pgnos@.contains(pgno) by {
            assert(pgnos@.contains(pgno) <==> before.contains(pgno));
        }
    }
    let mut sources: Vec<(u32, PageSource)> = Vec::new();
    let mut i: usize = 0;
    while i < pgnos.len()
        invariant
            i <= pgnos@.len(),
            sources@.len() == i,
            forall|k: int|
                0 <= k < i ==> (#[trigger] sources@[k]).0 == pgnos@[k] && sources@[k].1
                    == source_of(page_map@, pgnos@[k]),
        decreases pgnos@.len() - i,
    {
        sources.push((pgnos[i], page_source(page_map, pgnos[i])));
        i = i + 1;
    }
    proof {
        assert forall|pgno: u32| #[trigger] wanted.contains(pgno) implies exists|k: int|
            0 <= k < sources@.len() && (#[trigger] sources@[k]).0 == pgno by {
            assert(pgnos@.contains(pgno));
            let k = choose|k: int| 0 <= k < pgnos@.len() && pgnos@[k] == pgno;
            assert(sources@[k].0 == pgno);
        }
        assert forall|k: int| 0 <= k < sources@.len() implies wanted.contains(
            (#[trigger] sources@[k]).0,
        ) by {
            assert(pgnos@.contains(pgnos@[k]));
        }
    }
    sources
}

/// The pages of a snapshot, ascending, with where each is read.
pub fn collect_snapshot_pages(
    page_map: &HashMap<u32, i64>,
    commit: u32,
    lock: u32,
) -> (sources: Vec<(u32, PageSource)>)
    ensures
        lists(sources@, snapshot_pages(commit, lock), page_map@),
{
    let mut sources: Vec<(u32, PageSource)> = Vec::new();
    let mut last: u32 = 0;
    while last < commit
        invariant
            last <= commit,
            lists(sources@, snapshot_pages(last, lock), page_map@),
        decreases commit - last,
    {
        let ghost before = sources@;
        let pgno: u32 = last + 1;
        let ghost now = snapshot_pages(pgno, lock);
        let ghost then = snapshot_pages(last, lock);
        if pgno != lock {
            sources.push((pgno, page_source(page_map, pgno)));
        }
        proof {
            assert forall|p: u32| #[trigger] now.contains(p) implies exists|k: int|
                0 <= k < sources@.len() && (#[trigger] sources@[k]).0 == p by {
                if p == pgno {
                    assert(sources@[before.len() as int].0 == p);
                } else {
                    assert(then.contains(p));
                    let k = choose|k: int|
                        0 <= k < before.len() && (#[trigger] before[k]).0 == p;
                    assert(sources@[k].0 == p);
                }
            }
            assert forall|k: int| 0 <= k < sources@.len() implies now.contains(
                (#[trigger] sources@[k]).0,
            ) && sources@[k].1 == source_of(page_map@, sources@[k].0) by {
                if k < before.len() {
                    assert(sources@[k] == before[k]);
                    assert(then.contains(before[k].0));
                }
            }
            assert forall|i: int, j: int| 0 <= i < j < sources@.len() implies (
            #[trigger] sources@[i]).0 < (#[trigger] sources@[j]).0 by {
                assert(sources@[i] == before[i]);
                assert(then.contains(before[i].0));
                if j < before.len() {
                    assert(sources@[j] == before[j]);
                }
            }
        }
        last = pgno;
    }
    sources
}

/// Every page of the database is in a delta unless the file before it held that
/// page already and the WAL does not change it; the lock page is never added.
pub proof fn law_delta_covers_growth(
    page_map: Map<u32, i64>,
    prev_commit: u32,
    commit: u32,
    lock: u32,
    pgno: u32,
)
    requires
        snapshot_pages(commit, lock).contains(pgno),
    ensures
        delta_pages(page_map, prev_commit, commit, lock).contains(pgno) <==> (
        page_map.dom().contains(pgno) || !snapshot_pages(prev_commit, lock).contains(pgno)),
{
}

/// A delta lists each page that the WAL holds, and each by which the database grew but the
/// lock page, in ascending order; a page of the WAL is read from its last frame there, and
/// any other from the database.
pub proof fn law_delta_lists_its_pages(
    sources: Seq<(u32, PageSource)>,
    page_map: Map<u32, i64>,
    prev_commit: u32,
    commit: u32,
    lock: u32,
    pgno: u32,
)
    requires
        lists(sources, delta_pages(page_map, prev_commit, commit, lock), page_map),
    ensures
        (exists|i: int| 0 <= i < sources.len() && (#[trigger] sources[i]).0 == pgno)
            <==> page_map.dom().contains(pgno) || (prev_commit < pgno && pgno <= commit && pgno
            != lock),
        forall|i: int, j: int|
            0 <= i < j < sources.len() ==> (#[trigger] sources[i]).0 < (#[trigger] sources[j]).0,
        forall|i: int|
            0 <= i < sources.len() ==> match (#[trigger] sources[i]).1 {
                PageSource::Wal(offset) => page_map.dom().contains(sources[i].0)
                    && page_map[sources[i].0] == offset,
                PageSource::Database => !page_map.dom().contains(sources[i].0),
            },
{
    let wanted = delta_pages(page_map, prev_commit, commit, lock);
    if exists|i: int| 0 <= i < sources.len() && (#[trigger] sources[i]).0 == pgno {
        let i = choose|i: int| 0 <= i < sources.len() && (#[trigger] sources[i]).0 == pgno;
        assert(wanted.contains(sources[i].0));
    }
    if wanted.contains(pgno) {
        let i = choose|i: int| 0 <= i < sources.len() && (#[trigger] sources[i]).0 == pgno;
        assert(sources[i].0 == pgno);
    }
}

/// A snapshot lists every page of the database but the lock page, in ascending order; a
/// page of the WAL is read from its last frame there, and any other from the database.
pub proof fn law_snapshot_lists_every_page(
    sources: Seq<(u32, PageSource)>,
    page_map: Map<u32, i64>,
    commit: u32,
    lock: u32,
    pgno: u32,
)
    requires
        lists(sources, snapshot_pages(commit, lock), page_map),
    ensures
        (exists|i: int| 0 <= i < sources.len() && (#[trigger] sources[i]).0 == pgno) <==> 1
            <= pgno && pgno <= commit && pgno != lock,
        forall|i: int, j: int|
            0 <= i < j < sources.len() ==> (#[trigger] sources[i]).0 < (#[trigger] sources[j]).0,
        forall|i: int|
            0 <= i < sources.len() ==> match (#[trigger] sources[i]).1 {
                PageSource::Wal(offset) => page_map.dom().contains(sources[i].0)
                    && page_map[sources[i].0] == offset,
                PageSource::Database => !page_map.dom().contains(sources[i].0),
            },
{
    let wanted = snapshot_pages(commit, lock);
    if exists|i: int| 0 <= i < sources.len() && (#[trigger] sources[i]).0 == pgno {
        let i = choose|i: int| 0 <= i < sources.len() && (#[trigger] sources[i]).0 == pgno;
        assert(wanted.contains(sources[i].0));
    }
    if wanted.contains(pgno) {
        let i = choose|i: int| 0 <= i < sources.len() && (#[trigger] sources[i]).0 == pgno;
        assert(sources[i].0 == pgno);
    }
}

} // verus!
