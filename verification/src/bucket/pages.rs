//! How the pages of one listing join up.

use vstd::prelude::*;

use crate::bucket::backend;
use crate::bucket::listing;
use crate::bucket::listing::EntryView;
use crate::bucket::listing::ListedBlob;
use crate::bucket::listing::PageQuery;
use crate::bucket::listing::PageView;
use crate::text;

verus! {

/// The key of a listed object, below the bucket's prefix.
pub open spec fn key_of(scope: Seq<char>, blob: ListedBlob) -> Seq<char> {
    backend::unscoped(scope, blob.location@)
}

/// Whether a listing is in the strict order of its keys.
pub open spec fn in_key_order(scope: Seq<char>, blobs: Seq<ListedBlob>) -> bool {
    forall|i: int, j: int|
        #![trigger blobs[i], blobs[j]]
        0 <= i < j < blobs.len() ==> text::text_lt(
            key_of(scope, blobs[i]),
            key_of(scope, blobs[j]),
        )
}

/// What a store lists behind a key.
pub open spec fn behind(
    scope: Seq<char>,
    blobs: Seq<ListedBlob>,
    after: Option<Seq<char>>,
) -> Seq<ListedBlob>
    decreases blobs.len(),
{
    if blobs.len() == 0 {
        Seq::empty()
    } else {
        let before = behind(scope, blobs.drop_last(), after);
        match after {
            Some(after) => if text::text_lt(after, key_of(scope, blobs.last())) {
                before.push(blobs.last())
            } else {
                before
            },
            None => before.push(blobs.last()),
        }
    }
}

/// A query without a limit that could be reached.
pub open spec fn unlimited(query: PageQuery) -> PageQuery {
    PageQuery { limit: usize::MAX, ..query }
}

/// The objects of pages, one page after the other.
pub open spec fn objects_of(pages: Seq<PageView>) -> Seq<EntryView>
    decreases pages.len(),
{
    if pages.len() == 0 {
        Seq::empty()
    } else {
        pages[0].objects + objects_of(pages.drop_first())
    }
}

/// The rolled-up keys of pages, one page after the other.
pub open spec fn prefixes_of(pages: Seq<PageView>) -> Seq<Seq<char>>
    decreases pages.len(),
{
    if pages.len() == 0 {
        Seq::empty()
    } else {
        pages[0].prefixes + prefixes_of(pages.drop_first())
    }
}

/// Whether a query asks for an object.
spec fn hit(query: PageQuery, scope: Seq<char>, blob: ListedBlob) -> bool {
    text::begins_with(key_of(scope, blob), query.prefix@)
}

/// What an object is rolled up to.
spec fn rolled(query: PageQuery, scope: Seq<char>, blob: ListedBlob) -> Option<Seq<char>> {
    listing::group_of(
        query.prefix@,
        listing::view_of(query.delimiter),
        key_of(scope, blob),
    )
}

spec fn full(query: PageQuery, scope: Seq<char>, blobs: Seq<ListedBlob>) -> PageView {
    listing::page_of(unlimited(query), scope, blobs)
}

/// A pattern that stands somewhere has a first place.
proof fn lemma_first_place(s: Seq<char>, p: Seq<char>, at: int) -> (first: int)
    requires
        text::stands_at(s, p, at),
    ensures
        listing::first_at(s, p, first),
    decreases at,
{
    if exists|j: int| 0 <= j < at && text::stands_at(s, p, j) {
        let j = choose|j: int| 0 <= j < at && text::stands_at(s, p, j);
        lemma_first_place(s, p, j)
    } else {
        at
    }
}

/// A key is rolled up to what it is rolled up to.
proof fn lemma_group_exists(prefix: Seq<char>, delimiter: Option<Seq<char>>, key: Seq<char>)
    ensures
        listing::rolls_up_to(
            prefix,
            delimiter,
            key,
            listing::group_of(prefix, delimiter, key),
        ),
{
    let rest = key.skip(prefix.len() as int);
    match delimiter {
        Some(d) => if d.len() > 0 && text::occurs_in(rest, d) {
            let at = choose|i: int| text::stands_at(rest, d, i);
            let first = lemma_first_place(rest, d, at);
            assert(listing::rolls_up_to(
                prefix,
                delimiter,
                key,
                Some(prefix + rest.take(first + d.len())),
            ));
        } else {
            assert(listing::rolls_up_to(prefix, delimiter, key, None));
        },
        None => {
            assert(listing::rolls_up_to(prefix, delimiter, key, None));
        },
    }
}

/// What is rolled up begins with what it is rolled up to, and so does nothing that
/// is rolled up to something else or not at all.
proof fn lemma_rolled(
    prefix: Seq<char>,
    delimiter: Option<Seq<char>>,
    a: Seq<char>,
    b: Seq<char>,
    group: Seq<char>,
)
    requires
        text::begins_with(a, prefix),
        text::begins_with(b, prefix),
        listing::group_of(prefix, delimiter, a) == Some(group),
    ensures
        text::begins_with(a, group),
        text::begins_with(b, group) ==> listing::group_of(prefix, delimiter, b) == Some(group),
{
    lemma_group_exists(prefix, delimiter, a);
    assert(listing::rolls_up_to(prefix, delimiter, a, Some(group)));
    let d = delimiter->0;
    let rest = a.skip(prefix.len() as int);
    let at = choose|at: int| #[trigger]
        listing::first_at(rest, d, at) && Some(group) == Some(prefix + rest.take(at + d.len()));
    assert(text::stands_at(rest, d, at));
    assert(a.take(prefix.len() as int) =~= prefix) by {
        assert(a.subrange(0, prefix.len() as int) =~= prefix);
    }
    let n = group.len() as int;
    assert(group =~= a.take(n));
    assert(a.subrange(0, n) =~= group);
    if text::begins_with(b, group) {
        let other = b.skip(prefix.len() as int);
        assert(b.subrange(0, n) == group);
        assert forall|k: int| 0 <= k < at + d.len() implies other[k] == rest[k] by {
            assert(b[k + prefix.len()] == b.subrange(0, n)[k + prefix.len()]);
            assert(group[k + prefix.len()] == rest[k]);
        }
        assert(rest.subrange(at, at + d.len()) == d);
        assert(other.subrange(at, at + d.len()) =~= d);
        assert(text::stands_at(other, d, at));
        assert forall|j: int| 0 <= j < at implies !text::stands_at(other, d, j) by {
            if text::stands_at(other, d, j) {
                assert(other.subrange(j, j + d.len()) == d);
                assert(rest.subrange(j, j + d.len()) =~= d);
                assert(text::stands_at(rest, d, j));
            }
        }
        assert(listing::first_at(other, d, at));
        assert(text::occurs_in(other, d));
        assert(prefix + other.take(at + d.len()) =~= group);
        listing::lemma_group(prefix, delimiter, b, Some(group));
    }
}

/// What stands between two texts that begin alike begins like them.
proof fn lemma_between(a: Seq<char>, b: Seq<char>, c: Seq<char>, p: Seq<char>)
    requires
        text::begins_with(a, p),
        text::begins_with(c, p),
        text::text_lt(a, b),
        text::text_lt(b, c),
    ensures
        text::begins_with(b, p),
{
    let i = choose|i: int| text::below_at(a, b, i);
    let j = choose|j: int| text::below_at(b, c, j);
    assert(text::below_at(a, b, i));
    assert(text::below_at(b, c, j));
    let n = p.len() as int;
    assert(a.subrange(0, n) == p);
    assert(c.subrange(0, n) == p);
    assert forall|k: int| 0 <= k < n implies a[k] == p[k] && c[k] == p[k] by {
        assert(a.subrange(0, n)[k] == p[k]);
        assert(c.subrange(0, n)[k] == p[k]);
    }
    if i < n {
        if j < i {
            assert(a[j] == b[j]);
            assert(b[j] == p[j]);
        } else if j == i {
        } else {
            assert(b[i] == c[i]);
        }
        assert(false);
    }
    assert(b.subrange(0, n) =~= p) by {
        assert forall|k: int| 0 <= k < n implies b[k] == p[k] by {
            assert(a[k] == b[k]);
        }
    }
}

/// Without a limit a page takes everything, and each of its groups is that of a key.
proof fn lemma_full(query: PageQuery, scope: Seq<char>, blobs: Seq<ListedBlob>)
    requires
        blobs.len() <= usize::MAX,
    ensures
        !full(query, scope, blobs).truncated,
        full(query, scope, blobs).objects.len() + full(query, scope, blobs).prefixes.len()
            <= blobs.len(),
        forall|g: Seq<char>| #[trigger]
            full(query, scope, blobs).prefixes.contains(g) ==> exists|i: int|
                0 <= i < blobs.len() && hit(query, scope, #[trigger] blobs[i]) && rolled(
                    query,
                    scope,
                    blobs[i],
                ) == Some(g),
    decreases blobs.len(),
{
    if blobs.len() > 0 {
        let before = blobs.drop_last();
        lemma_full(query, scope, before);
        let was = full(query, scope, before);
        let now = full(query, scope, blobs);
        assert forall|g: Seq<char>| #[trigger] now.prefixes.contains(g) implies exists|i: int|
            0 <= i < blobs.len() && hit(query, scope, #[trigger] blobs[i]) && rolled(
                query,
                scope,
                blobs[i],
            ) == Some(g) by {
            if was.prefixes.contains(g) {
                let i = choose|i: int|
                    0 <= i < before.len() && hit(query, scope, #[trigger] before[i]) && rolled(
                        query,
                        scope,
                        before[i],
                    ) == Some(g);
                assert(blobs[i] == before[i]);
            } else {
                let k = choose|k: int| 0 <= k < now.prefixes.len() && now.prefixes[k] == g;
                if k < was.prefixes.len() {
                    assert(was.prefixes[k] == g);
                }
                assert(rolled(query, scope, blobs[blobs.len() - 1]) == Some(g));
            }
        }
    }
}

/// While a page has room, the limit does not matter.
proof fn lemma_room(query: PageQuery, scope: Seq<char>, blobs: Seq<ListedBlob>)
    requires
        blobs.len() <= usize::MAX,
        !listing::page_of(query, scope, blobs).truncated,
    ensures
        listing::page_of(query, scope, blobs) == full(query, scope, blobs),
    decreases blobs.len(),
{
    if blobs.len() > 0 {
        lemma_room(query, scope, blobs.drop_last());
        lemma_full(query, scope, blobs);
        lemma_full(query, scope, blobs.drop_last());
    }
}

/// Where a page stands: `at` is the last object that it consumed.
spec fn consumed_to(query: PageQuery, scope: Seq<char>, blobs: Seq<ListedBlob>, at: int) -> bool {
    let page = full(query, scope, blobs);
    &&& 0 <= at < blobs.len()
    &&& page.cursor == Some(key_of(scope, blobs[at]))
    &&& page.objects == full(query, scope, blobs.take(at + 1)).objects
    &&& page.prefixes == full(query, scope, blobs.take(at + 1)).prefixes
    &&& forall|i: int| at < i < blobs.len() ==> !hit(query, scope, #[trigger] blobs[i])
}

proof fn lemma_consumed(query: PageQuery, scope: Seq<char>, blobs: Seq<ListedBlob>) -> (at: int)
    requires
        blobs.len() <= usize::MAX,
        full(query, scope, blobs).objects.len() + full(query, scope, blobs).prefixes.len() > 0,
    ensures
        consumed_to(query, scope, blobs, at),
    decreases blobs.len(),
{
    let before = blobs.drop_last();
    lemma_full(query, scope, before);
    if hit(query, scope, blobs.last()) {
        assert(blobs.take(blobs.len() as int) =~= blobs);
        blobs.len() - 1
    } else {
        let at = lemma_consumed(query, scope, before);
        assert(before.take(at + 1) =~= blobs.take(at + 1));
        assert forall|i: int| at < i < blobs.len() implies !hit(
            query,
            scope,
            #[trigger] blobs[i],
        ) by {
            if i < before.len() {
                assert(before[i] == blobs[i]);
            }
        }
        at
    }
}

/// Where a page was cut short: behind `at`, before the object `stop`, which no group
/// of the page takes in.
spec fn cut_at(
    query: PageQuery,
    scope: Seq<char>,
    blobs: Seq<ListedBlob>,
    at: int,
    stop: int,
) -> bool {
    let page = listing::page_of(query, scope, blobs);
    let taken = full(query, scope, blobs.take(at + 1));
    &&& 0 <= at < stop < blobs.len()
    &&& page.cursor == Some(key_of(scope, blobs[at]))
    &&& page.objects == taken.objects
    &&& page.prefixes == taken.prefixes
    &&& hit(query, scope, blobs[stop])
    &&& forall|i: int| at < i < stop ==> !hit(query, scope, #[trigger] blobs[i])
    &&& rolled(query, scope, blobs[stop]) matches Some(g) ==> !page.prefixes.contains(g)
}

proof fn lemma_cut(query: PageQuery, scope: Seq<char>, blobs: Seq<ListedBlob>) -> (cut: (int, int))
    requires
        query.limit >= 1,
        blobs.len() <= usize::MAX,
        listing::page_of(query, scope, blobs).truncated,
    ensures
        cut_at(query, scope, blobs, cut.0, cut.1),
    decreases blobs.len(),
{
    let before = blobs.drop_last();
    let was = listing::page_of(query, scope, before);
    if was.truncated {
        let cut = lemma_cut(query, scope, before);
        assert(before.take(cut.0 + 1) =~= blobs.take(cut.0 + 1));
        assert(before[cut.0] == blobs[cut.0]);
        assert(before[cut.1] == blobs[cut.1]);
        assert forall|i: int| cut.0 < i < cut.1 implies !hit(
            query,
            scope,
            #[trigger] blobs[i],
        ) by {
            assert(before[i] == blobs[i]);
        }
        cut
    } else {
        lemma_room(query, scope, before);
        let at = lemma_consumed(query, scope, before);
        assert(before.take(at + 1) =~= blobs.take(at + 1));
        assert(before[at] == blobs[at]);
        let stop = blobs.len() - 1;
        assert forall|i: int| at < i < stop implies !hit(query, scope, #[trigger] blobs[i]) by {
            assert(before[i] == blobs[i]);
        }
        (at, stop)
    }
}

/// In key order no group is left and entered again: what comes behind a cut is in
/// no group of the page.
proof fn lemma_groups_end(
    query: PageQuery,
    scope: Seq<char>,
    blobs: Seq<ListedBlob>,
    at: int,
    stop: int,
    i: int,
)
    requires
        blobs.len() <= usize::MAX,
        in_key_order(scope, blobs),
        cut_at(query, scope, blobs, at, stop),
        at < i < blobs.len(),
        hit(query, scope, blobs[i]),
    ensures
        rolled(query, scope, blobs[i]) matches Some(g) ==> !full(
            query,
            scope,
            blobs.take(at + 1),
        ).prefixes.contains(g),
{
    let taken = blobs.take(at + 1);
    let page = full(query, scope, taken);
    if rolled(query, scope, blobs[i]) is Some {
        let g = rolled(query, scope, blobs[i])->0;
        if page.prefixes.contains(g) {
            lemma_full(query, scope, taken);
            let j = choose|j: int|
                0 <= j < taken.len() && hit(query, scope, #[trigger] taken[j]) && rolled(
                    query,
                    scope,
                    taken[j],
                ) == Some(g);
            assert(taken[j] == blobs[j]);
            assert(i >= stop);
            let prefix = query.prefix@;
            let delimiter = listing::view_of(query.delimiter);
            let a = key_of(scope, blobs[j]);
            let b = key_of(scope, blobs[stop]);
            let c = key_of(scope, blobs[i]);
            if i > stop {
                lemma_rolled(prefix, delimiter, a, b, g);
                lemma_rolled(prefix, delimiter, c, b, g);
                lemma_between(a, b, c, g);
            }
        }
    }
}

/// A full page is that of the first objects and that of the others, where these are
/// in no group of the first.
proof fn lemma_parts(
    query: PageQuery,
    scope: Seq<char>,
    blobs: Seq<ListedBlob>,
    n: int,
    end: int,
)
    requires
        blobs.len() <= usize::MAX,
        0 <= n <= end <= blobs.len(),
        forall|i: int|
            n <= i < blobs.len() && hit(query, scope, #[trigger] blobs[i]) ==> (rolled(
                query,
                scope,
                blobs[i],
            ) matches Some(g) ==> !full(query, scope, blobs.take(n)).prefixes.contains(g)),
    ensures
        ({
            let first = full(query, scope, blobs.take(n));
            let rest = full(query, scope, blobs.subrange(n, end));
            let both = full(query, scope, blobs.take(end));
            &&& both.objects == first.objects + rest.objects
            &&& both.prefixes == first.prefixes + rest.prefixes
        }),
    decreases end - n,
{
    let first = full(query, scope, blobs.take(n));
    let rest = full(query, scope, blobs.subrange(n, end));
    let both = full(query, scope, blobs.take(end));
    if end == n {
        assert(blobs.subrange(n, end).len() == 0);
        assert(both.objects =~= first.objects + rest.objects);
        assert(both.prefixes =~= first.prefixes + rest.prefixes);
    } else {
        lemma_parts(query, scope, blobs, n, end - 1);
        let last = blobs[end - 1];
        assert(blobs.take(end).drop_last() =~= blobs.take(end - 1));
        assert(blobs.subrange(n, end).drop_last() =~= blobs.subrange(n, end - 1));
        let rest_was = full(query, scope, blobs.subrange(n, end - 1));
        let both_was = full(query, scope, blobs.take(end - 1));
        lemma_full(query, scope, blobs.take(end));
        lemma_full(query, scope, blobs.take(end - 1));
        lemma_full(query, scope, blobs.subrange(n, end));
        lemma_full(query, scope, blobs.subrange(n, end - 1));
        if hit(query, scope, last) {
            match rolled(query, scope, last) {
                Some(g) => {
                    assert(both_was.prefixes.contains(g) <==> rest_was.prefixes.contains(g)) by {
                        if rest_was.prefixes.contains(g) {
                            let k = choose|k: int|
                                0 <= k < rest_was.prefixes.len() && rest_was.prefixes[k] == g;
                            assert(both_was.prefixes[first.prefixes.len() + k] == g);
                        }
                        if both_was.prefixes.contains(g) {
                            let k = choose|k: int|
                                0 <= k < both_was.prefixes.len() && both_was.prefixes[k] == g;
                            if k < first.prefixes.len() {
                                assert(first.prefixes[k] == g);
                            } else {
                                assert(rest_was.prefixes[k - first.prefixes.len()] == g);
                            }
                        }
                    }
                },
                None => {},
            }
        }
        assert(both.objects =~= first.objects + rest.objects);
        assert(both.prefixes =~= first.prefixes + rest.prefixes);
    }
}

/// In key order, what is behind an object's key is what comes after it.
proof fn lemma_behind(scope: Seq<char>, blobs: Seq<ListedBlob>, at: int, end: int)
    requires
        in_key_order(scope, blobs),
        0 <= at < blobs.len(),
        0 <= end <= blobs.len(),
    ensures
        behind(scope, blobs.take(end), Some(key_of(scope, blobs[at]))) == if at + 1 <= end {
            blobs.subrange(at + 1, end)
        } else {
            Seq::empty()
        },
    decreases end,
{
    let after = Some(key_of(scope, blobs[at]));
    if end > 0 {
        lemma_behind(scope, blobs, at, end - 1);
        assert(blobs.take(end).drop_last() =~= blobs.take(end - 1));
        let last = blobs[end - 1];
        text::lemma_text_order_total(key_of(scope, blobs[at]), key_of(scope, last));
        if at < end - 1 {
            assert(blobs.subrange(at + 1, end - 1).push(last) =~= blobs.subrange(at + 1, end));
        } else {
            if at == end - 1 {
                assert(blobs.subrange(at + 1, end) =~= Seq::<ListedBlob>::empty());
            }
            assert(!text::text_lt(key_of(scope, blobs[at]), key_of(scope, last)));
        }
    }
}

proof fn lemma_join(
    query: PageQuery,
    scope: Seq<char>,
    blobs: Seq<ListedBlob>,
    n: int,
    pages: Seq<PageView>,
)
    requires
        query.limit >= 1,
        blobs.len() <= usize::MAX,
        in_key_order(scope, blobs),
        0 <= n <= blobs.len(),
        pages.len() > 0,
        pages[0] == listing::ended(listing::page_of(query, scope, blobs.skip(n))),
        forall|i: int|
            0 <= i < pages.len() - 1 ==> (#[trigger] pages[i]).truncated && pages[i + 1]
                == listing::ended(
                listing::page_of(query, scope, behind(scope, blobs, pages[i].cursor)),
            ),
        !pages.last().truncated,
    ensures
        objects_of(pages) == full(query, scope, blobs.skip(n)).objects,
        prefixes_of(pages) == full(query, scope, blobs.skip(n)).prefixes,
    decreases pages.len(),
{
    let here = blobs.skip(n);
    let page = listing::page_of(query, scope, here);
    let later = pages.drop_first();
    if page.truncated {
        let (at, stop) = lemma_cut(query, scope, here);
        assert(here[at] == blobs[n + at]);
        assert forall|i: int, j: int|
            #![trigger here[i], here[j]]
            0 <= i < j < here.len() implies text::text_lt(
            key_of(scope, here[i]),
            key_of(scope, here[j]),
        ) by {
            assert(here[i] == blobs[n + i]);
            assert(here[j] == blobs[n + j]);
        }
        assert forall|i: int|
            at + 1 <= i < here.len() && hit(query, scope, #[trigger] here[i]) implies (rolled(
            query,
            scope,
            here[i],
        ) matches Some(g) ==> !full(query, scope, here.take(at + 1)).prefixes.contains(g)) by {
            lemma_groups_end(query, scope, here, at, stop, i);
        }
        lemma_parts(query, scope, here, at + 1, here.len() as int);
        assert(here.take(here.len() as int) =~= here);
        let next = n + at + 1;
        assert(here.subrange(at + 1, here.len() as int) =~= blobs.skip(next));
        lemma_behind(scope, blobs, n + at, blobs.len() as int);
        assert(blobs.take(blobs.len() as int) =~= blobs);
        assert(blobs.subrange(next, blobs.len() as int) =~= blobs.skip(next));
        assert(pages.len() > 1);
        assert(later[0] == pages[1]);
        assert forall|i: int| 0 <= i < later.len() - 1 implies (#[trigger] later[i]).truncated
            && later[i + 1] == listing::ended(
            listing::page_of(query, scope, behind(scope, blobs, later[i].cursor)),
        ) by {
            assert(later[i] == pages[i + 1]);
            assert(later[i + 1] == pages[i + 2]);
        }
        assert(later.last() == pages.last());
        lemma_join(query, scope, blobs, next, later);
    } else {
        lemma_room(query, scope, here);
        assert(pages.len() == 1) by {
            if pages.len() > 1 {
                assert(pages[0].truncated);
            }
        }
        assert(objects_of(later) =~= Seq::empty());
        assert(prefixes_of(later) =~= Seq::empty());
        assert(pages[0].objects == page.objects && pages[0].prefixes == page.prefixes);
        assert(objects_of(pages) =~= page.objects);
        assert(prefixes_of(pages) =~= page.prefixes);
    }
}

/// The objects of a full page stand in the order of the listing, and none of them is
/// rolled up.
proof fn lemma_objects_in_order(query: PageQuery, scope: Seq<char>, blobs: Seq<ListedBlob>)
    requires
        blobs.len() <= usize::MAX,
        in_key_order(scope, blobs),
    ensures
        ({
            let page = full(query, scope, blobs);
            &&& forall|i: int, j: int|
                #![trigger page.objects[i], page.objects[j]]
                0 <= i < j < page.objects.len() ==> text::text_lt(
                    page.objects[i].key,
                    page.objects[j].key,
                )
            &&& forall|i: int|
                0 <= i < page.objects.len() ==> listing::group_of(
                    query.prefix@,
                    listing::view_of(query.delimiter),
                    (#[trigger] page.objects[i]).key,
                ) is None && exists|k: int|
                    0 <= k < blobs.len() && key_of(scope, #[trigger] blobs[k])
                        == page.objects[i].key
        }),
    decreases blobs.len(),
{
    if blobs.len() > 0 {
        let before = blobs.drop_last();
        let was = full(query, scope, before);
        let page = full(query, scope, blobs);
        lemma_full(query, scope, before);
        lemma_full(query, scope, blobs);
        assert(in_key_order(scope, before)) by {
            assert forall|i: int, j: int|
                #![trigger before[i], before[j]]
                0 <= i < j < before.len() implies text::text_lt(
                key_of(scope, before[i]),
                key_of(scope, before[j]),
            ) by {
                assert(before[i] == blobs[i]);
                assert(before[j] == blobs[j]);
            }
        }
        lemma_objects_in_order(query, scope, before);
        assert forall|i: int| 0 <= i < page.objects.len() implies listing::group_of(
            query.prefix@,
            listing::view_of(query.delimiter),
            (#[trigger] page.objects[i]).key,
        ) is None && exists|k: int|
            0 <= k < blobs.len() && key_of(scope, #[trigger] blobs[k]) == page.objects[i].key by {
            if i < was.objects.len() {
                assert(was.objects[i] == page.objects[i]);
                let k = choose|k: int|
                    0 <= k < before.len() && key_of(scope, #[trigger] before[k])
                        == was.objects[i].key;
                assert(blobs[k] == before[k]);
            } else {
                assert(blobs[blobs.len() - 1] == blobs.last());
            }
        }
        assert forall|i: int, j: int|
            #![trigger page.objects[i], page.objects[j]]
            0 <= i < j < page.objects.len() implies text::text_lt(
            page.objects[i].key,
            page.objects[j].key,
        ) by {
            assert(was.objects[i] == page.objects[i]);
            if j < was.objects.len() {
                assert(was.objects[j] == page.objects[j]);
            } else {
                let k = choose|k: int|
                    0 <= k < before.len() && key_of(scope, #[trigger] before[k])
                        == was.objects[i].key;
                assert(blobs[k] == before[k]);
                assert(blobs[blobs.len() - 1] == blobs.last());
            }
        }
    }
}

/// Pages neither repeat nor miss anything. The pages of one listing in key order,
/// each of which goes on behind the cursor of the one before it, hold together what
/// one page without a limit holds. The objects stand in the order of their keys, and
/// none of them could be rolled up; no page is over the limit, and exactly the ones
/// that were cut short have a cursor.
pub proof fn law_pages_join_up(
    query: PageQuery,
    scope: Seq<char>,
    blobs: Seq<ListedBlob>,
    pages: Seq<PageView>,
)
    requires
        query.limit >= 1,
        blobs.len() <= usize::MAX,
        in_key_order(scope, blobs),
        pages.len() > 0,
        pages[0] == listing::ended(listing::page_of(query, scope, blobs)),
        forall|i: int|
            0 <= i < pages.len() - 1 ==> (#[trigger] pages[i]).truncated && pages[i + 1]
                == listing::ended(
                listing::page_of(query, scope, behind(scope, blobs, pages[i].cursor)),
            ),
        !pages.last().truncated,
    ensures
        ({
            let whole = listing::ended(listing::page_of(unlimited(query), scope, blobs));
            &&& !whole.truncated
            &&& objects_of(pages) == whole.objects
            &&& prefixes_of(pages) == whole.prefixes
            &&& whole.prefixes.no_duplicates()
            &&& forall|i: int, j: int|
                #![trigger whole.objects[i], whole.objects[j]]
                0 <= i < j < whole.objects.len() ==> text::text_lt(
                    whole.objects[i].key,
                    whole.objects[j].key,
                )
            &&& forall|i: int|
                0 <= i < whole.objects.len() ==> listing::group_of(
                    query.prefix@,
                    listing::view_of(query.delimiter),
                    (#[trigger] whole.objects[i]).key,
                ) is None
        }),
        forall|i: int|
            0 <= i < pages.len() ==> {
                &&& (#[trigger] pages[i]).objects.len() + pages[i].prefixes.len() <= query.limit
                &&& pages[i].truncated <==> pages[i].cursor is Some
            },
{
    lemma_full(query, scope, blobs);
    assert(blobs.skip(0) =~= blobs);
    lemma_join(query, scope, blobs, 0, pages);
    lemma_objects_in_order(query, scope, blobs);
    listing::law_page_is_bounded(unlimited(query), scope, blobs);
    assert forall|i: int| 0 <= i < pages.len() implies {
        &&& (#[trigger] pages[i]).objects.len() + pages[i].prefixes.len() <= query.limit
        &&& pages[i].truncated <==> pages[i].cursor is Some
    } by {
        let listed = if i == 0 {
            blobs
        } else {
            assert(pages[i - 1].truncated);
            behind(scope, blobs, pages[i - 1].cursor)
        };
        listing::law_page_is_bounded(query, scope, listed);
        lemma_behind_len(scope, blobs, if i == 0 { None } else { pages[i - 1].cursor });
        if listing::page_of(query, scope, listed).truncated {
            let _ = lemma_cut(query, scope, listed);
        }
    }
}

/// A store lists no more behind a key than it lists.
proof fn lemma_behind_len(scope: Seq<char>, blobs: Seq<ListedBlob>, after: Option<Seq<char>>)
    ensures
        behind(scope, blobs, after).len() <= blobs.len(),
    decreases blobs.len(),
{
    if blobs.len() > 0 {
        lemma_behind_len(scope, blobs.drop_last(), after);
    }
}

} // verus!
