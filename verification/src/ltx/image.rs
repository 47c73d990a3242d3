//! Rebuilding a database from its files.

use std::collections::HashMap;
use vstd::prelude::*;

verus! {

broadcast use vstd::std_specs::hash::group_hash_axioms;

/// What a file holds: the database's page count after it, and the pages that it
/// carries.
pub struct DecodedFile {
    pub page_size: u32,
    pub commit: u32,
    pub max_txid: u64,
    pub pages: Vec<(u32, Vec<u8>)>,
}

/// Why no database is rebuilt.
#[derive(Clone, Copy, Debug, PartialEq, Eq, Structural)]
pub enum ImageError {
    /// There are no files.
    Empty,
    /// A file has pages of another size than the first.
    PageSize { expected: u32, found: u32 },
    /// A file grows the database by a page that nothing carries.
    MissingGrowth { pgno: u32, txid: u64, from: u32, to: u32 },
}

/// A page as the last entry of a list carries it.
pub open spec fn latest_in(pages: Seq<(u32, Vec<u8>)>, pgno: u32) -> Option<Seq<u8>>
    decreases pages.len(),
{
    if pages.len() == 0 {
        None
    } else if pages.last().0 == pgno {
        Some(pages.last().1@)
    } else {
        latest_in(pages.drop_last(), pgno)
    }
}

/// A page as the latest file carries it.
pub open spec fn latest(files: Seq<DecodedFile>, pgno: u32) -> Option<Seq<u8>>
    decreases files.len(),
{
    if files.len() == 0 {
        None
    } else {
        match latest_in(files.last().pages@, pgno) {
            Some(data) => Some(data),
            None => latest(files.drop_last(), pgno),
        }
    }
}

/// The page count before a file.
pub open spec fn commit_before(files: Seq<DecodedFile>, i: int) -> u32 {
    if i == 0 {
        0
    } else {
        files[i - 1].commit
    }
}

/// Whether a file adds this page to the database, and nothing so far carries it.
pub open spec fn lacks(files: Seq<DecodedFile>, i: int, lock: u32, pgno: u32) -> bool {
    commit_before(files, i) < pgno <= files[i].commit && pgno != lock && latest(
        files.take(i + 1),
        pgno,
    ) is None
}

/// Whether a file fits behind those before it: its pages have the size of the
/// first one's, and each page by which it grows the database is carried.
pub open spec fn fits(files: Seq<DecodedFile>, i: int, lock: u32) -> bool {
    &&& files[i].page_size == files[0].page_size
    &&& forall|pgno: u32| !#[trigger] lacks(files, i, lock, pgno)
}

/// Whether every file before this one fits.
pub open spec fn all_fit(files: Seq<DecodedFile>, n: int, lock: u32) -> bool {
    forall|i: int| 0 <= i < n ==> #[trigger] fits(files, i, lock)
}

/// The bytes of a page: as the latest file carries it, or zeros for the lock page.
pub open spec fn page_bytes(files: Seq<DecodedFile>, lock: u32, pgno: u32) -> Seq<u8> {
    if pgno == lock {
        Seq::new(files[0].page_size as nat, |i: int| 0u8)
    } else {
        match latest(files, pgno) {
            Some(data) => data,
            None => Seq::empty(),
        }
    }
}

/// The first pages of the database, one after the other.
pub open spec fn image_of(files: Seq<DecodedFile>, lock: u32, n: u32) -> Seq<u8>
    decreases n,
{
    if n == 0 {
        Seq::empty()
    } else {
        image_of(files, lock, (n - 1) as u32) + page_bytes(files, lock, n)
    }
}

/// A page as the files before one carry it, with the first entries of that one.
spec fn latest_through(files: Seq<DecodedFile>, i: int, j: int, pgno: u32) -> Option<Seq<u8>> {
    match latest_in(files[i].pages@.take(j), pgno) {
        Some(data) => Some(data),
        None => latest(files.take(i), pgno),
    }
}

/// Whether a place is that of an entry for this page, with these bytes.
spec fn held_at(
    files: Seq<DecodedFile>,
    place: (usize, usize),
    pgno: u32,
    data: Seq<u8>,
) -> bool {
    &&& place.0 < files.len() && place.1 < files[place.0 as int].pages@.len()
    &&& files[place.0 as int].pages@[place.1 as int].0 == pgno
    &&& files[place.0 as int].pages@[place.1 as int].1@ == data
}

/// Whether a map knows where each page is carried.
spec fn knows(
    places: Map<u32, (usize, usize)>,
    files: Seq<DecodedFile>,
    carried: spec_fn(u32) -> Option<Seq<u8>>,
) -> bool {
    forall|pgno: u32|
        match #[trigger] carried(pgno) {
            Some(data) => places.dom().contains(pgno) && held_at(files, places[pgno], pgno, data),
            None => !places.dom().contains(pgno),
        }
}

fn place_pages(files: &Vec<DecodedFile>, i: usize, places: &mut HashMap<u32, (usize, usize)>)
    requires
        i < files@.len(),
        knows(old(places)@, files@, |p: u32| latest(files@.take(i as int), p)),
    ensures
        knows(final(places)@, files@, |p: u32| latest(files@.take(i + 1), p)),
{
    let n: usize = files[i].pages.len();
    let ghost pages = files@[i as int].pages@;
    proof {
        let before = |p: u32| latest(files@.take(i as int), p);
        let now = |p: u32| latest_through(files@, i as int, 0, p);
        assert forall|pgno: u32|
            match #[trigger] now(pgno) {
                Some(data) => places@.dom().contains(pgno) && held_at(
                    files@,
                    places@[pgno],
                    pgno,
                    data,
                ),
                None => !places@.dom().contains(pgno),
            } by {
            assert(pages.take(0).len() == 0);
            assert(before(pgno) == now(pgno));
        }
    }
    let mut j: usize = 0;
    while j < n
        invariant
            i < files@.len(),
            pages == files@[i as int].pages@,
            j <= n == pages.len(),
            knows(places@, files@, |p: u32| latest_through(files@, i as int, j as int, p)),
        decreases n - j,
    {
        let ghost held = places@;
        let pgno: u32 = files[i].pages[j].0;
        places.insert(pgno, (i, j));
        proof {
            let before = |p: u32| latest_through(files@, i as int, j as int, p);
            let now = |p: u32| latest_through(files@, i as int, j + 1, p);
            assert(pages.take(j + 1).drop_last() =~= pages.take(j as int));
            assert forall|p: u32|
                match #[trigger] now(p) {
                    Some(data) => places@.dom().contains(p) && held_at(
                        files@,
                        places@[p],
                        p,
                        data,
                    ),
                    None => !places@.dom().contains(p),
                } by {
                if p != pgno {
                    assert(before(p) == now(p));
                }
            }
        }
        j = j + 1;
    }
    proof {
        let before = |p: u32| latest_through(files@, i as int, n as int, p);
        let now = |p: u32| latest(files@.take(i + 1), p);
        assert(pages.take(n as int) =~= pages);
        assert(files@.take(i + 1).drop_last() =~= files@.take(i as int));
        assert forall|p: u32|
            match #[trigger] now(p) {
                Some(data) => places@.dom().contains(p) && held_at(files@, places@[p], p, data),
                None => !places@.dom().contains(p),
            } by {
            assert(before(p) == now(p));
        }
    }
}

fn first_lacking(
    files: &Vec<DecodedFile>,
    i: usize,
    lock: u32,
    places: &HashMap<u32, (usize, usize)>,
) -> (lacking: Option<u32>)
    requires
        i < files@.len(),
        knows(places@, files@, |p: u32| latest(files@.take(i + 1), p)),
    ensures
        match lacking {
            Some(pgno) => lacks(files@, i as int, lock, pgno) && forall|p: u32|
                p < pgno ==> !#[trigger] lacks(files@, i as int, lock, p),
            None => forall|p: u32| !#[trigger] lacks(files@, i as int, lock, p),
        },
{
    let from: u32 = if i == 0 {
        0
    } else {
        files[i - 1].commit
    };
    let to: u32 = files[i].commit;
    let ghost carried = |p: u32| latest(files@.take(i + 1), p);
    let mut last: u32 = from;
    while last < to
        invariant
            i < files@.len(),
            from == commit_before(files@, i as int),
            to == files@[i as int].commit,
            from <= last,
            last <= to || last == from,
            carried == |p: u32| latest(files@.take(i + 1), p),
            knows(places@, files@, carried),
            forall|p: u32| p <= last ==> !#[trigger] lacks(files@, i as int, lock, p),
        decreases to - last,
    {
        let pgno: u32 = last + 1;
        assert(carried(pgno) == latest(files@.take(i + 1), pgno));
        if pgno != lock && !places.contains_key(&pgno) {
            return Some(pgno);
        }
        last = pgno;
    }
    None
}

/// Rebuild a database from its files, oldest first: each page as the latest file
/// carries it, up to the page count of the last file; the lock page is zeros.
pub fn build_database_image(files: &Vec<DecodedFile>, lock: u32) -> (image: Result<
    Vec<u8>,
    ImageError,
>)
    ensures
        match image {
            Ok(image) => {
                &&& files@.len() > 0
                &&& all_fit(files@, files@.len() as int, lock)
                &&& image@ == image_of(files@, lock, files@.last().commit)
            },
            Err(ImageError::Empty) => files@.len() == 0,
            Err(ImageError::PageSize { expected, found }) => exists|i: int|
                {
                    &&& 0 < i < files@.len()
                    &&& #[trigger] all_fit(files@, i, lock)
                    &&& expected == files@[0].page_size && found == files@[i].page_size
                        && expected != found
                },
            Err(ImageError::MissingGrowth { pgno, txid, from, to }) => exists|i: int|
                {
                    &&& 0 <= i < files@.len()
                    &&& #[trigger] all_fit(files@, i, lock)
                    &&& files@[i].page_size == files@[0].page_size
                    &&& lacks(files@, i, lock, pgno) && forall|p: u32|
                        p < pgno ==> !#[trigger] lacks(files@, i, lock, p)
                    &&& txid == files@[i].max_txid && from == commit_before(files@, i) && to
                        == files@[i].commit
                },
        },
{
    if files.len() == 0 {
        return Err(ImageError::Empty);
    }
    let page_size: u32 = files[0].page_size;
    let mut places: HashMap<u32, (usize, usize)> = HashMap::new();
    let mut i: usize = 0;
    proof {
        let carried = |p: u32| latest(files@.take(0), p);
        assert forall|pgno: u32|
            match #[trigger] carried(pgno) {
                Some(data) => places@.dom().contains(pgno) && held_at(
                    files@,
                    places@[pgno],
                    pgno,
                    data,
                ),
                None => !places@.dom().contains(pgno),
            } by {
            assert(files@.take(0).len() == 0);
        }
    }
    while i < files.len()
        invariant
            0 < files@.len(),
            i <= files@.len(),
            page_size == files@[0].page_size,
            all_fit(files@, i as int, lock),
            knows(places@, files@, |p: u32| latest(files@.take(i as int), p)),
        decreases files@.len() - i,
    {
        let found: u32 = files[i].page_size;
        if found != page_size {
            return Err(ImageError::PageSize { expected: page_size, found });
        }
        place_pages(files, i, &mut places);
        match first_lacking(files, i, lock, &places) {
            Some(pgno) => {
                let from: u32 = if i == 0 {
                    0
                } else {
                    files[i - 1].commit
                };
                return Err(
                    ImageError::MissingGrowth {
                        pgno,
                        txid: files[i].max_txid,
                        from,
                        to: files[i].commit,
                    },
                );
            },
            None => {},
        }
        i = i + 1;
    }
    let commit: u32 = files[files.len() - 1].commit;
    let ghost carried = |p: u32| latest(files@, p);
    proof {
        assert(files@.take(files@.len() as int) =~= files@);
        let known = |p: u32| latest(files@.take(i as int), p);
        assert forall|pgno: u32|
            match #[trigger] carried(pgno) {
                Some(data) => places@.dom().contains(pgno) && held_at(
                    files@,
                    places@[pgno],
                    pgno,
                    data,
                ),
                None => !places@.dom().contains(pgno),
            } by {
            assert(known(pgno) == carried(pgno));
        }
    }
    let mut image: Vec<u8> = Vec::new();
    let mut last: u32 = 0;
    while last < commit
        invariant
            0 < files@.len(),
            last <= commit == files@.last().commit,
            page_size == files@[0].page_size,
            carried == |p: u32| latest(files@, p),
            knows(places@, files@, carried),
            all_fit(files@, files@.len() as int, lock),
            image@ == image_of(files@, lock, last),
        decreases commit - last,
    {
        let pgno: u32 = last + 1;
        let ghost before = image@;
        if pgno == lock {
            push_zeros(&mut image, page_size);
        } else {
            proof {
                lemma_committed_is_carried(files@, lock, files@.len() as int, pgno);
                assert(files@.take(files@.len() as int) =~= files@);
                assert(carried(pgno) == latest(files@, pgno));
            }
            match places.get(&pgno) {
                Some(place) => {
                    push_bytes(&mut image, &files[place.0].pages[place.1].1);
                },
                None => {},
            }
        }
        proof {
            assert(image@ =~= before + page_bytes(files@, lock, pgno));
        }
        last = pgno;
    }
    Ok(image)
}

fn push_bytes(out: &mut Vec<u8>, data: &Vec<u8>)
    ensures
        final(out)@ == old(out)@ + data@,
{
    let ghost before = out@;
    out.extend_from_slice(data.as_slice());
    assert(out@ =~= before + data@);
}

fn push_zeros(out: &mut Vec<u8>, n: u32)
    ensures
        final(out)@ == old(out)@ + Seq::new(n as nat, |i: int| 0u8),
{
    let ghost before = out@;
    let mut i: u32 = 0;
    while i < n
        invariant
            i <= n,
            out@ == before + Seq::new(i as nat, |k: int| 0u8),
        decreases n - i,
    {
        out.push(0);
        i = i + 1;
        assert(out@ =~= before + Seq::new(i as nat, |k: int| 0u8));
    }
}

/// While every file fits, each page up to the page count is carried.
proof fn lemma_committed_is_carried(files: Seq<DecodedFile>, lock: u32, n: int, pgno: u32)
    requires
        0 < n <= files.len(),
        all_fit(files, n, lock),
        1 <= pgno <= files[n - 1].commit,
        pgno != lock,
    ensures
        latest(files.take(n), pgno) is Some,
    decreases n,
{
    assert(fits(files, n - 1, lock));
    assert(!lacks(files, n - 1, lock, pgno));
    if n > 1 && pgno <= files[n - 2].commit {
        lemma_committed_is_carried(files, lock, n - 1, pgno);
        assert(files.take(n).drop_last() =~= files.take(n - 1));
    }
}

/// Whether a file carries a database from one state to the next: each page that
/// it holds is the new state's, and each that it does not hold was there before
/// and is unchanged.
pub open spec fn carries(
    file: DecodedFile,
    before: Map<u32, Seq<u8>>,
    commit_before: u32,
    after: Map<u32, Seq<u8>>,
    lock: u32,
) -> bool {
    forall|pgno: u32|
        1 <= pgno <= file.commit && pgno != lock ==> match #[trigger] latest_in(
            file.pages@,
            pgno,
        ) {
            Some(data) => after[pgno] == data,
            None => pgno <= commit_before && after[pgno] == before[pgno],
        }
}

/// Files that carry a database from nothing through its states rebuild the last
/// state: every file fits, and each page is that state's.
pub proof fn law_files_rebuild_the_last_state(
    files: Seq<DecodedFile>,
    states: Seq<Map<u32, Seq<u8>>>,
    lock: u32,
)
    requires
        files.len() > 0,
        states.len() == files.len() + 1,
        forall|i: int|
            0 <= i < files.len() ==> (#[trigger] files[i]).page_size == files[0].page_size
                && carries(files[i], states[i], commit_before(files, i), states[i + 1], lock),
    ensures
        all_fit(files, files.len() as int, lock),
        forall|pgno: u32|
            1 <= pgno <= files.last().commit && pgno != lock ==> #[trigger] page_bytes(
                files,
                lock,
                pgno,
            ) == states.last()[pgno],
{
    assert forall|i: int| 0 <= i < files.len() implies #[trigger] fits(files, i, lock) by {
        assert(files[i].page_size == files[0].page_size);
        assert forall|pgno: u32| !#[trigger] lacks(files, i, lock, pgno) by {
            if commit_before(files, i) < pgno <= files[i].commit && pgno != lock {
                lemma_state(files, states, lock, i + 1, pgno);
            }
        }
    }
    assert forall|pgno: u32|
        1 <= pgno <= files.last().commit && pgno != lock implies #[trigger] page_bytes(
        files,
        lock,
        pgno,
    ) == states.last()[pgno] by {
        lemma_state(files, states, lock, files.len() as int, pgno);
        assert(files.take(files.len() as int) =~= files);
    }
}

proof fn lemma_state(
    files: Seq<DecodedFile>,
    states: Seq<Map<u32, Seq<u8>>>,
    lock: u32,
    n: int,
    pgno: u32,
)
    requires
        0 < n <= files.len(),
        states.len() == files.len() + 1,
        forall|i: int|
            0 <= i < files.len() ==> carries(
                #[trigger] files[i],
                states[i],
                commit_before(files, i),
                states[i + 1],
                lock,
            ),
        1 <= pgno <= files[n - 1].commit,
        pgno != lock,
    ensures
        latest(files.take(n), pgno) == Some(states[n][pgno]),
    decreases n,
{
    let file = files[n - 1];
    assert(carries(file, states[n - 1], commit_before(files, n - 1), states[n], lock));
    assert(files.take(n).last() == file);
    assert(files.take(n).drop_last() =~= files.take(n - 1));
    if latest_in(file.pages@, pgno) is None {
        lemma_state(files, states, lock, n - 1, pgno);
    }
}

/// A rebuilt database has exactly as many bytes as its pages.
pub proof fn law_image_has_whole_pages(files: Seq<DecodedFile>, lock: u32, n: u32)
    requires
        files.len() > 0,
        all_fit(files, files.len() as int, lock),
        n <= files.last().commit,
        forall|pgno: u32| #[trigger]
            latest(files, pgno) matches Some(data) ==> data.len() == files[0].page_size,
    ensures
        image_of(files, lock, n).len() == n * files[0].page_size,
    decreases n,
{
    let size = files[0].page_size;
    if n > 0 {
        law_image_has_whole_pages(files, lock, (n - 1) as u32);
        if n != lock {
            lemma_committed_is_carried(files, lock, files.len() as int, n);
            assert(files.take(files.len() as int) =~= files);
        }
        assert(page_bytes(files, lock, n).len() == size);
        assert(n * size == (n - 1) * size + size) by (nonlinear_arith);
    } else {
        assert(n * size == 0) by (nonlinear_arith)
            requires
                n == 0,
        ;
    }
}

/// Where a page lies in a rebuilt database whose pages are whole.
proof fn lemma_page_place(files: Seq<DecodedFile>, lock: u32, n: u32, pgno: u32)
    requires
        files.len() > 0,
        all_fit(files, files.len() as int, lock),
        1 <= pgno <= n <= files.last().commit,
        forall|p: u32| #[trigger]
            latest(files, p) matches Some(data) ==> data.len() == files[0].page_size,
    ensures
        image_of(files, lock, n).len() == n * files[0].page_size,
        0 <= (pgno - 1) * files[0].page_size <= pgno * files[0].page_size <= n
            * files[0].page_size,
        image_of(files, lock, n).subrange(
            (pgno - 1) * files[0].page_size,
            pgno * files[0].page_size,
        ) == page_bytes(files, lock, pgno),
    decreases n,
{
    let size = files[0].page_size as int;
    law_image_has_whole_pages(files, lock, n);
    law_image_has_whole_pages(files, lock, (n - 1) as u32);
    let before = image_of(files, lock, (n - 1) as u32);
    let all = image_of(files, lock, n);
    let page = page_bytes(files, lock, pgno);
    assert(n * size == (n - 1) * size + size) by (nonlinear_arith);
    assert(pgno * size == (pgno - 1) * size + size) by (nonlinear_arith);
    assert(0 <= (pgno - 1) * size) by (nonlinear_arith)
        requires
            pgno >= 1,
            size >= 0,
    ;
    assert(pgno * size <= n * size) by (nonlinear_arith)
        requires
            pgno <= n,
            size >= 0,
    ;
    assert(all == before + page_bytes(files, lock, n));
    if pgno == n {
        assert(all.subrange((pgno - 1) * size, pgno * size) =~= page);
    } else {
        lemma_page_place(files, lock, (n - 1) as u32, pgno);
        assert(all.subrange((pgno - 1) * size, pgno * size) =~= before.subrange(
            (pgno - 1) * size,
            pgno * size,
        ));
    }
}

/// What a list's last entry for a page carries.
proof fn lemma_latest_in(pages: Seq<(u32, Vec<u8>)>, pgno: u32, j: int)
    requires
        0 <= j < pages.len(),
        pages[j].0 == pgno,
        forall|k: int| j < k < pages.len() ==> (#[trigger] pages[k]).0 != pgno,
    ensures
        latest_in(pages, pgno) == Some(pages[j].1@),
    decreases pages.len(),
{
    if j < pages.len() - 1 {
        assert(pages[pages.len() - 1].0 != pgno);
        assert forall|k: int| j < k < pages.drop_last().len() implies (
        #[trigger] pages.drop_last()[k]).0 != pgno by {
            assert(pages[k].0 != pgno);
        }
        lemma_latest_in(pages.drop_last(), pgno, j);
    }
}

proof fn lemma_latest_in_none(pages: Seq<(u32, Vec<u8>)>, pgno: u32)
    ensures
        latest_in(pages, pgno) is None <==> forall|k: int|
            0 <= k < pages.len() ==> (#[trigger] pages[k]).0 != pgno,
        latest_in(pages, pgno) matches Some(data) ==> exists|k: int|
            0 <= k < pages.len() && (#[trigger] pages[k]).0 == pgno && pages[k].1@ == data,
    decreases pages.len(),
{
    if pages.len() > 0 {
        let before = pages.drop_last();
        lemma_latest_in_none(before, pgno);
        assert(pages[pages.len() - 1] == pages.last());
        assert forall|k: int| 0 <= k < before.len() implies #[trigger] before[k] == pages[k] by {}
        if pages.last().0 != pgno {
            if latest_in(before, pgno) is None {
                assert forall|k: int| 0 <= k < pages.len() implies (#[trigger] pages[k]).0
                    != pgno by {
                    if k < before.len() {
                        assert(before[k].0 != pgno);
                    }
                }
            } else {
                let k = choose|k: int|
                    0 <= k < before.len() && (#[trigger] before[k]).0 == pgno && before[k].1@
                        == latest_in(before, pgno)->0;
                assert(pages[k] == before[k]);
            }
        }
    }
}

/// Whether some of the first files carries a page.
pub open spec fn carried_by(files: Seq<DecodedFile>, n: int, pgno: u32) -> bool {
    exists|i: int, j: int|
        0 <= i < n && 0 <= j < files[i].pages@.len() && (#[trigger] files[i].pages@[j]).0 == pgno
}

proof fn lemma_latest_none(files: Seq<DecodedFile>, pgno: u32)
    ensures
        latest(files, pgno) is None <==> !carried_by(files, files.len() as int, pgno),
        latest(files, pgno) matches Some(data) ==> exists|i: int, j: int|
            0 <= i < files.len() && 0 <= j < files[i].pages@.len() && (
            #[trigger] files[i].pages@[j]).0 == pgno && files[i].pages@[j].1@ == data,
    decreases files.len(),
{
    if files.len() > 0 {
        let before = files.drop_last();
        let last = files.last();
        lemma_latest_none(before, pgno);
        lemma_latest_in_none(last.pages@, pgno);
        assert(files[files.len() - 1] == last);
        if latest_in(last.pages@, pgno) is None {
            if latest(before, pgno) is Some {
                let (i, j) = choose|i: int, j: int|
                    0 <= i < before.len() && 0 <= j < before[i].pages@.len() && (
                    #[trigger] before[i].pages@[j]).0 == pgno && before[i].pages@[j].1@ == latest(
                        before,
                        pgno,
                    )->0;
                assert(files[i].pages@[j] == before[i].pages@[j]);
            } else if carried_by(files, files.len() as int, pgno) {
                let (i, j) = choose|i: int, j: int|
                    0 <= i < files.len() && 0 <= j < files[i].pages@.len() && (
                    #[trigger] files[i].pages@[j]).0 == pgno;
                if i < before.len() {
                    assert(before[i].pages@[j].0 == pgno);
                } else {
                    assert(last.pages@[j].0 == pgno);
                }
                assert(false);
            }
        } else {
            let j = choose|j: int|
                0 <= j < last.pages@.len() && (#[trigger] last.pages@[j]).0 == pgno
                    && last.pages@[j].1@ == latest_in(last.pages@, pgno)->0;
            assert(files[files.len() - 1].pages@[j].0 == pgno);
        }
    }
}

proof fn lemma_latest(files: Seq<DecodedFile>, pgno: u32, i: int, j: int)
    requires
        0 <= i < files.len(),
        0 <= j < files[i].pages@.len(),
        files[i].pages@[j].0 == pgno,
        forall|k: int| j < k < files[i].pages@.len() ==> (#[trigger] files[i].pages@[k]).0 != pgno,
        forall|a: int, k: int|
            i < a < files.len() && 0 <= k < files[a].pages@.len() ==> (
            #[trigger] files[a].pages@[k]).0 != pgno,
    ensures
        latest(files, pgno) == Some(files[i].pages@[j].1@),
    decreases files.len(),
{
    if i == files.len() - 1 {
        lemma_latest_in(files[i].pages@, pgno, j);
    } else {
        let last = files.last();
        lemma_latest_in_none(last.pages@, pgno);
        assert forall|k: int| 0 <= k < last.pages@.len() implies (#[trigger] last.pages@[k]).0
            != pgno by {
            assert(files[files.len() - 1].pages@[k].0 != pgno);
        }
        assert forall|a: int, k: int|
            i < a < files.drop_last().len() && 0 <= k < files.drop_last()[a].pages@.len() implies (
        #[trigger] files.drop_last()[a].pages@[k]).0 != pgno by {
            assert(files[a].pages@[k].0 != pgno);
        }
        lemma_latest(files.drop_last(), pgno, i, j);
    }
}

proof fn lemma_whole(files: Seq<DecodedFile>)
    requires
        forall|i: int, j: int|
            0 <= i < files.len() && 0 <= j < files[i].pages@.len() ==> (
            #[trigger] files[i].pages@[j]).1@.len() == files[0].page_size,
    ensures
        forall|p: u32| #[trigger]
            latest(files, p) matches Some(data) ==> data.len() == files[0].page_size,
{
    assert forall|p: u32| #[trigger]
        latest(files, p) matches Some(data) ==> data.len() == files[0].page_size by {
        lemma_latest_none(files, p);
    }
}

/// A rebuilt database has, at each page's place, the bytes of the entry that carries
/// the page last: the last one for it in the last file that holds one. The lock page
/// is zeros, whatever carries it, and nothing follows the last page.
pub proof fn law_image_is_the_latest_pages(
    files: Seq<DecodedFile>,
    lock: u32,
    pgno: u32,
    i: int,
    j: int,
)
    requires
        files.len() > 0,
        all_fit(files, files.len() as int, lock),
        forall|a: int, k: int|
            0 <= a < files.len() && 0 <= k < files[a].pages@.len() ==> (
            #[trigger] files[a].pages@[k]).1@.len() == files[0].page_size,
        1 <= pgno <= files.last().commit,
        0 <= i < files.len() && 0 <= j < files[i].pages@.len() && files[i].pages@[j].0 == pgno,
        forall|k: int| j < k < files[i].pages@.len() ==> (#[trigger] files[i].pages@[k]).0 != pgno,
        forall|a: int, k: int|
            i < a < files.len() && 0 <= k < files[a].pages@.len() ==> (
            #[trigger] files[a].pages@[k]).0 != pgno,
    ensures
        ({
            let size = files[0].page_size;
            let image = image_of(files, lock, files.last().commit);
            let place = image.subrange((pgno - 1) * size, pgno * size);
            &&& image.len() == files.last().commit * size
            &&& 0 <= (pgno - 1) * size <= pgno * size <= image.len()
            &&& pgno != lock ==> place == files[i].pages@[j].1@
            &&& pgno == lock ==> place == Seq::new(size as nat, |b: int| 0u8)
        }),
{
    lemma_whole(files);
    lemma_latest(files, pgno, i, j);
    lemma_page_place(files, lock, files.last().commit, pgno);
}

/// The lock page of a rebuilt database is zeros, also where no file carries it.
pub proof fn law_lock_page_is_zeros(files: Seq<DecodedFile>, lock: u32)
    requires
        files.len() > 0,
        all_fit(files, files.len() as int, lock),
        forall|a: int, k: int|
            0 <= a < files.len() && 0 <= k < files[a].pages@.len() ==> (
            #[trigger] files[a].pages@[k]).1@.len() == files[0].page_size,
        1 <= lock <= files.last().commit,
    ensures
        ({
            let size = files[0].page_size;
            let image = image_of(files, lock, files.last().commit);
            &&& 0 <= (lock - 1) * size <= lock * size <= image.len()
            &&& forall|b: int| (lock - 1) * size <= b < lock * size ==> #[trigger] image[b] == 0
        }),
{
    lemma_whole(files);
    lemma_page_place(files, lock, files.last().commit, lock);
    let size = files[0].page_size;
    let image = image_of(files, lock, files.last().commit);
    assert forall|b: int| (lock - 1) * size <= b < lock * size implies #[trigger] image[b] == 0 by {
        let page = image.subrange((lock - 1) * size, lock * size);
        assert(page[b - (lock - 1) * size] == image[b]);
        assert(lock * size == (lock - 1) * size + size) by (nonlinear_arith);
    }
}

/// Files that carry a database through its states rebuild the bytes of the last
/// one: each page's place holds that state's page.
pub proof fn law_image_is_the_last_state(
    files: Seq<DecodedFile>,
    states: Seq<Map<u32, Seq<u8>>>,
    lock: u32,
    pgno: u32,
)
    requires
        files.len() > 0,
        states.len() == files.len() + 1,
        forall|i: int|
            0 <= i < files.len() ==> (#[trigger] files[i]).page_size == files[0].page_size
                && carries(files[i], states[i], commit_before(files, i), states[i + 1], lock),
        forall|a: int, k: int|
            0 <= a < files.len() && 0 <= k < files[a].pages@.len() ==> (
            #[trigger] files[a].pages@[k]).1@.len() == files[0].page_size,
        1 <= pgno <= files.last().commit,
        pgno != lock,
    ensures
        ({
            let size = files[0].page_size;
            let image = image_of(files, lock, files.last().commit);
            &&& image.len() == files.last().commit * size
            &&& 0 <= (pgno - 1) * size <= pgno * size <= image.len()
            &&& image.subrange((pgno - 1) * size, pgno * size) == states.last()[pgno]
        }),
{
    lemma_whole(files);
    law_files_rebuild_the_last_state(files, states, lock);
    lemma_page_place(files, lock, files.last().commit, pgno);
    assert(page_bytes(files, lock, pgno) == states.last()[pgno]);
}

/// When files fit: they have one page size, and each page by which a file grows the
/// database, the lock page apart, is carried by it or by one before it.
pub proof fn law_files_fit_where_growth_is_carried(files: Seq<DecodedFile>, n: int, lock: u32)
    requires
        0 <= n <= files.len(),
    ensures
        all_fit(files, n, lock) <==> forall|i: int|
            0 <= i < n ==> (#[trigger] files[i]).page_size == files[0].page_size && forall|p: u32|
                (i == 0 || p > files[i - 1].commit) && 1 <= p <= files[i].commit && p != lock
                    ==> #[trigger] carried_by(files, i + 1, p),
{
    let grown = |i: int|
        files[i].page_size == files[0].page_size && forall|p: u32|
            (i == 0 || p > files[i - 1].commit) && 1 <= p <= files[i].commit && p != lock
                ==> #[trigger] carried_by(files, i + 1, p);
    assert forall|i: int| 0 <= i < n implies #[trigger] fits(files, i, lock) == grown(i) by {
        assert forall|p: u32| #[trigger] lacks(files, i, lock, p) == ((i == 0 || p > files[i
            - 1].commit) && 1 <= p <= files[i].commit && p != lock && !carried_by(
            files,
            i + 1,
            p,
        )) by {
            let first = files.take(i + 1);
            lemma_latest_none(first, p);
            assert forall|a: int| 0 <= a < i + 1 implies #[trigger] first[a] == files[a] by {}
            if carried_by(files, i + 1, p) {
                let (a, j) = choose|a: int, j: int|
                    0 <= a < i + 1 && 0 <= j < files[a].pages@.len() && (
                    #[trigger] files[a].pages@[j]).0 == p;
                assert(first[a].pages@[j].0 == p);
                assert(carried_by(first, first.len() as int, p));
            }
            if carried_by(first, first.len() as int, p) {
                let (a, j) = choose|a: int, j: int|
                    0 <= a < first.len() && 0 <= j < first[a].pages@.len() && (
                    #[trigger] first[a].pages@[j]).0 == p;
                assert(files[a].pages@[j].0 == p);
                assert(carried_by(files, i + 1, p));
            }
        }
        if fits(files, i, lock) {
            assert forall|p: u32|
                (i == 0 || p > files[i - 1].commit) && 1 <= p <= files[i].commit && p
                    != lock implies #[trigger] carried_by(files, i + 1, p) by {
                assert(!lacks(files, i, lock, p));
            }
        }
        if grown(i) {
            assert forall|p: u32| !#[trigger] lacks(files, i, lock, p) by {
                assert(carried_by(files, i + 1, p) || !carried_by(files, i + 1, p));
            }
        }
    }
    if all_fit(files, n, lock) {
        assert forall|i: int| 0 <= i < n implies (#[trigger] files[i]).page_size
            == files[0].page_size && forall|p: u32|
            (i == 0 || p > files[i - 1].commit) && 1 <= p <= files[i].commit && p != lock
                ==> #[trigger] carried_by(files, i + 1, p) by {
            assert(fits(files, i, lock));
            assert(grown(i));
        }
    }
    if forall|i: int|
        0 <= i < n ==> (#[trigger] files[i]).page_size == files[0].page_size && forall|p: u32|
            (i == 0 || p > files[i - 1].commit) && 1 <= p <= files[i].commit && p != lock
                ==> #[trigger] carried_by(files, i + 1, p) {
        assert forall|i: int| 0 <= i < n implies #[trigger] fits(files, i, lock) by {
            assert(files[i].page_size == files[0].page_size);
            assert(grown(i));
        }
    }
}

/// Which page a file lacks: one past the page count before it and within its own, but for the
/// lock page, that neither it nor a file before it carries.
pub proof fn law_lacking_page(files: Seq<DecodedFile>, i: int, lock: u32, pgno: u32)
    requires
        0 <= i < files.len(),
        1 <= pgno,
    ensures
        lacks(files, i, lock, pgno) <==> (i == 0 || pgno > files[i - 1].commit) && pgno
            <= files[i].commit && pgno != lock && !carried_by(files, i + 1, pgno),
        commit_before(files, i) == if i == 0 {
            0
        } else {
            files[i - 1].commit
        },
{
    let first = files.take(i + 1);
    lemma_latest_none(first, pgno);
    assert forall|a: int| 0 <= a < i + 1 implies #[trigger] first[a] == files[a] by {}
    if carried_by(files, i + 1, pgno) {
        let (a, j) = choose|a: int, j: int|
            0 <= a < i + 1 && 0 <= j < files[a].pages@.len() && (#[trigger] files[a].pages@[j]).0
                == pgno;
        assert(first[a].pages@[j].0 == pgno);
        assert(carried_by(first, first.len() as int, pgno));
    }
    if carried_by(first, first.len() as int, pgno) {
        let (a, j) = choose|a: int, j: int|
            0 <= a < first.len() && 0 <= j < first[a].pages@.len() && (
            #[trigger] first[a].pages@[j]).0 == pgno;
        assert(files[a].pages@[j].0 == pgno);
        assert(carried_by(files, i + 1, pgno));
    }
}

} // verus!
