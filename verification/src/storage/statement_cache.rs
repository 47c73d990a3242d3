//! The cache of prepared SQL statements, one per cell.
//!
//! A statement is a handle number here. An entry without a handle is in use by
//! a cursor. The cache is bounded by the total length of the SQL texts it
//! holds, and evicts the least recently used text first.

use vstd::prelude::*;

use crate::text;

verus! {

/// The total length of SQL text one cell's cache holds at most, in bytes.
pub const SQL_STATEMENT_CACHE_MAX_SIZE: usize = 1_048_576;

/// One cached statement, under the SQL text it was prepared from.
pub struct CachedSqlStatement {
    pub query: String,
    /// The idle statement's handle, or nothing while a cursor uses it.
    pub statement: Option<u64>,
    pub use_count: u64,
    pub size: usize,
    pub last_used: u64,
}

/// What an entry says of its query.
pub struct Slot {
    pub statement: Option<u64>,
    pub use_count: u64,
    pub size: usize,
    pub last_used: u64,
}

/// The statements one cell has prepared.
pub struct SqlStatementCache {
    entries: Vec<CachedSqlStatement>,
    total_size: usize,
    clock: u64,
}

/// What a lookup found.
pub enum SqlStatementCacheLookup {
    /// The query is not cached.
    Miss,
    /// The query is cached, and a cursor uses its statement.
    Busy,
    /// The statement is now the caller's; `reused` if it had run before.
    Hit { statement: u64, reused: bool },
}

spec fn slot_of(entry: CachedSqlStatement) -> Slot {
    Slot {
        statement: entry.statement,
        use_count: entry.use_count,
        size: entry.size,
        last_used: entry.last_used,
    }
}

spec fn holds(entries: Seq<CachedSqlStatement>, query: Seq<char>, i: int) -> bool {
    0 <= i < entries.len() && entries[i].query@ == query
}

spec fn slots(entries: Seq<CachedSqlStatement>) -> Map<Seq<char>, Slot> {
    Map::new(
        |query: Seq<char>| exists|i: int| holds(entries, query, i),
        |query: Seq<char>| slot_of(entries[choose|i: int| holds(entries, query, i)]),
    )
}

spec fn distinct(entries: Seq<CachedSqlStatement>) -> bool {
    forall|i: int, j: int|
        0 <= i < j < entries.len() ==> #[trigger] entries[i].query@ != #[trigger] entries[j].query@
}

spec fn sizes(entries: Seq<CachedSqlStatement>) -> nat
    decreases entries.len(),
{
    if entries.len() == 0 {
        0
    } else {
        sizes(entries.drop_last()) + entries.last().size as nat
    }
}

proof fn lemma_slot(entries: Seq<CachedSqlStatement>, i: int)
    requires
        distinct(entries),
        0 <= i < entries.len(),
    ensures
        slots(entries).dom().contains(entries[i].query@),
        slots(entries)[entries[i].query@] == slot_of(entries[i]),
{
    let query = entries[i].query@;
    assert(holds(entries, query, i));
    let k = choose|k: int| holds(entries, query, k);
    assert(holds(entries, query, k));
    assert(k == i);
}

proof fn lemma_slots_update(entries: Seq<CachedSqlStatement>, i: int, e: CachedSqlStatement)
    requires
        distinct(entries),
        0 <= i < entries.len(),
        e.query@ == entries[i].query@,
    ensures
        distinct(entries.update(i, e)),
        slots(entries.update(i, e)) == slots(entries).insert(e.query@, slot_of(e)),
        sizes(entries.update(i, e)) == sizes(entries) - entries[i].size + e.size,
    decreases entries.len(),
{
    let new = entries.update(i, e);
    assert(distinct(new));
    assert forall|q: Seq<char>| #[trigger] slots(new).dom().contains(q) <==> slots(entries).insert(
        e.query@,
        slot_of(e),
    ).dom().contains(q) by {
        if slots(new).dom().contains(q) {
            let k = choose|k: int| holds(new, q, k);
            assert(holds(entries, q, k));
        }
        if slots(entries).dom().contains(q) {
            let k = choose|k: int| holds(entries, q, k);
            assert(holds(new, q, k));
        }
        if q == e.query@ {
            assert(holds(new, q, i));
        }
    }
    assert forall|q: Seq<char>| #[trigger] slots(new).dom().contains(q) implies slots(new)[q]
        == slots(entries).insert(e.query@, slot_of(e))[q] by {
        let k = choose|k: int| holds(new, q, k);
        lemma_slot(new, k);
        if k != i {
            lemma_slot(entries, k);
        }
    }
    assert(slots(new) =~= slots(entries).insert(e.query@, slot_of(e)));
    lemma_sizes_update(entries, i, e);
}

proof fn lemma_sizes_update(entries: Seq<CachedSqlStatement>, i: int, e: CachedSqlStatement)
    requires
        0 <= i < entries.len(),
    ensures
        sizes(entries.update(i, e)) == sizes(entries) - entries[i].size + e.size,
    decreases entries.len(),
{
    if i == entries.len() - 1 {
        assert(entries.update(i, e).drop_last() =~= entries.drop_last());
    } else {
        assert(entries.update(i, e).drop_last() =~= entries.drop_last().update(i, e));
        lemma_sizes_update(entries.drop_last(), i, e);
    }
}

proof fn lemma_sizes_remove(entries: Seq<CachedSqlStatement>, i: int)
    requires
        0 <= i < entries.len(),
    ensures
        sizes(entries.remove(i)) == sizes(entries) - entries[i].size,
    decreases entries.len(),
{
    if i == entries.len() - 1 {
        assert(entries.remove(i) =~= entries.drop_last());
    } else {
        assert(entries.remove(i).drop_last() =~= entries.drop_last().remove(i));
        lemma_sizes_remove(entries.drop_last(), i);
    }
}

proof fn lemma_slots_remove(entries: Seq<CachedSqlStatement>, i: int)
    requires
        distinct(entries),
        0 <= i < entries.len(),
    ensures
        distinct(entries.remove(i)),
        slots(entries.remove(i)) == slots(entries).remove(entries[i].query@),
        sizes(entries.remove(i)) == sizes(entries) - entries[i].size,
{
    let new = entries.remove(i);
    lemma_sizes_remove(entries, i);
    assert forall|a: int, b: int| 0 <= a < b < new.len() implies #[trigger] new[a].query@
        != #[trigger] new[b].query@ by {
        let x = if a < i {
            a
        } else {
            a + 1
        };
        let y = if b < i {
            b
        } else {
            b + 1
        };
        assert(new[a] == entries[x] && new[b] == entries[y]);
    }
    assert forall|q: Seq<char>| #[trigger] slots(new).dom().contains(q) <==> slots(entries).remove(
        entries[i].query@,
    ).dom().contains(q) by {
        if slots(new).dom().contains(q) {
            let k = choose|k: int| holds(new, q, k);
            assert(holds(new, q, k));
            if k < i {
                assert(holds(entries, q, k));
            } else {
                assert(holds(entries, q, k + 1));
            }
        }
        if slots(entries).dom().contains(q) && q != entries[i].query@ {
            let k = choose|k: int| holds(entries, q, k);
            assert(holds(entries, q, k));
            if k < i {
                assert(holds(new, q, k));
            } else {
                assert(holds(new, q, k - 1));
            }
        }
    }
    assert forall|q: Seq<char>| #[trigger] slots(new).dom().contains(q) implies slots(new)[q]
        == slots(entries)[q] by {
        let k = choose|k: int| holds(new, q, k);
        assert(holds(new, q, k));
        lemma_slot(new, k);
        lemma_slot(
            entries,
            if k < i {
                k
            } else {
                k + 1
            },
        );
    }
    assert(slots(new) =~= slots(entries).remove(entries[i].query@));
}

proof fn lemma_slots_push(entries: Seq<CachedSqlStatement>, e: CachedSqlStatement)
    requires
        distinct(entries),
        !slots(entries).dom().contains(e.query@),
    ensures
        distinct(entries.push(e)),
        slots(entries.push(e)) == slots(entries).insert(e.query@, slot_of(e)),
        sizes(entries.push(e)) == sizes(entries) + e.size,
{
    let new = entries.push(e);
    assert(new.drop_last() =~= entries);
    assert forall|a: int, b: int| 0 <= a < b < new.len() implies #[trigger] new[a].query@
        != #[trigger] new[b].query@ by {
        if b == entries.len() {
            lemma_slot(entries, a);
        }
    }
    assert forall|q: Seq<char>| #[trigger] slots(new).dom().contains(q) <==> slots(entries).insert(
        e.query@,
        slot_of(e),
    ).dom().contains(q) by {
        if slots(new).dom().contains(q) {
            let k = choose|k: int| holds(new, q, k);
            assert(holds(new, q, k));
            if k < entries.len() {
                assert(holds(entries, q, k));
            }
        }
        if slots(entries).dom().contains(q) {
            let k = choose|k: int| holds(entries, q, k);
            assert(holds(entries, q, k));
            assert(holds(new, q, k));
        }
        if q == e.query@ {
            assert(holds(new, q, entries.len() as int));
        }
    }
    assert forall|q: Seq<char>| #[trigger] slots(new).dom().contains(q) implies slots(new)[q]
        == slots(entries).insert(e.query@, slot_of(e))[q] by {
        let k = choose|k: int| holds(new, q, k);
        assert(holds(new, q, k));
        lemma_slot(new, k);
        if k < entries.len() {
            lemma_slot(entries, k);
        }
    }
    assert(slots(new) =~= slots(entries).insert(e.query@, slot_of(e)));
}

/// What a lookup does to an entry that it finds: it is used now, and an idle
/// statement leaves with the caller.
pub open spec fn taken(slot: Slot, now: u64) -> Slot {
    if slot.statement is None {
        Slot { last_used: now, ..slot }
    } else {
        Slot {
            statement: None,
            use_count: if slot.use_count == u64::MAX {
                u64::MAX
            } else {
                (slot.use_count + 1) as u64
            },
            last_used: now,
            ..slot
        }
    }
}

/// The clock one tick later; it wraps.
pub open spec fn tick(clock: u64) -> u64 {
    if clock == u64::MAX {
        0
    } else {
        (clock + 1) as u64
    }
}

/// Whether `query` left when `before` shrank to `after`.
pub open spec fn evicted(
    before: Map<Seq<char>, Slot>,
    after: Map<Seq<char>, Slot>,
    query: Seq<char>,
) -> bool {
    before.dom().contains(query) && !after.dom().contains(query)
}

/// Whether `after` is what least-recently-used eviction leaves of `before`, with
/// `total` bytes of SQL text: what stays is unchanged, what left was used no
/// later than what stays, and nothing left that still fitted.
pub open spec fn evicts_oldest(
    before: Map<Seq<char>, Slot>,
    after: Map<Seq<char>, Slot>,
    total: nat,
) -> bool {
    &&& forall|q: Seq<char>| #[trigger]
        after.dom().contains(q) ==> before.dom().contains(q) && after[q] == before[q]
    &&& forall|gone: Seq<char>, kept: Seq<char>|
        evicted(before, after, gone) && after.dom().contains(kept) ==> (#[trigger] before[gone]).last_used
            <= (#[trigger] after[kept]).last_used
    &&& (exists|gone: Seq<char>| evicted(before, after, gone)) ==> exists|last: Seq<char>|
        #[trigger] evicted(before, after, last) && total + before[last].size
            > SQL_STATEMENT_CACHE_MAX_SIZE && forall|gone: Seq<char>| #[trigger]
            evicted(before, after, gone) ==> before[gone].last_used <= before[last].last_used
}

/// Whether statements are the idle ones that left when `before` shrank to `after`,
/// each with its query, and each once.
pub open spec fn releases(
    before: Map<Seq<char>, Slot>,
    after: Map<Seq<char>, Slot>,
    released: Seq<(String, u64)>,
) -> bool {
    &&& forall|i: int|
        0 <= i < released.len() ==> evicted(before, after, (#[trigger] released[i]).0@)
            && before[released[i].0@].statement == Some(released[i].1)
    &&& forall|i: int, j: int|
        0 <= i < j < released.len() ==> (#[trigger] released[i]).0@ != (#[trigger] released[j]).0@
    &&& forall|q: Seq<char>| #[trigger]
        evicted(before, after, q) && before[q].statement is Some ==> exists|i: int|
            0 <= i < released.len() && (#[trigger] released[i]).0@ == q
}

/// One more entry leaves: its idle statement is released too.
proof fn lemma_releases_more(
    before: Map<Seq<char>, Slot>,
    after: Map<Seq<char>, Slot>,
    gone: Seq<char>,
    released: Seq<(String, u64)>,
    more: Seq<(String, u64)>,
)
    requires
        releases(before, after, released),
        after.dom().contains(gone),
        before.dom().contains(gone),
        match before[gone].statement {
            Some(statement) => more.len() == released.len() + 1 && more.drop_last() == released
                && more.last().0@ == gone && more.last().1 == statement,
            None => more == released,
        },
    ensures
        releases(before, after.remove(gone), more),
{
    let now = after.remove(gone);
    assert forall|i: int| 0 <= i < more.len() implies evicted(
        before,
        now,
        (#[trigger] more[i]).0@,
    ) && before[more[i].0@].statement == Some(more[i].1) by {
        if i < released.len() {
            assert(more[i] == released[i]);
            assert(evicted(before, after, released[i].0@));
        }
    }
    assert forall|i: int, j: int| 0 <= i < j < more.len() implies (#[trigger] more[i]).0@ != (
    #[trigger] more[j]).0@ by {
        assert(more[i] == released[i]);
        assert(evicted(before, after, released[i].0@));
        if j < released.len() {
            assert(more[j] == released[j]);
        }
    }
    assert forall|q: Seq<char>| #[trigger]
        evicted(before, now, q) && before[q].statement is Some implies exists|i: int|
        0 <= i < more.len() && (#[trigger] more[i]).0@ == q by {
        if q == gone {
            assert(more[more.len() - 1].0@ == q);
        } else {
            assert(evicted(before, after, q));
            let i = choose|i: int| 0 <= i < released.len() && (#[trigger] released[i]).0@ == q;
            assert(more[i] == released[i]);
        }
    }
}

impl SqlStatementCache {
    /// The cached queries and what the cache knows of each.
    pub closed spec fn view(&self) -> Map<Seq<char>, Slot> {
        slots(self.entries@)
    }

    /// The bytes of SQL text held.
    pub closed spec fn size(&self) -> nat {
        self.total_size as nat
    }

    /// The last use's time stamp.
    pub closed spec fn time(&self) -> u64 {
        self.clock
    }

    /// The cache's invariant: one entry per query, a size that counts them all
    /// and is within the bound.
    pub closed spec fn wf(&self) -> bool {
        &&& distinct(self.entries@)
        &&& self.total_size == sizes(self.entries@)
        &&& self.total_size <= SQL_STATEMENT_CACHE_MAX_SIZE
    }

    /// An empty cache.
    pub fn new() -> (cache: Self)
        ensures
            cache.wf(),
            cache@ == Map::<Seq<char>, Slot>::empty(),
            cache.size() == 0,
            cache.time() == 0,
    {
        let cache = SqlStatementCache { entries: Vec::new(), total_size: 0, clock: 0 };
        assert(cache@ =~= Map::<Seq<char>, Slot>::empty());
        cache
    }

    /// Whether nothing is cached.
    pub fn is_empty(&self) -> (answer: bool)
        requires
            self.wf(),
        ensures
            answer == (forall|q: Seq<char>| !self@.dom().contains(q)),
    {
        if self.entries.len() > 0 {
            proof {
                lemma_slot(self.entries@, 0);
                assert(self@.dom().contains(self.entries@[0].query@));
            }
            return false;
        }
        true
    }

    fn find(&self, query: &str) -> (at: Option<usize>)
        requires
            self.wf(),
        ensures
            match at {
                Some(i) => i < self.entries@.len() && self.entries@[i as int].query@ == query@
                    && self@.dom().contains(query@) && self@[query@] == slot_of(
                    self.entries@[i as int],
                ),
                None => !self@.dom().contains(query@),
            },
    {
        let mut i: usize = 0;
        while i < self.entries.len()
            invariant
                self.wf(),
                i <= self.entries@.len(),
                forall|j: int| 0 <= j < i ==> self.entries@[j].query@ != query@,
            decreases self.entries@.len() - i,
        {
            if text::same_text(&self.entries[i].query, query) {
                proof {
                    lemma_slot(self.entries@, i as int);
                }
                return Some(i);
            }
            i = i + 1;
        }
        None
    }

    /// Look a query up and take its idle statement.
    pub fn take(&mut self, query: &str) -> (found: SqlStatementCacheLookup)
        requires
            old(self).wf(),
        ensures
            final(self).wf(),
            final(self).size() == old(self).size(),
            final(self).time() == tick(old(self).time()),
            if old(self)@.dom().contains(query@) {
                &&& final(self)@ == old(self)@.insert(
                    query@,
                    taken(old(self)@[query@], tick(old(self).time())),
                )
                &&& match old(self)@[query@].statement {
                    Some(handle) => found == (SqlStatementCacheLookup::Hit {
                        statement: handle,
                        reused: old(self)@[query@].use_count > 0,
                    }),
                    None => found is Busy,
                }
            } else {
                found is Miss && final(self)@ == old(self)@
            },
    {
        self.clock = self.clock.wrapping_add(1);
        let now: u64 = self.clock;
        match self.find(query) {
            None => SqlStatementCacheLookup::Miss,
            Some(i) => {
                let ghost before = self.entries@;
                let statement = self.entries[i].statement;
                let use_count: u64 = self.entries[i].use_count;
                let size: usize = self.entries[i].size;
                let name = self.entries[i].query.clone();
                match statement {
                    None => {
                        self.entries.set(
                            i,
                            CachedSqlStatement {
                                query: name,
                                statement: None,
                                use_count,
                                size,
                                last_used: now,
                            },
                        );
                        proof {
                            lemma_slots_update(before, i as int, self.entries@[i as int]);
                        }
                        SqlStatementCacheLookup::Busy
                    },
                    Some(handle) => {
                        self.entries.set(
                            i,
                            CachedSqlStatement {
                                query: name,
                                statement: None,
                                use_count: use_count.saturating_add(1),
                                size,
                                last_used: now,
                            },
                        );
                        proof {
                            lemma_slots_update(before, i as int, self.entries@[i as int]);
                        }
                        SqlStatementCacheLookup::Hit { statement: handle, reused: use_count > 0 }
                    },
                }
            },
        }
    }

    /// The index of an entry that was used least recently.
    fn oldest(&self) -> (at: Option<usize>)
        ensures
            match at {
                Some(i) => i < self.entries@.len() && forall|j: int|
                    0 <= j < self.entries@.len() ==> self.entries@[i as int].last_used <= (
                    #[trigger] self.entries@[j]).last_used,
                None => self.entries@.len() == 0,
            },
    {
        if self.entries.len() == 0 {
            return None;
        }
        let mut least: usize = 0;
        let mut i: usize = 1;
        while i < self.entries.len()
            invariant
                least < i <= self.entries@.len(),
                forall|j: int|
                    0 <= j < i ==> self.entries@[least as int].last_used <= (
                    #[trigger] self.entries@[j]).last_used,
            decreases self.entries@.len() - i,
        {
            if self.entries[i].last_used < self.entries[least].last_used {
                least = i;
            }
            i = i + 1;
        }
        Some(least)
    }

    /// Enter a query whose statement a cursor is about to use, then evict until
    /// the bound holds. Answers whether the query itself stayed, and the idle
    /// statements that left, for the caller to finalize.
    ///
    /// A Rust string is never longer than `isize::MAX` bytes.
    pub fn register(&mut self, query: &str) -> (answer: (bool, Vec<(String, u64)>))
        requires
            old(self).wf(),
            !old(self)@.dom().contains(query@),
            text::byte_len(query@) <= isize::MAX,
        ensures
            final(self).wf(),
            final(self).time() == tick(old(self).time()),
            answer.0 == final(self)@.dom().contains(query@),
            evicts_oldest(
                old(self)@.insert(
                    query@,
                    (Slot {
                        statement: None,
                        use_count: 1,
                        size: text::byte_len(query@) as usize,
                        last_used: tick(old(self).time()),
                    }),
                ),
                final(self)@,
                final(self).size(),
            ),
            releases(
                old(self)@.insert(
                    query@,
                    (Slot {
                        statement: None,
                        use_count: 1,
                        size: text::byte_len(query@) as usize,
                        last_used: tick(old(self).time()),
                    }),
                ),
                final(self)@,
                answer.1@,
            ),
    {
        let ghost start = self.entries@;
        self.clock = self.clock.wrapping_add(1);
        let now: u64 = self.clock;
        let size: usize = query.len();
        let entry = CachedSqlStatement {
            query: query.to_owned(),
            statement: None,
            use_count: 1,
            size,
            last_used: now,
        };
        self.total_size = self.total_size.saturating_add(size);
        proof {
            lemma_slots_push(start, entry);
        }
        self.entries.push(entry);
        let ghost before = self@;
        let ghost mut last: Option<Seq<char>> = None;
        let mut released: Vec<(String, u64)> = Vec::new();
        while self.total_size > SQL_STATEMENT_CACHE_MAX_SIZE
            invariant
                distinct(self.entries@),
                self.total_size == sizes(self.entries@),
                self.clock == now,
                releases(before, self@, released@),
                forall|q: Seq<char>| #[trigger]
                    self@.dom().contains(q) ==> before.dom().contains(q) && self@[q] == before[q],
                forall|gone: Seq<char>, kept: Seq<char>|
                    evicted(before, self@, gone) && self@.dom().contains(kept) ==> (
                    #[trigger] before[gone]).last_used <= (#[trigger] self@[kept]).last_used,
                match last {
                    Some(l) => evicted(before, self@, l) && self.total_size + before[l].size
                        > SQL_STATEMENT_CACHE_MAX_SIZE && forall|gone: Seq<char>| #[trigger]
                        evicted(before, self@, gone) ==> before[gone].last_used
                            <= before[l].last_used,
                    None => forall|gone: Seq<char>| !#[trigger] evicted(before, self@, gone),
                },
            decreases self.entries@.len(),
        {
            match self.oldest() {
                None => {
                    assert(sizes(self.entries@) == 0);
                },
                Some(i) => {
                    let ghost here = self.entries@;
                    let ghost seen = self@;
                    let ghost gone = here[i as int].query@;
                    let ghost freed = released@;
                    proof {
                        lemma_slots_remove(here, i as int);
                        lemma_slot(here, i as int);
                        assert forall|kept: Seq<char>| #[trigger] slots(here).dom().contains(kept)
                            implies here[i as int].last_used <= slots(here)[kept].last_used by {
                            let k = choose|k: int| holds(here, kept, k);
                            assert(holds(here, kept, k));
                            lemma_slot(here, k);
                        }
                    }
                    let removed = self.entries.remove(i);
                    self.total_size = self.total_size.saturating_sub(removed.size);
                    match removed.statement {
                        Some(statement) => {
                            released.push((removed.query, statement));
                            assert(released@.drop_last() =~= freed);
                        },
                        None => {},
                    }
                    proof {
                        lemma_releases_more(before, seen, gone, freed, released@);
                        assert(slots(here).dom().contains(gone));
                        assert forall|g: Seq<char>| #[trigger] evicted(before, self@, g) implies
                            before[g].last_used <= before[gone].last_used by {
                            if g != gone {
                                assert(evicted(before, seen, g));
                                assert(before[g].last_used <= seen[gone].last_used);
                            }
                        }
                        last = Some(gone);
                    }
                },
            }
        }
        let stayed = match self.find(query) {
            Some(_) => true,
            None => false,
        };
        proof {
            if last is Some {
                assert(evicted(before, self@, last->0));
            }
        }
        (stayed, released)
    }

    /// Forget a query. Answers the handle that leaves with its entry, for the
    /// caller to finalize.
    pub fn discard(&mut self, query: &str) -> (released: Option<u64>)
        requires
            old(self).wf(),
        ensures
            final(self).wf(),
            final(self)@ == old(self)@.remove(query@),
            final(self).time() == old(self).time(),
            released == (if old(self)@.dom().contains(query@) {
                old(self)@[query@].statement
            } else {
                None
            }),
    {
        match self.find(query) {
            None => {
                assert(self@ =~= old(self)@.remove(query@));
                None
            },
            Some(i) => {
                proof {
                    lemma_slots_remove(self.entries@, i as int);
                }
                let removed = self.entries.remove(i);
                self.total_size = self.total_size.saturating_sub(removed.size);
                removed.statement
            },
        }
    }

    /// Forget every query. Answers the idle statements, for the caller to finalize.
    pub fn close(self) -> (released: Vec<(String, u64)>)
        requires
            self.wf(),
        ensures
            releases(self@, Map::empty(), released@),
    {
        let mut entries = self.entries;
        let ghost before = self@;
        let mut released: Vec<(String, u64)> = Vec::new();
        while entries.len() > 0
            invariant
                distinct(entries@),
                before == self@,
                forall|q: Seq<char>| #[trigger]
                    slots(entries@).dom().contains(q) ==> before.dom().contains(q) && slots(
                        entries@,
                    )[q] == before[q],
                releases(before, slots(entries@), released@),
            decreases entries@.len(),
        {
            let ghost here = entries@;
            let ghost freed = released@;
            let at: usize = entries.len() - 1;
            let ghost gone = here[at as int].query@;
            proof {
                lemma_slots_remove(here, at as int);
                lemma_slot(here, at as int);
            }
            let removed = entries.remove(at);
            match removed.statement {
                Some(statement) => {
                    released.push((removed.query, statement));
                    assert(released@.drop_last() =~= freed);
                },
                None => {},
            }
            proof {
                lemma_releases_more(before, slots(here), gone, freed, released@);
            }
        }
        assert(slots(entries@) =~= Map::<Seq<char>, Slot>::empty());
        released
    }

    /// Give an idle statement back to its entry. Answers whether the entry took
    /// it; a statement that it did not take is the caller's to finalize.
    pub fn give_back(&mut self, query: &str, statement: u64) -> (retained: bool)
        requires
            old(self).wf(),
        ensures
            final(self).wf(),
            final(self).size() == old(self).size(),
            final(self).time() == old(self).time(),
            retained == (old(self)@.dom().contains(query@) && old(self)@[query@].statement is None),
            retained ==> final(self)@ == old(self)@.insert(
                query@,
                (Slot { statement: Some(statement), ..old(self)@[query@] }),
            ),
            !retained ==> final(self)@ == old(self)@,
    {
        match self.find(query) {
            None => false,
            Some(i) => {
                let ghost before = self.entries@;
                if self.entries[i].statement.is_some() {
                    return false;
                }
                let name = self.entries[i].query.clone();
                let use_count: u64 = self.entries[i].use_count;
                let size: usize = self.entries[i].size;
                let last_used: u64 = self.entries[i].last_used;
                self.entries.set(
                    i,
                    CachedSqlStatement {
                        query: name,
                        statement: Some(statement),
                        use_count,
                        size,
                        last_used,
                    },
                );
                proof {
                    lemma_slots_update(before, i as int, self.entries@[i as int]);
                }
                true
            },
        }
    }
}

/// A cache holds no more than a mebibyte of SQL.
pub proof fn law_cache_is_bounded(cache: SqlStatementCache)
    requires
        cache.wf(),
    ensures
        cache.size() <= 0x10_0000,
{
}

/// What a lookup does to an entry: an idle statement is handed out and counted, a busy one
/// stays busy, and either is now the most recent; nothing else of it changes. The clock goes
/// on by one, and from its end to the start.
pub proof fn law_lookup(slot: Slot, now: u64, clock: u64)
    ensures
        taken(slot, now).statement is None,
        taken(slot, now).last_used == now && taken(slot, now).size == slot.size,
        slot.statement is Some && slot.use_count < u64::MAX ==> taken(slot, now).use_count
            == slot.use_count + 1,
        slot.statement is None ==> taken(slot, now).use_count == slot.use_count,
        taken(slot, now).use_count >= slot.use_count,
        clock < u64::MAX ==> tick(clock) == clock + 1,
        tick(u64::MAX) == 0,
{
}

/// What makes room in a cache: entries that stay are as they were, none that stays was used
/// before one that goes, and none goes where all of them fit.
pub proof fn law_room_is_made_by_the_oldest(
    before: Map<Seq<char>, Slot>,
    after: Map<Seq<char>, Slot>,
    total: nat,
    gone: Seq<char>,
    kept: Seq<char>,
)
    requires
        evicts_oldest(before, after, total),
    ensures
        after.dom().contains(kept) ==> before.dom().contains(kept) && after[kept] == before[kept],
        before.dom().contains(gone) && !after.dom().contains(gone) && after.dom().contains(kept)
            ==> before[gone].last_used <= before[kept].last_used,
        before.dom().contains(gone) && !after.dom().contains(gone) ==> exists|last: Seq<char>|
            before.dom().contains(last) && !after.dom().contains(last) && total
                + (#[trigger] before[last]).size > 0x10_0000 && before[gone].last_used
                <= before[last].last_used,
{
    if before.dom().contains(gone) && !after.dom().contains(gone) {
        assert(evicted(before, after, gone));
        let last = choose|last: Seq<char>|
            #[trigger] evicted(before, after, last) && total + before[last].size
                > SQL_STATEMENT_CACHE_MAX_SIZE && forall|g: Seq<char>| #[trigger]
                evicted(before, after, g) ==> before[g].last_used <= before[last].last_used;
        assert(before[last].size + total > 0x10_0000);
        if after.dom().contains(kept) {
            assert(before[gone].last_used <= after[kept].last_used);
        }
    }
}

/// The statements that leave a cache are the idle ones of the entries that go, each once.
pub proof fn law_idle_statements_are_released(
    before: Map<Seq<char>, Slot>,
    after: Map<Seq<char>, Slot>,
    released: Seq<(String, u64)>,
    query: Seq<char>,
)
    requires
        releases(before, after, released),
    ensures
        (exists|i: int| 0 <= i < released.len() && (#[trigger] released[i]).0@ == query)
            <==> before.dom().contains(query) && !after.dom().contains(query)
            && before[query].statement is Some,
        forall|i: int|
            0 <= i < released.len() && (#[trigger] released[i]).0@ == query
                ==> before[query].statement == Some(released[i].1),
{
    if exists|i: int| 0 <= i < released.len() && (#[trigger] released[i]).0@ == query {
        let i = choose|i: int| 0 <= i < released.len() && (#[trigger] released[i]).0@ == query;
        assert(evicted(before, after, released[i].0@));
    }
    if before.dom().contains(query) && !after.dom().contains(query) && before[query].statement
        is Some {
        assert(evicted(before, after, query));
    }
}

} // verus!
