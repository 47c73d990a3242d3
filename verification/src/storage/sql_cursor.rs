//! Starting, stepping and closing SQL cursors, and the statements they own.
//!
//! SQLite runs outside. Each function here takes what SQLite answered to the
//! last request and says what to do next, so a statement is always the
//! caller's, a cursor's or the cache's, and never two of them.

use std::collections::HashMap;

use vstd::prelude::*;

use crate::storage::cells;
use crate::storage::cells::Cells;
use crate::storage::ids;
use crate::storage::sql_source;
use crate::storage::statement_cache;
use crate::storage::statement_cache::SqlStatementCache;
use crate::storage::statement_cache::SqlStatementCacheLookup;
use crate::text;
use crate::text_map::TextMap;

verus! {

broadcast use vstd::std_specs::hash::group_hash_axioms;

/// SQLite's result codes for success, for a row and for completion.
pub const SQLITE_OK: i32 = 0;

pub const SQLITE_ROW: i32 = 100;

pub const SQLITE_DONE: i32 = 101;

/// The refusal of a statement whose parameters do not match the bound values.
pub const WRONG_BINDINGS: &'static str = "Wrong number of parameter bindings for SQL query.";

/// The refusal of SQL text that holds no statement.
pub const NO_STATEMENT: &'static str = "SQL code did not contain a statement";

/// The refusal of a TEXT value that is not UTF-8.
pub const INVALID_UTF8_TEXT: &'static str = "TEXT result is not valid UTF-8; store arbitrary bytes as a BLOB";

/// An open cursor. It owns its statement until it is closed.
pub struct SqlCursor {
    pub scope: String,
    pub statement: u64,
    /// The connection's change counter when the cursor started.
    pub changes_before: u64,
    /// The cache entry that the statement goes back to.
    pub cache_query: Option<String>,
}

/// The open cursors and the statement caches of an isolate's cells. The ids are drawn
/// for the whole process, so an id names no cursor of another isolate.
pub struct SqlCursors {
    pub caches: TextMap<SqlStatementCache>,
    pub cursors: HashMap<u64, SqlCursor>,
}

/// What a scope's cache holds; nothing where the scope has no cache.
pub open spec fn cached(
    caches: TextMap<SqlStatementCache>,
    scope: Seq<char>,
) -> Map<Seq<char>, statement_cache::Slot> {
    if caches@.dom().contains(scope) {
        caches@[scope]@
    } else {
        Map::empty()
    }
}

/// The idle statement that the entry of a query holds.
pub open spec fn held(slots: Map<Seq<char>, statement_cache::Slot>, query: Seq<char>) -> Option<
    u64,
> {
    if slots.dom().contains(query) {
        slots[query].statement
    } else {
        None
    }
}

/// The time stamp of a scope's cache; a scope without a cache starts at zero.
pub open spec fn cache_time(caches: TextMap<SqlStatementCache>, scope: Seq<char>) -> u64 {
    if caches@.dom().contains(scope) {
        caches@[scope].time()
    } else {
        0
    }
}

/// Every scope's cache is within its bound.
pub open spec fn caches_wf(caches: TextMap<SqlStatementCache>) -> bool {
    &&& caches.wf()
    &&& forall|scope: Seq<char>| #[trigger]
        caches@.dom().contains(scope) ==> caches@[scope].wf()
}

/// No scope but `scope` has another cache than before.
pub open spec fn only_scope(
    before: TextMap<SqlStatementCache>,
    after: TextMap<SqlStatementCache>,
    scope: Seq<char>,
) -> bool {
    forall|other: Seq<char>|
        other != scope ==> #[trigger] cached(after, other) == cached(before, other) && cache_time(
            after,
            other,
        ) == cache_time(before, other)
}

/// The clock of a scope's cache after a lookup: it moves on where there is a cache.
pub open spec fn looked_up(caches: TextMap<SqlStatementCache>, scope: Seq<char>) -> u64 {
    if caches@.dom().contains(scope) {
        statement_cache::tick(cache_time(caches, scope))
    } else {
        0
    }
}

/// The clock of a scope's cache after a query was dropped from it: a cache that
/// holds no other query goes, and its clock with it.
pub open spec fn time_without(
    caches: TextMap<SqlStatementCache>,
    scope: Seq<char>,
    query: Seq<char>,
) -> u64 {
    if exists|other: Seq<char>|
        other != query && #[trigger] cached(caches, scope).dom().contains(other) {
        cache_time(caches, scope)
    } else {
        0
    }
}

impl SqlCursors {
    pub open spec fn wf(&self) -> bool {
        caches_wf(self.caches)
    }

    pub fn new() -> (all: Self)
        ensures
            all.wf(),
            all.caches@ == Map::<Seq<char>, SqlStatementCache>::empty(),
            all.cursors@ == Map::<u64, SqlCursor>::empty(),
    {
        SqlCursors { caches: TextMap::new(), cursors: HashMap::new() }
    }
}

/// Look a query up in its scope's cache and take its idle statement.
pub fn take_cached_sql_statement(
    caches: &mut TextMap<SqlStatementCache>,
    scope: &str,
    query: &str,
) -> (found: SqlStatementCacheLookup)
    requires
        caches_wf(*old(caches)),
    ensures
        caches_wf(*final(caches)),
        only_scope(*old(caches), *final(caches), scope@),
        cache_time(*final(caches), scope@) == looked_up(*old(caches), scope@),
        if cached(*old(caches), scope@).dom().contains(query@) {
            let slot = cached(*old(caches), scope@)[query@];
            &&& cached(*final(caches), scope@) == cached(*old(caches), scope@).insert(
                query@,
                statement_cache::taken(
                    slot,
                    statement_cache::tick(cache_time(*old(caches), scope@)),
                ),
            )
            &&& match slot.statement {
                Some(handle) => found == (SqlStatementCacheLookup::Hit {
                    statement: handle,
                    reused: slot.use_count > 0,
                }),
                None => found is Busy,
            }
        } else {
            found is Miss && cached(*final(caches), scope@) == cached(*old(caches), scope@)
        },
{
    match caches.remove(scope) {
        None => {
            assert(caches@ == old(caches)@);
            SqlStatementCacheLookup::Miss
        },
        Some(mut cache) => {
            let found = cache.take(query);
            let _ = caches.insert(scope, cache);
            found
        },
    }
}

/// Enter a query in its scope's cache. Answers whether it stayed, and the idle
/// statements that left, for the caller to finalize.
pub fn register_cached_sql_statement(
    caches: &mut TextMap<SqlStatementCache>,
    scope: &str,
    query: &str,
) -> (answer: (bool, Vec<(String, u64)>))
    requires
        caches_wf(*old(caches)),
        !cached(*old(caches), scope@).dom().contains(query@),
        text::byte_len(query@) <= isize::MAX,
    ensures
        caches_wf(*final(caches)),
        only_scope(*old(caches), *final(caches), scope@),
        answer.0 == cached(*final(caches), scope@).dom().contains(query@),
        final(caches)@.dom().contains(scope@),
        cache_time(*final(caches), scope@) == statement_cache::tick(
            cache_time(*old(caches), scope@),
        ),
        statement_cache::evicts_oldest(
            cached(*old(caches), scope@).insert(
                query@,
                (statement_cache::Slot {
                    statement: None,
                    use_count: 1,
                    size: text::byte_len(query@) as usize,
                    last_used: statement_cache::tick(cache_time(*old(caches), scope@)),
                }),
            ),
            cached(*final(caches), scope@),
            final(caches)@[scope@].size(),
        ),
        statement_cache::releases(
            cached(*old(caches), scope@).insert(
                query@,
                (statement_cache::Slot {
                    statement: None,
                    use_count: 1,
                    size: text::byte_len(query@) as usize,
                    last_used: statement_cache::tick(cache_time(*old(caches), scope@)),
                }),
            ),
            cached(*final(caches), scope@),
            answer.1@,
        ),
{
    let mut cache = match caches.remove(scope) {
        Some(cache) => cache,
        None => SqlStatementCache::new(),
    };
    let answer = cache.register(query);
    let _ = caches.insert(scope, cache);
    answer
}

/// Drop a query from its scope's cache. Answers an idle statement that has to
/// be finalized.
pub fn discard_cached_sql_statement(
    caches: &mut TextMap<SqlStatementCache>,
    scope: &str,
    query: &str,
) -> (released: Option<u64>)
    requires
        caches_wf(*old(caches)),
    ensures
        caches_wf(*final(caches)),
        only_scope(*old(caches), *final(caches), scope@),
        cached(*final(caches), scope@) == cached(*old(caches), scope@).remove(query@),
        cache_time(*final(caches), scope@) == time_without(*old(caches), scope@, query@),
        released == held(cached(*old(caches), scope@), query@),
{
    match caches.remove(scope) {
        None => {
            assert(cached(*caches, scope@) =~= cached(*old(caches), scope@).remove(query@));
            None
        },
        Some(mut cache) => {
            let released = cache.discard(query);
            assert forall|other: Seq<char>| #[trigger]
                cache@.dom().contains(other) <==> other != query@ && cached(
                    *old(caches),
                    scope@,
                ).dom().contains(other) by {}
            if !cache.is_empty() {
                let _ = caches.insert(scope, cache);
            } else {
                assert forall|other: Seq<char>| other != query@ implies !#[trigger] cached(
                    *old(caches),
                    scope@,
                ).dom().contains(other) by {
                    assert(!cache@.dom().contains(other));
                }
                assert(cached(*caches, scope@) =~= cached(*old(caches), scope@).remove(query@));
            }
            released
        },
    }
}

/// What becomes of a statement that a cursor is done with.
#[derive(PartialEq, Eq, Structural, Clone, Copy)]
pub enum Retired {
    /// The cache holds it again.
    Cached,
    /// It has to be finalized, and with it an idle statement that its cache entry
    /// held.
    Finalize { released: Option<u64> },
}

/// Hand a finished statement back. `reusable` says whether SQLite reset it and
/// cleared its bindings; a statement that cannot be reused leaves the cache
/// with its entry.
pub fn recycle_sql_statement(
    caches: &mut TextMap<SqlStatementCache>,
    scope: &str,
    query: &str,
    statement: u64,
    reusable: bool,
) -> (retired: Retired)
    requires
        caches_wf(*old(caches)),
    ensures
        caches_wf(*final(caches)),
        only_scope(*old(caches), *final(caches), scope@),
        cache_time(*final(caches), scope@) == (if reusable {
            cache_time(*old(caches), scope@)
        } else {
            time_without(*old(caches), scope@, query@)
        }),
        ({
            let before = cached(*old(caches), scope@);
            let after = cached(*final(caches), scope@);
            if !reusable {
                retired == (Retired::Finalize { released: held(before, query@) }) && after
                    == before.remove(query@)
            } else if before.dom().contains(query@) && before[query@].statement is None {
                retired == Retired::Cached && after == before.insert(
                    query@,
                    statement_cache::Slot { statement: Some(statement), ..before[query@] },
                )
            } else {
                retired == (Retired::Finalize { released: None }) && after == before
            }
        }),
{
    if !reusable {
        let released = discard_cached_sql_statement(caches, scope, query);
        return Retired::Finalize { released };
    }
    match caches.remove(scope) {
        None => {
            assert(caches@ == old(caches)@);
            Retired::Finalize { released: None }
        },
        Some(mut cache) => {
            let retained = cache.give_back(query, statement);
            let _ = caches.insert(scope, cache);
            if retained {
                Retired::Cached
            } else {
                Retired::Finalize { released: None }
            }
        },
    }
}

/// Whether a byte is ASCII white space.
pub open spec fn ascii_space(b: u8) -> bool {
    b == 0x20 || b == 0x09 || b == 0x0A || b == 0x0C || b == 0x0D
}

/// Whether SQL text goes on after a statement: something other than white
/// space follows it.
pub open spec fn goes_on(tail: Seq<u8>) -> bool {
    exists|i: int| 0 <= i < tail.len() && !ascii_space(#[trigger] tail[i])
}

/// Whether anything but white space follows a statement.
pub fn tail_goes_on(tail: &[u8]) -> (answer: bool)
    ensures
        answer == goes_on(tail@),
{
    let mut i: usize = 0;
    while i < tail.len()
        invariant
            i <= tail@.len(),
            forall|j: int| 0 <= j < i ==> ascii_space(#[trigger] tail@[j]),
        decreases tail@.len() - i,
    {
        let b: u8 = tail[i];
        if !(b == 0x20 || b == 0x09 || b == 0x0A || b == 0x0C || b == 0x0D) {
            assert(!ascii_space(tail@[i as int]));
            return true;
        }
        i = i + 1;
    }
    false
}

/// A cursor that is being started.
pub struct CursorStart {
    pub scope: String,
    pub query: String,
    /// How many values the caller binds.
    pub binds: usize,
    /// The statement that runs now.
    pub statement: Option<u64>,
    /// Whether that statement came from the cache, or entered it.
    pub in_cache: bool,
    /// Another cursor uses the cached statement of this query.
    pub cache_busy: bool,
    /// The statement had run before.
    pub reused: bool,
    /// An earlier statement of the same text has run.
    pub saw_prefix: bool,
    pub changes_before: u64,
}

/// Why a cursor did not start or did not go on.
pub enum CursorFailure {
    /// SQLite failed at `operation` with `code`; its message is SQLite's.
    Sqlite { operation: &'static str, code: i32 },
    /// SQLite did not take a value; such a failure poisons no cell.
    Unbound,
    /// The library refuses, with this message.
    Refused { message: &'static str },
}

/// What is said of a failure, given SQLite's message for the connection.
pub open spec fn failure_text(failure: CursorFailure, detail: Seq<char>) -> Seq<char> {
    match failure {
        CursorFailure::Sqlite { operation, .. } => operation@ + ": "@ + detail,
        CursorFailure::Unbound => "bind sync KV cursor: "@ + detail,
        CursorFailure::Refused { message } => message@,
    }
}

/// A cursor or an ingestion failed: what is said of it. Where SQLite failed at an
/// operation, and the failure is classified as one that poisons its cell, the
/// cell is poisoned with that message.
pub fn cursor_failed(
    state: &mut Cells,
    scope: &str,
    failure: CursorFailure,
    poisons: bool,
    detail: &str,
) -> (error: String)
    requires
        old(state).wf(),
    ensures
        final(state).wf(),
        error@ == failure_text(failure, detail@),
        if failure is Sqlite && poisons {
            cells::poisoned_by(*old(state), *final(state), scope@, error@)
        } else {
            *final(state) == *old(state)
        },
{
    match failure {
        CursorFailure::Sqlite { operation, .. } => cells::sqlite_operation_failure(
            state,
            scope,
            operation,
            detail,
            poisons,
        ),
        CursorFailure::Unbound => text::concat("bind sync KV cursor: ", detail),
        CursorFailure::Refused { message } => message.to_owned(),
    }
}

/// What to do next for a cursor that is being started.
pub enum CursorStep {
    /// Prepare the next statement of the text.
    Prepare,
    /// Run this statement to completion and discard its rows.
    Drain { statement: u64 },
    /// Bind the caller's values to this statement.
    Bind { statement: u64 },
    /// Step this statement once.
    Step { statement: u64 },
    /// Stop. The statements named here have to be finalized: the one that ran, and
    /// an idle one that its cache entry held.
    Fail { failure: CursorFailure, finalize: Option<u64>, released: Option<u64> },
    /// The first row is there; the cursor has this id.
    Row { cursor: u64 },
    /// The statement is complete. It wrote this many rows, and has to be
    /// retired with `retire`.
    Complete { rows_written: u64, statement: u64 },
}

/// The state of a start whose statement is gone.
pub open spec fn without_statement(start: CursorStart) -> CursorStart {
    CursorStart { statement: None, in_cache: false, ..start }
}

/// Why SQL text does not run: the scope is poisoned, the text holds a NUL, or the
/// scope has no connection.
pub open spec fn sql_refusal(state: Cells, scope: Seq<char>, query: Seq<char>) -> Option<
    Seq<char>,
> {
    if cells::critical_text(state, scope) is Some {
        cells::critical_text(state, scope)
    } else if sql_source::nul_refusal(query) is Some {
        sql_source::nul_refusal(query)
    } else if !state.open_cells@.dom().contains(scope) {
        Some("no db for "@ + scope)
    } else {
        None
    }
}

/// Admit SQL text.
pub fn sql_admitted(state: &Cells, scope: &str, query: &str) -> (result: Result<(), String>)
    requires
        state.wf(),
    ensures
        match result {
            Ok(()) => sql_refusal(*state, scope@, query@) is None,
            Err(error) => sql_refusal(*state, scope@, query@) == Some(error@),
        },
{
    match cells::require_sql_healthy(state, scope) {
        Err(error) => {
            return Err(error);
        },
        Ok(()) => {},
    }
    match sql_source::without_nul(query) {
        Err(error) => {
            return Err(error);
        },
        Ok(()) => {},
    }
    if !state.open_cells.contains_key(scope) {
        return Err(text::concat("no db for ", scope));
    }
    Ok(())
}

/// Start a cursor: text that is not admitted is refused, and an idle cached statement
/// of this very text is taken. The next step prepares a statement where none was
/// taken; where one was, it is bound next if it takes as many values as the
/// caller gives.
pub fn sql_cursor_start_values(
    state: &Cells,
    all: &mut SqlCursors,
    scope: &str,
    query: &str,
    binds: usize,
    changes_before: u64,
) -> (result: Result<CursorStart, String>)
    requires
        state.wf(),
        old(all).wf(),
    ensures
        final(all).wf(),
        final(all).cursors@ == old(all).cursors@,
        only_scope(old(all).caches, final(all).caches, scope@),
        match result {
            Err(error) => sql_refusal(*state, scope@, query@) == Some(error@) && *final(all)
                == *old(all),
            Ok(start) => {
                let before = cached(old(all).caches, scope@);
                let known = before.dom().contains(query@);
                &&& sql_refusal(*state, scope@, query@) is None
                &&& start.scope@ == scope@
                &&& start.query@ == query@
                &&& start.binds == binds
                &&& start.changes_before == changes_before
                &&& !start.saw_prefix
                &&& start.statement == (if known {
                    before[query@].statement
                } else {
                    None
                })
                &&& start.in_cache == (start.statement is Some)
                &&& start.cache_busy == (known && before[query@].statement is None)
                &&& start.reused == (start.statement is Some && before[query@].use_count > 0)
                &&& cache_time(final(all).caches, scope@) == looked_up(old(all).caches, scope@)
                &&& cached(final(all).caches, scope@) == (if known {
                    before.insert(
                        query@,
                        statement_cache::taken(
                            before[query@],
                            statement_cache::tick(cache_time(old(all).caches, scope@)),
                        ),
                    )
                } else {
                    before
                })
            },
        },
{
    match sql_admitted(state, scope, query) {
        Err(error) => {
            return Err(error);
        },
        Ok(()) => {},
    }
    let found = take_cached_sql_statement(&mut all.caches, scope, query);
    let (statement, cache_busy, reused) = match found {
        SqlStatementCacheLookup::Miss => (None, false, false),
        SqlStatementCacheLookup::Busy => (None, true, false),
        SqlStatementCacheLookup::Hit { statement, reused } => (Some(statement), false, reused),
    };
    Ok(
        CursorStart {
            scope: scope.to_owned(),
            query: query.to_owned(),
            binds,
            statement,
            in_cache: statement.is_some(),
            cache_busy,
            reused,
            saw_prefix: false,
            changes_before,
        },
    )
}

/// What SQLite answered to a request to prepare a statement.
pub struct Prepared<'a> {
    pub code: i32,
    pub statement: Option<u64>,
    /// The text behind the statement.
    pub tail: &'a [u8],
    /// How many values the statement takes.
    pub parameters: usize,
}

impl CursorStart {
    /// A statement was prepared. A failed or an empty one stops the start; one
    /// with more text behind it runs to completion first, and takes no values;
    /// the last one is bound.
    pub fn prepared(&mut self, answer: Prepared<'_>) -> (next: CursorStep)
        requires
            old(self).statement is None,
            !old(self).in_cache,
        ensures
            match answer.statement {
                _ if answer.code != SQLITE_OK => next == (CursorStep::Fail {
                    failure: CursorFailure::Sqlite {
                        operation: "prepare SQL cursor",
                        code: answer.code,
                    },
                    finalize: answer.statement,
                    released: None,
                }) && *final(self) == *old(self),
                None => next == (CursorStep::Fail {
                    failure: CursorFailure::Refused { message: NO_STATEMENT },
                    finalize: None,
                    released: None,
                }) && *final(self) == *old(self),
                Some(statement) => {
                    let takes = if goes_on(answer.tail@) {
                        0
                    } else {
                        old(self).binds
                    };
                    if answer.parameters != takes {
                        &&& next == (CursorStep::Fail {
                            failure: CursorFailure::Refused { message: WRONG_BINDINGS },
                            finalize: Some(statement),
                            released: None,
                        })
                        &&& *final(self) == *old(self)
                    } else {
                        &&& *final(self) == (CursorStart {
                            statement: Some(statement),
                            ..*old(self)
                        })
                        &&& next == (if goes_on(answer.tail@) {
                            CursorStep::Drain { statement }
                        } else {
                            CursorStep::Bind { statement }
                        })
                    }
                },
            },
    {
        if answer.code != SQLITE_OK {
            return CursorStep::Fail {
                failure: CursorFailure::Sqlite {
                    operation: "prepare SQL cursor",
                    code: answer.code,
                },
                finalize: answer.statement,
                released: None,
            };
        }
        match answer.statement {
            None => CursorStep::Fail {
                failure: CursorFailure::Refused { message: NO_STATEMENT },
                finalize: None,
                released: None,
            },
            Some(statement) => {
                let more = tail_goes_on(answer.tail);
                let takes: usize = if more {
                    0
                } else {
                    self.binds
                };
                if answer.parameters != takes {
                    return CursorStep::Fail {
                        failure: CursorFailure::Refused { message: WRONG_BINDINGS },
                        finalize: Some(statement),
                        released: None,
                    };
                }
                self.statement = Some(statement);
                if more {
                    CursorStep::Drain { statement }
                } else {
                    CursorStep::Bind { statement }
                }
            },
        }
    }

    /// The statement that was taken from the cache takes this many values.
    pub fn reused(
        &mut self,
        caches: &mut TextMap<SqlStatementCache>,
        parameters: usize,
    ) -> (next: CursorStep)
        requires
            caches_wf(*old(caches)),
            old(self).statement is Some,
            old(self).in_cache,
        ensures
            caches_wf(*final(caches)),
            only_scope(*old(caches), *final(caches), old(self).scope@),
            if parameters == old(self).binds {
                &&& next == (CursorStep::Bind { statement: old(self).statement->0 })
                &&& *final(self) == *old(self)
                &&& *final(caches) == *old(caches)
            } else {
                &&& next == (CursorStep::Fail {
                    failure: CursorFailure::Refused { message: WRONG_BINDINGS },
                    finalize: old(self).statement,
                    released: held(
                        cached(*old(caches), old(self).scope@),
                        old(self).query@,
                    ),
                })
                &&& *final(self) == without_statement(*old(self))
                &&& cached(*final(caches), old(self).scope@) == cached(
                    *old(caches),
                    old(self).scope@,
                ).remove(old(self).query@)
                &&& cache_time(*final(caches), old(self).scope@) == time_without(
                    *old(caches),
                    old(self).scope@,
                    old(self).query@,
                )
            },
    {
        match self.statement {
            Some(statement) if parameters == self.binds => CursorStep::Bind { statement },
            _ => self.abandon(caches, CursorFailure::Refused { message: WRONG_BINDINGS }),
        }
    }

    /// Give the statement up: its cache entry goes, and it has to be finalized.
    fn abandon(
        &mut self,
        caches: &mut TextMap<SqlStatementCache>,
        failure: CursorFailure,
    ) -> (next: CursorStep)
        requires
            caches_wf(*old(caches)),
        ensures
            caches_wf(*final(caches)),
            only_scope(*old(caches), *final(caches), old(self).scope@),
            next == (CursorStep::Fail {
                failure,
                finalize: old(self).statement,
                released: if old(self).in_cache {
                    held(cached(*old(caches), old(self).scope@), old(self).query@)
                } else {
                    None
                },
            }),
            *final(self) == without_statement(*old(self)),
            cached(*final(caches), old(self).scope@) == (if old(self).in_cache {
                cached(*old(caches), old(self).scope@).remove(old(self).query@)
            } else {
                cached(*old(caches), old(self).scope@)
            }),
            cache_time(*final(caches), old(self).scope@) == (if old(self).in_cache {
                time_without(*old(caches), old(self).scope@, old(self).query@)
            } else {
                cache_time(*old(caches), old(self).scope@)
            }),
    {
        let released = if self.in_cache {
            discard_cached_sql_statement(caches, &self.scope, &self.query)
        } else {
            None
        };
        let finalize = self.statement;
        self.statement = None;
        self.in_cache = false;
        CursorStep::Fail { failure, finalize, released }
    }

    /// A statement with more text behind it stopped with this code. After
    /// completion it is finalized by the caller and the text goes on.
    pub fn drained(&mut self, code: i32) -> (next: CursorStep)
        requires
            old(self).statement is Some,
            !old(self).in_cache,
        ensures
            if code == SQLITE_DONE {
                &&& next is Prepare
                &&& *final(self) == (CursorStart {
                    saw_prefix: true,
                    ..without_statement(*old(self))
                })
            } else {
                &&& next == (CursorStep::Fail {
                    failure: CursorFailure::Sqlite { operation: "step SQL prefix", code },
                    finalize: old(self).statement,
                    released: None,
                })
                &&& *final(self) == without_statement(*old(self))
            },
    {
        let statement = self.statement;
        self.statement = None;
        self.in_cache = false;
        if code == SQLITE_DONE {
            self.saw_prefix = true;
            CursorStep::Prepare
        } else {
            CursorStep::Fail {
                failure: CursorFailure::Sqlite { operation: "step SQL prefix", code },
                finalize: statement,
                released: None,
            }
        }
    }

    /// The values were bound, or SQLite refused one. A bound statement that the
    /// whole text is enters the cache, unless another cursor holds the entry; the idle
    /// statements that leave the cache for it are to be finalized.
    pub fn bound(
        &mut self,
        caches: &mut TextMap<SqlStatementCache>,
        ok: bool,
    ) -> (answer: (CursorStep, Vec<(String, u64)>))
        requires
            caches_wf(*old(caches)),
            old(self).statement is Some,
            !old(self).in_cache && !old(self).cache_busy ==> !cached(
                *old(caches),
                old(self).scope@,
            ).dom().contains(old(self).query@),
            text::byte_len(old(self).query@) <= isize::MAX,
        ensures
            caches_wf(*final(caches)),
            only_scope(*old(caches), *final(caches), old(self).scope@),
            ({
                let before = cached(*old(caches), old(self).scope@);
                let after = cached(*final(caches), old(self).scope@);
                let statement = old(self).statement->0;
                if !ok {
                    &&& answer.0 == (CursorStep::Fail {
                        failure: CursorFailure::Unbound,
                        finalize: Some(statement),
                        released: if old(self).in_cache {
                            held(before, old(self).query@)
                        } else {
                            None
                        },
                    })
                    &&& answer.1@.len() == 0
                    &&& *final(self) == without_statement(*old(self))
                    &&& after == (if old(self).in_cache {
                        before.remove(old(self).query@)
                    } else {
                        before
                    })
                    &&& cache_time(*final(caches), old(self).scope@) == (if old(self).in_cache {
                        time_without(*old(caches), old(self).scope@, old(self).query@)
                    } else {
                        cache_time(*old(caches), old(self).scope@)
                    })
                } else if old(self).in_cache || old(self).cache_busy || old(self).saw_prefix {
                    &&& answer.0 == (CursorStep::Step { statement })
                    &&& answer.1@.len() == 0
                    &&& *final(self) == *old(self)
                    &&& *final(caches) == *old(caches)
                } else {
                    &&& answer.0 == (CursorStep::Step { statement })
                    &&& *final(self) == (CursorStart {
                        in_cache: after.dom().contains(old(self).query@),
                        ..*old(self)
                    })
                    &&& cache_time(*final(caches), old(self).scope@) == statement_cache::tick(
                        cache_time(*old(caches), old(self).scope@),
                    )
                    &&& statement_cache::evicts_oldest(
                        before.insert(
                            old(self).query@,
                            statement_cache::Slot {
                                statement: None,
                                use_count: 1,
                                size: text::byte_len(old(self).query@) as usize,
                                last_used: statement_cache::tick(
                                    cache_time(*old(caches), old(self).scope@),
                                ),
                            },
                        ),
                        after,
                        final(caches)@[old(self).scope@].size(),
                    )
                    &&& statement_cache::releases(
                        before.insert(
                            old(self).query@,
                            statement_cache::Slot {
                                statement: None,
                                use_count: 1,
                                size: text::byte_len(old(self).query@) as usize,
                                last_used: statement_cache::tick(
                                    cache_time(*old(caches), old(self).scope@),
                                ),
                            },
                        ),
                        after,
                        answer.1@,
                    )
                }
            }),
    {
        if !ok {
            let next = self.abandon(
                caches,
                CursorFailure::Unbound,
            );
            return (next, Vec::new());
        }
        let mut released: Vec<(String, u64)> = Vec::new();
        if !self.in_cache && !self.cache_busy && !self.saw_prefix {
            let entered = register_cached_sql_statement(caches, &self.scope, &self.query);
            self.in_cache = entered.0;
            released = entered.1;
        }
        let next = match self.statement {
            Some(statement) => CursorStep::Step { statement },
            None => CursorStep::Prepare,
        };
        (next, released)
    }

    /// The statement was stepped once. A row keeps it, in the cursor `id`, which no
    /// other cursor of the process has; completion releases it with the count of rows
    /// it wrote; anything else gives it up. `text_ok` says whether every TEXT value of
    /// a row was UTF-8.
    pub fn stepped(
        &mut self,
        all: &mut SqlCursors,
        id: u64,
        code: i32,
        text_ok: bool,
        changes_now: u64,
    ) -> (next: CursorStep)
        requires
            old(all).wf(),
            old(self).statement is Some,
        ensures
            final(all).wf(),
            only_scope(old(all).caches, final(all).caches, old(self).scope@),
            ({
                let statement = old(self).statement->0;
                if code == SQLITE_ROW && text_ok {
                    &&& next == (CursorStep::Row { cursor: id })
                    &&& final(all).caches == old(all).caches
                    &&& final(all).cursors@.dom() == old(all).cursors@.dom().insert(id)
                    &&& forall|other: u64|
                        other != id && old(all).cursors@.dom().contains(other)
                            ==> #[trigger] final(all).cursors@[other] == old(all).cursors@[other]
                    &&& owned_cursor(final(all).cursors@[id], *old(self), statement)
                    &&& *final(self) == without_statement(*old(self))
                } else if code == SQLITE_DONE {
                    &&& next == (CursorStep::Complete {
                        rows_written: if changes_now < old(self).changes_before {
                            0
                        } else {
                            (changes_now - old(self).changes_before) as u64
                        },
                        statement,
                    })
                    &&& *final(all) == *old(all)
                    &&& *final(self) == *old(self)
                } else {
                    &&& next == (CursorStep::Fail {
                        failure: if code == SQLITE_ROW {
                            CursorFailure::Refused { message: INVALID_UTF8_TEXT }
                        } else {
                            CursorFailure::Sqlite { operation: "step SQL cursor", code }
                        },
                        finalize: Some(statement),
                        released: if old(self).in_cache {
                            held(cached(old(all).caches, old(self).scope@), old(self).query@)
                        } else {
                            None
                        },
                    })
                    &&& *final(self) == without_statement(*old(self))
                    &&& final(all).cursors@ == old(all).cursors@
                    &&& cached(final(all).caches, old(self).scope@) == (if old(self).in_cache {
                        cached(old(all).caches, old(self).scope@).remove(old(self).query@)
                    } else {
                        cached(old(all).caches, old(self).scope@)
                    })
                    &&& cache_time(final(all).caches, old(self).scope@) == (if old(
                        self,
                    ).in_cache {
                        time_without(old(all).caches, old(self).scope@, old(self).query@)
                    } else {
                        cache_time(old(all).caches, old(self).scope@)
                    })
                }
            }),
    {
        if code == SQLITE_DONE {
            return match self.statement {
                Some(statement) => CursorStep::Complete {
                    rows_written: changes_now.saturating_sub(self.changes_before),
                    statement,
                },
                None => CursorStep::Prepare,
            };
        }
        if code == SQLITE_ROW && text_ok {
            match self.statement {
                Some(statement) => {
                    let cursor = SqlCursor {
                        scope: self.scope.clone(),
                        statement,
                        changes_before: self.changes_before,
                        cache_query: if self.in_cache {
                            Some(self.query.clone())
                        } else {
                            None
                        },
                    };
                    all.cursors.insert(id, cursor);
                },
                None => {},
            }
            self.statement = None;
            self.in_cache = false;
            return CursorStep::Row { cursor: id };
        }
        let failure = if code == SQLITE_ROW {
            CursorFailure::Refused { message: INVALID_UTF8_TEXT }
        } else {
            CursorFailure::Sqlite { operation: "step SQL cursor", code }
        };
        self.abandon(&mut all.caches, failure)
    }

    /// Retire the statement of a completed start: back to its cache entry where
    /// it has one, and finalized otherwise.
    pub fn retire(
        &mut self,
        caches: &mut TextMap<SqlStatementCache>,
        reusable: bool,
    ) -> (retired: Retired)
        requires
            caches_wf(*old(caches)),
            old(self).statement is Some,
        ensures
            caches_wf(*final(caches)),
            only_scope(*old(caches), *final(caches), old(self).scope@),
            *final(self) == without_statement(*old(self)),
            cache_time(*final(caches), old(self).scope@) == (if old(self).in_cache && !reusable {
                time_without(*old(caches), old(self).scope@, old(self).query@)
            } else {
                cache_time(*old(caches), old(self).scope@)
            }),
            ({
                let query = old(self).query@;
                let before = cached(*old(caches), old(self).scope@);
                let after = cached(*final(caches), old(self).scope@);
                if !old(self).in_cache {
                    retired == (Retired::Finalize { released: None }) && after == before
                } else if !reusable {
                    retired == (Retired::Finalize { released: held(before, query) }) && after
                        == before.remove(query)
                } else if before.dom().contains(query) && before[query].statement is None {
                    retired == Retired::Cached && after == before.insert(
                        query,
                        statement_cache::Slot { statement: old(self).statement, ..before[query] },
                    )
                } else {
                    retired == (Retired::Finalize { released: None }) && after == before
                }
            }),
    {
        let retired = match self.statement {
            Some(statement) if self.in_cache => recycle_sql_statement(
                caches,
                &self.scope,
                &self.query,
                statement,
                reusable,
            ),
            _ => Retired::Finalize { released: None },
        };
        self.statement = None;
        self.in_cache = false;
        retired
    }
}

/// Whether a cursor took over what its start held.
pub open spec fn owned_cursor(cursor: SqlCursor, start: CursorStart, statement: u64) -> bool {
    &&& cursor.scope@ == start.scope@
    &&& cursor.statement == statement
    &&& cursor.changes_before == start.changes_before
    &&& match cursor.cache_query {
        Some(query) => start.in_cache && query@ == start.query@,
        None => !start.in_cache,
    }
}

/// The refusal of a cursor id that names no open cursor.
pub const CURSOR_GONE: &'static str = "SQL cursor is no longer active";

/// Take a cursor out of the open ones.
pub fn sql_cursor_close(all: &mut SqlCursors, cursor_id: u64) -> (closed: Option<SqlCursor>)
    ensures
        final(all).caches == old(all).caches,
        final(all).cursors@ == old(all).cursors@.remove(cursor_id),
        closed == (if old(all).cursors@.dom().contains(cursor_id) {
            Some(old(all).cursors@[cursor_id])
        } else {
            None
        }),
{
    let closed = all.cursors.remove(&cursor_id);
    assert(all.cursors@ =~= old(all).cursors@.remove(cursor_id));
    closed
}

/// Retire the statement of a closed cursor: back to its cache entry where it
/// has one, and finalized otherwise.
pub fn retire_cursor(
    caches: &mut TextMap<SqlStatementCache>,
    cursor: SqlCursor,
    reusable: bool,
) -> (retired: Retired)
    requires
        caches_wf(*old(caches)),
    ensures
        caches_wf(*final(caches)),
        only_scope(*old(caches), *final(caches), cursor.scope@),
        cache_time(*final(caches), cursor.scope@) == (match cursor.cache_query {
            Some(query) if !reusable => time_without(*old(caches), cursor.scope@, query@),
            _ => cache_time(*old(caches), cursor.scope@),
        }),
        ({
            let before = cached(*old(caches), cursor.scope@);
            let after = cached(*final(caches), cursor.scope@);
            match cursor.cache_query {
                None => retired == (Retired::Finalize { released: None }) && after == before,
                Some(query) => if !reusable {
                    retired == (Retired::Finalize { released: held(before, query@) }) && after
                        == before.remove(query@)
                } else if before.dom().contains(query@) && before[query@].statement is None {
                    retired == Retired::Cached && after == before.insert(
                        query@,
                        statement_cache::Slot {
                            statement: Some(cursor.statement),
                            ..before[query@]
                        },
                    )
                } else {
                    retired == (Retired::Finalize { released: None }) && after == before
                },
            }
        }),
{
    match &cursor.cache_query {
        Some(query) => recycle_sql_statement(
            caches,
            &cursor.scope,
            query,
            cursor.statement,
            reusable,
        ),
        None => Retired::Finalize { released: None },
    }
}

/// Whether a cursor can be stepped: the statement to step, or the refusal. A
/// cursor on a poisoned scope is closed, and has to be retired.
pub fn sql_cursor_ready(state: &Cells, all: &mut SqlCursors, cursor_id: u64) -> (answer: (
    Result<u64, String>,
    Option<SqlCursor>,
))
    requires
        state.wf(),
    ensures
        final(all).caches == old(all).caches,
        if !old(all).cursors@.dom().contains(cursor_id) {
            &&& answer.0 matches Err(error) && error@ == CURSOR_GONE@
            &&& answer.1 is None
            &&& final(all).cursors@ == old(all).cursors@
        } else {
            let cursor = old(all).cursors@[cursor_id];
            match cells::critical_text(*state, cursor.scope@) {
                Some(text) => {
                    &&& answer.0 matches Err(error) && error@ == text
                    &&& answer.1 == Some(cursor)
                    &&& final(all).cursors@ == old(all).cursors@.remove(cursor_id)
                },
                None => {
                    &&& answer.0 == Ok::<u64, String>(cursor.statement)
                    &&& answer.1 is None
                    &&& final(all).cursors@ == old(all).cursors@
                },
            }
        },
{
    let poisoned = match all.cursors.get(&cursor_id) {
        None => {
            return (Err(CURSOR_GONE.to_owned()), None);
        },
        Some(cursor) => match cells::sql_critical_error(state, &cursor.scope) {
            None => {
                return (Ok(cursor.statement), None);
            },
            Some(error) => error,
        },
    };
    let closed = sql_cursor_close(all, cursor_id);
    (Err(poisoned), closed)
}

/// What stepping an open cursor came to.
pub enum CursorNext {
    /// A row; the cursor stays open. A row carries no write count, because the
    /// count is final only once SQLite reports completion.
    Row,
    /// The last row is past; the statement wrote this many rows.
    Done { rows_written: u64 },
    /// Stop; an idle statement that the cache entry held has to be finalized too.
    Fail { failure: CursorFailure, released: Option<u64> },
}

/// An open cursor was stepped once. Everything but a readable row closes the
/// cursor, which then has to be retired; a failed step also drops the
/// statement's cache entry.
pub fn sql_cursor_next(
    all: &mut SqlCursors,
    cursor_id: u64,
    code: i32,
    text_ok: bool,
    changes_now: u64,
) -> (answer: (CursorNext, Option<SqlCursor>))
    requires
        old(all).wf(),
        old(all).cursors@.dom().contains(cursor_id),
    ensures
        final(all).wf(),
        ({
            let cursor = old(all).cursors@[cursor_id];
            if code == SQLITE_ROW && text_ok {
                answer.0 is Row && answer.1 is None && *final(all) == *old(all)
            } else {
                &&& final(all).cursors@ == old(all).cursors@.remove(cursor_id)
                &&& answer.1 is Some
                &&& if code == SQLITE_ROW || code == SQLITE_DONE {
                    &&& final(all).caches == old(all).caches
                    &&& answer.1 == Some(cursor)
                    &&& answer.0 == (if code == SQLITE_DONE {
                        CursorNext::Done {
                            rows_written: if changes_now < cursor.changes_before {
                                0
                            } else {
                                (changes_now - cursor.changes_before) as u64
                            },
                        }
                    } else {
                        CursorNext::Fail {
                            failure: CursorFailure::Refused { message: INVALID_UTF8_TEXT },
                            released: None,
                        }
                    })
                } else {
                    &&& answer.0 == (CursorNext::Fail {
                        failure: CursorFailure::Sqlite { operation: "step SQL cursor", code },
                        released: match cursor.cache_query {
                            Some(query) => held(cached(old(all).caches, cursor.scope@), query@),
                            None => None,
                        },
                    })
                    &&& answer.1 == Some(SqlCursor { cache_query: None, ..cursor })
                    &&& only_scope(old(all).caches, final(all).caches, cursor.scope@)
                    &&& cached(final(all).caches, cursor.scope@) == (match cursor.cache_query {
                        Some(query) => cached(old(all).caches, cursor.scope@).remove(query@),
                        None => cached(old(all).caches, cursor.scope@),
                    })
                    &&& cache_time(final(all).caches, cursor.scope@) == (match cursor.cache_query {
                        Some(query) => time_without(old(all).caches, cursor.scope@, query@),
                        None => cache_time(old(all).caches, cursor.scope@),
                    })
                }
            }
        }),
{
    if code == SQLITE_ROW && text_ok {
        return (CursorNext::Row, None);
    }
    let closed = sql_cursor_close(all, cursor_id);
    if code == SQLITE_ROW {
        return (
            CursorNext::Fail {
                failure: CursorFailure::Refused { message: INVALID_UTF8_TEXT },
                released: None,
            },
            closed,
        );
    }
    match closed {
        None => (CursorNext::Row, None),
        Some(cursor) => {
            if code == SQLITE_DONE {
                let rows_written: u64 = changes_now.saturating_sub(cursor.changes_before);
                return (CursorNext::Done { rows_written }, Some(cursor));
            }
            let released = match &cursor.cache_query {
                Some(query) => discard_cached_sql_statement(
                    &mut all.caches,
                    &cursor.scope,
                    query,
                ),
                None => None,
            };
            let SqlCursor { scope, statement, changes_before, cache_query: _ } = cursor;
            (
                CursorNext::Fail {
                    failure: CursorFailure::Sqlite { operation: "step SQL cursor", code },
                    released,
                },
                Some(SqlCursor { scope, statement, changes_before, cache_query: None }),
            )
        },
    }
}

/// Whether a cursor is open on a scope.
pub open spec fn cursor_of(cursors: Map<u64, SqlCursor>, id: u64, scope: Seq<char>) -> bool {
    cursors.dom().contains(id) && cursors[id].scope@ == scope
}

/// The ids under which a scope's cursors stand, each once.
fn cursors_of(cursors: &HashMap<u64, SqlCursor>, scope: &str) -> (ours: Vec<u64>)
    ensures
        ours@.no_duplicates(),
        forall|id: u64| #[trigger] ours@.contains(id) <==> cursor_of(cursors@, id, scope@),
{
    let all = ids::ids_of(cursors);
    let mut ours: Vec<u64> = Vec::new();
    let mut i: usize = 0;
    while i < all.len()
        invariant
            i <= all@.len(),
            all@.no_duplicates(),
            forall|id: u64| #[trigger] all@.contains(id) <==> cursors@.dom().contains(id),
            ours@.no_duplicates(),
            forall|id: u64| #[trigger]
                ours@.contains(id) <==> all@.take(i as int).contains(id) && cursor_of(
                    cursors@,
                    id,
                    scope@,
                ),
        decreases all@.len() - i,
    {
        let ghost before = ours@;
        let id: u64 = all[i];
        proof {
            ids::lemma_step(all@, i as int);
        }
        let mine = match cursors.get(&id) {
            Some(cursor) => text::same_text(cursor.scope.as_str(), scope),
            None => false,
        };
        if mine {
            proof {
                assert(!before.contains(id));
                ids::lemma_push_distinct(before, id);
            }
            ours.push(id);
        }
        proof {
            assert forall|other: u64| #[trigger]
                ours@.contains(other) <==> all@.take(i + 1).contains(other) && cursor_of(
                    cursors@,
                    other,
                    scope@,
                ) by {
                ids::lemma_push_contains(before, id, other);
                ids::lemma_push_contains(all@.take(i as int), id, other);
                assert(before.contains(other) <==> all@.take(i as int).contains(other)
                    && cursor_of(cursors@, other, scope@));
            }
        }
        i = i + 1;
    }
    assert(all@.take(i as int) =~= all@);
    assert forall|id: u64| #[trigger] ours@.contains(id) <==> cursor_of(cursors@, id, scope@) by {
        assert(all@.contains(id) <==> cursors@.dom().contains(id));
    }
    ours
}

/// Whether closed cursors are those of a scope, each once.
pub open spec fn are_cursors_of(
    closed: Seq<(u64, SqlCursor)>,
    cursors: Map<u64, SqlCursor>,
    scope: Seq<char>,
) -> bool {
    &&& forall|i: int|
        0 <= i < closed.len() ==> cursor_of(cursors, (#[trigger] closed[i]).0, scope)
            && closed[i].1 == cursors[closed[i].0]
    &&& forall|i: int, j: int|
        0 <= i < j < closed.len() ==> (#[trigger] closed[i]).0 != (#[trigger] closed[j]).0
    &&& forall|id: u64| #[trigger]
        cursor_of(cursors, id, scope) ==> exists|i: int|
            0 <= i < closed.len() && (#[trigger] closed[i]).0 == id
}

/// A scope's cursors close when its connection does; each is to be retired.
pub fn close_sql_cursors(all: &mut SqlCursors, scope: &str) -> (closed: Vec<(u64, SqlCursor)>)
    ensures
        final(all).caches == old(all).caches,
        forall|id: u64| #[trigger]
            final(all).cursors@.dom().contains(id) <==> old(all).cursors@.dom().contains(id)
                && !cursor_of(old(all).cursors@, id, scope@),
        forall|id: u64| #[trigger]
            final(all).cursors@.dom().contains(id) ==> final(all).cursors@[id] == old(
                all,
            ).cursors@[id],
        are_cursors_of(closed@, old(all).cursors@, scope@),
{
    let ours = cursors_of(&all.cursors, scope);
    let ghost before = all.cursors@;
    let mut closed: Vec<(u64, SqlCursor)> = Vec::new();
    let mut i: usize = 0;
    assert(before.remove_keys(ours@.take(0).to_set()) =~= before);
    while i < ours.len()
        invariant
            i <= ours@.len(),
            ours@.no_duplicates(),
            forall|id: u64| #[trigger] ours@.contains(id) <==> cursor_of(before, id, scope@),
            all.caches == old(all).caches,
            all.cursors@ == before.remove_keys(ours@.take(i as int).to_set()),
            closed@.len() == i,
            forall|k: int|
                0 <= k < i ==> (#[trigger] closed@[k]).0 == ours@[k] && closed@[k].1
                    == before[ours@[k]],
        decreases ours@.len() - i,
    {
        let id: u64 = ours[i];
        proof {
            ids::lemma_step(ours@, i as int);
            assert(all.cursors@.dom().contains(id));
            assert forall|other: u64|
                ours@.take(i + 1).to_set().contains(other) <==> (ours@.take(
                    i as int,
                ).to_set().contains(other) || other == id) by {
                ids::lemma_push_contains(ours@.take(i as int), id, other);
            }
        }
        match all.cursors.remove(&id) {
            Some(cursor) => {
                closed.push((id, cursor));
            },
            None => {},
        }
        assert(all.cursors@ =~= before.remove_keys(ours@.take(i + 1).to_set()));
        i = i + 1;
    }
    proof {
        assert(ours@.take(i as int) =~= ours@);
        assert forall|id: u64| #[trigger] cursor_of(before, id, scope@) implies exists|m: int|
            0 <= m < closed@.len() && (#[trigger] closed@[m]).0 == id by {
            assert(ours@.contains(id));
            let k = choose|k: int| 0 <= k < ours@.len() && ours@[k] == id;
            assert(closed@[k].0 == id);
        }
        assert forall|k: int| 0 <= k < closed@.len() implies cursor_of(
            before,
            (#[trigger] closed@[k]).0,
            scope@,
        ) && closed@[k].1 == before[closed@[k].0] by {
            assert(ours@.contains(ours@[k]));
        }
        assert forall|id: u64| #[trigger]
            all.cursors@.dom().contains(id) <==> before.dom().contains(id) && !cursor_of(
                before,
                id,
                scope@,
            ) by {
            assert(ours@.contains(id) <==> cursor_of(before, id, scope@));
        }
    }
    closed
}

/// A scope's statement cache closes with its connection: its idle statements are to
/// be finalized.
pub fn close_sql_statement_cache(all: &mut SqlCursors, scope: &str) -> (released: Vec<
    (String, u64),
>)
    requires
        old(all).wf(),
    ensures
        final(all).wf(),
        final(all).caches@ == old(all).caches@.remove(scope@),
        final(all).cursors == old(all).cursors,
        statement_cache::releases(cached(old(all).caches, scope@), Map::empty(), released@),
{
    match all.caches.remove(scope) {
        Some(cache) => cache.close(),
        None => Vec::new(),
    }
}

/// A statement that a failed start gives up is in no cursor, and its query is
/// not cached any more: the next start of the same text prepares it afresh.
pub proof fn law_failed_start_leaves_no_statement(
    before: TextMap<SqlStatementCache>,
    after: TextMap<SqlStatementCache>,
    start: CursorStart,
)
    requires
        start.in_cache,
        cached(after, start.scope@) == cached(before, start.scope@).remove(start.query@),
    ensures
        !cached(after, start.scope@).dom().contains(start.query@),
        without_statement(start).statement is None,
{
}

/// A start that took a statement from the cache leaves the entry without one,
/// so a second start of the same text meanwhile finds it busy.
pub proof fn law_taken_statement_is_busy(slot: statement_cache::Slot, now: u64)
    ensures
        statement_cache::taken(slot, now).statement is None,
        statement_cache::taken(slot, now).size == slot.size,
        statement_cache::taken(slot, now).last_used == now,
{
}

/// SQL text goes on where one of its bytes is no white space, wherever it stands.
pub proof fn law_text_goes_on(a: Seq<u8>, b: Seq<u8>, byte: u8)
    ensures
        !goes_on(Seq::<u8>::empty()),
        goes_on(a + b) <==> goes_on(a) || goes_on(b),
        goes_on(seq![byte]) <==> !(byte == 32 || byte == 9 || byte == 10 || byte == 12 || byte
            == 13),
{
    assert(seq![byte][0] == byte);
    if goes_on(a) {
        let i = choose|i: int| 0 <= i < a.len() && !ascii_space(#[trigger] a[i]);
        assert((a + b)[i] == a[i]);
    }
    if goes_on(b) {
        let i = choose|i: int| 0 <= i < b.len() && !ascii_space(#[trigger] b[i]);
        assert((a + b)[a.len() + i] == b[i]);
    }
    if goes_on(a + b) {
        let i = choose|i: int| 0 <= i < (a + b).len() && !ascii_space(#[trigger] (a + b)[i]);
        if i < a.len() {
            assert(!ascii_space(a[i]));
        } else {
            assert(!ascii_space(b[i - a.len()]));
        }
    }
    if goes_on(seq![byte]) {
        let i = choose|i: int| 0 <= i < seq![byte].len() && !ascii_space(#[trigger] seq![byte][i]);
        assert(i == 0);
    }
}

/// What is said of a failure: the operation and SQLite's words, or the library's own.
pub proof fn law_failure_texts(
    operation: &'static str,
    code: i32,
    message: &'static str,
    detail: Seq<char>,
)
    ensures
        failure_text(CursorFailure::Sqlite { operation, code }, detail) == operation@ + ": "@
            + detail,
        failure_text(CursorFailure::Unbound, detail) == "bind sync KV cursor: "@ + detail,
        failure_text(CursorFailure::Refused { message }, detail) == message@,
{
}

/// When SQL text is admitted: its cell is healthy and open, and it holds no NUL. Otherwise the
/// refusal says which of these fails, health first, and the connection last.
pub proof fn law_sql_is_admitted(state: Cells, scope: Seq<char>, query: Seq<char>)
    ensures
        ({
            let poisoned = state.sql_critical_errors@.dom().contains(scope);
            let open = state.open_cells@.dom().contains(scope);
            let refusal = sql_refusal(state, scope, query);
            &&& refusal is None <==> !poisoned && open && !query.contains('\0')
            &&& poisoned ==> refusal == Some(state.sql_critical_errors@[scope]@)
            &&& !poisoned && query.contains('\0') ==> refusal == sql_source::nul_refusal(query)
            &&& !poisoned && !query.contains('\0') && !open ==> refusal == Some(
                "no db for "@ + scope,
            )
        }),
{
    query.index_of_first_ensures('\0');
}

/// What a query's entry holds: its idle statement, and nothing where the query has no entry or
/// its statement is in use.
pub proof fn law_entry_holds(
    slots: Map<Seq<char>, statement_cache::Slot>,
    query: Seq<char>,
    statement: u64,
)
    ensures
        held(slots, query) == Some(statement) <==> slots.dom().contains(query)
            && slots[query].statement == Some(statement),
{
}

/// The cursors that a scope's end closes are all of its own, each once, and no other's.
pub proof fn law_closed_cursors_are_the_scopes(
    closed: Seq<(u64, SqlCursor)>,
    cursors: Map<u64, SqlCursor>,
    scope: Seq<char>,
    id: u64,
)
    requires
        are_cursors_of(closed, cursors, scope),
    ensures
        (exists|i: int| 0 <= i < closed.len() && (#[trigger] closed[i]).0 == id)
            <==> cursors.dom().contains(id) && cursors[id].scope@ == scope,
        forall|i: int|
            0 <= i < closed.len() && (#[trigger] closed[i]).0 == id ==> closed[i].1 == cursors[id],
{
    if exists|i: int| 0 <= i < closed.len() && (#[trigger] closed[i]).0 == id {
        let i = choose|i: int| 0 <= i < closed.len() && (#[trigger] closed[i]).0 == id;
        assert(cursor_of(cursors, closed[i].0, scope));
    }
    if cursors.dom().contains(id) && cursors[id].scope@ == scope {
        assert(cursor_of(cursors, id, scope));
    }
}

/// A cursor takes over what its start held: the scope, the statement, the count of changes
/// before it, and the cache entry where the statement has one.
pub proof fn law_cursor_takes_over(cursor: SqlCursor, start: CursorStart, statement: u64)
    requires
        owned_cursor(cursor, start, statement),
    ensures
        cursor.scope@ == start.scope@ && cursor.statement == statement && cursor.changes_before
            == start.changes_before,
        cursor.cache_query is Some <==> start.in_cache,
        cursor.cache_query matches Some(query) ==> query@ == start.query@,
        without_statement(start).statement is None && !without_statement(start).in_cache,
        without_statement(start).scope == start.scope && without_statement(start).query
            == start.query && without_statement(start).binds == start.binds && without_statement(
            start,
        ).saw_prefix == start.saw_prefix && without_statement(start).cache_busy == start.cache_busy
            && without_statement(start).changes_before == start.changes_before,
{
}

/// An operation on one scope's cache leaves every other scope's as it is: what it holds, and its
/// clock. A scope without a cache holds nothing.
pub proof fn law_caches_are_apart(
    before: TextMap<SqlStatementCache>,
    after: TextMap<SqlStatementCache>,
    scope: Seq<char>,
    other: Seq<char>,
    query: Seq<char>,
)
    requires
        only_scope(before, after, scope),
        other != scope,
    ensures
        cached(after, other).dom().contains(query) <==> cached(before, other).dom().contains(query),
        cached(after, other).dom().contains(query) ==> cached(after, other)[query] == cached(
            before,
            other,
        )[query],
        cache_time(after, other) == cache_time(before, other),
        before@.dom().contains(scope) ==> cached(before, scope) == before@[scope]@ && cache_time(
            before,
            scope,
        ) == before@[scope].time(),
        !before@.dom().contains(scope) ==> cached(before, scope).dom().len() == 0 && cache_time(
            before,
            scope,
        ) == 0,
{
}

/// A lookup moves the clock of the scope's cache on by one where it has a cache; dropping a query
/// leaves the clock, unless it was the last one.
pub proof fn law_cache_clocks(
    caches: TextMap<SqlStatementCache>,
    scope: Seq<char>,
    query: Seq<char>,
    other: Seq<char>,
)
    requires
        other != query,
    ensures
        caches@.dom().contains(scope) && cache_time(caches, scope) < u64::MAX ==> looked_up(
            caches,
            scope,
        ) == cache_time(caches, scope) + 1,
        !caches@.dom().contains(scope) ==> looked_up(caches, scope) == 0 && time_without(
            caches,
            scope,
            query,
        ) == 0,
        cached(caches, scope).dom().contains(other) ==> time_without(caches, scope, query)
            == cache_time(caches, scope),
        (forall|q: Seq<char>| #[trigger] cached(caches, scope).dom().contains(q) ==> q == query)
            ==> time_without(caches, scope, query) == 0,
{
}

} // verus!
