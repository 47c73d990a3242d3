//! Synchronous key-value listings: a cursor that hands one entry out at a time.
//!
//! A scope has one such cursor at most: starting another closes it. SQLite runs
//! outside; the functions here say which statement to step and which to finalize.

use std::collections::HashMap;

use vstd::prelude::*;

use crate::storage::ids;
use crate::storage::kv;
use crate::storage::kv::ListQuery;
use crate::storage::values;
use crate::storage::values::Column;
use crate::storage::values::StoredValue;
use crate::text;

verus! {

broadcast use vstd::std_specs::hash::group_hash_axioms;

/// An open listing. It owns its statement until it is closed.
pub struct SyncListCursor {
    pub scope: String,
    pub statement: u64,
}

/// The open listings of an isolate's cells. The ids are drawn for the whole process, so
/// an id names no listing of another isolate.
pub struct SyncListCursors {
    pub cursors: HashMap<u64, SyncListCursor>,
}

/// The refusal of a listing that is not open any more.
pub const LISTING_GONE: &'static str = "sync KV cursor was invalidated";

/// How far the start of a listing came in SQLite.
pub enum ListingOpened {
    /// The scope has no connection.
    NoConnection,
    /// The statement could not be prepared: SQLite's message.
    NotPrepared(String),
    /// A value could not be bound: SQLite's message.
    NotBound { statement: u64, message: String },
    /// The statement stands, with every value bound.
    Ready { statement: u64 },
}

/// What a step of a listing's statement gave.
pub enum ListingStep {
    /// A row: its key, its value, and the text of its value where that is a REAL.
    Row { key: Vec<u8>, value: Column, real_text: String },
    Done,
    /// Another result code: SQLite's message.
    Failed(String),
}

/// The listings without those of a scope.
pub open spec fn without_scope(
    cursors: Map<u64, SyncListCursor>,
    scope: Seq<char>,
) -> Map<u64, SyncListCursor> {
    cursors.remove_keys(cursors.dom().filter(|id: u64| cursors[id].scope@ == scope))
}

/// Whether statements are those of a scope's listings, each once.
pub open spec fn statements_of(
    statements: Seq<(u64, u64)>,
    cursors: Map<u64, SyncListCursor>,
    scope: Seq<char>,
) -> bool {
    &&& forall|i: int|
        0 <= i < statements.len() ==> {
            &&& cursors.dom().contains((#[trigger] statements[i]).0)
            &&& cursors[statements[i].0].scope@ == scope
            &&& cursors[statements[i].0].statement == statements[i].1
        }
    &&& forall|i: int, j: int|
        0 <= i < j < statements.len() ==> (#[trigger] statements[i]).0 != (
        #[trigger] statements[j]).0
    &&& forall|id: u64| #[trigger]
        cursors.dom().contains(id) && cursors[id].scope@ == scope ==> exists|i: int|
            0 <= i < statements.len() && (#[trigger] statements[i]).0 == id
}

/// The ids under which a scope's listings stand, each once.
fn listings_of(cursors: &HashMap<u64, SyncListCursor>, scope: &str) -> (ours: Vec<u64>)
    ensures
        ours@.no_duplicates(),
        forall|id: u64| #[trigger]
            ours@.contains(id) <==> cursors@.dom().contains(id) && cursors@[id].scope@ == scope@,
{
    let ids = ids::ids_of(cursors);
    let mut ours: Vec<u64> = Vec::new();
    let mut i: usize = 0;
    while i < ids.len()
        invariant
            i <= ids@.len(),
            ids@.no_duplicates(),
            forall|id: u64| #[trigger] ids@.contains(id) <==> cursors@.dom().contains(id),
            ours@.no_duplicates(),
            forall|id: u64| #[trigger]
                ours@.contains(id) <==> ids@.take(i as int).contains(id) && cursors@[id].scope@
                    == scope@,
        decreases ids@.len() - i,
    {
        let ghost before = ours@;
        let id: u64 = ids[i];
        proof {
            ids::lemma_step(ids@, i as int);
        }
        let mine = match cursors.get(&id) {
            Some(cursor) => text::same_text(cursor.scope.as_str(), scope),
            None => false,
        };
        if mine {
            proof {
                assert(!before.contains(id));
                ids::lemma_push_distinct(before, id);
            }
            ours.push(id);
        }
        proof {
            assert forall|other: u64| #[trigger]
                ours@.contains(other) <==> ids@.take(i + 1).contains(other)
                    && cursors@[other].scope@ == scope@ by {
                ids::lemma_push_contains(before, id, other);
                ids::lemma_push_contains(ids@.take(i as int), id, other);
                assert(before.contains(other) <==> ids@.take(i as int).contains(other)
                    && cursors@[other].scope@ == scope@);
            }
        }
        i = i + 1;
    }
    assert(ids@.take(i as int) =~= ids@);
    ours
}

impl SyncListCursors {
    pub fn new() -> (all: Self)
        ensures
            all.cursors@ == Map::<u64, SyncListCursor>::empty(),
    {
        SyncListCursors { cursors: HashMap::new() }
    }
}

/// A scope's listings close: their ids, with the statements to finalize.
pub fn close_sync_list_cursors(all: &mut SyncListCursors, scope: &str) -> (statements: Vec<
    (u64, u64),
>)
    ensures
        final(all).cursors@ == without_scope(old(all).cursors@, scope@),
        statements_of(statements@, old(all).cursors@, scope@),
{
    let ids = listings_of(&all.cursors, scope);
    let ghost before = all.cursors@;
    let mut statements: Vec<(u64, u64)> = Vec::new();
    let mut i: usize = 0;
    assert(before.remove_keys(ids@.take(0).to_set()) =~= before);
    while i < ids.len()
        invariant
            i <= ids@.len(),
            ids@.no_duplicates(),
            forall|id: u64| #[trigger]
                ids@.contains(id) ==> before.dom().contains(id) && before[id].scope@ == scope@,
            all.cursors@ == before.remove_keys(ids@.take(i as int).to_set()),
            statements@.len() == i,
            forall|k: int|
                0 <= k < i ==> (#[trigger] statements@[k]).0 == ids@[k] && statements@[k].1
                    == before[ids@[k]].statement,
        decreases ids@.len() - i,
    {
        let id: u64 = ids[i];
        proof {
            ids::lemma_step(ids@, i as int);
            assert(all.cursors@.dom().contains(id));
            assert forall|other: u64|
                ids@.take(i + 1).to_set().contains(other) <==> (ids@.take(
                    i as int,
                ).to_set().contains(other) || other == id) by {
                ids::lemma_push_contains(ids@.take(i as int), id, other);
            }
        }
        match all.cursors.remove(&id) {
            Some(cursor) => {
                statements.push((id, cursor.statement));
            },
            None => {},
        }
        assert(all.cursors@ =~= before.remove_keys(ids@.take(i + 1).to_set()));
        i = i + 1;
    }
    proof {
        assert(ids@.take(i as int) =~= ids@);
        assert forall|id: u64| #[trigger]
            before.dom().contains(id) && before[id].scope@ == scope@ implies exists|m: int|
            0 <= m < statements@.len() && (#[trigger] statements@[m]).0 == id by {
            assert(ids@.contains(id));
            let k = choose|k: int| 0 <= k < ids@.len() && ids@[k] == id;
            assert(statements@[k].0 == id);
        }
        assert forall|k: int| 0 <= k < statements@.len() implies {
            &&& before.dom().contains((#[trigger] statements@[k]).0)
            &&& before[statements@[k].0].scope@ == scope@
            &&& before[statements@[k].0].statement == statements@[k].1
        } by {
            assert(ids@.contains(ids@[k]));
        }
        assert(all.cursors@ =~= without_scope(before, scope@));
    }
    statements
}

/// A listing starts: the scope's other listings close, and their statements are to
/// be finalized.
pub fn sync_list_start(
    all: &mut SyncListCursors,
    scope: &str,
    begin: Option<&str>,
    end: Option<&str>,
    start_after: Option<&str>,
    prefix: Option<&str>,
    limit: Option<usize>,
    reverse: bool,
) -> (answer: (Vec<(u64, u64)>, ListQuery))
    ensures
        final(all).cursors@ == without_scope(old(all).cursors@, scope@),
        statements_of(answer.0@, old(all).cursors@, scope@),
        forall|key: Seq<char>| #[trigger]
            kv::meets_all(key, answer.1.bounds@) == kv::selects(
                key,
                begin,
                end,
                start_after,
                prefix,
            ),
        answer.1.reverse == reverse,
        answer.1.limit == kv::list_limit(limit),
{
    let statements = close_sync_list_cursors(all, scope);
    (statements, kv::list_query(begin, end, start_after, prefix, limit, reverse))
}

/// A listing's statement was prepared, or could not be. A prepared one is the cursor
/// `id`, which no other listing of the process has. A statement that was prepared and
/// not bound is to be finalized.
pub fn sync_list_opened(
    all: &mut SyncListCursors,
    id: u64,
    scope: &str,
    opened: ListingOpened,
) -> (answer: Result<u64, (String, Option<u64>)>)
    ensures
        match opened {
            ListingOpened::Ready { statement } => {
                &&& answer == Ok::<u64, (String, Option<u64>)>(id)
                &&& final(all).cursors@.dom() == old(all).cursors@.dom().insert(id)
                &&& final(all).cursors@[id].scope@ == scope@
                &&& final(all).cursors@[id].statement == statement
                &&& forall|other: u64|
                    other != id && #[trigger] old(
                        all,
                    ).cursors@.dom().contains(other) ==> final(all).cursors@[other] == old(
                        all,
                    ).cursors@[other]
            },
            _ => {
                &&& *final(all) == *old(all)
                &&& answer matches Err((error, finalized)) && match opened {
                    ListingOpened::NoConnection => error@ == "no db for "@ + scope@ && finalized
                        is None,
                    ListingOpened::NotPrepared(message) => error@ == "prepare sync KV cursor: "@
                        + message@ && finalized is None,
                    ListingOpened::NotBound { statement, message } => error@
                        == "bind sync KV cursor: "@ + message@ && finalized == Some(statement),
                    ListingOpened::Ready { .. } => false,
                }
            },
        },
{
    match opened {
        ListingOpened::NoConnection => Err((text::concat("no db for ", scope), None)),
        ListingOpened::NotPrepared(message) => Err(
            (text::concat("prepare sync KV cursor: ", message.as_str()), None),
        ),
        ListingOpened::NotBound { statement, message } => Err(
            (text::concat("bind sync KV cursor: ", message.as_str()), Some(statement)),
        ),
        ListingOpened::Ready { statement } => {
            let _ = all.cursors.insert(
                id,
                SyncListCursor { scope: scope.to_string(), statement },
            );
            assert(all.cursors@.dom() =~= old(all).cursors@.dom().insert(id));
            Ok(id)
        },
    }
}

/// The statement of a listing, to step.
pub fn sync_list_statement(all: &SyncListCursors, cursor_id: u64) -> (statement: Result<
    u64,
    &'static str,
>)
    ensures
        match statement {
            Ok(statement) => all.cursors@.dom().contains(cursor_id)
                && all.cursors@[cursor_id].statement == statement,
            Err(error) => !all.cursors@.dom().contains(cursor_id) && error@ == LISTING_GONE@,
        },
{
    match all.cursors.get(&cursor_id) {
        Some(cursor) => Ok(cursor.statement),
        None => Err(LISTING_GONE),
    }
}

/// A listing's statement was stepped: the entry, or nothing at the end, or the
/// failure. At the end and after a failure the listing is closed, and its statement
/// is to be finalized.
pub fn sync_list_next(all: &mut SyncListCursors, cursor_id: u64, step: ListingStep) -> (answer: (
    Result<Option<(String, StoredValue)>, String>,
    Option<u64>,
))
    ensures
        !old(all).cursors@.dom().contains(cursor_id) ==> {
            &&& final(all).cursors@ == old(all).cursors@
            &&& answer.0 matches Err(error) && error@ == LISTING_GONE@
            &&& answer.1 is None
        },
        old(all).cursors@.dom().contains(cursor_id) ==> match step {
            ListingStep::Row { key, value, real_text } => {
                &&& final(all).cursors@ == old(all).cursors@
                &&& answer.1 is None
                &&& answer.0 matches Ok(Some(entry)) && entry.0@ == values::lossy_text(key@)
                    && values::is_stored(value, real_text@, entry.1)
            },
            ListingStep::Done => {
                &&& final(all).cursors@ == old(all).cursors@.remove(cursor_id)
                &&& answer.1 == Some(old(all).cursors@[cursor_id].statement)
                &&& answer.0 matches Ok(None)
            },
            ListingStep::Failed(message) => {
                &&& final(all).cursors@ == old(all).cursors@.remove(cursor_id)
                &&& answer.1 == Some(old(all).cursors@[cursor_id].statement)
                &&& answer.0 matches Err(error) && error@ == "step sync KV cursor: "@ + message@
            },
        },
{
    if !all.cursors.contains_key(&cursor_id) {
        return (Err(LISTING_GONE.to_string()), None);
    }
    match step {
        ListingStep::Row { key, value, real_text } => {
            let key = values::text_lossy(key.as_slice());
            (Ok(Some((key, values::stored_value(value, real_text.as_str())))), None)
        },
        ListingStep::Done => {
            let statement: Option<u64> = match all.cursors.remove(&cursor_id) {
                Some(cursor) => Some(cursor.statement),
                None => None,
            };
            assert(all.cursors@ =~= old(all).cursors@.remove(cursor_id));
            (Ok(None), statement)
        },
        ListingStep::Failed(message) => {
            let statement: Option<u64> = match all.cursors.remove(&cursor_id) {
                Some(cursor) => Some(cursor.statement),
                None => None,
            };
            assert(all.cursors@ =~= old(all).cursors@.remove(cursor_id));
            (Err(text::concat("step sync KV cursor: ", message.as_str())), statement)
        },
    }
}

/// A scope never has two listings: once another has started, none of those before
/// is open.
pub proof fn law_a_start_closes_the_scopes_listings(
    cursors: Map<u64, SyncListCursor>,
    scope: Seq<char>,
    id: u64,
)
    ensures
        without_scope(cursors, scope).dom().contains(id) <==> cursors.dom().contains(id)
            && cursors[id].scope@ != scope,
        without_scope(cursors, scope).dom().contains(id) ==> without_scope(cursors, scope)[id]
            == cursors[id],
{
}

/// The statements of a scope's listings are handed over each once, and no other's.
pub proof fn law_statements_are_the_scopes(
    statements: Seq<(u64, u64)>,
    cursors: Map<u64, SyncListCursor>,
    scope: Seq<char>,
    id: u64,
)
    requires
        statements_of(statements, cursors, scope),
    ensures
        (exists|i: int| 0 <= i < statements.len() && (#[trigger] statements[i]).0 == id)
            <==> cursors.dom().contains(id) && cursors[id].scope@ == scope,
        forall|i: int|
            0 <= i < statements.len() && (#[trigger] statements[i]).0 == id ==> statements[i].1
                == cursors[id].statement,
        forall|i: int, j: int|
            0 <= i < j < statements.len() ==> (#[trigger] statements[i]).0 != (
            #[trigger] statements[j]).0,
{
}

} // verus!
