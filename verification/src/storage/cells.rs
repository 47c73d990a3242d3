//! The state that the storage of one isolate's cells keeps between calls.

use vstd::prelude::*;

use crate::text;
use crate::text_map::TextMap;

verus! {

/// An alarm handler that is running.
#[derive(Clone, Copy)]
pub struct ActiveAlarm {
    pub fired_at_ms: i64,
    /// The generation of the alarm row that it was fired for.
    pub generation: Option<i64>,
}

/// A committed alarm: when it is due, and at which write position a replicated
/// wake record holds it.
#[derive(Clone, Copy)]
pub struct AlarmSnapshot {
    pub at_ms: Option<i64>,
    pub wake_position: Option<u64>,
}

/// A schema cookie, and the two counters that it was read against. The cookie
/// cannot move while both stand still.
#[derive(Clone, Copy)]
pub struct SchemaCookie {
    pub cookie: u64,
    pub changes: u64,
    pub prepares: u64,
}

/// Where a cell's database lives.
pub enum StorageBacking {
    /// A file of its own.
    File { path: String, root_scope: String, facet_path: Vec<String> },
    /// An image inside the root cell's database. The root cell's gate sample
    /// travels with it, because its own isolate cannot take one.
    Embedded {
        root_path: String,
        root_scope: String,
        facet_path: Vec<String>,
        root_position: u64,
        root_observed: Option<u64>,
    },
}

/// An open database and the ownership epoch that authorized its activation.
pub struct OpenCell {
    pub epoch: u64,
    pub replicated_wake: bool,
    pub backing: StorageBacking,
    /// The write position that the root database holds of an embedded cell.
    pub persisted_position: u64,
    /// The write position at which the first event of this activation started.
    pub published_position: Option<u64>,
}

/// What the storage keeps for the cells of one isolate, each map by scope.
pub struct Cells {
    pub open_cells: TextMap<OpenCell>,
    pub active_alarms: TextMap<ActiveAlarm>,
    /// Committed alarm mutations that no turn has taken yet.
    pub alarm_moves: TextMap<AlarmSnapshot>,
    /// Scopes whose alarm moved inside a transaction that is still open.
    pub alarm_dirty: TextMap<()>,
    /// The first critical SQL error of each poisoned scope.
    pub sql_critical_errors: TextMap<String>,
    pub schema_cookies: TextMap<SchemaCookie>,
}

impl Cells {
    pub open spec fn wf(&self) -> bool {
        &&& self.open_cells.wf()
        &&& self.active_alarms.wf()
        &&& self.alarm_moves.wf()
        &&& self.alarm_dirty.wf()
        &&& self.sql_critical_errors.wf()
        &&& self.schema_cookies.wf()
    }

    /// No cell has any state yet.
    pub fn new() -> (cells: Self)
        ensures
            cells.wf(),
            cells.open_cells@ == Map::<Seq<char>, OpenCell>::empty(),
            cells.active_alarms@ == Map::<Seq<char>, ActiveAlarm>::empty(),
            cells.alarm_moves@ == Map::<Seq<char>, AlarmSnapshot>::empty(),
            cells.alarm_dirty@ == Map::<Seq<char>, ()>::empty(),
            cells.sql_critical_errors@ == Map::<Seq<char>, String>::empty(),
            cells.schema_cookies@ == Map::<Seq<char>, SchemaCookie>::empty(),
    {
        Cells {
            open_cells: TextMap::new(),
            active_alarms: TextMap::new(),
            alarm_moves: TextMap::new(),
            alarm_dirty: TextMap::new(),
            sql_critical_errors: TextMap::new(),
            schema_cookies: TextMap::new(),
        }
    }
}

/// The text of a scope's first critical error.
pub open spec fn critical_text(cells: Cells, scope: Seq<char>) -> Option<Seq<char>> {
    if cells.sql_critical_errors@.dom().contains(scope) {
        Some(cells.sql_critical_errors@[scope]@)
    } else {
        None
    }
}

/// The first critical SQL error of a scope. A scope that has one is poisoned:
/// it runs no more SQL.
pub fn sql_critical_error(cells: &Cells, scope: &str) -> (error: Option<String>)
    requires
        cells.wf(),
    ensures
        match error {
            Some(error) => critical_text(*cells, scope@) == Some(error@),
            None => critical_text(*cells, scope@) is None,
        },
{
    match cells.sql_critical_errors.get(scope) {
        Some(error) => Some(error.clone()),
        None => None,
    }
}

/// Refuse SQL on a poisoned scope, with the error that poisoned it.
pub fn require_sql_healthy(cells: &Cells, scope: &str) -> (result: Result<(), String>)
    requires
        cells.wf(),
    ensures
        match result {
            Ok(()) => critical_text(*cells, scope@) is None,
            Err(error) => critical_text(*cells, scope@) == Some(error@),
        },
{
    match sql_critical_error(cells, scope) {
        Some(error) => Err(error),
        None => Ok(()),
    }
}

/// Whether `after` is `before` with `scope` poisoned by `error`: the first
/// error stays, and nothing else moves.
pub open spec fn poisoned_by(
    before: Cells,
    after: Cells,
    scope: Seq<char>,
    error: Seq<char>,
) -> bool {
    &&& after == (Cells { sql_critical_errors: after.sql_critical_errors, ..before })
    &&& critical_text(after, scope) == Some(
        match critical_text(before, scope) {
            Some(first) => first,
            None => error,
        },
    )
    &&& forall|other: Seq<char>|
        other != scope ==> #[trigger] critical_text(after, other) == critical_text(before, other)
}

/// Poison a scope. The first error is kept.
pub fn poison_scope(cells: &mut Cells, scope: &str, error: &str)
    requires
        old(cells).wf(),
    ensures
        final(cells).wf(),
        poisoned_by(*old(cells), *final(cells), scope@, error@),
{
    if !cells.sql_critical_errors.contains_key(scope) {
        let _ = cells.sql_critical_errors.insert(scope, error.to_owned());
    }
}

/// Record a failed SQLite operation: a failure that is classified as one that
/// poisons its cell does so with its message, and any other leaves no trace.
pub fn record_sqlite_operation_failure(cells: &mut Cells, scope: &str, poisons: bool, error: &str)
    requires
        old(cells).wf(),
    ensures
        final(cells).wf(),
        if poisons {
            poisoned_by(*old(cells), *final(cells), scope@, error@)
        } else {
            *final(cells) == *old(cells)
        },
{
    if poisons {
        poison_scope(cells, scope, error);
    }
}

/// A SQLite operation failed: what is said of it, given SQLite's message for the
/// connection, with the failure recorded.
pub fn sqlite_operation_failure(
    cells: &mut Cells,
    scope: &str,
    operation: &str,
    detail: &str,
    poisons: bool,
) -> (error: String)
    requires
        old(cells).wf(),
    ensures
        final(cells).wf(),
        error@ == operation@ + ": "@ + detail@,
        if poisons {
            poisoned_by(*old(cells), *final(cells), scope@, error@)
        } else {
            *final(cells) == *old(cells)
        },
{
    let error = text::concat3(operation, ": ", detail);
    record_sqlite_operation_failure(cells, scope, poisons, error.as_str());
    error
}

/// A poisoned scope stays poisoned by its first error, whatever fails later.
pub proof fn law_first_critical_error_stays(
    before: Cells,
    after: Cells,
    scope: Seq<char>,
    failed: Seq<char>,
    error: Seq<char>,
    first: Seq<char>,
)
    requires
        critical_text(before, scope) == Some(first),
        poisoned_by(before, after, failed, error),
    ensures
        critical_text(after, scope) == Some(first),
{
}

/// What poisons a cell: the error is kept where none was, it concerns no other cell, and
/// nothing else changes.
pub proof fn law_poison_stays_in_its_cell(
    before: Cells,
    after: Cells,
    scope: Seq<char>,
    other: Seq<char>,
    error: Seq<char>,
)
    requires
        poisoned_by(before, after, scope, error),
        other != scope,
    ensures
        critical_text(before, scope) is None ==> critical_text(after, scope) == Some(error),
        critical_text(after, scope) is Some,
        critical_text(after, other) == critical_text(before, other),
        after.open_cells == before.open_cells && after.active_alarms == before.active_alarms,
        after.alarm_moves == before.alarm_moves && after.alarm_dirty == before.alarm_dirty,
        forall|s: Seq<char>|
            #![trigger critical_text(after, s)]
            critical_text(after, s) is Some <==> after.sql_critical_errors@.dom().contains(s),
        forall|s: Seq<char>|
            #![trigger after.sql_critical_errors@[s]]
            after.sql_critical_errors@.dom().contains(s) ==> critical_text(after, s) == Some(
                after.sql_critical_errors@[s]@,
            ),
{
}

} // verus!
