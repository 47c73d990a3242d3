//! Write positions: the counters that tell a write from a read.
//!
//! A position is SQLite's total of completed row changes, its data version and
//! its schema cookie. Each of them only grows while a cell is resident.

use vstd::prelude::*;

use crate::storage::cells::Cells;
use crate::storage::cells::OpenCell;
use crate::storage::cells::SchemaCookie;

verus! {

/// The refusal to sample while a write cursor has not finished.
pub const UNFINISHED_WRITE: &'static str =
    "cannot publish storage with an unfinished SQL write cursor; consume its rows before output or storage.sync()";

/// What a connection answers to a sample.
#[derive(Clone, Copy)]
pub struct ConnectionRead {
    pub autocommit: bool,
    /// The connection has a write transaction.
    pub uncommitted_write: bool,
    pub total_changes: u64,
    pub data_version: u64,
    pub schema_cookie: u64,
}

/// The write position that a connection is at.
pub open spec fn position_of(read: ConnectionRead) -> int {
    read.total_changes + read.data_version + read.schema_cookie
}

/// Whether a write cursor has not finished: it holds an implicit transaction
/// open, and the counters already include what is not committed. An explicit
/// transaction may be sampled.
pub open spec fn unfinished_write(read: ConnectionRead) -> bool {
    read.autocommit && read.uncommitted_write
}

/// The write position that a connection is at. The counters of one connection
/// never come near the end of their range.
pub fn fingerprint(read: ConnectionRead) -> (position: u64)
    requires
        position_of(read) <= u64::MAX,
    ensures
        position == position_of(read),
{
    read.total_changes + read.data_version + read.schema_cookie
}

/// Refuse a sample while a write cursor has not finished.
pub fn ensure_no_unfinished_write_cursor(autocommit: bool, uncommitted_write: bool) -> (result:
    Result<(), &'static str>)
    ensures
        match result {
            Ok(()) => !(autocommit && uncommitted_write),
            Err(message) => autocommit && uncommitted_write && message@ == UNFINISHED_WRITE@,
        },
{
    if autocommit && uncommitted_write {
        Err(UNFINISHED_WRITE)
    } else {
        Ok(())
    }
}

/// The cell's write position; none where it has no open connection.
pub fn write_position(read: Option<ConnectionRead>) -> (result: Result<
    Option<u64>,
    &'static str,
>)
    requires
        read matches Some(read) ==> position_of(read) <= u64::MAX,
    ensures
        match result {
            Err(message) => message@ == UNFINISHED_WRITE@ && read is Some && unfinished_write(
                read->0,
            ),
            Ok(None) => read is None,
            Ok(Some(position)) => read is Some && !unfinished_write(read->0) && position
                == position_of(read->0),
        },
{
    match read {
        None => Ok(None),
        Some(read) => match ensure_no_unfinished_write_cursor(
            read.autocommit,
            read.uncommitted_write,
        ) {
            Err(message) => Err(message),
            Ok(()) => Ok(Some(fingerprint(read))),
        },
    }
}

/// The baseline of a scope: the position at which the first event of its
/// activation started.
pub open spec fn baseline(state: Cells, scope: Seq<char>) -> Option<u64> {
    if state.open_cells@.dom().contains(scope) {
        state.open_cells@[scope].published_position
    } else {
        None
    }
}

/// The open cells once an event of a scope has started: the first event of an
/// activation leaves its baseline.
pub open spec fn with_baseline(
    open_cells: Map<Seq<char>, OpenCell>,
    scope: Seq<char>,
    position: Option<u64>,
) -> Map<Seq<char>, OpenCell> {
    if position is Some && open_cells.dom().contains(scope)
        && open_cells[scope].published_position is None {
        open_cells.insert(
            scope,
            OpenCell { published_position: position, ..open_cells[scope] },
        )
    } else {
        open_cells
    }
}

/// The position that an event starts at. The first one of an activation is also
/// its baseline.
pub fn event_start_position(state: &mut Cells, scope: &str, position: Option<u64>) -> (started:
    Option<u64>)
    requires
        old(state).wf(),
    ensures
        final(state).wf(),
        started == position,
        *final(state) == (Cells { open_cells: final(state).open_cells, ..*old(state) }),
        final(state).open_cells@ == with_baseline(old(state).open_cells@, scope@, position),
{
    let first = match state.open_cells.get(scope) {
        Some(cell) => cell.published_position.is_none(),
        None => false,
    };
    if first && position.is_some() {
        match state.open_cells.remove(scope) {
            Some(cell) => {
                let mut cell = cell;
                cell.published_position = position;
                let _ = state.open_cells.insert(scope, cell);
                assert(state.open_cells@ =~= old(state).open_cells@.insert(
                    scope@,
                    (OpenCell { published_position: position, ..old(state).open_cells@[scope@] }),
                ));
            },
            None => {},
        }
    }
    position
}

/// The position that a read-only answer observed: the sample where a handler
/// advanced it past the baseline, and none otherwise.
pub open spec fn observed(state: Cells, scope: Seq<char>, sample: Option<u64>) -> Option<u64> {
    match (sample, baseline(state, scope)) {
        (Some(position), Some(published)) => if position <= published {
            None
        } else {
            Some(position)
        },
        _ => sample,
    }
}

/// The position that a read-only answer observed.
pub fn observed_position(state: &Cells, scope: &str, sample: Option<u64>) -> (position: Option<u64>)
    requires
        state.wf(),
    ensures
        position == observed(*state, scope@, sample),
{
    let position: u64 = match sample {
        None => {
            return None;
        },
        Some(position) => position,
    };
    match state.open_cells.get(scope) {
        None => Some(position),
        Some(cell) => match cell.published_position {
            None => Some(position),
            Some(published) => if position <= published {
                None
            } else {
                Some(position)
            },
        },
    }
}

/// What a sync samples, together from one open connection.
pub struct SyncSample {
    /// Whether a handler has not finished a storage transaction.
    pub in_transaction: bool,
    /// The write position, as `write_position` reports it.
    pub position: u64,
    /// The epoch that the connection was installed with.
    pub epoch: u64,
}

/// The sample of a sync; none where the scope has no open connection.
pub fn sync_sample(state: &Cells, scope: &str, read: Option<ConnectionRead>) -> (result: Result<
    Option<SyncSample>,
    &'static str,
>)
    requires
        state.wf(),
        read matches Some(read) ==> position_of(read) <= u64::MAX,
    ensures
        ({
            let open = state.open_cells@.dom().contains(scope@) && read is Some;
            match result {
                Ok(None) => !open,
                Err(message) => open && unfinished_write(read->0) && message@ == UNFINISHED_WRITE@,
                Ok(Some(sample)) => {
                    &&& open
                    &&& !unfinished_write(read->0)
                    &&& sample.in_transaction == !read->0.autocommit
                    &&& sample.position == position_of(read->0)
                    &&& sample.epoch == state.open_cells@[scope@].epoch
                },
            }
        }),
{
    match (state.open_cells.get(scope), read) {
        (Some(cell), Some(read)) => match ensure_no_unfinished_write_cursor(
            read.autocommit,
            read.uncommitted_write,
        ) {
            Err(message) => Err(message),
            Ok(()) => Ok(
                Some(
                    SyncSample {
                        in_transaction: !read.autocommit,
                        position: fingerprint(read),
                        epoch: cell.epoch,
                    },
                ),
            ),
        },
        _ => Ok(None),
    }
}

/// The schema cookie that is known to hold still: one that was read when both
/// counters stood where they stand now.
pub fn schema_cookie(state: &Cells, scope: &str, changes: u64, prepares: u64) -> (cookie: Option<
    u64,
>)
    requires
        state.wf(),
    ensures
        cookie == (if state.schema_cookies@.dom().contains(scope@)
            && state.schema_cookies@[scope@].changes == changes
            && state.schema_cookies@[scope@].prepares == prepares {
            Some(state.schema_cookies@[scope@].cookie)
        } else {
            None
        }),
{
    match state.schema_cookies.get(scope) {
        None => None,
        Some(seen) => if seen.changes == changes && seen.prepares == prepares {
            Some(seen.cookie)
        } else {
            None
        },
    }
}

/// Keep a schema cookie that was read. `prepares` is the count after the read,
/// because reading it prepares a statement too.
pub fn keep_schema_cookie(
    state: &mut Cells,
    scope: &str,
    cookie: u64,
    changes: u64,
    prepares: u64,
)
    requires
        old(state).wf(),
    ensures
        final(state).wf(),
        *final(state) == (Cells { schema_cookies: final(state).schema_cookies, ..*old(state) }),
        final(state).schema_cookies@ == old(state).schema_cookies@.insert(
            scope@,
            (SchemaCookie { cookie, changes, prepares }),
        ),
{
    let _ = state.schema_cookies.insert(scope, SchemaCookie { cookie, changes, prepares });
}

/// A cell that no handler has written since its first event reports nothing
/// observed, and one whose counters moved reports where it is.
pub proof fn law_observed_past_baseline(
    state: Cells,
    scope: Seq<char>,
    start: ConnectionRead,
    now: ConnectionRead,
)
    requires
        position_of(start) <= u64::MAX,
        position_of(now) <= u64::MAX,
        baseline(state, scope) == Some(position_of(start) as u64),
        start.total_changes <= now.total_changes,
        start.data_version <= now.data_version,
        start.schema_cookie <= now.schema_cookie,
    ensures
        observed(state, scope, Some(position_of(now) as u64)) is None <==> (start.total_changes
            == now.total_changes && start.data_version == now.data_version && start.schema_cookie
            == now.schema_cookie),
{
}

/// What an operation is to the counters of a connection.
pub enum Operation {
    /// It reads.
    Read,
    /// It changes this many rows, at least one.
    Rows { changed: nat },
    /// It changes the schema.
    Schema,
    /// Another connection commits to the same database.
    Elsewhere,
}

/// How SQLite counts an operation: a read not at all, changed rows in the total, a
/// schema change in the cookie, and another connection's commit in the data version.
/// No counter falls.
pub open spec fn counts(before: ConnectionRead, op: Operation, after: ConnectionRead) -> bool {
    &&& before.total_changes <= after.total_changes
    &&& before.data_version <= after.data_version
    &&& before.schema_cookie <= after.schema_cookie
    &&& match op {
        Operation::Read => position_of(after) == position_of(before),
        Operation::Rows { changed } => changed > 0 && after.total_changes
            == before.total_changes + changed,
        Operation::Schema => before.schema_cookie < after.schema_cookie,
        Operation::Elsewhere => before.data_version < after.data_version,
    }
}

/// A position tells a write from a read: over the operations of one activation it
/// never falls, and it stands still exactly where all of them read. Any write moves
/// it, a change of the schema alone too.
pub proof fn law_position_tells_a_write_from_a_read(
    reads: Seq<ConnectionRead>,
    ops: Seq<Operation>,
)
    requires
        reads.len() == ops.len() + 1,
        forall|i: int|
            0 <= i < ops.len() ==> counts(reads[i], #[trigger] ops[i], reads[i + 1]),
    ensures
        position_of(reads[0]) <= position_of(reads.last()),
        position_of(reads[0]) == position_of(reads.last()) <==> forall|i: int|
            0 <= i < ops.len() ==> (#[trigger] ops[i]) is Read,
    decreases ops.len(),
{
    if ops.len() > 0 {
        let fewer = ops.drop_last();
        let earlier = reads.drop_last();
        assert forall|i: int| 0 <= i < fewer.len() implies counts(
            earlier[i],
            #[trigger] fewer[i],
            earlier[i + 1],
        ) by {
            assert(fewer[i] == ops[i]);
        }
        law_position_tells_a_write_from_a_read(earlier, fewer);
        let last = ops.len() - 1;
        assert(counts(reads[last], ops[last], reads[last + 1]));
        assert(earlier.last() == reads[last]);
        if position_of(reads[0]) == position_of(reads.last()) {
            assert forall|i: int| 0 <= i < ops.len() implies (#[trigger] ops[i]) is Read by {
                if i < fewer.len() {
                    assert(fewer[i] == ops[i]);
                }
            }
        }
        if forall|i: int| 0 <= i < ops.len() ==> (#[trigger] ops[i]) is Read {
            assert(ops[last] is Read);
            assert forall|i: int| 0 <= i < fewer.len() implies (#[trigger] fewer[i]) is Read by {
                assert(fewer[i] == ops[i]);
            }
        }
    }
}

/// Only the first event of an activation leaves a baseline. A later event starts no
/// earlier and does not move it; what stood there at the first start is not observed,
/// and what a handler advanced past it is.
pub proof fn law_later_event_keeps_the_baseline(
    opened: Cells,
    first: Cells,
    later: Cells,
    scope: Seq<char>,
    reads: Seq<ConnectionRead>,
    ops: Seq<Operation>,
)
    requires
        opened.open_cells@.dom().contains(scope),
        baseline(opened, scope) is None,
        reads.len() == ops.len() + 1,
        forall|i: int|
            0 <= i < ops.len() ==> counts(reads[i], #[trigger] ops[i], reads[i + 1]),
        position_of(reads[0]) <= u64::MAX,
        position_of(reads.last()) <= u64::MAX,
        first.open_cells@ == with_baseline(
            opened.open_cells@,
            scope,
            Some(position_of(reads[0]) as u64),
        ),
        later.open_cells@ == with_baseline(
            first.open_cells@,
            scope,
            Some(position_of(reads.last()) as u64),
        ),
    ensures
        ({
            let p = position_of(reads[0]) as u64;
            let q = position_of(reads.last()) as u64;
            &&& p <= q
            &&& baseline(first, scope) == Some(p)
            &&& baseline(later, scope) == Some(p)
            &&& observed(later, scope, Some(p)) is None
            &&& p < q ==> observed(later, scope, Some(q)) == Some(q)
        }),
{
    law_position_tells_a_write_from_a_read(reads, ops);
}

/// A position counts one for each row that changed, each change by another connection and
/// each change of the schema, and nothing else.
pub proof fn law_position_counts(read: ConnectionRead, n: u64, a: ConnectionRead)
    ensures
        a.total_changes == read.total_changes + n && a.data_version == read.data_version
            && a.schema_cookie == read.schema_cookie ==> position_of(a) == position_of(read) + n,
        a.total_changes == read.total_changes && a.data_version == read.data_version + n
            && a.schema_cookie == read.schema_cookie ==> position_of(a) == position_of(read) + n,
        a.total_changes == read.total_changes && a.data_version == read.data_version
            && a.schema_cookie == read.schema_cookie + n ==> position_of(a) == position_of(read) + n,
        a.total_changes == 0 && a.data_version == 0 && a.schema_cookie == 0 ==> position_of(a) == 0,
        unfinished_write(read) <==> read.autocommit && read.uncommitted_write,
{
}

/// The first event's position of an open cell is its baseline, and no later one replaces it;
/// no other cell is touched.
pub proof fn law_first_position_is_the_baseline(
    open_cells: Map<Seq<char>, OpenCell>,
    scope: Seq<char>,
    position: Option<u64>,
    other: Seq<char>,
)
    requires
        other != scope,
    ensures
        ({
            let after = with_baseline(open_cells, scope, position);
            &&& after.dom() == open_cells.dom()
            &&& open_cells.dom().contains(other) ==> after[other] == open_cells[other]
            &&& open_cells.dom().contains(scope) ==> after[scope].published_position == (
            if open_cells[scope].published_position is Some {
                open_cells[scope].published_position
            } else {
                position
            }) && after[scope].epoch == open_cells[scope].epoch && after[scope].backing
                == open_cells[scope].backing && after[scope].persisted_position
                == open_cells[scope].persisted_position
        }),
{
    let after = with_baseline(open_cells, scope, position);
    assert(after.dom() =~= open_cells.dom());
}

/// What was observed: a position past the baseline, or any where there is no baseline.
pub proof fn law_observed_position(state: Cells, scope: Seq<char>, position: u64)
    ensures
        observed(state, scope, None) is None,
        observed(state, scope, Some(position)) is Some ==> observed(state, scope, Some(position))
            == Some(position),
        observed(state, scope, Some(position)) is None <==> (baseline(state, scope) matches Some(
            published,
        ) && position <= published),
        baseline(state, scope) is Some ==> state.open_cells@.dom().contains(scope),
{
}

} // verus!
