//! Running SQL text as a whole, and what a connection says of its last write and of
//! its size.

use vstd::prelude::*;

use crate::storage::cells;
use crate::storage::cells::Cells;
use crate::storage::sql_cursor;
use crate::storage::values;
use crate::storage::values::Column;
use crate::storage::values::Json;
use crate::text;

verus! {

broadcast use vstd::string::group_string_axioms;

/// How SQL text runs.
#[derive(Clone, Copy, Debug, PartialEq, Eq, Structural)]
pub enum ExecPlan {
    /// As a batch; it gives no rows.
    Batch,
    /// As one statement, whose rows are given.
    Statement,
}

/// What SQL text came to: the columns, the rows, and how many rows it wrote.
pub struct SqlExec {
    pub columns: Vec<String>,
    pub rows: Vec<Vec<Json>>,
    pub rows_written: u64,
}

/// Admit SQL text: a poisoned cell and one that is not open refuse. Several
/// statements without bound values run as a batch; one statement, and whatever has
/// bound values, runs as a statement, so that its rows are given. `tail` is the text
/// that SQLite left behind the first statement, and nothing where SQLite finds no
/// further statement in it: semicolons in strings and comments end no statement.
pub fn sql_exec(state: &Cells, scope: &str, binds: usize, tail: &[u8]) -> (plan: Result<
    ExecPlan,
    String,
>)
    requires
        state.wf(),
    ensures
        match plan {
            Ok(plan) => {
                &&& cells::critical_text(*state, scope@) is None
                &&& state.open_cells@.dom().contains(scope@)
                &&& plan == if binds == 0 && sql_cursor::goes_on(tail@) {
                    ExecPlan::Batch
                } else {
                    ExecPlan::Statement
                }
            },
            Err(error) => match cells::critical_text(*state, scope@) {
                Some(critical) => error@ == critical,
                None => !state.open_cells@.dom().contains(scope@) && error@ == "no db for "@
                    + scope@,
            },
        },
{
    match cells::require_sql_healthy(state, scope) {
        Err(error) => {
            return Err(error);
        },
        Ok(()) => {},
    }
    if !state.open_cells.contains_key(scope) {
        return Err(text::concat("no db for ", scope));
    }
    if binds == 0 && sql_cursor::tail_goes_on(tail) {
        Ok(ExecPlan::Batch)
    } else {
        Ok(ExecPlan::Statement)
    }
}

/// How many rows were written between two readings of the change counter.
pub open spec fn written(before: u64, now: u64) -> int {
    if now < before {
        0
    } else {
        now - before
    }
}

/// Whether a JSON value is that of a column, which has no TEXT but UTF-8.
pub open spec fn column_reads(column: Column, json: Json) -> bool {
    !values::bad_text(column) && values::json_reads(column, json)
}

/// Whether a row of JSON is that of a row of columns.
pub open spec fn row_reads(row: Seq<Column>, json: Seq<Json>) -> bool {
    &&& json.len() == row.len()
    &&& forall|i: int| 0 <= i < row.len() ==> column_reads(#[trigger] row[i], json[i])
}

/// Whether a row has TEXT that is no UTF-8.
pub open spec fn bad_row(row: Seq<Column>) -> bool {
    exists|i: int| 0 <= i < row.len() && values::bad_text(#[trigger] row[i])
}

fn json_row(row: Vec<Column>) -> (json: Result<Vec<Json>, &'static str>)
    ensures
        match json {
            Ok(json) => row_reads(row@, json@),
            Err(message) => bad_row(row@) && message@
                == sql_cursor::INVALID_UTF8_TEXT@,
        },
{
    let ghost whole = row@;
    let mut rest = row;
    let mut back: Vec<Json> = Vec::new();
    while rest.len() > 0
        invariant
            whole == row@,
            rest@.len() + back@.len() == whole.len(),
            rest@ == whole.take(rest@.len() as int),
            forall|k: int|
                0 <= k < back@.len() ==> column_reads(
                    whole[whole.len() - 1 - k],
                    #[trigger] back@[k],
                ),
        decreases rest@.len(),
    {
        let ghost n = rest@.len();
        match rest.pop() {
            Some(column) => {
                assert(column == whole[n - 1]);
                match values::vref_to_json(column) {
                    Ok(json) => {
                        back.push(json);
                    },
                    Err(message) => {
                        assert(values::bad_text(whole[n - 1]));
                        return Err(message);
                    },
                }
            },
            None => {},
        }
    }
    let mut out: Vec<Json> = Vec::new();
    let ghost all = back@;
    while back.len() > 0
        invariant
            back@.len() + out@.len() == whole.len(),
            all.len() == whole.len(),
            back@ == all.take(back@.len() as int),
            forall|k: int|
                0 <= k < all.len() ==> column_reads(
                    whole[whole.len() - 1 - k],
                    #[trigger] all[k],
                ),
            forall|k: int|
                0 <= k < out@.len() ==> column_reads(whole[k], #[trigger] out@[k]),
        decreases back@.len(),
    {
        let ghost n = back@.len();
        match back.pop() {
            Some(json) => {
                assert(json == all[n - 1]);
                out.push(json);
            },
            None => {},
        }
    }
    Ok(out)
}

fn json_rows(rows: Vec<Vec<Column>>) -> (json: Result<Vec<Vec<Json>>, &'static str>)
    ensures
        match json {
            Ok(json) => {
                &&& json@.len() == rows@.len()
                &&& forall|i: int|
                    0 <= i < rows@.len() ==> row_reads((#[trigger] rows@[i])@, json@[i]@)
            },
            Err(message) => message@ == sql_cursor::INVALID_UTF8_TEXT@ && exists|
                i: int,
            |
                0 <= i < rows@.len() && bad_row((#[trigger] rows@[i])@),
        },
{
    let ghost whole = rows@;
    let mut rest = rows;
    let mut back: Vec<Vec<Json>> = Vec::new();
    while rest.len() > 0
        invariant
            whole == rows@,
            rest@.len() + back@.len() == whole.len(),
            rest@ == whole.take(rest@.len() as int),
            forall|k: int|
                0 <= k < back@.len() ==> row_reads(
                    whole[whole.len() - 1 - k]@,
                    (#[trigger] back@[k])@,
                ),
        decreases rest@.len(),
    {
        let ghost n = rest@.len();
        match rest.pop() {
            Some(row) => {
                assert(row == whole[n - 1]);
                match json_row(row) {
                    Ok(json) => {
                        back.push(json);
                    },
                    Err(message) => {
                        assert(bad_row(whole[n - 1]@));
                        return Err(message);
                    },
                }
            },
            None => {},
        }
    }
    let mut out: Vec<Vec<Json>> = Vec::new();
    let ghost all = back@;
    while back.len() > 0
        invariant
            back@.len() + out@.len() == whole.len(),
            all.len() == whole.len(),
            back@ == all.take(back@.len() as int),
            forall|k: int|
                0 <= k < all.len() ==> row_reads(
                    whole[whole.len() - 1 - k]@,
                    (#[trigger] all[k])@,
                ),
            forall|k: int|
                0 <= k < out@.len() ==> row_reads(whole[k]@, (#[trigger] out@[k])@),
        decreases back@.len(),
    {
        let ghost n = back@.len();
        match back.pop() {
            Some(json) => {
                assert(json == all[n - 1]);
                out.push(json);
            },
            None => {},
        }
    }
    Ok(out)
}

/// SQL text ran: its columns and rows, and how many rows it wrote by the change
/// counter. TEXT that is no UTF-8 refuses it all.
pub fn sql_executed(
    columns: Vec<String>,
    rows: Vec<Vec<Column>>,
    changes_before: u64,
    changes_now: u64,
) -> (result: Result<SqlExec, &'static str>)
    ensures
        match result {
            Ok(exec) => {
                &&& exec.columns == columns
                &&& exec.rows@.len() == rows@.len()
                &&& forall|i: int|
                    0 <= i < rows@.len() ==> row_reads((#[trigger] rows@[i])@, exec.rows@[i]@)
                &&& exec.rows_written == written(changes_before, changes_now)
            },
            Err(message) => message@ == sql_cursor::INVALID_UTF8_TEXT@ && exists|
                i: int,
            |
                0 <= i < rows@.len() && bad_row((#[trigger] rows@[i])@),
        },
{
    match json_rows(rows) {
        Ok(rows) => Ok(
            SqlExec {
                columns,
                rows,
                rows_written: if changes_now < changes_before {
                    0
                } else {
                    changes_now - changes_before
                },
            },
        ),
        Err(message) => Err(message),
    }
}

/// What a connection says of its last write: the rowid it inserted, and how many
/// rows it changed. A poisoned cell and one that is not open refuse.
pub fn sql_write_meta(state: &Cells, scope: &str, last_insert_rowid: i64, changes: u64) -> (
    result: Result<(i64, u64), String>)
    requires
        state.wf(),
    ensures
        match result {
            Ok(meta) => {
                &&& cells::critical_text(*state, scope@) is None
                &&& state.open_cells@.dom().contains(scope@)
                &&& meta == (last_insert_rowid, changes)
            },
            Err(error) => match cells::critical_text(*state, scope@) {
                Some(critical) => error@ == critical,
                None => !state.open_cells@.dom().contains(scope@) && error@ == "no db for "@
                    + scope@,
            },
        },
{
    match cells::require_sql_healthy(state, scope) {
        Err(error) => {
            return Err(error);
        },
        Ok(()) => {},
    }
    if !state.open_cells.contains_key(scope) {
        return Err(text::concat("no db for ", scope));
    }
    Ok((last_insert_rowid, changes))
}

/// The bytes of a database's pages that are in use.
pub fn database_size(page_count: u32, freelist_count: u32, page_size: u32) -> (size: u64)
    requires
        freelist_count <= page_count,
    ensures
        size == (page_count - freelist_count) * page_size,
{
    let used: u64 = (page_count - freelist_count) as u64;
    let page: u64 = page_size as u64;
    assert(used * page <= 0xffff_ffff * 0xffff_ffff) by (nonlinear_arith)
        requires
            used <= 0xffff_ffff,
            page <= 0xffff_ffff,
    ;
    used * page
}

/// The size of a cell's database. A poisoned cell and one that is not open refuse.
pub fn sql_database_size(
    state: &Cells,
    scope: &str,
    page_count: u32,
    freelist_count: u32,
    page_size: u32,
) -> (result: Result<u64, String>)
    requires
        state.wf(),
        freelist_count <= page_count,
    ensures
        match result {
            Ok(size) => {
                &&& cells::critical_text(*state, scope@) is None
                &&& state.open_cells@.dom().contains(scope@)
                &&& size == (page_count - freelist_count) * page_size
            },
            Err(error) => match cells::critical_text(*state, scope@) {
                Some(critical) => error@ == critical,
                None => !state.open_cells@.dom().contains(scope@) && error@ == "no db for "@
                    + scope@,
            },
        },
{
    match cells::require_sql_healthy(state, scope) {
        Err(error) => {
            return Err(error);
        },
        Ok(()) => {},
    }
    if !state.open_cells.contains_key(scope) {
        return Err(text::concat("no db for ", scope));
    }
    Ok(database_size(page_count, freelist_count, page_size))
}

/// What a statement wrote: how far the count of changes went since it began, and nothing where
/// it did not go on.
pub proof fn law_rows_written(before: u64, n: u64)
    requires
        before + n <= u64::MAX,
    ensures
        written(before, (before + n) as u64) == n,
        n > 0 ==> written((before + n) as u64, before) == 0,
{
}

/// A row reads column by column, each in its place; a row with a text that is not UTF-8 does
/// not read.
pub proof fn law_row_reads(row: Seq<Column>, json: Seq<Json>, i: int)
    requires
        row_reads(row, json),
        0 <= i < row.len(),
    ensures
        json.len() == row.len(),
        values::json_reads(row[i], json[i]) && !values::bad_text(row[i]),
        !bad_row(row),
{
    assert(column_reads(row[i], json[i]));
    if bad_row(row) {
        let k = choose|k: int| 0 <= k < row.len() && values::bad_text(#[trigger] row[k]);
        assert(column_reads(row[k], json[k]));
    }
}

} // verus!
