//! One D1 request against a cell's SQLite.
//!
//! A prepared statement is exactly one statement with binds, an exec is many
//! statements with none, and a migration is an exec with its bookkeeping row in
//! the same transaction.

use vstd::prelude::*;

use crate::storage::cells;
use crate::storage::cells::Cells;
use crate::storage::d1_result;
use crate::storage::d1_result::BadBind;
use crate::storage::d1_result::D1Stepped;
use crate::storage::d1_result::D1_MAX_RESULT_BYTES;
use crate::storage::d1_result::D1_MAX_ROWS;
use crate::storage::ingest;
use crate::storage::ingest::INVALID_TAIL;
use crate::storage::sql_cursor::SQLITE_DONE;
use crate::storage::sql_cursor::SQLITE_OK;
use crate::storage::sql_cursor::WRONG_BINDINGS;
use crate::storage::values::Column;
use crate::storage::values::Json;
use crate::storage::values::SqlValue;
use crate::text;

verus! {

/// SQLite's primary result codes that can destroy a transaction.
pub const SQLITE_NOMEM: i32 = 7;

pub const SQLITE_INTERRUPT: i32 = 9;

pub const SQLITE_IOERR: i32 = 10;

pub const SQLITE_FULL: i32 = 13;

/// The refusal of SQL whose tail SQLite could not parse into a statement. The
/// statements before the tail have already run.
pub const D1_INCOMPLETE: &'static str =
    "the SQL ends in an incomplete statement, which did not run: terminate the last statement with a semicolon, or close an open quote";

pub const NO_D1_STATEMENT: &'static str = "No SQL statements detected.";

pub const ONE_STATEMENT: &'static str = "A prepared SQL statement must contain only one statement.";

/// The prefix that applications match a failure on.
#[derive(PartialEq, Eq, Structural, Clone, Copy)]
pub enum D1Family {
    Error,
    TypeError,
    ExecError,
}

impl D1Family {
    pub open spec fn text(self) -> Seq<char> {
        match self {
            D1Family::Error => "D1_ERROR"@,
            D1Family::TypeError => "D1_TYPE_ERROR"@,
            D1Family::ExecError => "D1_EXEC_ERROR"@,
        }
    }

    /// The prefix itself.
    pub fn as_str(self) -> (text: &'static str)
        ensures
            text@ == self.text(),
    {
        match self {
            D1Family::Error => "D1_ERROR",
            D1Family::TypeError => "D1_TYPE_ERROR",
            D1Family::ExecError => "D1_EXEC_ERROR",
        }
    }
}

/// A typed refusal, its family apart from its message.
pub struct D1Failure {
    pub family: D1Family,
    pub message: String,
}

/// Whether a failure has this family and this message.
pub open spec fn fails_with(failure: D1Failure, family: D1Family, message: Seq<char>) -> bool {
    failure.family == family && failure.message@ == message
}

fn failure_of(family: D1Family, message: &str) -> (failure: D1Failure)
    ensures
        fails_with(failure, family, message@),
{
    D1Failure { family, message: message.to_owned() }
}

pub fn d1_error(message: &str) -> (failure: D1Failure)
    ensures
        fails_with(failure, D1Family::Error, message@),
{
    failure_of(D1Family::Error, message)
}

pub fn d1_exec_error(message: &str) -> (failure: D1Failure)
    ensures
        fails_with(failure, D1Family::ExecError, message@),
{
    failure_of(D1Family::ExecError, message)
}

/// The failure of a value that cannot be bound; `shown` is the value, or the
/// array item, as JSON text.
pub fn d1_bind_failure(refusal: BadBind, shown: &str) -> (failure: D1Failure)
    ensures
        fails_with(
            failure,
            D1Family::TypeError,
            "Type 'object' not supported for value '"@ + shown@ + (match refusal {
                BadBind::Value => "'"@,
                BadBind::Item(_) => "': an array bind must hold bytes 0-255"@,
            }),
        ),
{
    let end: &'static str = match refusal {
        BadBind::Value => "'",
        BadBind::Item(_) => "': an array bind must hold bytes 0-255",
    };
    D1Failure {
        family: D1Family::TypeError,
        message: text::concat3("Type 'object' not supported for value '", shown, end),
    }
}

/// Whether a value can be bound: it is no object, and an array holds bytes.
pub open spec fn bindable(value: Json) -> bool {
    &&& !(value is Object)
    &&& value matches Json::Array(items) ==> forall|k: int|
        0 <= k < items@.len() ==> d1_result::is_byte(#[trigger] items@[k])
}

/// Encode a statement's bind values; the first one that cannot be bound refuses
/// them all, with its index.
pub fn d1_bind_values(params: &Vec<Json>) -> (result: Result<Vec<SqlValue>, (usize, BadBind)>)
    ensures
        match result {
            Ok(binds) => {
                &&& binds@.len() == params@.len()
                &&& forall|i: int|
                    0 <= i < params@.len() ==> bindable(#[trigger] params@[i])
                        && d1_result::d1_binds(params@[i], binds@[i])
            },
            Err((at, refusal)) => {
                &&& at < params@.len()
                &&& forall|i: int| 0 <= i < at ==> bindable(#[trigger] params@[i])
                &&& !bindable(params@[at as int])
                &&& match refusal {
                    BadBind::Value => params@[at as int] is Object,
                    BadBind::Item(item) => {
                        &&& params@[at as int] matches Json::Array(items)
                        &&& item < items@.len()
                        &&& !d1_result::is_byte(items@[item as int])
                        &&& forall|k: int|
                            0 <= k < item ==> d1_result::is_byte(#[trigger] items@[k])
                    },
                }
            },
        },
{
    let mut binds: Vec<SqlValue> = Vec::new();
    let mut i: usize = 0;
    while i < params.len()
        invariant
            i <= params@.len(),
            binds@.len() == i,
            forall|j: int|
                0 <= j < i ==> bindable(#[trigger] params@[j]) && d1_result::d1_binds(
                    params@[j],
                    binds@[j],
                ),
        decreases params@.len() - i,
    {
        match d1_result::d1_bind_value(&params[i]) {
            Ok(sql) => {
                binds.push(sql);
            },
            Err(refusal) => {
                return Err((i, refusal));
            },
        }
        i = i + 1;
    }
    Ok(binds)
}

/// What to do next for a statement or a text that runs. A statement named by
/// `finalize` has to be finalized.
pub enum D1Step {
    /// Prepare the next statement.
    Prepare,
    /// Bind the values to this statement.
    Bind { statement: u64 },
    /// Step this statement, handing over each row, until it stops.
    Run { statement: u64 },
    /// Refuse with this message.
    Refuse { message: String, finalize: Option<u64> },
    /// Fail with SQLite's own message for this code.
    Sqlite { code: i32, finalize: Option<u64> },
    /// Everything ran.
    Finish,
}

/// Whether a step refuses with a message.
pub open spec fn refuses(step: D1Step, text: Seq<char>, release: Option<u64>) -> bool {
    step matches D1Step::Refuse { message, finalize } && message@ == text && finalize == release
}

/// One result set: positional rows and the column names to shape them with.
pub struct D1Rows {
    pub columns: Vec<String>,
    pub rows: Vec<Vec<Json>>,
}

/// A run over a text of several statements.
pub struct D1Exec {
    pub input: String,
    /// Where the next statement begins and where the running one ends, in bytes.
    pub source: usize,
    pub tail: usize,
    pub keep_rows: bool,
    /// What the results may still be charged.
    pub budget: usize,
    pub count: u64,
    pub results: Vec<D1Rows>,
    /// The running statement's columns, the rows it keeps, and what it left.
    pub columns: Vec<String>,
    pub keep: usize,
    pub stepped: D1Stepped,
}

/// What SQLite answered to a request to prepare a statement of a text.
pub struct D1ExecPrepared {
    pub code: i32,
    pub statement: Option<u64>,
    /// The end of the statement, in bytes from the start of the text.
    pub tail: usize,
    /// Whether the text from the source on is complete.
    pub source_complete: bool,
    pub columns: Vec<String>,
}

/// Whether a statement has given no row yet.
pub open spec fn nothing_stepped(stepped: D1Stepped) -> bool {
    stepped.rows@.len() == 0 && stepped.rows_read == 0 && stepped.over is None
}

impl D1Exec {
    /// Nothing has run yet.
    pub fn new(input: &str, keep_rows: bool) -> (run: Self)
        ensures
            run.input@ == input@,
            run.source == 0,
            run.tail == 0,
            run.keep_rows == keep_rows,
            run.budget == D1_MAX_RESULT_BYTES,
            run.count == 0,
            run.results@.len() == 0,
            run.columns@.len() == 0,
            run.keep == 0,
            nothing_stepped(run.stepped),
    {
        D1Exec {
            input: input.to_owned(),
            source: 0,
            tail: 0,
            keep_rows,
            budget: D1_MAX_RESULT_BYTES,
            count: 0,
            results: Vec::new(),
            columns: Vec::new(),
            keep: 0,
            stepped: D1Stepped::new(),
        }
    }

    /// The statement at the source was prepared. Text that does not prepare is
    /// refused as incomplete where it is, and fails with SQLite's message
    /// otherwise. Text with no statement left finishes the run: a final
    /// statement without its semicolon is a statement.
    pub fn prepared(&mut self, answer: D1ExecPrepared) -> (next: D1Step)
        ensures
            if answer.code != SQLITE_OK {
                &&& *final(self) == *old(self)
                &&& if answer.source_complete {
                    next == (D1Step::Sqlite { code: answer.code, finalize: answer.statement })
                } else {
                    refuses(next, D1_INCOMPLETE@, answer.statement)
                }
            } else {
                match answer.statement {
                    None => next is Finish && *final(self) == *old(self),
                    Some(statement) => if !ingest::cuttable(
                        old(self).input@,
                        answer.tail as int,
                    ) {
                        &&& *final(self) == *old(self)
                        &&& refuses(next, INVALID_TAIL@, Some(statement))
                    } else {
                        &&& next == (D1Step::Run { statement })
                        &&& *final(self) == (D1Exec {
                            tail: answer.tail,
                            keep: if old(self).keep_rows && answer.columns@.len() > 0 {
                                D1_MAX_ROWS
                            } else {
                                0
                            },
                            columns: answer.columns,
                            stepped: final(self).stepped,
                            ..*old(self)
                        })
                        &&& nothing_stepped(final(self).stepped)
                    },
                }
            },
    {
        if answer.code != SQLITE_OK {
            if !answer.source_complete {
                return D1Step::Refuse {
                    message: D1_INCOMPLETE.to_owned(),
                    finalize: answer.statement,
                };
            }
            return D1Step::Sqlite { code: answer.code, finalize: answer.statement };
        }
        let statement: u64 = match answer.statement {
            None => {
                return D1Step::Finish;
            },
            Some(statement) => statement,
        };
        proof {
            vstd::utf8::encode_utf8_valid_utf8(self.input@);
        }
        if !self.input.as_str().is_char_boundary(answer.tail) {
            return D1Step::Refuse {
                message: INVALID_TAIL.to_owned(),
                finalize: Some(statement),
            };
        }
        self.tail = answer.tail;
        self.keep = if self.keep_rows && answer.columns.len() > 0 {
            D1_MAX_ROWS
        } else {
            0
        };
        self.columns = answer.columns;
        self.stepped = D1Stepped::new();
        D1Step::Run { statement }
    }

    /// The running statement gave a row.
    pub fn row(&mut self, columns: &Vec<Column>, scalar: usize)
        requires
            old(self).stepped.rows_read < u64::MAX,
            old(self).budget < usize::MAX,
        ensures
            *final(self) == (D1Exec {
                stepped: final(self).stepped,
                budget: final(self).budget,
                ..*old(self)
            }),
            final(self).stepped.rows_read == old(self).stepped.rows_read + 1,
            final(self).budget <= old(self).budget,
            stepped_by(
                old(self).stepped,
                final(self).stepped,
                columns@,
                old(self).keep,
                old(self).budget,
                final(self).budget,
                scalar as nat,
            ),
    {
        self.stepped.row(columns, self.keep, &mut self.budget, scalar);
    }

    /// The running statement stopped with this code, and has to be finalized.
    /// After completion within the limits it counts, its rows are kept where it
    /// has columns and rows were asked for, and the run goes on behind it.
    pub fn stopped(&mut self, statement: u64, code: i32) -> (next: D1Step)
        requires
            old(self).count < u64::MAX,
        ensures
            if code != SQLITE_DONE {
                next == (D1Step::Sqlite { code, finalize: Some(statement) }) && *final(self)
                    == *old(self)
            } else {
                match old(self).stepped.over {
                    Some(over) => refuses(next, d1_result::over_text(over), Some(statement))
                        && *final(self) == *old(self),
                    None => {
                        &&& next is Prepare
                        &&& final(self).input == old(self).input
                        &&& final(self).source == old(self).tail
                        &&& final(self).count == old(self).count + 1
                        &&& final(self).budget == old(self).budget
                        &&& final(self).keep_rows == old(self).keep_rows
                        &&& final(self).tail == old(self).tail
                        &&& final(self).keep == old(self).keep
                        &&& if old(self).keep > 0 {
                            final(self).columns@.len() == 0 && nothing_stepped(
                                final(self).stepped,
                            )
                        } else {
                            final(self).columns == old(self).columns && final(self).stepped
                                == old(self).stepped
                        }
                        &&& if old(self).keep > 0 {
                            &&& final(self).results@.len() == old(self).results@.len() + 1
                            &&& final(self).results@.drop_last() == old(self).results@
                            &&& final(self).results@.last().columns == old(self).columns
                            &&& final(self).results@.last().rows == old(self).stepped.rows
                        } else {
                            final(self).results@ == old(self).results@
                        }
                    },
                }
            },
    {
        if code != SQLITE_DONE {
            return D1Step::Sqlite { code, finalize: Some(statement) };
        }
        match self.stepped.over {
            Some(over) => {
                return D1Step::Refuse {
                    message: d1_result::d1_over_message(over),
                    finalize: Some(statement),
                };
            },
            None => {},
        }
        self.count = self.count + 1;
        if self.keep > 0 {
            let mut columns: Vec<String> = Vec::new();
            std::mem::swap(&mut columns, &mut self.columns);
            let mut stepped = D1Stepped::new();
            std::mem::swap(&mut stepped, &mut self.stepped);
            self.results.push(D1Rows { columns, rows: stepped.rows });
            assert(self.results@.drop_last() =~= old(self).results@);
        }
        self.source = self.tail;
        D1Step::Prepare
    }
}

/// Whether a statement's result took one more row.
pub open spec fn stepped_by(
    before: D1Stepped,
    after: D1Stepped,
    columns: Seq<Column>,
    keep: usize,
    budget: usize,
    left: usize,
    scalar: nat,
) -> bool {
    let refusal = d1_result::row_refusal(columns, scalar, budget as int);
    if before.over is Some || keep == 0 {
        after.over == before.over && after.rows@ == before.rows@ && left == budget
    } else if before.rows@.len() >= keep {
        &&& after.over == (if keep >= D1_MAX_ROWS {
            Some(d1_result::D1Over::Rows)
        } else {
            None
        })
        &&& after.rows@ == before.rows@
        &&& left == budget
    } else {
        match refusal {
            Some(refusal) => {
                &&& after.over == Some(
                    match refusal {
                        d1_result::D1RowValueError::ResultLimit => d1_result::D1Over::Bytes,
                        d1_result::D1RowValueError::InvalidUtf8Text => d1_result::D1Over::Text,
                    },
                )
                &&& after.rows@ == before.rows@
                &&& left == budget
            },
            None => {
                &&& after.over is None
                &&& after.rows@.len() == before.rows@.len() + 1
                &&& after.rows@.drop_last() == before.rows@
                &&& d1_result::row_reads(columns, after.rows@.last()@)
                &&& left + d1_result::row_charge(columns, scalar) == budget
            },
        }
    }
}

/// D1 `meta`, but for the time it took.
pub struct D1Meta {
    pub rows_read: u64,
    pub rows_written: u64,
    pub last_row_id: i64,
    pub changes: u64,
    pub changed_db: bool,
    pub size_after: u64,
}

/// One prepared statement that runs.
pub struct D1Prepared {
    pub binds: usize,
    /// The rows that are kept at most.
    pub keep: usize,
    pub changes_before: u64,
    pub schema_before: i64,
    pub stepped: D1Stepped,
}

/// What SQLite knows of a prepared statement.
pub struct D1StatementPrepared {
    pub code: i32,
    pub statement: Option<u64>,
    /// Whether the text behind it holds another statement, or one that SQLite
    /// refuses.
    pub more: bool,
    /// How many values it takes.
    pub parameters: usize,
}

/// What the connection answers once a statement has stopped.
pub struct D1After {
    pub code: i32,
    pub full_scan_steps: u64,
    pub readonly: bool,
    pub changes_now: u64,
    pub last_insert_rowid: i64,
    pub changes: u64,
    pub schema_now: i64,
    pub database_size: u64,
}

/// Whether a tail that was prepared is no trivia: it made a statement, or SQLite
/// refused it.
pub fn d1_tail_has_statement(code: i32, statement: Option<u64>) -> (answer: bool)
    ensures
        answer == (statement is Some || code != SQLITE_OK),
{
    statement.is_some() || code != SQLITE_OK
}

/// The meta of a statement that stopped. A read-only statement reports neither a
/// row id nor changes; a database is changed only by a statement that wrote rows
/// or moved the schema.
pub open spec fn meta_of(run: D1Prepared, after: D1After) -> D1Meta {
    let rows_written = ingest::grown(after.changes_now, run.changes_before);
    D1Meta {
        rows_read: d1_result::rows_read(after.full_scan_steps, run.stepped.rows_read) as u64,
        rows_written,
        last_row_id: if after.readonly {
            0
        } else {
            after.last_insert_rowid
        },
        changes: if after.readonly {
            0
        } else {
            after.changes
        },
        changed_db: !after.readonly && (rows_written > 0 || after.schema_now != run.schema_before),
        size_after: after.database_size,
    }
}

impl D1Prepared {
    pub fn new(binds: usize, keep: usize, changes_before: u64, schema_before: i64) -> (run: Self)
        ensures
            run.binds == binds,
            run.keep == keep,
            run.changes_before == changes_before,
            run.schema_before == schema_before,
            run.stepped.rows@.len() == 0,
            run.stepped.rows_read == 0,
            run.stepped.over is None,
    {
        D1Prepared { binds, keep, changes_before, schema_before, stepped: D1Stepped::new() }
    }

    /// The statement was prepared. It has to be the only one of its text, and
    /// to take as many values as are bound.
    pub fn prepared(&self, answer: D1StatementPrepared) -> (next: D1Step)
        ensures
            if answer.code != SQLITE_OK {
                next == (D1Step::Sqlite { code: answer.code, finalize: answer.statement })
            } else {
                match answer.statement {
                    None => refuses(next, NO_D1_STATEMENT@, None),
                    Some(statement) => if answer.more {
                        refuses(next, ONE_STATEMENT@, Some(statement))
                    } else if answer.parameters != self.binds {
                        refuses(next, WRONG_BINDINGS@, Some(statement))
                    } else {
                        next == (D1Step::Bind { statement })
                    },
                }
            },
    {
        if answer.code != SQLITE_OK {
            return D1Step::Sqlite { code: answer.code, finalize: answer.statement };
        }
        let statement: u64 = match answer.statement {
            None => {
                return D1Step::Refuse { message: NO_D1_STATEMENT.to_owned(), finalize: None };
            },
            Some(statement) => statement,
        };
        if answer.more {
            return D1Step::Refuse { message: ONE_STATEMENT.to_owned(), finalize: Some(statement) };
        }
        if answer.parameters != self.binds {
            return D1Step::Refuse {
                message: WRONG_BINDINGS.to_owned(),
                finalize: Some(statement),
            };
        }
        D1Step::Bind { statement }
    }

    /// The values were bound, or SQLite refused one with this code.
    pub fn bound(&self, statement: u64, code: i32) -> (next: D1Step)
        ensures
            next == (if code == SQLITE_OK {
                D1Step::Run { statement }
            } else {
                D1Step::Sqlite { code, finalize: Some(statement) }
            }),
    {
        if code == SQLITE_OK {
            D1Step::Run { statement }
        } else {
            D1Step::Sqlite { code, finalize: Some(statement) }
        }
    }

    /// The statement gave a row, charged to the request's budget.
    pub fn row(&mut self, columns: &Vec<Column>, budget: &mut usize, scalar: usize)
        requires
            old(self).stepped.rows_read < u64::MAX,
            *old(budget) < usize::MAX,
        ensures
            *final(self) == (D1Prepared { stepped: final(self).stepped, ..*old(self) }),
            final(self).stepped.rows_read == old(self).stepped.rows_read + 1,
            *final(budget) <= *old(budget),
            stepped_by(
                old(self).stepped,
                final(self).stepped,
                columns@,
                old(self).keep,
                *old(budget),
                *final(budget),
                scalar as nat,
            ),
    {
        self.stepped.row(columns, self.keep, budget, scalar);
    }

    /// The statement stopped, and has to be finalized. Its meta, or the step
    /// that reports its failure.
    pub fn stopped(&self, statement: u64, after: D1After) -> (result: Result<D1Meta, D1Step>)
        ensures
            if after.code != SQLITE_DONE {
                result == Err::<D1Meta, D1Step>(
                    D1Step::Sqlite { code: after.code, finalize: Some(statement) },
                )
            } else {
                match self.stepped.over {
                    Some(over) => result matches Err(step) && refuses(
                        step,
                        d1_result::over_text(over),
                        Some(statement),
                    ),
                    None => result == Ok::<D1Meta, D1Step>(meta_of(*self, after)),
                }
            },
    {
        if after.code != SQLITE_DONE {
            return Err(D1Step::Sqlite { code: after.code, finalize: Some(statement) });
        }
        match self.stepped.over {
            Some(over) => {
                return Err(
                    D1Step::Refuse {
                        message: d1_result::d1_over_message(over),
                        finalize: Some(statement),
                    },
                );
            },
            None => {},
        }
        let rows_written: u64 = after.changes_now.saturating_sub(self.changes_before);
        let (last_row_id, changes): (i64, u64) = if after.readonly {
            (0, 0)
        } else {
            (after.last_insert_rowid, after.changes)
        };
        Ok(
            D1Meta {
                rows_read: d1_result::d1_rows_read(after.full_scan_steps, self.stepped.rows_read),
                rows_written,
                last_row_id,
                changes,
                changed_db: !after.readonly && (rows_written > 0 || after.schema_now
                    != self.schema_before),
                size_after: after.database_size,
            },
        )
    }
}

/// SQLite failed a D1 statement: the caller is told SQLite's message alone, and
/// the cell is poisoned where the failure is classified so.
pub fn d1_sqlite_failure(state: &mut Cells, scope: &str, poisons: bool, detail: &str) -> (error:
    String)
    requires
        old(state).wf(),
    ensures
        final(state).wf(),
        error@ == detail@,
        if poisons {
            cells::poisoned_by(*old(state), *final(state), scope@, "d1: "@ + detail@)
        } else {
            *final(state) == *old(state)
        },
{
    let recorded = text::concat("d1: ", detail);
    cells::record_sqlite_operation_failure(state, scope, poisons, recorded.as_str());
    detail.to_owned()
}

/// What binds: everything but an object, and an array only of bytes.
pub proof fn law_what_binds(value: Json)
    ensures
        value is Object ==> !bindable(value),
        value is Null || value is Bool || value is Number || value is Text ==> bindable(value),
        value matches Json::Array(items) ==> (bindable(value) <==> forall|k: int|
            0 <= k < items@.len() ==> d1_result::is_byte(#[trigger] items@[k])),
{
}

/// How a further row counts: where rows are kept, it is kept while there is room for it, the
/// budget going down by its charge; the first that does not fit, one more than the limit of
/// rows among them, says why and ends the keeping; a row that is not kept costs nothing.
pub proof fn law_row_counts(
    before: D1Stepped,
    after: D1Stepped,
    columns: Seq<Column>,
    keep: usize,
    budget: usize,
    left: usize,
    scalar: nat,
)
    requires
        stepped_by(before, after, columns, keep, budget, left, scalar),
    ensures
        ({
            let room = before.over is None && before.rows@.len() < keep;
            let fits = d1_result::row_refusal(columns, scalar, budget as int) is None;
            &&& room && fits ==> after.rows@.len() == before.rows@.len() + 1
                && after.rows@.drop_last() == before.rows@ && after.over is None && d1_result::row_reads(
                columns,
                after.rows@.last()@,
            ) && left == budget - d1_result::row_charge(columns, scalar)
            &&& !(room && fits) ==> after.rows@ == before.rows@ && left == budget
            &&& before.over is Some ==> after.over == before.over
            &&& before.over is None && room && !fits ==> after.over == Some(
                if d1_result::row_refusal(columns, scalar, budget as int)
                    == Some(d1_result::D1RowValueError::ResultLimit) {
                    d1_result::D1Over::Bytes
                } else {
                    d1_result::D1Over::Text
                },
            )
            &&& before.over is None && keep >= 100_000 && before.rows@.len() >= keep ==> after.over
                == Some(d1_result::D1Over::Rows)
            &&& before.over is None && 0 < keep < 100_000 && before.rows@.len() >= keep ==> after.over
                is None
        }),
{
}

/// What is told of a statement: one that only reads changed nothing and made no row; any other
/// the rows that it wrote, its last row and its changes. The database changed where rows were
/// written or the schema is another.
pub proof fn law_statement_meta(run: D1Prepared, after: D1After)
    ensures
        ({
            let meta = meta_of(run, after);
            let written = if after.changes_now < run.changes_before {
                0
            } else {
                after.changes_now - run.changes_before
            };
            &&& meta.rows_written == written
            &&& meta.size_after == after.database_size
            &&& meta.rows_read == d1_result::rows_read(
                after.full_scan_steps,
                run.stepped.rows_read,
            )
            &&& after.readonly ==> meta.last_row_id == 0 && meta.changes == 0 && !meta.changed_db
            &&& !after.readonly ==> meta.last_row_id == after.last_insert_rowid && meta.changes
                == after.changes && (meta.changed_db <==> written > 0 || after.schema_now
                != run.schema_before)
        }),
{
    d1_result::law_rows_read(after.full_scan_steps, run.stepped.rows_read);
}

/// The names of the families of failures, and what failing with one means.
pub proof fn law_families(failure: D1Failure, family: D1Family, message: Seq<char>)
    ensures
        D1Family::Error.text() == "D1_ERROR"@,
        D1Family::TypeError.text() == "D1_TYPE_ERROR"@,
        D1Family::ExecError.text() == "D1_EXEC_ERROR"@,
        fails_with(failure, family, message) <==> failure.family == family && failure.message@
            == message,
{
}

/// A refusal carries its text, and the statement that has to be finalized for it; a statement
/// that has not run holds no row and has read none.
pub proof fn law_refusals(step: D1Step, text: Seq<char>, release: Option<u64>, stepped: D1Stepped)
    ensures
        refuses(step, text, release) <==> (step matches D1Step::Refuse { message, finalize }
            && message@ == text && finalize == release),
        nothing_stepped(stepped) <==> stepped.rows@.len() == 0 && stepped.rows_read == 0
            && stepped.over is None,
{
}

} // verus!
