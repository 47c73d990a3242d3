//! Which D1 requests are admitted, and the statements of the transaction around
//! those that take one.
//!
//! A batch, an exec and a migration run in a transaction of their own: a
//! failure rolls the whole request back, and a transaction that can be neither
//! committed nor rolled back poisons its cell.

use vstd::prelude::*;

use crate::storage::cells;
use crate::storage::cells::Cells;
use crate::storage::d1;
use crate::storage::d1::D1Failure;
use crate::storage::d1::D1Family;
use crate::storage::d1::SQLITE_FULL;
use crate::storage::d1::SQLITE_INTERRUPT;
use crate::storage::d1::SQLITE_IOERR;
use crate::storage::d1::SQLITE_NOMEM;
use crate::storage::d1_request;
use crate::storage::d1_request::D1RequestRun;
use crate::storage::sql_source;
use crate::storage::values::Json;
use crate::text;

verus! {

/// One statement of a batch.
pub struct D1PreparedRequest {
    pub sql: String,
    pub params: Vec<Json>,
}

/// One D1 request.
pub enum D1Request {
    /// One statement with positional binds; `first` keeps one row.
    Prepared { sql: String, params: Vec<Json>, first: bool },
    /// Prepared statements in one transaction.
    Batch { statements: Vec<D1PreparedRequest> },
    /// Several statements in one transaction; `rows` keeps their results.
    Exec { sql: String, rows: bool },
    /// One migration file and its bookkeeping row, in one transaction.
    Migrate { name: String, sql: String, table: String },
}

/// An ASCII letter or an underscore.
pub open spec fn identifier_start(c: char) -> bool {
    'a' <= c <= 'z' || 'A' <= c <= 'Z' || c == '_'
}

/// A character that a plain identifier holds behind its first one.
pub open spec fn identifier_char(c: char) -> bool {
    identifier_start(c) || '0' <= c <= '9'
}

/// Whether a name is a plain SQL identifier.
pub open spec fn plain_identifier(name: Seq<char>) -> bool {
    &&& name.len() > 0
    &&& identifier_start(name[0])
    &&& forall|i: int| 1 <= i < name.len() ==> identifier_char(#[trigger] name[i])
}

/// Whether a name is a plain SQL identifier.
pub fn d1_plain_identifier(name: &str) -> (answer: bool)
    ensures
        answer == plain_identifier(name@),
{
    let chars = text::chars_of(name);
    if chars.len() == 0 {
        return false;
    }
    let first: char = chars[0];
    if !(('a' <= first && first <= 'z') || ('A' <= first && first <= 'Z') || first == '_') {
        return false;
    }
    let mut i: usize = 1;
    while i < chars.len()
        invariant
            1 <= i <= chars@.len(),
            chars@ == name@,
            forall|j: int| 1 <= j < i ==> identifier_char(#[trigger] chars@[j]),
        decreases chars@.len() - i,
    {
        let c: char = chars[i];
        if !(('a' <= c && c <= 'z') || ('A' <= c && c <= 'Z') || c == '_' || ('0' <= c && c
            <= '9')) {
            assert(!identifier_char(chars@[i as int]));
            return false;
        }
        i = i + 1;
    }
    true
}

/// A plain identifier can stand between double quotes as it is.
pub proof fn law_plain_identifier_needs_no_quoting(name: Seq<char>)
    requires
        plain_identifier(name),
    ensures
        !name.contains('"'),
{
    if name.contains('"') {
        let i = choose|i: int| 0 <= i < name.len() && name[i] == '"';
        if i > 0 {
            assert(identifier_char(name[i]));
        }
    }
}

/// The family of a request's own refusals.
pub open spec fn family_of(request: D1Request) -> D1Family {
    match request {
        D1Request::Exec { .. } => D1Family::ExecError,
        _ => D1Family::Error,
    }
}

/// The refusal of a request that takes a transaction of its own while one is
/// open.
pub open spec fn inside_transaction(request: D1Request) -> Option<Seq<char>> {
    match request {
        D1Request::Prepared { .. } => None,
        D1Request::Batch { .. } => Some("batch cannot start inside an open transaction"@),
        D1Request::Exec { .. } => Some("exec cannot start inside an open transaction"@),
        D1Request::Migrate { .. } => Some("a migration cannot start inside an open transaction"@),
    }
}

/// The refusal of text with a NUL in it.
pub open spec fn invalid_text(sql: Seq<char>) -> Option<Seq<char>> {
    match sql_source::nul_refusal(sql) {
        Some(error) => Some("invalid SQL text: "@ + error),
        None => None,
    }
}

/// The refusal of an exec's or a migration's text.
pub open spec fn text_refusal(request: D1Request) -> Option<Seq<char>> {
    match request {
        D1Request::Exec { sql, .. } => invalid_text(sql@),
        D1Request::Migrate { sql, .. } => invalid_text(sql@),
        _ => None,
    }
}

/// Admit the text of one statement.
pub fn d1_statement_text(sql: &str) -> (result: Result<(), D1Failure>)
    ensures
        match result {
            Ok(()) => invalid_text(sql@) is None,
            Err(failure) => failure.family == D1Family::Error && invalid_text(sql@) == Some(
                failure.message@,
            ),
        },
{
    match sql_source::without_nul(sql) {
        Ok(()) => Ok(()),
        Err(error) => Err(d1::d1_error(&text::concat("invalid SQL text: ", error.as_str()))),
    }
}

/// The refusal of a request, and its family. `connection` says whether the cell
/// has an open connection, and whether that is in autocommit. A poisoned cell
/// refuses first, then a bookkeeping table that is no plain identifier, then text
/// with a NUL in it, then a cell without a connection, then an open transaction. The
/// statements of a prepared request and of a batch are looked at when each runs.
pub open spec fn d1_refusal(
    state: Cells,
    scope: Seq<char>,
    request: D1Request,
    connection: Option<bool>,
) -> Option<(D1Family, Seq<char>)> {
    let unhealthy = cells::critical_text(state, scope);
    if unhealthy is Some {
        Some((D1Family::Error, unhealthy->0))
    } else if request is Migrate && !plain_identifier(request->table@) {
        Some(
            (
                D1Family::Error,
                "migrations_table "@ + text::debug_text(request->table@)
                    + " is not a plain identifier"@,
            ),
        )
    } else if text_refusal(request) is Some {
        Some((family_of(request), text_refusal(request)->0))
    } else if connection is None {
        Some((family_of(request), "no db for "@ + scope))
    } else if inside_transaction(request) is Some && !(connection->0) {
        Some((family_of(request), inside_transaction(request)->0))
    } else {
        None
    }
}

/// The family of a request's own refusals.
pub fn d1_family(request: &D1Request) -> (family: D1Family)
    ensures
        family == family_of(*request),
{
    match request {
        D1Request::Exec { .. } => D1Family::ExecError,
        _ => D1Family::Error,
    }
}

/// Admit a request: its run, of which nothing has happened yet, or its refusal.
pub fn d1_run(state: &Cells, scope: &str, request: &D1Request, connection: Option<bool>) -> (result:
    Result<D1RequestRun, D1Failure>)
    requires
        state.wf(),
    ensures
        match result {
            Ok(run) => {
                &&& d1_refusal(*state, scope@, *request, connection) is None
                &&& run == d1_request::started(*request)
            },
            Err(failure) => d1_refusal(*state, scope@, *request, connection) == Some(
                (failure.family, failure.message@),
            ),
        },
{
    match cells::require_sql_healthy(state, scope) {
        Err(error) => {
            return Err(d1::d1_error(&error));
        },
        Ok(()) => {},
    }
    match request {
        D1Request::Migrate { table, .. } => {
            if !d1_plain_identifier(table) {
                let shown = text::debug_quoted(table);
                return Err(
                    d1::d1_error(
                        &text::concat3("migrations_table ", &shown, " is not a plain identifier"),
                    ),
                );
            }
        },
        _ => {},
    }
    let family = d1_family(request);
    let checked = match request {
        D1Request::Exec { sql, .. } => sql_source::without_nul(sql.as_str()),
        D1Request::Migrate { sql, .. } => sql_source::without_nul(sql.as_str()),
        _ => Ok(()),
    };
    match checked {
        Err(error) => {
            return Err(
                D1Failure { family, message: text::concat("invalid SQL text: ", error.as_str()) },
            );
        },
        Ok(()) => {},
    }
    let autocommit = match connection {
        None => {
            return Err(D1Failure { family, message: text::concat("no db for ", scope) });
        },
        Some(autocommit) => autocommit,
    };
    let refused: &'static str = match request {
        D1Request::Prepared { .. } => {
            return Ok(D1RequestRun::new(request));
        },
        D1Request::Batch { .. } => "batch cannot start inside an open transaction",
        D1Request::Exec { .. } => "exec cannot start inside an open transaction",
        D1Request::Migrate { .. } => "a migration cannot start inside an open transaction",
    };
    if !autocommit {
        return Err(D1Failure { family, message: refused.to_owned() });
    }
    Ok(D1RequestRun::new(request))
}

/// The text that creates a migration's bookkeeping table.
pub fn d1_migrations_table_sql(table: &str) -> (sql: String)
    requires
        plain_identifier(table@),
    ensures
        sql@ == "CREATE TABLE IF NOT EXISTS \""@ + table@
            + "\" (id INTEGER PRIMARY KEY AUTOINCREMENT, name TEXT UNIQUE, applied_at DATETIME NOT NULL DEFAULT CURRENT_TIMESTAMP)"@,
{
    text::concat3(
        "CREATE TABLE IF NOT EXISTS \"",
        table,
        "\" (id INTEGER PRIMARY KEY AUTOINCREMENT, name TEXT UNIQUE, applied_at DATETIME NOT NULL DEFAULT CURRENT_TIMESTAMP)",
    )
}

/// The text that enters a migration, its name a bound value.
pub fn d1_migrations_insert_sql(table: &str) -> (sql: String)
    requires
        plain_identifier(table@),
    ensures
        sql@ == "INSERT INTO \""@ + table@ + "\" (name) VALUES (?)"@,
{
    text::concat3("INSERT INTO \"", table, "\" (name) VALUES (?)")
}

/// A statement of the transaction around a request.
#[derive(PartialEq, Eq, Structural, Clone, Copy)]
pub enum D1TransactionOperation {
    Begin,
    Commit,
    Rollback,
}

impl D1TransactionOperation {
    pub open spec fn text(self) -> Seq<char> {
        match self {
            D1TransactionOperation::Begin => "BEGIN IMMEDIATE"@,
            D1TransactionOperation::Commit => "COMMIT"@,
            D1TransactionOperation::Rollback => "ROLLBACK"@,
        }
    }

    /// The SQL of the statement.
    pub fn sql(self) -> (sql: &'static str)
        ensures
            sql@ == self.text(),
    {
        match self {
            D1TransactionOperation::Begin => "BEGIN IMMEDIATE",
            D1TransactionOperation::Commit => "COMMIT",
            D1TransactionOperation::Rollback => "ROLLBACK",
        }
    }
}

/// Whether a result code is one that can destroy a transaction.
pub open spec fn destroys_transaction(code: i32) -> bool {
    let primary = code & 0xff;
    primary == SQLITE_FULL || primary == SQLITE_IOERR || primary == SQLITE_NOMEM || primary
        == SQLITE_INTERRUPT
}

/// A transaction statement failed critically, with SQLite's message `detail`.
/// The request owns its transaction and cannot hand an open one back, so a code
/// that can destroy one poisons the cell even where SQLite is not in autocommit
/// again. `poisons` says whether the failure is classified as poisoning anyway.
pub fn d1_critical_transaction_failure(
    state: &mut Cells,
    scope: &str,
    code: i32,
    poisons: bool,
    detail: &str,
) -> (error: String)
    requires
        old(state).wf(),
    ensures
        final(state).wf(),
        error@ == "control D1 transaction: "@ + detail@,
        if poisons || destroys_transaction(code) {
            cells::poisoned_by(*old(state), *final(state), scope@, error@)
        } else {
            *final(state) == *old(state)
        },
{
    let error = text::concat("control D1 transaction: ", detail);
    cells::record_sqlite_operation_failure(state, scope, poisons, &error);
    let primary: i32 = code & 0xff;
    if primary == SQLITE_FULL || primary == SQLITE_IOERR || primary == SQLITE_NOMEM || primary
        == SQLITE_INTERRUPT {
        cells::poison_scope(state, scope, &error);
    }
    error
}

/// How a transaction statement failed.
pub struct D1ControlFailure {
    /// SQLite itself failed, and did so with `code`.
    pub sqlite: bool,
    pub code: i32,
    /// The failure's own message, and SQLite's message for the connection.
    pub message: String,
    pub detail: String,
    /// Whether the failure is classified as poisoning the cell.
    pub poisons: bool,
}

/// A transaction statement failed: the failure to report, and whether a
/// rollback is due because a commit left the transaction open. A failed begin
/// and a failure that is not SQLite's report their own message.
pub fn d1_transaction_control(
    state: &mut Cells,
    scope: &str,
    operation: D1TransactionOperation,
    family: D1Family,
    failed: D1ControlFailure,
    autocommit: bool,
) -> (answer: (D1Failure, bool))
    requires
        old(state).wf(),
    ensures
        final(state).wf(),
        answer.0.family == family,
        answer.1 == (operation == D1TransactionOperation::Commit && !autocommit),
        if operation == D1TransactionOperation::Begin || !failed.sqlite {
            &&& answer.0.message@ == failed.message@
            &&& *final(state) == *old(state)
        } else {
            &&& answer.0.message@ == "control D1 transaction: "@ + failed.detail@
            &&& if failed.poisons || destroys_transaction(failed.code) {
                cells::poisoned_by(*old(state), *final(state), scope@, answer.0.message@)
            } else {
                *final(state) == *old(state)
            }
        },
{
    let rollback = operation == D1TransactionOperation::Commit && !autocommit;
    let D1ControlFailure { sqlite, code, message, detail, poisons } = failed;
    let message = if operation == D1TransactionOperation::Begin || !sqlite {
        message
    } else {
        d1_critical_transaction_failure(state, scope, code, poisons, &detail)
    };
    (D1Failure { family, message }, rollback)
}

/// The rollback after a failed commit failed too: the cell is poisoned, because
/// its transaction can be neither kept nor dropped.
pub fn d1_rollback_after_commit_failed(state: &mut Cells, scope: &str, rollback: &str)
    requires
        old(state).wf(),
    ensures
        final(state).wf(),
        cells::poisoned_by(
            *old(state),
            *final(state),
            scope@,
            "failed to roll back after COMMIT failure: "@ + rollback@,
        ),
{
    let error = text::concat("failed to roll back after COMMIT failure: ", rollback);
    cells::poison_scope(state, scope, &error);
}

/// Whatever follows it, a cell whose transaction could be neither committed nor
/// rolled back runs no further request.
pub proof fn law_undecided_transaction_poisons(
    before: Cells,
    after: Cells,
    scope: Seq<char>,
    rollback: Seq<char>,
    request: D1Request,
    connection: Option<bool>,
)
    requires
        cells::poisoned_by(
            before,
            after,
            scope,
            "failed to roll back after COMMIT failure: "@ + rollback,
        ),
    ensures
        d1_refusal(after, scope, request, connection) is Some,
{
}

/// What a plain identifier is: an ASCII letter or an underscore, then letters, underscores and
/// digits.
pub proof fn law_plain_identifiers(name: Seq<char>, c: char)
    ensures
        !plain_identifier(Seq::<char>::empty()),
        plain_identifier(seq![c]) <==> {
            let code = c as int;
            0x61 <= code <= 0x7A || 0x41 <= code <= 0x5A || code == 0x5F
        },
        name.len() > 0 ==> (plain_identifier(name.push(c)) <==> plain_identifier(name) && {
            let code = c as int;
            0x61 <= code <= 0x7A || 0x41 <= code <= 0x5A || code == 0x5F || 0x30 <= code <= 0x39
        }),
{
    assert(seq![c][0] == c);
    if name.len() > 0 {
        let all = name.push(c);
        let n = name.len() as int;
        assert(all[0] == name[0]);
        assert(all[n] == c);
        if plain_identifier(all) {
            assert(identifier_char(all[n]));
            assert forall|i: int| 1 <= i < name.len() implies identifier_char(
                #[trigger] name[i],
            ) by {
                assert(all[i] == name[i]);
            }
        }
    }
}

/// When a request runs: its scope is healthy and open, its text holds no NUL, a migration's
/// table is a plain identifier, and where it needs a transaction of its own none is open.
pub proof fn law_request_runs(
    state: Cells,
    scope: Seq<char>,
    request: D1Request,
    connection: Option<bool>,
)
    ensures
        ({
            let clean = match request {
                D1Request::Exec { sql, .. } => !sql@.contains('\0'),
                D1Request::Migrate { sql, table, .. } => !sql@.contains('\0') && plain_identifier(
                    table@,
                ),
                _ => true,
            };
            let refusal = d1_refusal(state, scope, request, connection);
            &&& refusal is None <==> !state.sql_critical_errors@.dom().contains(scope) && clean
                && connection is Some && (request is Prepared || connection == Some(true))
            &&& state.sql_critical_errors@.dom().contains(scope) ==> refusal == Some(
                (D1Family::Error, state.sql_critical_errors@[scope]@),
            )
            &&& refusal matches Some(told) ==> !state.sql_critical_errors@.dom().contains(scope)
                ==> told.0 == D1Family::Error || (request is Exec && told.0 == D1Family::ExecError)
            &&& !state.sql_critical_errors@.dom().contains(scope) && clean && connection is None
                ==> refusal == Some(
                (
                    if request is Exec {
                        D1Family::ExecError
                    } else {
                        D1Family::Error
                    },
                    "no db for "@ + scope,
                ),
            )
        }),
{
    match request {
        D1Request::Exec { sql, .. } => {
            sql@.index_of_first_ensures('\0');
        },
        D1Request::Migrate { sql, .. } => {
            sql@.index_of_first_ensures('\0');
        },
        _ => {},
    }
}

/// Which codes end a transaction: those of a full disk, a failed input or output, no memory and
/// an interrupt, whatever their extension.
pub proof fn law_codes_that_end_a_transaction(primary: i32, extension: i32)
    requires
        0 <= primary < 256,
        0 <= extension < 0x80_0000,
    ensures
        destroys_transaction((extension * 256 + primary) as i32) <==> primary == 13 || primary == 10
            || primary == 7 || primary == 9,
{
    assert(extension * 256 + primary <= i32::MAX);
    let code = (extension * 256 + primary) as i32;
    assert(code & 0xff == primary) by (bit_vector)
        requires
            0 <= primary < 256,
            0 <= extension < 0x80_0000,
            code == extension * 256 + primary,
    ;
}

/// The SQL of each operation on a transaction, and what each request is told inside one.
pub proof fn law_transaction_texts(request: D1Request)
    ensures
        D1TransactionOperation::Begin.text() == "BEGIN IMMEDIATE"@,
        D1TransactionOperation::Commit.text() == "COMMIT"@,
        D1TransactionOperation::Rollback.text() == "ROLLBACK"@,
        inside_transaction(request) is None <==> request is Prepared,
        family_of(request) == if request is Exec {
            D1Family::ExecError
        } else {
            D1Family::Error
        },
{
}

/// Text with a NUL is invalid, and is told where the NUL stands.
pub proof fn law_invalid_text(sql: Seq<char>)
    ensures
        invalid_text(sql) is Some <==> sql.contains('\0'),
        invalid_text(sql) is Some ==> invalid_text(sql) == Some(
            "invalid SQL text: "@ + sql_source::nul_refusal(sql)->0,
        ),
{
    sql.index_of_first_ensures('\0');
}

} // verus!
