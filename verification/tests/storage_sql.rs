use celld_storage::storage::authorizer::{
    allowed_sql_pragma, authorize_sql, is_reserved_sql_name, valid_sql_boolean, valid_sql_i32,
    Authorization, SqlAction,
};
use celld_storage::storage::cells::{
    poison_scope, record_sqlite_operation_failure, require_sql_healthy, sql_critical_error, Cells,
};
use celld_storage::storage::ingest::{sql_ingest, IngestPrepared, IngestStep, INVALID_TAIL};
use celld_storage::storage::lifecycle::{finish_open, open};
use celld_storage::storage::sql_cursor::{
    close_sql_cursors, close_sql_statement_cache, cursor_failed, retire_cursor, sql_cursor_close,
    sql_cursor_next, sql_cursor_ready, sql_cursor_start_values, tail_goes_on, CursorFailure,
    CursorNext, CursorStep, Prepared, Retired, SqlCursors, CURSOR_GONE, INVALID_UTF8_TEXT,
    NO_STATEMENT, SQLITE_DONE, SQLITE_OK, SQLITE_ROW, WRONG_BINDINGS,
};
use celld_storage::storage::sql_exec::{
    database_size, sql_database_size, sql_exec, sql_executed, sql_write_meta, ExecPlan,
};
use celld_storage::storage::statement_cache::{
    SqlStatementCache, SqlStatementCacheLookup, SQL_STATEMENT_CACHE_MAX_SIZE,
};
use celld_storage::storage::values::{
    json_to_sql, sql_cursor_row, sql_text, stored_value, vref_to_json, Column, Json, JsonNumber,
    SqlValue, StoredValue, BYTES_MEMBER,
};

fn open_cell(scope: &str) -> Cells {
    let mut state = Cells::new();
    let opening = open(scope, "/d/a.db").ok().unwrap();
    finish_open(&mut state, scope, opening, 0);
    state
}

fn prepared(statement: u64, parameters: usize, tail: &[u8]) -> Prepared<'_> {
    Prepared {
        code: SQLITE_OK,
        statement: Some(statement),
        tail,
        parameters,
    }
}

fn start_row(state: &Cells, all: &mut SqlCursors, query: &str, statement: u64) -> u64 {
    let mut start = sql_cursor_start_values(state, all, "s", query, 0, 0).ok().unwrap();
    match start.statement {
        Some(_) => {
            assert!(matches!(start.reused(&mut all.caches, 0), CursorStep::Bind { .. }));
        }
        None => {
            start.prepared(prepared(statement, 0, b""));
        }
    }
    start.bound(&mut all.caches, true);
    match start.stepped(all, 1000 + statement, SQLITE_ROW, true, 0) {
        CursorStep::Row { cursor } => cursor,
        _ => panic!("a row"),
    }
}

#[test]
fn the_first_critical_error_stays() {
    let mut state = open_cell("s");
    assert_eq!(sql_critical_error(&state, "s"), None);
    record_sqlite_operation_failure(&mut state, "s", false, "soft");
    assert!(require_sql_healthy(&state, "s").is_ok());
    poison_scope(&mut state, "s", "first");
    poison_scope(&mut state, "s", "second");
    assert_eq!(sql_critical_error(&state, "s").as_deref(), Some("first"));
    assert_eq!(require_sql_healthy(&state, "s"), Err("first".to_string()));
    assert!(require_sql_healthy(&state, "t").is_ok());
}

#[test]
fn sql_text_is_admitted() {
    let mut state = open_cell("s");
    let mut all = SqlCursors::new();
    assert_eq!(
        sql_cursor_start_values(&state, &mut all, "t", "SELECT 1", 0, 0).err().as_deref(),
        Some("no db for t")
    );
    assert_eq!(
        sql_cursor_start_values(&state, &mut all, "s", "é\0", 0, 0).err().as_deref(),
        Some("nul byte found in provided data at position: 2")
    );
    assert_eq!(
        sql_ingest(&state, "s", "\0", 0).err().as_deref(),
        Some("nul byte found in provided data at position: 0")
    );
    poison_scope(&mut state, "s", "bad");
    assert_eq!(
        sql_cursor_start_values(&state, &mut all, "s", "\0", 0, 0).err().as_deref(),
        Some("bad")
    );
}

#[test]
fn a_cursor_runs_and_its_statement_is_reused() {
    let state = open_cell("s");
    let mut all = SqlCursors::new();
    let id = start_row(&state, &mut all, "SELECT 1", 11);
    assert_eq!(id, 1011);
    let ready = sql_cursor_ready(&state, &mut all, id);
    assert_eq!(ready.0, Ok(11));
    let busy = sql_cursor_start_values(&state, &mut all, "s", "SELECT 1", 0, 0).ok().unwrap();
    assert!(busy.cache_busy);
    assert!(busy.statement.is_none());
    let (next, closed) = sql_cursor_next(&mut all, id, SQLITE_DONE, true, 5);
    assert!(matches!(next, CursorNext::Done { rows_written: 5 }));
    assert!(matches!(
        retire_cursor(&mut all.caches, closed.unwrap(), true),
        Retired::Cached
    ));
    assert_eq!(
        sql_cursor_ready(&state, &mut all, id).0,
        Err(CURSOR_GONE.to_string())
    );
    let again = sql_cursor_start_values(&state, &mut all, "s", "SELECT 1", 0, 0).ok().unwrap();
    assert_eq!(again.statement, Some(11));
    assert!(again.reused);
}

#[test]
fn a_text_of_several_statements_runs_its_prefix_first() {
    let state = open_cell("s");
    let mut all = SqlCursors::new();
    assert!(tail_goes_on(b" x"));
    assert!(!tail_goes_on(b" \n\t"));
    let mut start =
        sql_cursor_start_values(&state, &mut all, "s", "A; B", 1, 0).ok().unwrap();
    assert!(matches!(
        start.prepared(prepared(1, 0, b" B")),
        CursorStep::Drain { statement: 1 }
    ));
    assert!(matches!(start.drained(SQLITE_DONE), CursorStep::Prepare));
    assert!(matches!(
        start.prepared(prepared(2, 1, b"")),
        CursorStep::Bind { statement: 2 }
    ));
    let (step, released) = start.bound(&mut all.caches, true);
    assert!(matches!(step, CursorStep::Step { statement: 2 }));
    assert!(released.is_empty());
    assert!(!start.in_cache);
    assert!(matches!(
        start.stepped(&mut all, 0, SQLITE_DONE, true, 3),
        CursorStep::Complete { rows_written: 3, statement: 2 }
    ));
    assert!(matches!(
        start.retire(&mut all.caches, true),
        Retired::Finalize { released: None }
    ));
}

#[test]
fn a_cursor_that_does_not_start_gives_its_statement_up() {
    let state = open_cell("s");
    let mut all = SqlCursors::new();
    let mut start = sql_cursor_start_values(&state, &mut all, "s", "Q", 0, 0).ok().unwrap();
    let failed = Prepared {
        code: 1,
        statement: None,
        tail: b"",
        parameters: 0,
    };
    assert!(matches!(
        start.prepared(failed),
        CursorStep::Fail {
            failure: CursorFailure::Sqlite { operation: "prepare SQL cursor", code: 1 },
            finalize: None,
            released: None,
        }
    ));
    let empty = Prepared {
        code: SQLITE_OK,
        statement: None,
        tail: b"",
        parameters: 0,
    };
    assert!(matches!(
        start.prepared(empty),
        CursorStep::Fail { failure: CursorFailure::Refused { message: NO_STATEMENT }, .. }
    ));
    assert!(matches!(
        start.prepared(prepared(4, 2, b"")),
        CursorStep::Fail {
            failure: CursorFailure::Refused { message: WRONG_BINDINGS },
            finalize: Some(4),
            ..
        }
    ));
    start.prepared(prepared(5, 0, b""));
    start.bound(&mut all.caches, true);
    assert!(start.in_cache);
    assert!(matches!(
        start.stepped(&mut all, 0, SQLITE_ROW, false, 0),
        CursorStep::Fail {
            failure: CursorFailure::Refused { message: INVALID_UTF8_TEXT },
            finalize: Some(5),
            ..
        }
    ));
    let next = sql_cursor_start_values(&state, &mut all, "s", "Q", 0, 0).ok().unwrap();
    assert!(!next.cache_busy);
    assert!(next.statement.is_none());
}

#[test]
fn a_failed_step_drops_the_cached_statement() {
    let state = open_cell("s");
    let mut all = SqlCursors::new();
    let id = start_row(&state, &mut all, "Q", 7);
    let (next, closed) = sql_cursor_next(&mut all, id, 19, true, 0);
    assert!(matches!(
        next,
        CursorNext::Fail {
            failure: CursorFailure::Sqlite { operation: "step SQL cursor", code: 19 },
            released: None,
        }
    ));
    let closed = closed.unwrap();
    assert_eq!(closed.cache_query, None);
    assert_eq!(closed.statement, 7);
}

#[test]
fn a_poisoned_scope_closes_its_cursors_one_by_one() {
    let mut state = open_cell("s");
    let mut all = SqlCursors::new();
    let id = start_row(&state, &mut all, "Q", 7);
    poison_scope(&mut state, "s", "lost");
    let (answer, closed) = sql_cursor_ready(&state, &mut all, id);
    assert_eq!(answer, Err("lost".to_string()));
    assert_eq!(closed.unwrap().statement, 7);
    assert!(sql_cursor_close(&mut all, id).is_none());
}

#[test]
fn closing_a_scope_hands_its_statements_out() {
    let state = open_cell("s");
    let mut all = SqlCursors::new();
    let first = start_row(&state, &mut all, "A", 1);
    start_row(&state, &mut all, "B", 2);
    let (_, closed) = sql_cursor_next(&mut all, first, SQLITE_DONE, true, 0);
    retire_cursor(&mut all.caches, closed.unwrap(), true);
    assert!(close_sql_cursors(&mut all, "t").is_empty());
    let closed = close_sql_cursors(&mut all, "s");
    assert_eq!(closed.len(), 1);
    assert_eq!(closed[0].1.statement, 2);
    assert_eq!(
        close_sql_statement_cache(&mut all, "s"),
        [("A".to_string(), 1)]
    );
    assert!(close_sql_statement_cache(&mut all, "s").is_empty());
}

#[test]
fn a_cache_evicts_the_oldest_text() {
    let mut cache = SqlStatementCache::new();
    let long = "x".repeat(SQL_STATEMENT_CACHE_MAX_SIZE - 1);
    assert!(cache.is_empty());
    assert!(matches!(cache.take("a"), SqlStatementCacheLookup::Miss));
    assert_eq!(cache.register("a"), (true, Vec::new()));
    assert!(matches!(cache.take("a"), SqlStatementCacheLookup::Busy));
    assert!(cache.give_back("a", 9));
    assert!(!cache.give_back("a", 10));
    assert_eq!(cache.register("b"), (true, Vec::new()));
    let (stayed, released) = cache.register(&long);
    assert!(stayed);
    assert_eq!(released, [("a".to_string(), 9)]);
    assert!(matches!(cache.take("a"), SqlStatementCacheLookup::Miss));
    assert!(matches!(cache.take("b"), SqlStatementCacheLookup::Busy));
    let too_long = "y".repeat(SQL_STATEMENT_CACHE_MAX_SIZE + 1);
    assert!(!cache.register(&too_long).0);
    assert_eq!(cache.discard("none"), None);
    assert!(cache.close().is_empty());
}

#[test]
fn statements_are_ingested_up_to_the_first_incomplete_one() {
    let state = open_cell("s");
    let mut run = sql_ingest(&state, "s", "A; B; C", 10).ok().unwrap();
    let step = run.prepared(
        IngestPrepared {
            code: SQLITE_OK,
            statement: Some(1),
            tail: Some(2),
            source_complete: false,
            consumed_complete: true,
        },
        10,
    );
    assert!(matches!(step, IngestStep::Drain { statement: 1 }));
    assert!(matches!(run.drained(1, SQLITE_DONE), IngestStep::Prepare));
    let step = run.prepared(
        IngestPrepared {
            code: SQLITE_OK,
            statement: Some(2),
            tail: Some(7),
            source_complete: false,
            consumed_complete: false,
        },
        13,
    );
    match step {
        IngestStep::Finish {
            rest,
            rows_written,
            statements,
            finalize,
        } => {
            assert_eq!(rest, " B; C");
            assert_eq!((rows_written, statements, finalize), (3, 1, Some(2)));
        }
        _ => panic!("finish"),
    }
}

#[test]
fn a_tail_inside_a_character_is_refused() {
    let state = open_cell("s");
    let mut run = sql_ingest(&state, "s", "é;", 0).ok().unwrap();
    let step = run.prepared(
        IngestPrepared {
            code: SQLITE_OK,
            statement: Some(1),
            tail: Some(1),
            source_complete: true,
            consumed_complete: true,
        },
        0,
    );
    assert!(matches!(step, IngestStep::Drain { statement: 1 }));
    assert!(matches!(
        run.drained(1, SQLITE_DONE),
        IngestStep::Fail { failure: CursorFailure::Refused { message: INVALID_TAIL }, .. }
    ));
}

#[test]
fn text_with_several_statements_and_no_binds_is_a_batch() {
    let state = open_cell("s");
    // "A; B", "A; B;" and "A;", by what stands behind the first statement.
    assert_eq!(sql_exec(&state, "s", 0, b" B"), Ok(ExecPlan::Batch));
    assert_eq!(sql_exec(&state, "s", 0, b" B;"), Ok(ExecPlan::Batch));
    assert_eq!(sql_exec(&state, "s", 1, b" B;"), Ok(ExecPlan::Statement));
    assert_eq!(sql_exec(&state, "s", 0, b" \n"), Ok(ExecPlan::Statement));
    // A query with semicolons inside its strings leaves nothing behind it.
    assert_eq!(sql_exec(&state, "s", 0, b""), Ok(ExecPlan::Statement));
    assert_eq!(sql_exec(&state, "t", 0, b" B"), Err("no db for t".to_string()));
    let exec = sql_executed(
        vec!["a".to_string()],
        vec![vec![Column::Integer(4)], vec![Column::Null]],
        7,
        9,
    )
    .ok()
    .unwrap();
    assert_eq!(exec.rows_written, 2);
    assert!(matches!(exec.rows[0][0], Json::Number(JsonNumber::Integer(4))));
    assert!(matches!(exec.rows[1][0], Json::Null));
    assert_eq!(
        sql_executed(Vec::new(), vec![vec![Column::Text(vec![0xff])]], 0, 0).err(),
        Some(INVALID_UTF8_TEXT)
    );
}

#[test]
fn a_connection_says_what_it_wrote() {
    let mut state = open_cell("s");
    assert_eq!(sql_write_meta(&state, "s", 5, 2), Ok((5, 2)));
    assert_eq!(database_size(10, 3, 4096), 7 * 4096);
    assert_eq!(sql_database_size(&state, "s", 10, 3, 512), Ok(7 * 512));
    assert!(sql_write_meta(&state, "t", 0, 0).is_err());
    poison_scope(&mut state, "s", "x");
    assert_eq!(sql_database_size(&state, "s", 1, 0, 1), Err("x".to_string()));
    assert_eq!(sql_write_meta(&state, "s", 5, 2), Err("x".to_string()));
}

#[test]
fn values_cross_between_json_and_sql() {
    assert!(matches!(json_to_sql(&Json::Bool(true)), SqlValue::Integer(1)));
    assert!(matches!(json_to_sql(&Json::Null), SqlValue::Null));
    let bytes = Json::Object(vec![(
        BYTES_MEMBER.to_string(),
        Json::Array(vec![
            Json::Number(JsonNumber::Integer(1)),
            Json::Number(JsonNumber::Integer(300)),
            Json::Text("x".to_string()),
        ]),
    )]);
    assert!(matches!(json_to_sql(&bytes), SqlValue::Blob(b) if b == [1, 44]));
    let blob = vref_to_json(Column::Blob(vec![7])).ok().unwrap();
    assert!(matches!(json_to_sql(&blob), SqlValue::Blob(b) if b == [7]));
    let nan = vref_to_json(Column::Real(f64::NAN.to_bits())).ok().unwrap();
    assert!(matches!(nan, Json::Null));
    assert_eq!(sql_text(vec![0xc3, 0xa9]), Ok("é".to_string()));
    assert_eq!(sql_text(vec![0xc3]), Err(INVALID_UTF8_TEXT));
    let row = sql_cursor_row(vec![Column::Text(b"a".to_vec()), Column::Integer(2)]);
    assert_eq!(row.ok().unwrap().len(), 2);
    assert!(sql_cursor_row(vec![Column::Text(vec![0xff])]).is_err());
}

#[test]
fn a_stored_value_is_v8_or_json() {
    assert!(matches!(
        stored_value(Column::Blob(vec![1]), ""),
        StoredValue::V8(b) if b == [1]
    ));
    let texts = [
        (Column::Text(vec![b'a', 0xff]), "a\u{fffd}"),
        (Column::Null, "null"),
        (Column::Integer(-3), "-3"),
        (Column::Real(1.5f64.to_bits()), "1.5"),
    ];
    for (column, text) in texts {
        match stored_value(column, "1.5") {
            StoredValue::LegacyJson(s) => assert_eq!(s, text),
            _ => panic!("text"),
        }
    }
}

#[test]
fn reserved_names_are_out_of_reach() {
    assert!(is_reserved_sql_name(true, "_CF_kv"));
    assert!(!is_reserved_sql_name(false, "_cf_KV"));
    let create = SqlAction::CreateTable { table_name: "_cf_x" };
    assert!(matches!(authorize_sql(true, &create, None, None), Authorization::Deny));
    let mine = SqlAction::CreateTable { table_name: "t" };
    assert!(matches!(authorize_sql(true, &mine, None, None), Authorization::Allow));
    assert!(matches!(authorize_sql(true, &SqlAction::Attach, None, None), Authorization::Deny));
    assert!(matches!(authorize_sql(false, &SqlAction::Attach, None, None), Authorization::Deny));
    assert!(matches!(authorize_sql(true, &SqlAction::Transaction, None, None), Authorization::Deny));
    assert!(matches!(authorize_sql(true, &SqlAction::Select, None, None), Authorization::Allow));
}

#[test]
fn pragmas_are_allowed_by_name_and_value() {
    for value in ["on", "OFF", "yes", "0", "true"] {
        assert!(valid_sql_boolean(value));
    }
    assert!(!valid_sql_boolean("maybe"));
    assert!(valid_sql_i32("-2147483648"));
    assert!(!valid_sql_i32("2147483648"));
    assert!(!allowed_sql_pragma(true, "journal_mode", Some("delete")));
}

#[test]
fn a_failed_cursor_poisons_where_sqlite_failed() {
    let mut state = open_cell("s");
    let refused = CursorFailure::Refused { message: "no" };
    assert_eq!(cursor_failed(&mut state, "s", refused, true, "d"), "no");
    assert_eq!(
        cursor_failed(&mut state, "s", CursorFailure::Unbound, true, "d"),
        "bind sync KV cursor: d"
    );
    let step = || CursorFailure::Sqlite {
        operation: "step SQL cursor",
        code: 13,
    };
    assert_eq!(cursor_failed(&mut state, "s", step(), false, "d"), "step SQL cursor: d");
    assert_eq!(sql_critical_error(&state, "s"), None);
    cursor_failed(&mut state, "s", step(), true, "d");
    assert_eq!(sql_critical_error(&state, "s").as_deref(), Some("step SQL cursor: d"));
}
