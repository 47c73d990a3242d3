use celld_storage::storage::alarms::{
    active_alarm_scheduled_time, begin_alarm_handler, bump_alarm_with_policy, delete_alarm,
    due_alarm_entry, finish_alarm_handler, finish_alarm_handler_with_retry_policy, get_alarm,
    persisted_alarm, publish_alarm_if_transaction_dirty, set_alarm, take_alarm_moves, AlarmBump,
    AlarmEnd, AlarmRead, AlarmRow,
};
use celld_storage::storage::cells::{poison_scope, AlarmSnapshot, Cells, StorageBacking};
use celld_storage::storage::d1::{
    d1_bind_failure, d1_bind_values, d1_error, d1_exec_error, d1_sqlite_failure, d1_tail_has_statement, D1After, D1Exec, D1ExecPrepared, D1Family,
    D1Prepared, D1StatementPrepared, D1Step, NO_D1_STATEMENT, ONE_STATEMENT,
};
use celld_storage::storage::d1_request::{D1Action, D1Event, D1RequestRun, D1Stage, D1Work};
use celld_storage::storage::d1_result::{
    d1_bind_value, d1_json_string_len, d1_row, d1_rows_read, BadBind, D1Over, D1RowValueError,
    D1Stepped, D1_MAX_RESULT_BYTES, D1_MAX_ROWS,
};
use celld_storage::storage::d1_run::{
    d1_family, d1_migrations_insert_sql, d1_plain_identifier, d1_rollback_after_commit_failed,
    d1_run, d1_statement_text, d1_transaction_control, D1ControlFailure, D1PreparedRequest,
    D1Request, D1TransactionOperation,
};
use celld_storage::storage::facets::{
    abandon_root_transaction, apply_deferred_facets, begin_root_transaction, defer_facet_image,
    delete_embedded, embedded_image, embedded_root_gate, finish_root_transaction, flush_done, flush_embedded,
    flush_failed, is_embedded, open_embedded, pending_facet_image, storage_identity,
    take_facet_restore, EmbeddedFlush, FlushStep, RootTransactions, TOO_DEEP,
};
use celld_storage::storage::kv::{
    batch_plan, batch_savepoint_sql, delete, delete_many, get, get_many, get_many_stored,
    get_stored, list, list_query, list_with_options, prefix_upper_bound, storage_write_admitted,
    storage_write_failed, wanted_keys, BatchPlan, NOT_LEGACY_JSON,
};
use celld_storage::storage::lifecycle::{
    activation_epoch, close, delete_all_with_alarm, finish_open, get_actor_name, open,
    open_at_epoch, renames_legacy_table, schema, set_actor_name, sql_limits, Opening, SqlLimit,
    ADD_COUNTED_RETRY, ADD_GENERATION, NO_EPOCH,
};
use celld_storage::storage::positions::{
    event_start_position, keep_schema_cookie, observed_position, schema_cookie, sync_sample,
    write_position, ConnectionRead,
};
use celld_storage::storage::sync_list::{
    close_sync_list_cursors, sync_list_next, sync_list_opened, sync_list_start,
    sync_list_statement, ListingOpened, ListingStep, SyncListCursors, LISTING_GONE,
};
use celld_storage::storage::transaction::{
    is_runtime_savepoint, parse_action, transaction_control, transaction_failed,
    transaction_settled, Action,
    ControlStep, BAD_ACTION, BAD_SAVEPOINT, CANNOT_COMMIT,
};
use celld_storage::storage::values::{Column, Json, JsonNumber, SqlValue, StoredValue};
use celld_storage::text_map::TextMap;

fn open_cell(scope: &str) -> Cells {
    let mut state = Cells::new();
    let opening = open(scope, "/d/a.db").ok().unwrap();
    finish_open(&mut state, scope, opening, 0);
    state
}

fn embedded(state: &mut Cells, scope: &str, position: u64) {
    let backing = StorageBacking::Embedded {
        root_path: "/d/a.db".to_string(),
        root_scope: "root".to_string(),
        facet_path: vec!["f".to_string()],
        root_position: 7,
        root_observed: None,
    };
    let opening = Opening { epoch: 1, replicated_wake: false, backing };
    finish_open(state, scope, opening, position);
}

fn row(at_ms: i64, generation: i64) -> Option<AlarmRow> {
    Some(AlarmRow { at_ms, generation })
}

fn read(autocommit: bool, at_ms: Option<i64>) -> Option<AlarmRead> {
    Some(AlarmRead {
        autocommit,
        at_ms,
        snapshot: Some(AlarmSnapshot {
            at_ms,
            wake_position: None,
        }),
    })
}

#[test]
fn an_alarm_is_hidden_while_its_handler_runs() {
    let mut state = open_cell("s");
    assert_eq!(get_alarm(&state, "s", row(5, 1)), Some(5));
    begin_alarm_handler(&mut state, "s", 5, row(5, 1));
    assert_eq!(active_alarm_scheduled_time(&state, "s"), Some(5));
    assert_eq!(get_alarm(&state, "s", row(5, 1)), None);
    assert_eq!(get_alarm(&state, "s", row(9, 2)), Some(9));
    // Set again to the same time, with a generation of its own.
    assert_eq!(get_alarm(&state, "s", row(5, 2)), Some(5));
    assert!(matches!(
        finish_alarm_handler(&mut state, "s", true, 10, row(5, 1)),
        AlarmEnd::Consume { at_ms: 5 }
    ));
    assert_eq!(active_alarm_scheduled_time(&state, "s"), None);
}

#[test]
fn an_alarm_that_the_handler_changed_wins() {
    let mut state = open_cell("s");
    begin_alarm_handler(&mut state, "s", 5, row(5, 1));
    assert!(matches!(
        finish_alarm_handler(&mut state, "s", true, 10, row(9, 2)),
        AlarmEnd::Keep
    ));
    begin_alarm_handler(&mut state, "s", 5, row(5, 1));
    assert!(matches!(
        finish_alarm_handler_with_retry_policy(&mut state, "s", false, 10, false, row(5, 1)),
        AlarmEnd::Retry { now_ms: 10, counts_against_limit: false }
    ));
    assert!(matches!(
        finish_alarm_handler(&mut state, "s", true, 10, row(5, 1)),
        AlarmEnd::Keep
    ));
    assert!(matches!(bump_alarm_with_policy(None, true), AlarmBump::Delete));
    assert!(matches!(
        bump_alarm_with_policy(Some(20), true),
        AlarmBump::Update { at_ms: 20, retry: 1, counted_retry: 1 }
    ));
    assert!(matches!(
        bump_alarm_with_policy(Some(20), false),
        AlarmBump::Update { at_ms: 20, retry: 1, counted_retry: 0 }
    ));
}

#[test]
fn an_alarm_is_published_once_it_is_committed() {
    let mut state = open_cell("s");
    assert_eq!(set_alarm(&mut state, "s", read(true, Some(4))), Some(4));
    let moves = take_alarm_moves(&mut state);
    assert_eq!(moves.len(), 1);
    assert_eq!(moves[0].0, "s");
    assert_eq!(moves[0].1.at_ms, Some(4));
    assert!(take_alarm_moves(&mut state).is_empty());
    set_alarm(&mut state, "s", read(false, Some(6)));
    assert!(take_alarm_moves(&mut state).is_empty());
    publish_alarm_if_transaction_dirty(&mut state, "s", read(true, Some(6)));
    assert_eq!(take_alarm_moves(&mut state)[0].1.at_ms, Some(6));
    delete_alarm(&mut state, "s", read(true, None));
    assert_eq!(take_alarm_moves(&mut state)[0].1.at_ms, None);
    assert_eq!(due_alarm_entry(Some((5, 2)), 5), Some((5, 2)));
    assert_eq!(due_alarm_entry(Some((6, 2)), 5), None);
    assert_eq!(
        persisted_alarm(Some((1, 2, 3, -1))),
        Some((1, 2, 3, u32::MAX))
    );
    assert_eq!(persisted_alarm(None), None);
}

#[test]
fn a_cell_opens_and_closes() {
    assert_eq!(open_at_epoch("s", "/p", 0, false).err(), Some(NO_EPOCH));
    assert_eq!(open_at_epoch("s", "/p", 7, true).ok().unwrap().epoch, 7);
    let mut state = open_cell("s");
    assert_eq!(activation_epoch(&state, "s"), Some(1));
    // A reopened cell starts afresh, at the first epoch.
    poison_scope(&mut state, "s", "x");
    finish_open(&mut state, "s", open_at_epoch("s", "/p", 7, true).ok().unwrap(), 3);
    assert_eq!(activation_epoch(&state, "s"), Some(7));
    assert!(storage_write_admitted(&state, "s").is_ok());
    finish_open(&mut state, "s", open("s", "/p").ok().unwrap(), 3);
    assert_eq!(activation_epoch(&state, "s"), Some(1));
    poison_scope(&mut state, "s", "x");
    close(&mut state, "s");
    assert_eq!(activation_epoch(&state, "s"), None);
    assert!(storage_write_admitted(&state, "s").is_err());
    assert!(renames_legacy_table(true, false));
    assert!(!renames_legacy_table(true, true));
    assert_eq!(schema(&vec!["at_ms".to_string()]), [ADD_GENERATION, ADD_COUNTED_RETRY]);
    assert_eq!(schema(&vec!["generation".to_string()]), [ADD_COUNTED_RETRY]);
    assert!(schema(&vec!["counted_retry".to_string(), "generation".to_string()]).is_empty());
}

#[test]
fn delete_all_keeps_identity_and_replication() {
    let tables = [
        "t", "_cf_KV", "_cf_METADATA", "_cf_ALARM", "_litestream_seq", "SQLITE_sequence", "a\"b",
        "sqlite",
    ];
    let tables = tables.iter().map(|t| t.to_string()).collect();
    let kept = delete_all_with_alarm(&tables, false);
    assert_eq!((kept.delete_alarm, kept.publish_alarm), (None, false));
    let plan = delete_all_with_alarm(&tables, true);
    assert_eq!(plan.delete_alarm, Some("DELETE FROM _cf_ALARM WHERE scope=?1"));
    assert!(plan.publish_alarm);
    assert_eq!(plan.drops, kept.drops);
    assert_eq!(
        plan.drops,
        [
            "DROP TABLE IF EXISTS \"t\";",
            "DROP TABLE IF EXISTS \"_cf_KV\";",
            "DROP TABLE IF EXISTS \"a\"\"b\";",
            "DROP TABLE IF EXISTS \"sqlite\";"
        ]
    );
}

#[test]
fn an_actors_name_stays() {
    assert!(set_actor_name("s", "n", Some("n")).is_ok());
    assert!(set_actor_name("s", "n", Some("m")).is_err());
    let state = open_cell("s");
    assert_eq!(
        get_actor_name(&state, "s", Some("n".to_string())),
        Ok(Some("n".to_string()))
    );
    assert_eq!(get_actor_name(&state, "t", None), Err("no db for t".to_string()));
}

fn connection(autocommit: bool, uncommitted_write: bool) -> ConnectionRead {
    ConnectionRead {
        autocommit,
        uncommitted_write,
        total_changes: 3,
        data_version: 4,
        schema_cookie: 5,
    }
}

#[test]
fn positions_count_rows_versions_and_schemas() {
    let mut state = open_cell("s");
    assert_eq!(write_position(Some(connection(true, false))), Ok(Some(12)));
    assert_eq!(write_position(None), Ok(None));
    assert!(write_position(Some(connection(true, true))).is_err());
    assert_eq!(write_position(Some(connection(false, true))), Ok(Some(12)));
    assert_eq!(event_start_position(&mut state, "s", Some(12)), Some(12));
    assert_eq!(observed_position(&state, "s", Some(12)), None);
    assert_eq!(observed_position(&state, "s", Some(13)), Some(13));
    assert_eq!(event_start_position(&mut state, "s", Some(14)), Some(14));
    assert_eq!(observed_position(&state, "s", Some(12)), None);
    assert_eq!(observed_position(&state, "s", Some(14)), Some(14));
    assert_eq!(event_start_position(&mut state, "s", None), None);
    let sample = sync_sample(&state, "s", Some(connection(false, false))).ok().unwrap().unwrap();
    assert!(sample.in_transaction);
    assert_eq!(sample.position, 12);
    assert_eq!(sample.epoch, 1);
    assert_eq!(schema_cookie(&state, "s", 1, 2), None);
    keep_schema_cookie(&mut state, "s", 9, 1, 2);
    assert_eq!(schema_cookie(&state, "s", 1, 2), Some(9));
    assert_eq!(schema_cookie(&state, "s", 1, 3), None);
}

#[test]
fn a_prefix_is_a_range_of_keys() {
    assert_eq!(prefix_upper_bound("ab").as_deref(), Some("ac"));
    assert_eq!(prefix_upper_bound("a\u{10ffff}").as_deref(), Some("b"));
    assert_eq!(prefix_upper_bound("\u{d7ff}").as_deref(), Some("\u{e000}"));
    assert_eq!(prefix_upper_bound("\u{10ffff}"), None);
    let query = list_query(Some("a"), Some("m"), Some("b"), Some("p"), Some(5), true);
    assert_eq!(
        query.sql(),
        "SELECT k,v FROM _cf_KV WHERE scope=? AND k>=? AND k>? AND k<? AND k>=? AND k<? \
         ORDER BY k DESC LIMIT ?"
    );
    let parameters = query.parameters("s");
    assert_eq!(parameters.len(), 7);
    assert!(matches!(&parameters[0], SqlValue::Text(s) if s == "s"));
    assert!(matches!(&parameters[5], SqlValue::Text(s) if s == "q"));
    assert!(matches!(&parameters[6], SqlValue::Integer(5)));
    let plain = list(None, None, None, false);
    assert_eq!(
        plain.sql(),
        "SELECT k,v FROM _cf_KV WHERE scope=? ORDER BY k ASC LIMIT ?"
    );
    assert_eq!(plain.limit, i64::MAX);
}

#[test]
fn a_multi_key_read_is_in_storage_order() {
    let keys: Vec<String> = ["b", "a", "b", "c"].iter().map(|k| k.to_string()).collect();
    let sorted = wanted_keys(&keys);
    assert_eq!(sorted, ["a", "b", "c"]);
    let rows = || {
        vec![
            Some(StoredValue::LegacyJson("1".to_string())),
            None,
            Some(StoredValue::LegacyJson("3".to_string())),
        ]
    };
    let found = get_many_stored(wanted_keys(&keys), rows());
    assert_eq!(found.len(), 2);
    assert_eq!(found[1].0, "c");
    let texts = get_many(wanted_keys(&keys), rows()).ok().unwrap();
    assert_eq!(texts[0], ("a".to_string(), "1".to_string()));
    let v8 = vec![("k".to_string(), StoredValue::V8(vec![1]))];
    assert_eq!(list_with_options(v8).err(), Some(NOT_LEGACY_JSON));
    assert_eq!(get(Some(Column::Text(b"x".to_vec()))).as_deref(), Some("x"));
    assert_eq!(get(Some(Column::Integer(1))), None);
    assert!(delete(1));
    assert!(!delete(0));
    assert_eq!(delete_many(&vec![1, 0, 1]), 2);
    let state = open_cell("s");
    assert!(matches!(get_stored(&state, "s", None, ""), Ok(None)));
    assert!(get_stored(&state, "t", None, "").is_err());
}

#[test]
fn a_batch_is_atomic() {
    assert!(matches!(batch_plan(0, true, "1"), BatchPlan::Nothing));
    assert!(matches!(batch_plan(2, true, "1"), BatchPlan::Transaction));
    match batch_plan(2, false, "4") {
        BatchPlan::Savepoint { name } => {
            assert_eq!(name, "cells_batch_4");
            assert_eq!(batch_savepoint_sql(&name, None), "SAVEPOINT cells_batch_4;");
            assert_eq!(batch_savepoint_sql(&name, Some(true)), "RELEASE cells_batch_4;");
            assert_eq!(
                batch_savepoint_sql(&name, Some(false)),
                "ROLLBACK TO cells_batch_4; RELEASE cells_batch_4;"
            );
        }
        _ => panic!("a savepoint"),
    }
}

#[test]
fn a_poisoned_cell_writes_no_more() {
    let mut state = open_cell("s");
    assert!(storage_write_admitted(&state, "s").is_ok());
    storage_write_failed(&mut state, "s", None, "soft");
    storage_write_failed(&mut state, "s", Some(false), "soft");
    assert!(storage_write_admitted(&state, "s").is_ok());
    storage_write_failed(&mut state, "s", Some(true), "disk is full");
    assert_eq!(
        storage_write_admitted(&state, "s"),
        Err("disk is full".to_string())
    );
}

#[test]
fn a_scope_has_one_listing() {
    let mut all = SyncListCursors::new();
    let (closed, query) =
        sync_list_start(&mut all, "s", None, None, None, Some("p"), None, false);
    assert!(closed.is_empty());
    assert_eq!(query.bounds.len(), 2);
    let id = sync_list_opened(&mut all, 7, "s", ListingOpened::Ready { statement: 4 }).ok().unwrap();
    assert_eq!(id, 7);
    assert_eq!(sync_list_statement(&all, id), Ok(4));
    let entry = ListingStep::Row {
        key: b"k".to_vec(),
        value: Column::Integer(8),
        real_text: String::new(),
    };
    match sync_list_next(&mut all, id, entry).0 {
        Ok(Some((key, StoredValue::LegacyJson(text)))) => {
            assert_eq!(key, "k");
            assert_eq!(text, "8");
        }
        _ => panic!("an entry"),
    }
    let (closed, _) = sync_list_start(&mut all, "s", None, None, None, None, None, false);
    assert_eq!(closed, [(7, 4)]);
    assert_eq!(sync_list_statement(&all, id), Err(LISTING_GONE));
    assert!(sync_list_next(&mut all, id, ListingStep::Done).0.is_err());
}

#[test]
fn a_listing_ends_or_fails() {
    let mut all = SyncListCursors::new();
    let one = sync_list_opened(&mut all, 1, "s", ListingOpened::Ready { statement: 1 }).ok().unwrap();
    let two = sync_list_opened(&mut all, 2, "t", ListingOpened::Ready { statement: 2 }).ok().unwrap();
    let (answer, finalized) = sync_list_next(&mut all, one, ListingStep::Done);
    assert!(matches!(answer, Ok(None)));
    assert_eq!(finalized, Some(1));
    let (answer, finalized) = sync_list_next(&mut all, two, ListingStep::Failed("io".to_string()));
    assert_eq!(answer.err().as_deref(), Some("step sync KV cursor: io"));
    assert_eq!(finalized, Some(2));
    let refused = |all: &mut SyncListCursors, opened| sync_list_opened(all, 0, "s", opened).err();
    assert_eq!(
        refused(&mut all, ListingOpened::NoConnection),
        Some(("no db for s".to_string(), None))
    );
    assert_eq!(
        refused(&mut all, ListingOpened::NotPrepared("m".to_string())),
        Some(("prepare sync KV cursor: m".to_string(), None))
    );
    let unbound = ListingOpened::NotBound {
        statement: 9,
        message: "m".to_string(),
    };
    assert_eq!(
        refused(&mut all, unbound),
        Some(("bind sync KV cursor: m".to_string(), Some(9)))
    );
    sync_list_opened(&mut all, 3, "s", ListingOpened::Ready { statement: 5 }).ok();
    assert_eq!(close_sync_list_cursors(&mut all, "s"), [(3, 5)]);
}

#[test]
fn transactions_are_controlled() {
    let mut state = open_cell("s");
    let mut all = RootTransactions::new();
    let mut restores: TextMap<Option<Vec<u8>>> = TextMap::new();
    assert!(is_runtime_savepoint("cells_tx_12"));
    assert!(!is_runtime_savepoint("cells_tx_x"));
    assert!(matches!(parse_action("rollback_explicit"), Some(Action::RollbackExplicit)));
    let run = |state: &Cells, all: &RootTransactions, action: &str, nested: bool| {
        match transaction_control(state, all, "s", action, nested, "cells_tx_1") {
            Ok(ControlStep::Run { sql, .. }) => sql,
            Ok(ControlStep::Settle) => "settle".to_string(),
            Err(error) => error,
        }
    };
    assert_eq!(run(&state, &all, "start", false), "BEGIN IMMEDIATE");
    assert_eq!(run(&state, &all, "start", true), "SAVEPOINT cells_tx_1");
    assert_eq!(run(&state, &all, "commit", true), "RELEASE cells_tx_1");
    assert_eq!(
        run(&state, &all, "rollback", true),
        "ROLLBACK TO cells_tx_1; RELEASE cells_tx_1"
    );
    assert_eq!(run(&state, &all, "stop", false), BAD_ACTION);
    assert_eq!(
        transaction_control(&state, &all, "s", "start", true, "evil").err().as_deref(),
        Some(BAD_SAVEPOINT)
    );
    transaction_settled(
        &mut state, &mut all, &mut restores, "s", Action::Start, false, "", None,
    );
    assert!(defer_facet_image(&mut all, "s", 1, "f", "[\"f\"]", vec![1]));
    match transaction_control(&state, &all, "s", "commit", false, "") {
        Ok(ControlStep::Run { sql, writes }) => {
            assert_eq!(sql, "COMMIT");
            assert_eq!(writes, [("[\"f\"]".to_string(), vec![1])]);
        }
        _ => panic!("a commit"),
    }
    poison_scope(&mut state, "s", "lost");
    assert_eq!(run(&state, &all, "commit", false), CANNOT_COMMIT);
    assert_eq!(run(&state, &all, "start", false), "lost");
    assert_eq!(run(&state, &all, "rollback", false), "settle");
}

#[test]
fn facet_images_follow_their_transaction() {
    let mut all = RootTransactions::new();
    let mut restores: TextMap<Option<Vec<u8>>> = TextMap::new();
    assert!(!defer_facet_image(&mut all, "r", 1, "f", "p", vec![0]));
    begin_root_transaction(&mut all, "r", 1, false, "a");
    assert!(defer_facet_image(&mut all, "r", 1, "f", "p", vec![1]));
    begin_root_transaction(&mut all, "r", 1, true, "b");
    assert!(defer_facet_image(&mut all, "r", 1, "f", "p", vec![2]));
    assert_eq!(pending_facet_image(&all, "r", 1, "p"), Some(vec![2]));
    finish_root_transaction(&mut all, &mut restores, "r", 1, true, "b", false);
    assert_eq!(pending_facet_image(&all, "r", 1, "p"), Some(vec![1]));
    assert_eq!(take_facet_restore(&mut restores, "f"), (true, Some(vec![1])));
    assert_eq!(take_facet_restore(&mut restores, "f"), (false, None));
    assert_eq!(
        apply_deferred_facets(&all, "r", 1),
        [("p".to_string(), vec![1])]
    );
    finish_root_transaction(&mut all, &mut restores, "r", 1, false, "a", true);
    assert_eq!(pending_facet_image(&all, "r", 1, "p"), None);
    begin_root_transaction(&mut all, "r", 1, false, "c");
    defer_facet_image(&mut all, "r", 1, "f", "p", vec![3]);
    abandon_root_transaction(&mut all, &mut restores, "r", 1);
    assert_eq!(pending_facet_image(&all, "r", 1, "p"), None);
    assert_eq!(take_facet_restore(&mut restores, "f"), (true, None));
}

#[test]
fn a_facet_is_embedded_in_its_root() {
    let mut state = open_cell("root");
    embedded(&mut state, "f", 5);
    assert!(is_embedded(&state, "f"));
    assert!(!is_embedded(&state, "root"));
    let gate = embedded_root_gate(&state, "f").unwrap();
    assert_eq!(gate.cell, "root");
    assert_eq!(gate.position, 7);
    assert!(embedded_root_gate(&state, "root").is_none());
    let identity = storage_identity(&state, "f", None, None).unwrap();
    assert_eq!(identity.facet_path, ["f"]);
    let mut all = RootTransactions::new();
    assert!(matches!(flush_embedded(&state, &all, "f", false, 5), FlushStep::Done(EmbeddedFlush::Unchanged)));
    assert!(matches!(flush_embedded(&state, &all, "f", false, 6), FlushStep::Serialize));
    assert!(matches!(flush_embedded(&state, &all, "f", true, 6), FlushStep::Done(EmbeddedFlush::Unchanged)));
    begin_root_transaction(&mut all, "root", 1, false, "a");
    assert!(defer_facet_image(&mut all, "root", 1, "f", "p", vec![1]));
    flush_done(&mut state, "f", 6);
    assert!(matches!(flush_embedded(&state, &all, "f", false, 6), FlushStep::Done(EmbeddedFlush::Deferred)));
    assert!(matches!(flush_failed(&mut state, "f", "io"), EmbeddedFlush::Unchanged));
    assert_eq!(
        storage_write_admitted(&state, "f"),
        Err("persist facet storage: io".to_string())
    );
}

#[test]
fn facet_paths_are_json() {
    let parent = vec!["a".to_string()];
    let (path, shown) = open_embedded(&parent, "b\"").ok().unwrap();
    assert_eq!(path, ["a", "b\""]);
    assert_eq!(shown, "[\"a\",\"b\\\"\"]");
    let image = |n| Some(vec![n]);
    assert_eq!(embedded_image(image(1), image(2), image(3)), image(1));
    assert_eq!(embedded_image(None, image(2), image(3)), image(2));
    assert_eq!(embedded_image(None, None, image(3)), image(3));
    assert_eq!(embedded_image(None, None, None), None);
    let deep = vec!["a".to_string(), "b".to_string(), "c".to_string()];
    assert_eq!(open_embedded(&deep, "d").err(), Some(TOO_DEEP));
    let stored: Vec<String> = ["[\"a\"]", "[\"a\",\"b\"]", "[\"a\",\"b\",\"c\"]", "[\"x\"]"]
        .iter()
        .map(|p| p.to_string())
        .collect();
    assert_eq!(
        delete_embedded(&parent, "b", &stored).ok().unwrap(),
        ["[\"a\",\"b\"]", "[\"a\",\"b\",\"c\"]"]
    );
    assert_eq!(
        delete_embedded(&parent, "b", &vec!["[\"a\"]".to_string(), "{".to_string()]).err(),
        Some(1)
    );
}

fn prepared_request() -> D1Request {
    D1Request::Prepared {
        sql: "SELECT 1".to_string(),
        params: Vec::new(),
        first: true,
    }
}

fn migrate(table: &str, sql: &str) -> D1Request {
    D1Request::Migrate {
        name: "1".to_string(),
        sql: sql.to_string(),
        table: table.to_string(),
    }
}

fn refusal(state: &Cells, request: &D1Request, connection: Option<bool>) -> (D1Family, String) {
    let failure = d1_run(state, "s", request, connection).err().unwrap();
    (failure.family, failure.message)
}

#[test]
fn d1_requests_are_admitted() {
    let mut state = open_cell("s");
    assert!(matches!(
        d1_run(&state, "s", &prepared_request(), Some(false)),
        Ok(D1RequestRun { work: D1Work::Statement { keep: 1 }, stage: D1Stage::Ready, .. })
    ));
    let exec = D1Request::Exec {
        sql: "A; B".to_string(),
        rows: true,
    };
    assert!(matches!(
        d1_run(&state, "s", &exec, Some(true)),
        Ok(D1RequestRun { work: D1Work::Text { rows: true }, .. })
    ));
    assert_eq!(d1_family(&exec).as_str(), "D1_EXEC_ERROR");
    let (family, message) = refusal(&state, &exec, Some(false));
    assert_eq!(family.as_str(), "D1_EXEC_ERROR");
    assert_eq!(message, "exec cannot start inside an open transaction");
    assert_eq!(refusal(&state, &exec, None).1, "no db for s");
    let nul = D1Request::Exec {
        sql: "a\0".to_string(),
        rows: true,
    };
    assert_eq!(
        refusal(&state, &nul, None).1,
        "invalid SQL text: nul byte found in provided data at position: 1"
    );
    assert_eq!(
        refusal(&state, &migrate("a b", ""), Some(true)).1,
        "migrations_table \"a b\" is not a plain identifier"
    );
    let batch = D1Request::Batch {
        statements: Vec::new(),
    };
    assert_eq!(
        refusal(&state, &batch, Some(false)).1,
        "batch cannot start inside an open transaction"
    );
    assert_eq!(
        refusal(&state, &migrate("m", ""), Some(false)).1,
        "a migration cannot start inside an open transaction"
    );
    poison_scope(&mut state, "s", "lost");
    assert_eq!(refusal(&state, &prepared_request(), Some(true)).1, "lost");
    assert!(d1_statement_text("x").is_ok());
    assert_eq!(
        d1_statement_text("\0").err().unwrap().message,
        "invalid SQL text: nul byte found in provided data at position: 0"
    );
    assert!(d1_plain_identifier("_a9"));
    assert!(!d1_plain_identifier("9a"));
    assert!(!d1_plain_identifier(""));
    assert_eq!(
        d1_migrations_insert_sql("m"),
        "INSERT INTO \"m\" (name) VALUES (?)"
    );
}

fn failed(message: &str, autocommit: bool) -> D1Event {
    D1Event::Failed { failure: d1_error(message), autocommit }
}

fn two_statements() -> D1RequestRun {
    let one = || D1PreparedRequest { sql: "A".to_string(), params: Vec::new() };
    D1RequestRun::new(&D1Request::Batch { statements: vec![one(), one()] })
}

#[test]
fn a_batch_that_ran_is_committed() {
    let mut run = two_statements();
    let budget = D1_MAX_RESULT_BYTES;
    assert!(matches!(
        run.next(D1Event::Start),
        D1Action::Control(D1TransactionOperation::Begin)
    ));
    assert!(matches!(
        run.next(D1Event::Controlled),
        D1Action::Statement { index: 0, keep: D1_MAX_ROWS, budget: b } if b == budget
    ));
    assert!(matches!(
        run.next(D1Event::Ran { budget: 70 }),
        D1Action::Statement { index: 1, keep: D1_MAX_ROWS, budget: 70 }
    ));
    assert!(matches!(
        run.next(D1Event::Ran { budget: 50 }),
        D1Action::Control(D1TransactionOperation::Commit)
    ));
    assert!(matches!(run.next(D1Event::Controlled), D1Action::Answer));
}

#[test]
fn a_failed_statement_rolls_its_batch_back() {
    let mut run = two_statements();
    run.next(D1Event::Start);
    run.next(D1Event::Controlled);
    assert!(matches!(
        run.next(failed("first", false)),
        D1Action::Control(D1TransactionOperation::Rollback)
    ));
    let lost = D1Event::ControlFailed { failure: d1_error("rollback"), open: false };
    assert!(matches!(run.next(lost), D1Action::Fail(failure) if failure.message == "first"));
    // SQLite ended the transaction by itself.
    let mut run = two_statements();
    run.next(D1Event::Start);
    run.next(D1Event::Controlled);
    assert!(matches!(
        run.next(failed("full", true)),
        D1Action::Fail(failure) if failure.message == "full"
    ));
}

#[test]
fn a_migration_enters_its_name_behind_its_text() {
    let mut run = D1RequestRun::new(&migrate("m", "A"));
    run.next(D1Event::Start);
    assert!(matches!(run.next(D1Event::Controlled), D1Action::Text { rows: false }));
    assert!(matches!(run.next(D1Event::Ran { budget: 1 }), D1Action::BookkeepingTable));
    assert!(matches!(run.next(D1Event::Ran { budget: 1 }), D1Action::BookkeepingRow));
    assert!(matches!(
        run.next(D1Event::Ran { budget: 1 }),
        D1Action::Control(D1TransactionOperation::Commit)
    ));
    let open = D1Event::ControlFailed { failure: d1_error("commit"), open: true };
    assert!(matches!(run.next(open), D1Action::Undo));
    assert!(matches!(
        run.next(D1Event::Undone),
        D1Action::Fail(failure) if failure.message == "commit"
    ));
}

#[test]
fn one_statement_has_no_transaction_of_its_own() {
    let mut run = D1RequestRun::new(&prepared_request());
    assert!(matches!(
        run.next(D1Event::Start),
        D1Action::Statement { index: 0, keep: 1, .. }
    ));
    assert!(matches!(run.next(D1Event::Ran { budget: 1 }), D1Action::Answer));
    let mut run = D1RequestRun::new(&prepared_request());
    run.next(D1Event::Start);
    assert!(matches!(
        run.next(failed("no", false)),
        D1Action::Fail(failure) if failure.message == "no"
    ));
    let mut empty = D1RequestRun::new(&D1Request::Batch { statements: Vec::new() });
    empty.next(D1Event::Start);
    assert!(matches!(
        empty.next(D1Event::Controlled),
        D1Action::Control(D1TransactionOperation::Commit)
    ));
}

fn control(sqlite: bool, code: i32, poisons: bool) -> D1ControlFailure {
    D1ControlFailure {
        sqlite,
        code,
        message: "own".to_string(),
        detail: "detail".to_string(),
        poisons,
    }
}

#[test]
fn an_undecided_transaction_poisons_its_cell() {
    let mut state = open_cell("s");
    let (failure, rollback) = d1_transaction_control(
        &mut state, "s", D1TransactionOperation::Begin, D1Family::Error, control(true, 13, false),
        true,
    );
    assert_eq!(failure.message, "own");
    assert!(!rollback);
    let (failure, rollback) = d1_transaction_control(
        &mut state, "s", D1TransactionOperation::Commit, D1Family::Error, control(true, 5, false),
        false,
    );
    assert_eq!(failure.message, "control D1 transaction: detail");
    assert!(rollback);
    assert!(storage_write_admitted(&state, "s").is_ok());
    d1_rollback_after_commit_failed(&mut state, "s", "io");
    assert_eq!(
        refusal(&state, &prepared_request(), Some(true)).1,
        "failed to roll back after COMMIT failure: io"
    );
    assert_eq!(D1TransactionOperation::Begin.sql(), "BEGIN IMMEDIATE");
    let mut full = open_cell("s");
    d1_transaction_control(
        &mut full, "s", D1TransactionOperation::Rollback, D1Family::Error,
        control(true, 13, false), true,
    );
    assert!(storage_write_admitted(&full, "s").is_err());
}

#[test]
fn d1_values_are_bound_and_charged() {
    assert!(matches!(
        d1_bind_value(&Json::Array(vec![Json::Number(JsonNumber::Integer(255))])),
        Ok(SqlValue::Blob(b)) if b == [255]
    ));
    assert!(matches!(
        d1_bind_value(&Json::Array(vec![Json::Number(JsonNumber::Integer(256))])),
        Err(BadBind::Item(0))
    ));
    assert!(matches!(
        d1_bind_value(&Json::Object(Vec::new())),
        Err(BadBind::Value)
    ));
    let bytes = |n| Json::Array(vec![Json::Number(JsonNumber::Integer(n))]);
    let bound = d1_bind_values(&vec![Json::Null, bytes(7)]).ok().unwrap();
    assert!(matches!(&bound[..], [SqlValue::Null, SqlValue::Blob(b)] if b[..] == [7]));
    assert!(matches!(
        d1_bind_values(&vec![bytes(7), bytes(300), Json::Object(Vec::new())]),
        Err((1, BadBind::Item(0)))
    ));
    let failure = d1_bind_failure(BadBind::Value, "{}");
    assert_eq!(failure.family.as_str(), "D1_TYPE_ERROR");
    assert_eq!(failure.message, "Type 'object' not supported for value '{}'");
    assert_eq!(d1_error("m").family.as_str(), "D1_ERROR");
    assert_eq!(d1_json_string_len("a\"\u{1}é"), 2 + 1 + 2 + 6 + 2);
    let columns = vec![Column::Integer(1), Column::Blob(vec![1, 2]), Column::Text(b"ab".to_vec())];
    let (row, size) = d1_row(&columns, 1000, 10).ok().unwrap();
    assert_eq!(row.len(), 3);
    assert_eq!(size, 10 + (2 * 10 + 10 + 2) + (10 + 4));
    assert!(matches!(d1_row(&columns, 55, 10), Err(D1RowValueError::ResultLimit)));
    assert!(matches!(
        d1_row(&vec![Column::Text(vec![0xff])], 55, 10),
        Err(D1RowValueError::InvalidUtf8Text)
    ));
    assert_eq!(d1_rows_read(4, 2), 5);
    assert_eq!(d1_rows_read(0, 2), 2);
    assert_eq!(d1_rows_read(1, 9), 9);
}

#[test]
fn d1_rows_stop_at_their_limits() {
    let mut stepped = D1Stepped::new();
    let mut budget = 25;
    for _ in 0..3 {
        stepped.row(&vec![Column::Null], 100, &mut budget, 10);
    }
    assert_eq!(stepped.rows_read, 3);
    assert!(matches!(stepped.over, Some(D1Over::Bytes)));
    let mut first = D1Stepped::new();
    let mut budget = 1000;
    first.row(&vec![Column::Integer(1)], 1, &mut budget, 10);
    first.row(&vec![Column::Integer(2)], 1, &mut budget, 10);
    assert_eq!(first.rows.len(), 1);
}

#[test]
fn a_prepared_statement_is_one_statement() {
    let run = D1Prepared::new(1, D1_MAX_ROWS, 5, 2);
    let answer = |statement, more, parameters| D1StatementPrepared {
        code: 0,
        statement,
        more,
        parameters,
    };
    assert!(matches!(
        run.prepared(answer(None, false, 0)),
        D1Step::Refuse { message, finalize: None } if message == NO_D1_STATEMENT
    ));
    assert!(matches!(
        run.prepared(answer(Some(3), true, 1)),
        D1Step::Refuse { message, finalize: Some(3) } if message == ONE_STATEMENT
    ));
    assert!(matches!(
        run.prepared(answer(Some(3), false, 2)),
        D1Step::Refuse { finalize: Some(3), .. }
    ));
    assert!(matches!(
        run.prepared(answer(Some(3), false, 1)),
        D1Step::Bind { statement: 3 }
    ));
    assert!(matches!(run.bound(3, 0), D1Step::Run { statement: 3 }));
    assert!(matches!(run.bound(3, 25), D1Step::Sqlite { code: 25, finalize: Some(3) }));
    let after = |readonly| D1After {
        code: 101,
        full_scan_steps: 4,
        readonly,
        changes_now: 9,
        last_insert_rowid: 8,
        changes: 4,
        schema_now: 2,
        database_size: 4096,
    };
    let meta = run.stopped(3, after(false)).ok().unwrap();
    assert_eq!(meta.rows_written, 4);
    assert_eq!((meta.last_row_id, meta.changes, meta.changed_db), (8, 4, true));
    assert_eq!(meta.size_after, 4096);
    let read = run.stopped(3, after(true)).ok().unwrap();
    assert_eq!((read.last_row_id, read.changes, read.changed_db), (0, 0, false));
    assert!(d1_tail_has_statement(0, Some(1)));
}

#[test]
fn an_exec_counts_its_statements() {
    let mut run = D1Exec::new("A; B", true);
    let answer = |statement, tail| D1ExecPrepared {
        code: 0,
        statement,
        tail,
        source_complete: true,
        columns: vec!["c".to_string()],
    };
    assert!(matches!(run.prepared(answer(Some(1), 2)), D1Step::Run { statement: 1 }));
    run.row(&vec![Column::Integer(1)], 10);
    assert!(matches!(run.stopped(1, 101), D1Step::Prepare));
    assert_eq!(run.count, 1);
    assert_eq!(run.source, 2);
    assert_eq!(run.results.len(), 1);
    assert_eq!(run.results[0].rows.len(), 1);
    assert!(matches!(run.prepared(answer(None, 4)), D1Step::Finish));
    let incomplete = D1ExecPrepared {
        code: 1,
        statement: None,
        tail: 2,
        source_complete: false,
        columns: Vec::new(),
    };
    assert!(matches!(
        run.prepared(incomplete),
        D1Step::Refuse { message, .. } if message.starts_with("the SQL ends in an incomplete")
    ));
}

#[test]
fn a_cells_connection_is_bounded() {
    let limits = sql_limits();
    assert_eq!(limits.len(), 12);
    assert_eq!(limits[0], (SqlLimit::Length, 2_200_000));
    assert!(limits.contains(&(SqlLimit::Attached, 0)));
    assert!(limits.contains(&(SqlLimit::VariableNumber, 100)));
}

#[test]
fn a_failed_end_of_a_transaction_is_recorded() {
    let mut state = open_cell("s");
    let own = || "own".to_string();
    assert_eq!(
        transaction_failed(&mut state, "s", Action::Start, true, own(), "full", true),
        "own"
    );
    assert_eq!(
        transaction_failed(&mut state, "s", Action::Commit, false, own(), "full", true),
        "own"
    );
    assert!(storage_write_admitted(&state, "s").is_ok());
    let error = transaction_failed(&mut state, "s", Action::Commit, true, own(), "full", true);
    assert_eq!(error, "control storage transaction: full");
    assert_eq!(storage_write_admitted(&state, "s"), Err(error));
}

#[test]
fn a_d1_failure_has_sqlites_message() {
    let mut state = open_cell("s");
    assert_eq!(d1_sqlite_failure(&mut state, "s", false, "m"), "m");
    assert!(storage_write_admitted(&state, "s").is_ok());
    assert_eq!(d1_sqlite_failure(&mut state, "s", true, "m"), "m");
    assert_eq!(
        storage_write_admitted(&state, "s"),
        Err("d1: m".to_string())
    );
    assert_eq!(d1_exec_error("m").family.as_str(), "D1_EXEC_ERROR");
}
