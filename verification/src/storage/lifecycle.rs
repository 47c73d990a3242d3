//! Opening and closing a cell's database, and deleting its contents.

use vstd::prelude::*;

use crate::ltx::db;
use crate::storage::cells::Cells;
use crate::storage::cells::OpenCell;
use crate::storage::cells::StorageBacking;
use crate::text;

verus! {

/// The refusal of an epoch that no activation has.
pub const NO_EPOCH: &'static str = "a cell activation epoch must be positive";

/// A database that is to be opened: the epoch that authorized it, whether its wakes
/// are replicated, and where it lives.
pub struct Opening {
    pub epoch: u64,
    pub replicated_wake: bool,
    pub backing: StorageBacking,
}

/// Whether a cell opens a file of its own, at this epoch.
pub open spec fn opens_file(
    opening: Opening,
    scope: Seq<char>,
    path: Seq<char>,
    epoch: u64,
    replicated_wake: bool,
) -> bool {
    &&& opening.epoch == epoch
    &&& opening.replicated_wake == replicated_wake
    &&& opening.backing matches StorageBacking::File { path: file, root_scope, facet_path }
    &&& file@ == path && root_scope@ == scope && facet_path@.len() == 0
}

/// The file that a cell opens at the epoch that authorized its activation; an
/// activation without an epoch is refused.
pub fn open_at_epoch(scope: &str, path: &str, epoch: u64, replicated_wake: bool) -> (
    result: Result<Opening, &'static str>)
    ensures
        match result {
            Ok(opening) => epoch > 0 && opens_file(
                opening,
                scope@,
                path@,
                epoch,
                replicated_wake,
            ),
            Err(message) => epoch == 0 && message@ == NO_EPOCH@,
        },
{
    if epoch == 0 {
        return Err(NO_EPOCH);
    }
    Ok(
        Opening {
            epoch,
            replicated_wake,
            backing: StorageBacking::File {
                path: path.to_owned(),
                root_scope: scope.to_owned(),
                facet_path: Vec::new(),
            },
        },
    )
}

/// The file that a cell opens on its own, at the first epoch.
pub fn open(scope: &str, path: &str) -> (result: Result<Opening, &'static str>)
    ensures
        result matches Ok(opening) && opening.epoch == 1 && opens_file(
            opening,
            scope@,
            path@,
            1,
            false,
        ),
{
    open_at_epoch(scope, path, 1, false)
}

/// A database is open: the scope starts afresh, at the opening's epoch, with no
/// critical error and no baseline. Everything else stays.
pub fn finish_open(state: &mut Cells, scope: &str, opening: Opening, persisted_position: u64)
    requires
        old(state).wf(),
    ensures
        final(state).wf(),
        *final(state) == (Cells {
            open_cells: final(state).open_cells,
            sql_critical_errors: final(state).sql_critical_errors,
            ..*old(state)
        }),
        final(state).sql_critical_errors@ == old(state).sql_critical_errors@.remove(scope@),
        final(state).open_cells@ == old(state).open_cells@.insert(
            scope@,
            (OpenCell {
                epoch: opening.epoch,
                replicated_wake: opening.replicated_wake,
                backing: opening.backing,
                persisted_position,
                published_position: None,
            }),
        ),
{
    let _ = state.sql_critical_errors.remove(scope);
    let cell = OpenCell {
        epoch: opening.epoch,
        replicated_wake: opening.replicated_wake,
        backing: opening.backing,
        persisted_position,
        published_position: None,
    };
    let _ = state.open_cells.insert(scope, cell);
}

/// A database closes: nothing is kept of its scope, and nothing of another one
/// moves.
pub fn close(state: &mut Cells, scope: &str)
    requires
        old(state).wf(),
    ensures
        final(state).wf(),
        final(state).open_cells@ == old(state).open_cells@.remove(scope@),
        final(state).active_alarms@ == old(state).active_alarms@.remove(scope@),
        final(state).alarm_moves@ == old(state).alarm_moves@.remove(scope@),
        final(state).alarm_dirty@ == old(state).alarm_dirty@.remove(scope@),
        final(state).sql_critical_errors@ == old(state).sql_critical_errors@.remove(scope@),
        final(state).schema_cookies@ == old(state).schema_cookies@.remove(scope@),
{
    let _ = state.sql_critical_errors.remove(scope);
    let _ = state.schema_cookies.remove(scope);
    let _ = state.open_cells.remove(scope);
    let _ = state.active_alarms.remove(scope);
    let _ = state.alarm_moves.remove(scope);
    let _ = state.alarm_dirty.remove(scope);
}

/// The epoch that a cell's database was opened at.
pub fn activation_epoch(state: &Cells, scope: &str) -> (epoch: Option<u64>)
    requires
        state.wf(),
    ensures
        epoch == (if state.open_cells@.dom().contains(scope@) {
            Some(state.open_cells@[scope@].epoch)
        } else {
            None
        }),
{
    match state.open_cells.get(scope) {
        Some(cell) => Some(cell.epoch),
        None => None,
    }
}

/// Whether a table that an older cell made under another name is renamed: only
/// where the current one is not there yet.
pub fn renames_legacy_table(legacy_exists: bool, current_exists: bool) -> (answer: bool)
    ensures
        answer == (legacy_exists && !current_exists),
{
    legacy_exists && !current_exists
}

/// What gives the alarm table its generation.
pub const ADD_GENERATION: &'static str = "ALTER TABLE _cf_ALARM ADD COLUMN generation INTEGER NOT NULL DEFAULT 0";

/// What gives the alarm table its count of counted retries.
pub const ADD_COUNTED_RETRY: &'static str = "ALTER TABLE _cf_ALARM ADD COLUMN counted_retry INTEGER NOT NULL DEFAULT 0";

/// What an alarm table that an older cell made is missing, in SQL.
pub open spec fn missing_columns(columns: Seq<Seq<char>>) -> Seq<Seq<char>> {
    let first: Seq<Seq<char>> = if columns.contains("generation"@) {
        Seq::empty()
    } else {
        seq![ADD_GENERATION@]
    };
    if columns.contains("counted_retry"@) {
        first
    } else {
        first.push(ADD_COUNTED_RETRY@)
    }
}

fn names_column(columns: &Vec<String>, name: &str) -> (answer: bool)
    ensures
        answer == text::views(columns@).contains(name@),
{
    let mut i: usize = 0;
    while i < columns.len()
        invariant
            i <= columns@.len(),
            forall|k: int| 0 <= k < i ==> text::views(columns@)[k] != name@,
        decreases columns@.len() - i,
    {
        if text::same_text(columns[i].as_str(), name) {
            assert(text::views(columns@)[i as int] == name@);
            return true;
        }
        i = i + 1;
    }
    false
}

/// The SQL that gives an alarm table the columns it is missing, given those that it
/// has.
pub fn schema(columns: &Vec<String>) -> (sql: Vec<String>)
    ensures
        text::views(sql@) == missing_columns(text::views(columns@)),
{
    let mut sql: Vec<String> = Vec::new();
    if !names_column(columns, "generation") {
        sql.push(ADD_GENERATION.to_string());
    }
    if !names_column(columns, "counted_retry") {
        sql.push(ADD_COUNTED_RETRY.to_string());
    }
    assert(text::views(sql@) =~= missing_columns(text::views(columns@)));
    sql
}

/// The tables that outlive `deleteAll`: the cell's identity, its wake record and
/// its alarm, and the tables of replication and of SQLite itself.
pub open spec fn outlives_delete_all(table: Seq<char>) -> bool {
    ||| table == "_cf_METADATA"@
    ||| table == "_cf_WAKE"@
    ||| table == "_cf_ALARM"@
    ||| db::control_table(table)
    ||| table.len() >= 7 && text::same_ignoring_case(table.take(7), "sqlite_"@)
}

fn is_kept(table: &str) -> (answer: bool)
    ensures
        answer == outlives_delete_all(table@),
{
    if text::same_text(table, "_cf_METADATA") || text::same_text(table, "_cf_WAKE")
        || text::same_text(table, "_cf_ALARM") || db::is_control_table(table) {
        return true;
    }
    let chars = text::chars_of(table);
    if chars.len() < 7 {
        return false;
    }
    let head = text::cut(&chars, 0, 7);
    assert(head@ =~= table@.take(7));
    text::eq_ignoring_case(&head, &text::chars_of("sqlite_"))
}

/// A name with every double quote doubled.
pub open spec fn doubled_quotes(name: Seq<char>) -> Seq<char>
    decreases name.len(),
{
    if name.len() == 0 {
        Seq::empty()
    } else {
        let head = doubled_quotes(name.drop_last());
        if name.last() == '"' {
            head.push('"').push('"')
        } else {
            head.push(name.last())
        }
    }
}

/// The SQL that drops a table, its name quoted.
pub open spec fn drop_sql(table: Seq<char>) -> Seq<char> {
    "DROP TABLE IF EXISTS \""@ + doubled_quotes(table) + "\";"@
}

fn drop_table_sql(table: &str) -> (sql: String)
    ensures
        sql@ == drop_sql(table@),
{
    let chars = text::chars_of(table);
    let mut quoted: Vec<char> = Vec::new();
    let mut i: usize = 0;
    assert(chars@.take(0) =~= Seq::<char>::empty());
    while i < chars.len()
        invariant
            i <= chars@.len(),
            quoted@ == doubled_quotes(chars@.take(i as int)),
        decreases chars@.len() - i,
    {
        let c: char = chars[i];
        quoted.push(c);
        if c == '"' {
            quoted.push(c);
        }
        i = i + 1;
        assert(chars@.take(i as int).drop_last() =~= chars@.take(i - 1));
    }
    assert(chars@.take(i as int) =~= chars@);
    let name = text::string_of(&quoted);
    text::concat3("DROP TABLE IF EXISTS \"", &name, "\";")
}

/// The statements that drop the tables that do not outlive `deleteAll`, in order.
pub open spec fn drops_of(tables: Seq<Seq<char>>) -> Seq<Seq<char>> {
    tables.filter(|table: Seq<char>| !outlives_delete_all(table)).map_values(
        |table: Seq<char>| drop_sql(table),
    )
}

/// What deletes a cell's alarm; the scope is bound.
pub const DELETE_ALARM: &'static str = "DELETE FROM _cf_ALARM WHERE scope=?1";

/// How all user storage is deleted: the tables are dropped, then the alarm is deleted
/// where that is asked for, all in one transaction. Once it is committed, a deleted
/// alarm is published.
pub struct DeleteAllPlan {
    pub drops: Vec<String>,
    pub delete_alarm: Option<&'static str>,
    pub publish_alarm: bool,
}

/// How all user storage is deleted, given the tables that there are. The alarm is part
/// of it only where the caller says so: its table outlives the rest.
pub fn delete_all_with_alarm(tables: &Vec<String>, delete_alarm: bool) -> (plan: DeleteAllPlan)
    ensures
        text::views(plan.drops@) == drops_of(text::views(tables@)),
        match plan.delete_alarm {
            Some(sql) => delete_alarm && sql@ == DELETE_ALARM@,
            None => !delete_alarm,
        },
        plan.publish_alarm == delete_alarm,
{
    DeleteAllPlan {
        drops: drop_statements(tables),
        delete_alarm: if delete_alarm {
            Some(DELETE_ALARM)
        } else {
            None
        },
        publish_alarm: delete_alarm,
    }
}

fn drop_statements(tables: &Vec<String>) -> (drops: Vec<String>)
    ensures
        text::views(drops@) == drops_of(text::views(tables@)),
{
    let ghost keep = |table: Seq<char>| !outlives_delete_all(table);
    let ghost shape = |table: Seq<char>| drop_sql(table);
    let mut drops: Vec<String> = Vec::new();
    let mut i: usize = 0;
    assert(text::views(drops@) =~= text::views(tables@).take(0).filter(keep).map_values(shape)) by {
        reveal(Seq::filter);
    }
    while i < tables.len()
        invariant
            i <= tables@.len(),
            keep == (|table: Seq<char>| !outlives_delete_all(table)),
            shape == (|table: Seq<char>| drop_sql(table)),
            text::views(drops@) == text::views(tables@).take(i as int).filter(keep).map_values(
                shape,
            ),
        decreases tables@.len() - i,
    {
        let ghost before = drops@;
        if !is_kept(&tables[i]) {
            drops.push(drop_table_sql(&tables[i]));
        }
        proof {
            let now = text::views(tables@).take(i + 1);
            assert(now.drop_last() =~= text::views(tables@).take(i as int));
            assert(now.last() == tables@[i as int]@);
            reveal(Seq::filter);
            let was = text::views(tables@).take(i as int).filter(keep);
            if keep(now.last()) {
                assert(now.filter(keep) =~= was.push(now.last()));
                assert(text::views(drops@) =~= text::views(before).push(shape(now.last())));
                assert(now.filter(keep).map_values(shape) =~= was.map_values(shape).push(
                    shape(now.last()),
                ));
            } else {
                assert(now.filter(keep) =~= was);
            }
        }
        i = i + 1;
    }
    assert(text::views(tables@).take(i as int) =~= text::views(tables@));
    drops
}

/// `deleteAll` never drops what the cell is known and replicated by, nor the table of
/// its alarm.
pub proof fn law_delete_all_keeps_identity_and_replication(tables: Seq<Seq<char>>, table: Seq<char>)
    requires
        outlives_delete_all(table),
    ensures
        !tables.filter(|t: Seq<char>| !outlives_delete_all(t)).contains(table),
{
    let keep = |t: Seq<char>| !outlives_delete_all(t);
    let kept = tables.filter(keep);
    if kept.contains(table) {
        let i = choose|i: int| 0 <= i < kept.len() && kept[i] == table;
        tables.lemma_filter_pred(keep, i);
    }
}

/// Whether an actor has a name, given the one that is stored.
pub open spec fn has_name(stored: Option<Seq<char>>, name: Seq<char>) -> bool {
    stored == Some(name)
}

/// The refusal of an actor name that differs from the one that is stored, once the
/// name was stored where there was none.
pub fn set_actor_name(scope: &str, name: &str, stored: Option<&str>) -> (result: Result<(), String>)
    ensures
        ({
            let kept = match stored {
                Some(stored) => Some(stored@),
                None => None,
            };
            match result {
                Ok(()) => has_name(kept, name@),
                Err(error) => !has_name(kept, name@) && error@
                    == "actor name conflicts with persisted identity for "@ + scope@,
            }
        }),
{
    match stored {
        Some(stored) => if text::same_text(stored, name) {
            return Ok(());
        },
        None => {},
    }
    Err(text::concat("actor name conflicts with persisted identity for ", scope))
}

/// The stored actor name of an open cell.
pub fn get_actor_name(state: &Cells, scope: &str, stored: Option<String>) -> (result: Result<
    Option<String>,
    String,
>)
    requires
        state.wf(),
    ensures
        match result {
            Ok(name) => state.open_cells@.dom().contains(scope@) && name == stored,
            Err(error) => !state.open_cells@.dom().contains(scope@) && error@ == "no db for "@
                + scope@,
        },
{
    if state.open_cells.contains_key(scope) {
        Ok(stored)
    } else {
        Err(text::concat("no db for ", scope))
    }
}

/// The name that the tables of a database hold of an actor; each table holds one
/// text by scope here.
pub open spec fn stored_name(
    tables: Map<Seq<char>, Map<Seq<char>, Seq<char>>>,
    scope: Seq<char>,
) -> Option<Seq<char>> {
    let table = "_cf_METADATA"@;
    if tables.dom().contains(table) && tables[table].dom().contains(scope) {
        Some(tables[table][scope])
    } else {
        None
    }
}

/// The tables once a name was stored where there was none.
pub open spec fn after_set_name(
    tables: Map<Seq<char>, Map<Seq<char>, Seq<char>>>,
    scope: Seq<char>,
    name: Seq<char>,
) -> Map<Seq<char>, Map<Seq<char>, Seq<char>>> {
    let table = "_cf_METADATA"@;
    if stored_name(tables, scope) is None && tables.dom().contains(table) {
        tables.insert(table, tables[table].insert(scope, name))
    } else {
        tables
    }
}

/// The tables after `deleteAll`, which drops those that do not outlive it.
pub open spec fn after_delete_all(tables: Map<Seq<char>, Map<Seq<char>, Seq<char>>>) -> Map<
    Seq<char>,
    Map<Seq<char>, Seq<char>>,
> {
    tables.restrict(Set::new(|table: Seq<char>| outlives_delete_all(table)))
}

/// An actor's first name stays. The actor has it once it was set; another name is
/// refused and changes nothing, the same one is accepted again, and `deleteAll` does
/// not remove it.
pub proof fn law_first_actor_name_stays(
    tables: Map<Seq<char>, Map<Seq<char>, Seq<char>>>,
    scope: Seq<char>,
    first: Seq<char>,
    other: Seq<char>,
)
    requires
        tables.dom().contains("_cf_METADATA"@),
        has_name(stored_name(after_set_name(tables, scope, first), scope), first),
        other != first,
    ensures
        ({
            let named = after_set_name(tables, scope, first);
            &&& after_set_name(named, scope, other) == named
            &&& !has_name(stored_name(after_set_name(named, scope, other), scope), other)
            &&& has_name(stored_name(after_set_name(named, scope, first), scope), first)
            &&& stored_name(after_delete_all(named), scope) == Some(first)
        }),
        stored_name(tables, scope) is None || stored_name(tables, scope) == Some(first),
{
}

/// What SQLite bounds on a connection.
#[derive(Clone, Copy, Debug, PartialEq, Eq, Structural)]
pub enum SqlLimit {
    Length,
    SqlLength,
    Column,
    ExprDepth,
    CompoundSelect,
    VdbeOp,
    FunctionArg,
    Attached,
    LikePatternLength,
    VariableNumber,
    TriggerDepth,
    WorkerThreads,
}

/// The bounds of a cell's connection. That no database can be attached also keeps
/// a cell from rewriting its file.
pub open spec fn limits_of_a_cell() -> Seq<(SqlLimit, i32)> {
    seq![
            (SqlLimit::Length, 2_200_000i32),
            (SqlLimit::SqlLength, 100_000i32),
            (SqlLimit::Column, 100i32),
            (SqlLimit::ExprDepth, 100i32),
            (SqlLimit::CompoundSelect, 5i32),
            (SqlLimit::VdbeOp, 25_000i32),
            (SqlLimit::FunctionArg, 127i32),
            (SqlLimit::Attached, 0i32),
            (SqlLimit::LikePatternLength, 50i32),
            (SqlLimit::VariableNumber, 100i32),
            (SqlLimit::TriggerDepth, 10i32),
            (SqlLimit::WorkerThreads, 0i32),
    ]
}

/// The bounds that a cell's connection gets before it serves any statement.
pub fn sql_limits() -> (limits: Vec<(SqlLimit, i32)>)
    ensures
        limits@ == limits_of_a_cell(),
{
    let mut limits: Vec<(SqlLimit, i32)> = Vec::new();
    limits.push((SqlLimit::Length, 2_200_000));
    limits.push((SqlLimit::SqlLength, 100_000));
    limits.push((SqlLimit::Column, 100));
    limits.push((SqlLimit::ExprDepth, 100));
    limits.push((SqlLimit::CompoundSelect, 5));
    limits.push((SqlLimit::VdbeOp, 25_000));
    limits.push((SqlLimit::FunctionArg, 127));
    limits.push((SqlLimit::Attached, 0));
    limits.push((SqlLimit::LikePatternLength, 50));
    limits.push((SqlLimit::VariableNumber, 100));
    limits.push((SqlLimit::TriggerDepth, 10));
    limits.push((SqlLimit::WorkerThreads, 0));
    limits
}

/// Which columns an older alarm table gets: each of the two that it lacks, and no other.
pub proof fn law_missing_columns_are_added(columns: Seq<Seq<char>>)
    ensures
        missing_columns(columns).contains(ADD_GENERATION@) <==> !columns.contains("generation"@),
        missing_columns(columns).contains(ADD_COUNTED_RETRY@) <==> !columns.contains(
            "counted_retry"@,
        ),
        forall|i: int|
            0 <= i < missing_columns(columns).len() ==> #[trigger] missing_columns(columns)[i]
                == ADD_GENERATION@ || missing_columns(columns)[i] == ADD_COUNTED_RETRY@,
        missing_columns(columns).len() <= 2,
{
    reveal_strlit("ALTER TABLE _cf_ALARM ADD COLUMN generation INTEGER NOT NULL DEFAULT 0");
    reveal_strlit("ALTER TABLE _cf_ALARM ADD COLUMN counted_retry INTEGER NOT NULL DEFAULT 0");
    let out = missing_columns(columns);
    assert(ADD_GENERATION@.len() != ADD_COUNTED_RETRY@.len());
    if !columns.contains("generation"@) {
        assert(out[0] == ADD_GENERATION@);
    }
    if !columns.contains("counted_retry"@) {
        assert(out[out.len() - 1] == ADD_COUNTED_RETRY@);
    }
}

/// Which tables outlive a delete of everything: the cell's name, its wake position and its
/// alarm, replication's two in any case, and SQLite's own. Every other one does not.
pub proof fn law_tables_that_outlive(table: Seq<char>)
    ensures
        outlives_delete_all("_cf_METADATA"@),
        outlives_delete_all("_cf_WAKE"@),
        outlives_delete_all("_cf_ALARM"@),
        text::lower_all(table) == "_litestream_seq"@ || text::lower_all(table)
            == "_litestream_lock"@ ==> outlives_delete_all(table),
        table.len() >= 7 && text::lower_all(table.take(7)) == "sqlite_"@ ==> outlives_delete_all(
            table,
        ),
        outlives_delete_all(table) ==> {
            ||| table == "_cf_METADATA"@ || table == "_cf_WAKE"@ || table == "_cf_ALARM"@
            ||| text::lower_all(table) == "_litestream_seq"@
            ||| text::lower_all(table) == "_litestream_lock"@
            ||| table.len() >= 7 && text::lower_all(table.take(7)) == "sqlite_"@
        },
        !outlives_delete_all("_cf_KV"@),
{
    reveal_strlit("_litestream_seq");
    reveal_strlit("_litestream_lock");
    reveal_strlit("sqlite_");
    reveal_strlit("_cf_KV");
    reveal_strlit("_cf_METADATA");
    reveal_strlit("_cf_WAKE");
    reveal_strlit("_cf_ALARM");
    assert(text::lower_all("_litestream_seq"@) =~= "_litestream_seq"@);
    assert(text::lower_all("_litestream_lock"@) =~= "_litestream_lock"@);
    assert(text::lower_all("sqlite_"@) =~= "sqlite_"@);
    text::lemma_lower_word(table, "_litestream_seq"@);
    text::lemma_lower_word(table, "_litestream_lock"@);
    if table.len() >= 7 {
        text::lemma_lower_word(table.take(7), "sqlite_"@);
    }
    let kv = "_cf_KV"@;
    assert(kv.len() == 6);
    assert("_cf_METADATA"@.len() == 12 && "_cf_WAKE"@.len() == 8 && "_cf_ALARM"@.len() == 9);
    assert(db::SEQ_TABLE@.len() == 15 && db::LOCK_TABLE@.len() == 16);
}

/// A name's quotes are doubled, and nothing else changes, so that no name ends its own
/// quotation.
pub proof fn law_quotes_are_doubled(a: Seq<char>, b: Seq<char>, c: char)
    ensures
        doubled_quotes(a + b) == doubled_quotes(a) + doubled_quotes(b),
        c != '"' ==> doubled_quotes(seq![c]) == seq![c],
        doubled_quotes(seq!['"']) == seq!['"', '"'],
        doubled_quotes(Seq::<char>::empty()).len() == 0,
        drop_sql(a) == "DROP TABLE IF EXISTS \""@ + doubled_quotes(a) + "\";"@,
    decreases b.len(),
{
    reveal_with_fuel(doubled_quotes, 2);
    assert(seq![c].drop_last() =~= Seq::<char>::empty());
    assert(doubled_quotes(seq![c]) =~= if c == '"' {
        seq!['"', '"']
    } else {
        seq![c]
    });
    assert(seq!['"'].drop_last() =~= Seq::<char>::empty());
    assert(doubled_quotes(seq!['"']) =~= seq!['"', '"']);
    if b.len() == 0 {
        assert(a + b =~= a);
        assert(doubled_quotes(a) + doubled_quotes(b) =~= doubled_quotes(a));
    } else {
        law_quotes_are_doubled(a, b.drop_last(), c);
        assert((a + b).drop_last() =~= a + b.drop_last());
        assert((a + b).last() == b.last());
        assert(doubled_quotes(a + b) =~= doubled_quotes(a) + doubled_quotes(b));
    }
}

/// A delete of everything drops, in order, each table that does not outlive it, and no other.
pub proof fn law_delete_all_drops_the_rest(tables: Seq<Seq<char>>, table: Seq<char>)
    ensures
        drops_of(Seq::<Seq<char>>::empty()).len() == 0,
        outlives_delete_all(table) ==> drops_of(tables.push(table)) == drops_of(tables),
        !outlives_delete_all(table) ==> drops_of(tables.push(table)) == drops_of(tables).push(
            drop_sql(table),
        ),
{
    reveal(Seq::filter);
    let keep = |t: Seq<char>| !outlives_delete_all(t);
    let all = tables.push(table);
    assert(all.drop_last() =~= tables);
    assert(all.filter(keep) == if keep(table) {
        tables.filter(keep).push(table)
    } else {
        tables.filter(keep)
    });
    if keep(table) {
        assert(drops_of(all) =~= drops_of(tables).push(drop_sql(table)));
    }
}

/// The limits of a cell's SQL, each set once.
pub proof fn law_limits_of_a_cell()
    ensures
        ({
            let limits = limits_of_a_cell();
            &&& limits.len() == 12
            &&& limits.contains((SqlLimit::Length, 2_200_000i32))
            &&& limits.contains((SqlLimit::SqlLength, 100_000i32))
            &&& limits.contains((SqlLimit::Column, 100i32))
            &&& limits.contains((SqlLimit::ExprDepth, 100i32))
            &&& limits.contains((SqlLimit::CompoundSelect, 5i32))
            &&& limits.contains((SqlLimit::VdbeOp, 25_000i32))
            &&& limits.contains((SqlLimit::FunctionArg, 127i32))
            &&& limits.contains((SqlLimit::Attached, 0i32))
            &&& limits.contains((SqlLimit::LikePatternLength, 50i32))
            &&& limits.contains((SqlLimit::VariableNumber, 100i32))
            &&& limits.contains((SqlLimit::TriggerDepth, 10i32))
            &&& limits.contains((SqlLimit::WorkerThreads, 0i32))
        }),
{
    let limits = limits_of_a_cell();
    assert(limits[0] == (SqlLimit::Length, 2_200_000i32));
    assert(limits[1] == (SqlLimit::SqlLength, 100_000i32));
    assert(limits[2] == (SqlLimit::Column, 100i32));
    assert(limits[3] == (SqlLimit::ExprDepth, 100i32));
    assert(limits[4] == (SqlLimit::CompoundSelect, 5i32));
    assert(limits[5] == (SqlLimit::VdbeOp, 25_000i32));
    assert(limits[6] == (SqlLimit::FunctionArg, 127i32));
    assert(limits[7] == (SqlLimit::Attached, 0i32));
    assert(limits[8] == (SqlLimit::LikePatternLength, 50i32));
    assert(limits[9] == (SqlLimit::VariableNumber, 100i32));
    assert(limits[10] == (SqlLimit::TriggerDepth, 10i32));
    assert(limits[11] == (SqlLimit::WorkerThreads, 0i32));
}

/// A cell opens on its own file, as the root of its facets, in the epoch that it is told.
pub proof fn law_cell_opens_its_file(
    opening: Opening,
    scope: Seq<char>,
    path: Seq<char>,
    epoch: u64,
    replicated_wake: bool,
)
    requires
        opens_file(opening, scope, path, epoch, replicated_wake),
    ensures
        opening.epoch == epoch && opening.replicated_wake == replicated_wake,
        opening.backing matches StorageBacking::File { path: file, root_scope, facet_path } && file@
            == path && root_scope@ == scope && facet_path@.len() == 0,
{
}

/// A name conflicts with a stored one unless it is that very name.
pub proof fn law_name_is_the_stored_one(stored: Option<Seq<char>>, name: Seq<char>)
    ensures
        has_name(stored, name) <==> stored is Some && stored->0 == name,
{
}

} // verus!
