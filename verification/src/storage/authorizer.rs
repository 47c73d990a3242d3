//! What application SQL may do.
//!
//! SQLite asks about every access while it prepares a statement. Names that
//! begin with `_cf_`, and replication's control tables, are reserved: the
//! application's SQL cannot touch them, and the engine's own can.

use vstd::prelude::*;

use crate::ltx::db;
use crate::numbers;
use crate::text;

verus! {

/// One access that SQLite asks about.
pub enum SqlAction<'a> {
    Unknown { arg1: Option<&'a str>, arg2: Option<&'a str> },
    CreateIndex { index_name: &'a str, table_name: &'a str },
    CreateTable { table_name: &'a str },
    CreateTempIndex,
    CreateTempTable,
    CreateTempTrigger,
    CreateTempView,
    CreateTrigger { trigger_name: &'a str, table_name: &'a str },
    CreateView { view_name: &'a str },
    Delete { table_name: &'a str },
    DropIndex { index_name: &'a str, table_name: &'a str },
    DropTable { table_name: &'a str },
    DropTempIndex,
    DropTempTable,
    DropTempTrigger,
    DropTempView,
    DropTrigger { trigger_name: &'a str, table_name: &'a str },
    DropView { view_name: &'a str },
    Insert { table_name: &'a str },
    Pragma { pragma_name: &'a str, pragma_value: Option<&'a str> },
    Read { table_name: &'a str, column_name: &'a str },
    Select,
    Transaction,
    Update { table_name: &'a str, column_name: &'a str },
    Attach,
    Detach,
    AlterTable { database_name: &'a str, table_name: &'a str },
    Reindex { index_name: &'a str },
    Analyze,
    CreateVtable { table_name: &'a str, module_name: &'a str },
    DropVtable { table_name: &'a str },
    Function { function_name: &'a str },
    Savepoint,
    Recursive,
}

/// The answer to SQLite.
#[derive(PartialEq, Eq, Structural, Clone, Copy)]
pub enum Authorization {
    Allow,
    Deny,
}

/// Whether a name is reserved, in any spelling of its ASCII letters.
pub open spec fn reserved_name(name: Seq<char>) -> bool {
    ||| name.len() >= 4 && text::same_ignoring_case(name.take(4), "_cf_"@)
    ||| db::control_table(name)
}

/// Whether a name is reserved for whoever wrote the SQL: the application, or
/// the engine, which is bound by no reservation.
pub fn is_reserved_sql_name(user_sql: bool, name: &str) -> (answer: bool)
    ensures
        answer == (user_sql && reserved_name(name@)),
{
    if !user_sql {
        return false;
    }
    let chars = text::chars_of(name);
    if chars.len() >= 4 {
        let head = text::cut(&chars, 0, 4);
        assert(head@ =~= name@.take(4));
        if text::eq_ignoring_case(&head, &text::chars_of("_cf_")) {
            return true;
        }
    }
    db::is_control_table(name)
}

/// A text without the quotes around it: a quote at its start and the same quote
/// behind it, at its end.
pub open spec fn unquoted_by(value: Seq<char>, quote: char) -> Option<Seq<char>> {
    if value.len() >= 2 && value[0] == quote && value.last() == quote {
        Some(value.subrange(1, value.len() - 1))
    } else {
        None
    }
}

/// A text without single quotes around it, or else without double ones.
pub open spec fn unquoted(value: Seq<char>) -> Seq<char> {
    match unquoted_by(value, '\'') {
        Some(inner) => inner,
        None => match unquoted_by(value, '"') {
            Some(inner) => inner,
            None => value,
        },
    }
}

/// Whether a text is a boolean as SQLite reads one in a pragma.
pub open spec fn sql_boolean(value: Seq<char>) -> bool {
    let word = text::lower_all(unquoted(text::trimmed(value)));
    ||| word == "true"@
    ||| word == "false"@
    ||| word == "yes"@
    ||| word == "no"@
    ||| word == "on"@
    ||| word == "off"@
    ||| word == "1"@
    ||| word == "0"@
}

fn unquote(value: &Vec<char>) -> (out: Vec<char>)
    ensures
        out@ == unquoted(value@),
{
    let n: usize = value.len();
    if n >= 2 && (value[0] == '\'' && value[n - 1] == '\'' || value[0] == '"' && value[n - 1]
        == '"') {
        return text::cut(value, 1, n - 1);
    }
    let out = text::cut(value, 0, n);
    assert(out@ =~= value@);
    out
}

fn is(word: &Vec<char>, name: &str) -> (answer: bool)
    ensures
        answer == (word@ == name@),
{
    text::same(word, &text::chars_of(name))
}

/// Whether a text is a boolean as SQLite reads one in a pragma.
pub fn valid_sql_boolean(value: &str) -> (answer: bool)
    ensures
        answer == sql_boolean(value@),
{
    let trimmed = text::trim(&text::chars_of(value));
    let word = text::lowered(&unquote(&trimmed));
    is(&word, "true") || is(&word, "false") || is(&word, "yes") || is(&word, "no") || is(
        &word,
        "on",
    ) || is(&word, "off") || is(&word, "1") || is(&word, "0")
}

/// Whether a text is a 32-bit integer, in decimal, or behind `0x` in
/// hexadecimal and not negative.
pub open spec fn sql_i32(value: Seq<char>) -> bool {
    ||| numbers::integer_text(value) matches Some(n) && i32::MIN <= n <= i32::MAX
    ||| {
        &&& text::begins_with(value, "0x"@) || text::begins_with(value, "0X"@)
        &&& numbers::natural_text(value.skip(2), 16) matches Some(n) && n <= i32::MAX
    }
}

/// Whether a text is a 32-bit integer.
pub fn valid_sql_i32(value: &str) -> (answer: bool)
    ensures
        answer == sql_i32(value@),
{
    let chars = text::chars_of(value);
    if numbers::spells_integer(&chars, 2147483648, 2147483647) {
        return true;
    }
    proof {
        reveal_strlit("0x");
        reveal_strlit("0X");
    }
    if text::starts_with(&chars, &text::chars_of("0x")) || text::starts_with(
        &chars,
        &text::chars_of("0X"),
    ) {
        let digits = text::cut(&chars, 2, chars.len());
        assert(digits@ =~= value@.skip(2));
        return numbers::parse_natural(&digits, 16, 2147483647).is_some();
    }
    false
}

/// The pragmas that only answer.
pub open spec fn reading_pragma(name: Seq<char>) -> bool {
    name == "data_version"@ || name == "table_list"@ || name == "schema_version"@
}

/// The pragmas that switch something on or off.
pub open spec fn switch_pragma(name: Seq<char>) -> bool {
    ||| name == "case_sensitive_like"@
    ||| name == "foreign_keys"@
    ||| name == "defer_foreign_keys"@
    ||| name == "ignore_check_constraints"@
    ||| name == "legacy_alter_table"@
    ||| name == "recursive_triggers"@
    ||| name == "reverse_unordered_selects"@
}

/// The pragmas that describe a table or an index.
pub open spec fn describing_pragma(name: Seq<char>) -> bool {
    ||| name == "table_info"@
    ||| name == "table_xinfo"@
    ||| name == "foreign_key_list"@
    ||| name == "index_info"@
    ||| name == "index_list"@
    ||| name == "index_xinfo"@
}

/// Whether a text is an unsigned 32-bit integer.
pub open spec fn is_u32(value: Seq<char>) -> bool {
    numbers::natural_text(value, 10) matches Some(n) && n <= u32::MAX
}

/// Whether a pragma is allowed: the listed ones, each with the values it takes.
pub open spec fn pragma_allowed(
    user_sql: bool,
    pragma: Seq<char>,
    value: Option<Seq<char>>,
) -> bool {
    let name = text::lower_all(pragma);
    let free = |text: Seq<char>| !(user_sql && reserved_name(text));
    if reading_pragma(name) {
        value is None
    } else if switch_pragma(name) {
        value is None || sql_boolean(value->0)
    } else if describing_pragma(name) {
        value is Some && free(value->0)
    } else if name == "foreign_key_check"@ {
        value is None || free(value->0)
    } else if name == "quick_check"@ {
        value is None || is_u32(value->0) || free(value->0)
    } else if name == "optimize"@ {
        value is None || sql_i32(value->0)
    } else {
        false
    }
}

/// The view of an optional text.
pub open spec fn opt_view(value: Option<&str>) -> Option<Seq<char>> {
    match value {
        Some(value) => Some(value@),
        None => None,
    }
}

/// Whether a pragma is allowed.
pub fn allowed_sql_pragma(user_sql: bool, name: &str, value: Option<&str>) -> (answer: bool)
    ensures
        answer == pragma_allowed(user_sql, name@, opt_view(value)),
{
    let word = text::lowered(&text::chars_of(name));
    if is(&word, "data_version") || is(&word, "table_list") || is(&word, "schema_version") {
        return value.is_none();
    }
    if is(&word, "case_sensitive_like") || is(&word, "foreign_keys") || is(
        &word,
        "defer_foreign_keys",
    ) || is(&word, "ignore_check_constraints") || is(&word, "legacy_alter_table") || is(
        &word,
        "recursive_triggers",
    ) || is(&word, "reverse_unordered_selects") {
        return match value {
            None => true,
            Some(value) => valid_sql_boolean(value),
        };
    }
    if is(&word, "table_info") || is(&word, "table_xinfo") || is(&word, "foreign_key_list") || is(
        &word,
        "index_info",
    ) || is(&word, "index_list") || is(&word, "index_xinfo") {
        return match value {
            None => false,
            Some(value) => !is_reserved_sql_name(user_sql, value),
        };
    }
    if is(&word, "foreign_key_check") {
        return match value {
            None => true,
            Some(value) => !is_reserved_sql_name(user_sql, value),
        };
    }
    if is(&word, "quick_check") {
        return match value {
            None => true,
            Some(value) => numbers::parse_natural(
                &text::chars_of(value),
                10,
                4294967295,
            ).is_some() || !is_reserved_sql_name(user_sql, value),
        };
    }
    if is(&word, "optimize") {
        return match value {
            None => true,
            Some(value) => valid_sql_i32(value),
        };
    }
    false
}

/// Whether an action is denied whoever asks: transactions, attached databases
/// and temporary objects, pragmas and virtual-table modules that are not
/// listed, and three functions.
///
/// Denying `ATTACH` is also what blocks `VACUUM` and `VACUUM INTO`, which SQLite
/// implements with one.
pub open spec fn prohibited(user_sql: bool, action: SqlAction<'_>) -> bool {
    match action {
        SqlAction::Transaction
        | SqlAction::Savepoint
        | SqlAction::Attach
        | SqlAction::Detach
        | SqlAction::CreateTempIndex
        | SqlAction::CreateTempTable
        | SqlAction::CreateTempTrigger
        | SqlAction::CreateTempView
        | SqlAction::DropTempIndex
        | SqlAction::DropTempTable
        | SqlAction::DropTempTrigger
        | SqlAction::DropTempView => true,
        SqlAction::Pragma { pragma_name, pragma_value } => !pragma_allowed(
            user_sql,
            pragma_name@,
            opt_view(pragma_value),
        ),
        SqlAction::CreateVtable { module_name, .. } => {
            &&& !text::same_ignoring_case(module_name@, "fts5"@)
            &&& !text::same_ignoring_case(module_name@, "fts5vocab"@)
            &&& !text::same_ignoring_case(module_name@, "vec0"@)
        },
        SqlAction::Function { function_name } => {
            let name = text::lower_all(function_name@);
            name == "load_extension"@ || name == "sqlite_version"@ || name == "sqlite_source_id"@
        },
        _ => false,
    }
}

/// The names that an action touches. `ANALYZE` touches none that matters: it
/// reads index names and row counts, and no rows.
pub open spec fn touched(action: SqlAction<'_>) -> Seq<Seq<char>> {
    match action {
        SqlAction::Unknown { arg1, arg2 } => (match arg1 {
            Some(name) => seq![name@],
            None => seq![],
        }) + (match arg2 {
            Some(name) => seq![name@],
            None => seq![],
        }),
        SqlAction::CreateIndex { index_name, table_name } => seq![index_name@, table_name@],
        SqlAction::DropIndex { index_name, table_name } => seq![index_name@, table_name@],
        SqlAction::CreateTrigger { trigger_name, table_name } => seq![trigger_name@, table_name@],
        SqlAction::DropTrigger { trigger_name, table_name } => seq![trigger_name@, table_name@],
        SqlAction::CreateTable { table_name } => seq![table_name@],
        SqlAction::Delete { table_name } => seq![table_name@],
        SqlAction::DropTable { table_name } => seq![table_name@],
        SqlAction::Insert { table_name } => seq![table_name@],
        SqlAction::CreateView { view_name } => seq![view_name@],
        SqlAction::DropView { view_name } => seq![view_name@],
        SqlAction::Read { table_name, column_name } => seq![table_name@, column_name@],
        SqlAction::Update { table_name, column_name } => seq![table_name@, column_name@],
        SqlAction::AlterTable { database_name, table_name } => seq![database_name@, table_name@],
        SqlAction::CreateVtable { table_name, .. } => seq![table_name@],
        SqlAction::DropVtable { table_name } => seq![table_name@],
        SqlAction::Reindex { index_name } => seq![index_name@],
        _ => seq![],
    }
}

/// Whether some name of a list is reserved.
pub open spec fn any_reserved(names: Seq<Seq<char>>) -> bool {
    exists|i: int| 0 <= i < names.len() && reserved_name(#[trigger] names[i])
}

/// Whether an optional name is reserved.
pub open spec fn opt_reserved(name: Option<&str>) -> bool {
    name matches Some(name) && reserved_name(name@)
}

/// The answer about one access in a database, on behalf of a trigger or a view
/// if an accessor is named.
pub open spec fn authorized(
    user_sql: bool,
    action: SqlAction<'_>,
    database_name: Option<&str>,
    accessor: Option<&str>,
) -> bool {
    &&& !prohibited(user_sql, action)
    &&& user_sql ==> !any_reserved(touched(action)) && !opt_reserved(database_name)
        && !opt_reserved(accessor)
}

fn opt_is_reserved(user_sql: bool, name: Option<&str>) -> (answer: bool)
    ensures
        answer == (user_sql && opt_reserved(name)),
{
    match name {
        Some(name) => is_reserved_sql_name(user_sql, name),
        None => false,
    }
}

fn is_prohibited(user_sql: bool, action: &SqlAction<'_>) -> (answer: bool)
    ensures
        answer == prohibited(user_sql, *action),
{
    match action {
        SqlAction::Transaction
        | SqlAction::Savepoint
        | SqlAction::Attach
        | SqlAction::Detach
        | SqlAction::CreateTempIndex
        | SqlAction::CreateTempTable
        | SqlAction::CreateTempTrigger
        | SqlAction::CreateTempView
        | SqlAction::DropTempIndex
        | SqlAction::DropTempTable
        | SqlAction::DropTempTrigger
        | SqlAction::DropTempView => true,
        SqlAction::Pragma { pragma_name, pragma_value } => !allowed_sql_pragma(
            user_sql,
            pragma_name,
            *pragma_value,
        ),
        SqlAction::CreateVtable { module_name, .. } => !text::text_eq_ignoring_case(
            module_name,
            "fts5",
        ) && !text::text_eq_ignoring_case(module_name, "fts5vocab") && !text::text_eq_ignoring_case(
            module_name,
            "vec0",
        ),
        SqlAction::Function { function_name } => {
            let word = text::lowered(&text::chars_of(function_name));
            is(&word, "load_extension") || is(&word, "sqlite_version") || is(
                &word,
                "sqlite_source_id",
            )
        },
        _ => false,
    }
}

fn one_reserved(user_sql: bool, name: &str) -> (answer: bool)
    ensures
        answer == (user_sql && any_reserved(seq![name@])),
{
    let answer = is_reserved_sql_name(user_sql, name);
    assert(seq![name@][0] == name@);
    answer
}

fn two_reserved(user_sql: bool, a: &str, b: &str) -> (answer: bool)
    ensures
        answer == (user_sql && any_reserved(seq![a@, b@])),
{
    let answer = is_reserved_sql_name(user_sql, a) || is_reserved_sql_name(user_sql, b);
    assert(seq![a@, b@][0] == a@ && seq![a@, b@][1] == b@);
    answer
}

fn touches_reserved(user_sql: bool, action: &SqlAction<'_>) -> (answer: bool)
    ensures
        answer == (user_sql && any_reserved(touched(*action))),
{
    match action {
        SqlAction::Unknown { arg1, arg2 } => {
            let answer = opt_is_reserved(user_sql, *arg1) || opt_is_reserved(user_sql, *arg2);
            proof {
                let names = touched(*action);
                if opt_reserved(*arg1) {
                    assert(reserved_name(names[0]));
                } else if opt_reserved(*arg2) {
                    assert(reserved_name(names[names.len() - 1]));
                }
            }
            answer
        },
        SqlAction::CreateIndex { index_name, table_name } => two_reserved(
            user_sql,
            index_name,
            table_name,
        ),
        SqlAction::DropIndex { index_name, table_name } => two_reserved(
            user_sql,
            index_name,
            table_name,
        ),
        SqlAction::CreateTrigger { trigger_name, table_name } => two_reserved(
            user_sql,
            trigger_name,
            table_name,
        ),
        SqlAction::DropTrigger { trigger_name, table_name } => two_reserved(
            user_sql,
            trigger_name,
            table_name,
        ),
        SqlAction::CreateTable { table_name } => one_reserved(user_sql, table_name),
        SqlAction::Delete { table_name } => one_reserved(user_sql, table_name),
        SqlAction::DropTable { table_name } => one_reserved(user_sql, table_name),
        SqlAction::Insert { table_name } => one_reserved(user_sql, table_name),
        SqlAction::CreateView { view_name } => one_reserved(user_sql, view_name),
        SqlAction::DropView { view_name } => one_reserved(user_sql, view_name),
        SqlAction::Read { table_name, column_name } => two_reserved(
            user_sql,
            table_name,
            column_name,
        ),
        SqlAction::Update { table_name, column_name } => two_reserved(
            user_sql,
            table_name,
            column_name,
        ),
        SqlAction::AlterTable { database_name, table_name } => two_reserved(
            user_sql,
            database_name,
            table_name,
        ),
        SqlAction::CreateVtable { table_name, .. } => one_reserved(user_sql, table_name),
        SqlAction::DropVtable { table_name } => one_reserved(user_sql, table_name),
        SqlAction::Reindex { index_name } => one_reserved(user_sql, index_name),
        _ => false,
    }
}

/// Answer SQLite about one access.
pub fn authorize_sql(
    user_sql: bool,
    action: &SqlAction<'_>,
    database_name: Option<&str>,
    accessor: Option<&str>,
) -> (answer: Authorization)
    ensures
        answer == (if authorized(user_sql, *action, database_name, accessor) {
            Authorization::Allow
        } else {
            Authorization::Deny
        }),
{
    if is_prohibited(user_sql, action) || touches_reserved(user_sql, action) || opt_is_reserved(
        user_sql,
        database_name,
    ) || opt_is_reserved(user_sql, accessor) {
        Authorization::Deny
    } else {
        Authorization::Allow
    }
}

/// Application SQL reaches no reserved name, however it spells it, and no
/// engine table behind a view or a trigger.
pub proof fn law_reserved_names_are_out_of_reach(
    action: SqlAction<'_>,
    database_name: Option<&str>,
    accessor: Option<&str>,
    i: int,
)
    requires
        0 <= i < touched(action).len(),
        reserved_name(touched(action)[i]),
    ensures
        !authorized(true, action, database_name, accessor),
{
}

/// A transaction cannot be opened, and no other database attached, by any SQL
/// that is asked about.
pub proof fn law_transactions_are_the_engines(
    user_sql: bool,
    database_name: Option<&str>,
    accessor: Option<&str>,
)
    ensures
        !authorized(user_sql, SqlAction::Transaction, database_name, accessor),
        !authorized(user_sql, SqlAction::Savepoint, database_name, accessor),
        !authorized(user_sql, SqlAction::Attach, database_name, accessor),
{
}

/// Changing the case of ASCII letters changes no reservation.
pub proof fn law_reservation_ignores_case(a: Seq<char>, b: Seq<char>)
    requires
        text::same_ignoring_case(a, b),
    ensures
        reserved_name(a) == reserved_name(b),
{
    if a.len() >= 4 {
        assert(text::same_ignoring_case(a.take(4), b.take(4))) by {
            assert forall|i: int| 0 <= i < 4 implies text::lower(#[trigger] a.take(4)[i])
                == text::lower(b.take(4)[i]) by {
                assert(text::lower(a[i]) == text::lower(b[i]));
            }
        }
        lemma_case_transitive(a.take(4), b.take(4), "_cf_"@);
        lemma_case_transitive(b.take(4), a.take(4), "_cf_"@);
    }
    lemma_case_transitive(a, b, db::SEQ_TABLE@);
    lemma_case_transitive(b, a, db::SEQ_TABLE@);
    lemma_case_transitive(a, b, db::LOCK_TABLE@);
    lemma_case_transitive(b, a, db::LOCK_TABLE@);
}

proof fn lemma_case_transitive(a: Seq<char>, b: Seq<char>, c: Seq<char>)
    requires
        text::same_ignoring_case(a, b) || text::same_ignoring_case(b, a),
    ensures
        text::same_ignoring_case(b, c) ==> text::same_ignoring_case(a, c),
{
    if text::same_ignoring_case(b, c) {
        assert forall|i: int| 0 <= i < a.len() implies text::lower(#[trigger] a[i]) == text::lower(
            c[i],
        ) by {
            assert(text::lower(b[i]) == text::lower(c[i]));
            assert(text::lower(a[i]) == text::lower(b[i]));
        }
    }
}

/// Ordinary SQL is allowed. Reading, writing, and creating, altering and dropping
/// tables, indexes, views and triggers are denied only where a name that they touch,
/// the database or the accessor is reserved for whoever asks: `free` holds of a name
/// that is not.
pub proof fn law_ordinary_sql_is_allowed(
    user_sql: bool,
    database_name: Option<&str>,
    accessor: Option<&str>,
    a: &str,
    b: &str,
)
    ensures
        ({
            let free = |name: &str| !user_sql || !reserved_name(name@);
            let place = (database_name matches Some(name) ==> free(name)) && (
            accessor matches Some(name) ==> free(name));
            let allowed = |action: SqlAction<'_>|
                authorized(user_sql, action, database_name, accessor);
            &&& allowed(SqlAction::Select) == place
            &&& allowed(SqlAction::Analyze) == place
            &&& allowed(SqlAction::Recursive) == place
            &&& allowed(SqlAction::Insert { table_name: a }) == (place && free(a))
            &&& allowed(SqlAction::Delete { table_name: a }) == (place && free(a))
            &&& allowed(SqlAction::CreateTable { table_name: a }) == (place && free(a))
            &&& allowed(SqlAction::DropTable { table_name: a }) == (place && free(a))
            &&& allowed(SqlAction::CreateView { view_name: a }) == (place && free(a))
            &&& allowed(SqlAction::DropView { view_name: a }) == (place && free(a))
            &&& allowed(SqlAction::DropVtable { table_name: a }) == (place && free(a))
            &&& allowed(SqlAction::Reindex { index_name: a }) == (place && free(a))
            &&& allowed(SqlAction::Read { table_name: a, column_name: b }) == (place && free(a)
                && free(b))
            &&& allowed(SqlAction::Update { table_name: a, column_name: b }) == (place && free(a)
                && free(b))
            &&& allowed(SqlAction::CreateIndex { index_name: a, table_name: b }) == (place && free(
                a,
            ) && free(b))
            &&& allowed(SqlAction::DropIndex { index_name: a, table_name: b }) == (place && free(a)
                && free(b))
            &&& allowed(SqlAction::CreateTrigger { trigger_name: a, table_name: b }) == (place
                && free(a) && free(b))
            &&& allowed(SqlAction::DropTrigger { trigger_name: a, table_name: b }) == (place
                && free(a) && free(b))
            &&& allowed(SqlAction::AlterTable { database_name: a, table_name: b }) == (place
                && free(a) && free(b))
            &&& allowed(SqlAction::Unknown { arg1: None, arg2: None }) == place
            &&& allowed(SqlAction::Unknown { arg1: Some(a), arg2: None }) == (place && free(a))
            &&& allowed(SqlAction::Unknown { arg1: None, arg2: Some(b) }) == (place && free(b))
            &&& allowed(SqlAction::Unknown { arg1: Some(a), arg2: Some(b) }) == (place && free(a)
                && free(b))
        }),
{
    assert(seq![a@][0] == a@);
    assert(seq![b@][0] == b@);
    assert(seq![a@, b@][0] == a@ && seq![a@, b@][1] == b@);
    assert(seq![a@] + Seq::<Seq<char>>::empty() =~= seq![a@]);
    assert(Seq::<Seq<char>>::empty() + seq![b@] =~= seq![b@]);
    assert(seq![a@] + seq![b@] =~= seq![a@, b@]);
}

/// What no SQL may do, whoever wrote it: open, commit or leave a transaction or a
/// savepoint, attach or detach a database, and create or drop temporary objects.
pub proof fn law_nobody_may(
    user_sql: bool,
    action: SqlAction<'_>,
    database_name: Option<&str>,
    accessor: Option<&str>,
)
    requires
        ({
            ||| action is Transaction
            ||| action is Savepoint
            ||| action is Attach
            ||| action is Detach
            ||| action is CreateTempIndex
            ||| action is CreateTempTable
            ||| action is CreateTempTrigger
            ||| action is CreateTempView
            ||| action is DropTempIndex
            ||| action is DropTempTable
            ||| action is DropTempTrigger
            ||| action is DropTempView
        }),
    ensures
        !authorized(user_sql, action, database_name, accessor),
{
}

/// Which functions and virtual tables SQL may use: every function but the three that
/// load code or tell SQLite's version, and the tables of three modules, each under any
/// spelling of its ASCII letters.
pub proof fn law_functions_and_modules(
    user_sql: bool,
    database_name: Option<&str>,
    accessor: Option<&str>,
    name: &str,
    table: &str,
)
    ensures
        ({
            let free = |name: &str| !user_sql || !reserved_name(name@);
            let place = (database_name matches Some(name) ==> free(name)) && (
            accessor matches Some(name) ==> free(name));
            let word = text::lower_all(name@);
            &&& authorized(
                user_sql,
                SqlAction::Function { function_name: name },
                database_name,
                accessor,
            ) == (place && word != "load_extension"@ && word != "sqlite_version"@ && word
                != "sqlite_source_id"@)
            &&& authorized(
                user_sql,
                SqlAction::CreateVtable { table_name: table, module_name: name },
                database_name,
                accessor,
            ) == (place && free(table) && (word == "fts5"@ || word == "fts5vocab"@ || word
                == "vec0"@))
        }),
{
    text::lemma_lower_word(name@, "fts5"@);
    text::lemma_lower_word(name@, "fts5vocab"@);
    text::lemma_lower_word(name@, "vec0"@);
    assert(text::lower_all("fts5"@) =~= "fts5"@) by {
        reveal_strlit("fts5");
    }
    assert(text::lower_all("fts5vocab"@) =~= "fts5vocab"@) by {
        reveal_strlit("fts5vocab");
    }
    assert(text::lower_all("vec0"@) =~= "vec0"@) by {
        reveal_strlit("vec0");
    }
    assert(seq![table@][0] == table@);
}

/// Which pragmas SQL may use, under any spelling of their ASCII letters: those that
/// only answer, without a value; the switches, with no value or a boolean; those that
/// describe a table or an index, with a name that is not reserved for whoever asks; and
/// `foreign_key_check`, `quick_check` and `optimize` with what each takes. No other.
pub proof fn law_only_listed_pragmas(
    user_sql: bool,
    database_name: Option<&str>,
    accessor: Option<&str>,
    name: &str,
    value: Option<&str>,
)
    requires
        !user_sql || !(database_name matches Some(name) && reserved_name(name@)),
        !user_sql || !(accessor matches Some(name) && reserved_name(name@)),
    ensures
        ({
            let word = text::lower_all(name@);
            let free = value matches Some(text) ==> !user_sql || !reserved_name(text@);
            let answer = authorized(
                user_sql,
                SqlAction::Pragma { pragma_name: name, pragma_value: value },
                database_name,
                accessor,
            );
            let answers = word == "data_version"@ || word == "table_list"@ || word
                == "schema_version"@;
            let switches = word == "case_sensitive_like"@ || word == "foreign_keys"@ || word
                == "defer_foreign_keys"@ || word == "ignore_check_constraints"@ || word
                == "legacy_alter_table"@ || word == "recursive_triggers"@ || word
                == "reverse_unordered_selects"@;
            let describes = word == "table_info"@ || word == "table_xinfo"@ || word
                == "foreign_key_list"@ || word == "index_info"@ || word == "index_list"@ || word
                == "index_xinfo"@;
            let other = word == "foreign_key_check"@ || word == "quick_check"@ || word
                == "optimize"@;
            &&& answer ==> answers || switches || describes || other
            &&& answers && value is None ==> answer
            &&& answer && value is Some ==> switches || describes || other
            &&& switches && value is None ==> answer
            &&& answer && switches && !answers ==> (value matches Some(text) ==> sql_boolean(text@))
            &&& switches && !answers && (value matches Some(text) && sql_boolean(text@)) ==> answer
            &&& describes && !answers && !switches ==> answer == (value is Some && free)
            &&& word == "foreign_key_check"@ && !answers && !switches && !describes ==> answer
                == free
            &&& other && !answers && !switches && !describes && value is None ==> answer
            &&& word == "quick_check"@ && word != "foreign_key_check"@ && !answers && !switches
                && !describes ==> (value matches Some(text) ==> answer == (free || is_u32(text@)))
            &&& word == "optimize"@ && word != "foreign_key_check"@ && word != "quick_check"@
                && !answers && !switches && !describes ==> (value matches Some(text) ==> answer
                == sql_i32(text@))
        }),
{
}

/// What a reserved name is: one that begins with `_cf_`, in any spelling of the two
/// letters, or replication's control tables, in any spelling of theirs.
pub proof fn law_reserved_names(name: Seq<char>)
    ensures
        reserved_name(name) <==> {
            ||| name.len() >= 4 && name[0] == '_' && (name[1] == 'c' || name[1] == 'C') && (name[2]
                == 'f' || name[2] == 'F') && name[3] == '_'
            ||| text::lower_all(name) == "_litestream_seq"@
            ||| text::lower_all(name) == "_litestream_lock"@
        },
{
    text::lemma_lower_word(name, "_litestream_seq"@);
    text::lemma_lower_word(name, "_litestream_lock"@);
    assert(text::lower_all("_litestream_seq"@) =~= "_litestream_seq"@) by {
        reveal_strlit("_litestream_seq");
    }
    assert(text::lower_all("_litestream_lock"@) =~= "_litestream_lock"@) by {
        reveal_strlit("_litestream_lock");
    }
    reveal_strlit("_cf_");
    if name.len() >= 4 {
        let head = name.take(4);
        assert(head[0] == name[0] && head[1] == name[1] && head[2] == name[2] && head[3]
            == name[3]);
        if text::same_ignoring_case(head, "_cf_"@) {
            assert(text::lower(head[0]) == '_');
            assert(text::lower(head[1]) == 'c');
            assert(text::lower(head[2]) == 'f');
            assert(text::lower(head[3]) == '_');
        }
    }
}

/// What SQLite reads as a boolean: eight words, in any case, in single or double quotes or none,
/// with white space around it or none.
pub proof fn law_sql_booleans(value: Seq<char>, word: Seq<char>)
    requires
        text::lower_all(value) == word,
        word.len() > 0,
        forall|i: int| 0 <= i < value.len() ==> !text::white_space(#[trigger] value[i]),
        forall|i: int|
            0 <= i < value.len() ==> (#[trigger] value[i]) != '\'' && value[i] != '"',
    ensures
        ({
            let known = word == "true"@ || word == "false"@ || word == "yes"@ || word == "no"@
                || word == "on"@ || word == "off"@ || word == "1"@ || word == "0"@;
            &&& sql_boolean(value) <==> known
            &&& sql_boolean(seq!['\''] + value + seq!['\'']) <==> known
            &&& sql_boolean(seq!['"'] + value + seq!['"']) <==> known
            &&& sql_boolean(seq![' '] + value + seq![' ']) <==> known
        }),
{
    let white = |c: char| text::white_space(c);
    assert(value.len() == word.len());
    assert(!text::white_space(value[0]) && !text::white_space(value[value.len() - 1]));
    assert(text::trimmed_by(value, white) == value);
    assert(value[0] != '\'' && value[0] != '"');
    assert(unquoted(value) == value);
    let single = seq!['\''] + value + seq!['\''];
    assert(single[0] == '\'' && single.last() == '\'');
    assert(text::trimmed_by(single, white) == single);
    assert(single.subrange(1, single.len() - 1) =~= value);
    let double = seq!['"'] + value + seq!['"'];
    assert(double[0] == '"' && double.last() == '"');
    assert(text::trimmed_by(double, white) == double);
    assert(double.subrange(1, double.len() - 1) =~= value);
    let spaced = seq![' '] + value + seq![' '];
    assert(spaced[0] == ' ');
    assert(spaced.drop_first() =~= value + seq![' ']);
    assert((value + seq![' '])[0] == value[0]);
    assert((value + seq![' ']).last() == ' ');
    assert((value + seq![' ']).drop_last() =~= value);
    assert(text::trimmed_by(value + seq![' '], white) == value);
    assert(text::trimmed_by(spaced, white) == value);
}

/// Which numbers a pragma takes: in decimal those of 32 bits, signed or not as it asks, and in
/// hexadecimal behind `0x` those that are not negative.
pub proof fn law_pragma_numbers(n: nat)
    ensures
        is_u32(numbers::decimal_text(n)) <==> n <= u32::MAX,
        sql_i32(numbers::decimal_text(n)) <==> n <= i32::MAX,
        n > 0 ==> (sql_i32(numbers::signed_text(-(n as int))) <==> n <= 0x8000_0000),
        sql_i32("0x"@ + numbers::hex_text(n, 1)) <==> n <= i32::MAX,
        sql_i32("0X"@ + numbers::hex_text(n, 1)) <==> n <= i32::MAX,
{
    numbers::law_decimal_reads_back(n);
    numbers::law_hex_reads_back(n, 1);
    reveal_strlit("0x");
    reveal_strlit("0X");
    let d = numbers::decimal_text(n);
    assert(!text::begins_with(d, "0x"@) && !text::begins_with(d, "0X"@)) by {
        if text::begins_with(d, "0x"@) {
            assert(d.subrange(0, 2)[1] == d[1]);
            assert('0' <= d[1] && d[1] <= '9');
        }
        if text::begins_with(d, "0X"@) {
            assert(d.subrange(0, 2)[1] == d[1]);
            assert('0' <= d[1] && d[1] <= '9');
        }
    }
    if n > 0 {
        let s = numbers::signed_text(-(n as int));
        assert(s[0] == '-');
        if text::begins_with(s, "0x"@) {
            assert(s.subrange(0, 2)[0] == s[0]);
        }
        if text::begins_with(s, "0X"@) {
            assert(s.subrange(0, 2)[0] == s[0]);
        }
    }
    let hex = numbers::hex_text(n, 1);
    lemma_hex_number("0x"@, hex, n);
    lemma_hex_number("0X"@, hex, n);
}

proof fn lemma_hex_number(prefix: Seq<char>, hex: Seq<char>, n: nat)
    requires
        prefix == "0x"@ || prefix == "0X"@,
        numbers::digits_value(hex, 16) == Some(n),
        hex.len() > 0,
        forall|i: int|
            0 <= i < hex.len() ==> {
                let c = #[trigger] hex[i];
                '0' <= c <= '9' || 'a' <= c <= 'f'
            },
    ensures
        sql_i32(prefix + hex) <==> n <= i32::MAX,
{
    reveal_strlit("0x");
    reveal_strlit("0X");
    let s = prefix + hex;
    assert(s.subrange(0, 2) =~= prefix);
    assert(s.skip(2) =~= hex);
    assert('0' <= hex[0] <= '9' || 'a' <= hex[0] <= 'f');
    assert(numbers::natural_text(hex, 16) == Some(n));
    assert(numbers::integer_text(s) is None) by {
        assert(s[0] == '0');
        lemma_spoiled(s, 1);
    }
}

/// A character that is no decimal digit spoils a number, wherever it stands.
proof fn lemma_spoiled(s: Seq<char>, i: int)
    requires
        0 <= i < s.len(),
        !('0' <= s[i] <= '9'),
    ensures
        numbers::digits_value(s, 10) is None,
    decreases s.len(),
{
    numbers::law_digits(s.last(), 10);
    if i < s.len() - 1 {
        lemma_spoiled(s.drop_last(), i);
    }
}

} // verus!
