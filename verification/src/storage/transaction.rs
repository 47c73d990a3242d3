//! The storage transactions that an application opens.

use vstd::prelude::*;

use crate::numbers;
use crate::storage::alarms;
use crate::storage::alarms::AlarmRead;
use crate::storage::cells;
use crate::storage::cells::Cells;
use crate::storage::facets;
use crate::storage::facets::RootTransactions;
use crate::storage::journal;
use crate::text;
use crate::text_map::TextMap;

verus! {

/// The refusal to commit on a poisoned scope.
pub const CANNOT_COMMIT: &'static str =
    "Cannot commit transaction due to an earlier SQL critical error";

pub const BAD_SAVEPOINT: &'static str = "invalid storage transaction savepoint";

pub const BAD_ACTION: &'static str = "invalid storage transaction action";

/// What an application asks of a transaction. An explicit rollback is one that
/// the application asked for, and not one that a failure caused.
#[derive(Clone, Copy, PartialEq, Eq, Structural)]
pub enum Action {
    Start,
    Commit,
    Rollback,
    RollbackExplicit,
}

/// The action that a name asks for.
pub open spec fn action_of(name: Seq<char>) -> Option<Action> {
    if name == "start"@ {
        Some(Action::Start)
    } else if name == "commit"@ {
        Some(Action::Commit)
    } else if name == "rollback"@ {
        Some(Action::Rollback)
    } else if name == "rollback_explicit"@ {
        Some(Action::RollbackExplicit)
    } else {
        None
    }
}

/// The action that a name asks for.
pub fn parse_action(name: &str) -> (action: Option<Action>)
    ensures
        action == action_of(name@),
{
    if text::same_text(name, "start") {
        Some(Action::Start)
    } else if text::same_text(name, "commit") {
        Some(Action::Commit)
    } else if text::same_text(name, "rollback") {
        Some(Action::Rollback)
    } else if text::same_text(name, "rollback_explicit") {
        Some(Action::RollbackExplicit)
    } else {
        None
    }
}

/// Whether a savepoint is one that the runtime names: its prefix and a number.
pub open spec fn runtime_savepoint(name: Seq<char>) -> bool {
    let prefix = "cells_tx_"@;
    &&& text::begins_with(name, prefix)
    &&& numbers::natural_text(name.skip(prefix.len() as int), 10) matches Some(n) && n <= u64::MAX
}

/// Whether a savepoint is one that the runtime names.
pub fn is_runtime_savepoint(name: &str) -> (answer: bool)
    ensures
        answer == runtime_savepoint(name@),
{
    let chars = text::chars_of(name);
    let prefix = text::chars_of("cells_tx_");
    if !text::starts_with(&chars, &prefix) {
        return false;
    }
    let number = text::cut(&chars, prefix.len(), chars.len());
    assert(number@ =~= name@.skip(prefix@.len() as int));
    numbers::parse_natural(&number, 10, u64::MAX).is_some()
}

/// The SQL of an action: a nested transaction is a savepoint.
pub open spec fn control_sql(action: Action, nested: bool, savepoint: Seq<char>) -> Seq<char> {
    match (action, nested) {
        (Action::Start, false) => "BEGIN IMMEDIATE"@,
        (Action::Start, true) => "SAVEPOINT "@ + savepoint,
        (Action::Commit, false) => "COMMIT"@,
        (Action::Commit, true) => "RELEASE "@ + savepoint,
        (_, false) => "ROLLBACK"@,
        (_, true) => "ROLLBACK TO "@ + savepoint + "; RELEASE "@ + savepoint,
    }
}

fn control_text(action: Action, nested: bool, savepoint: &str) -> (sql: String)
    ensures
        sql@ == control_sql(action, nested, savepoint@),
{
    if nested {
        match action {
            Action::Start => text::concat("SAVEPOINT ", savepoint),
            Action::Commit => text::concat("RELEASE ", savepoint),
            _ => {
                let back = text::concat("ROLLBACK TO ", savepoint);
                text::concat3(&back, "; RELEASE ", savepoint)
            },
        }
    } else {
        match action {
            Action::Start => "BEGIN IMMEDIATE".to_owned(),
            Action::Commit => "COMMIT".to_owned(),
            _ => "ROLLBACK".to_owned(),
        }
    }
}

/// What to do about a request.
pub enum ControlStep {
    /// Make the writes, then run the SQL; then settle.
    Run { sql: String, writes: Vec<(String, Vec<u8>)> },
    /// SQLite has ended the transaction already; settle.
    Settle,
}

/// The refusal of a request. On a poisoned scope everything is refused but the
/// rollback that a failure causes. A nested request has to name a savepoint of
/// the runtime's.
pub open spec fn control_refusal(
    state: Cells,
    scope: Seq<char>,
    action: Seq<char>,
    nested: bool,
    savepoint: Seq<char>,
) -> Option<Seq<char>> {
    match cells::critical_text(state, scope) {
        Some(error) => if action_of(action) == Some(Action::Rollback) {
            None
        } else if action_of(action) == Some(Action::Commit) {
            Some(CANNOT_COMMIT@)
        } else {
            Some(error)
        },
        None => if nested && !runtime_savepoint(savepoint) {
            Some(BAD_SAVEPOINT@)
        } else if !state.open_cells@.dom().contains(scope) {
            Some("no db for "@ + scope)
        } else if action_of(action) is None {
            Some(BAD_ACTION@)
        } else {
            None
        },
    }
}

/// Admit a transaction request: the SQL to run, with the waiting facet images
/// to write before an outermost commit, or the refusal.
pub fn transaction_control(
    state: &Cells,
    all: &RootTransactions,
    scope: &str,
    action: &str,
    nested: bool,
    savepoint: &str,
) -> (result: Result<ControlStep, String>)
    requires
        state.wf(),
        all.wf(),
    ensures
        match result {
            Err(error) => control_refusal(*state, scope@, action@, nested, savepoint@) == Some(
                error@,
            ),
            Ok(ControlStep::Settle) => {
                &&& control_refusal(*state, scope@, action@, nested, savepoint@) is None
                &&& cells::critical_text(*state, scope@) is Some
            },
            Ok(ControlStep::Run { sql, writes }) => {
                &&& control_refusal(*state, scope@, action@, nested, savepoint@) is None
                &&& cells::critical_text(*state, scope@) is None
                &&& sql@ == control_sql(action_of(action@)->0, nested, savepoint@)
                &&& if action_of(action@) == Some(Action::Commit) && !nested {
                    forall|path: Seq<char>| #[trigger]
                        journal::last_write(writes@, path) == journal::image_of(
                            journal::pending(
                                all.layers(scope@, state.open_cells@[scope@].epoch),
                                path,
                            ),
                        )
                } else {
                    writes@.len() == 0
                }
            },
        },
{
    let parsed = parse_action(action);
    match cells::sql_critical_error(state, scope) {
        Some(error) => {
            return match parsed {
                Some(Action::Rollback) => Ok(ControlStep::Settle),
                Some(Action::Commit) => Err(CANNOT_COMMIT.to_owned()),
                _ => Err(error),
            };
        },
        None => {},
    }
    if nested && !is_runtime_savepoint(savepoint) {
        return Err(BAD_SAVEPOINT.to_owned());
    }
    let epoch: u64 = match state.open_cells.get(scope) {
        None => {
            return Err(text::concat("no db for ", scope));
        },
        Some(cell) => cell.epoch,
    };
    let action = match parsed {
        None => {
            return Err(BAD_ACTION.to_owned());
        },
        Some(action) => action,
    };
    let writes = if action == Action::Commit && !nested {
        facets::apply_deferred_facets(all, scope, epoch)
    } else {
        Vec::new()
    };
    Ok(ControlStep::Run { sql: control_text(action, nested, savepoint), writes })
}

/// Settle a request whose SQL has run: the facet images follow the transaction,
/// and the end of an outermost one publishes an alarm that moved inside it. The
/// answer is the alarm to gate a commit on; a rollback restores what was
/// committed before and is never gated.
pub fn transaction_settled(
    state: &mut Cells,
    all: &mut RootTransactions,
    restores: &mut TextMap<Option<Vec<u8>>>,
    scope: &str,
    action: Action,
    nested: bool,
    savepoint: &str,
    read: Option<AlarmRead>,
) -> (gate: Option<i64>)
    requires
        old(state).wf(),
        old(all).wf(),
        old(restores).wf(),
        action != Action::Start && old(state).open_cells@.dom().contains(scope@) && old(all).layers(
            scope@,
            old(state).open_cells@[scope@].epoch,
        ).len() > 0 ==> old(all).layers(
            scope@,
            old(state).open_cells@[scope@].epoch,
        ).last().savepoint == savepoint@,
    ensures
        final(state).wf(),
        final(all).wf(),
        final(restores).wf(),
        if action != Action::Start && !nested && old(state).alarm_dirty@.dom().contains(scope@) {
            alarms::published(*old(state), *final(state), scope@, read)
        } else {
            *final(state) == *old(state)
        },
        gate == (if action == Action::Commit && !nested && old(state).alarm_dirty@.dom().contains(
            scope@,
        ) {
            alarms::published_value(read)
        } else {
            None
        }),
        if !old(state).open_cells@.dom().contains(scope@) {
            *final(all) == *old(all) && *final(restores) == *old(restores)
        } else {
            let epoch = old(state).open_cells@[scope@].epoch;
            let before = old(all).layers(scope@, epoch);
            let after = final(all).layers(scope@, epoch);
            &&& final(all).only(old(all), scope@, epoch)
            &&& if action == Action::Start {
                &&& *final(restores) == *old(restores)
                &&& after == (if nested {
                    before
                } else {
                    Seq::empty()
                }).push(journal::Layer { savepoint: savepoint@, facets: Map::empty() })
            } else if before.len() == 0 {
                after == before && *final(restores) == *old(restores)
            } else {
                &&& after == facets::finished(before, nested, action == Action::Commit)
                &&& if action == Action::Commit {
                    *final(restores) == *old(restores)
                } else {
                    journal::sends_back(
                        journal::restore_view(*old(restores)),
                        journal::restore_view(*final(restores)),
                        before.drop_last(),
                        before.last().facets,
                    )
                }
            }
        },
{
    let epoch = match state.open_cells.get(scope) {
        Some(cell) => Some(cell.epoch),
        None => None,
    };
    match epoch {
        None => {},
        Some(epoch) => {
            if action == Action::Start {
                facets::begin_root_transaction(all, scope, epoch, nested, savepoint);
            } else {
                facets::finish_root_transaction(
                    all,
                    restores,
                    scope,
                    epoch,
                    nested,
                    savepoint,
                    action == Action::Commit,
                );
            }
        },
    }
    if action == Action::Start || nested {
        return None;
    }
    let published = alarms::publish_alarm_if_transaction_dirty(state, scope, read);
    if action == Action::Commit {
        published
    } else {
        None
    }
}

/// A poisoned scope can only roll back, and so never commits again.
pub proof fn law_poisoned_scope_never_commits(
    state: Cells,
    scope: Seq<char>,
    nested: bool,
    savepoint: Seq<char>,
)
    requires
        cells::critical_text(state, scope) is Some,
    ensures
        control_refusal(state, scope, "commit"@, nested, savepoint) is Some,
        control_refusal(state, scope, "start"@, nested, savepoint) is Some,
        control_refusal(state, scope, "rollback_explicit"@, nested, savepoint) is Some,
        control_refusal(state, scope, "rollback"@, nested, savepoint) is None,
{
    reveal_strlit("start");
    reveal_strlit("commit");
    reveal_strlit("rollback");
    reveal_strlit("rollback_explicit");
    assert("start"@.len() == 5 && "commit"@.len() == 6 && "rollback"@.len() == 8);
    assert("rollback_explicit"@.len() == 17);
}

/// A transaction's statement failed: what is said of it. A statement that ends a
/// transaction and that SQLite itself refused is recorded as a failed operation;
/// any other failure has its own message.
pub fn transaction_failed(
    state: &mut Cells,
    scope: &str,
    action: Action,
    sqlite: bool,
    message: String,
    detail: &str,
    poisons: bool,
) -> (error: String)
    requires
        old(state).wf(),
    ensures
        final(state).wf(),
        if action != Action::Start && sqlite {
            &&& error@ == "control storage transaction: "@ + detail@
            &&& if poisons {
                cells::poisoned_by(*old(state), *final(state), scope@, error@)
            } else {
                *final(state) == *old(state)
            }
        } else {
            &&& error@ == message@
            &&& *final(state) == *old(state)
        },
{
    let starts = match action {
        Action::Start => true,
        _ => false,
    };
    if !starts && sqlite {
        let error = cells::sqlite_operation_failure(
            state,
            scope,
            "control storage transaction",
            detail,
            poisons,
        );
        assert("control storage transaction"@ + ": "@ =~= "control storage transaction: "@) by {
            reveal_strlit("control storage transaction");
            reveal_strlit(": ");
            reveal_strlit("control storage transaction: ");
        }
        error
    } else {
        message
    }
}

/// The four words that control a transaction; no other one does.
pub proof fn law_control_words(name: Seq<char>)
    ensures
        action_of("start"@) == Some(Action::Start),
        action_of("commit"@) == Some(Action::Commit),
        action_of("rollback"@) == Some(Action::Rollback),
        action_of("rollback_explicit"@) == Some(Action::RollbackExplicit),
        action_of(name) is Some ==> name == "start"@ || name == "commit"@ || name == "rollback"@
            || name == "rollback_explicit"@,
{
    reveal_strlit("start");
    reveal_strlit("commit");
    reveal_strlit("rollback");
    reveal_strlit("rollback_explicit");
    assert("commit"@[0] == 'c' && "start"@[0] == 's' && "rollback"@[0] == 'r'
        && "rollback_explicit"@[0] == 'r');
    assert("rollback"@.len() != "rollback_explicit"@.len());
}

/// The savepoints that the engine names: the prefix and a number. Whatever goes on otherwise,
/// or does not begin so, is none, so that no text of an application's reaches the SQL.
pub proof fn law_engine_savepoints(n: u64, name: Seq<char>, c: char)
    ensures
        runtime_savepoint("cells_tx_"@ + numbers::decimal_text(n as nat)),
        runtime_savepoint(name) ==> text::begins_with(name, "cells_tx_"@) && name.len() > 9,
        runtime_savepoint(name) ==> forall|i: int|
            9 < i < name.len() ==> '0' <= #[trigger] name[i] && name[i] <= '9',
        !runtime_savepoint("cells_tx_"@),
{
    reveal_strlit("cells_tx_");
    let prefix = "cells_tx_"@;
    let s = prefix + numbers::decimal_text(n as nat);
    numbers::law_decimal_reads_back(n as nat);
    assert(s.subrange(0, 9) =~= prefix);
    assert(s.skip(9) =~= numbers::decimal_text(n as nat));
    assert(prefix.skip(9) =~= Seq::<char>::empty());
    if runtime_savepoint(name) {
        let rest = name.skip(9);
        let digits = numbers::after_plus(rest);
        lemma_all_digits(digits);
        assert forall|i: int| 9 < i < name.len() implies '0' <= #[trigger] name[i] && name[i]
            <= '9' by {
            assert(name[i] == rest[i - 9]);
            if rest[0] == '+' {
                assert(digits[i - 10] == name[i]);
            } else {
                assert(digits[i - 9] == name[i]);
            }
        }
    }
}

proof fn lemma_all_digits(s: Seq<char>)
    requires
        numbers::digits_value(s, 10) is Some,
    ensures
        forall|i: int| 0 <= i < s.len() ==> '0' <= #[trigger] s[i] && s[i] <= '9',
    decreases s.len(),
{
    if s.len() > 0 {
        lemma_all_digits(s.drop_last());
        numbers::law_digits(s.last(), 10);
        assert forall|i: int| 0 <= i < s.len() implies '0' <= #[trigger] s[i] && s[i] <= '9' by {
            if i < s.len() - 1 {
                assert(s.drop_last()[i] == s[i]);
            }
        }
    }
}

/// The SQL of each control: a transaction of its own begins, commits and rolls back as one;
/// a nested one is a savepoint, which a commit releases, and a rollback of either kind undoes
/// and then releases.
pub proof fn law_control_sql(savepoint: Seq<char>)
    ensures
        control_sql(Action::Start, false, savepoint) == "BEGIN IMMEDIATE"@,
        control_sql(Action::Commit, false, savepoint) == "COMMIT"@,
        control_sql(Action::Rollback, false, savepoint) == "ROLLBACK"@,
        control_sql(Action::RollbackExplicit, false, savepoint) == "ROLLBACK"@,
        control_sql(Action::Start, true, savepoint) == "SAVEPOINT "@ + savepoint,
        control_sql(Action::Commit, true, savepoint) == "RELEASE "@ + savepoint,
        control_sql(Action::Rollback, true, savepoint) == "ROLLBACK TO "@ + savepoint + "; RELEASE "@
            + savepoint,
        control_sql(Action::RollbackExplicit, true, savepoint) == control_sql(
            Action::Rollback,
            true,
            savepoint,
        ),
{
}

/// When a healthy scope's transaction is controlled: it is open, the word is one of the four,
/// and a nested one names a savepoint of the engine's. Otherwise the refusal says which of
/// these fails, the savepoint first.
pub proof fn law_healthy_scope_is_controlled(
    state: Cells,
    scope: Seq<char>,
    action: Seq<char>,
    nested: bool,
    savepoint: Seq<char>,
)
    requires
        cells::critical_text(state, scope) is None,
    ensures
        ({
            let word = action == "start"@ || action == "commit"@ || action == "rollback"@ || action
                == "rollback_explicit"@;
            let open = state.open_cells@.dom().contains(scope);
            let named = !nested || runtime_savepoint(savepoint);
            let refusal = control_refusal(state, scope, action, nested, savepoint);
            &&& refusal is None <==> word && open && named
            &&& !named ==> refusal == Some(BAD_SAVEPOINT@)
            &&& named && !open ==> refusal == Some("no db for "@ + scope)
            &&& named && open && !word ==> refusal == Some(BAD_ACTION@)
        }),
{
    law_control_words(action);
}

/// A poisoned scope can only be rolled back: a commit is told that it cannot, and anything
/// else the error that poisoned it.
pub proof fn law_poisoned_scope_is_told_why(
    state: Cells,
    scope: Seq<char>,
    error: Seq<char>,
    action: Seq<char>,
    nested: bool,
    savepoint: Seq<char>,
)
    requires
        cells::critical_text(state, scope) == Some(error),
    ensures
        control_refusal(state, scope, action, nested, savepoint) == (if action == "rollback"@ {
            None
        } else if action == "commit"@ {
            Some(CANNOT_COMMIT@)
        } else {
            Some(error)
        }),
{
    law_control_words(action);
}

} // verus!
