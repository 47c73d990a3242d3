//! A cell's alarm.
//!
//! The alarm row lives in SQLite, as its due time and a generation that every
//! explicit change renews. A running handler does not see the alarm that it was
//! fired for, and an alarm that the handler changed wins over its automatic
//! cleanup or retry.

use vstd::prelude::*;

use crate::storage::cells::ActiveAlarm;
use crate::storage::cells::AlarmSnapshot;
use crate::storage::cells::Cells;

verus! {

/// An alarm row: its due time and its generation.
#[derive(Clone, Copy, PartialEq, Eq, Structural)]
pub struct AlarmRow {
    pub at_ms: i64,
    pub generation: i64,
}

/// The generation of an alarm row.
pub open spec fn generation_of(row: Option<AlarmRow>) -> Option<i64> {
    match row {
        Some(row) => Some(row.generation),
        None => None,
    }
}

/// Whether the handler that runs in a scope was fired for this very row.
pub open spec fn fired_for(state: Cells, scope: Seq<char>, row: Option<AlarmRow>) -> bool {
    state.active_alarms@.dom().contains(scope) && state.active_alarms@[scope].generation
        == generation_of(row)
}

fn same_generation(a: Option<i64>, b: Option<i64>) -> (answer: bool)
    ensures
        answer == (a == b),
{
    match (a, b) {
        (Some(a), Some(b)) => a == b,
        (None, None) => true,
        _ => false,
    }
}

fn generation(row: Option<AlarmRow>) -> (out: Option<i64>)
    ensures
        out == generation_of(row),
{
    match row {
        Some(row) => Some(row.generation),
        None => None,
    }
}

/// When the alarm of a row is due, as the application sees it.
pub open spec fn visible(state: Cells, scope: Seq<char>, row: Option<AlarmRow>) -> Option<i64> {
    match row {
        Some(row) if !fired_for(state, scope, Some(row)) => Some(row.at_ms),
        _ => None,
    }
}

/// When the alarm is due, as the application sees it: a handler does not see
/// the alarm that it was fired for.
pub fn get_alarm(state: &Cells, scope: &str, row: Option<AlarmRow>) -> (at_ms: Option<i64>)
    requires
        state.wf(),
    ensures
        at_ms == visible(*state, scope@, row),
{
    let hidden = match state.active_alarms.get(scope) {
        Some(active) => same_generation(active.generation, generation(row)),
        None => false,
    };
    if hidden {
        return None;
    }
    match row {
        Some(row) => Some(row.at_ms),
        None => None,
    }
}

/// Enter an alarm handler.
pub fn begin_alarm_handler(
    state: &mut Cells,
    scope: &str,
    fired_at_ms: i64,
    row: Option<AlarmRow>,
)
    requires
        old(state).wf(),
    ensures
        final(state).wf(),
        *final(state) == (Cells { active_alarms: final(state).active_alarms, ..*old(state) }),
        final(state).active_alarms@ == old(state).active_alarms@.insert(
            scope@,
            (ActiveAlarm { fired_at_ms, generation: generation_of(row) }),
        ),
{
    let active = ActiveAlarm { fired_at_ms, generation: generation(row) };
    let _ = state.active_alarms.insert(scope, active);
}

/// The scheduled time of the handler that runs.
pub fn active_alarm_scheduled_time(state: &Cells, scope: &str) -> (at_ms: Option<i64>)
    requires
        state.wf(),
    ensures
        at_ms == (if state.active_alarms@.dom().contains(scope@) {
            Some(state.active_alarms@[scope@].fired_at_ms)
        } else {
            None
        }),
{
    match state.active_alarms.get(scope) {
        Some(active) => Some(active.fired_at_ms),
        None => None,
    }
}

/// What ending an alarm handler does to the alarm.
#[derive(Clone, Copy, PartialEq, Eq, Structural)]
pub enum AlarmEnd {
    /// Nothing: no handler ran, or it changed the alarm itself.
    Keep,
    /// Delete the row if it is still due at this time, then publish.
    Consume { at_ms: i64 },
    /// Schedule a retry, then publish.
    Retry { now_ms: i64, counts_against_limit: bool },
}

/// How a handler's end treats the alarm.
pub open spec fn alarm_end(
    state: Cells,
    scope: Seq<char>,
    succeeded: bool,
    now_ms: i64,
    retry_counts: bool,
    row: Option<AlarmRow>,
) -> AlarmEnd {
    if !fired_for(state, scope, row) {
        AlarmEnd::Keep
    } else if succeeded {
        AlarmEnd::Consume { at_ms: state.active_alarms@[scope].fired_at_ms }
    } else {
        AlarmEnd::Retry { now_ms, counts_against_limit: retry_counts }
    }
}

/// Finish an alarm handler. A successful handler consumes its alarm and a
/// failed one reschedules it, unless the handler changed it.
pub fn finish_alarm_handler_with_retry_policy(
    state: &mut Cells,
    scope: &str,
    succeeded: bool,
    now_ms: i64,
    retry_counts_against_limit: bool,
    row: Option<AlarmRow>,
) -> (end: AlarmEnd)
    requires
        old(state).wf(),
    ensures
        final(state).wf(),
        *final(state) == (Cells { active_alarms: final(state).active_alarms, ..*old(state) }),
        final(state).active_alarms@ == old(state).active_alarms@.remove(scope@),
        end == alarm_end(
            *old(state),
            scope@,
            succeeded,
            now_ms,
            retry_counts_against_limit,
            row,
        ),
{
    match state.active_alarms.remove(scope) {
        None => AlarmEnd::Keep,
        Some(active) => {
            if !same_generation(active.generation, generation(row)) {
                AlarmEnd::Keep
            } else if succeeded {
                AlarmEnd::Consume { at_ms: active.fired_at_ms }
            } else {
                AlarmEnd::Retry { now_ms, counts_against_limit: retry_counts_against_limit }
            }
        },
    }
}

/// Finish an alarm handler whose retries count against the limit.
pub fn finish_alarm_handler(
    state: &mut Cells,
    scope: &str,
    succeeded: bool,
    now_ms: i64,
    row: Option<AlarmRow>,
) -> (end: AlarmEnd)
    requires
        old(state).wf(),
    ensures
        final(state).wf(),
        *final(state) == (Cells { active_alarms: final(state).active_alarms, ..*old(state) }),
        final(state).active_alarms@ == old(state).active_alarms@.remove(scope@),
        end == alarm_end(*old(state), scope@, succeeded, now_ms, true, row),
{
    finish_alarm_handler_with_retry_policy(state, scope, succeeded, now_ms, true, row)
}

/// What a retry does to the alarm row.
#[derive(Clone, Copy, PartialEq, Eq, Structural)]
pub enum AlarmBump {
    /// No retry is left.
    Delete,
    /// The alarm is due again, and its counters grow by these.
    Update { at_ms: i64, retry: i64, counted_retry: i64 },
}

/// The retry that a schedule gives: `next` is the next due time, and a retry
/// that does not count against the limit leaves that counter alone.
pub fn bump_alarm_with_policy(next: Option<i64>, counts_against_limit: bool) -> (bump: AlarmBump)
    ensures
        bump == (match next {
            None => AlarmBump::Delete,
            Some(at_ms) => AlarmBump::Update {
                at_ms,
                retry: 1,
                counted_retry: if counts_against_limit {
                    1
                } else {
                    0
                },
            },
        }),
{
    match next {
        None => AlarmBump::Delete,
        Some(at_ms) => AlarmBump::Update {
            at_ms,
            retry: 1,
            counted_retry: if counts_against_limit {
                1
            } else {
                0
            },
        },
    }
}

/// What the connection answers to a publication.
#[derive(Clone, Copy)]
pub struct AlarmRead {
    pub autocommit: bool,
    /// The committed due time.
    pub at_ms: Option<i64>,
    /// The snapshot to publish, or nothing where it could not be read.
    pub snapshot: Option<AlarmSnapshot>,
}

/// The snapshot of a committed alarm: a scope whose wakes are replicated names
/// the write position that its wake record has to cover.
pub fn alarm_snapshot(
    state: &Cells,
    scope: &str,
    at_ms: Option<i64>,
    position: u64,
) -> (snapshot: AlarmSnapshot)
    requires
        state.wf(),
    ensures
        snapshot.at_ms == at_ms,
        snapshot.wake_position == (if state.open_cells@.dom().contains(scope@)
            && state.open_cells@[scope@].replicated_wake {
            Some(position)
        } else {
            None
        }),
{
    let replicated = match state.open_cells.get(scope) {
        Some(cell) => cell.replicated_wake,
        None => false,
    };
    AlarmSnapshot {
        at_ms,
        wake_position: if replicated {
            Some(position)
        } else {
            None
        },
    }
}

/// The state that a publication leaves. Inside a transaction the scope is only
/// marked; outside, the mark goes and the snapshot, if there is one, is a move.
pub open spec fn published(
    before: Cells,
    after: Cells,
    scope: Seq<char>,
    read: Option<AlarmRead>,
) -> bool {
    &&& after == (Cells {
        alarm_dirty: after.alarm_dirty,
        alarm_moves: after.alarm_moves,
        ..before
    })
    &&& match read {
        None => after.alarm_dirty@ == before.alarm_dirty@ && after.alarm_moves@
            == before.alarm_moves@,
        Some(read) => if read.autocommit {
            &&& after.alarm_dirty@ == before.alarm_dirty@.remove(scope)
            &&& after.alarm_moves@ == (match read.snapshot {
                Some(snapshot) => before.alarm_moves@.insert(scope, snapshot),
                None => before.alarm_moves@,
            })
        } else {
            &&& after.alarm_dirty@ == before.alarm_dirty@.insert(scope, ())
            &&& after.alarm_moves@ == before.alarm_moves@
        },
    }
}

/// The value that a publication answers: the committed due time, `-1` for none;
/// nothing inside a transaction or without a connection.
pub open spec fn published_value(read: Option<AlarmRead>) -> Option<i64> {
    match read {
        Some(read) if read.autocommit => Some(
            match read.at_ms {
                Some(at_ms) => at_ms,
                None => (-1int) as i64,
            },
        ),
        _ => None,
    }
}

/// Publish the alarm's committed state. An open transaction may still change or
/// drop a mutation, so its boundary publishes.
pub fn publish_alarm(state: &mut Cells, scope: &str, read: Option<AlarmRead>) -> (value: Option<
    i64,
>)
    requires
        old(state).wf(),
    ensures
        final(state).wf(),
        published(*old(state), *final(state), scope@, read),
        value == published_value(read),
{
    match read {
        None => None,
        Some(read) => {
            if !read.autocommit {
                let _ = state.alarm_dirty.insert(scope, ());
                return None;
            }
            let _ = state.alarm_dirty.remove(scope);
            match read.snapshot {
                Some(snapshot) => {
                    let _ = state.alarm_moves.insert(scope, snapshot);
                },
                None => {},
            }
            match read.at_ms {
                Some(at_ms) => Some(at_ms),
                None => Some(-1),
            }
        },
    }
}

/// Publish the alarm if it moved inside the transaction that just ended.
pub fn publish_alarm_if_transaction_dirty(
    state: &mut Cells,
    scope: &str,
    read: Option<AlarmRead>,
) -> (value: Option<i64>)
    requires
        old(state).wf(),
    ensures
        final(state).wf(),
        if old(state).alarm_dirty@.dom().contains(scope@) {
            published(*old(state), *final(state), scope@, read) && value == published_value(read)
        } else {
            *final(state) == *old(state) && value is None
        },
{
    if state.alarm_dirty.contains_key(scope) {
        publish_alarm(state, scope, read)
    } else {
        None
    }
}

/// A storage write that sets the alarm succeeded: the value to gate on before
/// the write is acknowledged, or nothing where its transaction's commit gates.
pub fn set_alarm(state: &mut Cells, scope: &str, read: Option<AlarmRead>) -> (value: Option<i64>)
    requires
        old(state).wf(),
    ensures
        final(state).wf(),
        published(*old(state), *final(state), scope@, read),
        value == published_value(read),
{
    publish_alarm(state, scope, read)
}

/// A storage write that deletes the alarm succeeded. A delete is never gated.
pub fn delete_alarm(state: &mut Cells, scope: &str, read: Option<AlarmRead>)
    requires
        old(state).wf(),
    ensures
        final(state).wf(),
        published(*old(state), *final(state), scope@, read),
{
    let _ = publish_alarm(state, scope, read);
}

/// Whether `moves` lists exactly the entries of a map, each key once.
pub open spec fn lists(
    moves: Seq<(String, AlarmSnapshot)>,
    map: Map<Seq<char>, AlarmSnapshot>,
) -> bool {
    &&& forall|i: int, j: int|
        0 <= i < j < moves.len() ==> (#[trigger] moves[i]).0@ != (#[trigger] moves[j]).0@
    &&& forall|i: int|
        0 <= i < moves.len() ==> map.dom().contains((#[trigger] moves[i]).0@) && map[moves[i].0@]
            == moves[i].1
    &&& forall|k: Seq<char>| #[trigger]
        map.dom().contains(k) ==> exists|i: int| 0 <= i < moves.len() && moves[i].0@ == k
}

/// Drain the alarm moves that were committed since the last time.
pub fn take_alarm_moves(state: &mut Cells) -> (moves: Vec<(String, AlarmSnapshot)>)
    requires
        old(state).wf(),
    ensures
        final(state).wf(),
        *final(state) == (Cells { alarm_moves: final(state).alarm_moves, ..*old(state) }),
        final(state).alarm_moves@ == Map::<Seq<char>, AlarmSnapshot>::empty(),
        lists(moves@, old(state).alarm_moves@),
{
    let ghost all = state.alarm_moves@;
    let mut moves: Vec<(String, AlarmSnapshot)> = Vec::new();
    let ghost rest_of = *state;
    while state.alarm_moves.len() > 0
        invariant
            state.wf(),
            *state == (Cells { alarm_moves: state.alarm_moves, ..rest_of }),
            forall|i: int, j: int|
                0 <= i < j < moves@.len() ==> (#[trigger] moves@[i]).0@ != (
                #[trigger] moves@[j]).0@,
            forall|i: int|
                0 <= i < moves@.len() ==> all.dom().contains((#[trigger] moves@[i]).0@)
                    && all[moves@[i].0@] == moves@[i].1 && !state.alarm_moves@.dom().contains(
                    moves@[i].0@,
                ),
            forall|k: Seq<char>| #[trigger]
                state.alarm_moves@.dom().contains(k) ==> all.dom().contains(k)
                    && state.alarm_moves@[k] == all[k],
            forall|k: Seq<char>| #[trigger]
                all.dom().contains(k) ==> state.alarm_moves@.dom().contains(k) || exists|i: int|
                    0 <= i < moves@.len() && moves@[i].0@ == k,
        decreases state.alarm_moves.keys().len(),
    {
        let key = state.alarm_moves.key(0).clone();
        let ghost before = moves@;
        let ghost held = state.alarm_moves@;
        match state.alarm_moves.remove(&key) {
            None => {},
            Some(snapshot) => {
                moves.push((key, snapshot));
                proof {
                    assert forall|k: Seq<char>| #[trigger] all.dom().contains(k) implies
                        state.alarm_moves@.dom().contains(k) || exists|i: int|
                        0 <= i < moves@.len() && moves@[i].0@ == k by {
                        if k == key@ {
                            assert(moves@[moves@.len() - 1].0@ == k);
                        } else if !held.dom().contains(k) {
                            let i = choose|i: int| 0 <= i < before.len() && before[i].0@ == k;
                            assert(moves@[i].0@ == k);
                        }
                    }
                }
            },
        }
    }
    proof {
        state.alarm_moves.lemma_keys();
        assert forall|k: Seq<char>| !state.alarm_moves@.dom().contains(k) by {
            if state.alarm_moves@.dom().contains(k) {
                assert(state.alarm_moves.keys().contains(k));
            }
        }
        assert(state.alarm_moves@ =~= Map::<Seq<char>, AlarmSnapshot>::empty());
    }
    moves
}

/// An alarm that a restored database holds: when it is due, its generation and its
/// two retry counts, which are cut to 32 bits.
pub fn persisted_alarm(row: Option<(i64, i64, i64, i64)>) -> (alarm: Option<(i64, i64, u32, u32)>)
    ensures
        match row {
            Some(row) => alarm == Some((row.0, row.1, row.2 as u32, row.3 as u32)),
            None => alarm is None,
        },
{
    match row {
        Some(row) => Some(
            (
                row.0,
                row.1,
                #[verifier::truncate]
                (row.2 as u32),
                #[verifier::truncate]
                (row.3 as u32),
            ),
        ),
        None => None,
    }
}

/// Whether the alarm of a row is due: its scheduled time and retry count.
pub fn due_alarm_entry(row: Option<(i64, i64)>, now_ms: i64) -> (due: Option<(i64, i64)>)
    ensures
        due == (match row {
            Some((at_ms, retry)) if at_ms <= now_ms => Some((at_ms, retry)),
            _ => None,
        }),
{
    match row {
        Some((at_ms, retry)) => if at_ms <= now_ms {
            Some((at_ms, retry))
        } else {
            None
        },
        None => None,
    }
}

/// From its begin to its end a handler does not see the alarm it was fired for,
/// and sees any alarm that it set.
pub proof fn law_alarm_hidden_during_handler(
    before: Cells,
    during: Cells,
    scope: Seq<char>,
    fired_at_ms: i64,
    fired: AlarmRow,
    now: AlarmRow,
)
    requires
        during == (Cells { active_alarms: during.active_alarms, ..before }),
        during.active_alarms@ == before.active_alarms@.insert(
            scope,
            (ActiveAlarm { fired_at_ms, generation: generation_of(Some(fired)) }),
        ),
    ensures
        fired_for(during, scope, Some(now)) == (now.generation == fired.generation),
{
}

/// An alarm that a handler changed is neither consumed nor retried at its end.
pub proof fn law_changed_alarm_wins(
    state: Cells,
    scope: Seq<char>,
    succeeded: bool,
    now_ms: i64,
    retry_counts: bool,
    row: Option<AlarmRow>,
)
    requires
        state.active_alarms@.dom().contains(scope),
        state.active_alarms@[scope].generation != generation_of(row),
    ensures
        alarm_end(state, scope, succeeded, now_ms, retry_counts, row) == AlarmEnd::Keep,
{
}

/// The alarm row after a set, which renews the generation: `drawn` is the new one.
pub open spec fn after_set(at_ms: i64, drawn: i64) -> Option<AlarmRow> {
    Some(AlarmRow { at_ms, generation: drawn })
}

/// The alarm row after a handler's end: a consumed alarm goes if it is still due at
/// the time that it was fired for. `retried` is what a retry leaves.
pub open spec fn after_end(
    row: Option<AlarmRow>,
    end: AlarmEnd,
    retried: Option<AlarmRow>,
) -> Option<AlarmRow> {
    match end {
        AlarmEnd::Keep => row,
        AlarmEnd::Consume { at_ms } => match row {
            Some(held) if held.at_ms == at_ms => None,
            _ => row,
        },
        AlarmEnd::Retry { .. } => retried,
    }
}

/// Whether a handler was entered for a row.
pub open spec fn entered(
    before: Cells,
    during: Cells,
    scope: Seq<char>,
    fired: AlarmRow,
) -> bool {
    &&& during == (Cells { active_alarms: during.active_alarms, ..before })
    &&& during.active_alarms@ == before.active_alarms@.insert(
        scope,
        (ActiveAlarm { fired_at_ms: fired.at_ms, generation: generation_of(Some(fired)) }),
    )
}

/// A handler sees an alarm that it set, even to the very time that it was fired
/// for; the alarm that it was fired for it does not see.
pub proof fn law_alarm_set_by_its_handler_is_visible(
    before: Cells,
    during: Cells,
    scope: Seq<char>,
    fired: AlarmRow,
    at_ms: i64,
    drawn: i64,
)
    requires
        entered(before, during, scope, fired),
        drawn != fired.generation,
    ensures
        visible(during, scope, Some(fired)) is None,
        visible(during, scope, after_set(at_ms, drawn)) == Some(at_ms),
        visible(during, scope, after_set(fired.at_ms, drawn)) == Some(fired.at_ms),
{
}

/// Once a handler has ended, no alarm is hidden. An alarm that the handler set stands,
/// whether it succeeded or not; one that it left alone is gone after a success. Where
/// no handler runs, an end changes nothing.
pub proof fn law_finished_handler_leaves_its_alarm(
    before: Cells,
    during: Cells,
    after: Cells,
    scope: Seq<char>,
    fired: AlarmRow,
    succeeded: bool,
    now_ms: i64,
    retry_counts: bool,
    retried: Option<AlarmRow>,
    at_ms: i64,
    drawn: i64,
    idle: Cells,
    row: Option<AlarmRow>,
)
    requires
        entered(before, during, scope, fired),
        drawn != fired.generation,
        after.active_alarms@ == during.active_alarms@.remove(scope),
        !idle.active_alarms@.dom().contains(scope),
    ensures
        !after.active_alarms@.dom().contains(scope),
        ({
            let set = after_set(at_ms, drawn);
            let end = alarm_end(during, scope, succeeded, now_ms, retry_counts, set);
            visible(after, scope, after_end(set, end, retried)) == Some(at_ms)
        }),
        ({
            let end = alarm_end(during, scope, true, now_ms, retry_counts, Some(fired));
            after_end(Some(fired), end, retried) is None
        }),
        visible(after, scope, None) is None,
        ({
            let end = alarm_end(idle, scope, succeeded, now_ms, retry_counts, row);
            after_end(row, end, retried) == row && idle.active_alarms@.remove(scope)
                == idle.active_alarms@
        }),
{
    assert(idle.active_alarms@.remove(scope) =~= idle.active_alarms@);
}

/// An alarm that is set is seen, but for the one whose handler runs: the one of the
/// generation that fired. No alarm is seen where none is set.
pub proof fn law_alarm_is_seen(state: Cells, scope: Seq<char>, row: AlarmRow)
    ensures
        visible(state, scope, None) is None,
        visible(state, scope, Some(row)) is None <==> state.active_alarms@.dom().contains(scope)
            && state.active_alarms@[scope].generation == Some(row.generation),
        visible(state, scope, Some(row)) is Some ==> visible(state, scope, Some(row)) == Some(
            row.at_ms,
        ),
{
}

/// How a handler ends for its alarm: one that was changed meanwhile, and one of a scope in
/// which no handler ran, is kept; the fired one is consumed at its time where the handler
/// succeeded, and tried again, from now on and as told, where it failed.
pub proof fn law_handler_ends(
    state: Cells,
    scope: Seq<char>,
    succeeded: bool,
    now_ms: i64,
    retry_counts: bool,
    row: Option<AlarmRow>,
)
    ensures
        ({
            let fired = state.active_alarms@.dom().contains(scope)
                && state.active_alarms@[scope].generation == (match row {
                Some(row) => Some(row.generation),
                None => None,
            });
            alarm_end(state, scope, succeeded, now_ms, retry_counts, row) == if !fired {
                AlarmEnd::Keep
            } else if succeeded {
                AlarmEnd::Consume { at_ms: state.active_alarms@[scope].fired_at_ms }
            } else {
                AlarmEnd::Retry { now_ms, counts_against_limit: retry_counts }
            }
        }),
{
}

/// What publishing an alarm does. Outside a transaction the scope's move is recorded where it
/// has one, nothing is left to publish, and the caller is told the alarm's time, or that there
/// is none. Inside one it is left to publish at the end, and nothing is told. Where nothing
/// could be read nothing happens. No other scope is touched.
pub proof fn law_publishing(
    before: Cells,
    after: Cells,
    scope: Seq<char>,
    other: Seq<char>,
    read: Option<AlarmRead>,
)
    requires
        published(before, after, scope, read),
        other != scope,
    ensures
        read is None ==> published_value(read) is None && after.alarm_moves@ == before.alarm_moves@
            && after.alarm_dirty@ == before.alarm_dirty@,
        read matches Some(r) ==> r.autocommit ==> {
            &&& !after.alarm_dirty@.dom().contains(scope)
            &&& r.snapshot matches Some(snapshot) ==> after.alarm_moves@.dom().contains(scope)
                && after.alarm_moves@[scope] == snapshot
            &&& r.snapshot is None ==> after.alarm_moves@ == before.alarm_moves@
            &&& published_value(read) == Some(
                if r.at_ms is Some {
                    r.at_ms->0
                } else {
                    -1i64
                },
            )
        },
        read matches Some(r) ==> !r.autocommit ==> after.alarm_dirty@.dom().contains(scope)
            && after.alarm_moves@ == before.alarm_moves@ && published_value(read) is None,
        after.alarm_dirty@.dom().contains(other) == before.alarm_dirty@.dom().contains(other),
        after.alarm_moves@.dom().contains(other) == before.alarm_moves@.dom().contains(other),
        after.alarm_moves@.dom().contains(other) ==> after.alarm_moves@[other]
            == before.alarm_moves@[other],
        after.open_cells == before.open_cells && after.active_alarms == before.active_alarms,
{
}

/// The moves that are handed over are those recorded, each scope's once.
pub proof fn law_moves_are_listed(
    moves: Seq<(String, AlarmSnapshot)>,
    map: Map<Seq<char>, AlarmSnapshot>,
    scope: Seq<char>,
)
    requires
        lists(moves, map),
    ensures
        map.dom().contains(scope) <==> exists|i: int|
            0 <= i < moves.len() && (#[trigger] moves[i]).0@ == scope,
        forall|i: int|
            0 <= i < moves.len() && (#[trigger] moves[i]).0@ == scope ==> moves[i].1 == map[scope],
        forall|i: int, j: int|
            0 <= i < j < moves.len() ==> (#[trigger] moves[i]).0@ != (#[trigger] moves[j]).0@,
{
    if map.dom().contains(scope) {
        let i = choose|i: int| 0 <= i < moves.len() && moves[i].0@ == scope;
        assert(moves[i].0@ == scope);
    }
}

} // verus!
