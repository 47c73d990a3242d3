//! A D1 request from its first statement to its answer.
//!
//! A prepared statement runs by itself. A batch, an exec and a migration run in a
//! transaction of their own: what they consist of runs in order, up to the first
//! failure, and the transaction is committed only where all of it ran.

use vstd::prelude::*;

use crate::storage::d1::D1Failure;
use crate::storage::d1_result::D1_MAX_RESULT_BYTES;
use crate::storage::d1_result::D1_MAX_ROWS;
use crate::storage::d1_run::D1Request;
use crate::storage::d1_run::D1TransactionOperation;

verus! {

/// What a request consists of.
#[derive(PartialEq, Eq, Structural, Clone, Copy)]
pub enum D1Work {
    /// One statement that keeps at most this many rows.
    Statement { keep: usize },
    /// This many statements, which share one budget.
    Batch { statements: usize },
    /// One text; `rows` keeps its results.
    Text { rows: bool },
    /// One text, the bookkeeping table, and the bookkeeping row.
    Migration,
}

/// Where a request stands.
pub enum D1Stage {
    Ready,
    Beginning,
    /// The part at this index runs.
    Running { at: usize },
    Committing,
    /// A part failed, and the transaction is rolled back.
    RollingBack { failure: D1Failure },
    /// The commit failed and left the transaction open, which is rolled back.
    Undoing { failure: D1Failure },
    Answered,
}

/// A request that runs.
pub struct D1RequestRun {
    pub work: D1Work,
    /// What the results may still be charged.
    pub budget: usize,
    pub stage: D1Stage,
}

/// What is to be done next.
pub enum D1Action {
    /// Run a statement of the transaction around the request.
    Control(D1TransactionOperation),
    /// Run the prepared statement at this index.
    Statement { index: usize, keep: usize, budget: usize },
    /// Run the text.
    Text { rows: bool },
    /// Create the bookkeeping table where it is missing.
    BookkeepingTable,
    /// Enter the migration's name.
    BookkeepingRow,
    /// Roll back the transaction that a failed commit left open.
    Undo,
    /// Answer with what ran.
    Answer,
    /// Answer with a failure.
    Fail(D1Failure),
}

/// What came of the last action.
pub enum D1Event {
    Start,
    /// The transaction's statement succeeded.
    Controlled,
    /// The transaction's statement failed; `open` where it was a commit that left the
    /// transaction open.
    ControlFailed { failure: D1Failure, open: bool },
    /// A part ran, and left this much of the budget.
    Ran { budget: usize },
    /// A part failed; `autocommit` where SQLite ended the transaction by itself.
    Failed { failure: D1Failure, autocommit: bool },
    /// The rollback after a failed commit was tried.
    Undone,
}

/// What a request consists of.
pub open spec fn work_of(request: D1Request) -> D1Work {
    match request {
        D1Request::Prepared { first, .. } => D1Work::Statement {
            keep: if first {
                1
            } else {
                D1_MAX_ROWS
            },
        },
        D1Request::Batch { statements } => D1Work::Batch { statements: statements@.len() as usize },
        D1Request::Exec { rows, .. } => D1Work::Text { rows },
        D1Request::Migrate { .. } => D1Work::Migration,
    }
}

/// A request of which nothing has run.
pub open spec fn started(request: D1Request) -> D1RequestRun {
    D1RequestRun {
        work: work_of(request),
        budget: D1_MAX_RESULT_BYTES,
        stage: D1Stage::Ready,
    }
}

/// How many parts a request has.
pub open spec fn parts(work: D1Work) -> int {
    match work {
        D1Work::Statement { .. } => 1,
        D1Work::Batch { statements } => statements as int,
        D1Work::Text { .. } => 1,
        D1Work::Migration => 3,
    }
}

/// Whether a request has a transaction of its own.
pub open spec fn bracketed(work: D1Work) -> bool {
    !(work is Statement)
}

/// How a part of a request is run.
pub open spec fn part(work: D1Work, at: int, budget: usize) -> D1Action {
    match work {
        D1Work::Statement { keep } => D1Action::Statement { index: at as usize, keep, budget },
        D1Work::Batch { .. } => D1Action::Statement {
            index: at as usize,
            keep: D1_MAX_ROWS,
            budget,
        },
        D1Work::Text { rows } => D1Action::Text { rows },
        D1Work::Migration => if at == 0 {
            D1Action::Text { rows: false }
        } else if at == 1 {
            D1Action::BookkeepingTable
        } else {
            D1Action::BookkeepingRow
        },
    }
}

/// Whether an event is one that the request waits for.
pub open spec fn awaits(run: D1RequestRun, event: D1Event) -> bool {
    match run.stage {
        D1Stage::Ready => event is Start,
        D1Stage::Beginning => event is Controlled || event is ControlFailed,
        D1Stage::Running { at } => at < parts(run.work) && (event is Ran || event is Failed),
        D1Stage::Committing => event is Controlled || event is ControlFailed,
        D1Stage::RollingBack { .. } => event is Controlled || event is ControlFailed,
        D1Stage::Undoing { .. } => event is Undone,
        D1Stage::Answered => false,
    }
}

/// The request with the parts from `at` on still to run, and how it goes on: with that
/// part, or, where none is left, to the end of its transaction.
pub open spec fn goes_on(run: D1RequestRun, at: int) -> (D1RequestRun, D1Action) {
    if at < parts(run.work) {
        (
            D1RequestRun { stage: D1Stage::Running { at: at as usize }, ..run },
            part(run.work, at, run.budget),
        )
    } else if bracketed(run.work) {
        (
            D1RequestRun { stage: D1Stage::Committing, ..run },
            D1Action::Control(D1TransactionOperation::Commit),
        )
    } else {
        (D1RequestRun { stage: D1Stage::Answered, ..run }, D1Action::Answer)
    }
}

/// The request after an event, and what is to be done then.
pub open spec fn step(run: D1RequestRun, event: D1Event) -> (D1RequestRun, D1Action) {
    let failed = |failure: D1Failure|
        (D1RequestRun { stage: D1Stage::Answered, ..run }, D1Action::Fail(failure));
    match (run.stage, event) {
        (D1Stage::Ready, _) => if bracketed(run.work) {
            (
                D1RequestRun { stage: D1Stage::Beginning, ..run },
                D1Action::Control(D1TransactionOperation::Begin),
            )
        } else {
            goes_on(run, 0)
        },
        (D1Stage::Beginning, D1Event::ControlFailed { failure, .. }) => failed(failure),
        (D1Stage::Beginning, _) => goes_on(run, 0),
        (D1Stage::Running { at }, D1Event::Ran { budget }) => goes_on(
            D1RequestRun { budget, ..run },
            at + 1,
        ),
        (D1Stage::Running { .. }, D1Event::Failed { failure, autocommit }) => if bracketed(run.work)
            && !autocommit {
            (
                D1RequestRun { stage: D1Stage::RollingBack { failure }, ..run },
                D1Action::Control(D1TransactionOperation::Rollback),
            )
        } else {
            failed(failure)
        },
        (D1Stage::Committing, D1Event::ControlFailed { failure, open }) => if open {
            (D1RequestRun { stage: D1Stage::Undoing { failure }, ..run }, D1Action::Undo)
        } else {
            failed(failure)
        },
        (D1Stage::RollingBack { failure }, _) => failed(failure),
        (D1Stage::Undoing { failure }, _) => failed(failure),
        _ => (D1RequestRun { stage: D1Stage::Answered, ..run }, D1Action::Answer),
    }
}

impl D1RequestRun {
    /// Nothing of the request has run.
    pub fn new(request: &D1Request) -> (run: Self)
        ensures
            run == started(*request),
    {
        let work = match request {
            D1Request::Prepared { first, .. } => D1Work::Statement {
                keep: if *first {
                    1
                } else {
                    D1_MAX_ROWS
                },
            },
            D1Request::Batch { statements } => D1Work::Batch { statements: statements.len() },
            D1Request::Exec { rows, .. } => D1Work::Text { rows: *rows },
            D1Request::Migrate { .. } => D1Work::Migration,
        };
        D1RequestRun { work, budget: D1_MAX_RESULT_BYTES, stage: D1Stage::Ready }
    }

    /// Go on with the part at this index, or to the end.
    fn go_on(&mut self, at: usize) -> (action: D1Action)
        ensures
            (*final(self), action) == goes_on(*old(self), at as int),
    {
        let work = self.work;
        let count: usize = match work {
            D1Work::Statement { .. } => 1,
            D1Work::Batch { statements } => statements,
            D1Work::Text { .. } => 1,
            D1Work::Migration => 3,
        };
        if at >= count {
            return match work {
                D1Work::Statement { .. } => {
                    self.stage = D1Stage::Answered;
                    D1Action::Answer
                },
                _ => {
                    self.stage = D1Stage::Committing;
                    D1Action::Control(D1TransactionOperation::Commit)
                },
            };
        }
        self.stage = D1Stage::Running { at };
        match work {
            D1Work::Statement { keep } => D1Action::Statement {
                index: at,
                keep,
                budget: self.budget,
            },
            D1Work::Batch { .. } => D1Action::Statement {
                index: at,
                keep: D1_MAX_ROWS,
                budget: self.budget,
            },
            D1Work::Text { rows } => D1Action::Text { rows },
            D1Work::Migration => if at == 0 {
                D1Action::Text { rows: false }
            } else if at == 1 {
                D1Action::BookkeepingTable
            } else {
                D1Action::BookkeepingRow
            },
        }
    }

    /// What follows an event.
    pub fn next(&mut self, event: D1Event) -> (action: D1Action)
        requires
            awaits(*old(self), event),
        ensures
            (*final(self), action) == step(*old(self), event),
    {
        let alone = match self.work {
            D1Work::Statement { .. } => true,
            _ => false,
        };
        let mut stage = D1Stage::Answered;
        std::mem::swap(&mut stage, &mut self.stage);
        match (stage, event) {
            (D1Stage::Ready, _) => if alone {
                self.go_on(0)
            } else {
                self.stage = D1Stage::Beginning;
                D1Action::Control(D1TransactionOperation::Begin)
            },
            (D1Stage::Beginning, D1Event::ControlFailed { failure, .. }) => D1Action::Fail(failure),
            (D1Stage::Beginning, _) => self.go_on(0),
            (D1Stage::Running { at }, D1Event::Ran { budget }) => {
                self.budget = budget;
                self.go_on(at + 1)
            },
            (D1Stage::Running { .. }, D1Event::Failed { failure, autocommit }) => if !alone
                && !autocommit {
                self.stage = D1Stage::RollingBack { failure };
                D1Action::Control(D1TransactionOperation::Rollback)
            } else {
                D1Action::Fail(failure)
            },
            (D1Stage::Committing, D1Event::ControlFailed { failure, open }) => if open {
                self.stage = D1Stage::Undoing { failure };
                D1Action::Undo
            } else {
                D1Action::Fail(failure)
            },
            (D1Stage::RollingBack { failure }, _) => D1Action::Fail(failure),
            (D1Stage::Undoing { failure }, _) => D1Action::Fail(failure),
            _ => D1Action::Answer,
        }
    }
}

/// Whether events lead a request from its start through these states, with these
/// actions.
pub open spec fn is_course(
    runs: Seq<D1RequestRun>,
    events: Seq<D1Event>,
    actions: Seq<D1Action>,
) -> bool {
    &&& runs.len() == events.len() + 1
    &&& actions.len() == events.len()
    &&& runs[0].stage is Ready
    &&& forall|i: int|
        #![trigger events[i]]
        0 <= i < events.len() ==> awaits(runs[i], events[i]) && (runs[i + 1], actions[i]) == step(
            runs[i],
            events[i],
        )
}

/// Whether neither a part nor a statement of the transaction has failed.
pub open spec fn none_failed(events: Seq<D1Event>) -> bool {
    forall|i: int|
        0 <= i < events.len() ==> !((#[trigger] events[i]) is Failed || events[i] is ControlFailed)
}

/// How many parts ran.
pub open spec fn ran(events: Seq<D1Event>) -> nat
    decreases events.len(),
{
    if events.len() == 0 {
        0
    } else {
        ran(events.drop_last()) + if events.last() is Ran {
            1nat
        } else {
            0nat
        }
    }
}

/// What is known of a request after its first events.
spec fn known(
    runs: Seq<D1RequestRun>,
    events: Seq<D1Event>,
    actions: Seq<D1Action>,
    n: int,
) -> bool {
    let run = runs[n];
    let work = runs[0].work;
    let before = events.take(n);
    &&& run.work == work
    &&& match run.stage {
        D1Stage::Ready => n == 0,
        D1Stage::Beginning => n == 1 && bracketed(work) && none_failed(before) && ran(before) == 0,
        D1Stage::Running { at } => n > 0 && at < parts(work) && none_failed(before) && ran(before)
            == at && actions[n - 1] == part(work, at as int, run.budget),
        D1Stage::Committing => n > 0 && bracketed(work) && none_failed(before) && ran(before)
            == parts(work) && actions[n - 1] == D1Action::Control(D1TransactionOperation::Commit),
        D1Stage::RollingBack { failure } => n > 0 && (events[n - 1] matches D1Event::Failed {
            failure: f,
            ..
        } && f == failure) && none_failed(events.take(n - 1)) && actions[n - 1]
            == D1Action::Control(D1TransactionOperation::Rollback),
        D1Stage::Undoing { .. } => n > 0 && ran(before) == parts(work) && forall|i: int|
            0 <= i < n ==> !((#[trigger] events[i]) is Failed),
        D1Stage::Answered => n > 0 && n == events.len(),
    }
}

proof fn lemma_known(
    runs: Seq<D1RequestRun>,
    events: Seq<D1Event>,
    actions: Seq<D1Action>,
    n: int,
)
    requires
        is_course(runs, events, actions),
        0 <= n <= events.len(),
    ensures
        known(runs, events, actions, n),
    decreases n,
{
    if n == 0 {
    } else {
        lemma_known(runs, events, actions, n - 1);
        let event = events[n - 1];
        assert(awaits(runs[n - 1], event));
        assert((runs[n], actions[n - 1]) == step(runs[n - 1], event));
        let before = events.take(n);
        assert(before.drop_last() =~= events.take(n - 1));
        assert(before.last() == event);
        if n == 1 {
            assert(ran(events.take(0)) == 0);
        }
        if none_failed(events.take(n - 1)) && !(event is Failed || event is ControlFailed) {
            assert forall|i: int| 0 <= i < n implies !((#[trigger] before[i]) is Failed
                || before[i] is ControlFailed) by {
                if i < n - 1 {
                    assert(events.take(n - 1)[i] == before[i]);
                }
            }
        }
        if runs[n].stage is Undoing {
            assert forall|i: int| 0 <= i < n implies !((#[trigger] events[i]) is Failed) by {
                if i < n - 1 {
                    assert(events.take(n - 1)[i] == events[i]);
                }
            }
        }
        if runs[n].stage is Answered && n < events.len() {
            assert(awaits(runs[n], events[n]));
        }
    }
}

proof fn lemma_ran_grows(events: Seq<D1Event>, a: int, b: int)
    requires
        0 <= a <= b <= events.len(),
    ensures
        ran(events.take(a)) <= ran(events.take(b)),
    decreases b,
{
    if a < b {
        lemma_ran_grows(events, a, b - 1);
        assert(events.take(b).drop_last() =~= events.take(b - 1));
    }
}

/// The parts of a request run in order, each once: what runs is the part that comes
/// behind those that ran. It is charged to what they left of the one budget.
pub proof fn law_parts_run_in_order(
    runs: Seq<D1RequestRun>,
    events: Seq<D1Event>,
    actions: Seq<D1Action>,
    i: int,
)
    requires
        is_course(runs, events, actions),
        0 <= i < events.len(),
    ensures
        events[i] is Ran || events[i] is Failed ==> {
            &&& i > 0
            &&& ran(events.take(i)) < parts(runs[0].work)
            &&& actions[i - 1] == part(runs[0].work, ran(events.take(i)) as int, runs[i].budget)
            &&& none_failed(events.take(i))
        },
        runs[i + 1].budget == match events[i] {
            D1Event::Ran { budget } => budget,
            _ => runs[i].budget,
        },
{
    lemma_known(runs, events, actions, i);
    assert(awaits(runs[i], events[i]));
    assert((runs[i + 1], actions[i]) == step(runs[i], events[i]));
}

/// A request with a failed part is never committed: neither before nor behind the
/// failure. Where SQLite has not ended the transaction by itself it is rolled back;
/// no further part runs; and whatever becomes of the rollback, the request is
/// answered with the failure of that part, the first that failed.
pub proof fn law_failed_part_is_never_committed(
    runs: Seq<D1RequestRun>,
    events: Seq<D1Event>,
    actions: Seq<D1Action>,
    i: int,
)
    requires
        is_course(runs, events, actions),
        0 <= i < events.len(),
        events[i] is Failed,
    ensures
        none_failed(events.take(i)),
        forall|j: int|
            0 <= j < actions.len() ==> (#[trigger] actions[j]) != D1Action::Control(
                D1TransactionOperation::Commit,
            ) && !(actions[j] is Answer),
        bracketed(runs[0].work) && !events[i]->autocommit ==> actions[i] == D1Action::Control(
            D1TransactionOperation::Rollback,
        ),
        forall|j: int| i < j < events.len() ==> !((#[trigger] events[j]) is Ran || events[j] is Failed),
        runs.last().stage is Answered ==> actions.last() == D1Action::Fail(
            events[i]->Failed_failure,
        ),
{
    lemma_known(runs, events, actions, i);
    assert(awaits(runs[i], events[i]));
    assert((runs[i + 1], actions[i]) == step(runs[i], events[i]));
    lemma_known(runs, events, actions, i + 1);
    if runs[i + 1].stage is RollingBack && i + 1 < events.len() {
        assert(awaits(runs[i + 1], events[i + 1]));
        assert((runs[i + 2], actions[i + 1]) == step(runs[i + 1], events[i + 1]));
        lemma_known(runs, events, actions, i + 2);
    }
    assert forall|j: int| 0 <= j < actions.len() implies (#[trigger] actions[j])
        != D1Action::Control(D1TransactionOperation::Commit) && !(actions[j] is Answer) by {
        assert(awaits(runs[j], events[j]));
        assert((runs[j + 1], actions[j]) == step(runs[j], events[j]));
        lemma_known(runs, events, actions, j);
        lemma_known(runs, events, actions, j + 1);
        if j < i {
            lemma_ran_grows(events, j + 1, i);
        }
    }
}

/// A request is answered with what ran exactly where nothing failed. Then all of its
/// parts ran, and a transaction of its own was committed right before.
pub proof fn law_all_ran_is_committed(
    runs: Seq<D1RequestRun>,
    events: Seq<D1Event>,
    actions: Seq<D1Action>,
)
    requires
        is_course(runs, events, actions),
        runs.last().stage is Answered,
    ensures
        actions.last() is Answer <==> none_failed(events),
        !none_failed(events) ==> actions.last() is Fail,
        none_failed(events) ==> {
            &&& ran(events) == parts(runs[0].work)
            &&& bracketed(runs[0].work) ==> events.len() >= 2 && actions[events.len() - 2]
                == D1Action::Control(D1TransactionOperation::Commit) && events.last() is Controlled
        },
{
    let n = events.len() as int;
    lemma_known(runs, events, actions, n);
    let last = n - 1;
    lemma_known(runs, events, actions, last);
    assert(awaits(runs[last], events[last]));
    assert((runs[last + 1], actions[last]) == step(runs[last], events[last]));
    assert(events.take(n) =~= events);
    assert(events.take(n).drop_last() =~= events.take(last));
    assert(events[last] == events.last());
    if actions.last() is Answer {
        assert forall|i: int| 0 <= i < events.len() implies !((#[trigger] events[i]) is Failed
            || events[i] is ControlFailed) by {
            if i < last {
                assert(events.take(last)[i] == events[i]);
            }
        }
    } else if runs[last].stage is RollingBack {
        assert(events[last - 1] is Failed);
    } else if runs[last].stage is Undoing {
        lemma_known(runs, events, actions, last - 1);
        assert(awaits(runs[last - 1], events[last - 1]));
        assert((runs[last], actions[last - 1]) == step(runs[last - 1], events[last - 1]));
        assert(events[last - 1] is ControlFailed);
    }
}

/// A commit that failed and left its transaction open is undone, and the request is
/// answered with the commit's failure.
pub proof fn law_failed_commit_is_undone(run: D1RequestRun, failure: D1Failure)
    requires
        run.stage is Committing,
    ensures
        ({
            let (undoing, action) = step(run, D1Event::ControlFailed { failure, open: true });
            action is Undo && step(undoing, D1Event::Undone).1 == D1Action::Fail(failure)
        }),
        step(run, D1Event::ControlFailed { failure, open: false }).1 == D1Action::Fail(failure),
{
}

/// What each request is made of. A single statement is one part outside a transaction, of which
/// one row is kept where the first is asked for; a batch is its statements in order, several
/// statements are one text, and a migration its text, then its table, then its row, each in a
/// transaction of its own. Every request begins with the whole budget.
pub proof fn law_requests_are_made_of(request: D1Request, at: int, budget: usize)
    requires
        request matches D1Request::Batch { statements } ==> 0 <= at < statements@.len()
            && statements@.len() <= usize::MAX,
    ensures
        ({
            let run = started(request);
            &&& run.stage is Ready && run.budget == 33_554_432
            &&& bracketed(run.work) == !(request is Prepared)
            &&& request matches D1Request::Prepared { first, .. } ==> parts(run.work) == 1 && part(
                run.work,
                0,
                budget,
            ) == (D1Action::Statement {
                index: 0,
                keep: if first {
                    1
                } else {
                    100_000
                },
                budget,
            })
            &&& request matches D1Request::Batch { statements } ==> parts(run.work)
                == statements@.len() && part(run.work, at, budget) == (D1Action::Statement {
                index: at as usize,
                keep: 100_000,
                budget,
            })
            &&& request matches D1Request::Exec { rows, .. } ==> parts(run.work) == 1 && part(
                run.work,
                0,
                budget,
            ) == (D1Action::Text { rows })
            &&& request is Migrate ==> parts(run.work) == 3 && part(run.work, 0, budget) == (
            D1Action::Text { rows: false }) && part(run.work, 1, budget)
                == D1Action::BookkeepingTable && part(run.work, 2, budget)
                == D1Action::BookkeepingRow
        }),
{
}

/// A request that needs a transaction begins one first, and one that could not begin fails with
/// that failure and runs nothing.
pub proof fn law_transaction_begins_first(run: D1RequestRun, failure: D1Failure, open: bool)
    requires
        run.stage is Ready,
        bracketed(run.work),
    ensures
        ({
            let (begun, action) = step(run, D1Event::Start);
            let (ended, answer) = step(begun, D1Event::ControlFailed { failure, open });
            &&& action == D1Action::Control(D1TransactionOperation::Begin)
            &&& answer == D1Action::Fail(failure) && ended.stage is Answered
        }),
{
}

/// A part that failed is rolled back only where its request runs in a transaction that is still
/// open; a single statement, or a request whose transaction is gone, fails at once. Either way
/// the answer is the part's own failure, whatever comes of the rollback.
pub proof fn law_failed_part_is_rolled_back(
    run: D1RequestRun,
    failure: D1Failure,
    autocommit: bool,
    event: D1Event,
)
    requires
        run.stage is Running,
    ensures
        ({
            let (after, action) = step(run, D1Event::Failed { failure, autocommit });
            if run.work is Statement || autocommit {
                action == D1Action::Fail(failure) && after.stage is Answered
            } else {
                &&& action == D1Action::Control(D1TransactionOperation::Rollback)
                &&& step(after, event).1 == D1Action::Fail(failure)
                &&& step(after, event).0.stage is Answered
            }
        }),
{
}

} // verus!
