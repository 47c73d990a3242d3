//! Running the complete statements at the front of a SQL text.
//!
//! SQLite's own parser finds where statements end. The text that does not form
//! a complete statement yet is handed back untouched.

use vstd::prelude::*;

use crate::storage::cells::Cells;
use crate::storage::sql_cursor;
use crate::storage::sql_cursor::CursorFailure;
use crate::storage::sql_cursor::SQLITE_DONE;
use crate::storage::sql_cursor::SQLITE_OK;

verus! {

broadcast use vstd::string::group_string_axioms;

/// The refusal of a statement end that SQLite reported outside the text.
pub const INVALID_TAIL: &'static str = "SQLite returned an invalid SQL tail";

/// The bytes of a text.
pub open spec fn bytes_of(s: Seq<char>) -> Seq<u8> {
    vstd::utf8::encode_utf8(s)
}

/// Whether a text can be cut at byte `offset`.
pub open spec fn cuttable(s: Seq<char>, offset: int) -> bool {
    0 <= offset <= bytes_of(s).len() && vstd::utf8::is_char_boundary(bytes_of(s), offset)
}

/// Whether `rest` is the part of `s` from byte `offset` on.
pub open spec fn suffix_from(s: Seq<char>, offset: int, rest: Seq<char>) -> bool {
    bytes_of(rest) == bytes_of(s).subrange(offset, bytes_of(s).len() as int)
}

/// A run over a SQL text.
pub struct Ingest {
    pub input: String,
    /// Where the first statement that has not run begins, in bytes.
    pub source: usize,
    /// The end of the statement that runs now.
    pub tail: usize,
    pub statement_count: u64,
    pub changes_before: u64,
}

/// What SQLite answered to a request to prepare the statement at the source.
pub struct IngestPrepared {
    pub code: i32,
    pub statement: Option<u64>,
    /// The end of the statement, in bytes from the start of the text.
    pub tail: Option<usize>,
    /// Whether the text from the source on is complete.
    pub source_complete: bool,
    /// Whether the text from the source to the tail is complete.
    pub consumed_complete: bool,
}

/// What to do next. A statement named by `finalize` has to be finalized.
pub enum IngestStep {
    /// Prepare the statement at the source.
    Prepare,
    /// Run this statement to completion, discarding its rows.
    Drain { statement: u64 },
    /// Done: the rest of the text, the rows written and the statements run.
    Finish { rest: String, rows_written: u64, statements: u64, finalize: Option<u64> },
    Fail { failure: CursorFailure, finalize: Option<u64> },
}

/// The change of a counter that does not run backwards.
pub open spec fn grown(now: u64, before: u64) -> u64 {
    if now < before {
        0
    } else {
        (now - before) as u64
    }
}

/// Whether a step finishes at the source.
pub open spec fn finishes_at(
    step: IngestStep,
    run: Ingest,
    changes_now: u64,
    release: Option<u64>,
) -> bool {
    match step {
        IngestStep::Finish { rest, rows_written, statements, finalize } => {
            &&& suffix_from(run.input@, run.source as int, rest@)
            &&& rows_written == grown(changes_now, run.changes_before)
            &&& statements == run.statement_count
            &&& finalize == release
        },
        _ => false,
    }
}

/// Start a run. Text that is not admitted is refused.
pub fn sql_ingest(
    state: &Cells,
    scope: &str,
    input: &str,
    changes_before: u64,
) -> (result: Result<Ingest, String>)
    requires
        state.wf(),
    ensures
        match result {
            Err(error) => sql_cursor::sql_refusal(*state, scope@, input@) == Some(error@),
            Ok(run) => {
                &&& sql_cursor::sql_refusal(*state, scope@, input@) is None
                &&& run.input@ == input@
                &&& run.source == 0
                &&& run.tail == 0
                &&& run.statement_count == 0
                &&& run.changes_before == changes_before
                &&& cuttable(run.input@, run.source as int)
            },
        },
{
    match sql_cursor::sql_admitted(state, scope, input) {
        Err(error) => {
            return Err(error);
        },
        Ok(()) => {},
    }
    proof {
        vstd::utf8::encode_utf8_valid_utf8(input@);
        vstd::utf8::is_char_boundary_start_end_of_seq(bytes_of(input@));
    }
    Ok(Ingest { input: input.to_owned(), source: 0, tail: 0, statement_count: 0, changes_before })
}

impl Ingest {
    /// The text from the source on.
    fn rest(&self) -> (rest: String)
        requires
            cuttable(self.input@, self.source as int),
        ensures
            suffix_from(self.input@, self.source as int, rest@),
    {
        let (_, rest) = self.input.as_str().split_at(self.source);
        rest.to_owned()
    }

    /// The statement at the source was prepared. Text that SQLite cannot
    /// prepare and that is not complete ends the run, as does text with no
    /// statement and a statement whose own text is not complete; other failures
    /// stop it; a complete statement runs.
    pub fn prepared(&mut self, answer: IngestPrepared, changes_now: u64) -> (next: IngestStep)
        requires
            cuttable(old(self).input@, old(self).source as int),
        ensures
            if answer.code != SQLITE_OK {
                &&& *final(self) == *old(self)
                &&& if answer.source_complete {
                    next == (IngestStep::Fail {
                        failure: CursorFailure::Sqlite {
                            operation: "prepare ingested SQL",
                            code: answer.code,
                        },
                        finalize: answer.statement,
                    })
                } else {
                    finishes_at(next, *old(self), changes_now, answer.statement)
                }
            } else {
                match answer.statement {
                    None => *final(self) == *old(self) && finishes_at(
                        next,
                        *old(self),
                        changes_now,
                        None,
                    ),
                    Some(statement) => if answer.tail is None || answer.tail->0 < old(self).source {
                        &&& *final(self) == *old(self)
                        &&& next == (IngestStep::Fail {
                            failure: CursorFailure::Refused { message: INVALID_TAIL },
                            finalize: Some(statement),
                        })
                    } else if answer.consumed_complete {
                        &&& next == (IngestStep::Drain { statement })
                        &&& *final(self) == (Ingest { tail: answer.tail->0, ..*old(self) })
                    } else {
                        &&& *final(self) == *old(self)
                        &&& finishes_at(next, *old(self), changes_now, Some(statement))
                    },
                }
            },
    {
        if answer.code != SQLITE_OK {
            if !answer.source_complete {
                return self.finish(changes_now, answer.statement);
            }
            return IngestStep::Fail {
                failure: CursorFailure::Sqlite {
                    operation: "prepare ingested SQL",
                    code: answer.code,
                },
                finalize: answer.statement,
            };
        }
        let statement: u64 = match answer.statement {
            None => {
                return self.finish(changes_now, None);
            },
            Some(statement) => statement,
        };
        let backwards = match answer.tail {
            Some(tail) => tail < self.source,
            None => true,
        };
        if backwards {
            return IngestStep::Fail {
                failure: CursorFailure::Refused { message: INVALID_TAIL },
                finalize: Some(statement),
            };
        }
        let tail: usize = match answer.tail {
            Some(tail) => tail,
            None => self.source,
        };
        if !answer.consumed_complete {
            return self.finish(changes_now, Some(statement));
        }
        self.tail = tail;
        IngestStep::Drain { statement }
    }

    fn finish(&self, changes_now: u64, finalize: Option<u64>) -> (step: IngestStep)
        requires
            cuttable(self.input@, self.source as int),
        ensures
            finishes_at(step, *self, changes_now, finalize),
    {
        IngestStep::Finish {
            rest: self.rest(),
            rows_written: changes_now.saturating_sub(self.changes_before),
            statements: self.statement_count,
            finalize,
        }
    }

    /// The running statement stopped with this code. After completion it counts,
    /// and the run goes on behind it, if that is a place in the text. Either way
    /// the statement has to be finalized.
    pub fn drained(&mut self, statement: u64, code: i32) -> (next: IngestStep)
        requires
            old(self).statement_count < u64::MAX,
        ensures
            if code != SQLITE_DONE {
                &&& *final(self) == *old(self)
                &&& next == (IngestStep::Fail {
                    failure: CursorFailure::Sqlite { operation: "step ingested SQL", code },
                    finalize: Some(statement),
                })
            } else {
                &&& *final(self) == (Ingest {
                    source: old(self).tail,
                    statement_count: (old(self).statement_count + 1) as u64,
                    ..*old(self)
                })
                &&& if cuttable(old(self).input@, old(self).tail as int) {
                    next is Prepare
                } else {
                    next == (IngestStep::Fail {
                        failure: CursorFailure::Refused { message: INVALID_TAIL },
                        finalize: Some(statement),
                    })
                }
            },
    {
        if code != SQLITE_DONE {
            return IngestStep::Fail {
                failure: CursorFailure::Sqlite { operation: "step ingested SQL", code },
                finalize: Some(statement),
            };
        }
        self.statement_count = self.statement_count + 1;
        self.source = self.tail;
        proof {
            vstd::utf8::encode_utf8_valid_utf8(self.input@);
        }
        if self.input.as_str().is_char_boundary(self.tail) {
            IngestStep::Prepare
        } else {
            IngestStep::Fail {
                failure: CursorFailure::Refused { message: INVALID_TAIL },
                finalize: Some(statement),
            }
        }
    }
}

/// The bytes of two texts are those of the one and then those of the other.
proof fn lemma_bytes_join(a: Seq<char>, b: Seq<char>)
    ensures
        bytes_of(a + b) == bytes_of(a) + bytes_of(b),
    decreases a.len(),
{
    if a.len() == 0 {
        assert(a + b =~= b);
        assert(bytes_of(a) + bytes_of(b) =~= bytes_of(b));
    } else {
        lemma_bytes_join(a.drop_first(), b);
        assert((a + b).drop_first() =~= a.drop_first() + b);
        assert((a + b)[0] == a[0]);
        assert(bytes_of(a + b) =~= bytes_of(a) + bytes_of(b));
    }
}

/// What is left of a text behind its first part is the rest, whole: exactly what the part and
/// the rest make up.
pub proof fn law_rest_is_what_was_not_run(head: Seq<char>, tail: Seq<char>, rest: Seq<char>)
    requires
        suffix_from(head + tail, bytes_of(head).len() as int, rest),
    ensures
        rest == tail,
{
    lemma_bytes_join(head, tail);
    let all = bytes_of(head + tail);
    assert(all.subrange(bytes_of(head).len() as int, all.len() as int) =~= bytes_of(tail));
    vstd::utf8::encode_utf8_decode_utf8(rest);
    vstd::utf8::encode_utf8_decode_utf8(tail);
}

/// How many rows were written: how far the count went, and none where it did not go on.
pub proof fn law_rows_grown(before: u64, n: u64)
    requires
        before + n <= u64::MAX,
    ensures
        grown((before + n) as u64, before) == n,
        n > 0 ==> grown(before, (before + n) as u64) == 0,
{
}

/// An ingestion that finishes hands back what it did not run, and says how many statements ran
/// and how many rows they wrote.
pub proof fn law_ingestion_finishes(
    step: IngestStep,
    run: Ingest,
    changes_now: u64,
    release: Option<u64>,
    head: Seq<char>,
    tail: Seq<char>,
)
    requires
        finishes_at(step, run, changes_now, release),
        run.input@ == head + tail,
        run.source == bytes_of(head).len(),
        changes_now >= run.changes_before,
    ensures
        step matches IngestStep::Finish { rest, rows_written, statements, finalize } && rest@ == tail
            && rows_written == changes_now - run.changes_before && statements == run.statement_count
            && finalize == release,
{
    if let IngestStep::Finish { rest, .. } = step {
        law_rest_is_what_was_not_run(head, tail, rest@);
    }
}

/// A text can be cut behind any of its characters: where a first part of it ends, at its start
/// and at its end. It cannot be cut behind its end.
pub proof fn law_text_is_cut_between_characters(head: Seq<char>, tail: Seq<char>, offset: int)
    ensures
        cuttable(head + tail, bytes_of(head).len() as int),
        cuttable(head + tail, 0),
        cuttable(head + tail, bytes_of(head + tail).len() as int),
        offset < 0 || offset > bytes_of(head + tail).len() ==> !cuttable(head + tail, offset),
{
    lemma_bytes_join(head, tail);
    lemma_boundary(head, tail);
    lemma_boundary(head + tail, Seq::empty());
    lemma_boundary(Seq::empty(), head + tail);
    assert((head + tail) + Seq::<char>::empty() =~= head + tail);
    assert(Seq::<char>::empty() + (head + tail) =~= head + tail);
    assert(bytes_of(Seq::<char>::empty()).len() == 0);
}

proof fn lemma_boundary(head: Seq<char>, tail: Seq<char>)
    ensures
        vstd::utf8::is_char_boundary(bytes_of(head + tail), bytes_of(head).len() as int),
    decreases head.len(),
{
    let all = head + tail;
    vstd::utf8::encode_utf8_valid_utf8(all);
    if head.len() > 0 {
        vstd::utf8::encode_utf8_first_scalar(all);
        lemma_boundary(head.drop_first(), tail);
        lemma_bytes_join(head, tail);
        assert(all.drop_first() =~= head.drop_first() + tail);
        assert(all[0] == head[0]);
        let first = vstd::utf8::encode_scalar(head[0] as u32);
        assert(bytes_of(head) == first + bytes_of(head.drop_first()));
        assert(bytes_of(all) == first + bytes_of(all.drop_first()));
        assert(vstd::utf8::pop_first_scalar(bytes_of(all)) =~= bytes_of(all.drop_first()));
    }
}

} // verus!
