//! Whether a store keeps the contract that a bucket relies on.
//!
//! A store can take a precondition and not enforce it, and nothing says whether
//! it does. So the probe provokes the refusals that a conforming store gives.

use vstd::prelude::*;
use vstd::string::*;

use crate::bucket::backend;
use crate::bucket::backend::Bucket;
use crate::bucket::backend::Cause;
use crate::bucket::backend::StorageBackend;
use crate::ltx::verify::same_bytes;
use crate::numbers;
use crate::text;

verus! {

broadcast use vstd::string::group_string_axioms;

/// What a check of a store found.
pub enum StorageProbeVerdict {
    /// It answered as it has to.
    Conformant,
    /// It answered wrongly, which no further try changes.
    Violation(String),
}

/// A conditional write of the probe.
#[derive(Clone, Copy, Debug, PartialEq, Eq, Structural)]
pub enum CasStep {
    /// A create of an absent key, which is applied.
    Create,
    /// A create over it, which is refused.
    Recreate,
    /// An update with the current token, which is applied.
    Update,
    /// An update with a token that is stale, which is refused.
    Stale,
}

/// What the store answered to a conditional write.
#[derive(Clone, Copy, Debug, PartialEq, Eq, Structural)]
pub enum CasAnswer {
    Applied,
    Refused,
    /// It is not known whether it was applied.
    Failed,
}

/// What follows an answer.
pub enum CasNext {
    Step(CasStep),
    Verdict(StorageProbeVerdict),
    /// The check failed, with what it was doing.
    Failed(String),
}

/// What follows, as texts.
pub enum CasNextView {
    Step(CasStep),
    Conformant,
    Violation(Seq<char>),
    Failed(Seq<char>),
}

impl View for CasNext {
    type V = CasNextView;

    open spec fn view(&self) -> CasNextView {
        match *self {
            CasNext::Step(step) => CasNextView::Step(step),
            CasNext::Verdict(StorageProbeVerdict::Conformant) => CasNextView::Conformant,
            CasNext::Verdict(StorageProbeVerdict::Violation(reason)) => CasNextView::Violation(
                reason@,
            ),
            CasNext::Failed(doing) => CasNextView::Failed(doing@),
        }
    }
}

/// The header of a dialect's preconditions.
pub open spec fn precondition_of(backend: StorageBackend) -> Seq<char> {
    if backend::by_generation(backend) {
        "x-goog-if-generation-match"@
    } else {
        "If-Match / If-None-Match"@
    }
}

/// What is said of a store that fails where it has to refuse.
pub open spec fn ambiguous(backend: StorageBackend) -> Seq<char> {
    "the store answered a conditional write with an error where celld requires a clean rejection, so celld cannot tell a lost race from a failed write and reconciles forever; the store must answer "@
        + precondition_of(backend) + " with a rejection"@
}

/// What follows an answer to a step: applied, refused, applied, refused, in turn.
pub open spec fn after_step(backend: StorageBackend, step: CasStep, answer: CasAnswer) -> CasNextView {
    match (step, answer) {
        (CasStep::Create, CasAnswer::Applied) => CasNextView::Step(CasStep::Recreate),
        (CasStep::Create, CasAnswer::Refused) => CasNextView::Violation(
            "the store rejected a conditional create of an object that does not exist"@,
        ),
        (CasStep::Create, CasAnswer::Failed) => CasNextView::Failed(
            "the conditional-write probe could not create its object"@,
        ),
        (CasStep::Recreate, CasAnswer::Refused) => CasNextView::Step(CasStep::Update),
        (CasStep::Recreate, CasAnswer::Applied) => CasNextView::Violation(
            "the store overwrote an object although the write was conditional on that object being absent; the store accepts "@
                + precondition_of(backend)
                + " and does not enforce it, so two nodes can own one cell"@,
        ),
        (CasStep::Recreate, CasAnswer::Failed) => CasNextView::Failed(ambiguous(backend)),
        (CasStep::Update, CasAnswer::Applied) => CasNextView::Step(CasStep::Stale),
        (CasStep::Update, CasAnswer::Refused) => CasNextView::Violation(
            "the store rejected a conditional update that carried the current token"@,
        ),
        (CasStep::Update, CasAnswer::Failed) => CasNextView::Failed(
            "the conditional-write probe could not update its object"@,
        ),
        (CasStep::Stale, CasAnswer::Refused) => CasNextView::Conformant,
        (CasStep::Stale, CasAnswer::Applied) => CasNextView::Violation(
            "the store applied a conditional write that carried a stale token; the store accepts "@
                + precondition_of(backend)
                + " and does not enforce it, so two nodes can own one cell"@,
        ),
        (CasStep::Stale, CasAnswer::Failed) => CasNextView::Failed(ambiguous(backend)),
    }
}

fn violation(reason: &str) -> (next: CasNext)
    ensures
        next@ == CasNextView::Violation(reason@),
{
    CasNext::Verdict(StorageProbeVerdict::Violation(reason.to_owned()))
}

impl Bucket {
    fn ambiguous_text(&self) -> (out: String)
        ensures
            out@ == ambiguous(self.backend),
    {
        text::concat3(
            "the store answered a conditional write with an error where celld requires a clean rejection, so celld cannot tell a lost race from a failed write and reconciles forever; the store must answer ",
            self.backend.precondition(),
            " with a rejection",
        )
    }

    fn unenforced(&self, what: &str) -> (next: CasNext)
        ensures
            next@ == CasNextView::Violation(
                what@ + precondition_of(self.backend)
                    + " and does not enforce it, so two nodes can own one cell"@,
            ),
    {
        let reason = text::concat3(
            what,
            self.backend.precondition(),
            " and does not enforce it, so two nodes can own one cell",
        );
        CasNext::Verdict(StorageProbeVerdict::Violation(reason))
    }

    /// What follows an answer of the conditional-write probe.
    pub fn cas_contract(&self, step: CasStep, answer: CasAnswer) -> (next: CasNext)
        ensures
            next@ == after_step(self.backend, step, answer),
    {
        match step {
            CasStep::Create => match answer {
                CasAnswer::Applied => CasNext::Step(CasStep::Recreate),
                CasAnswer::Refused => violation(
                    "the store rejected a conditional create of an object that does not exist",
                ),
                CasAnswer::Failed => CasNext::Failed(
                    "the conditional-write probe could not create its object".to_owned(),
                ),
            },
            CasStep::Recreate => match answer {
                CasAnswer::Refused => CasNext::Step(CasStep::Update),
                CasAnswer::Applied => self.unenforced(
                    "the store overwrote an object although the write was conditional on that object being absent; the store accepts ",
                ),
                CasAnswer::Failed => CasNext::Failed(self.ambiguous_text()),
            },
            CasStep::Update => match answer {
                CasAnswer::Applied => CasNext::Step(CasStep::Stale),
                CasAnswer::Refused => violation(
                    "the store rejected a conditional update that carried the current token",
                ),
                CasAnswer::Failed => CasNext::Failed(
                    "the conditional-write probe could not update its object".to_owned(),
                ),
            },
            CasStep::Stale => match answer {
                CasAnswer::Refused => CasNext::Verdict(StorageProbeVerdict::Conformant),
                CasAnswer::Applied => self.unenforced(
                    "the store applied a conditional write that carried a stale token; the store accepts ",
                ),
                CasAnswer::Failed => CasNext::Failed(self.ambiguous_text()),
            },
        }
    }
}

impl CasStep {
    /// What a step writes.
    pub fn body(self) -> (body: &'static str)
        ensures
            body@ == match self {
                CasStep::Create => "probe-create"@,
                CasStep::Recreate => "probe-recreate"@,
                CasStep::Update => "probe-update"@,
                CasStep::Stale => "probe-stale"@,
            },
    {
        match self {
            CasStep::Create => "probe-create",
            CasStep::Recreate => "probe-recreate",
            CasStep::Update => "probe-update",
            CasStep::Stale => "probe-stale",
        }
    }

    /// Whether a step carries the token that the first one answered.
    pub fn carries_token(self) -> (answer: bool)
        ensures
            answer == (self is Update || self is Stale),
    {
        match self {
            CasStep::Update => true,
            CasStep::Stale => true,
            _ => false,
        }
    }
}

/// What the range probe writes, and the range that it reads.
pub const RANGE_BODY: &'static str = "celld-range-probe";

pub const RANGE_START: u64 = 6;

pub const RANGE_END: u64 = 11;

/// The bytes of the range.
pub const RANGE_PART: &'static str = "range";

/// Whether a store served the range that was asked for, with its bytes.
pub fn range_contract(served_start: u64, served_end: u64, bytes: &[u8]) -> (verdict:
    StorageProbeVerdict)
    ensures
        if served_start == RANGE_START && served_end == RANGE_END && bytes@
            == vstd::utf8::encode_utf8(RANGE_PART@) {
            verdict is Conformant
        } else {
            verdict matches StorageProbeVerdict::Violation(reason) && reason@
                == "the store does not honor ranged reads because it returned a different range or different bytes"@
        },
{
    if served_start == RANGE_START && served_end == RANGE_END && same_bytes(
        bytes,
        RANGE_PART.as_bytes(),
    ) {
        StorageProbeVerdict::Conformant
    } else {
        StorageProbeVerdict::Violation(
            "the store does not honor ranged reads because it returned a different range or different bytes".to_owned(),
        )
    }
}

/// The range of what the range probe writes is the part that it expects.
pub proof fn law_range_part()
    ensures
        RANGE_BODY@.subrange(RANGE_START as int, RANGE_END as int) == RANGE_PART@,
{
    reveal_strlit("celld-range-probe");
    reveal_strlit("range");
    assert(RANGE_BODY@.subrange(6, 11) =~= RANGE_PART@);
}

/// What one of the checks at startup came to: a verdict, or the errors that it
/// failed with.
pub enum ProbeOutcome {
    Verdict(StorageProbeVerdict),
    Failed(Vec<Cause>),
}

/// Whether a chain of errors says that the store does not implement an operation.
pub open spec fn unsupported(chain: Seq<Cause>) -> bool {
    exists|i: int| 0 <= i < chain.len() && backend::says_unsupported(#[trigger] chain[i])
}

/// Whether a chain of errors says that a response was not the range that was
/// asked for.
pub open spec fn invalid_range(chain: Seq<Cause>) -> bool {
    exists|i: int| 0 <= i < chain.len() && backend::says_invalid_range(#[trigger] chain[i])
}

/// What follows the conditional-write check at startup: the range check, a
/// violation, or a failure that may pass. A store that does not implement
/// conditional writes violates the contract.
pub fn after_cas_probe(outcome: ProbeOutcome) -> (next: Option<ProbeOutcome>)
    ensures
        match outcome {
            ProbeOutcome::Verdict(StorageProbeVerdict::Conformant) => next is None,
            ProbeOutcome::Verdict(StorageProbeVerdict::Violation(reason)) => next matches Some(
                ProbeOutcome::Verdict(StorageProbeVerdict::Violation(r)),
            ) && r@ == reason@,
            ProbeOutcome::Failed(chain) => if unsupported(chain@) {
                next matches Some(ProbeOutcome::Verdict(StorageProbeVerdict::Violation(r))) && r@
                    == "the store does not support conditional writes, so celld cannot acquire a cell"@
            } else {
                next matches Some(ProbeOutcome::Failed(c)) && c == chain
            },
        },
{
    match outcome {
        ProbeOutcome::Verdict(StorageProbeVerdict::Conformant) => None,
        ProbeOutcome::Verdict(verdict) => Some(ProbeOutcome::Verdict(verdict)),
        ProbeOutcome::Failed(chain) => if backend::is_unsupported_operation(&chain) {
            Some(
                ProbeOutcome::Verdict(
                    StorageProbeVerdict::Violation(
                        "the store does not support conditional writes, so celld cannot acquire a cell".to_owned(),
                    ),
                ),
            )
        } else {
            Some(ProbeOutcome::Failed(chain))
        },
    }
}

/// What the range check at startup comes to. A store that does not implement
/// ranges, or answers with other than what was asked for, violates the contract.
pub fn after_range_probe(outcome: ProbeOutcome) -> (out: ProbeOutcome)
    ensures
        match outcome {
            ProbeOutcome::Failed(chain) => if unsupported(chain@) || invalid_range(chain@) {
                out matches ProbeOutcome::Verdict(StorageProbeVerdict::Violation(r)) && r@
                    == "the store does not honor ranged reads, so celld cannot read stored cell data"@
            } else {
                out == outcome
            },
            _ => out == outcome,
        },
{
    match outcome {
        ProbeOutcome::Failed(chain) => if backend::is_unsupported_operation(&chain)
            || backend::is_invalid_range_response(&chain) {
            ProbeOutcome::Verdict(
                StorageProbeVerdict::Violation(
                    "the store does not honor ranged reads, so celld cannot read stored cell data".to_owned(),
                ),
            )
        } else {
            ProbeOutcome::Failed(chain)
        },
        verdict => verdict,
    }
}

/// The key of a probe's object, of its kind, the time, a tag of the process and a
/// random number.
pub fn probe_key(kind: &str, wall_ms: i64, process_tag: &str, random: u64) -> (key: String)
    ensures
        key@ == "probe/"@ + kind@ + "-"@ + numbers::decimal_text(
            (if wall_ms > 0 {
                wall_ms as int
            } else {
                0
            } * 1_000_000) as nat,
        ) + "-"@ + process_tag@ + "-"@ + numbers::hex_text(random as nat, 16),
{
    let ms: u128 = if wall_ms > 0 {
        wall_ms as u128
    } else {
        0
    };
    let nanos = numbers::decimal_large(ms * 1_000_000);
    let tail = text::string_of(&numbers::hex(random, 16));
    let head = text::concat3("probe/", kind, "-");
    let head = text::concat3(head.as_str(), nanos.as_str(), "-");
    let head = text::concat3(head.as_str(), process_tag, "-");
    text::concat(head.as_str(), tail.as_str())
}

/// A store passes only where it applied what it has to apply and refused what it
/// has to refuse; one that overwrites an object, or takes a stale token, never
/// passes.
pub proof fn law_only_a_fencing_store_passes(
    backend: StorageBackend,
    create: CasAnswer,
    recreate: CasAnswer,
    update: CasAnswer,
    stale: CasAnswer,
)
    ensures
        ({
            &&& after_step(backend, CasStep::Create, create) == CasNextView::Step(CasStep::Recreate)
                <==> create is Applied
            &&& after_step(backend, CasStep::Recreate, recreate) == CasNextView::Step(
                CasStep::Update,
            ) <==> recreate is Refused
            &&& after_step(backend, CasStep::Update, update) == CasNextView::Step(CasStep::Stale)
                <==> update is Applied
            &&& after_step(backend, CasStep::Stale, stale) is Conformant <==> stale is Refused
            &&& !(after_step(backend, CasStep::Create, create) is Conformant)
            &&& !(after_step(backend, CasStep::Recreate, recreate) is Conformant)
            &&& !(after_step(backend, CasStep::Update, update) is Conformant)
        }),
{
}

/// What breaks the contract: a create that is refused though nothing is there, one that is
/// applied though something is, an update with the current token that is refused, and one
/// with a stale token that is applied. A step that failed decides nothing.
pub proof fn law_what_breaks_the_contract(backend: StorageBackend, step: CasStep, answer: CasAnswer)
    ensures
        after_step(backend, step, answer) is Violation <==> (answer is Refused && (step is Create
            || step is Update)) || (answer is Applied && (step is Recreate || step is Stale)),
        after_step(backend, step, answer) is Failed <==> answer is Failed,
        precondition_of(backend) == if backend is Gcs {
            "x-goog-if-generation-match"@
        } else {
            "If-Match / If-None-Match"@
        },
{
}

/// A chain of causes says what one of its causes says, wherever it stands in it.
pub proof fn law_chain_says_what_a_cause_says(chain: Seq<Cause>, i: int)
    requires
        0 <= i < chain.len(),
    ensures
        backend::says_unsupported(chain[i]) ==> unsupported(chain),
        backend::says_invalid_range(chain[i]) ==> invalid_range(chain),
        chain.len() == 1 ==> unsupported(chain) == backend::says_unsupported(chain[0])
            && invalid_range(chain) == backend::says_invalid_range(chain[0]),
{
}

/// A store that does not enforce a condition, or answers one with an error, is told which
/// condition it has to enforce; one that refuses what it should apply is told so.
pub proof fn law_violations_name_the_condition(backend: StorageBackend)
    ensures
        after_step(backend, CasStep::Recreate, CasAnswer::Applied) matches CasNextView::Violation(r)
            && text::occurs_in(r, precondition_of(backend)),
        after_step(backend, CasStep::Stale, CasAnswer::Applied) matches CasNextView::Violation(r)
            && text::occurs_in(r, precondition_of(backend)),
        after_step(backend, CasStep::Recreate, CasAnswer::Failed) matches CasNextView::Failed(r)
            && text::occurs_in(r, precondition_of(backend)),
        after_step(backend, CasStep::Stale, CasAnswer::Failed) matches CasNextView::Failed(r)
            && text::occurs_in(r, precondition_of(backend)),
        after_step(backend, CasStep::Create, CasAnswer::Refused) == CasNextView::Violation(
            "the store rejected a conditional create of an object that does not exist"@,
        ),
        after_step(backend, CasStep::Update, CasAnswer::Refused) == CasNextView::Violation(
            "the store rejected a conditional update that carried the current token"@,
        ),
        after_step(backend, CasStep::Create, CasAnswer::Failed) == CasNextView::Failed(
            "the conditional-write probe could not create its object"@,
        ),
        after_step(backend, CasStep::Update, CasAnswer::Failed) == CasNextView::Failed(
            "the conditional-write probe could not update its object"@,
        ),
{
    let name = precondition_of(backend);
    text::lemma_occurs(
        "the store overwrote an object although the write was conditional on that object being absent; the store accepts "@,
        name,
        " and does not enforce it, so two nodes can own one cell"@,
    );
    text::lemma_occurs(
        "the store applied a conditional write that carried a stale token; the store accepts "@,
        name,
        " and does not enforce it, so two nodes can own one cell"@,
    );
    text::lemma_occurs(
        "the store answered a conditional write with an error where celld requires a clean rejection, so celld cannot tell a lost race from a failed write and reconciles forever; the store must answer "@,
        name,
        " with a rejection"@,
    );
}

} // verus!
