//! Whether a capture can go on where the last one stopped.
//!
//! The last LTX file names the end of what was captured of the WAL. Where the
//! WAL no longer continues it, the next capture has to be a snapshot of the
//! whole database; a needless snapshot is safe, and a missing one is not.

use vstd::prelude::*;

use crate::ltx::wal;
use crate::ltx::wal::WAL_FRAME_HEADER_SIZE;
use crate::ltx::wal::WAL_HEADER_SIZE;
use crate::text;

verus! {

pub const WAL_TRUNCATED: &'static str = "wal truncated by another process";

pub const SALT_RESET: &'static str = "wal header salt reset, snapshotting";

pub const PAGE_MISSING: &'static str =
    "last page does not exist in last ltx file, wal overwritten by another process";

pub const FULL_CHECKPOINT: &'static str = "full or restart checkpoint detected, snapshotting";

pub const BOUNDARY: &'static str = "checkpoint boundary snapshot";

pub const RESTARTED_EARLY: &'static str = "WAL restarted before passive checkpoint barrier";

/// The number of a snapshot's reason; the first sync gives none.
pub open spec fn reason_code(reason: Seq<char>) -> int {
    if reason == ""@ {
        1
    } else if reason == WAL_TRUNCATED@ {
        2
    } else if reason == SALT_RESET@ {
        3
    } else if reason == PAGE_MISSING@ {
        4
    } else if reason == FULL_CHECKPOINT@ {
        5
    } else if reason == BOUNDARY@ {
        6
    } else if reason == RESTARTED_EARLY@ {
        8
    } else {
        7
    }
}

/// The number of a snapshot's reason.
pub fn snapshot_reason_code(reason: &str) -> (code: u8)
    ensures
        code == reason_code(reason@),
{
    if text::same_text(reason, "") {
        1
    } else if text::same_text(reason, WAL_TRUNCATED) {
        2
    } else if text::same_text(reason, SALT_RESET) {
        3
    } else if text::same_text(reason, PAGE_MISSING) {
        4
    } else if text::same_text(reason, FULL_CHECKPOINT) {
        5
    } else if text::same_text(reason, BOUNDARY) {
        6
    } else if text::same_text(reason, RESTARTED_EARLY) {
        8
    } else {
        7
    }
}

/// What is read back of the last LTX file: where its part of the WAL lies, the
/// database's page count, and the last WAL frame that it consumed.
#[derive(Clone)]
pub struct LastL0Header {
    pub wal_offset: i64,
    pub wal_size: i64,
    pub wal_salt1: u32,
    pub wal_salt2: u32,
    pub commit: u32,
    pub final_pgno: u32,
    pub final_page: Vec<u8>,
}

/// The end of what a file captured of the WAL.
pub open spec fn captured_end(header: LastL0Header) -> int {
    header.wal_offset + header.wal_size
}

/// How the next capture reads the WAL.
pub struct SyncInfo {
    /// The end of the previous read, in bytes of the WAL.
    pub offset: i64,
    pub salt1: u32,
    pub salt2: u32,
    /// The page count that the previous file recorded.
    pub prev_commit: u32,
    /// A full snapshot is required.
    pub snapshotting: bool,
    pub reason: &'static str,
}

/// What is known when the capture is checked. What was not read yet is missing.
pub struct VerifyFacts {
    pub page_size: u32,
    /// The last LTX file's header; none before the first sync.
    pub last: Option<LastL0Header>,
    /// The header is this instance's own memory of the file.
    pub remembered: bool,
    pub wal_size: i64,
    /// The last sync reached the exact end of the WAL.
    pub synced_to_wal_end: bool,
    /// The salts of the WAL's header.
    pub wal_salts: Option<(u32, u32)>,
    /// Whether the last consumed frame is in the last LTX file.
    pub last_page_match: Option<bool>,
    /// Whether the WAL holds frames of salts that are neither its own nor the
    /// last file's.
    pub foreign_salts: Option<bool>,
}

/// What the check came to, or what it has to read first.
pub enum VerifyStep {
    Done(SyncInfo),
    /// The WAL's header.
    ReadWalHeader,
    /// The last consumed frame, which begins here.
    ReadFrame { offset: i64 },
    /// The salts of the WAL's frames.
    ReadSalts,
    /// The last file ends before the first frame's end.
    BadOffset { prev_wal_offset: i64 },
}

/// The size of a WAL frame.
pub open spec fn frame_size_of(page_size: u32) -> int {
    page_size + WAL_FRAME_HEADER_SIZE
}

/// How to go on from the last file's end.
pub open spec fn resume(last: LastL0Header, snapshotting: bool, reason: &'static str) -> SyncInfo {
    SyncInfo {
        offset: captured_end(last) as i64,
        salt1: last.wal_salt1,
        salt2: last.wal_salt2,
        prev_commit: last.commit,
        snapshotting,
        reason,
    }
}

/// How to go on from the start of a WAL with these salts.
pub open spec fn restart(
    last: LastL0Header,
    salts: (u32, u32),
    snapshotting: bool,
    reason: &'static str,
) -> SyncInfo {
    SyncInfo {
        offset: WAL_HEADER_SIZE as i64,
        salt1: salts.0,
        salt2: salts.1,
        prev_commit: last.commit,
        snapshotting,
        reason,
    }
}

/// Whether a WAL's salts are those of the last file.
pub open spec fn salts_match(last: LastL0Header, salts: (u32, u32)) -> bool {
    salts.0 == last.wal_salt1 && salts.1 == last.wal_salt2
}

/// Whether the last consumed frame is known to be in the last file. A remembered
/// header without a frame cannot tell, so it never is.
pub open spec fn frame_known(f: VerifyFacts, last: LastL0Header) -> Option<bool> {
    if f.remembered && last.final_page@.len() == 0 {
        Some(false)
    } else {
        f.last_page_match
    }
}

/// The check. The first sync snapshots. A WAL shorter than what was captured was
/// truncated: expected after a sync that reached its end, and by another process
/// otherwise. A capture that stopped at the header or behind the first frame can
/// only be told by the salts. Any other needs its last frame in the last file;
/// where only the salts changed, frames of a third WAL tell a checkpoint that
/// may have been missed.
pub open spec fn verify_step(f: VerifyFacts) -> VerifyStep {
    match f.last {
        None => VerifyStep::Done(
            SyncInfo {
                offset: WAL_HEADER_SIZE as i64,
                salt1: 0,
                salt2: 0,
                prev_commit: 0,
                snapshotting: true,
                reason: "",
            },
        ),
        Some(last) => {
            let end = captured_end(last);
            let prev = end - frame_size_of(f.page_size);
            if end > f.wal_size && !f.synced_to_wal_end {
                VerifyStep::Done(resume(last, true, WAL_TRUNCATED))
            } else {
                match f.wal_salts {
                    None => VerifyStep::ReadWalHeader,
                    Some(salts) => if end > f.wal_size {
                        VerifyStep::Done(restart(last, salts, false, ""))
                    } else if end == WAL_HEADER_SIZE || prev == WAL_HEADER_SIZE {
                        if salts_match(last, salts) {
                            VerifyStep::Done(resume(last, false, ""))
                        } else {
                            VerifyStep::Done(resume(last, true, SALT_RESET))
                        }
                    } else if prev < WAL_HEADER_SIZE {
                        VerifyStep::BadOffset { prev_wal_offset: prev as i64 }
                    } else {
                        match frame_known(f, last) {
                            None => VerifyStep::ReadFrame { offset: prev as i64 },
                            Some(false) => VerifyStep::Done(resume(last, true, PAGE_MISSING)),
                            Some(true) => if salts_match(last, salts) {
                                VerifyStep::Done(resume(last, false, ""))
                            } else {
                                match f.foreign_salts {
                                    None => VerifyStep::ReadSalts,
                                    Some(true) => VerifyStep::Done(
                                        restart(last, salts, true, FULL_CHECKPOINT),
                                    ),
                                    Some(false) => VerifyStep::Done(
                                        restart(last, salts, false, ""),
                                    ),
                                }
                            },
                        }
                    },
                }
            }
        },
    }
}

/// Check whether the capture can go on. Where something has to be read first,
/// the answer says what; with that read, the check is made again.
pub fn verify(f: &VerifyFacts) -> (step: VerifyStep)
    requires
        f.last matches Some(last) ==> i64::MIN + frame_size_of(f.page_size) <= captured_end(last)
            <= i64::MAX,
    ensures
        step == verify_step(*f),
{
    let header: i64 = WAL_HEADER_SIZE as i64;
    let last = match &f.last {
        None => {
            return VerifyStep::Done(
                SyncInfo {
                    offset: header,
                    salt1: 0,
                    salt2: 0,
                    prev_commit: 0,
                    snapshotting: true,
                    reason: "",
                },
            );
        },
        Some(last) => last,
    };
    let end: i64 = last.wal_offset + last.wal_size;
    let frame_size: i64 = f.page_size as i64 + WAL_FRAME_HEADER_SIZE as i64;
    let prev: i64 = end - frame_size;
    if end > f.wal_size && !f.synced_to_wal_end {
        return VerifyStep::Done(go_on(last, end, true, WAL_TRUNCATED));
    }
    let salts: (u32, u32) = match f.wal_salts {
        None => {
            return VerifyStep::ReadWalHeader;
        },
        Some(salts) => salts,
    };
    if end > f.wal_size {
        return VerifyStep::Done(go_back(last, salts, false, ""));
    }
    let matching: bool = salts.0 == last.wal_salt1 && salts.1 == last.wal_salt2;
    if end == header || prev == header {
        return if matching {
            VerifyStep::Done(go_on(last, end, false, ""))
        } else {
            VerifyStep::Done(go_on(last, end, true, SALT_RESET))
        };
    }
    if prev < header {
        return VerifyStep::BadOffset { prev_wal_offset: prev };
    }
    let known: Option<bool> = if f.remembered && last.final_page.len() == 0 {
        Some(false)
    } else {
        f.last_page_match
    };
    match known {
        None => VerifyStep::ReadFrame { offset: prev },
        Some(found) => {
            if !found {
                return VerifyStep::Done(go_on(last, end, true, PAGE_MISSING));
            }
            if matching {
                return VerifyStep::Done(go_on(last, end, false, ""));
            }
            match f.foreign_salts {
                None => VerifyStep::ReadSalts,
                Some(foreign) => if foreign {
                    VerifyStep::Done(go_back(last, salts, true, FULL_CHECKPOINT))
                } else {
                    VerifyStep::Done(go_back(last, salts, false, ""))
                },
            }
        },
    }
}

fn go_on(last: &LastL0Header, end: i64, snapshotting: bool, reason: &'static str) -> (info:
    SyncInfo)
    requires
        end == captured_end(*last),
    ensures
        info == resume(*last, snapshotting, reason),
{
    SyncInfo {
        offset: end,
        salt1: last.wal_salt1,
        salt2: last.wal_salt2,
        prev_commit: last.commit,
        snapshotting,
        reason,
    }
}

fn go_back(
    last: &LastL0Header,
    salts: (u32, u32),
    snapshotting: bool,
    reason: &'static str,
) -> (info: SyncInfo)
    ensures
        info == restart(*last, salts, snapshotting, reason),
{
    SyncInfo {
        offset: WAL_HEADER_SIZE as i64,
        salt1: salts.0,
        salt2: salts.1,
        prev_commit: last.commit,
        snapshotting,
        reason,
    }
}

/// A finished check, as it is handed from one step to the next.
pub struct VerifyInfo {
    pub inner: SyncInfo,
    pub offset: i64,
    pub prev_commit: u32,
    pub snapshotting: bool,
    pub reason: String,
}

impl VerifyInfo {
    /// What a check decided.
    pub fn of(inner: SyncInfo) -> (info: Self)
        ensures
            info.inner == inner,
            info.offset == inner.offset,
            info.prev_commit == inner.prev_commit,
            info.snapshotting == inner.snapshotting,
            info.reason@ == inner.reason@,
    {
        VerifyInfo {
            offset: inner.offset,
            prev_commit: inner.prev_commit,
            snapshotting: inner.snapshotting,
            reason: inner.reason.to_owned(),
            inner,
        }
    }
}

/// A frame's page number, salts and page.
pub open spec fn frame_pgno(frame: Seq<u8>) -> int {
    wal::be(frame, 0)
}

pub open spec fn frame_salts_are(frame: Seq<u8>, last: LastL0Header) -> bool {
    wal::be(frame, 8) == last.wal_salt1 && wal::be(frame, 12) == last.wal_salt2
}

pub open spec fn frame_page(frame: Seq<u8>) -> Seq<u8> {
    frame.skip(WAL_FRAME_HEADER_SIZE as int)
}

/// Whether a list of pages holds this one.
pub open spec fn holds_page(pages: Seq<(u32, Vec<u8>)>, pgno: int, page: Seq<u8>) -> bool {
    exists|i: int|
        0 <= i < pages.len() && (#[trigger] pages[i]).0 == pgno && pages[i].1@ == page
}

/// Whether a frame is in the last file: it has the file's salts, and the file
/// holds its page.
pub open spec fn in_last_file(
    frame: Seq<u8>,
    last: LastL0Header,
    pages: Seq<(u32, Vec<u8>)>,
) -> bool {
    frame_salts_are(frame, last) && holds_page(pages, frame_pgno(frame), frame_page(frame))
}

/// Whether a frame is the one that was consumed last, where that is remembered.
pub open spec fn is_last_consumed(frame: Seq<u8>, last: LastL0Header) -> bool {
    last.final_page@.len() > 0 && frame_salts_are(frame, last) && frame_pgno(frame)
        == last.final_pgno && frame_page(frame) == last.final_page@
}

pub(crate) fn same_bytes(a: &[u8], b: &[u8]) -> (answer: bool)
    ensures
        answer == (a@ == b@),
{
    if a.len() != b.len() {
        return false;
    }
    let mut i: usize = 0;
    while i < a.len()
        invariant
            a@.len() == b@.len(),
            i <= a@.len(),
            forall|j: int| 0 <= j < i ==> a@[j] == b@[j],
        decreases a@.len() - i,
    {
        if a[i] != b[i] {
            return false;
        }
        i = i + 1;
    }
    assert(a@ =~= b@);
    true
}

/// Whether the last consumed frame is in the last LTX file: it has the file's
/// salts, and the file holds its page byte for byte.
pub fn last_page_match(
    frame: &[u8],
    last: &LastL0Header,
    pages: &Vec<(u32, Vec<u8>)>,
) -> (answer: bool)
    requires
        frame@.len() >= WAL_FRAME_HEADER_SIZE,
    ensures
        answer == in_last_file(frame@, *last, pages@),
{
    if wal::be_u32_at(frame, 8) != last.wal_salt1 || wal::be_u32_at(frame, 12) != last.wal_salt2 {
        return false;
    }
    let pgno: u32 = wal::be_u32_at(frame, 0);
    let page = vstd::slice::slice_subrange(frame, WAL_FRAME_HEADER_SIZE, frame.len());
    assert(page@ =~= frame_page(frame@));
    let mut i: usize = 0;
    while i < pages.len()
        invariant
            i <= pages@.len(),
            pgno == frame_pgno(frame@),
            page@ == frame_page(frame@),
            frame_salts_are(frame@, *last),
            forall|j: int|
                0 <= j < i ==> !((#[trigger] pages@[j]).0 == pgno && pages@[j].1@ == page@),
        decreases pages@.len() - i,
    {
        if pages[i].0 == pgno && same_bytes(&pages[i].1, page) {
            assert(holds_page(pages@, frame_pgno(frame@), frame_page(frame@)));
            return true;
        }
        i = i + 1;
    }
    false
}

/// Whether the frame is the last one that the previous sync consumed, as this
/// instance remembers it.
pub fn last_page_match_cached(frame: &[u8], last: &LastL0Header) -> (answer: bool)
    requires
        frame@.len() >= WAL_FRAME_HEADER_SIZE,
    ensures
        answer == is_last_consumed(frame@, *last),
{
    if last.final_page.len() == 0 {
        return false;
    }
    let page = vstd::slice::slice_subrange(frame, WAL_FRAME_HEADER_SIZE, frame.len());
    assert(page@ =~= frame_page(frame@));
    wal::be_u32_at(frame, 8) == last.wal_salt1 && wal::be_u32_at(frame, 12) == last.wal_salt2
        && wal::be_u32_at(frame, 0) == last.final_pgno && same_bytes(page, &last.final_page)
}

/// Whether frames of a third WAL are among those seen: salts that are none of
/// the known ones.
pub fn detect_full_checkpoint(seen: &Vec<(u32, u32)>, known: &Vec<(u32, u32)>) -> (answer: bool)
    ensures
        answer == (exists|i: int|
            0 <= i < seen@.len() && !known@.contains(#[trigger] seen@[i])),
{
    let mut i: usize = 0;
    while i < seen.len()
        invariant
            i <= seen@.len(),
            forall|j: int| 0 <= j < i ==> known@.contains(#[trigger] seen@[j]),
        decreases seen@.len() - i,
    {
        let mut found = false;
        let mut j: usize = 0;
        while j < known.len()
            invariant
                i < seen@.len(),
                j <= known@.len(),
                found == (exists|k: int| 0 <= k < j && #[trigger] known@[k] == seen@[i as int]),
            decreases known@.len() - j,
        {
            if known[j].0 == seen[i].0 && known[j].1 == seen[i].1 {
                assert(known@[j as int] == seen@[i as int]);
                found = true;
            }
            j = j + 1;
        }
        if !found {
            assert(!known@.contains(seen@[i as int]));
            return true;
        }
        i = i + 1;
    }
    false
}

/// The remembered frame is a stricter test than the search of the file: where
/// the file holds that frame's page, whatever passes the one passes the other.
pub proof fn law_cached_match_is_conservative(
    frame: Seq<u8>,
    last: LastL0Header,
    pages: Seq<(u32, Vec<u8>)>,
)
    requires
        holds_page(pages, last.final_pgno as int, last.final_page@),
    ensures
        is_last_consumed(frame, last) ==> in_last_file(frame, last, pages),
{
}

/// A capture that goes on without a snapshot never begins past the end of the
/// WAL: it goes on inside what is there, or from the start of the WAL.
pub proof fn law_incremental_capture_is_within_the_wal(f: VerifyFacts)
    requires
        f.last matches Some(last) ==> i64::MIN <= captured_end(last) <= i64::MAX,
    ensures
        verify_step(f) matches VerifyStep::Done(info) ==> !info.snapshotting ==> (info.offset
            <= f.wal_size || info.offset == WAL_HEADER_SIZE),
{
}

/// Without a snapshot, the capture goes on with salts that the WAL has now,
/// unless the WAL's header did not have to be read.
pub proof fn law_incremental_capture_has_the_wals_salts(f: VerifyFacts, salts: (u32, u32))
    requires
        f.wal_salts == Some(salts),
        f.last is Some,
    ensures
        verify_step(f) matches VerifyStep::Done(info) ==> !info.snapshotting ==> info.salt1
            == salts.0 && info.salt2 == salts.1,
{
}

/// What the check decided stays decided, whatever else is read.
pub proof fn law_decision_needs_no_more_facts(f: VerifyFacts, g: VerifyFacts)
    requires
        verify_step(f) is Done,
        g.page_size == f.page_size && g.last == f.last && g.remembered == f.remembered
            && g.wal_size == f.wal_size && g.synced_to_wal_end == f.synced_to_wal_end,
        f.wal_salts is Some ==> g.wal_salts == f.wal_salts,
        f.last_page_match is Some ==> g.last_page_match == f.last_page_match,
        f.foreign_salts is Some ==> g.foreign_salts == f.foreign_salts,
    ensures
        verify_step(g) == verify_step(f),
{
}

/// Without a snapshot, what is captured provably continues the last file: the WAL
/// shrank after a capture that reached its end; or the last capture ended at the
/// WAL's header of 32 bytes, or behind the first frame, and the salts are unchanged;
/// or the last consumed frame is found in the last file, and either the salts are
/// unchanged or no frame of a third WAL was seen. The capture goes on at the last
/// one's end while the salts are unchanged, and behind the header of a new WAL.
pub proof fn law_delta_continues_the_last_file(f: VerifyFacts, last: LastL0Header)
    requires
        f.last == Some(last),
        i64::MIN <= last.wal_offset + last.wal_size <= i64::MAX,
    ensures
        ({
            let end = last.wal_offset + last.wal_size;
            let first = 32 + 24 + f.page_size;
            let same = f.wal_salts == Some((last.wal_salt1, last.wal_salt2));
            let frame_found = f.last_page_match == Some(true) && !(f.remembered
                && last.final_page@.len() == 0);
            verify_step(f) matches VerifyStep::Done(info) ==> !info.snapshotting ==> {
                &&& f.wal_salts is Some
                &&& info.reason@ == ""@ && info.prev_commit == last.commit
                &&& if end > f.wal_size {
                    f.synced_to_wal_end && info.offset == 32
                } else if end == 32 || end == first {
                    same && info.offset == end
                } else {
                    &&& end > first && frame_found
                    &&& same && info.offset == end || (!same && f.foreign_salts == Some(false)
                        && info.offset == 32)
                }
            }
        }),
{
}

/// A snapshot is taken exactly where the WAL does not provably continue the last
/// file: there is no last file; the WAL shrank after a capture that did not reach its
/// end; the salts changed and no frame can be compared; the last consumed frame is not
/// in the last file; or frames of a third WAL were seen. Each has its own reason.
pub proof fn law_snapshot_where_the_wal_does_not_continue(f: VerifyFacts, last: LastL0Header)
    requires
        i64::MIN <= last.wal_offset + last.wal_size <= i64::MAX,
        f.last is Some ==> f.last == Some(last),
    ensures
        ({
            let end = last.wal_offset + last.wal_size;
            let first = 32 + 24 + f.page_size;
            let same = f.wal_salts == Some((last.wal_salt1, last.wal_salt2));
            let frame_missing = f.last_page_match == Some(false) || (f.remembered
                && last.final_page@.len() == 0);
            let snapshot = |reason: Seq<char>|
                verify_step(f) matches VerifyStep::Done(info) && info.snapshotting
                    && info.reason@ == reason;
            &&& f.last is None ==> snapshot(""@) && (verify_step(f) matches VerifyStep::Done(info)
                && info.offset == 32 && info.prev_commit == 0)
            &&& f.last is Some && end > f.wal_size && !f.synced_to_wal_end ==> snapshot(
                "wal truncated by another process"@,
            )
            &&& f.last is Some && end <= f.wal_size && f.wal_salts is Some ==> {
                &&& (end == 32 || end == first) && !same ==> snapshot(
                    "wal header salt reset, snapshotting"@,
                )
                &&& end > first && frame_missing ==> snapshot(
                    "last page does not exist in last ltx file, wal overwritten by another process"@,
                )
                &&& end > first && !frame_missing && f.last_page_match is Some && !same
                    && f.foreign_salts == Some(true) ==> snapshot(
                    "full or restart checkpoint detected, snapshotting"@,
                )
            }
            &&& f.last is Some ==> (verify_step(f) matches VerifyStep::Done(info)
                ==> info.snapshotting ==> info.prev_commit == last.commit && (if first < end
                <= f.wal_size && !frame_missing {
                Some((info.salt1, info.salt2)) == f.wal_salts
            } else {
                (info.salt1, info.salt2) == (last.wal_salt1, last.wal_salt2)
            }) && {
                ||| end > f.wal_size && !f.synced_to_wal_end && info.offset == end
                ||| end <= f.wal_size && (end == 32 || end == first) && !same && info.offset == end
                ||| first < end <= f.wal_size && frame_missing && info.offset == end
                ||| first < end <= f.wal_size && !frame_missing && !same && f.foreign_salts
                    == Some(true) && info.offset == 32
            })
        }),
{
}

/// The check asks only for what it does not know, and decides once it knows all: a
/// last file that ends inside the first frame is the one thing it cannot judge. The
/// frame that it asks for is the last one before the last capture's end.
pub proof fn law_check_asks_for_what_is_missing(f: VerifyFacts, last: LastL0Header)
    requires
        f.last == Some(last),
        i64::MIN + 24 + f.page_size <= last.wal_offset + last.wal_size <= i64::MAX,
    ensures
        ({
            let end = last.wal_offset + last.wal_size;
            let before_frame = end - 24 - f.page_size;
            let inside_first = end <= f.wal_size && end != 32 && before_frame < 32;
            &&& verify_step(f) is ReadWalHeader ==> f.wal_salts is None
            &&& verify_step(f) is ReadSalts ==> f.foreign_salts is None && f.last_page_match
                == Some(true)
            &&& verify_step(f) matches VerifyStep::ReadFrame { offset } ==> f.last_page_match is None
                && offset == before_frame && 32 < offset
            &&& verify_step(f) matches VerifyStep::BadOffset { prev_wal_offset } ==> inside_first
                && prev_wal_offset == before_frame
            &&& f.wal_salts is Some && f.last_page_match is Some && f.foreign_salts is Some ==> (
            verify_step(f) is Done <==> !inside_first)
        }),
{
}

/// Each reason has its own number, and an unknown one a number of its own.
pub proof fn law_reasons_are_numbered(reason: Seq<char>)
    ensures
        reason_code(""@) == 1,
        reason == "wal truncated by another process"@ ==> reason_code(reason) == 2,
        reason == "wal header salt reset, snapshotting"@ ==> reason_code(reason) == 3,
        reason
            == "last page does not exist in last ltx file, wal overwritten by another process"@
            ==> reason_code(reason) == 4,
        reason == "full or restart checkpoint detected, snapshotting"@ ==> reason_code(reason) == 5,
        reason == "checkpoint boundary snapshot"@ ==> reason_code(reason) == 6,
        reason == "WAL restarted before passive checkpoint barrier"@ ==> reason_code(reason) == 8,
        reason_code(reason) != 7 ==> reason == ""@ || reason == "wal truncated by another process"@
            || reason == "wal header salt reset, snapshotting"@ || reason
            == "last page does not exist in last ltx file, wal overwritten by another process"@
            || reason == "full or restart checkpoint detected, snapshotting"@ || reason
            == "checkpoint boundary snapshot"@ || reason
            == "WAL restarted before passive checkpoint barrier"@,
{
    reveal_strlit("");
    reveal_strlit("wal truncated by another process");
    reveal_strlit("wal header salt reset, snapshotting");
    reveal_strlit("last page does not exist in last ltx file, wal overwritten by another process");
    reveal_strlit("full or restart checkpoint detected, snapshotting");
    reveal_strlit("checkpoint boundary snapshot");
    reveal_strlit("WAL restarted before passive checkpoint barrier");
    assert(""@.len() == 0);
    assert("wal truncated by another process"@.len() == 32);
    assert("wal header salt reset, snapshotting"@.len() == 35);
    assert("last page does not exist in last ltx file, wal overwritten by another process"@.len() == 77);
    assert("full or restart checkpoint detected, snapshotting"@.len() == 49);
    assert("checkpoint boundary snapshot"@.len() == 28);
    assert("WAL restarted before passive checkpoint barrier"@.len() == 47);
}

/// When a frame of the WAL is known. It has the last file's salts in its bytes 8 to 15, and the
/// last file carries, or this instance remembers, a page of the number in its first four bytes
/// that is, byte for byte, what follows the frame's header of 24 bytes. An instance that
/// remembers no page knows no frame.
pub proof fn law_frame_is_known(
    frame: Seq<u8>,
    last: LastL0Header,
    pages: Seq<(u32, Vec<u8>)>,
)
    requires
        frame.len() >= 24,
    ensures
        ({
            let salted = wal::be(frame, 8) == last.wal_salt1 && wal::be(frame, 12)
                == last.wal_salt2;
            let page = frame.subrange(24, frame.len() as int);
            &&& in_last_file(frame, last, pages) <==> salted && exists|i: int|
                0 <= i < pages.len() && (#[trigger] pages[i]).0 == wal::be(frame, 0) && pages[i].1@
                    == page
            &&& is_last_consumed(frame, last) <==> salted && last.final_page@.len() > 0
                && last.final_pgno == wal::be(frame, 0) && last.final_page@ == page
        }),
{
    assert(frame.skip(24) =~= frame.subrange(24, frame.len() as int));
}

} // verus!
