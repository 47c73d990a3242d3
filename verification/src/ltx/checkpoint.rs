//! When the WAL is checkpointed, and what is captured around a checkpoint.

use vstd::prelude::*;

use crate::ltx::db::Db;
use crate::ltx::db::SyncTiming;
use crate::ltx::verify;
use crate::ltx::verify::SyncInfo;
use crate::ltx::wal;
use crate::ltx::wal::WAL_FRAME_HEADER_SIZE;
use crate::ltx::wal::WAL_HEADER_SIZE;
use crate::text;

verus! {

/// How SQLite checkpoints.
#[derive(Clone, Copy, Debug, PartialEq, Eq, Structural)]
pub enum CheckpointMode {
    /// Does not block, and stops at what a transaction still uses.
    Passive,
    /// Waits for the writers.
    Full,
    /// Waits for the readers too, so that the WAL restarts.
    Restart,
    /// Restarts the WAL and shortens its file to nothing.
    Truncate,
}

/// What SQLite reports of a checkpoint: whether a lock stopped it, how many
/// frames the WAL holds, and how many were copied back.
#[derive(Clone, Copy, Debug, PartialEq, Eq, Structural)]
pub struct CheckpointPragma {
    pub busy: i64,
    pub wal_frames: i64,
    pub backfilled: i64,
}

/// From more pages than these on, the WAL has to outgrow the database before a
/// truncating checkpoint.
pub const RELATIVE_TRUNCATE_PAGES: u32 = 1024;

/// A mode's name in SQLite's pragma.
pub open spec fn mode_name(mode: CheckpointMode) -> Seq<char> {
    match mode {
        CheckpointMode::Passive => "PASSIVE"@,
        CheckpointMode::Full => "FULL"@,
        CheckpointMode::Restart => "RESTART"@,
        CheckpointMode::Truncate => "TRUNCATE"@,
    }
}

impl CheckpointMode {
    /// The mode's name in SQLite's pragma.
    pub fn name(&self) -> (name: &'static str)
        ensures
            name@ == mode_name(*self),
    {
        match self {
            CheckpointMode::Passive => "PASSIVE",
            CheckpointMode::Full => "FULL",
            CheckpointMode::Restart => "RESTART",
            CheckpointMode::Truncate => "TRUNCATE",
        }
    }

    /// The statement that checkpoints in this mode.
    pub fn pragma(&self) -> (sql: String)
        ensures
            sql@ == "PRAGMA wal_checkpoint("@ + mode_name(*self) + ")"@,
    {
        text::concat3("PRAGMA wal_checkpoint(", self.name(), ")")
    }
}

/// What follows a capture.
#[derive(Clone, Copy, Debug, PartialEq, Eq, Structural)]
pub enum CheckpointNeed {
    Nothing,
    /// This checkpoint.
    Run(CheckpointMode),
    /// The age of the database file decides, and has to be read.
    ReadAge,
}

/// From how many pages of WAL on a truncating checkpoint runs.
pub open spec fn truncate_pages(db: Db) -> u32 {
    if db.last_db_pages > RELATIVE_TRUNCATE_PAGES && db.last_db_pages > db.truncate_page_n {
        db.last_db_pages
    } else {
        db.truncate_page_n
    }
}

/// Through where the WAL counts as copied back, for a WAL of this size.
pub open spec fn backfilled_through(db: Db, new_wal_size: i64) -> int {
    let low = WAL_HEADER_SIZE as int;
    let high = if new_wal_size > low {
        new_wal_size as int
    } else {
        low
    };
    if db.checkpointed_wal_offset < low {
        low
    } else if db.checkpointed_wal_offset > high {
        high
    } else {
        db.checkpointed_wal_offset as int
    }
}

/// Whether a checkpoint follows. A WAL that outgrew the truncating threshold
/// before the capture is truncated. Else one of which enough frames are not
/// copied back yet is checkpointed passively. Else so is one whose database file
/// is older than the interval, where data was captured since the last checkpoint
/// and the WAL holds more than one frame.
pub open spec fn checkpoint_need(
    db: Db,
    orig_wal_size: i64,
    new_wal_size: i64,
    age: Option<u128>,
) -> CheckpointNeed {
    if db.page_size == 0 {
        CheckpointNeed::Nothing
    } else if db.truncate_page_n > 0 && orig_wal_size >= wal::wal_size_of(
        db.page_size,
        truncate_pages(db),
    ) {
        CheckpointNeed::Run(CheckpointMode::Truncate)
    } else if new_wal_size - backfilled_through(db, new_wal_size) >= wal::wal_size_of(
        db.page_size,
        db.min_checkpoint_page_n,
    ) - WAL_HEADER_SIZE {
        CheckpointNeed::Run(CheckpointMode::Passive)
    } else if db.checkpoint_interval > 0 && db.synced_since_checkpoint {
        match age {
            None => CheckpointNeed::ReadAge,
            Some(age) => if age > db.checkpoint_interval && new_wal_size > wal::wal_size_of(
                db.page_size,
                1,
            ) {
                CheckpointNeed::Run(CheckpointMode::Passive)
            } else {
                CheckpointNeed::Nothing
            },
        }
    } else {
        CheckpointNeed::Nothing
    }
}

proof fn lemma_wal_size_fits(page_size: u32, page_n: u32)
    requires
        page_size <= 65536,
    ensures
        WAL_HEADER_SIZE <= wal::wal_size_of(page_size, page_n) <= 0x2_0000_0000_0000,
{
    let frame = WAL_FRAME_HEADER_SIZE + page_size;
    assert(0 <= frame * page_n <= 65560 * 0xffff_ffff) by (nonlinear_arith)
        requires
            0 <= frame <= 65560,
            0 <= page_n <= 0xffff_ffff,
    ;
}

/// How many frames a capture that ended here consumed.
pub open spec fn captured_frames(db: Db) -> int {
    if db.last_synced_wal_offset > WAL_HEADER_SIZE {
        (db.last_synced_wal_offset - WAL_HEADER_SIZE) / verify::frame_size_of(db.page_size)
    } else {
        0
    }
}

/// What a checkpoint leaves to capture once the sealing write was made.
#[derive(Clone, Copy, Debug, PartialEq, Eq, Structural)]
pub enum AfterCheckpoint {
    /// The WAL went on: nothing.
    Settled,
    /// The WAL restarted, and the capture may have missed frames: the whole
    /// database, under the write lock.
    Boundary,
    /// The WAL restarted behind what was captured: what the check decides, under
    /// the write lock.
    Delta,
}

/// A snapshot from the start of a WAL with this header, for a reason.
pub open spec fn boundary_info(wal_header: Seq<u8>, reason: &'static str) -> SyncInfo {
    SyncInfo {
        offset: WAL_HEADER_SIZE as i64,
        salt1: wal::be(wal_header, 16) as u32,
        salt2: wal::be(wal_header, 20) as u32,
        prev_commit: 0,
        snapshotting: true,
        reason,
    }
}

fn boundary(wal_header: &[u8], reason: &'static str) -> (info: SyncInfo)
    requires
        wal_header@.len() >= WAL_HEADER_SIZE,
    ensures
        info == boundary_info(wal_header@, reason),
{
    let (salt1, salt2): (u32, u32) = wal::wal_salts(wal_header);
    SyncInfo {
        offset: WAL_HEADER_SIZE as i64,
        salt1,
        salt2,
        prev_commit: 0,
        snapshotting: true,
        reason,
    }
}

/// The snapshot that follows a checkpoint after which the WAL restarted.
pub fn checkpoint_boundary(wal_header: &[u8]) -> (info: SyncInfo)
    requires
        wal_header@.len() >= WAL_HEADER_SIZE,
    ensures
        info == boundary_info(wal_header@, verify::BOUNDARY),
{
    boundary(wal_header, verify::BOUNDARY)
}

fn same_header(a: &[u8], b: &[u8]) -> (answer: bool)
    ensures
        answer == (a@ == b@),
{
    verify::same_bytes(a, b)
}

/// What is captured once the writer barrier stands before a passive checkpoint:
/// where the WAL restarted before the barrier, some commits may only be in the
/// database, so the whole of it; else nothing special, and the check decides.
pub fn barrier_capture(before: &[u8], at_barrier: &[u8]) -> (info: Option<SyncInfo>)
    requires
        at_barrier@.len() >= WAL_HEADER_SIZE,
    ensures
        info == if at_barrier@ != before@ {
            Some(boundary_info(at_barrier@, verify::RESTARTED_EARLY))
        } else {
            None::<SyncInfo>
        },
{
    if !same_header(at_barrier, before) {
        Some(boundary(at_barrier, verify::RESTARTED_EARLY))
    } else {
        None
    }
}

impl Db {
    /// A sync begins: what the last one took is forgotten.
    pub fn begin_sync(&mut self)
        ensures
            *final(self) == (Db {
                last_sync_timing: crate::ltx::db::no_timing(),
                ..*old(self)
            }),
    {
        self.last_sync_timing = SyncTiming::default();
    }

    /// The WAL's size before a capture, as checkpoints count it: the end of the
    /// last capture, or none before the first, where the file's size is taken.
    pub fn logical_wal_size(&self) -> (size: Option<i64>)
        ensures
            size == if self.last_synced_wal_offset == 0 {
                None::<i64>
            } else {
                Some(self.last_synced_wal_offset)
            },
    {
        if self.last_synced_wal_offset == 0 {
            None
        } else {
            Some(self.last_synced_wal_offset)
        }
    }

    /// A sync captured something, or found nothing new.
    pub fn synced(&mut self, captured: bool)
        ensures
            *final(self) == (Db {
                synced_since_checkpoint: old(self).synced_since_checkpoint || captured,
                ..*old(self)
            }),
    {
        if captured {
            self.synced_since_checkpoint = true;
        }
    }

    /// Whether a checkpoint follows a capture, given the WAL's logical size
    /// before and after it. Where the file's age decides, the answer asks for it.
    pub fn checkpoint_if_needed(
        &self,
        orig_wal_size: i64,
        new_wal_size: i64,
        age: Option<u128>,
    ) -> (need: CheckpointNeed)
        requires
            self.page_size <= crate::ltx::db::MAX_PAGE_SIZE,
            i64::MIN + WAL_HEADER_SIZE <= new_wal_size,
        ensures
            need == checkpoint_need(*self, orig_wal_size, new_wal_size, age),
    {
        if self.page_size == 0 {
            return CheckpointNeed::Nothing;
        }
        let header: i64 = WAL_HEADER_SIZE as i64;
        proof {
            lemma_wal_size_fits(self.page_size, truncate_pages(*self));
            lemma_wal_size_fits(self.page_size, self.min_checkpoint_page_n);
            lemma_wal_size_fits(self.page_size, 1);
        }
        if self.truncate_page_n > 0 {
            let threshold: u32 = if self.last_db_pages > RELATIVE_TRUNCATE_PAGES
                && self.last_db_pages > self.truncate_page_n {
                self.last_db_pages
            } else {
                self.truncate_page_n
            };
            if orig_wal_size >= wal::calc_wal_size(self.page_size, threshold) {
                return CheckpointNeed::Run(CheckpointMode::Truncate);
            }
        }
        let high: i64 = if new_wal_size > header {
            new_wal_size
        } else {
            header
        };
        let through: i64 = if self.checkpointed_wal_offset < header {
            header
        } else if self.checkpointed_wal_offset > high {
            high
        } else {
            self.checkpointed_wal_offset
        };
        let threshold: i64 = wal::calc_wal_size(self.page_size, self.min_checkpoint_page_n)
            - header;
        if new_wal_size - through >= threshold {
            return CheckpointNeed::Run(CheckpointMode::Passive);
        }
        if self.checkpoint_interval > 0 && self.synced_since_checkpoint {
            match age {
                None => CheckpointNeed::ReadAge,
                Some(age) => if age > self.checkpoint_interval && new_wal_size
                    > wal::calc_wal_size(self.page_size, 1) {
                    CheckpointNeed::Run(CheckpointMode::Passive)
                } else {
                    CheckpointNeed::Nothing
                },
            }
        } else {
            CheckpointNeed::Nothing
        }
    }

    /// A passive checkpoint failed. The answer is whether the failure is let
    /// pass: SQLite was busy, and the next sync tries again.
    pub fn checkpoint_failed(&mut self, busy: bool) -> (pass: bool)
        ensures
            pass == busy,
            *final(self) == if busy {
                Db {
                    last_sync_timing: SyncTiming {
                        checkpoint_runs: 1,
                        checkpoint_busy_errors: 1,
                        ..old(self).last_sync_timing
                    },
                    ..*old(self)
                }
            } else {
                *old(self)
            },
    {
        if busy {
            self.last_sync_timing.checkpoint_runs = 1;
            self.last_sync_timing.checkpoint_busy_errors = 1;
        }
        busy
    }

    /// How many frames were captured before a checkpoint.
    pub fn pre_checkpoint_frames(&self) -> (n: i64)
        requires
            self.wf(),
        ensures
            n == captured_frames(*self),
    {
        let frame: i64 = self.page_size as i64 + WAL_FRAME_HEADER_SIZE as i64;
        if self.last_synced_wal_offset > WAL_HEADER_SIZE as i64 {
            (self.last_synced_wal_offset - WAL_HEADER_SIZE as i64) / frame
        } else {
            0
        }
    }

    /// SQLite checkpointed. What it copied back is where the next passive
    /// checkpoint counts from.
    pub fn checkpointed(&mut self, pragma: CheckpointPragma)
        requires
            old(self).wf(),
            WAL_HEADER_SIZE + pragma.backfilled * verify::frame_size_of(old(self).page_size)
                <= i64::MAX,
        ensures
            *final(self) == (Db {
                checkpointed_wal_offset: (WAL_HEADER_SIZE + (if pragma.backfilled > 0 {
                    pragma.backfilled as int
                } else {
                    0
                }) * verify::frame_size_of(old(self).page_size)) as i64,
                last_sync_timing: SyncTiming {
                    checkpoint_runs: 1,
                    checkpoint_wal_frames: if pragma.wal_frames > 0 {
                        pragma.wal_frames as u64
                    } else {
                        0
                    },
                    checkpoint_backfilled: if pragma.backfilled > 0 {
                        pragma.backfilled as u64
                    } else {
                        0
                    },
                    checkpoint_busy: if pragma.busy != 0 {
                        1
                    } else {
                        0
                    },
                    ..old(self).last_sync_timing
                },
                ..*old(self)
            }),
    {
        let frame: i64 = self.page_size as i64 + WAL_FRAME_HEADER_SIZE as i64;
        let frames: i64 = if pragma.wal_frames > 0 {
            pragma.wal_frames
        } else {
            0
        };
        let backfilled: i64 = if pragma.backfilled > 0 {
            pragma.backfilled
        } else {
            0
        };
        proof {
            assert(0 <= backfilled * frame) by (nonlinear_arith)
                requires
                    backfilled >= 0,
                    frame >= 0,
            ;
            if pragma.backfilled <= 0 {
                assert(backfilled * frame == 0) by (nonlinear_arith)
                    requires
                        backfilled == 0,
                ;
            }
        }
        self.last_sync_timing.checkpoint_runs = 1;
        self.last_sync_timing.checkpoint_wal_frames = frames as u64;
        self.last_sync_timing.checkpoint_backfilled = backfilled as u64;
        self.last_sync_timing.checkpoint_busy = if pragma.busy != 0 {
            1
        } else {
            0
        };
        self.checkpointed_wal_offset = WAL_HEADER_SIZE as i64 + backfilled * frame;
    }

    /// The sealing write was made after a checkpoint. Where the WAL's header
    /// stays as it was before, the WAL went on. Else it restarted: a truncating
    /// checkpoint needs the whole database, and so does any but a passive one
    /// that covered more frames than were captured before it.
    pub fn checkpoint_sealed(
        &mut self,
        mode: CheckpointMode,
        before: &[u8],
        after: &[u8],
        pragma: CheckpointPragma,
        pre_checkpoint_frames: i64,
    ) -> (next: AfterCheckpoint)
        ensures
            next == if before@ == after@ {
                AfterCheckpoint::Settled
            } else if mode is Truncate || (!(mode is Passive) && pragma.wal_frames
                > pre_checkpoint_frames) {
                AfterCheckpoint::Boundary
            } else {
                AfterCheckpoint::Delta
            },
            *final(self) == if before@ == after@ {
                Db { synced_since_checkpoint: false, ..*old(self) }
            } else {
                Db {
                    last_sync_timing: SyncTiming {
                        checkpoint_restarts: 1,
                        ..old(self).last_sync_timing
                    },
                    ..*old(self)
                }
            },
    {
        if same_header(before, after) {
            self.synced_since_checkpoint = false;
            return AfterCheckpoint::Settled;
        }
        self.last_sync_timing.checkpoint_restarts = 1;
        let whole: bool = match mode {
            CheckpointMode::Truncate => true,
            CheckpointMode::Passive => false,
            _ => pragma.wal_frames > pre_checkpoint_frames,
        };
        if whole {
            AfterCheckpoint::Boundary
        } else {
            AfterCheckpoint::Delta
        }
    }

    /// What follows a checkpoint was captured.
    pub fn checkpoint_settled(&mut self)
        ensures
            *final(self) == (Db { synced_since_checkpoint: false, ..*old(self) }),
    {
        self.synced_since_checkpoint = false;
    }
}

/// What comes of an operation between a release and a new acquisition of the read
/// lock: its own error first, then that of the cleanup.
pub fn first_error<T, E>(result: Result<T, E>, cleanup: Result<(), E>, reacquired: Result<
    (),
    E,
>) -> (out: Result<T, E>)
    ensures
        out == match result {
            Err(error) => Err::<T, E>(error),
            Ok(value) => match cleanup {
                Err(error) => Err(error),
                Ok(()) => match reacquired {
                    Err(error) => Err(error),
                    Ok(()) => Ok(value),
                },
            },
        },
{
    match result {
        Err(error) => Err(error),
        Ok(value) => match cleanup {
            Err(error) => Err(error),
            Ok(()) => match reacquired {
                Err(error) => Err(error),
                Ok(()) => Ok(value),
            },
        },
    }
}

/// Whether an error is SQLite's being busy: by its code, or by its message.
pub open spec fn busy_error(code_is_busy: bool, message: Seq<char>) -> bool {
    code_is_busy || text::occurs_in(message, "database is locked"@) || text::occurs_in(
        message,
        "SQLITE_BUSY"@,
    )
}

/// Whether an error is SQLite's being busy or locked. `code_is_busy` says whether
/// SQLite's own code does; else the message tells.
pub fn is_sqlite_busy_error(code_is_busy: bool, message: &str) -> (answer: bool)
    ensures
        answer == busy_error(code_is_busy, message@),
{
    if code_is_busy {
        return true;
    }
    let chars = text::chars_of(message);
    let locked = text::chars_of("database is locked");
    let busy = text::chars_of("SQLITE_BUSY");
    text::contains(&chars, &locked) || text::contains(&chars, &busy)
}

/// What `str::to_lowercase` makes of a text.
pub uninterp spec fn lowercase_of(s: Seq<char>) -> Seq<char>;

/// A text in lower case, by `str::to_lowercase`.
#[verifier::external_body]
fn lowercase(s: &str) -> (out: String)
    ensures
        out@ == lowercase_of(s@),
{
    s.to_lowercase()
}

/// Whether a message in lower case says that the disk is full.
pub open spec fn says_disk_full(message: Seq<char>) -> bool {
    text::occurs_in(message, "no space left on device"@) || text::occurs_in(
        message,
        "disk quota exceeded"@,
    ) || text::occurs_in(message, "enospc"@) || text::occurs_in(message, "edquot"@)
}

/// Whether a message in lower case says that the disk is full.
pub fn is_disk_full_text(message: &str) -> (answer: bool)
    ensures
        answer == says_disk_full(message@),
{
    let chars = text::chars_of(message);
    let space = text::chars_of("no space left on device");
    let quota = text::chars_of("disk quota exceeded");
    let enospc = text::chars_of("enospc");
    let edquot = text::chars_of("edquot");
    text::contains(&chars, &space) || text::contains(&chars, &quota) || text::contains(
        &chars,
        &enospc,
    ) || text::contains(&chars, &edquot)
}

/// Whether a message says that the disk is full, in whatever case.
pub fn is_disk_full_error(message: &str) -> (answer: bool)
    ensures
        answer == says_disk_full(lowercase_of(message@)),
{
    let lowered = lowercase(message);
    is_disk_full_text(lowered.as_str())
}

/// After a checkpoint that copied the whole WAL back, the frames that were there
/// do not count toward the next passive one: while less than the threshold is
/// appended, none follows by size.
pub proof fn law_copied_frames_do_not_count(db: Db, orig_wal_size: i64, new_wal_size: i64)
    requires
        db.wf(),
        WAL_HEADER_SIZE <= db.checkpointed_wal_offset <= new_wal_size,
        new_wal_size - db.checkpointed_wal_offset < wal::wal_size_of(
            db.page_size,
            db.min_checkpoint_page_n,
        ) - WAL_HEADER_SIZE,
        orig_wal_size < wal::wal_size_of(db.page_size, truncate_pages(db)),
        !db.synced_since_checkpoint,
    ensures
        forall|age: Option<u128>| #[trigger]
            checkpoint_need(db, orig_wal_size, new_wal_size, age) == CheckpointNeed::Nothing,
{
}

/// A large database is truncated only once the WAL has outgrown it, so that the
/// snapshot which follows costs no more than the WAL that it replaces.
pub proof fn law_truncation_costs_no_more_than_the_wal(
    db: Db,
    orig_wal_size: i64,
    new_wal_size: i64,
    age: Option<u128>,
)
    requires
        db.wf(),
        db.last_db_pages > RELATIVE_TRUNCATE_PAGES,
    ensures
        checkpoint_need(db, orig_wal_size, new_wal_size, age) == CheckpointNeed::Run(
            CheckpointMode::Truncate,
        ) ==> orig_wal_size >= db.last_db_pages * db.page_size,
{
    let frame = WAL_FRAME_HEADER_SIZE + db.page_size;
    let n = truncate_pages(db);
    let pages = db.last_db_pages;
    let size = db.page_size;
    assert(frame * n >= pages * size) by (nonlinear_arith)
        requires
            frame >= size,
            n >= pages,
            size >= 0,
            pages >= 0,
    ;
}

/// A WAL that reached the truncation size is truncated, whatever else holds: the size of as
/// many frames as the limit says, or as the database has pages where those are more than
/// the limit and more than 1024. Without a limit nothing is truncated.
pub proof fn law_long_wal_is_truncated(
    db: Db,
    orig_wal_size: i64,
    new_wal_size: i64,
    age: Option<u128>,
)
    requires
        db.wf(),
    ensures
        ({
            let limit = if db.last_db_pages > 1024 && db.last_db_pages > db.truncate_page_n {
                db.last_db_pages
            } else {
                db.truncate_page_n
            };
            checkpoint_need(db, orig_wal_size, new_wal_size, age) == CheckpointNeed::Run(
                CheckpointMode::Truncate,
            ) <==> db.truncate_page_n > 0 && orig_wal_size >= 32 + (24 + db.page_size) * limit
        }),
{
}

/// Frames that were not copied back yet cause a passive checkpoint once there are as many as
/// the minimum; what was copied counts from the WAL's header to its end at most.
pub proof fn law_new_frames_are_checkpointed(
    db: Db,
    orig_wal_size: i64,
    new_wal_size: i64,
    age: Option<u128>,
)
    requires
        db.wf(),
        32 <= db.checkpointed_wal_offset <= new_wal_size,
        new_wal_size - db.checkpointed_wal_offset >= (24 + db.page_size)
            * db.min_checkpoint_page_n,
    ensures
        checkpoint_need(db, orig_wal_size, new_wal_size, age) == CheckpointNeed::Run(
            CheckpointMode::Passive,
        ) || checkpoint_need(db, orig_wal_size, new_wal_size, age) == CheckpointNeed::Run(
            CheckpointMode::Truncate,
        ),
{
}

/// Where neither size calls for a checkpoint, time can: after a capture since the last one,
/// once the interval has passed, for a WAL of more than one frame. Nothing else does, and
/// the age is asked for only where it decides.
pub proof fn law_old_wal_is_checkpointed(
    db: Db,
    orig_wal_size: i64,
    new_wal_size: i64,
    age: Option<u128>,
)
    requires
        db.wf(),
        db.truncate_page_n == 0 || orig_wal_size < 32 + (24 + db.page_size) * db.truncate_page_n,
        32 <= db.checkpointed_wal_offset <= new_wal_size,
        new_wal_size - db.checkpointed_wal_offset < (24 + db.page_size) * db.min_checkpoint_page_n,
    ensures
        ({
            let timed = db.checkpoint_interval > 0 && db.synced_since_checkpoint;
            let need = checkpoint_need(db, orig_wal_size, new_wal_size, age);
            &&& need is ReadAge <==> timed && age is None
            &&& need == CheckpointNeed::Run(CheckpointMode::Passive) <==> timed && (
            age matches Some(age) && age > db.checkpoint_interval) && new_wal_size > 32 + 24
                + db.page_size
            &&& !(need matches CheckpointNeed::Run(mode) && (mode is Full || mode is Restart))
        }),
{
    assert((24 + db.page_size) * 1 == 24 + db.page_size) by (nonlinear_arith);
    let limit = truncate_pages(db);
    assert((24 + db.page_size) * db.truncate_page_n <= (24 + db.page_size) * limit)
        by (nonlinear_arith)
        requires
            db.truncate_page_n <= limit,
    ;
}

/// What was copied back counts within the WAL: never less than its header, never more than
/// its end, and what the last checkpoint said in between.
pub proof fn law_copied_part_is_within_the_wal(db: Db, new_wal_size: i64)
    requires
        new_wal_size >= 32,
    ensures
        32 <= backfilled_through(db, new_wal_size) <= new_wal_size,
        32 <= db.checkpointed_wal_offset <= new_wal_size ==> backfilled_through(db, new_wal_size)
            == db.checkpointed_wal_offset,
        db.checkpointed_wal_offset < 32 ==> backfilled_through(db, new_wal_size) == 32,
        db.checkpointed_wal_offset > new_wal_size ==> backfilled_through(db, new_wal_size)
            == new_wal_size,
{
}

/// How many frames were captured: as many as end within what was captured of the WAL.
pub proof fn law_captured_frames_are_whole(db: Db)
    requires
        db.wf(),
    ensures
        db.last_synced_wal_offset <= 32 ==> captured_frames(db) == 0,
        db.last_synced_wal_offset > 32 ==> 32 + captured_frames(db) * (24 + db.page_size)
            <= db.last_synced_wal_offset < 32 + (captured_frames(db) + 1) * (24 + db.page_size),
{
    let room = db.last_synced_wal_offset - 32;
    let frame = 24 + db.page_size;
    assert((room / frame) * frame <= room < (room / frame + 1) * frame) by (nonlinear_arith)
        requires
            frame > 0,
    ;
}

/// The capture at a checkpoint's boundary is a snapshot from the WAL's header on, with the
/// salts of the header that was read.
pub proof fn law_boundary_snapshots(wal_header: Seq<u8>, reason: &'static str)
    requires
        wal_header.len() >= 32,
    ensures
        ({
            let info = boundary_info(wal_header, reason);
            &&& info.snapshotting && info.offset == 32 && info.reason == reason
            &&& (info.salt1 as int, info.salt2 as int) == wal::header_salts(wal_header)
        }),
{
    wal::law_numbers_are_big_endian(wal_header, 16);
    wal::law_numbers_are_big_endian(wal_header, 20);
}

/// Each mode's name, and the messages that tell a busy database and a full disk wherever
/// they stand.
pub proof fn law_modes_and_messages(head: Seq<char>, tail: Seq<char>, code_is_busy: bool)
    ensures
        mode_name(CheckpointMode::Passive) == "PASSIVE"@,
        mode_name(CheckpointMode::Full) == "FULL"@,
        mode_name(CheckpointMode::Restart) == "RESTART"@,
        mode_name(CheckpointMode::Truncate) == "TRUNCATE"@,
        busy_error(true, head),
        busy_error(code_is_busy, head + "database is locked"@ + tail),
        busy_error(code_is_busy, head + "SQLITE_BUSY"@ + tail),
        busy_error(false, head) ==> text::occurs_in(head, "database is locked"@)
            || text::occurs_in(head, "SQLITE_BUSY"@),
        says_disk_full(head + "no space left on device"@ + tail),
        says_disk_full(head + "disk quota exceeded"@ + tail),
        says_disk_full(head + "enospc"@ + tail),
        says_disk_full(head + "edquot"@ + tail),
        says_disk_full(head) ==> head.len() >= 6,
{
    text::lemma_occurs(head, "database is locked"@, tail);
    text::lemma_occurs(head, "SQLITE_BUSY"@, tail);
    text::lemma_occurs(head, "no space left on device"@, tail);
    text::lemma_occurs(head, "disk quota exceeded"@, tail);
    text::lemma_occurs(head, "enospc"@, tail);
    text::lemma_occurs(head, "edquot"@, tail);
    reveal_strlit("no space left on device");
    reveal_strlit("disk quota exceeded");
    reveal_strlit("enospc");
    reveal_strlit("edquot");
}

} // verus!
