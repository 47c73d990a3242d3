//! The managed database: what the capture remembers between its steps, and its
//! own tables.

use vstd::prelude::*;

use crate::ltx::verify;
use crate::ltx::verify::LastL0Header;
use crate::ltx::verify::VerifyFacts;
use crate::ltx::wal;
use crate::ltx::wal::WAL_HEADER_SIZE;
use crate::text;

verus! {

broadcast use vstd::string::group_string_axioms;

/// The two tables that replication keeps inside each database.
pub const SEQ_TABLE: &'static str = "_litestream_seq";

pub const LOCK_TABLE: &'static str = "_litestream_lock";

/// The statements that create the control tables. SQLite stores this text in a
/// replicated page.
pub const CONTROL_TABLES_DDL: &'static str =
    "CREATE TABLE IF NOT EXISTS _litestream_seq (id INTEGER PRIMARY KEY, seq INTEGER);CREATE TABLE IF NOT EXISTS _litestream_lock (id INTEGER);";

/// The write that gives the WAL a frame.
pub const SEALING_WRITE: &'static str =
    "INSERT INTO _litestream_seq (id, seq) VALUES (1, 1) ON CONFLICT (id) DO UPDATE SET seq = seq + 1";

/// Whether a name is one of the two control tables, as SQLite compares names.
pub open spec fn control_table(name: Seq<char>) -> bool {
    text::same_ignoring_case(name, SEQ_TABLE@) || text::same_ignoring_case(name, LOCK_TABLE@)
}

/// Whether a name is one of the two control tables, compared without case.
pub fn is_control_table(name: &str) -> (answer: bool)
    ensures
        answer == control_table(name@),
{
    text::text_eq_ignoring_case(name, SEQ_TABLE) || text::text_eq_ignoring_case(name, LOCK_TABLE)
}

/// A replication position: the last transaction, and the database's checksum
/// after it where that is tracked.
#[derive(Clone, Copy, Debug, PartialEq, Eq, Structural)]
pub struct Pos {
    pub txid: u64,
    pub post_apply_checksum: u64,
}

/// One LTX file, as a listing names it.
#[derive(Clone, Copy, Debug, PartialEq, Eq, Structural)]
pub struct FileInfo {
    pub level: i32,
    pub min_txid: u64,
    pub max_txid: u64,
    pub pre_apply_checksum: u64,
    pub post_apply_checksum: u64,
    pub size: i64,
    /// Milliseconds since 1970.
    pub created_at: Option<i64>,
}

/// The fields of an LTX file's header.
#[derive(Clone, Copy, Debug, PartialEq, Eq, Structural)]
pub struct Header {
    /// The file's pages are not covered by a running checksum.
    pub no_checksum: bool,
    pub page_size: u32,
    pub commit: u32,
    pub min_txid: u64,
    pub max_txid: u64,
    pub timestamp: i64,
    pub pre_apply_checksum: u64,
    pub wal_offset: i64,
    pub wal_size: i64,
    pub wal_salt1: u32,
    pub wal_salt2: u32,
    pub node_id: u64,
}

/// Where the time of one sync went, in microseconds, and what it read.
#[derive(Clone, Copy, Debug, PartialEq, Eq, Structural)]
pub struct SyncTiming {
    pub prepare_us: u64,
    pub schema_check_us: u64,
    pub wal_exists_us: u64,
    pub verify_us: u64,
    pub encode_write_us: u64,
    pub pos_us: u64,
    pub wal_read_us: u64,
    pub map_collect_us: u64,
    pub ltx_encode_us: u64,
    pub file_write_us: u64,
    /// The WAL's length as this sync saw it.
    pub wal_len_bytes: u64,
    pub snapshot: bool,
    /// Which read of the WAL ran: the valid tail, the file for a snapshot, the
    /// valid prefix, or the file because the bounded read fell back.
    pub wal_read_kind: u8,
    pub wal_read_bytes: u64,
    pub wal_image_bytes: u64,
    /// The number of the snapshot's reason; zero without a snapshot.
    pub snapshot_reason: u8,
    pub fsync_us: u64,
    pub checkpoint_us: u64,
    pub checkpoint_runs: u64,
    pub checkpoint_wal_frames: u64,
    pub checkpoint_backfilled: u64,
    pub checkpoint_busy: u64,
    pub checkpoint_busy_errors: u64,
    pub checkpoint_restarts: u64,
}

/// A sync that has not begun.
pub open spec fn no_timing() -> SyncTiming {
    SyncTiming {
        prepare_us: 0,
        schema_check_us: 0,
        wal_exists_us: 0,
        verify_us: 0,
        encode_write_us: 0,
        pos_us: 0,
        wal_read_us: 0,
        map_collect_us: 0,
        ltx_encode_us: 0,
        file_write_us: 0,
        wal_len_bytes: 0,
        snapshot: false,
        wal_read_kind: 0,
        wal_read_bytes: 0,
        wal_image_bytes: 0,
        snapshot_reason: 0,
        fsync_us: 0,
        checkpoint_us: 0,
        checkpoint_runs: 0,
        checkpoint_wal_frames: 0,
        checkpoint_backfilled: 0,
        checkpoint_busy: 0,
        checkpoint_busy_errors: 0,
        checkpoint_restarts: 0,
    }
}

impl Default for SyncTiming {
    fn default() -> (timing: Self)
        ensures
            timing == no_timing(),
    {
        SyncTiming {
            prepare_us: 0,
            schema_check_us: 0,
            wal_exists_us: 0,
            verify_us: 0,
            encode_write_us: 0,
            pos_us: 0,
            wal_read_us: 0,
            map_collect_us: 0,
            ltx_encode_us: 0,
            file_write_us: 0,
            wal_len_bytes: 0,
            snapshot: false,
            wal_read_kind: 0,
            wal_read_bytes: 0,
            wal_image_bytes: 0,
            snapshot_reason: 0,
            fsync_us: 0,
            checkpoint_us: 0,
            checkpoint_runs: 0,
            checkpoint_wal_frames: 0,
            checkpoint_backfilled: 0,
            checkpoint_busy: 0,
            checkpoint_busy_errors: 0,
            checkpoint_restarts: 0,
        }
    }
}

/// The largest page that SQLite has.
pub const MAX_PAGE_SIZE: u32 = 65536;

pub const DEFAULT_MIN_CHECKPOINT_PAGE_N: u32 = 1000;

pub const DEFAULT_TRUNCATE_PAGE_N: u32 = 121_359;

/// One minute, in nanoseconds.
pub const DEFAULT_CHECKPOINT_INTERVAL: u128 = 60_000_000_000;

/// The state of a managed database.
pub struct Db {
    pub page_size: u32,
    /// The long-running read transaction is open.
    pub read_lock_held: bool,
    pub last_sync_timing: SyncTiming,
    /// From how many pages on a passive checkpoint runs.
    pub min_checkpoint_page_n: u32,
    /// From how many pages on a truncating checkpoint runs; zero for never.
    pub truncate_page_n: u32,
    /// How old the database file may grow before a passive checkpoint, in
    /// nanoseconds; zero for never.
    pub checkpoint_interval: u128,
    /// Data was captured since the last checkpoint.
    pub synced_since_checkpoint: bool,
    /// The last capture reached the exact end of the WAL.
    pub synced_to_wal_end: bool,
    /// The end of the WAL's content after the last capture.
    pub last_synced_wal_offset: i64,
    /// The database's page count as the last capture saw it.
    pub last_db_pages: u32,
    /// Through where the last checkpoint copied the WAL back.
    pub checkpointed_wal_offset: i64,
    /// The schema version for which the control tables are known to stand.
    pub verified_schema_version: Option<i64>,
    /// The header of the last file that this instance wrote, by its transaction.
    pub last_l0_header: Option<(u64, LastL0Header)>,
    /// The position, where it is known.
    pub pos_cache: Option<Pos>,
    /// The last captured file.
    pub max_l0_file_info: Option<FileInfo>,
}

/// Why a database was not opened.
#[derive(Clone, Copy, Debug, PartialEq, Eq, Structural)]
pub enum OpenFailure {
    /// SQLite did not go into WAL mode.
    NotWal,
    /// SQLite names no usable page size.
    PageSize(i64),
}

/// The next thing to read for the position.
#[derive(Clone, Copy, Debug, PartialEq, Eq, Structural)]
pub enum PosStep {
    Done(Pos),
    /// The range of the newest file.
    ReadMaxLtx,
    /// That file.
    ReadFile { min_txid: u64, max_txid: u64 },
}

/// Whether a range is that of the newest file of a directory: it ends last, and
/// of those that end there it is the first; nothing for a directory without any.
pub open spec fn newest_of(ranges: Seq<(u64, u64)>, newest: (u64, u64)) -> bool {
    &&& forall|i: int| 0 <= i < ranges.len() ==> (#[trigger] ranges[i]).1 <= newest.1
    &&& if newest.1 == 0 {
        newest.0 == 0
    } else {
        exists|i: int|
            0 <= i < ranges.len() && #[trigger] ranges[i] == newest && forall|j: int|
                0 <= j < i ==> (#[trigger] ranges[j]).1 < newest.1
    }
}

/// The newest range among a directory's files, `(0, 0)` where there is none.
pub fn max_ltx(ranges: &Vec<(u64, u64)>) -> (newest: (u64, u64))
    ensures
        newest_of(ranges@, newest),
{
    let mut min_txid: u64 = 0;
    let mut max_txid: u64 = 0;
    let mut i: usize = 0;
    while i < ranges.len()
        invariant
            i <= ranges@.len(),
            newest_of(ranges@.take(i as int), (min_txid, max_txid)),
        decreases ranges@.len() - i,
    {
        let ghost seen = ranges@.take(i as int);
        let ghost next = ranges@.take(i + 1);
        let ghost held = (min_txid, max_txid);
        assert(next =~= seen.push(ranges@[i as int]));
        let range: (u64, u64) = ranges[i];
        if range.1 > max_txid {
            min_txid = range.0;
            max_txid = range.1;
            assert(next[i as int] == (min_txid, max_txid));
        } else {
            proof {
                if held.1 != 0 {
                    let k = choose|k: int|
                        0 <= k < seen.len() && #[trigger] seen[k] == held && forall|j: int|
                            0 <= j < k ==> (#[trigger] seen[j]).1 < held.1;
                    assert(next[k] == held);
                }
            }
        }
        i = i + 1;
    }
    assert(ranges@.take(ranges@.len() as int) =~= ranges@);
    (min_txid, max_txid)
}

/// Whether reading the WAL is tried once more on a freshly opened file: after the
/// first attempt, where the held file was gone or ended early.
pub fn retries_wal_read(attempt: u64, gone: bool, ended_early: bool) -> (answer: bool)
    ensures
        answer == (attempt == 0 && (gone || ended_early)),
{
    attempt == 0 && (gone || ended_early)
}

/// Whether a WAL of this size has a header, so that no write has to create one.
pub fn wal_exists(wal_size: i64) -> (answer: bool)
    ensures
        answer == (wal_size >= WAL_HEADER_SIZE),
{
    wal_size >= WAL_HEADER_SIZE as i64
}

/// Whether a failed rollback only says that there was nothing to roll back.
pub open spec fn nothing_to_roll_back(message: Seq<char>) -> bool {
    text::occurs_in(message, "transaction has already been committed or rolled back"@)
        || text::occurs_in(message, "no transaction is active"@) || text::occurs_in(
        message,
        "cannot rollback"@,
    )
}

/// The name of a database's WAL.
pub fn wal_path(path: &str) -> (wal: String)
    ensures
        wal@ == path@ + "-wal"@,
{
    text::concat(path, "-wal")
}

/// What the name of a database's local directory ends in.
pub const META_DIR_SUFFIX: &'static str = "-litestream";

/// The name of the directory beside a database that holds its local files.
pub fn meta_dir_name(file: &str) -> (name: String)
    ensures
        name@ == "."@ + file@ + META_DIR_SUFFIX@,
{
    text::concat3(".", file, META_DIR_SUFFIX)
}

/// Whether a file is one that was not finished: its extension, behind the last dot
/// of a name that does not begin with it, is `tmp`.
pub open spec fn unfinished(name: Seq<char>) -> bool {
    name.len() > 4 && text::ends_in(name, ".tmp"@)
}

/// Whether a file of the local directory was not finished, and is removed.
pub fn is_tmp_file(name: &str) -> (answer: bool)
    ensures
        answer == unfinished(name@),
{
    let chars = text::chars_of(name);
    chars.len() > 4 && text::ends_with(&chars, &text::chars_of(".tmp"))
}

/// Where a page stands in the database file.
pub fn page_offset(pgno: u32, page_size: u32) -> (offset: i64)
    requires
        pgno > 0,
        page_size <= MAX_PAGE_SIZE,
    ensures
        offset == (pgno - 1) * page_size,
{
    let before: i64 = (pgno - 1) as i64;
    let size: i64 = page_size as i64;
    assert(0 <= before * size <= 0xffff_ffff * 0x1_0000) by (nonlinear_arith)
        requires
            0 <= before <= 0xffff_ffff,
            0 <= size <= 0x1_0000,
    ;
    before * size
}

/// Whether a failed rollback counts as done, since nothing was to roll back.
pub fn rollback_is_done(message: &str) -> (answer: bool)
    ensures
        answer == nothing_to_roll_back(message@),
{
    let chars = text::chars_of(message);
    let a = text::chars_of("transaction has already been committed or rolled back");
    let b = text::chars_of("no transaction is active");
    let c = text::chars_of("cannot rollback");
    text::contains(&chars, &a) || text::contains(&chars, &b) || text::contains(&chars, &c)
}

impl Db {
    /// What every step relies on: the page size is one that SQLite has.
    pub open spec fn wf(self) -> bool {
        0 < self.page_size <= MAX_PAGE_SIZE
    }

    /// The state of a database that was just opened: `mode` is the journal mode
    /// that SQLite went into, and `page_size` what it says of its pages.
    pub fn initialized(mode: &str, page_size: i64) -> (db: Result<Db, OpenFailure>)
        requires
            page_size <= MAX_PAGE_SIZE,
        ensures
            match db {
                Ok(db) => {
                    &&& mode@ == "wal"@ && page_size > 0
                    &&& db.wf()
                    &&& db == (Db {
                        page_size: page_size as u32,
                        read_lock_held: false,
                        last_sync_timing: no_timing(),
                        min_checkpoint_page_n: DEFAULT_MIN_CHECKPOINT_PAGE_N,
                        truncate_page_n: DEFAULT_TRUNCATE_PAGE_N,
                        checkpoint_interval: DEFAULT_CHECKPOINT_INTERVAL,
                        synced_since_checkpoint: false,
                        synced_to_wal_end: false,
                        last_synced_wal_offset: 0,
                        last_db_pages: 0,
                        checkpointed_wal_offset: 0,
                        verified_schema_version: None,
                        last_l0_header: None,
                        pos_cache: None,
                        max_l0_file_info: None,
                    })
                },
                Err(OpenFailure::NotWal) => mode@ != "wal"@,
                Err(OpenFailure::PageSize(n)) => mode@ == "wal"@ && n == page_size && page_size
                    <= 0,
            },
    {
        if !text::same_text(mode, "wal") {
            return Err(OpenFailure::NotWal);
        }
        if page_size <= 0 {
            return Err(OpenFailure::PageSize(page_size));
        }
        Ok(
            Db {
                page_size: page_size as u32,
                read_lock_held: false,
                last_sync_timing: SyncTiming::default(),
                min_checkpoint_page_n: DEFAULT_MIN_CHECKPOINT_PAGE_N,
                truncate_page_n: DEFAULT_TRUNCATE_PAGE_N,
                checkpoint_interval: DEFAULT_CHECKPOINT_INTERVAL,
                synced_since_checkpoint: false,
                synced_to_wal_end: false,
                last_synced_wal_offset: 0,
                last_db_pages: 0,
                checkpointed_wal_offset: 0,
                verified_schema_version: None,
                last_l0_header: None,
                pos_cache: None,
                max_l0_file_info: None,
            },
        )
    }

    /// The page size, in bytes.
    pub fn page_size(&self) -> (n: u32)
        ensures
            n == self.page_size,
    {
        self.page_size
    }

    /// Where the last sync's time went.
    pub fn last_sync_timing(&self) -> (timing: SyncTiming)
        ensures
            timing == self.last_sync_timing,
    {
        self.last_sync_timing
    }

    /// Whether the read transaction has to be opened; once held, it is not.
    pub fn acquire_read_lock(&self) -> (begin: bool)
        ensures
            begin == !self.read_lock_held,
    {
        !self.read_lock_held
    }

    /// The read transaction was opened.
    pub fn read_lock_acquired(&mut self)
        ensures
            *final(self) == (Db { read_lock_held: true, ..*old(self) }),
    {
        self.read_lock_held = true;
    }

    /// Give the read transaction up. The answer is whether it has to be rolled
    /// back; a second release has nothing to do.
    pub fn release_read_lock(&mut self) -> (rollback: bool)
        ensures
            rollback == old(self).read_lock_held,
            *final(self) == (Db { read_lock_held: false, ..*old(self) }),
    {
        let held: bool = self.read_lock_held;
        self.read_lock_held = false;
        held
    }

    /// Whether the control tables have to be created again, now that the schema
    /// has this version.
    pub fn ensure_control_tables(&self, version: i64) -> (create: bool)
        ensures
            create == (self.verified_schema_version != Some(version)),
    {
        match self.verified_schema_version {
            Some(verified) => verified != version,
            None => true,
        }
    }

    /// The control tables stand, and the schema has this version with them.
    pub fn control_tables_stand(&mut self, version: i64)
        ensures
            *final(self) == (Db { verified_schema_version: Some(version), ..*old(self) }),
    {
        self.verified_schema_version = Some(version);
    }

    /// The position, or what has to be read for it. Without any captured file it
    /// is zero.
    pub fn pos(&self, newest: Option<(u64, u64)>) -> (step: PosStep)
        ensures
            step == match self.pos_cache {
                Some(pos) => PosStep::Done(pos),
                None => match newest {
                    None => PosStep::ReadMaxLtx,
                    Some(range) => if range.0 == 0 {
                        PosStep::Done(Pos { txid: 0, post_apply_checksum: 0 })
                    } else {
                        PosStep::ReadFile { min_txid: range.0, max_txid: range.1 }
                    },
                },
            },
    {
        match self.pos_cache {
            Some(pos) => PosStep::Done(pos),
            None => match newest {
                None => PosStep::ReadMaxLtx,
                Some(range) => if range.0 == 0 {
                    PosStep::Done(Pos { txid: 0, post_apply_checksum: 0 })
                } else {
                    PosStep::ReadFile { min_txid: range.0, max_txid: range.1 }
                },
            },
        }
    }

    /// The newest file was read: the position is its last transaction, with the
    /// checksum of its trailer.
    pub fn pos_read(&mut self, max_txid: u64, post_apply_checksum: u64) -> (pos: Pos)
        ensures
            pos == (Pos { txid: max_txid, post_apply_checksum }),
            *final(self) == (Db { pos_cache: Some(pos), ..*old(self) }),
    {
        let pos = Pos { txid: max_txid, post_apply_checksum };
        self.pos_cache = Some(pos);
        pos
    }

    /// Forget the position; it is read again when it is next asked for.
    pub fn invalidate_pos_cache(&mut self)
        ensures
            *final(self) == (Db { pos_cache: None, ..*old(self) }),
    {
        self.pos_cache = None;
    }

    /// The local LTX files were removed.
    pub fn reset_local_state(&mut self)
        ensures
            *final(self) == (Db { max_l0_file_info: None, pos_cache: None, ..*old(self) }),
    {
        self.max_l0_file_info = None;
        self.pos_cache = None;
    }

    /// The local captured files were replaced by one baseline file. What was
    /// remembered of the last file goes with them.
    pub fn seed_l0_baseline(&mut self)
        ensures
            *final(self) == (Db {
                max_l0_file_info: None,
                pos_cache: None,
                last_l0_header: None,
                ..*old(self)
            }),
    {
        self.max_l0_file_info = None;
        self.last_l0_header = None;
        self.pos_cache = None;
    }

    /// The header that this instance remembers of a transaction's file.
    pub fn remembered_header(&self, txid: u64) -> (header: Option<&LastL0Header>)
        ensures
            match header {
                Some(header) => self.last_l0_header == Some((txid, *header)),
                None => self.last_l0_header matches Some(held) ==> held.0 != txid,
            },
    {
        match &self.last_l0_header {
            Some(held) => if held.0 == txid {
                Some(&held.1)
            } else {
                None
            },
            None => None,
        }
    }

    /// Note that a check was made: one that found the WAL truncated uses up the
    /// mark that the last capture reached its end.
    pub fn verified(&mut self, f: &VerifyFacts)
        requires
            f.last matches Some(last) ==> i64::MIN <= verify::captured_end(last) <= i64::MAX,
        ensures
            *final(self) == (Db {
                synced_to_wal_end: old(self).synced_to_wal_end && !(f.last matches Some(last)
                    && verify::captured_end(last) > f.wal_size),
                ..*old(self)
            }),
    {
        match &f.last {
            None => {},
            Some(last) => {
                if last.wal_offset + last.wal_size > f.wal_size {
                    self.synced_to_wal_end = false;
                }
            },
        }
    }

    /// The header of a file without pages that continues a chain at `txid`, in a
    /// database of `commit` pages: it names the start of the WAL as it stands.
    pub fn seed_continuation(
        &self,
        txid: u64,
        commit: u32,
        timestamp: i64,
        wal_header: &[u8],
    ) -> (header: Header)
        requires
            wal_header@.len() >= WAL_HEADER_SIZE,
        ensures
            header == baseline_header(
                self.page_size,
                commit,
                txid,
                timestamp,
                wal::be(wal_header@, 16) as u32,
                wal::be(wal_header@, 20) as u32,
            ),
    {
        let (salt1, salt2): (u32, u32) = wal::wal_salts(wal_header);
        baseline(self.page_size, commit, txid, timestamp, salt1, salt2)
    }

    /// The header of a file without pages at `txid` that no WAL matches: its
    /// salts are the WAL's inverted, so that the next capture is a snapshot.
    pub fn seed_snapshot_baseline(
        &self,
        txid: u64,
        db_size: i64,
        timestamp: i64,
        wal_header: &[u8],
    ) -> (header: Header)
        requires
            self.wf(),
            wal_header@.len() >= WAL_HEADER_SIZE,
            0 <= db_size,
        ensures
            header == baseline_header(
                self.page_size,
                if page_count(db_size, self.page_size) == 0 {
                    1
                } else {
                    page_count(db_size, self.page_size)
                },
                txid,
                timestamp,
                !(wal::be(wal_header@, 16) as u32),
                !(wal::be(wal_header@, 20) as u32),
            ),
    {
        let (salt1, salt2): (u32, u32) = wal::wal_salts(wal_header);
        let commit: u32 = pages_of(db_size, self.page_size);
        let commit: u32 = if commit == 0 {
            1
        } else {
            commit
        };
        baseline(self.page_size, commit, txid, timestamp, !salt1, !salt2)
    }
}

/// How many pages a database file of this size has.
pub open spec fn page_count(db_size: i64, page_size: u32) -> u32 {
    (db_size as int / page_size as int) as u32
}

/// How many pages a database file of this size has.
pub(crate) fn pages_of(db_size: i64, page_size: u32) -> (n: u32)
    requires
        0 <= db_size,
        0 < page_size,
    ensures
        n == page_count(db_size, page_size),
{
    #[verifier::truncate]
    let pages: u32 = (db_size / page_size as i64) as u32;
    pages
}

/// The header of a file without pages at one transaction, which stands at the
/// start of a WAL with these salts.
pub open spec fn baseline_header(
    page_size: u32,
    commit: u32,
    txid: u64,
    timestamp: i64,
    wal_salt1: u32,
    wal_salt2: u32,
) -> Header {
    Header {
        no_checksum: true,
        page_size,
        commit,
        min_txid: txid,
        max_txid: txid,
        timestamp,
        pre_apply_checksum: 0,
        wal_offset: WAL_HEADER_SIZE as i64,
        wal_size: 0,
        wal_salt1,
        wal_salt2,
        node_id: 0,
    }
}

fn baseline(
    page_size: u32,
    commit: u32,
    txid: u64,
    timestamp: i64,
    wal_salt1: u32,
    wal_salt2: u32,
) -> (header: Header)
    ensures
        header == baseline_header(page_size, commit, txid, timestamp, wal_salt1, wal_salt2),
{
    Header {
        no_checksum: true,
        page_size,
        commit,
        min_txid: txid,
        max_txid: txid,
        timestamp,
        pre_apply_checksum: 0,
        wal_offset: WAL_HEADER_SIZE as i64,
        wal_size: 0,
        wal_salt1,
        wal_salt2,
        node_id: 0,
    }
}

/// What a check reads back of a header.
pub open spec fn read_back(last: LastL0Header, header: Header) -> bool {
    &&& last.wal_offset == header.wal_offset
    &&& last.wal_size == header.wal_size
    &&& last.wal_salt1 == header.wal_salt1
    &&& last.wal_salt2 == header.wal_salt2
    &&& last.commit == header.commit
}

/// After a continuation is seeded, the next check of the same WAL asks for no
/// snapshot: the capture goes on from the WAL's first frame, and counts the
/// pages that it adds from the baseline's page count.
pub proof fn law_continuation_captures_a_delta(
    f: VerifyFacts,
    last: LastL0Header,
    page_size: u32,
    commit: u32,
    txid: u64,
    timestamp: i64,
    salts: (u32, u32),
)
    requires
        f.last == Some(last),
        read_back(last, baseline_header(page_size, commit, txid, timestamp, salts.0, salts.1)),
        f.wal_salts == Some(salts),
        f.wal_size >= WAL_HEADER_SIZE,
    ensures
        verify::verify_step(f) matches verify::VerifyStep::Done(info) && !info.snapshotting
            && info.offset == WAL_HEADER_SIZE && info.prev_commit == commit && (info.salt1,
            info.salt2) == salts,
{
}

/// After a snapshot baseline is seeded, the next check of the same WAL asks for a
/// snapshot of the whole database.
pub proof fn law_snapshot_baseline_snapshots(
    f: VerifyFacts,
    last: LastL0Header,
    page_size: u32,
    commit: u32,
    txid: u64,
    timestamp: i64,
    salts: (u32, u32),
)
    requires
        f.last == Some(last),
        read_back(
            last,
            baseline_header(page_size, commit, txid, timestamp, !salts.0, !salts.1),
        ),
        f.wal_salts == Some(salts),
        f.wal_size >= WAL_HEADER_SIZE,
    ensures
        verify::verify_step(f) matches verify::VerifyStep::Done(info) && info.snapshotting
            && info.reason@ == verify::SALT_RESET@,
{
    let salt: u32 = salts.0;
    assert(!salt != salt) by (bit_vector);
}

/// A database's page count: as many whole pages as its file holds.
pub proof fn law_page_count_is_whole_pages(db_size: i64, page_size: u32)
    requires
        0 <= db_size,
        0 < page_size,
        db_size / page_size as i64 <= u32::MAX,
    ensures
        page_count(db_size, page_size) * page_size <= db_size < (page_count(db_size, page_size) + 1)
            * page_size,
{
    let n = db_size as int / page_size as int;
    assert(n * page_size <= db_size < (n + 1) * page_size) by (nonlinear_arith)
        requires
            n == db_size as int / page_size as int,
            page_size > 0,
    ;
}

/// A baseline is a file of its transaction alone that captured nothing of the WAL: it ends
/// behind the WAL's header, with the page count and the salts that it was given.
pub proof fn law_baseline_captures_nothing(
    page_size: u32,
    commit: u32,
    txid: u64,
    timestamp: i64,
    salts: (u32, u32),
)
    ensures
        ({
            let header = baseline_header(page_size, commit, txid, timestamp, salts.0, salts.1);
            &&& header.min_txid == txid && header.max_txid == txid
            &&& header.page_size == page_size && header.commit == commit
            &&& header.timestamp == timestamp
            &&& header.wal_offset + header.wal_size == 32 && header.wal_size == 0
            &&& (header.wal_salt1, header.wal_salt2) == salts
            &&& header.no_checksum && header.pre_apply_checksum == 0 && header.node_id == 0
        }),
{
}

/// A file that was not finished is one whose name goes on with `.tmp` at its end; what
/// SQLite says where there is nothing to roll back is one of three texts, wherever it stands
/// in the message.
pub proof fn law_names_and_messages(head: Seq<char>, tail: Seq<char>)
    ensures
        unfinished(head + ".tmp"@) <==> head.len() > 0,
        unfinished(head) ==> text::ends_in(head, ".tmp"@),
        nothing_to_roll_back(
            head + "transaction has already been committed or rolled back"@ + tail,
        ),
        nothing_to_roll_back(head + "no transaction is active"@ + tail),
        nothing_to_roll_back(head + "cannot rollback"@ + tail),
        nothing_to_roll_back(head) ==> head.len() >= 15,
{
    reveal_strlit(".tmp");
    let all = head + ".tmp"@;
    assert(all.subrange(all.len() - 4, all.len() as int) =~= ".tmp"@);
    text::lemma_occurs(head, "transaction has already been committed or rolled back"@, tail);
    text::lemma_occurs(head, "no transaction is active"@, tail);
    text::lemma_occurs(head, "cannot rollback"@, tail);
    reveal_strlit("transaction has already been committed or rolled back");
    reveal_strlit("no transaction is active");
    reveal_strlit("cannot rollback");
}

/// The newest of some ranges ends no earlier than any; without a range that ends at a transaction
/// there is none.
pub proof fn law_newest_range_ends_last(ranges: Seq<(u64, u64)>, newest: (u64, u64), i: int)
    requires
        newest_of(ranges, newest),
        0 <= i < ranges.len(),
    ensures
        ranges[i].1 <= newest.1,
        newest.1 > 0 ==> ranges.contains(newest),
        newest.1 == 0 ==> newest.0 == 0,
{
}

/// A sync's timing begins with nothing measured.
pub proof fn law_timing_begins_at_nought()
    ensures
        ({
            let t = no_timing();
            &&& t.prepare_us == 0 && t.schema_check_us == 0 && t.wal_exists_us == 0 && t.verify_us
                == 0 && t.encode_write_us == 0 && t.pos_us == 0 && t.wal_read_us == 0
            &&& t.map_collect_us == 0 && t.ltx_encode_us == 0 && t.file_write_us == 0
                && t.wal_len_bytes == 0 && !t.snapshot && t.wal_read_kind == 0 && t.wal_read_bytes
                == 0
            &&& t.wal_image_bytes == 0 && t.snapshot_reason == 0 && t.fsync_us == 0
                && t.checkpoint_us == 0 && t.checkpoint_runs == 0 && t.checkpoint_wal_frames == 0
            &&& t.checkpoint_backfilled == 0 && t.checkpoint_busy == 0 && t.checkpoint_busy_errors
                == 0 && t.checkpoint_restarts == 0
        }),
{
}

/// What is read back of a file's header: its part of the WAL, its salts and its page count.
pub proof fn law_header_is_read_back(last: LastL0Header, header: Header)
    requires
        read_back(last, header),
    ensures
        last.wal_offset == header.wal_offset && last.wal_size == header.wal_size,
        last.wal_salt1 == header.wal_salt1 && last.wal_salt2 == header.wal_salt2,
        last.commit == header.commit,
{
}

/// A control table is one of the two, in any case.
pub proof fn law_control_tables(name: Seq<char>)
    ensures
        control_table(name) <==> text::lower_all(name) == "_litestream_seq"@ || text::lower_all(name)
            == "_litestream_lock"@,
{
    text::lemma_lower_word(name, "_litestream_seq"@);
    text::lemma_lower_word(name, "_litestream_lock"@);
    assert(text::lower_all("_litestream_seq"@) =~= "_litestream_seq"@) by {
        reveal_strlit("_litestream_seq");
    }
    assert(text::lower_all("_litestream_lock"@) =~= "_litestream_lock"@) by {
        reveal_strlit("_litestream_lock");
    }
}

/// What a database is checkpointed by, where nothing else is set: a thousand pages, a WAL of
/// 121,359 pages, and a minute.
pub proof fn law_default_thresholds()
    ensures
        DEFAULT_MIN_CHECKPOINT_PAGE_N == 1000,
        DEFAULT_TRUNCATE_PAGE_N == 121_359,
        DEFAULT_CHECKPOINT_INTERVAL == 60_000_000_000,
        MAX_PAGE_SIZE == 65536,
{
}

} // verus!
