//! Bringing captured files to a replica, and restoring from one.

use std::collections::BTreeMap;
use vstd::prelude::*;

use crate::ltx::db;
use crate::ltx::db::FileInfo;
use crate::ltx::db::Header;
use crate::ltx::db::Pos;
use crate::ltx::plan::SNAPSHOT_LEVEL;
use crate::ltx::verify;
use crate::ltx::verify::LastL0Header;
use crate::ltx::verify::VerifyFacts;
use crate::ltx::wal;

verus! {

broadcast use vstd::std_specs::btree::group_btree_axioms;

/// What went wrong in a step of replication, as far as a decision depends on it.
#[derive(Clone, Copy, Debug, PartialEq, Eq, Structural)]
pub enum ErrorKind {
    NoSnapshots,
    ChecksumMismatch,
    LtxCorrupted,
    LtxMissing,
    TxNotAvailable,
    /// Of a local file, with what was done to it.
    Ltx,
    Io,
    Other,
}

/// Whether an error says that the local state and the replica's diverged.
pub open spec fn diverged(kind: ErrorKind) -> bool {
    kind is NoSnapshots || kind is ChecksumMismatch || kind is LtxCorrupted || kind is LtxMissing
        || kind is TxNotAvailable
}

/// Whether an error means that the replica's position has to be read again.
pub fn pos_untrustworthy(kind: ErrorKind) -> (answer: bool)
    ensures
        answer == diverged(kind),
{
    match kind {
        ErrorKind::NoSnapshots => true,
        ErrorKind::ChecksumMismatch => true,
        ErrorKind::LtxCorrupted => true,
        ErrorKind::LtxMissing => true,
        ErrorKind::TxNotAvailable => true,
        _ => false,
    }
}

/// A replica: whether a database is attached, and the position that it holds.
#[derive(Clone, Copy, Debug, PartialEq, Eq, Structural)]
pub struct Replica {
    pub attached: bool,
    pub pos: Pos,
    /// The position is known, and needs no listing.
    pub pos_known: bool,
}

/// What the upload does next.
#[derive(Clone, Copy, Debug, PartialEq, Eq, Structural)]
pub enum SyncStep {
    /// List the replica for its position.
    CalcPos,
    /// There is no database.
    NoDatabase,
    /// Read the database's position.
    ReadDbPos,
    /// The database has captured nothing yet.
    NoPosition,
    /// Upload this transaction's file.
    Upload(u64),
    Done,
}

/// The newest of some files: one that ends last, or nothing.
pub open spec fn newest(files: Seq<FileInfo>, info: Option<FileInfo>) -> bool {
    match info {
        Some(info) => {
            &&& info.max_txid > 0
            &&& forall|i: int| 0 <= i < files.len() ==> (#[trigger] files[i]).max_txid
                <= info.max_txid
            &&& exists|i: int|
                0 <= i < files.len() && #[trigger] files[i] == info && forall|j: int|
                    0 <= j < i ==> (#[trigger] files[j]).max_txid < info.max_txid
        },
        None => forall|i: int| 0 <= i < files.len() ==> (#[trigger] files[i]).max_txid == 0,
    }
}

/// The newest file of a listing: the first of those that end last.
pub fn max_ltx_file_info(files: &Vec<FileInfo>) -> (info: Option<FileInfo>)
    ensures
        newest(files@, info),
{
    let mut held: Option<FileInfo> = None;
    let mut max_txid: u64 = 0;
    let mut i: usize = 0;
    while i < files.len()
        invariant
            i <= files@.len(),
            newest(files@.take(i as int), held),
            max_txid == match held {
                Some(info) => info.max_txid,
                None => 0,
            },
        decreases files@.len() - i,
    {
        let ghost before = files@.take(i as int);
        let ghost now = files@.take(i + 1);
        let ghost kept = held;
        assert(now =~= before.push(files@[i as int]));
        let item = files[i];
        if item.max_txid > max_txid {
            held = Some(item);
            max_txid = item.max_txid;
            assert(now[i as int] == item);
        }
        proof {
            match kept {
                Some(info) => {
                    let k = choose|k: int|
                        0 <= k < before.len() && #[trigger] before[k] == info && forall|j: int|
                            0 <= j < k ==> (#[trigger] before[j]).max_txid < info.max_txid;
                    assert(now[k] == info);
                },
                None => {},
            }
        }
        i = i + 1;
    }
    assert(files@.take(files@.len() as int) =~= files@);
    held
}

/// Whether a position is the highest that the levels' newest files end at, with
/// that file's checksum; zero where there is no file.
pub open spec fn is_replica_pos(levels: Seq<Option<FileInfo>>, pos: Pos) -> bool {
    &&& forall|l: int|
        0 <= l < levels.len() ==> ((#[trigger] levels[l]) matches Some(info) ==> info.max_txid
            <= pos.txid)
    &&& if pos.txid == 0 {
        pos.post_apply_checksum == 0
    } else {
        exists|l: int|
            0 <= l < levels.len() && ends_at(#[trigger] levels[l], pos) && forall|k: int|
                0 <= k < l ==> ((#[trigger] levels[k]) matches Some(info) ==> info.max_txid
                    < pos.txid)
    }
}

/// Whether a file ends at a position.
pub open spec fn ends_at(info: Option<FileInfo>, pos: Pos) -> bool {
    info matches Some(info) && info.max_txid == pos.txid && info.post_apply_checksum
        == pos.post_apply_checksum
}

/// The replica's position, from the newest file of every level.
pub fn calc_pos(levels: &Vec<Option<FileInfo>>) -> (pos: Pos)
    ensures
        is_replica_pos(levels@, pos),
{
    let mut pos = Pos { txid: 0, post_apply_checksum: 0 };
    let mut l: usize = 0;
    while l < levels.len()
        invariant
            l <= levels@.len(),
            is_replica_pos(levels@.take(l as int), pos),
        decreases levels@.len() - l,
    {
        let ghost before = levels@.take(l as int);
        let ghost now = levels@.take(l + 1);
        let ghost held = pos;
        assert(now =~= before.push(levels@[l as int]));
        match levels[l] {
            Some(info) => {
                if info.max_txid > pos.txid {
                    pos =
                    Pos { txid: info.max_txid, post_apply_checksum: info.post_apply_checksum };
                    assert(ends_at(now[l as int], pos));
                }
            },
            None => {},
        }
        proof {
            if held.txid != 0 {
                let k = choose|k: int|
                    0 <= k < before.len() && ends_at(#[trigger] before[k], held) && forall|j: int|
                        0 <= j < k ==> ((#[trigger] before[j]) matches Some(info) ==> info.max_txid
                            < held.txid);
                assert(ends_at(now[k], held));
            }
        }
        l = l + 1;
    }
    assert(levels@.take(levels@.len() as int) =~= levels@);
    pos
}

/// The step that an upload takes next. `db_pos` is the database's position, once
/// it was read.
pub open spec fn sync_step(replica: Replica, db_pos: Option<Pos>) -> SyncStep {
    if !replica.pos_known {
        SyncStep::CalcPos
    } else if !replica.attached {
        SyncStep::NoDatabase
    } else {
        match db_pos {
            None => SyncStep::ReadDbPos,
            Some(db_pos) => if db_pos.txid == 0 && db_pos.post_apply_checksum == 0 {
                SyncStep::NoPosition
            } else if replica.pos.txid < db_pos.txid {
                SyncStep::Upload((replica.pos.txid + 1) as u64)
            } else {
                SyncStep::Done
            },
        }
    }
}

impl Replica {
    /// A replica with a database, whose position is not known yet.
    pub fn new() -> (replica: Self)
        ensures
            replica == (Replica {
                attached: true,
                pos: Pos { txid: 0, post_apply_checksum: 0 },
                pos_known: false,
            }),
    {
        Replica {
            attached: true,
            pos: Pos { txid: 0, post_apply_checksum: 0 },
            pos_known: false,
        }
    }

    /// A replica without a database, which only restores.
    pub fn new_client_only() -> (replica: Self)
        ensures
            replica == (Replica {
                attached: false,
                pos: Pos { txid: 0, post_apply_checksum: 0 },
                pos_known: false,
            }),
    {
        Replica {
            attached: false,
            pos: Pos { txid: 0, post_apply_checksum: 0 },
            pos_known: false,
        }
    }

    /// The replicated position.
    pub fn pos(&self) -> (pos: Pos)
        ensures
            pos == self.pos,
    {
        self.pos
    }

    /// The position is known from elsewhere, so that no listing finds it.
    pub fn seed_pos(&mut self, pos: Pos)
        ensures
            *final(self) == (Replica { pos, pos_known: true, ..*old(self) }),
    {
        self.pos = pos;
        self.pos_known = true;
    }

    /// The database was taken away; whether there was one.
    pub fn take_db(&mut self) -> (was: bool)
        ensures
            was == old(self).attached,
            *final(self) == (Replica { attached: false, ..*old(self) }),
    {
        let was: bool = self.attached;
        self.attached = false;
        was
    }

    /// A database was attached.
    pub fn attach_db(&mut self)
        ensures
            *final(self) == (Replica { attached: true, ..*old(self) }),
    {
        self.attached = true;
    }

    /// What the upload does next.
    pub fn sync(&self, db_pos: Option<Pos>) -> (step: SyncStep)
        ensures
            step == sync_step(*self, db_pos),
    {
        if !self.pos_known {
            return SyncStep::CalcPos;
        }
        if !self.attached {
            return SyncStep::NoDatabase;
        }
        match db_pos {
            None => SyncStep::ReadDbPos,
            Some(db_pos) => if db_pos.txid == 0 && db_pos.post_apply_checksum == 0 {
                SyncStep::NoPosition
            } else if self.pos.txid < db_pos.txid {
                SyncStep::Upload(self.pos.txid + 1)
            } else {
                SyncStep::Done
            },
        }
    }

    /// A transaction's file was uploaded.
    pub fn uploaded(&mut self, txid: u64)
        ensures
            *final(self) == (Replica { pos: Pos { txid, post_apply_checksum: 0 }, ..*old(self) }),
    {
        self.pos = Pos { txid, post_apply_checksum: 0 };
    }

    /// A step failed. The position is forgotten where the states diverged; a
    /// failure of the store leaves it, since another upload of the same file
    /// changes nothing.
    pub fn sync_failed(&mut self, kind: ErrorKind)
        ensures
            *final(self) == if diverged(kind) {
                Replica {
                    pos: Pos { txid: 0, post_apply_checksum: 0 },
                    pos_known: false,
                    ..*old(self)
                }
            } else {
                *old(self)
            },
    {
        if pos_untrustworthy(kind) {
            self.pos = Pos { txid: 0, post_apply_checksum: 0 };
            self.pos_known = false;
        }
    }

    /// Whether the attached database is behind its replica, whichever level holds
    /// the replica's newest transaction. Then the answer is that transaction: a
    /// baseline that no WAL matches is seeded there, so that the next capture is
    /// a snapshot numbered after it; and the position is read again.
    pub fn check_database_behind_replica(&mut self, replica_pos: Pos, db_txid: u64) -> (seed: Option<
        u64,
    >)
        ensures
            seed == if old(self).attached && db_txid < replica_pos.txid {
                Some(replica_pos.txid)
            } else {
                None::<u64>
            },
            *final(self) == if seed is Some {
                Replica {
                    pos: Pos { txid: 0, post_apply_checksum: 0 },
                    pos_known: false,
                    ..*old(self)
                }
            } else {
                *old(self)
            },
    {
        if self.attached && db_txid < replica_pos.txid {
            self.pos = Pos { txid: 0, post_apply_checksum: 0 };
            self.pos_known = false;
            Some(replica_pos.txid)
        } else {
            None
        }
    }
}

/// What a restore reads: how many files, how many bytes, and how many files of
/// each level.
pub struct RestorePlanStats {
    pub objects: usize,
    pub bytes: u64,
    pub by_level: BTreeMap<i32, usize>,
}

/// How long the parts of a restore took, in microseconds.
pub struct RestoreTimingStats {
    pub plan: RestorePlanStats,
    pub plan_us: u64,
    pub download_us: u64,
    pub apply_us: u64,
}

/// The bytes of a plan's files.
pub open spec fn plan_bytes(plan: Seq<FileInfo>) -> int
    decreases plan.len(),
{
    if plan.len() == 0 {
        0
    } else {
        plan_bytes(plan.drop_last()) + plan.last().size
    }
}

/// How many of a plan's files are of a level.
pub open spec fn plan_count(plan: Seq<FileInfo>, level: i32) -> nat
    decreases plan.len(),
{
    if plan.len() == 0 {
        0
    } else {
        plan_count(plan.drop_last(), level) + if plan.last().level == level {
            1nat
        } else {
            0nat
        }
    }
}

/// Whether a map counts a plan's files by level; a level without files is not in
/// it.
pub open spec fn counts(by_level: Map<i32, usize>, plan: Seq<FileInfo>) -> bool {
    forall|level: i32|
        if #[trigger] plan_count(plan, level) == 0 {
            !by_level.dom().contains(level)
        } else {
            by_level.dom().contains(level) && by_level[level] == plan_count(plan, level)
        }
}

proof fn lemma_plan_sums(plan: Seq<FileInfo>, n: int, level: i32)
    requires
        0 <= n <= plan.len(),
        forall|i: int| 0 <= i < plan.len() ==> (#[trigger] plan[i]).size >= 0,
    ensures
        0 <= plan_bytes(plan.take(n)) <= plan_bytes(plan),
        plan_count(plan.take(n), level) <= n,
    decreases plan.len(), n,
{
    if n > 0 {
        assert(plan.take(n).drop_last() =~= plan.take(n - 1));
        lemma_plan_sums(plan, n - 1, level);
    }
    if n < plan.len() {
        let short = plan.drop_last();
        assert(short.take(n) =~= plan.take(n));
        assert forall|i: int| 0 <= i < short.len() implies (#[trigger] short[i]).size >= 0 by {
            assert(short[i] == plan[i]);
        }
        lemma_plan_sums(short, n, level);
        assert(plan.last() == plan[plan.len() - 1]);
    } else {
        assert(plan.take(n) =~= plan);
        if n > 0 {
            let short = plan.drop_last();
            assert forall|i: int| 0 <= i < short.len() implies (#[trigger] short[i]).size >= 0 by {
                assert(short[i] == plan[i]);
            }
            lemma_plan_sums(short, n - 1, level);
            assert(short.take(n - 1) =~= short);
            assert(plan.last() == plan[n - 1]);
        }
    }
}

/// Check a plan before anything of it is read, and sum it up. A file that is
/// shorter than a header is refused, by its place in the plan.
pub fn check_plan(plan: &Vec<FileInfo>, header_size: i64) -> (stats: Result<
    RestorePlanStats,
    usize,
>)
    requires
        header_size >= 0,
        (forall|i: int| 0 <= i < plan@.len() ==> (#[trigger] plan@[i]).size >= header_size)
            ==> plan_bytes(plan@) <= u64::MAX,
    ensures
        match stats {
            Ok(stats) => {
                &&& forall|i: int| 0 <= i < plan@.len() ==> (#[trigger] plan@[i]).size >= header_size
                &&& stats.objects == plan@.len()
                &&& stats.bytes == plan_bytes(plan@)
                &&& counts(stats.by_level@, plan@)
            },
            Err(at) => {
                &&& at < plan@.len() && plan@[at as int].size < header_size
                &&& forall|i: int| 0 <= i < at ==> (#[trigger] plan@[i]).size >= header_size
            },
        },
{
    let mut i: usize = 0;
    while i < plan.len()
        invariant
            i <= plan@.len(),
            forall|k: int| 0 <= k < i ==> (#[trigger] plan@[k]).size >= header_size,
        decreases plan@.len() - i,
    {
        if plan[i].size < header_size {
            return Err(i);
        }
        i = i + 1;
    }
    let mut bytes: u64 = 0;
    let mut by_level: BTreeMap<i32, usize> = BTreeMap::new();
    let mut n: usize = 0;
    while n < plan.len()
        invariant
            n <= plan@.len(),
            header_size >= 0,
            forall|k: int| 0 <= k < plan@.len() ==> (#[trigger] plan@[k]).size >= header_size,
            plan_bytes(plan@) <= u64::MAX,
            bytes == plan_bytes(plan@.take(n as int)),
            counts(by_level@, plan@.take(n as int)),
        decreases plan@.len() - n,
    {
        let info = plan[n];
        let ghost before = plan@.take(n as int);
        let ghost now = plan@.take(n + 1);
        let ghost held = by_level@;
        proof {
            assert(now.drop_last() =~= before);
            assert(now.last() == info);
            lemma_plan_sums(plan@, n + 1, info.level);
            lemma_plan_sums(plan@, n as int, info.level);
            assert(plan_count(before, info.level) <= n);
        }
        bytes = bytes + info.size as u64;
        let count: usize = match by_level.get(&info.level) {
            Some(count) => *count,
            None => 0,
        };
        by_level.insert(info.level, count + 1);
        proof {
            assert forall|level: i32|
                if #[trigger] plan_count(now, level) == 0 {
                    !by_level@.dom().contains(level)
                } else {
                    by_level@.dom().contains(level) && by_level@[level] == plan_count(now, level)
                } by {
                assert(plan_count(before, level) >= 0);
                assert(plan_count(before, info.level) >= 0);
            }
        }
        n = n + 1;
    }
    assert(plan@.take(plan@.len() as int) =~= plan@);
    Ok(RestorePlanStats { objects: plan.len(), bytes, by_level })
}

/// The levels that are listed for a position or a plan.
pub fn level_count() -> (n: usize)
    ensures
        n == SNAPSHOT_LEVEL + 1,
{
    SNAPSHOT_LEVEL as usize + 1
}

/// Uploads go in order, one transaction at a time, and end at the database's
/// position: while there is something to upload, it is the transaction after the
/// replicated one, and uploading it comes closer by one.
pub proof fn law_uploads_reach_the_database(replica: Replica, db_pos: Pos)
    requires
        replica.pos_known && replica.attached,
        db_pos.txid != 0,
    ensures
        replica.pos.txid >= db_pos.txid <==> sync_step(replica, Some(db_pos)) == SyncStep::Done,
        sync_step(replica, Some(db_pos)) matches SyncStep::Upload(txid) ==> {
            let next = Replica { pos: Pos { txid, post_apply_checksum: 0 }, ..replica };
            &&& txid == replica.pos.txid + 1
            &&& txid <= db_pos.txid
            &&& db_pos.txid - next.pos.txid == db_pos.txid - replica.pos.txid - 1
            &&& (next.pos.txid == db_pos.txid ==> sync_step(next, Some(db_pos)) == SyncStep::Done)
        },
{
}

/// A failure that says nothing of the states keeps the position, so that the
/// next sync uploads the same file again without a listing.
pub proof fn law_transient_failure_keeps_the_position(
    replica: Replica,
    after: Replica,
    kind: ErrorKind,
    db_pos: Option<Pos>,
)
    requires
        !diverged(kind),
        after == if diverged(kind) {
            Replica {
                pos: Pos { txid: 0, post_apply_checksum: 0 },
                pos_known: false,
                ..replica
            }
        } else {
            replica
        },
    ensures
        sync_step(after, db_pos) == sync_step(replica, db_pos),
{
}

/// A database that was behind its replica carries it forward: after the check
/// seeded a baseline at the replica's last transaction, the next check of the WAL
/// asks for a snapshot, and the file that it makes, numbered after the replica's
/// position, is what is uploaded next.
pub proof fn law_database_behind_carries_the_replica_forward(
    replica: Replica,
    replica_pos: Pos,
    f: VerifyFacts,
    last: LastL0Header,
    header: Header,
    salts: (u32, u32),
)
    requires
        replica.attached && replica.pos_known && replica.pos == replica_pos,
        0 < replica_pos.txid < u64::MAX,
        header == db::baseline_header(
            header.page_size,
            header.commit,
            replica_pos.txid,
            header.timestamp,
            !salts.0,
            !salts.1,
        ),
        f.last == Some(last) && db::read_back(last, header),
        f.wal_salts == Some(salts),
        f.wal_size >= wal::WAL_HEADER_SIZE,
    ensures
        verify::verify_step(f) matches verify::VerifyStep::Done(info) && info.snapshotting,
        sync_step(
            replica,
            Some(Pos { txid: (header.max_txid + 1) as u64, post_apply_checksum: 0 }),
        ) == SyncStep::Upload((replica_pos.txid + 1) as u64),
{
    db::law_snapshot_baseline_snapshots(
        f,
        last,
        header.page_size,
        header.commit,
        replica_pos.txid,
        header.timestamp,
        salts,
    );
}

/// What a sync does first: it learns the replica's position, then the database's; without a
/// database, or before the database has captured anything, it stops. Then it uploads the
/// transaction after the replica's as long as the database is ahead.
pub proof fn law_sync_goes_step_by_step(replica: Replica, db_pos: Option<Pos>)
    ensures
        sync_step(replica, db_pos) is CalcPos <==> !replica.pos_known,
        sync_step(replica, db_pos) is NoDatabase <==> replica.pos_known && !replica.attached,
        sync_step(replica, db_pos) is ReadDbPos <==> replica.pos_known && replica.attached && db_pos
            is None,
        replica.pos_known && replica.attached ==> (db_pos matches Some(pos) ==> {
            let empty = pos.txid == 0 && pos.post_apply_checksum == 0;
            &&& sync_step(replica, db_pos) is NoPosition <==> empty
            &&& !empty && replica.pos.txid < pos.txid ==> sync_step(replica, db_pos)
                == SyncStep::Upload((replica.pos.txid + 1) as u64)
            &&& !empty && replica.pos.txid >= pos.txid ==> sync_step(replica, db_pos) is Done
        }),
{
}

/// Which failures say that the local state and the replica's diverged: those of what the
/// files hold. Failures of a file or of the store do not.
pub proof fn law_divergence(kind: ErrorKind)
    ensures
        diverged(kind) <==> !(kind is Ltx || kind is Io || kind is Other),
{
}

/// A plan's bytes are those of its files, and each level's count is that of its files.
pub proof fn law_plan_statistics_add_up(plan: Seq<FileInfo>, info: FileInfo, level: i32)
    ensures
        plan_bytes(Seq::<FileInfo>::empty()) == 0,
        plan_bytes(plan.push(info)) == plan_bytes(plan) + info.size,
        plan_count(Seq::<FileInfo>::empty(), level) == 0,
        info.level == level ==> plan_count(plan.push(info), level) == plan_count(plan, level) + 1,
        info.level != level ==> plan_count(plan.push(info), level) == plan_count(plan, level),
{
    assert(plan.push(info).drop_last() =~= plan);
}

/// The newest file ends at a transaction and no earlier than any; of those that end with it
/// none stands before it. Nothing is newest only where no file ends at a transaction.
pub proof fn law_newest_file_ends_last(files: Seq<FileInfo>, info: Option<FileInfo>, i: int)
    requires
        newest(files, info),
    ensures
        info is Some ==> files.contains(info->0) && info->0.max_txid > 0,
        0 <= i < files.len() && info is None ==> files[i].max_txid == 0,
        0 <= i < files.len() && info is Some ==> files[i].max_txid <= info->0.max_txid,
        0 <= i < files.len() && info is Some && files[i].max_txid == info->0.max_txid
            ==> files.take(i + 1).contains(info->0),
{
    if info is Some {
        let k = choose|k: int|
            0 <= k < files.len() && #[trigger] files[k] == info->0 && forall|j: int|
                0 <= j < k ==> (#[trigger] files[j]).max_txid < info->0.max_txid;
        if 0 <= i < files.len() && files[i].max_txid == info->0.max_txid {
            assert(k <= i);
            assert(files.take(i + 1)[k] == info->0);
        }
    }
}

/// A replica's position is the furthest that any level reaches.
pub proof fn law_position_is_the_furthest(levels: Seq<Option<FileInfo>>, pos: Pos, l: int)
    requires
        is_replica_pos(levels, pos),
        0 <= l < levels.len(),
    ensures
        levels[l] matches Some(info) ==> info.max_txid <= pos.txid,
        pos.txid == 0 || exists|k: int|
            0 <= k < levels.len() && (#[trigger] levels[k] matches Some(info) && info.max_txid
                == pos.txid && info.post_apply_checksum == pos.post_apply_checksum),
{
    if pos.txid != 0 {
        let k = choose|k: int|
            0 <= k < levels.len() && ends_at(#[trigger] levels[k], pos) && forall|m: int|
                0 <= m < k ==> ((#[trigger] levels[m]) matches Some(info) ==> info.max_txid
                    < pos.txid);
        assert(levels[k] matches Some(info) && info.max_txid == pos.txid);
    }
}

/// A plan's count by level has an entry for each level of its files, with how many there are,
/// and for no other.
pub proof fn law_levels_are_counted(by_level: Map<i32, usize>, plan: Seq<FileInfo>, i: int)
    requires
        counts(by_level, plan),
        0 <= i < plan.len(),
    ensures
        by_level.dom().contains(plan[i].level),
        by_level[plan[i].level] == plan_count(plan, plan[i].level),
        forall|level: i32| #[trigger]
            by_level.dom().contains(level) ==> by_level[level] == plan_count(plan, level)
                && by_level[level] > 0,
{
    lemma_counted(plan, i);
    assert(plan_count(plan, plan[i].level) > 0);
    assert forall|level: i32| #[trigger] by_level.dom().contains(level) implies by_level[level]
        == plan_count(plan, level) && by_level[level] > 0 by {
        if plan_count(plan, level) == 0 {
            assert(!by_level.dom().contains(level));
        }
    }
}

proof fn lemma_counted(plan: Seq<FileInfo>, i: int)
    requires
        0 <= i < plan.len(),
    ensures
        plan_count(plan, plan[i].level) > 0,
    decreases plan.len(),
{
    if i < plan.len() - 1 {
        lemma_counted(plan.drop_last(), i);
    }
}

} // verus!
