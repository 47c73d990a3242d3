//! A snapshot of the database as it was captured last.
//!
//! A snapshot is labelled with the last captured transaction, so it takes nothing
//! of the WAL behind the end of that capture.

use std::collections::HashMap;
use vstd::prelude::*;

use crate::ltx::db;
use crate::ltx::db::Db;
use crate::ltx::db::Header;
use crate::ltx::db::Pos;
use crate::ltx::pages;
use crate::ltx::pages::PageSource;
use crate::ltx::verify;
use crate::ltx::verify::LastL0Header;
use crate::ltx::wal::WAL_HEADER_SIZE;

verus! {

broadcast use vstd::std_specs::hash::group_hash_axioms;

/// What a reader found in the captured part of the WAL: the last frame of each
/// page, the end of the last committed transaction (zero without one), the page
/// count after it (zero without one), where the reader stands, and the salts.
pub struct SnapshotMap {
    pub page_map: HashMap<u32, i64>,
    pub max_offset: i64,
    pub commit: u32,
    pub reader_offset: i64,
    pub salt1: u32,
    pub salt2: u32,
}

/// How much of the WAL was captured: up to the end of the last capture, where the
/// WAL still is the one that was captured; else nothing but the header, since
/// all that was captured is in the database.
pub open spec fn captured_length(
    last: Option<LastL0Header>,
    salts: (u32, u32),
    wal_len: int,
) -> int {
    let header = WAL_HEADER_SIZE as int;
    match last {
        Some(last) => {
            let end = verify::captured_end(last);
            if !verify::salts_match(last, salts) || end < header {
                if wal_len < header {
                    wal_len
                } else {
                    header
                }
            } else if end < wal_len {
                end
            } else {
                wal_len
            }
        },
        None => if wal_len < header {
            wal_len
        } else {
            header
        },
    }
}

/// How many bytes of the WAL a snapshot reads.
pub fn snapshot_window(last: Option<&LastL0Header>, salts: (u32, u32), wal_len: usize) -> (n: usize)
    requires
        last matches Some(last) ==> i64::MIN <= verify::captured_end(*last) <= i64::MAX,
    ensures
        n == captured_length(
            match last {
                Some(last) => Some(*last),
                None => None,
            },
            salts,
            wal_len as int,
        ),
{
    let short: usize = if wal_len < WAL_HEADER_SIZE {
        wal_len
    } else {
        WAL_HEADER_SIZE
    };
    match last {
        None => short,
        Some(last) => {
            let end: i64 = last.wal_offset + last.wal_size;
            if salts.0 != last.wal_salt1 || salts.1 != last.wal_salt2 || end
                < WAL_HEADER_SIZE as i64 {
                short
            } else if (end as u64) < wal_len as u64 {
                end as usize
            } else {
                wal_len
            }
        },
    }
}

/// The database's page count in a snapshot.
pub open spec fn snapshot_commit(map: SnapshotMap, db_size: i64, page_size: u32) -> u32 {
    if map.commit > 0 {
        map.commit
    } else {
        db::page_count(db_size, page_size)
    }
}

/// How much of the WAL a snapshot's header names.
pub open spec fn snapshot_size(map: SnapshotMap) -> int {
    if map.max_offset > 0 {
        map.max_offset - map.reader_offset
    } else {
        0
    }
}

/// The checksum of a snapshot's pages, from each page's own; the flag is always
/// set, and the lock page does not count.
pub open spec fn rolling(sums: Seq<(u32, u64)>, lock: u32, flag: u64) -> u64
    decreases sums.len(),
{
    if sums.len() == 0 {
        flag
    } else {
        let before = rolling(sums.drop_last(), lock, flag);
        if sums.last().0 == lock {
            before
        } else {
            flag | (before ^ sums.last().1)
        }
    }
}

/// The checksum of a snapshot's pages, from each page's own.
pub fn rolling_checksum(sums: &Vec<(u32, u64)>, lock: u32, flag: u64) -> (sum: u64)
    ensures
        sum == rolling(sums@, lock, flag),
{
    let mut sum: u64 = flag;
    let mut i: usize = 0;
    while i < sums.len()
        invariant
            i <= sums@.len(),
            sum == rolling(sums@.take(i as int), lock, flag),
        decreases sums@.len() - i,
    {
        proof {
            assert(sums@.take(i + 1).drop_last() =~= sums@.take(i as int));
            assert(sums@.take(i + 1).last() == sums@[i as int]);
        }
        if sums[i].0 != lock {
            sum = flag | (sum ^ sums[i].1);
        }
        i = i + 1;
    }
    assert(sums@.take(sums@.len() as int) =~= sums@);
    sum
}

impl Db {
    /// A snapshot at a position: its header, which spans every transaction up to
    /// that position, and its pages. There is none before the page size is known.
    pub fn snapshot(
        &self,
        pos: Pos,
        map: &SnapshotMap,
        db_size: i64,
        lock: u32,
        timestamp: i64,
    ) -> (out: Option<(Header, Vec<(u32, PageSource)>)>)
        requires
            0 <= db_size,
            i64::MIN <= snapshot_size(*map) <= i64::MAX,
        ensures
            match out {
                None => self.page_size == 0,
                Some((header, sources)) => {
                    &&& self.page_size != 0
                    &&& header == (Header {
                        no_checksum: false,
                        page_size: self.page_size,
                        commit: snapshot_commit(*map, db_size, self.page_size),
                        min_txid: 1,
                        max_txid: pos.txid,
                        timestamp,
                        pre_apply_checksum: 0,
                        wal_offset: map.reader_offset,
                        wal_size: snapshot_size(*map) as i64,
                        wal_salt1: map.salt1,
                        wal_salt2: map.salt2,
                        node_id: 0,
                    })
                    &&& pages::lists(
                        sources@,
                        pages::snapshot_pages(header.commit, lock),
                        map.page_map@,
                    )
                },
            },
    {
        if self.page_size == 0 {
            return None;
        }
        let commit: u32 = if map.commit > 0 {
            map.commit
        } else {
            db::pages_of(db_size, self.page_size)
        };
        let wal_size: i64 = if map.max_offset > 0 {
            map.max_offset - map.reader_offset
        } else {
            0
        };
        let header = Header {
            no_checksum: false,
            page_size: self.page_size,
            commit,
            min_txid: 1,
            max_txid: pos.txid,
            timestamp,
            pre_apply_checksum: 0,
            wal_offset: map.reader_offset,
            wal_size,
            wal_salt1: map.salt1,
            wal_salt2: map.salt2,
            node_id: 0,
        };
        Some((header, pages::collect_snapshot_pages(&map.page_map, commit, lock)))
    }
}

/// A frame that was committed after the last capture is not in a snapshot:
/// whatever of the WAL a snapshot reads ends with what was captured.
pub proof fn law_snapshot_ends_with_the_capture(
    last: LastL0Header,
    salts: (u32, u32),
    wal_len: int,
)
    requires
        wal_len >= 0,
    ensures
        captured_length(Some(last), salts, wal_len) <= wal_len,
        captured_length(Some(last), salts, wal_len) <= WAL_HEADER_SIZE || (captured_length(
            Some(last),
            salts,
            wal_len,
        ) <= verify::captured_end(last) && verify::salts_match(last, salts)),
{
}

/// How much of the WAL a snapshot may read: exactly what was captured where the salts are
/// the last file's, as far as the WAL goes, and the header alone otherwise.
pub proof fn law_snapshot_reads_what_was_captured(
    last: LastL0Header,
    salts: (u32, u32),
    wal_len: int,
)
    requires
        wal_len >= 0,
    ensures
        ({
            let end = last.wal_offset + last.wal_size;
            let same = salts == (last.wal_salt1, last.wal_salt2);
            let n = captured_length(Some(last), salts, wal_len);
            &&& same && 32 <= end <= wal_len ==> n == end
            &&& same && end > wal_len && end >= 32 ==> n == wal_len
            &&& (!same || end < 32) && wal_len >= 32 ==> n == 32
            &&& wal_len < 32 ==> n == wal_len
            &&& captured_length(None, salts, wal_len) == if wal_len < 32 {
                wal_len
            } else {
                32
            }
        }),
{
}

/// A snapshot's page count is the WAL's where it tells one, and the database's otherwise;
/// its part of the WAL ends where the reader did.
pub proof fn law_snapshot_extent(map: SnapshotMap, db_size: i64, page_size: u32)
    requires
        0 <= db_size,
        0 < page_size,
        db_size / page_size as i64 <= u32::MAX,
    ensures
        map.commit > 0 ==> snapshot_commit(map, db_size, page_size) == map.commit,
        map.commit == 0 ==> snapshot_commit(map, db_size, page_size) * page_size <= db_size < (
        snapshot_commit(map, db_size, page_size) + 1) * page_size,
        map.max_offset > 0 ==> map.reader_offset + snapshot_size(map) == map.max_offset,
        map.max_offset <= 0 ==> snapshot_size(map) == 0,
{
    let n = db_size as int / page_size as int;
    assert(n * page_size <= db_size < (n + 1) * page_size) by (nonlinear_arith)
        requires
            n == db_size as int / page_size as int,
            page_size > 0,
    ;
}

/// A snapshot's checksum: nothing has the flag alone, each page's own is taken in by an
/// exclusive or, under the flag, and the lock page's never counts.
pub proof fn law_checksum_takes_in_each_page(
    sums: Seq<(u32, u64)>,
    pgno: u32,
    sum: u64,
    lock: u32,
    flag: u64,
)
    ensures
        rolling(Seq::<(u32, u64)>::empty(), lock, flag) == flag,
        pgno != lock ==> rolling(sums.push((pgno, sum)), lock, flag) == flag | (rolling(
            sums,
            lock,
            flag,
        ) ^ sum),
        pgno == lock ==> rolling(sums.push((pgno, sum)), lock, flag) == rolling(sums, lock, flag),
{
    assert(sums.push((pgno, sum)).drop_last() =~= sums);
}

} // verus!
