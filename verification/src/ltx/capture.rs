//! One capture of the WAL into the next LTX file.

use std::collections::HashMap;
use vstd::prelude::*;

use crate::ltx::db;
use crate::ltx::db::Db;
use crate::ltx::db::FileInfo;
use crate::ltx::db::Header;
use crate::ltx::db::Pos;
use crate::ltx::db::SyncTiming;
use crate::ltx::image;
use crate::ltx::image::DecodedFile;
use crate::ltx::pages;
use crate::ltx::pages::PageSource;
use crate::ltx::verify;
use crate::ltx::verify::LastL0Header;
use crate::ltx::verify::SyncInfo;
use crate::ltx::verify::VerifyFacts;
use crate::ltx::wal;
use crate::ltx::wal::WalImage;
use crate::ltx::wal::WAL_FRAME_HEADER_SIZE;
use crate::ltx::wal::WAL_HEADER_SIZE;

verus! {

broadcast use vstd::std_specs::hash::group_hash_axioms;

/// How the WAL is read for a capture.
#[derive(Clone, Copy, Debug, PartialEq, Eq, Structural)]
pub enum WalRead {
    Whole,
    /// The valid frames from here on; where that fails, the whole file.
    Bounded { start: usize },
}

/// A capture that has begun.
pub struct Capture {
    /// The transaction of the file that is written.
    pub tx_id: u64,
    /// The database's page count.
    pub commit: u32,
    /// Where the capture begins in the WAL.
    pub offset: i64,
    pub prev_commit: u32,
    pub snapshotting: bool,
    pub reason: &'static str,
    pub read: WalRead,
}

/// What a reader found in the WAL from the capture's start on: the last frame of
/// each page, the end of the last committed transaction (zero without one), the
/// page count after it (zero without one), and the salts.
pub struct WalMap {
    pub page_map: HashMap<u32, i64>,
    pub max_offset: i64,
    pub commit: u32,
    pub salt1: u32,
    pub salt2: u32,
}

/// What is to be captured.
pub enum CaptureStep {
    /// The reader ended before where it began.
    Negative { size: i64 },
    /// Nothing is new.
    Nothing,
    /// These pages, under this header.
    Write { header: Header, pages: Vec<(u32, PageSource)> },
}

/// Where the bounded read begins: with the frame before the capture's start, so
/// that the reader can check it, or with the first frame.
pub open spec fn read_start(page_size: u32, offset: i64) -> int {
    if offset <= WAL_HEADER_SIZE + verify::frame_size_of(page_size) {
        WAL_HEADER_SIZE as int
    } else {
        offset - verify::frame_size_of(page_size)
    }
}

/// The page count of the database after what the reader found.
pub open spec fn commit_of(capture: Capture, map: WalMap) -> u32 {
    if map.commit > 0 {
        map.commit
    } else {
        capture.commit
    }
}

/// How much of the WAL a capture takes.
pub open spec fn size_of(capture: Capture, map: WalMap) -> int {
    if map.max_offset > 0 {
        map.max_offset - capture.offset
    } else {
        0
    }
}

/// The header of the file that a capture writes.
pub open spec fn header_of(capture: Capture, map: WalMap, page_size: u32, timestamp: i64) -> Header {
    Header {
        no_checksum: true,
        page_size,
        commit: commit_of(capture, map),
        min_txid: capture.tx_id,
        max_txid: capture.tx_id,
        timestamp,
        pre_apply_checksum: 0,
        wal_offset: capture.offset,
        wal_size: size_of(capture, map) as i64,
        wal_salt1: map.salt1,
        wal_salt2: map.salt2,
        node_id: 0,
    }
}

/// The pages that a capture writes.
pub open spec fn captured_pages(capture: Capture, map: WalMap, lock: u32) -> Set<u32> {
    if capture.snapshotting {
        pages::snapshot_pages(commit_of(capture, map), lock)
    } else {
        pages::delta_pages(
            map.page_map@,
            capture.prev_commit,
            commit_of(capture, map),
            lock,
        )
    }
}

/// What is to be captured.
pub open spec fn is_step(
    step: CaptureStep,
    capture: Capture,
    map: WalMap,
    page_size: u32,
    lock: u32,
    timestamp: i64,
) -> bool {
    if size_of(capture, map) < 0 {
        step matches CaptureStep::Negative { size } && size == size_of(capture, map)
    } else if !capture.snapshotting && size_of(capture, map) == 0 {
        step is Nothing
    } else {
        step matches CaptureStep::Write { header, pages } && header == header_of(
            capture,
            map,
            page_size,
            timestamp,
        ) && pages::lists(pages@, captured_pages(capture, map, lock), map.page_map@)
    }
}

/// The last frame that a capture consumed, as the image holds it: its page
/// number and page, or nothing where the image does not hold it.
pub open spec fn final_frame(image: WalImage, max_offset: i64, page_size: u32) -> (int, Seq<u8>) {
    let at = max_offset - verify::frame_size_of(page_size);
    if at >= WAL_HEADER_SIZE && wal::image_holds(image, at, verify::frame_size_of(page_size)) {
        let frame = image.bytes@.subrange(
            wal::image_index(image, at),
            wal::image_index(image, at) + verify::frame_size_of(page_size),
        );
        (verify::frame_pgno(frame), verify::frame_page(frame))
    } else {
        (0, Seq::empty())
    }
}

/// Which read of the WAL ran, as the timing records it.
pub open spec fn read_kind(capture: Capture, bounded: Option<usize>) -> int {
    match capture.read {
        WalRead::Whole => 1,
        WalRead::Bounded { start } => if bounded is None {
            3
        } else if start == WAL_HEADER_SIZE {
            2
        } else {
            0
        },
    }
}

impl Capture {
    /// What is to be captured, now that the reader has gone through the WAL.
    pub fn mapped(
        &self,
        map: &WalMap,
        page_size: u32,
        lock: u32,
        timestamp: i64,
    ) -> (step: CaptureStep)
        requires
            i64::MIN <= size_of(*self, *map) <= i64::MAX,
        ensures
            is_step(step, *self, *map, page_size, lock, timestamp),
    {
        let commit: u32 = if map.commit > 0 {
            map.commit
        } else {
            self.commit
        };
        let size: i64 = if map.max_offset > 0 {
            map.max_offset - self.offset
        } else {
            0
        };
        if size < 0 {
            return CaptureStep::Negative { size };
        }
        if !self.snapshotting && size == 0 {
            return CaptureStep::Nothing;
        }
        let header = Header {
            no_checksum: true,
            page_size,
            commit,
            min_txid: self.tx_id,
            max_txid: self.tx_id,
            timestamp,
            pre_apply_checksum: 0,
            wal_offset: self.offset,
            wal_size: size,
            wal_salt1: map.salt1,
            wal_salt2: map.salt2,
            node_id: 0,
        };
        let pages = if self.snapshotting {
            pages::collect_snapshot_pages(&map.page_map, commit, lock)
        } else {
            pages::collect_wal_pages(&map.page_map, self.prev_commit, commit, lock)
        };
        CaptureStep::Write { header, pages }
    }
}

impl Db {
    /// Begin a capture at what the check decided, on top of a position, with the
    /// database file's size. A capture from the WAL's start reads a WAL of which
    /// nothing was copied back yet.
    pub fn begin_capture(&mut self, info: &SyncInfo, pos: Pos, db_size: i64) -> (capture: Capture)
        requires
            old(self).wf(),
            pos.txid < u64::MAX,
            0 <= db_size,
            info.offset <= usize::MAX,
        ensures
            capture.tx_id == pos.txid + 1,
            capture.commit == db::page_count(db_size, old(self).page_size),
            capture.offset == info.offset,
            capture.prev_commit == info.prev_commit,
            capture.snapshotting == info.snapshotting,
            capture.reason == info.reason,
            capture.read == if info.snapshotting {
                WalRead::Whole
            } else {
                WalRead::Bounded {
                    start: read_start(old(self).page_size, info.offset) as usize,
                }
            },
            *final(self) == (Db {
                last_db_pages: capture.commit,
                checkpointed_wal_offset: if info.offset == WAL_HEADER_SIZE {
                    WAL_HEADER_SIZE as i64
                } else {
                    old(self).checkpointed_wal_offset
                },
                ..*old(self)
            }),
    {
        if info.offset == WAL_HEADER_SIZE as i64 {
            self.checkpointed_wal_offset = WAL_HEADER_SIZE as i64;
        }
        let commit: u32 = db::pages_of(db_size, self.page_size);
        self.last_db_pages = commit;
        let frame: i64 = self.page_size as i64 + WAL_FRAME_HEADER_SIZE as i64;
        let read = if info.snapshotting {
            WalRead::Whole
        } else if info.offset <= WAL_HEADER_SIZE as i64 + frame {
            WalRead::Bounded { start: WAL_HEADER_SIZE }
        } else {
            WalRead::Bounded { start: (info.offset - frame) as usize }
        };
        Capture {
            tx_id: pos.txid + 1,
            commit,
            offset: info.offset,
            prev_commit: info.prev_commit,
            snapshotting: info.snapshotting,
            reason: info.reason,
            read,
        }
    }

    /// The WAL was read. `bounded` is how many bytes the bounded read took, or
    /// none where the whole file was read.
    pub fn image_read(&mut self, capture: &Capture, image: &WalImage, bounded: Option<usize>)
        ensures
            *final(self) == (Db {
                last_sync_timing: SyncTiming {
                    wal_read_kind: read_kind(*capture, bounded) as u8,
                    wal_read_bytes: (match (capture.read, bounded) {
                        (WalRead::Bounded { start }, Some(n)) => n as int,
                        _ => image.bytes@.len() as int,
                    }) as u64,
                    wal_len_bytes: (match (capture.read, bounded) {
                        (WalRead::Bounded { start }, Some(n)) => image.file_len as int,
                        _ => image.bytes@.len() as int,
                    }) as u64,
                    wal_image_bytes: image.bytes@.len() as u64,
                    snapshot: capture.snapshotting,
                    snapshot_reason: if capture.snapshotting {
                        verify::reason_code(capture.reason@) as u8
                    } else {
                        0
                    },
                    ..old(self).last_sync_timing
                },
                ..*old(self)
            }),
    {
        let held: u64 = image.bytes.len() as u64;
        let (kind, read, len): (u8, u64, u64) = match capture.read {
            WalRead::Whole => (1, held, held),
            WalRead::Bounded { start } => match bounded {
                None => (3, held, held),
                Some(n) => if start == WAL_HEADER_SIZE {
                    (2, n as u64, image.file_len as u64)
                } else {
                    (0, n as u64, image.file_len as u64)
                },
            },
        };
        self.last_sync_timing.wal_read_kind = kind;
        self.last_sync_timing.wal_read_bytes = read;
        self.last_sync_timing.wal_len_bytes = len;
        self.last_sync_timing.wal_image_bytes = held;
        self.last_sync_timing.snapshot = capture.snapshotting;
        self.last_sync_timing.snapshot_reason = if capture.snapshotting {
            verify::snapshot_reason_code(capture.reason)
        } else {
            0
        };
    }

    /// The frame before the capture's start turned out to be another: the
    /// capture restarts at the WAL's first frame. The answer is whether the whole
    /// file has to be read first, since the image only holds its tail.
    pub fn previous_frame_mismatch(&mut self, capture: &mut Capture) -> (reread: bool)
        ensures
            *final(capture) == (Capture { offset: WAL_HEADER_SIZE as i64, ..*old(capture) }),
            *final(self) == *old(self),
            reread == (old(self).last_sync_timing.wal_read_kind == 0),
    {
        capture.offset = WAL_HEADER_SIZE as i64;
        self.last_sync_timing.wal_read_kind == 0
    }

    /// The whole file was read after all.
    pub fn image_reread(&mut self, length: u64)
        ensures
            *final(self) == (Db {
                last_sync_timing: SyncTiming {
                    wal_read_kind: 3,
                    wal_read_bytes: length,
                    wal_len_bytes: length,
                    wal_image_bytes: length,
                    ..old(self).last_sync_timing
                },
                ..*old(self)
            }),
    {
        self.last_sync_timing.wal_read_kind = 3;
        self.last_sync_timing.wal_read_bytes = length;
        self.last_sync_timing.wal_len_bytes = length;
        self.last_sync_timing.wal_image_bytes = length;
    }

    /// The file was written. What the next check reads back is remembered, with
    /// the last consumed frame; the position is the file's transaction; and the
    /// capture's end is held against the WAL's size, where that is known.
    pub fn captured(
        &mut self,
        capture: &Capture,
        map: &WalMap,
        image: &WalImage,
        encoded_size: i64,
        now: i64,
        wal_size: Option<i64>,
    )
        requires
            old(self).wf(),
            0 <= size_of(*capture, *map),
            i64::MIN <= capture.offset + size_of(*capture, *map) <= i64::MAX,
            size_of(*capture, *map) <= i64::MAX,
        ensures
            final(self).last_l0_header matches Some(held) && {
                &&& held.0 == capture.tx_id
                &&& db::read_back(
                    held.1,
                    header_of(*capture, *map, old(self).page_size, now),
                )
                &&& (held.1.final_pgno as int, held.1.final_page@) == final_frame(
                    *image,
                    map.max_offset,
                    old(self).page_size,
                )
            },
            *final(self) == (Db {
                last_l0_header: final(self).last_l0_header,
                max_l0_file_info: Some(
                    FileInfo {
                        level: 0,
                        min_txid: capture.tx_id,
                        max_txid: capture.tx_id,
                        pre_apply_checksum: 0,
                        post_apply_checksum: 0,
                        size: encoded_size,
                        created_at: Some(now),
                    },
                ),
                pos_cache: Some(Pos { txid: capture.tx_id, post_apply_checksum: 0 }),
                last_synced_wal_offset: (capture.offset + size_of(*capture, *map)) as i64,
                synced_to_wal_end: wal_size == Some(
                    (capture.offset + size_of(*capture, *map)) as i64,
                ),
                ..*old(self)
            }),
    {
        let commit: u32 = if map.commit > 0 {
            map.commit
        } else {
            capture.commit
        };
        let size: i64 = if map.max_offset > 0 {
            map.max_offset - capture.offset
        } else {
            0
        };
        let frame_size: i64 = self.page_size as i64 + WAL_FRAME_HEADER_SIZE as i64;
        let mut final_pgno: u32 = 0;
        let mut final_page: Vec<u8> = Vec::new();
        if map.max_offset >= WAL_HEADER_SIZE as i64 + frame_size {
            match image.slice(map.max_offset - frame_size, frame_size as usize) {
                Some(frame) => {
                    final_pgno = wal::be_u32_at(frame, 0);
                    let page = vstd::slice::slice_subrange(
                        frame,
                        WAL_FRAME_HEADER_SIZE,
                        frame.len(),
                    );
                    final_page = vstd::slice::slice_to_vec(page);
                    assert(final_page@ =~= verify::frame_page(frame@));
                },
                None => {},
            }
        }
        let ghost remembered = (final_pgno as int, final_page@);
        assert(remembered == final_frame(*image, map.max_offset, self.page_size)) by {
            assert(final_page@ =~= final_frame(*image, map.max_offset, self.page_size).1);
        }
        self.last_l0_header =
        Some(
            (
                capture.tx_id,
                LastL0Header {
                    wal_offset: capture.offset,
                    wal_size: size,
                    wal_salt1: map.salt1,
                    wal_salt2: map.salt2,
                    commit,
                    final_pgno,
                    final_page,
                },
            ),
        );
        self.max_l0_file_info =
        Some(
            FileInfo {
                level: 0,
                min_txid: capture.tx_id,
                max_txid: capture.tx_id,
                pre_apply_checksum: 0,
                post_apply_checksum: 0,
                size: encoded_size,
                created_at: Some(now),
            },
        );
        self.pos_cache = Some(Pos { txid: capture.tx_id, post_apply_checksum: 0 });
        let end: i64 = capture.offset + size;
        self.last_synced_wal_offset = end;
        self.synced_to_wal_end = match wal_size {
            Some(wal_size) => end == wal_size,
            None => false,
        };
    }
}

/// A capture goes on where the one before it ended: while the WAL keeps its
/// salts and is no shorter, and holds the last consumed frame unchanged, the next
/// check asks for no snapshot and for the frames behind that one.
pub proof fn law_capture_resumes_where_it_ended(
    f: VerifyFacts,
    last: LastL0Header,
    capture: Capture,
    map: WalMap,
    page_size: u32,
    now: i64,
)
    requires
        f.last == Some(last),
        db::read_back(last, header_of(capture, map, page_size, now)),
        map.max_offset > 0 && 0 <= size_of(capture, map) <= i64::MAX,
        f.page_size == page_size,
        map.max_offset > WAL_HEADER_SIZE + verify::frame_size_of(page_size),
        map.max_offset <= f.wal_size,
        f.wal_salts == Some((map.salt1, map.salt2)),
        verify::frame_known(f, last) == Some(true),
    ensures
        verify::verify_step(f) matches verify::VerifyStep::Done(info) && !info.snapshotting
            && info.offset == map.max_offset && info.prev_commit == commit_of(capture, map),
{
}

/// A WAL that was captured to its end and then shrank was checkpointed: the next
/// capture is a delta from its start. A WAL that shrank before it was captured to
/// its end may have lost frames, and is followed by a snapshot.
pub proof fn law_shrunk_wal(f: VerifyFacts, last: LastL0Header, salts: (u32, u32))
    requires
        f.last == Some(last),
        i64::MIN <= verify::captured_end(last) <= i64::MAX,
        verify::captured_end(last) > f.wal_size,
        f.wal_salts == Some(salts),
    ensures
        verify::verify_step(f) matches verify::VerifyStep::Done(info) && info.snapshotting
            == !f.synced_to_wal_end && (f.synced_to_wal_end ==> info.offset == WAL_HEADER_SIZE),
{
}

/// The frame that a capture consumed last is recognised when it is read again,
/// whatever image it was taken from.
pub proof fn law_consumed_frame_is_recognised(
    image: WalImage,
    file: Seq<u8>,
    last: LastL0Header,
    max_offset: i64,
    page_size: u32,
)
    requires
        wal::image_of_file(image, file),
        0 < page_size,
        WAL_HEADER_SIZE + verify::frame_size_of(page_size) <= max_offset,
        wal::image_holds(
            image,
            max_offset - verify::frame_size_of(page_size),
            verify::frame_size_of(page_size),
        ),
        (last.final_pgno as int, last.final_page@) == final_frame(image, max_offset, page_size),
        verify::frame_salts_are(
            file.subrange(max_offset - verify::frame_size_of(page_size), max_offset as int),
            last,
        ),
    ensures
        verify::is_last_consumed(
            file.subrange(max_offset - verify::frame_size_of(page_size), max_offset as int),
            last,
        ),
{
    wal::law_image_hands_out_the_file(
        image,
        file,
        max_offset - verify::frame_size_of(page_size),
        verify::frame_size_of(page_size),
    );
}

/// Whether a file is what a capture wrote of a database's new state: the captured
/// pages, each with its bytes in that state, under the page count after it.
pub open spec fn written_as(
    file: DecodedFile,
    begun: Capture,
    map: WalMap,
    lock: u32,
    sources: Seq<(u32, PageSource)>,
    after: Map<u32, Seq<u8>>,
) -> bool {
    &&& pages::lists(sources, captured_pages(begun, map, lock), map.page_map@)
    &&& file.commit == commit_of(begun, map)
    &&& file.pages@.len() == sources.len()
    &&& forall|i: int|
        0 <= i < sources.len() ==> (#[trigger] file.pages@[i]).0 == sources[i].0
            && file.pages@[i].1@ == after[sources[i].0]
}

/// Whether what a capture does not write is unchanged: each page that the database
/// had before and that the WAL does not hold.
pub open spec fn rest_unchanged(
    begun: Capture,
    map: WalMap,
    before: Map<u32, Seq<u8>>,
    after: Map<u32, Seq<u8>>,
) -> bool {
    forall|pgno: u32|
        1 <= pgno <= begun.prev_commit && !map.page_map@.dom().contains(pgno)
            ==> #[trigger] after[pgno] == before[pgno]
}

/// The page that a list carries is the one that stands in it, if any does.
proof fn lemma_latest_of_listed(
    listed: Seq<(u32, Vec<u8>)>,
    after: Map<u32, Seq<u8>>,
    pgno: u32,
)
    requires
        forall|i: int| 0 <= i < listed.len() ==> (#[trigger] listed[i]).1@ == after[listed[i].0],
    ensures
        match image::latest_in(listed, pgno) {
            Some(data) => data == after[pgno],
            None => forall|i: int| 0 <= i < listed.len() ==> (#[trigger] listed[i]).0 != pgno,
        },
    decreases listed.len(),
{
    if listed.len() > 0 && listed.last().0 != pgno {
        let less = listed.drop_last();
        assert forall|i: int| 0 <= i < less.len() implies (#[trigger] less[i]).1@
            == after[less[i].0] by {
            assert(less[i] == listed[i]);
        }
        lemma_latest_of_listed(less, after, pgno);
        assert forall|i: int|
            image::latest_in(less, pgno) is None && 0 <= i < listed.len() implies (
        #[trigger] listed[i]).0 != pgno by {
            if i < less.len() {
                assert(less[i] == listed[i]);
            }
        }
    }
}

/// A captured file carries the database from the state before to the state after:
/// it holds every page of the new state but those that were there before and that
/// the WAL does not hold. A snapshot holds every page.
pub proof fn law_capture_carries_the_change(
    begun: Capture,
    map: WalMap,
    lock: u32,
    sources: Seq<(u32, PageSource)>,
    file: DecodedFile,
    before: Map<u32, Seq<u8>>,
    after: Map<u32, Seq<u8>>,
)
    requires
        written_as(file, begun, map, lock, sources, after),
        begun.snapshotting || rest_unchanged(begun, map, before, after),
    ensures
        image::carries(file, before, begun.prev_commit, after, lock),
        begun.snapshotting ==> forall|commit_before: u32| #[trigger]
            image::carries(file, before, commit_before, after, lock),
{
    let wanted = captured_pages(begun, map, lock);
    assert forall|pgno: u32| 1 <= pgno <= file.commit && pgno != lock implies match #[trigger]
    image::latest_in(file.pages@, pgno) {
        Some(data) => after[pgno] == data,
        None => !begun.snapshotting && pgno <= begun.prev_commit && after[pgno] == before[pgno],
    } by {
        assert forall|i: int| 0 <= i < file.pages@.len() implies (#[trigger] file.pages@[i]).1@
            == after[file.pages@[i].0] by {
            assert(file.pages@[i].0 == sources[i].0);
        }
        lemma_latest_of_listed(file.pages@, after, pgno);
        if image::latest_in(file.pages@, pgno) is None {
            if wanted.contains(pgno) {
                let i = choose|i: int| 0 <= i < sources.len() && (#[trigger] sources[i]).0 == pgno;
                assert(file.pages@[i].0 == pgno);
            }
        }
    }
}

/// A restore gives back what was captured. Where each capture wrote the state that
/// the database then had, and a delta began at the page count of the file before it,
/// the files fit, and the rebuilt database has each page of the last state.
pub proof fn law_restore_gives_back_what_was_captured(
    begun: Seq<Capture>,
    maps: Seq<WalMap>,
    sources: Seq<Seq<(u32, PageSource)>>,
    files: Seq<DecodedFile>,
    states: Seq<Map<u32, Seq<u8>>>,
    lock: u32,
)
    requires
        files.len() > 0,
        begun.len() == files.len(),
        maps.len() == files.len(),
        sources.len() == files.len(),
        states.len() == files.len() + 1,
        forall|i: int|
            0 <= i < files.len() ==> {
                &&& (#[trigger] files[i]).page_size == files[0].page_size
                &&& written_as(files[i], begun[i], maps[i], lock, sources[i], states[i + 1])
                &&& begun[i].snapshotting || {
                    &&& begun[i].prev_commit == image::commit_before(files, i)
                    &&& rest_unchanged(begun[i], maps[i], states[i], states[i + 1])
                }
            },
    ensures
        image::all_fit(files, files.len() as int, lock),
        forall|pgno: u32|
            1 <= pgno <= files.last().commit && pgno != lock ==> #[trigger] image::page_bytes(
                files,
                lock,
                pgno,
            ) == states.last()[pgno],
{
    assert forall|i: int| 0 <= i < files.len() implies (#[trigger] files[i]).page_size
        == files[0].page_size && image::carries(
        files[i],
        states[i],
        image::commit_before(files, i),
        states[i + 1],
        lock,
    ) by {
        law_capture_carries_the_change(
            begun[i],
            maps[i],
            lock,
            sources[i],
            files[i],
            states[i],
            states[i + 1],
        );
    }
    image::law_files_rebuild_the_last_state(files, states, lock);
}

/// What a capture writes. Nothing is written only where the WAL holds nothing new and no
/// snapshot is due; a reader that ended before its start is an error. Otherwise the file is
/// one of the capture's transaction alone, ends where the reader did, has the WAL's page
/// count where it tells one and the database's otherwise, and lists a page exactly where a
/// snapshot needs it, the WAL holds it, or the database grew by it.
pub proof fn law_capture_writes_what_is_new(
    step: CaptureStep,
    capture: Capture,
    map: WalMap,
    page_size: u32,
    lock: u32,
    timestamp: i64,
    pgno: u32,
)
    requires
        is_step(step, capture, map, page_size, lock, timestamp),
        i64::MIN <= map.max_offset - capture.offset <= i64::MAX,
    ensures
        ({
            let ended = map.max_offset > 0;
            let commit = if map.commit > 0 {
                map.commit
            } else {
                capture.commit
            };
            &&& step is Negative <==> ended && map.max_offset < capture.offset
            &&& step is Nothing <==> !capture.snapshotting && (!ended || map.max_offset
                == capture.offset)
            &&& step matches CaptureStep::Write { header, pages } ==> {
                &&& header.min_txid == capture.tx_id && header.max_txid == capture.tx_id
                &&& header.commit == commit && header.page_size == page_size
                &&& header.timestamp == timestamp
                &&& header.wal_offset == capture.offset
                &&& ended ==> header.wal_offset + header.wal_size == map.max_offset
                &&& !ended ==> header.wal_size == 0
                &&& header.wal_salt1 == map.salt1 && header.wal_salt2 == map.salt2
                &&& header.no_checksum && header.pre_apply_checksum == 0 && header.node_id == 0
                &&& (exists|i: int| 0 <= i < pages@.len() && (#[trigger] pages@[i]).0 == pgno)
                    <==> if capture.snapshotting {
                    1 <= pgno && pgno <= commit && pgno != lock
                } else {
                    map.page_map@.dom().contains(pgno) || (capture.prev_commit < pgno && pgno
                        <= commit && pgno != lock)
                }
            }
        }),
{
    if let CaptureStep::Write { header, pages } = step {
        if capture.snapshotting {
            pages::law_snapshot_lists_every_page(
                pages@,
                map.page_map@,
                header.commit,
                lock,
                pgno,
            );
        } else {
            pages::law_delta_lists_its_pages(
                pages@,
                map.page_map@,
                capture.prev_commit,
                header.commit,
                lock,
                pgno,
            );
        }
    }
}

/// The bounded read of the WAL begins with the frame before the capture's start, so that
/// the reader can check it, and never inside the header: a capture that starts in the
/// first frame or right behind it is read from the first frame on.
pub proof fn law_read_begins_with_the_frame_before(page_size: u32, offset: i64)
    ensures
        read_start(page_size, offset) >= 32,
        offset >= 32 + 2 * (24 + page_size) ==> read_start(page_size, offset) + 24 + page_size
            == offset,
        offset <= 32 + 24 + page_size ==> read_start(page_size, offset) == 32,
        offset >= 32 ==> read_start(page_size, offset) <= offset,
        offset > 32 + 24 + page_size ==> read_start(page_size, offset) + 24 + page_size == offset,
{
}

/// How a read of the WAL is recorded: whole, from the first frame on, the whole file for
/// want of a window, or from a later frame on. No two of them are recorded alike.
pub proof fn law_read_kinds(capture: Capture, bounded: Option<usize>)
    ensures
        read_kind(capture, bounded) == 1 <==> capture.read is Whole,
        read_kind(capture, bounded) == 3 <==> capture.read is Bounded && bounded is None,
        read_kind(capture, bounded) == 2 <==> bounded is Some && (
        capture.read matches WalRead::Bounded { start } && start == 32),
        read_kind(capture, bounded) == 0 <==> bounded is Some && (
        capture.read matches WalRead::Bounded { start } && start != 32),
{
}

/// The frame that a capture remembers is the last one that it consumed: the bytes of the
/// WAL before the reader's end, the page number in the first four and the page behind the
/// frame's header. Where the image does not hold it, nothing is remembered.
pub proof fn law_last_frame_is_remembered(
    image: WalImage,
    file: Seq<u8>,
    max_offset: i64,
    page_size: u32,
)
    requires
        wal::image_of_file(image, file),
    ensures
        ({
            let at = max_offset - 24 - page_size;
            let (pgno, page) = final_frame(image, max_offset, page_size);
            if at >= 32 && wal::image_holds(image, at, 24 + page_size) {
                pgno == wal::be(file, at) && page == file.subrange(at + 24, max_offset as int)
            } else {
                pgno == 0 && page.len() == 0
            }
        }),
{
    let at = max_offset - 24 - page_size;
    if at >= 32 && wal::image_holds(image, at, 24 + page_size) {
        wal::law_image_hands_out_the_file(image, file, at, 24 + page_size);
        let frame = image.bytes@.subrange(
            wal::image_index(image, at),
            wal::image_index(image, at) + 24 + page_size,
        );
        assert(frame =~= file.subrange(at, max_offset as int));
        wal::law_numbers_are_big_endian(file, at);
        assert(frame[0] == file[at] && frame[1] == file[at + 1] && frame[2] == file[at + 2]
            && frame[3] == file[at + 3]);
        assert(frame.skip(24) =~= file.subrange(at + 24, max_offset as int));
    }
}

} // verus!
