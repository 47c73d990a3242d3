use std::collections::HashMap;

use celld_storage::ltx::capture::{Capture, CaptureStep, WalMap, WalRead};
use celld_storage::ltx::checkpoint::{
    barrier_capture, checkpoint_boundary, first_error, is_disk_full_error, is_sqlite_busy_error,
    AfterCheckpoint, CheckpointMode, CheckpointNeed, CheckpointPragma,
};
use celld_storage::ltx::db::{
    is_control_table, is_tmp_file, max_ltx, meta_dir_name, page_offset, retries_wal_read,
    rollback_is_done, wal_exists, wal_path, Db, OpenFailure, Pos, PosStep,
};
use celld_storage::ltx::image::{build_database_image, DecodedFile, ImageError};
use celld_storage::ltx::pages::{collect_snapshot_pages, collect_wal_pages, PageSource};
use celld_storage::ltx::snapshot::{rolling_checksum, snapshot_window, SnapshotMap};
use celld_storage::ltx::verify::{
    detect_full_checkpoint, last_page_match, last_page_match_cached, snapshot_reason_code, verify,
    LastL0Header, SyncInfo, VerifyFacts, VerifyInfo, VerifyStep, BOUNDARY, FULL_CHECKPOINT,
    PAGE_MISSING, RESTARTED_EARLY, SALT_RESET, WAL_TRUNCATED,
};
use celld_storage::ltx::wal::{be_u32, calc_wal_size, wal_salts, WalImage};
use celld_storage::ltx::window::{bounded_read_end, valid_end_of, WalWindow, WindowStep};

const PAGE: u32 = 512;
const FRAME: i64 = 536;

fn db() -> Db {
    Db::initialized("wal", PAGE as i64).ok().unwrap()
}

fn header(offset: i64, size: i64) -> LastL0Header {
    LastL0Header {
        wal_offset: offset,
        wal_size: size,
        wal_salt1: 7,
        wal_salt2: 9,
        commit: 3,
        final_pgno: 2,
        final_page: vec![5; PAGE as usize],
    }
}

fn facts(last: Option<LastL0Header>, wal_size: i64) -> VerifyFacts {
    VerifyFacts {
        page_size: PAGE,
        last,
        remembered: true,
        wal_size,
        synced_to_wal_end: false,
        wal_salts: None,
        last_page_match: None,
        foreign_salts: None,
    }
}

fn done(step: VerifyStep) -> SyncInfo {
    match step {
        VerifyStep::Done(info) => info,
        _ => panic!("done"),
    }
}

fn frame(pgno: u32, salt1: u32, salt2: u32, fill: u8) -> Vec<u8> {
    let mut out = Vec::new();
    out.extend_from_slice(&pgno.to_be_bytes());
    out.extend_from_slice(&[0; 4]);
    out.extend_from_slice(&salt1.to_be_bytes());
    out.extend_from_slice(&salt2.to_be_bytes());
    out.extend_from_slice(&[0; 8]);
    out.extend_from_slice(&vec![fill; PAGE as usize]);
    out
}

fn wal_header(salt1: u32, salt2: u32) -> Vec<u8> {
    let mut out = vec![0; 16];
    out.extend_from_slice(&salt1.to_be_bytes());
    out.extend_from_slice(&salt2.to_be_bytes());
    out.extend_from_slice(&[0; 8]);
    out
}

#[test]
fn the_first_sync_snapshots() {
    let info = done(verify(&facts(None, 100)));
    assert!(info.snapshotting);
    assert_eq!(info.offset, 32);
    assert_eq!(info.reason, "");
}

#[test]
fn a_truncated_wal_snapshots_unless_it_was_captured_to_its_end() {
    let mut f = facts(Some(header(32, 3 * FRAME)), 32);
    let info = done(verify(&f));
    assert!(info.snapshotting);
    assert_eq!(info.reason, WAL_TRUNCATED);
    f.synced_to_wal_end = true;
    assert!(matches!(verify(&f), VerifyStep::ReadWalHeader));
    f.wal_salts = Some((1, 2));
    let info = done(verify(&f));
    assert!(!info.snapshotting);
    assert_eq!((info.offset, info.salt1, info.salt2), (32, 1, 2));
    assert_eq!(info.prev_commit, 3);
    let mut db = db();
    db.synced_to_wal_end = true;
    db.verified(&f);
    assert!(!db.synced_to_wal_end);
}

#[test]
fn a_capture_at_the_start_goes_by_the_salts() {
    for size in [0, FRAME] {
        let mut f = facts(Some(header(32, size)), 5000);
        f.wal_salts = Some((7, 9));
        let info = done(verify(&f));
        assert!(!info.snapshotting);
        assert_eq!(info.offset, 32 + size);
        f.wal_salts = Some((7, 8));
        let info = done(verify(&f));
        assert!(info.snapshotting);
        assert_eq!(info.reason, SALT_RESET);
    }
}

#[test]
fn a_capture_goes_on_behind_its_last_frame() {
    let mut f = facts(Some(header(32, 2 * FRAME)), 5000);
    f.wal_salts = Some((7, 9));
    assert!(matches!(verify(&f), VerifyStep::ReadFrame { offset } if offset == 32 + FRAME));
    f.last_page_match = Some(false);
    assert_eq!(done(verify(&f)).reason, PAGE_MISSING);
    f.last_page_match = Some(true);
    let info = done(verify(&f));
    assert!(!info.snapshotting);
    assert_eq!(info.offset, 32 + 2 * FRAME);
    f.wal_salts = Some((1, 2));
    assert!(matches!(verify(&f), VerifyStep::ReadSalts));
    f.foreign_salts = Some(true);
    assert_eq!(done(verify(&f)).reason, FULL_CHECKPOINT);
    f.foreign_salts = Some(false);
    let info = done(verify(&f));
    assert!(!info.snapshotting);
    assert_eq!(info.offset, 32);
}

#[test]
fn a_remembered_header_without_a_frame_snapshots() {
    let mut last = header(32, 2 * FRAME);
    last.final_page = Vec::new();
    let mut f = facts(Some(last), 5000);
    f.wal_salts = Some((7, 9));
    assert_eq!(done(verify(&f)).reason, PAGE_MISSING);
    f.remembered = false;
    assert!(matches!(verify(&f), VerifyStep::ReadFrame { .. }));
}

#[test]
fn a_capture_that_ends_inside_the_first_frame_is_refused() {
    let mut f = facts(Some(header(32, 100)), 5000);
    f.wal_salts = Some((7, 9));
    assert!(matches!(
        verify(&f),
        VerifyStep::BadOffset { prev_wal_offset } if prev_wal_offset == 132 - FRAME
    ));
}

#[test]
fn reasons_have_numbers() {
    let codes = [
        ("", 1),
        (WAL_TRUNCATED, 2),
        (SALT_RESET, 3),
        (PAGE_MISSING, 4),
        (FULL_CHECKPOINT, 5),
        (BOUNDARY, 6),
        ("other", 7),
        (RESTARTED_EARLY, 8),
    ];
    for (reason, code) in codes {
        assert_eq!(snapshot_reason_code(reason), code);
    }
    let info = VerifyInfo::of(done(verify(&facts(None, 0))));
    assert!(info.snapshotting);
    assert_eq!(info.offset, 32);
}

#[test]
fn the_last_frame_is_looked_for_in_the_last_file() {
    let last = header(32, 2 * FRAME);
    let mine = frame(2, 7, 9, 5);
    assert!(last_page_match_cached(&mine, &last));
    assert!(!last_page_match_cached(&frame(3, 7, 9, 5), &last));
    assert!(!last_page_match_cached(&frame(2, 7, 8, 5), &last));
    assert!(!last_page_match_cached(&frame(2, 7, 9, 6), &last));
    let pages = vec![(1, vec![1; 512]), (2, vec![5; 512])];
    assert!(last_page_match(&mine, &last, &pages));
    assert!(!last_page_match(&frame(1, 7, 9, 5), &last, &pages));
    assert!(detect_full_checkpoint(&vec![(1, 2), (3, 4)], &vec![(1, 2)]));
    assert!(!detect_full_checkpoint(&vec![(1, 2)], &vec![(1, 2), (7, 9)]));
}

#[test]
fn numbers_and_salts_of_a_wal() {
    assert_eq!(be_u32(&[1, 2, 3, 4, 5]), 0x0102_0304);
    assert_eq!(wal_salts(&wal_header(7, 9)), (7, 9));
    assert_eq!(calc_wal_size(512, 2), 32 + 2 * FRAME);
    assert_eq!(calc_wal_size(4096, 1000), 32 + 1000 * 4120);
}

#[test]
fn an_image_hands_out_what_it_holds() {
    let whole = WalImage::whole((0..100u8).collect());
    assert_eq!(whole.slice(10, 2), Some(&[10u8, 11][..]));
    assert_eq!(whole.slice(99, 2), None);
    assert_eq!(whole.slice(-1, 2), None);
    let mut bytes: Vec<u8> = (0..32u8).collect();
    bytes.extend_from_slice(&[200, 201, 202]);
    let sparse = WalImage {
        bytes,
        tail_base: 64,
        file_len: 67,
    };
    assert_eq!(sparse.slice(0, 2), Some(&[0u8, 1][..]));
    assert_eq!(sparse.slice(65, 2), Some(&[201u8, 202][..]));
    assert_eq!(sparse.slice(31, 2), None);
    assert_eq!(sparse.slice(40, 2), None);
}

#[test]
fn a_window_reads_no_more_than_it_has_to() {
    let file_len = 32 + 5 * FRAME as usize + 7;
    assert_eq!(bounded_read_end(PAGE, file_len, 32), Some(32 + 5 * FRAME as usize));
    assert_eq!(bounded_read_end(PAGE, file_len, 33), None);
    assert_eq!(bounded_read_end(PAGE, 31, 32), None);
    let end = 32 + 5 * FRAME as usize;
    let mut window = WalWindow::open(PAGE, file_len, 32, end, wal_header(7, 9));
    assert_eq!(window.next_read(), Some((32, FRAME as usize)));
    window.extend(frame(1, 7, 9, 1));
    let mut window = match window.settle(32 + FRAME as usize) {
        WindowStep::More(window) => window,
        _ => panic!("more"),
    };
    assert_eq!(
        window.next_read(),
        Some((32 + FRAME as usize, FRAME as usize))
    );
    window.extend(frame(2, 1, 1, 2));
    match window.settle(32 + FRAME as usize) {
        WindowStep::Done(image, read) => {
            assert_eq!(read, 32 + 2 * FRAME as usize);
            assert_eq!(image.bytes.len(), 32 + FRAME as usize);
            assert_eq!(image.file_len, file_len);
        }
        _ => panic!("done"),
    }
    assert_eq!(valid_end_of(PAGE, 0), 32);
    assert_eq!(valid_end_of(PAGE, 32), 32 + FRAME as usize);
}

#[test]
fn a_capture_writes_a_delta() {
    let mut db = db();
    let info = SyncInfo {
        offset: 32 + FRAME,
        salt1: 7,
        salt2: 9,
        prev_commit: 2,
        snapshotting: false,
        reason: "",
    };
    let pos = Pos {
        txid: 4,
        post_apply_checksum: 0,
    };
    let capture = db.begin_capture(&info, pos, 3 * PAGE as i64);
    assert_eq!(capture.tx_id, 5);
    assert_eq!(capture.commit, 3);
    assert_eq!(capture.read, WalRead::Bounded { start: 32 });
    let map = WalMap {
        page_map: HashMap::from([(2, 32 + FRAME)]),
        max_offset: 32 + 2 * FRAME,
        commit: 4,
        salt1: 7,
        salt2: 9,
    };
    match capture.mapped(&map, PAGE, 1000, 77) {
        CaptureStep::Write { header, pages } => {
            assert_eq!((header.min_txid, header.max_txid, header.commit), (5, 5, 4));
            assert_eq!((header.wal_offset, header.wal_size), (32 + FRAME, FRAME));
            assert!(header.no_checksum);
            assert_eq!(
                pages,
                [
                    (2, PageSource::Wal(32 + FRAME)),
                    (3, PageSource::Database),
                    (4, PageSource::Database)
                ]
            );
        }
        _ => panic!("write"),
    }
    let mut bytes = wal_header(7, 9);
    bytes.extend_from_slice(&frame(1, 7, 9, 1));
    bytes.extend_from_slice(&frame(2, 7, 9, 2));
    let image = WalImage::whole(bytes);
    db.image_read(&capture, &image, Some(10));
    assert_eq!(db.last_sync_timing.wal_read_kind, 2);
    assert_eq!(db.last_sync_timing.wal_read_bytes, 10);
    db.captured(&capture, &map, &image, 123, 77, Some(32 + 2 * FRAME));
    assert!(db.synced_to_wal_end);
    assert_eq!(db.last_synced_wal_offset, 32 + 2 * FRAME);
    assert!(matches!(db.pos(None), PosStep::Done(pos) if pos.txid == 5));
    let remembered = db.remembered_header(5).unwrap();
    assert_eq!(remembered.final_pgno, 2);
    assert_eq!(remembered.final_page, vec![2; PAGE as usize]);
    assert!(db.remembered_header(4).is_none());
}

#[test]
fn a_capture_resumes_where_it_ended() {
    let mut db = db();
    let info = done(verify(&facts(None, 32 + 2 * FRAME)));
    let pos = Pos {
        txid: 0,
        post_apply_checksum: 0,
    };
    let capture = db.begin_capture(&info, pos, 2 * PAGE as i64);
    assert_eq!(capture.read, WalRead::Whole);
    let map = WalMap {
        page_map: HashMap::new(),
        max_offset: 32 + 2 * FRAME,
        commit: 2,
        salt1: 7,
        salt2: 9,
    };
    let mut bytes = wal_header(7, 9);
    bytes.extend_from_slice(&frame(1, 7, 9, 1));
    bytes.extend_from_slice(&frame(2, 7, 9, 2));
    db.captured(&capture, &map, &WalImage::whole(bytes), 1, 1, None);
    let last = db.last_l0_header.take().unwrap().1;
    assert!(last_page_match_cached(&frame(2, 7, 9, 2), &last));
    let mut next = facts(Some(last), 32 + 3 * FRAME);
    next.wal_salts = Some((7, 9));
    next.last_page_match = Some(true);
    let info = done(verify(&next));
    assert!(!info.snapshotting);
    assert_eq!(info.offset, 32 + 2 * FRAME);
    assert_eq!(info.prev_commit, 2);
}

#[test]
fn nothing_new_is_not_captured() {
    let mut db = db();
    let mut info = SyncInfo {
        offset: 32 + FRAME,
        salt1: 7,
        salt2: 9,
        prev_commit: 2,
        snapshotting: false,
        reason: "",
    };
    let pos = Pos {
        txid: 1,
        post_apply_checksum: 0,
    };
    let mut map = WalMap {
        page_map: HashMap::new(),
        max_offset: 0,
        commit: 0,
        salt1: 7,
        salt2: 9,
    };
    let mut capture = db.begin_capture(&info, pos, 512);
    assert!(matches!(capture.mapped(&map, PAGE, 9, 0), CaptureStep::Nothing));
    map.max_offset = 32;
    assert!(matches!(
        capture.mapped(&map, PAGE, 9, 0),
        CaptureStep::Negative { size } if size == -FRAME
    ));
    db.last_sync_timing.wal_read_kind = 0;
    assert!(db.previous_frame_mismatch(&mut capture));
    assert_eq!(capture.offset, 32);
    db.image_reread(55);
    assert_eq!(db.last_sync_timing.wal_read_kind, 3);
    info.snapshotting = true;
    let snapshot = db.begin_capture(&info, pos, 2 * 512);
    map.max_offset = 0;
    match snapshot.mapped(&map, PAGE, 2, 0) {
        CaptureStep::Write { header, pages } => {
            assert_eq!(header.wal_size, 0);
            assert_eq!(pages, [(1, PageSource::Database)]);
        }
        _ => panic!("write"),
    }
}

#[test]
fn pages_leave_the_lock_page_out() {
    let map = HashMap::from([(7u32, 100i64), (3, 50)]);
    assert_eq!(
        collect_wal_pages(&map, 4, 6, 5),
        [
            (3, PageSource::Wal(50)),
            (6, PageSource::Database),
            (7, PageSource::Wal(100))
        ]
    );
    assert_eq!(
        collect_snapshot_pages(&map, 4, 2),
        [
            (1, PageSource::Database),
            (3, PageSource::Wal(50)),
            (4, PageSource::Database)
        ]
    );
}

fn file(commit: u32, txid: u64, pages: &[(u32, u8)]) -> DecodedFile {
    DecodedFile {
        page_size: 4,
        commit,
        max_txid: txid,
        pages: pages.iter().map(|(p, fill)| (*p, vec![*fill; 4])).collect(),
    }
}

#[test]
fn files_rebuild_the_last_state() {
    let files = vec![
        file(2, 1, &[(1, 1), (2, 2)]),
        file(3, 2, &[(2, 9), (3, 3)]),
        file(2, 3, &[(1, 8)]),
    ];
    assert_eq!(
        build_database_image(&files, 100).ok().unwrap(),
        [8, 8, 8, 8, 9, 9, 9, 9]
    );
    let locked = vec![file(3, 1, &[(1, 1), (3, 3)])];
    assert_eq!(
        build_database_image(&locked, 2).ok().unwrap(),
        [1, 1, 1, 1, 0, 0, 0, 0, 3, 3, 3, 3]
    );
}

#[test]
fn files_that_do_not_fit_are_refused() {
    assert!(matches!(
        build_database_image(&Vec::new(), 9),
        Err(ImageError::Empty)
    ));
    let mut other = file(1, 2, &[]);
    other.page_size = 8;
    assert!(matches!(
        build_database_image(&vec![file(1, 1, &[(1, 1)]), other], 9),
        Err(ImageError::PageSize { expected: 4, found: 8 })
    ));
    assert!(matches!(
        build_database_image(&vec![file(1, 1, &[(1, 1)]), file(3, 2, &[(3, 3)])], 9),
        Err(ImageError::MissingGrowth { pgno: 2, txid: 2, from: 1, to: 3 })
    ));
}

#[test]
fn a_commit_after_the_capture_is_outside_the_snapshots_window() {
    let last = header(32, 2 * FRAME);
    assert_eq!(
        snapshot_window(Some(&last), (7, 9), 32 + 3 * FRAME as usize),
        32 + 2 * FRAME as usize
    );
    assert_eq!(snapshot_window(Some(&last), (1, 1), 5000), 32);
    assert_eq!(snapshot_window(None, (7, 9), 5000), 32);
    assert_eq!(snapshot_window(Some(&last), (7, 9), 40), 40);
}

#[test]
fn a_snapshot_spans_every_transaction() {
    let pos = Pos {
        txid: 6,
        post_apply_checksum: 0,
    };
    let map = SnapshotMap {
        page_map: HashMap::from([(2, 40)]),
        max_offset: 0,
        commit: 0,
        reader_offset: 32,
        salt1: 1,
        salt2: 2,
    };
    let (header, pages) = db().snapshot(pos, &map, 2 * 512, 9, 5).unwrap();
    assert_eq!((header.min_txid, header.max_txid, header.commit), (1, 6, 2));
    assert!(!header.no_checksum);
    assert_eq!(pages, [(1, PageSource::Database), (2, PageSource::Wal(40))]);
    let flag = 1u64 << 63;
    assert_eq!(rolling_checksum(&vec![(1, 3), (2, 5), (9, 77)], 9, flag), flag | 6);
}

#[test]
fn a_database_opens_in_wal_mode_only() {
    assert!(matches!(
        Db::initialized("delete", 512),
        Err(OpenFailure::NotWal)
    ));
    assert!(matches!(
        Db::initialized("wal", 0),
        Err(OpenFailure::PageSize(0))
    ));
    let mut db = db();
    assert_eq!(db.page_size(), 512);
    assert!(db.acquire_read_lock());
    db.read_lock_acquired();
    assert!(!db.acquire_read_lock());
    assert!(db.release_read_lock());
    assert!(!db.release_read_lock());
    assert!(db.ensure_control_tables(3));
    db.control_tables_stand(3);
    assert!(!db.ensure_control_tables(3));
    assert!(db.ensure_control_tables(4));
}

#[test]
fn names_of_a_databases_files() {
    assert!(is_control_table("_litestream_seq"));
    assert!(is_control_table("_litestream_lock"));
    assert!(!is_control_table("litestream_seq"));
    assert_eq!(wal_path("/d/a.db"), "/d/a.db-wal");
    assert_eq!(meta_dir_name("a.db"), ".a.db-litestream");
    assert!(is_tmp_file("0001.ltx.tmp"));
    assert!(!is_tmp_file(".tmp"));
    assert!(!is_tmp_file("0001.ltx"));
    assert_eq!(page_offset(3, 512), 1024);
    assert_eq!(max_ltx(&vec![(1, 2), (5, 9), (3, 4)]), (5, 9));
    assert!(retries_wal_read(0, true, false));
    assert!(!retries_wal_read(1, true, false));
    assert!(!retries_wal_read(0, false, false));
    assert!(wal_exists(32));
    assert!(!wal_exists(31));
    assert!(rollback_is_done("cannot rollback - no transaction is active"));
    assert!(!rollback_is_done("disk I/O error"));
}

#[test]
fn the_position_is_read_once() {
    let mut db = db();
    assert!(matches!(db.pos(None), PosStep::ReadMaxLtx));
    assert!(matches!(
        db.pos(Some((4, 4))),
        PosStep::ReadFile { min_txid: 4, max_txid: 4 }
    ));
    let pos = db.pos_read(4, 11);
    assert_eq!((pos.txid, pos.post_apply_checksum), (4, 11));
    assert!(matches!(db.pos(None), PosStep::Done(pos) if pos.txid == 4));
    db.invalidate_pos_cache();
    assert!(matches!(db.pos(None), PosStep::ReadMaxLtx));
    db.pos_read(4, 11);
    db.reset_local_state();
    assert!(matches!(db.pos(None), PosStep::ReadMaxLtx));
    db.seed_l0_baseline();
    assert!(db.last_l0_header.is_none());
}

#[test]
fn a_continuation_captures_a_delta_and_a_baseline_snapshots() {
    let db = db();
    let wal = wal_header(7, 9);
    let continued = db.seed_continuation(8, 3, 1, &wal);
    assert_eq!((continued.min_txid, continued.max_txid, continued.commit), (8, 8, 3));
    assert_eq!((continued.wal_salt1, continued.wal_salt2), (7, 9));
    let baseline = db.seed_snapshot_baseline(8, 0, 1, &wal);
    assert_eq!((baseline.wal_salt1, baseline.wal_salt2), (!7, !9));
    assert_eq!(baseline.commit, 1);
    for (header, snapshotting) in [(continued, false), (baseline, true)] {
        let last = LastL0Header {
            wal_offset: header.wal_offset,
            wal_size: header.wal_size,
            wal_salt1: header.wal_salt1,
            wal_salt2: header.wal_salt2,
            commit: header.commit,
            final_pgno: 0,
            final_page: Vec::new(),
        };
        let mut f = facts(Some(last), 5000);
        f.wal_salts = Some((7, 9));
        assert_eq!(done(verify(&f)).snapshotting, snapshotting);
    }
}

#[test]
fn a_checkpoint_runs_when_it_is_due() {
    let mut db = db();
    db.truncate_page_n = 10;
    db.min_checkpoint_page_n = 4;
    db.checkpoint_interval = 100;
    let at = |pages: i64| 32 + pages * FRAME;
    assert_eq!(
        db.checkpoint_if_needed(at(10), at(10), None),
        CheckpointNeed::Run(CheckpointMode::Truncate)
    );
    assert_eq!(
        db.checkpoint_if_needed(at(1), at(4), None),
        CheckpointNeed::Run(CheckpointMode::Passive)
    );
    db.checkpointed_wal_offset = at(2);
    assert_eq!(db.checkpoint_if_needed(at(1), at(4), None), CheckpointNeed::Nothing);
    db.synced(true);
    assert_eq!(db.checkpoint_if_needed(at(1), at(3), None), CheckpointNeed::ReadAge);
    assert_eq!(
        db.checkpoint_if_needed(at(1), at(3), Some(101)),
        CheckpointNeed::Run(CheckpointMode::Passive)
    );
    assert_eq!(
        db.checkpoint_if_needed(at(1), at(3), Some(100)),
        CheckpointNeed::Nothing
    );
    assert_eq!(
        db.checkpoint_if_needed(at(1), at(1), Some(101)),
        CheckpointNeed::Nothing
    );
    db.last_db_pages = 2000;
    assert_ne!(
        db.checkpoint_if_needed(at(10), at(3), Some(0)),
        CheckpointNeed::Run(CheckpointMode::Truncate)
    );
}

#[test]
fn a_checkpoint_that_restarted_the_wal_is_sealed() {
    let mut db = db();
    db.begin_sync();
    db.synced(true);
    db.last_synced_wal_offset = 32 + 3 * FRAME;
    assert_eq!(db.logical_wal_size(), Some(32 + 3 * FRAME));
    assert_eq!(db.pre_checkpoint_frames(), 3);
    let pragma = CheckpointPragma {
        busy: 1,
        wal_frames: 5,
        backfilled: 2,
    };
    db.checkpointed(pragma);
    assert_eq!(db.checkpointed_wal_offset, 32 + 2 * FRAME);
    assert_eq!(db.last_sync_timing().checkpoint_wal_frames, 5);
    assert_eq!(db.last_sync_timing().checkpoint_busy, 1);
    let old = wal_header(1, 2);
    let new = wal_header(3, 4);
    let after = |db: &mut Db, mode, header: &[u8], frames| {
        db.checkpoint_sealed(mode, &old, header, pragma, frames)
    };
    assert_eq!(
        after(&mut db, CheckpointMode::Truncate, &new, 9),
        AfterCheckpoint::Boundary
    );
    assert_eq!(
        after(&mut db, CheckpointMode::Full, &new, 4),
        AfterCheckpoint::Boundary
    );
    assert_eq!(
        after(&mut db, CheckpointMode::Full, &new, 5),
        AfterCheckpoint::Delta
    );
    assert_eq!(
        after(&mut db, CheckpointMode::Passive, &new, 0),
        AfterCheckpoint::Delta
    );
    assert!(db.synced_since_checkpoint);
    assert_eq!(
        after(&mut db, CheckpointMode::Truncate, &old, 0),
        AfterCheckpoint::Settled
    );
    assert!(!db.synced_since_checkpoint);
    db.synced(true);
    db.checkpoint_settled();
    assert!(!db.synced_since_checkpoint);
    assert!(db.checkpoint_failed(true));
    assert!(!db.checkpoint_failed(false));
}

#[test]
fn a_barrier_catches_a_restart() {
    let before = wal_header(1, 2);
    assert!(barrier_capture(&before, &before).is_none());
    let info = barrier_capture(&before, &wal_header(3, 4)).unwrap();
    assert!(info.snapshotting);
    assert_eq!((info.offset, info.salt1, info.salt2), (32, 3, 4));
    assert_eq!(info.reason, RESTARTED_EARLY);
    assert_eq!(checkpoint_boundary(&before).reason, BOUNDARY);
    assert_eq!(CheckpointMode::Restart.name(), "RESTART");
    assert_eq!(
        CheckpointMode::Passive.pragma(),
        "PRAGMA wal_checkpoint(PASSIVE)"
    );
}

#[test]
fn the_operations_own_error_comes_first() {
    let ok: Result<(), &str> = Ok(());
    assert_eq!(first_error(Ok::<u8, &str>(1), ok, ok), Ok(1));
    assert_eq!(first_error(Err::<u8, &str>("a"), Err("b"), Err("c")), Err("a"));
    assert_eq!(first_error(Ok::<u8, &str>(1), Err("b"), Err("c")), Err("b"));
    assert_eq!(first_error(Ok::<u8, &str>(1), ok, Err("c")), Err("c"));
}

#[test]
fn errors_are_told_by_their_messages() {
    assert!(is_sqlite_busy_error(true, ""));
    assert!(is_sqlite_busy_error(false, "x: database is locked"));
    assert!(is_sqlite_busy_error(false, "SQLITE_BUSY"));
    assert!(!is_sqlite_busy_error(false, "database is busy"));
    assert!(is_disk_full_error("No Space Left On Device (os error 28)"));
    assert!(is_disk_full_error("ENOSPC"));
    assert!(is_disk_full_error("Disk quota exceeded"));
    assert!(is_disk_full_error("EDQUOT"));
    assert!(!is_disk_full_error("full"));
}

#[test]
fn a_restore_gives_back_what_was_captured() {
    let written = |capture: &Capture, map: &WalMap, state: &[(u32, u8)]| {
        let CaptureStep::Write { header, pages } = capture.mapped(map, PAGE, 1000, 0) else {
            panic!("write");
        };
        let byte = |pgno| state.iter().find(|page| page.0 == pgno).unwrap().1;
        DecodedFile {
            page_size: header.page_size,
            commit: header.commit,
            max_txid: header.max_txid,
            pages: pages.iter().map(|page| (page.0, vec![byte(page.0); 2])).collect(),
        }
    };
    let map = |page_map: &[(u32, i64)], commit| WalMap {
        page_map: page_map.iter().copied().collect(),
        max_offset: 32 + 9 * FRAME,
        commit,
        salt1: 7,
        salt2: 9,
    };
    let begun = |tx_id, prev_commit, snapshotting| Capture {
        tx_id,
        commit: 2,
        offset: 32,
        prev_commit,
        snapshotting,
        reason: "",
        read: WalRead::Whole,
    };
    let files = vec![
        written(&begun(1, 0, true), &map(&[(1, 32)], 2), &[(1, 1), (2, 2)]),
        // Page 2 changes, and page 3 comes without a frame of its own.
        written(&begun(2, 2, false), &map(&[(2, 32)], 3), &[(1, 1), (2, 5), (3, 3)]),
    ];
    assert_eq!(files[1].pages.len(), 2);
    assert_eq!(
        build_database_image(&files, 1000).ok().unwrap(),
        [1, 1, 5, 5, 3, 3]
    );
}
