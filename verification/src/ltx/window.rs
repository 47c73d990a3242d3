//! Reading a WAL through the end of its valid frames.
//!
//! SQLite can leave stale frames behind the end of the logical WAL. The frames'
//! checksum chain is the end marker, so a window grows geometrically and stops
//! where the chain stops before what was read.

use vstd::prelude::*;

use crate::ltx::db::MAX_PAGE_SIZE;
use crate::ltx::wal;
use crate::ltx::wal::WalImage;
use crate::ltx::wal::WAL_FRAME_HEADER_SIZE;
use crate::ltx::wal::WAL_HEADER_SIZE;

verus! {

/// The size of a frame.
pub open spec fn frame_bytes(page_size: u32) -> int {
    page_size + WAL_FRAME_HEADER_SIZE
}

/// The end of the last complete frame of a file.
pub open spec fn complete_end_of(page_size: u32, file_len: int) -> int {
    WAL_HEADER_SIZE + ((file_len - WAL_HEADER_SIZE) / frame_bytes(page_size)) * frame_bytes(
        page_size,
    )
}

/// Whether a window can begin at `start`: there is a complete frame there.
pub open spec fn can_begin(page_size: u32, file_len: int, start: int) -> bool {
    &&& WAL_HEADER_SIZE <= start < complete_end_of(page_size, file_len)
    &&& WAL_HEADER_SIZE <= file_len
    &&& (start - WAL_HEADER_SIZE) % frame_bytes(page_size) == 0
}

proof fn lemma_complete_end(page_size: u32, file_len: int)
    requires
        WAL_HEADER_SIZE <= file_len,
    ensures
        WAL_HEADER_SIZE <= complete_end_of(page_size, file_len) <= file_len,
{
    let room = file_len - WAL_HEADER_SIZE;
    let frame = frame_bytes(page_size);
    assert(0 <= (room / frame) * frame <= room) by (nonlinear_arith)
        requires
            room >= 0,
            frame > 0,
    ;
}

/// The end of the last complete frame, where a window can begin at `start`.
pub fn bounded_read_end(page_size: u32, file_len: usize, start: usize) -> (end: Option<usize>)
    requires
        page_size <= MAX_PAGE_SIZE,
    ensures
        match end {
            Some(end) => can_begin(page_size, file_len as int, start as int) && end
                == complete_end_of(page_size, file_len as int),
            None => !can_begin(page_size, file_len as int, start as int),
        },
{
    if file_len < WAL_HEADER_SIZE || start < WAL_HEADER_SIZE {
        return None;
    }
    proof {
        lemma_complete_end(page_size, file_len as int);
        let room = file_len - WAL_HEADER_SIZE;
        let frame = frame_bytes(page_size);
        assert(0 <= (room / frame) * frame <= room) by (nonlinear_arith)
            requires
                room >= 0,
                frame > 0,
        ;
    }
    let frame: usize = page_size as usize + WAL_FRAME_HEADER_SIZE;
    let end: usize = WAL_HEADER_SIZE + ((file_len - WAL_HEADER_SIZE) / frame) * frame;
    if start >= end || (start - WAL_HEADER_SIZE) % frame != 0 {
        None
    } else {
        Some(end)
    }
}

/// A read in progress.
pub struct WalWindow {
    pub page_size: u32,
    pub file_len: usize,
    /// Where the frames that are read begin.
    pub start: usize,
    /// The end of the last complete frame.
    pub complete_end: usize,
    /// The header, and the file from the start to the cursor.
    pub bytes: Vec<u8>,
    pub cursor: usize,
    /// How many frames the window holds, but for the end of the file.
    pub target_frames: usize,
}

/// What a look at the valid frames came to.
pub enum WindowStep {
    /// The valid frames end in the window, or it holds all. With the image comes
    /// how many bytes were read for it.
    Done(WalImage, usize),
    /// The window is valid throughout, and a larger one has to be read.
    More(WalWindow),
}

impl WalWindow {
    pub open spec fn wf(self) -> bool {
        &&& 0 < self.page_size <= MAX_PAGE_SIZE
        &&& can_begin(self.page_size, self.file_len as int, self.start as int)
        &&& self.complete_end == complete_end_of(self.page_size, self.file_len as int)
        &&& self.complete_end <= self.file_len
        &&& self.start <= self.cursor <= self.complete_end
        &&& self.bytes@.len() == WAL_HEADER_SIZE + self.cursor - self.start
        &&& 1 <= self.target_frames
    }

    /// Whether what was read so far is this file's.
    pub open spec fn of_file(self, file: Seq<u8>) -> bool {
        &&& self.file_len <= file.len()
        &&& self.bytes@ == file.take(WAL_HEADER_SIZE as int) + file.subrange(
            self.start as int,
            self.cursor as int,
        )
    }

    /// Where the window ends that is asked for.
    pub open spec fn target(self) -> int {
        let end = self.start + self.target_frames * frame_bytes(self.page_size);
        if end <= self.complete_end {
            end
        } else {
            self.complete_end as int
        }
    }

    /// Where the tail of the image begins; zero for a prefix of the file.
    pub open spec fn base(self) -> int {
        if self.start == WAL_HEADER_SIZE {
            0
        } else {
            self.start as int
        }
    }

    /// How many bytes an image keeps that ends with the valid frames.
    pub open spec fn kept(self, valid_end: int) -> int {
        if self.base() == 0 {
            valid_end
        } else if valid_end >= self.start {
            WAL_HEADER_SIZE + valid_end - self.start
        } else {
            WAL_HEADER_SIZE as int
        }
    }

    /// Begin with the file's header and no frame.
    pub fn open(page_size: u32, file_len: usize, start: usize, complete_end: usize, header: Vec<
        u8,
    >) -> (window: Self)
        requires
            0 < page_size <= MAX_PAGE_SIZE,
            can_begin(page_size, file_len as int, start as int),
            complete_end == complete_end_of(page_size, file_len as int),
            header@.len() == WAL_HEADER_SIZE,
        ensures
            window.wf(),
            window.page_size == page_size && window.file_len == file_len && window.start == start,
            window.cursor == start,
            window.target_frames == 1,
            window.bytes == header,
            forall|file: Seq<u8>|
                file_len <= file.len() && header@ == file.take(WAL_HEADER_SIZE as int)
                    ==> #[trigger] window.of_file(file),
    {
        proof {
            lemma_complete_end(page_size, file_len as int);
            assert forall|file: Seq<u8>|
                file_len <= file.len() && header@ == file.take(
                    WAL_HEADER_SIZE as int,
                ) implies #[trigger] file.take(WAL_HEADER_SIZE as int) + file.subrange(
                start as int,
                start as int,
            ) == header@ by {
                assert(file.subrange(start as int, start as int) =~= Seq::<u8>::empty());
                assert(header@ + Seq::<u8>::empty() =~= header@);
            }
        }
        WalWindow {
            page_size,
            file_len,
            start,
            complete_end,
            bytes: header,
            cursor: start,
            target_frames: 1,
        }
    }

    fn target_end(&self) -> (end: usize)
        requires
            self.wf(),
        ensures
            end == self.target(),
    {
        let frame: usize = self.page_size as usize + WAL_FRAME_HEADER_SIZE;
        match self.target_frames.checked_mul(frame) {
            None => self.complete_end,
            Some(length) => match self.start.checked_add(length) {
                None => self.complete_end,
                Some(end) => if end <= self.complete_end {
                    end
                } else {
                    self.complete_end
                },
            },
        }
    }

    /// What has to be read next: from where, and how much.
    pub fn next_read(&self) -> (read: Option<(usize, usize)>)
        requires
            self.wf(),
        ensures
            read == if self.target() > self.cursor {
                Some((self.cursor, (self.target() - self.cursor) as usize))
            } else {
                None::<(usize, usize)>
            },
    {
        let end: usize = self.target_end();
        if end > self.cursor {
            Some((self.cursor, end - self.cursor))
        } else {
            None
        }
    }

    /// Take what was read.
    pub fn extend(&mut self, chunk: Vec<u8>)
        requires
            old(self).wf(),
            old(self).target() >= old(self).cursor,
            chunk@.len() == old(self).target() - old(self).cursor,
        ensures
            final(self).wf(),
            final(self).cursor == old(self).target(),
            final(self).bytes@ == old(self).bytes@ + chunk@,
            final(self).page_size == old(self).page_size && final(self).file_len == old(
                self,
            ).file_len && final(self).start == old(self).start && final(self).target_frames == old(
                self,
            ).target_frames,
            forall|file: Seq<u8>|
                old(self).of_file(file) && chunk@ == file.subrange(
                    old(self).cursor as int,
                    old(self).target(),
                ) ==> #[trigger] final(self).of_file(file),
    {
        let ghost before = *self;
        let mut chunk = chunk;
        let end: usize = self.target_end();
        let ghost added = chunk@;
        self.bytes.append(&mut chunk);
        self.cursor = end;
        proof {
            assert forall|file: Seq<u8>|
                before.of_file(file) && added == file.subrange(
                    before.cursor as int,
                    end as int,
                ) implies #[trigger] self.of_file(file) by {
                assert(self.bytes@ =~= file.take(WAL_HEADER_SIZE as int) + file.subrange(
                    self.start as int,
                    self.cursor as int,
                ));
            }
        }
    }

    /// The valid frames of the window end at `valid_end`. Where that is before
    /// what was read, the rest is dropped; where nothing more can be read, all is
    /// kept; else a window of twice the frames is next.
    pub fn settle(self, valid_end: usize) -> (step: WindowStep)
        requires
            self.wf(),
            self.cursor == self.target(),
        ensures
            match step {
                WindowStep::Done(image, read_bytes) => {
                    &&& valid_end < self.cursor || self.cursor == self.complete_end
                    &&& image.tail_base == self.base() && image.file_len == self.file_len
                    &&& image.bytes@ == if valid_end < self.cursor && self.kept(valid_end as int)
                        <= self.bytes@.len() {
                        self.bytes@.take(self.kept(valid_end as int))
                    } else {
                        self.bytes@
                    }
                    &&& read_bytes == self.bytes@.len()
                    &&& forall|file: Seq<u8>| #[trigger]
                        self.of_file(file) ==> wal::image_of_file(image, file)
                },
                WindowStep::More(window) => {
                    &&& valid_end >= self.cursor && self.cursor != self.complete_end
                    &&& window.wf()
                    &&& window.bytes == self.bytes && window.cursor == self.cursor
                    &&& window.page_size == self.page_size && window.file_len == self.file_len
                        && window.start == self.start
                    &&& window.target_frames == if 2 * self.target_frames <= usize::MAX {
                        2 * self.target_frames
                    } else {
                        usize::MAX as int
                    }
                    &&& forall|file: Seq<u8>| #[trigger]
                        self.of_file(file) ==> window.of_file(file)
                    &&& window.cursor < window.target()
                    &&& window.target() - window.cursor <= window.cursor - window.start
                },
            },
    {
        let read_bytes: usize = self.bytes.len();
        let tail_base: usize = if self.start == WAL_HEADER_SIZE {
            0
        } else {
            self.start
        };
        if valid_end < self.cursor {
            let keep: usize = if tail_base == 0 {
                valid_end
            } else if valid_end >= tail_base {
                WAL_HEADER_SIZE + (valid_end - tail_base)
            } else {
                WAL_HEADER_SIZE
            };
            let ghost held = self;
            let file_len: usize = self.file_len;
            let mut bytes = self.bytes;
            bytes.truncate(keep);
            let image = WalImage { bytes, tail_base, file_len };
            proof {
                assert(keep <= held.bytes@.len());
                assert(bytes@ =~= held.bytes@.take(keep as int));
                assert forall|file: Seq<u8>| #[trigger] held.of_file(file) implies
                    wal::image_of_file(image, file) by {
                    lemma_image(held, image, file);
                }
            }
            return WindowStep::Done(image, read_bytes);
        }
        if self.cursor == self.complete_end {
            let ghost held = self;
            let image = WalImage { bytes: self.bytes, tail_base, file_len: self.file_len };
            proof {
                assert(held.bytes@.take(held.bytes@.len() as int) =~= held.bytes@);
                assert forall|file: Seq<u8>| #[trigger] held.of_file(file) implies
                    wal::image_of_file(image, file) by {
                    lemma_image(held, image, file);
                }
            }
            return WindowStep::Done(image, read_bytes);
        }
        let doubled: usize = match self.target_frames.checked_mul(2) {
            Some(n) => n,
            None => usize::MAX,
        };
        let ghost held = self;
        let window = WalWindow { target_frames: doubled, ..self };
        proof {
            let frame = frame_bytes(held.page_size);
            let n: int = held.target_frames as int;
            let m: int = doubled as int;
            assert(n * frame >= n) by (nonlinear_arith)
                requires
                    frame >= 1,
                    n >= 1,
            ;
            assert(m > n);
            assert((m - n) * frame > 0) by (nonlinear_arith)
                requires
                    m > n,
                    frame > 0,
            ;
            assert(m * frame == n * frame + (m - n) * frame) by (nonlinear_arith);
            assert((2 * n) * frame == 2 * (n * frame)) by (nonlinear_arith);
            assert(m * frame <= (2 * n) * frame) by (nonlinear_arith)
                requires
                    m <= 2 * n,
                    frame > 0,
            ;
        }
        WindowStep::More(window)
    }
}

/// What a window holds of a file, cut short or not, is an image of the file.
proof fn lemma_image(window: WalWindow, image: WalImage, file: Seq<u8>)
    requires
        window.wf(),
        window.of_file(file),
        image.tail_base == window.base(),
        image.bytes@.len() <= window.bytes@.len(),
        image.bytes@ == window.bytes@.take(image.bytes@.len() as int),
        window.base() != 0 ==> WAL_HEADER_SIZE <= image.bytes@.len(),
    ensures
        wal::image_of_file(image, file),
{
    let n = image.bytes@.len() as int;
    assert forall|i: int| 0 <= i < n implies #[trigger] image.bytes@[i] == if i
        < WAL_HEADER_SIZE {
        file[i]
    } else {
        file[window.start + i - WAL_HEADER_SIZE]
    } by {
        assert(image.bytes@[i] == window.bytes@[i]);
    }
    if image.tail_base == 0 {
        assert(image.bytes@ =~= file.subrange(0, n));
    }
}

/// The end of the valid frames, from where a reader stopped: at the start of the
/// last frame that it accepted, or nowhere.
pub fn valid_end_of(page_size: u32, reader_offset: usize) -> (end: usize)
    requires
        page_size <= MAX_PAGE_SIZE,
        reader_offset + frame_bytes(page_size) <= usize::MAX,
    ensures
        end == if reader_offset == 0 {
            WAL_HEADER_SIZE as int
        } else {
            reader_offset + frame_bytes(page_size)
        },
{
    if reader_offset == 0 {
        WAL_HEADER_SIZE
    } else {
        reader_offset + (page_size as usize + WAL_FRAME_HEADER_SIZE)
    }
}

/// Of what a window holds, no more is dropped than the window before it held:
/// `before` was valid throughout, `after` is the window twice its size, and the
/// frames that were valid stay so.
pub proof fn law_look_ahead_is_at_most_one_window(
    before: WalWindow,
    after: WalWindow,
    valid_end: int,
)
    requires
        before.wf() && before.cursor == before.target(),
        after.wf() && after.cursor == after.target(),
        after.page_size == before.page_size && after.file_len == before.file_len && after.start
            == before.start,
        after.target_frames <= 2 * before.target_frames,
        valid_end >= before.cursor,
    ensures
        after.cursor - valid_end <= before.cursor - before.start,
{
    let frame = frame_bytes(before.page_size);
    let n: int = before.target_frames as int;
    let m: int = after.target_frames as int;
    assert(m * frame <= 2 * (n * frame)) by (nonlinear_arith)
        requires
            m <= 2 * n,
            frame > 0,
    ;
}

/// Where a bounded read ends: behind a whole number of frames, with less than a frame of the
/// file left; and where it can begin: at a frame of the file that is complete.
pub proof fn law_window_is_whole_frames(page_size: u32, file_len: int, start: int)
    requires
        32 <= file_len,
    ensures
        ({
            let frame = 24 + page_size;
            let end = complete_end_of(page_size, file_len);
            &&& 32 <= end <= file_len < end + frame
            &&& (end - 32) % frame == 0
            &&& can_begin(page_size, file_len, start) <==> 32 <= start && start + frame
                <= file_len && (start - 32) % frame == 0
        }),
{
    lemma_complete_end(page_size, file_len);
    let frame = 24 + page_size;
    let room = file_len - 32;
    let end = complete_end_of(page_size, file_len);
    let q = room / frame;
    assert(frame == frame_bytes(page_size));
    assert(room == q * frame + room % frame && 0 <= room % frame < frame) by (nonlinear_arith)
        requires
            q == room / frame,
            frame > 0,
    ;
    assert((q * frame) % frame == 0) by (nonlinear_arith)
        requires
            frame > 0,
    ;
    assert(end - 32 == q * frame);
    if 32 <= start && (start - 32) % frame == 0 {
        let k = (start - 32) / frame;
        assert(start - 32 == k * frame) by (nonlinear_arith)
            requires
                k == (start - 32) / frame,
                (start - 32) % frame == 0,
                frame > 0,
        ;
        if start < end {
            assert(k < q) by (nonlinear_arith)
                requires
                    k * frame < q * frame,
                    frame > 0,
            ;
            assert((k + 1) * frame <= q * frame) by (nonlinear_arith)
                requires
                    k + 1 <= q,
                    frame > 0,
            ;
            assert((k + 1) * frame == k * frame + frame) by (nonlinear_arith);
        }
        if start + frame <= file_len {
            assert(k < q) by (nonlinear_arith)
                requires
                    k * frame + frame <= q * frame + room % frame,
                    room % frame < frame,
                    frame > 0,
            ;
            assert(k * frame < q * frame) by (nonlinear_arith)
                requires
                    k < q,
                    frame > 0,
            ;
        }
    }
}

/// What an image of a window keeps: through the end of the valid frames, behind the header where
/// the window begins later in the file; and how far a window reads: as many frames as it is to
/// hold, or to the last complete one.
pub proof fn law_window_keeps_the_valid_frames(window: WalWindow, valid_end: int)
    requires
        window.wf(),
        valid_end >= window.start,
    ensures
        window.start == 32 ==> window.base() == 0 && window.kept(valid_end) == valid_end,
        window.start != 32 ==> window.base() == window.start && window.kept(valid_end) == 32
            + valid_end - window.start,
        window.target() <= window.complete_end,
        window.target() == window.complete_end || window.target() == window.start
            + window.target_frames * (24 + window.page_size),
        window.start + window.target_frames * (24 + window.page_size) <= window.complete_end
            ==> window.target() == window.start + window.target_frames * (24 + window.page_size),
        window.bytes@.len() == 32 + window.cursor - window.start,
{
}

/// A window holds the file's header and then the file from its start to where it has read.
pub proof fn law_window_holds_the_file(window: WalWindow, file: Seq<u8>, i: int)
    requires
        window.wf(),
        window.of_file(file),
    ensures
        0 <= i < 32 ==> window.bytes@[i] == file[i],
        window.start <= i < window.cursor ==> window.bytes@[32 + i - window.start] == file[i],
{
    assert(window.bytes@ == file.take(32) + file.subrange(
        window.start as int,
        window.cursor as int,
    ));
}

} // verus!
