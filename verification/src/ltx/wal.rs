//! The bytes of a write-ahead log.

use vstd::prelude::*;
use vstd::slice::*;

verus! {

/// The size of the WAL's header.
pub const WAL_HEADER_SIZE: usize = 32;

/// The size of the header before each frame's page.
pub const WAL_FRAME_HEADER_SIZE: usize = 24;

/// The number that the four bytes of `b` from `at` on spell, the first one most
/// significant.
pub open spec fn be(b: Seq<u8>, at: int) -> int {
    b[at] * 0x100_0000 + b[at + 1] * 0x1_0000 + b[at + 2] * 0x100 + b[at + 3]
}

/// The big-endian number in the first four bytes.
pub fn be_u32(b: &[u8]) -> (n: u32)
    requires
        b@.len() >= 4,
    ensures
        n == be(b@, 0),
{
    b[0] as u32 * 0x100_0000 + b[1] as u32 * 0x1_0000 + b[2] as u32 * 0x100 + b[3] as u32
}

/// The big-endian number in the four bytes from `at` on.
pub fn be_u32_at(b: &[u8], at: usize) -> (n: u32)
    requires
        at + 4 <= b@.len(),
    ensures
        n == be(b@, at as int),
{
    b[at] as u32 * 0x100_0000 + b[at + 1] as u32 * 0x1_0000 + b[at + 2] as u32 * 0x100 + b[at
        + 3] as u32
}

/// The two salts that a WAL's header carries.
pub open spec fn header_salts(header: Seq<u8>) -> (int, int) {
    (be(header, 16), be(header, 20))
}

/// The two salts that a WAL's header carries.
pub fn wal_salts(header: &[u8]) -> (salts: (u32, u32))
    requires
        header@.len() >= WAL_HEADER_SIZE,
    ensures
        (salts.0 as int, salts.1 as int) == header_salts(header@),
{
    (be_u32_at(header, 16), be_u32_at(header, 20))
}

/// The size of a WAL with this many pages. SQLite's pages have 65536 bytes at
/// most, so a `i64` holds it.
pub open spec fn wal_size_of(page_size: u32, page_n: u32) -> int {
    WAL_HEADER_SIZE + (WAL_FRAME_HEADER_SIZE + page_size) * page_n
}

/// The size of a WAL with this many pages, in 64-bit arithmetic.
pub fn calc_wal_size(page_size: u32, page_n: u32) -> (size: i64)
    requires
        wal_size_of(page_size, page_n) <= i64::MAX,
    ensures
        size == wal_size_of(page_size, page_n),
{
    proof {
        let frame = WAL_FRAME_HEADER_SIZE + page_size;
        assert(0 <= frame * page_n) by (nonlinear_arith)
            requires
                frame >= 0,
        ;
    }
    WAL_HEADER_SIZE as i64 + (WAL_FRAME_HEADER_SIZE as i64 + page_size as i64) * page_n as i64
}

/// What one read of the WAL holds: the whole file where `tail_base` is zero,
/// else the header and the file's bytes from `tail_base` on. Offsets stay those
/// of the file.
pub struct WalImage {
    pub bytes: Vec<u8>,
    pub tail_base: usize,
    pub file_len: usize,
}

/// Whether an image holds the file's bytes from `offset` to `offset + n`.
pub open spec fn image_holds(image: WalImage, offset: int, n: int) -> bool {
    if image.tail_base == 0 {
        0 <= offset && offset + n <= image.bytes@.len()
    } else if offset < WAL_HEADER_SIZE {
        0 <= offset && offset + n <= WAL_HEADER_SIZE && offset + n <= image.bytes@.len()
    } else {
        image.tail_base <= offset && WAL_HEADER_SIZE + offset - image.tail_base + n
            <= image.bytes@.len()
    }
}

/// Where an image holds the byte at `offset` of the file.
pub open spec fn image_index(image: WalImage, offset: int) -> int {
    if image.tail_base == 0 || offset < WAL_HEADER_SIZE {
        offset
    } else {
        WAL_HEADER_SIZE + offset - image.tail_base
    }
}

/// Whether an image is one of this file: its bytes are the file's, from the
/// start, or the header's and those from the tail base on.
pub open spec fn image_of_file(image: WalImage, file: Seq<u8>) -> bool {
    if image.tail_base == 0 {
        image.bytes@.is_prefix_of(file)
    } else {
        &&& WAL_HEADER_SIZE <= image.tail_base <= file.len()
        &&& WAL_HEADER_SIZE <= image.bytes@.len()
        &&& image.tail_base + (image.bytes@.len() - WAL_HEADER_SIZE) <= file.len()
        &&& forall|i: int|
            0 <= i < WAL_HEADER_SIZE ==> #[trigger] image.bytes@[i] == file[i]
        &&& forall|i: int|
            WAL_HEADER_SIZE <= i < image.bytes@.len() ==> #[trigger] image.bytes@[i]
                == file[image.tail_base + i - WAL_HEADER_SIZE]
    }
}

impl WalImage {
    /// The image of a whole file.
    pub fn whole(bytes: Vec<u8>) -> (image: Self)
        ensures
            image.bytes == bytes,
            image.tail_base == 0,
            image.file_len == bytes@.len(),
            image_of_file(image, bytes@),
    {
        let file_len: usize = bytes.len();
        proof {
            assert(bytes@.subrange(0, bytes@.len() as int) =~= bytes@);
        }
        WalImage { bytes, tail_base: 0, file_len }
    }

    /// The bytes of the file from `offset` on, or nothing where the image does
    /// not hold all `n` of them.
    pub fn slice(&self, offset: i64, n: usize) -> (out: Option<&[u8]>)
        ensures
            match out {
                Some(out) => image_holds(*self, offset as int, n as int) && out@
                    == self.bytes@.subrange(
                    image_index(*self, offset as int),
                    image_index(*self, offset as int) + n,
                ),
                None => !image_holds(*self, offset as int, n as int),
            },
    {
        if offset < 0 {
            return None;
        }
        let length: usize = self.bytes.len();
        let wanted: u64 = offset as u64;
        let base: u64 = self.tail_base as u64;
        let in_header: bool = wanted < WAL_HEADER_SIZE as u64;
        if base != 0 && !in_header && wanted < base {
            return None;
        }
        let from: u64 = if base == 0 || in_header {
            wanted
        } else {
            wanted - base
        };
        if from > length as u64 {
            return None;
        }
        let lead: usize = if base == 0 || in_header {
            0
        } else {
            WAL_HEADER_SIZE
        };
        let from: usize = from as usize;
        let limit: usize = if base != 0 && in_header && length > WAL_HEADER_SIZE {
            WAL_HEADER_SIZE
        } else {
            length
        };
        if limit < lead || from > limit - lead || n > limit - lead - from {
            return None;
        }
        let start: usize = lead + from;
        Some(slice_subrange(self.bytes.as_slice(), start, start + n))
    }

    /// The page of the frame at `offset`, which is the start of the frame's
    /// header.
    pub fn page(&self, offset: i64, page_size: u32) -> (page: Option<Vec<u8>>)
        requires
            offset <= i64::MAX - WAL_FRAME_HEADER_SIZE,
        ensures
            match page {
                Some(page) => {
                    &&& image_holds(
                        *self,
                        offset + WAL_FRAME_HEADER_SIZE,
                        page_size as int,
                    )
                    &&& page@ == self.bytes@.subrange(
                        image_index(*self, offset + WAL_FRAME_HEADER_SIZE),
                        image_index(*self, offset + WAL_FRAME_HEADER_SIZE) + page_size,
                    )
                },
                None => !image_holds(
                    *self,
                    offset + WAL_FRAME_HEADER_SIZE,
                    page_size as int,
                ),
            },
    {
        match self.slice(offset + WAL_FRAME_HEADER_SIZE as i64, page_size as usize) {
            Some(bytes) => Some(slice_to_vec(bytes)),
            None => None,
        }
    }
}

/// Whatever an image hands out are the file's own bytes at that offset, for
/// either shape of the image.
pub proof fn law_image_hands_out_the_file(image: WalImage, file: Seq<u8>, offset: int, n: int)
    requires
        image_of_file(image, file),
        image_holds(image, offset, n),
        n >= 0,
    ensures
        offset + n <= file.len(),
        image.bytes@.subrange(image_index(image, offset), image_index(image, offset) + n)
            == file.subrange(offset, offset + n),
{
    let from = image_index(image, offset);
    if image.tail_base == 0 {
        assert forall|i: int| 0 <= i < image.bytes@.len() implies #[trigger] image.bytes@[i]
            == file[i] by {
            assert(file.subrange(0, image.bytes@.len() as int)[i] == image.bytes@[i]);
        }
    }
    let held = image.bytes@.subrange(from, from + n);
    let wanted = file.subrange(offset, offset + n);
    assert forall|i: int| 0 <= i < n implies #[trigger] held[i] == wanted[i] by {
        assert(image.bytes@[from + i] == file[offset + i]);
    }
    assert(held =~= wanted);
}

/// A number is read from four bytes with the highest first: each byte is its digit of
/// that number, so different bytes give different numbers.
pub proof fn law_numbers_are_big_endian(b: Seq<u8>, at: int)
    requires
        0 <= at && at + 4 <= b.len(),
    ensures
        b[at] * 0x100_0000 <= be(b, at) < (b[at] + 1) * 0x100_0000,
        b[at + 1] * 0x1_0000 <= be(b, at) - b[at] * 0x100_0000 < (b[at + 1] + 1) * 0x1_0000,
        b[at + 2] * 0x100 <= be(b, at) - b[at] * 0x100_0000 - b[at + 1] * 0x1_0000 < (b[at + 2] + 1)
            * 0x100,
        (be(b, at) - b[at + 3]) % 0x100 == 0,
        be(b, at) == be(b.subrange(at, at + 4), 0),
{
    let s = b.subrange(at, at + 4);
    assert(s[0] == b[at] && s[1] == b[at + 1] && s[2] == b[at + 2] && s[3] == b[at + 3]);
}

/// A WAL header's salts are the numbers in its bytes 16 to 19 and 20 to 23.
pub proof fn law_salts_follow_the_header(header: Seq<u8>)
    requires
        header.len() >= 24,
    ensures
        header_salts(header).0 == be(header.subrange(16, 20), 0),
        header_salts(header).1 == be(header.subrange(20, 24), 0),
{
    law_numbers_are_big_endian(header, 16);
    law_numbers_are_big_endian(header, 20);
}

/// An empty WAL is its header of 32 bytes, and each frame adds its header of 24 bytes and
/// a page.
pub proof fn law_wal_grows_by_frames(page_size: u32, page_n: u32)
    ensures
        wal_size_of(page_size, 0) == 32,
        page_n < u32::MAX ==> wal_size_of(page_size, (page_n + 1) as u32) == wal_size_of(
            page_size,
            page_n,
        ) + 24 + page_size,
{
    assert((24 + page_size) * (page_n + 1) == (24 + page_size) * page_n + (24 + page_size))
        by (nonlinear_arith);
    assert((24 + page_size) * 0 == 0) by (nonlinear_arith);
}

/// An image hands out whatever it read of the file: of a whole one every range inside it,
/// and of one that holds a header and a tail every range of the header and every range of
/// the tail.
pub proof fn law_image_holds_what_was_read(image: WalImage, offset: int, n: int)
    requires
        n >= 0,
        0 <= offset,
        image.tail_base == 0 || image.tail_base >= 32,
        image.tail_base == 0 || image.bytes@.len() >= 32,
    ensures
        image.tail_base == 0 ==> (image_holds(image, offset, n) <==> offset + n
            <= image.bytes@.len()),
        image.tail_base != 0 && offset < 32 ==> (image_holds(image, offset, n) <==> offset + n
            <= 32),
        image.tail_base != 0 && offset >= 32 ==> (image_holds(image, offset, n) <==> image.tail_base
            <= offset && offset + n <= image.tail_base + image.bytes@.len() - 32),
{
}

} // verus!
