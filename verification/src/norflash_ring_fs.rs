//! A ring file system on NOR flash.
//!
//! The first `DIR_SIZE` bytes are the directory: a header, the location of each file in the
//! order they were written (zero once deleted), and an end-of-page pattern in the last four
//! bytes. The files follow, each starting on a page with its length, in a ring: when the end of
//! the flash is reached, writing goes on after the store's own header, and the oldest files
//! make room for new ones.
use vstd::prelude::*;
use crate::config::vendor::{le_u32, le_u32_bytes};
use crate::ring_fs::{FileDescriptor, FileState, RingFs, RingFsError, RingFsReader, RingFsWriter};

verus! {

/// What went wrong in a flash operation.
#[derive(Debug, Clone, Copy, PartialEq, Eq, Structural)]
pub enum FlashErrorKind {
    NotAligned,
    OutOfBounds,
    Other,
}

/// The bytes `buf` after writing `bytes` at `offset`: a written byte keeps only the bits set
/// in both the old and the new byte.
pub open spec fn flash_written(buf: Seq<u8>, offset: int, bytes: Seq<u8>) -> Seq<u8> {
    Seq::new(
        buf.len(),
        |i: int|
            if offset <= i < offset + bytes.len() {
                buf[i] & bytes[i - offset]
            } else {
                buf[i]
            },
    )
}

/// The bytes `buf` after erasing from `from` to `to`: every bit of those bytes set.
pub open spec fn flash_erased(buf: Seq<u8>, from: int, to: int) -> Seq<u8> {
    Seq::new(buf.len(), |i: int| if from <= i < to { 0xffu8 } else { buf[i] })
}

/// A NOR flash: erasing sets every bit of a range, writing can only clear bits.
pub trait NorFlash {
    spec fn spec_wf(&self) -> bool;

    /// The bytes the flash holds.
    spec fn contents(&self) -> Seq<u8>;

    /// The size of the blocks the flash erases.
    fn erase_size(&self) -> (r: u32)
        requires
            self.spec_wf(),
    ;

    /// Reads the bytes at `offset` into `bytes`.
    fn read(&mut self, offset: u32, bytes: &mut [u8]) -> (r: Result<(), FlashErrorKind>)
        requires
            old(self).spec_wf(),
        ensures
            final(self).spec_wf(),
            final(self).contents() == old(self).contents(),
            final(bytes)@.len() == old(bytes)@.len(),
            r is Ok ==> offset + old(bytes)@.len() <= old(self).contents().len() && final(bytes)@
                == old(self).contents().subrange(offset as int, offset + old(bytes)@.len()),
    ;

    /// Writes `bytes` at `offset`.
    fn write(&mut self, offset: u32, bytes: &[u8]) -> (r: Result<(), FlashErrorKind>)
        requires
            old(self).spec_wf(),
        ensures
            final(self).spec_wf(),
            final(self).contents().len() == old(self).contents().len(),
            r is Ok ==> offset + bytes@.len() <= old(self).contents().len() && final(self).contents()
                == flash_written(old(self).contents(), offset as int, bytes@),
    ;

    /// Erases the bytes from `from` to `to`.
    fn erase(&mut self, from: u32, to: u32) -> (r: Result<(), FlashErrorKind>)
        requires
            old(self).spec_wf(),
        ensures
            final(self).spec_wf(),
            final(self).contents().len() == old(self).contents().len(),
            r is Ok ==> from <= to <= old(self).contents().len() && final(self).contents()
                == flash_erased(old(self).contents(), from as int, to as int),
    ;
}

/// `n` erased bytes.
pub open spec fn blank(n: int) -> Seq<u8> {
    Seq::new(n as nat, |i: int| 0xffu8)
}

/// `page` with the little-endian bytes of `v` put at `o`.
pub open spec fn put_u32(page: Seq<u8>, o: int, v: u32) -> Seq<u8> {
    let b = le_u32_bytes(v);
    page.update(o, b[0]).update(o + 1, b[1]).update(o + 2, b[2]).update(o + 3, b[3])
}

/// The file system error for a flash error.
pub fn map_flash_error(err: FlashErrorKind) -> (r: RingFsError)
    ensures
        r == match err {
            FlashErrorKind::NotAligned => RingFsError::NotAligned,
            FlashErrorKind::OutOfBounds => RingFsError::OutOfBounds,
            FlashErrorKind::Other => RingFsError::Unknown,
        },
{
    match err {
        FlashErrorKind::NotAligned => RingFsError::NotAligned,
        FlashErrorKind::OutOfBounds => RingFsError::OutOfBounds,
        FlashErrorKind::Other => RingFsError::Unknown,
    }
}

/// The first bytes of a formatted header, big-endian.
pub const FORMAT_MAGIC_NUMBER: u32 = 0x6e0fac0b;

pub const FORMAT_VERSION: u8 = 2;

/// The last four bytes of a formatted directory.
pub const END_PAGE_PATTERN: u32 = 0x00ffff00;

/// The length of a header: the magic number, the version and directory size, and the disk
/// size.
pub const PREAMBLE_LEN: u32 = 12;

/// The length that marks where the ring of files ends and the location of its oldest file is
/// kept.
pub const RING_END_MARKER: u32 = 0x7fff_ffff;

/// `o` rounded down to a multiple of `a`.
pub open spec fn align_down(o: int, a: int) -> int {
    o - o % a
}

/// `o` rounded up to a multiple of `a`.
pub open spec fn align_up(o: int, a: int) -> int {
    align_down(o + a - 1, a)
}

/// The erase block size the file system uses on a flash whose erase blocks are `e` bytes:
/// a multiple of four, at least four, and enough blocks for `max_files` directory entries.
pub open spec fn fs_erase_size(e: int, max_files: int) -> int {
    let e0 = if (e / 4) * 4 < 4 {
        4
    } else {
        (e / 4) * 4
    };
    let need = if max_files * 4 + PREAMBLE_LEN + 8 < e0 {
        e0
    } else {
        max_files * 4 + PREAMBLE_LEN + 8
    };
    if (need / e0) * e0 < e0 {
        e0
    } else {
        (need / e0) * e0
    }
}

/// A ring file system on the flash `F`, at `BASE` in it, of `SIZE` bytes, with a directory of
/// `DIR_SIZE` bytes, writing whole pages of `PAGE_SIZE` bytes and keeping at most `MAX_FILES`
/// files.
pub struct NorflashRingFs<
    F: NorFlash,
    const BASE: usize,
    const SIZE: usize,
    const DIR_SIZE: u32,
    const PAGE_SIZE: usize,
    const MAX_FILES: u32,
> {
    pub flash: F,
    pub erase_size: u32,
    /// Where the next directory entry goes.
    pub next_file_index: u32,
    /// The directory entry of the oldest file kept.
    pub oldest_file_index: u32,
    /// Where the next file goes.
    pub free_index: u32,
    /// A page of four-byte values not yet written, at `cache_offset`; `u32::MAX` when none.
    pub write_cache: Vec<u8>,
    pub cache_offset: u32,
    /// Whether a file is open for writing.
    pub writer: bool,
    /// How many files are open for reading.
    pub read_counter: usize,
}

impl<
    F: NorFlash,
    const BASE: usize,
    const SIZE: usize,
    const DIR_SIZE: u32,
    const PAGE_SIZE: usize,
    const MAX_FILES: u32,
> NorflashRingFs<F, BASE, SIZE, DIR_SIZE, PAGE_SIZE, MAX_FILES> {
    /// The bounds on the file system's parameters that its arithmetic needs.
    pub open spec fn layout_ok() -> bool {
        &&& 4 <= PAGE_SIZE
        &&& PAGE_SIZE % 4 == 0
        &&& 20 <= DIR_SIZE
        &&& DIR_SIZE % 4 == 0
        &&& DIR_SIZE + PAGE_SIZE + 16 <= SIZE
        &&& SIZE <= 0x4000_0000
        &&& BASE + SIZE <= u32::MAX
        &&& 2 <= MAX_FILES <= 0x1000_0000
    }

    /// The erase size `e` fits the parameters.
    pub open spec fn erase_ok(e: int) -> bool {
        &&& PAGE_SIZE <= e <= DIR_SIZE
        &&& e % (PAGE_SIZE as int) == 0
        &&& (DIR_SIZE as int) % e == 0
        &&& (SIZE as int) % e == 0
        &&& (BASE as int) % (DIR_SIZE as int) == 0
    }

    /// Where the first file goes: the first page after the store's header.
    pub open spec fn spec_first_file_offset() -> int {
        align_up(DIR_SIZE + PREAMBLE_LEN, PAGE_SIZE as int)
    }

    pub open spec fn wf(&self) -> bool {
        &&& Self::layout_ok()
        &&& Self::erase_ok(self.erase_size as int)
        &&& self.flash.spec_wf()
        &&& PREAMBLE_LEN <= self.oldest_file_index <= self.next_file_index <= DIR_SIZE
        &&& self.oldest_file_index % 4 == 0
        &&& self.next_file_index % 4 == 0
        &&& self.free_index <= SIZE
        &&& self.write_cache@.len() == PAGE_SIZE
        &&& (self.cache_offset == u32::MAX || ((self.cache_offset as int) % (PAGE_SIZE as int) == 0
            && self.cache_offset + PAGE_SIZE <= SIZE))
        &&& (self.cache_offset == u32::MAX ==> self.write_cache@ == blank(PAGE_SIZE as int))
    }

    /// The bytes of the flash once the pending page is written.
    pub open spec fn pending(&self) -> Seq<u8> {
        if self.cache_offset == u32::MAX {
            self.flash.contents()
        } else {
            flash_written(self.flash.contents(), BASE + self.cache_offset, self.write_cache@)
        }
    }

    /// Whether the four bytes at `offset` lie in the pending page.
    pub open spec fn in_cache(&self, offset: int) -> bool {
        self.cache_offset <= offset && offset + 4 <= self.cache_offset + PAGE_SIZE
    }

    /// The four-byte value `read_u32` sees at `offset`: the flash's bytes, with the bits
    /// the pending page clears cleared when the bytes lie in it.
    pub open spec fn seen_u32(&self, offset: int) -> u32 {
        let f = self.flash.contents();
        let c = self.write_cache@;
        let at = BASE + offset;
        if self.in_cache(offset) {
            let o = offset - self.cache_offset;
            le_u32(seq![f[at] & c[o], f[at + 1] & c[o + 1], f[at + 2] & c[o + 2], f[at + 3] & c[o + 3]], 0)
        } else {
            le_u32(f, at)
        }
    }

    /// Where byte `p` of the file at `location` lies on the disk: past the end of the disk the
    /// file goes on after the length of the first file.
    pub open spec fn file_pos(location: int, p: int) -> int {
        if location + p < SIZE {
            location + p
        } else {
            location + p - SIZE + Self::spec_first_file_offset() + 4
        }
    }

    /// The flash bytes `c` after writing `data` from byte `off` of the file at `location`:
    /// the part before the end of the disk in place, the rest after the first file's length.
    pub open spec fn file_written(c: Seq<u8>, location: int, off: int, data: Seq<u8>) -> Seq<u8> {
        let start = location + off;
        if start + data.len() <= SIZE {
            flash_written(c, BASE + start, data)
        } else if start >= SIZE {
            flash_written(c, BASE + Self::file_pos(location, off), data)
        } else {
            let split = SIZE - start;
            flash_written(
                flash_written(c, BASE + start, data.subrange(0, split)),
                BASE + Self::spec_first_file_offset() + 4,
                data.subrange(split, data.len() as int),
            )
        }
    }

    /// Bytes written to a file read back as they were written, where the disk under them was
    /// erased: a piece of a file no longer than the room after the first file's length does
    /// not run over itself when it goes past the end of the disk.
    pub proof fn law_file_write_read(c: Seq<u8>, location: int, off: int, data: Seq<u8>)
        requires
            Self::layout_ok(),
            BASE + SIZE <= c.len(),
            0 <= location,
            0 <= off,
            data.len() <= SIZE - Self::spec_first_file_offset() - 4,
            forall|k: int|
                0 <= k < data.len() ==> 0 <= #[trigger] Self::file_pos(location, off + k) < SIZE,
            forall|k: int|
                0 <= k < data.len() ==> c[BASE + #[trigger] Self::file_pos(location, off + k)]
                    == 0xffu8,
        ensures
            forall|k: int|
                0 <= k < data.len() ==> Self::file_written(c, location, off, data)[BASE
                    + #[trigger] Self::file_pos(location, off + k)] == data[k],
    {
        let start = location + off;
        let ffo = Self::spec_first_file_offset();
        assert forall|k: int| 0 <= k < data.len() implies Self::file_written(c, location, off, data)[BASE
            + #[trigger] Self::file_pos(location, off + k)] == data[k] by {
            let x = data[k];
            lemma_erased_and(x);
            let pos = BASE + Self::file_pos(location, off + k);
            assert(c[pos] == 0xffu8);
            if start + data.len() <= SIZE {
            } else if start >= SIZE {
            } else {
                let split = SIZE - start;
                let d1 = data.subrange(0, split);
                let d2 = data.subrange(split, data.len() as int);
                let inner = flash_written(c, BASE + start, d1);
                if k < split {
                    assert(inner[pos] == c[pos] & d1[k]);
                } else {
                    assert(inner[pos] == c[pos]);
                    assert(d2[k - split] == x);
                }
            }
        }
    }

    /// The header of the directory and of the store.
    pub open spec fn spec_header() -> Seq<u8> {
        seq![0x6eu8, 0x0fu8, 0xacu8, 0x0bu8] + le_u32_bytes(((FORMAT_VERSION as u32) << 24u32) | DIR_SIZE)
            + le_u32_bytes(SIZE as u32)
    }

    /// Whether the flash bytes `c` hold a formatted header at `offset`, on a disk whose
    /// directory ends in the end-of-page pattern.
    pub open spec fn formatted(c: Seq<u8>, offset: int) -> bool {
        &&& le_u32(c, BASE + DIR_SIZE - 4) == END_PAGE_PATTERN
        &&& c.subrange(BASE + offset, BASE + offset + 12) == Self::spec_header()
    }

    /// Directory entry `i`: the location of a file, zero once deleted, all bits set when
    /// not used yet.
    pub open spec fn dir_entry(&self, i: int) -> u32 {
        self.seen_u32(PREAMBLE_LEN + 4 * i)
    }

    /// How many entries the directory holds before its end-of-page pattern.
    pub open spec fn dir_entries() -> int {
        (DIR_SIZE - PREAMBLE_LEN - 4) / 4
    }

    /// Whether the directory holds `a` deleted entries, then files up to entry `b`, then
    /// unused entries.
    pub open spec fn dir_shape(&self, a: int, b: int) -> bool {
        &&& 0 <= a <= b <= Self::dir_entries()
        &&& forall|i: int| 0 <= i < a ==> #[trigger] self.dir_entry(i) == 0
        &&& forall|i: int| a <= i < b ==> #[trigger] self.dir_entry(i) != 0 && self.dir_entry(i) != u32::MAX
        &&& forall|i: int| b <= i < Self::dir_entries() ==> #[trigger] self.dir_entry(i) == u32::MAX
    }

    /// Where the next file goes when the directory's next entry is at `next` and the newest
    /// file lies at `offset` with length `len`: the first file's place on an empty
    /// directory, else the page after the newest file, past the end of the disk after the
    /// first file's length; a length beyond the disk counts as one page.
    pub open spec fn free_after(next: int, offset: int, len: int) -> int {
        if next == PREAMBLE_LEN {
            Self::spec_first_file_offset()
        } else if len >= SIZE {
            if align_up(offset + PAGE_SIZE, PAGE_SIZE as int) > SIZE {
                DIR_SIZE + PREAMBLE_LEN
            } else {
                align_up(offset + PAGE_SIZE, PAGE_SIZE as int)
            }
        } else if align_up(offset + len, PAGE_SIZE as int) > SIZE {
            align_up(offset + len, PAGE_SIZE as int) - SIZE + Self::spec_first_file_offset()
        } else {
            align_up(offset + len, PAGE_SIZE as int)
        }
    }

    /// `offset` rounded down to the start of its erase block.
    pub fn align_start_erase(&self, offset: u32) -> (r: u32)
        requires
            self.erase_size >= 1,
        ensures
            r == align_down(offset as int, self.erase_size as int),
    {
        proof {
            lemma_align_down(offset as int, self.erase_size as int);
        }
        offset - (offset % self.erase_size)
    }

    /// `offset` rounded down to the start of its page.
    pub fn align_start_page(offset: u32) -> (r: u32)
        requires
            Self::layout_ok(),
        ensures
            r == align_down(offset as int, PAGE_SIZE as int),
    {
        proof {
            lemma_align_down(offset as int, PAGE_SIZE as int);
        }
        offset - (offset % (PAGE_SIZE as u32))
    }

    /// `offset` rounded up to the start of a page.
    pub fn align_next_page(offset: u32) -> (r: u32)
        requires
            Self::layout_ok(),
            offset + PAGE_SIZE <= u32::MAX,
        ensures
            r == align_up(offset as int, PAGE_SIZE as int),
            offset <= r < offset + PAGE_SIZE,
            (r as int) % (PAGE_SIZE as int) == 0,
    {
        proof {
            lemma_align_down((offset + PAGE_SIZE - 1) as int, PAGE_SIZE as int);
        }
        Self::align_start_page(offset + PAGE_SIZE as u32 - 1)
    }

    /// Where the first file goes.
    pub fn first_file_offset() -> (r: u32)
        requires
            Self::layout_ok(),
        ensures
            r == Self::spec_first_file_offset(),
            DIR_SIZE + PREAMBLE_LEN <= r < DIR_SIZE + PREAMBLE_LEN + PAGE_SIZE,
            (r as int) % (PAGE_SIZE as int) == 0,
    {
        Self::align_next_page(DIR_SIZE + PREAMBLE_LEN)
    }

    /// The header of the directory and of the store: the magic number, the version over the
    /// directory size, and the size of the disk.
    pub fn header_sequence() -> (r: Vec<u8>)
        requires
            Self::layout_ok(),
        ensures
            r@ == Self::spec_header(),
    {
        let mut out: Vec<u8> = Vec::new();
        out.push(0x6e);
        out.push(0x0f);
        out.push(0xac);
        out.push(0x0b);
        push_le_u32(&mut out, ((FORMAT_VERSION as u32) << 24) | DIR_SIZE);
        push_le_u32(&mut out, SIZE as u32);
        assert(out@ =~= seq![0x6eu8, 0x0fu8, 0xacu8, 0x0bu8] + le_u32_bytes(
            ((FORMAT_VERSION as u32) << 24u32) | DIR_SIZE,
        ) + le_u32_bytes(SIZE as u32));
        out
    }

    /// Writes the pending page of four-byte values, if any.
    pub fn commit_write_cache(&mut self) -> (r: Result<(), RingFsError>)
        requires
            old(self).wf(),
        ensures
            final(self).wf(),
            final(self).cache_offset == u32::MAX,
            final(self).same_indices(old(self)),
            final(self).flash.contents().len() == old(self).flash.contents().len(),
            r is Ok ==> final(self).flash.contents() == old(self).pending(),
    {
        if self.cache_offset != u32::MAX {
            let result = self.flash.write(BASE as u32 + self.cache_offset, self.write_cache.as_slice());
            self.write_cache = Self::blank_page();
            self.cache_offset = u32::MAX;
            if let Err(e) = result {
                return Err(map_flash_error(e));
            }
        }
        Ok(())
    }

    /// A page of erased bytes.
    pub fn blank_page() -> (r: Vec<u8>)
        ensures
            r@ == blank(PAGE_SIZE as int),
    {
        let mut page: Vec<u8> = Vec::new();
        let mut i: usize = 0;
        while i < PAGE_SIZE
            invariant
                i <= PAGE_SIZE,
                page@.len() == i,
                forall|k: int| 0 <= k < i ==> page@[k] == 0xffu8,
            decreases PAGE_SIZE - i,
        {
            page.push(0xff);
            i = i + 1;
        }
        assert(page@ =~= blank(PAGE_SIZE as int));
        page
    }

    /// Whether `other` has the same directory and free indices and pending page as `self`.
    pub open spec fn same_store(&self, other: &Self) -> bool {
        &&& self.erase_size == other.erase_size
        &&& self.next_file_index == other.next_file_index
        &&& self.oldest_file_index == other.oldest_file_index
        &&& self.free_index == other.free_index
        &&& self.cache_offset == other.cache_offset
        &&& self.write_cache == other.write_cache
    }

    /// Whether `other` has the same directory and free indices and open files as `self`.
    pub open spec fn same_indices(&self, other: &Self) -> bool {
        &&& self.erase_size == other.erase_size
        &&& self.next_file_index == other.next_file_index
        &&& self.oldest_file_index == other.oldest_file_index
        &&& self.free_index == other.free_index
        &&& self.writer == other.writer
        &&& self.read_counter == other.read_counter
    }

    /// Writes `data` at `offset`, after the pending page; an error when it does not fit.
    pub fn write(&mut self, offset: u32, data: &[u8]) -> (r: Result<(), RingFsError>)
        requires
            old(self).wf(),
        ensures
            final(self).wf(),
            final(self).cache_offset == u32::MAX,
            final(self).same_indices(old(self)),
            final(self).flash.contents().len() == old(self).flash.contents().len(),
            r is Ok ==> offset + data@.len() <= SIZE && BASE + offset + data@.len() <= old(
                self,
            ).flash.contents().len() && final(self).flash.contents() == flash_written(
                old(self).pending(),
                BASE + offset,
                data@,
            ),
    {
        self.commit_write_cache()?;
        if offset as usize > SIZE || data.len() > SIZE - offset as usize {
            return Err(RingFsError::OutOfBounds);
        }
        match self.flash.write(BASE as u32 + offset, data) {
            Ok(()) => Ok(()),
            Err(e) => Err(map_flash_error(e)),
        }
    }

    /// Erases from `from` to `to`, after writing the pending page.
    pub fn erase(&mut self, from: u32, to: u32) -> (r: Result<(), RingFsError>)
        requires
            old(self).wf(),
        ensures
            final(self).wf(),
            final(self).cache_offset == u32::MAX,
            final(self).same_indices(old(self)),
            final(self).flash.contents().len() == old(self).flash.contents().len(),
            r is Ok ==> from <= to <= SIZE && BASE + to <= old(self).flash.contents().len()
                && final(self).flash.contents() == flash_erased(
                old(self).pending(),
                BASE + from,
                BASE + to,
            ),
    {
        self.commit_write_cache()?;
        if from > to || to as usize > SIZE {
            return Err(RingFsError::OutOfBounds);
        }
        match self.flash.erase(BASE as u32 + from, BASE as u32 + to) {
            Ok(()) => Ok(()),
            Err(e) => Err(map_flash_error(e)),
        }
    }

    /// Reads the bytes at `offset` into `data`; an error when they are not on the disk.
    pub fn read(&mut self, offset: u32, data: &mut [u8]) -> (r: Result<(), RingFsError>)
        requires
            old(self).wf(),
        ensures
            final(self).wf(),
            final(self).cache_offset == old(self).cache_offset,
            final(self).write_cache == old(self).write_cache,
            final(self).same_indices(old(self)),
            final(data)@.len() == old(data)@.len(),
            final(self).flash.contents() == old(self).flash.contents(),
            offset + old(data)@.len() > SIZE ==> r == Err::<(), RingFsError>(RingFsError::OutOfBounds),
            r is Ok ==> offset + old(data)@.len() <= SIZE && BASE + offset + old(data)@.len()
                <= old(self).flash.contents().len() && final(data)@ == old(
                self,
            ).flash.contents().subrange(BASE + offset, BASE + offset + old(data)@.len()),
    {
        if offset as usize > SIZE || data.len() > SIZE - offset as usize {
            return Err(RingFsError::OutOfBounds);
        }
        match self.flash.read(BASE as u32 + offset, data) {
            Ok(()) => Ok(()),
            Err(e) => Err(map_flash_error(e)),
        }
    }

    /// Puts the four-byte value `value` at `offset` in the pending page, writing the pending
    /// page first when `offset` is not in it.
    pub fn write_u32(&mut self, offset: u32, value: u32) -> (r: Result<(), RingFsError>)
        requires
            old(self).wf(),
        ensures
            final(self).wf(),
            final(self).same_indices(old(self)),
            final(self).flash.contents().len() == old(self).flash.contents().len(),
            offset % 4 != 0 || offset >= SIZE ==> r == Err::<(), RingFsError>(RingFsError::NotAligned)
                && *final(self) == *old(self),
            r is Ok ==> {
                let fresh = !old(self).in_cache(offset as int);
                &&& final(self).cache_offset == (if fresh {
                    align_down(offset as int, PAGE_SIZE as int)
                } else {
                    old(self).cache_offset as int
                })
                &&& final(self).flash.contents() == (if fresh {
                    old(self).pending()
                } else {
                    old(self).flash.contents()
                })
                &&& final(self).write_cache@ == put_u32(
                    if fresh {
                        blank(PAGE_SIZE as int)
                    } else {
                        old(self).write_cache@
                    },
                    offset - final(self).cache_offset,
                    value,
                )
            },
    {
        if offset % 4 != 0 || offset as usize >= SIZE {
            return Err(RingFsError::NotAligned);
        }
        if offset < self.cache_offset || offset + 4 > self.cache_offset + PAGE_SIZE as u32 {
            if self.cache_offset != u32::MAX {
                self.commit_write_cache()?;
            }
            self.cache_offset = Self::align_start_page(offset);
            proof {
                lemma_mod_trans(SIZE as int, self.erase_size as int, PAGE_SIZE as int);
                lemma_align_down_fits(offset as int, PAGE_SIZE as int, SIZE as int);
                lemma_aligned_slot(offset as int, PAGE_SIZE as int);
            }
        }
        let o = (offset % PAGE_SIZE as u32) as usize;
        proof {
            lemma_slot_in_page(offset as int, self.cache_offset as int, PAGE_SIZE as int);
        }
        let bytes = le_u32_bytes_exec(value);
        self.write_cache.set(o, bytes[0]);
        self.write_cache.set(o + 1, bytes[1]);
        self.write_cache.set(o + 2, bytes[2]);
        self.write_cache.set(o + 3, bytes[3]);
        Ok(())
    }

    /// The four-byte value at `offset`, with the pending page's bits cleared in it.
    pub fn read_u32(&mut self, offset: u32) -> (r: Result<u32, RingFsError>)
        requires
            old(self).wf(),
        ensures
            final(self).wf(),
            r is Ok ==> offset + 4 <= SIZE && BASE + offset + 4 <= old(self).flash.contents().len(),
            r matches Ok(v) ==> v == old(self).seen_u32(offset as int),
            offset + 4 > SIZE ==> r == Err::<u32, RingFsError>(RingFsError::OutOfBounds),
            final(self).flash.contents() == old(self).flash.contents(),
            final(self).cache_offset == old(self).cache_offset,
            final(self).write_cache == old(self).write_cache,
            final(self).same_indices(old(self)),
    {
        let mut data: Vec<u8> = vec![0u8, 0u8, 0u8, 0u8];
        self.read(offset, data.as_mut_slice())?;
        let ghost f = self.flash.contents();
        let ghost at = BASE + offset;
        assert(data@[0] == f[at] && data@[1] == f[at + 1] && data@[2] == f[at + 2] && data@[3]
            == f[at + 3]);
        if offset >= self.cache_offset && offset as u64 + 4 <= self.cache_offset as u64
            + PAGE_SIZE as u64 {
            let o = (offset % PAGE_SIZE as u32) as usize;
            proof {
                lemma_slot_in_page(offset as int, self.cache_offset as int, PAGE_SIZE as int);
            }
            data.set(0, data[0] & self.write_cache[o]);
            data.set(1, data[1] & self.write_cache[o + 1]);
            data.set(2, data[2] & self.write_cache[o + 2]);
            data.set(3, data[3] & self.write_cache[o + 3]);
            let ghost c = self.write_cache@;
            assert(data@ =~= seq![f[at] & c[o as int], f[at + 1] & c[o + 1], f[at + 2] & c[o + 2], f[at + 3] & c[o + 3]]);
        }
        Ok(read_le_u32_slice(data.as_slice()))
    }
}

impl<
    F: NorFlash,
    const BASE: usize,
    const SIZE: usize,
    const DIR_SIZE: u32,
    const PAGE_SIZE: usize,
    const MAX_FILES: u32,
> NorflashRingFs<F, BASE, SIZE, DIR_SIZE, PAGE_SIZE, MAX_FILES> {
    /// Whether the header at `offset` is a formatted one, on a disk whose directory ends in
    /// the end-of-page pattern.
    pub fn check_formatted(&mut self, offset: u32) -> (r: Result<bool, RingFsError>)
        requires
            old(self).wf(),
        ensures
            final(self).wf(),
            final(self).same_indices(old(self)),
            final(self).flash.contents() == old(self).flash.contents(),
            final(self).cache_offset == old(self).cache_offset,
            final(self).write_cache == old(self).write_cache,
            r matches Ok(b) ==> b == Self::formatted(old(self).flash.contents(), offset as int),
            offset + 12 > SIZE ==> r != Ok::<bool, RingFsError>(true),
    {
        let ghost c = self.flash.contents();
        let mut end_page: Vec<u8> = vec![0u8, 0u8, 0u8, 0u8];
        self.read(DIR_SIZE - 4, end_page.as_mut_slice())?;
        if read_le_u32_slice(end_page.as_slice()) != END_PAGE_PATTERN {
            return Ok(false);
        }
        let mut check: Vec<u8> = vec![0u8, 0u8, 0u8, 0u8, 0u8, 0u8, 0u8, 0u8, 0u8, 0u8, 0u8, 0u8];
        self.read(offset, check.as_mut_slice())?;
        let seq = Self::header_sequence();
        Ok(same_bytes(check.as_slice(), seq.as_slice()))
    }

    /// Formats the header at `offset`: the directory's when `offset` is zero, else the
    /// store's.
    pub fn create_header_page(&mut self, offset: u32) -> (r: Result<(), RingFsError>)
        requires
            old(self).wf(),
            offset == 0 || offset == DIR_SIZE,
        ensures
            final(self).wf(),
            final(self).same_indices(old(self)),
            r is Ok && offset == 0 ==> Self::formatted(final(self).flash.contents(), 0),
            r is Ok && offset == DIR_SIZE && old(self).erase_size >= 12 ==> final(self).flash.contents().subrange(
                BASE + DIR_SIZE,
                BASE + DIR_SIZE + 12,
            ) == Self::spec_header(),
    {
        let end = if offset == 0 {
            DIR_SIZE
        } else {
            offset + self.erase_size
        };
        self.erase(offset, end)?;
        let ghost c1 = self.flash.contents();
        let header = Self::header_sequence();
        self.write(offset, header.as_slice())?;
        let ghost c2 = self.flash.contents();
        assert forall|i: int| 0 <= i < 12 && offset + 12 <= end implies c2[BASE + offset + i]
            == header@[i] by {
            let h = header@[i];
            assert(c1[BASE + offset + i] == 0xffu8);
            lemma_erased_and(h);
        }
        if offset == 0 {
            let pattern = le_u32_bytes_exec(END_PAGE_PATTERN);
            self.write(DIR_SIZE - 4, &pattern)?;
            let ghost c3 = self.flash.contents();
            proof {
                let b = le_u32_bytes(END_PAGE_PATTERN);
                assert forall|i: int| 0 <= i < 4 implies c3[BASE + DIR_SIZE - 4 + i] == b[i] by {
                    let x = b[i];
                    assert(c1[BASE + DIR_SIZE - 4 + i] == 0xffu8);
                    assert(c2[BASE + DIR_SIZE - 4 + i] == 0xffu8);
                    lemma_erased_and(x);
                }
                lemma_le_u32_bytes(END_PAGE_PATTERN);
                assert(c3.subrange(BASE as int, BASE + 12) =~= Self::spec_header());
            }
        } else {
            proof {
                if old(self).erase_size >= 12 {
                    assert(self.flash.contents().subrange(BASE + DIR_SIZE, BASE + DIR_SIZE + 12)
                        =~= Self::spec_header());
                }
            }
        }
        Ok(())
    }

    /// Finds the directory entries in use: the first unused entry by binary search, then the
    /// first entry not deleted before it.
    pub fn init_dir_indices(&mut self) -> (r: Result<(), RingFsError>)
        requires
            old(self).wf(),
        ensures
            final(self).wf(),
            final(self).free_index == old(self).free_index,
            final(self).writer == old(self).writer,
            final(self).read_counter == old(self).read_counter,
            final(self).flash.contents() == old(self).flash.contents(),
            forall|a: int, b: int|
                old(self).dir_shape(a, b) && r is Ok ==> final(self).next_file_index == PREAMBLE_LEN
                    + 4 * b && final(self).oldest_file_index == PREAMBLE_LEN + 4 * a,
    {
        let ghost shaped = exists|a: int, b: int| old(self).dir_shape(a, b);
        let ghost ab = choose|ab: (int, int)| old(self).dir_shape(ab.0, ab.1);
        proof {
            if shaped {
                let (a, b) = choose|a: int, b: int| old(self).dir_shape(a, b);
                assert(old(self).dir_shape(a, b));
            }
        }
        let mut start: u32 = 0;
        let mut end: u32 = (DIR_SIZE - PREAMBLE_LEN - 4) / 4;
        let mut live_start: u32 = 0;
        let ghost top = end;
        while start < end
            invariant
                self.wf(),
                live_start <= start <= end <= top,
                top == (DIR_SIZE - PREAMBLE_LEN - 4) / 4,
                self.free_index == old(self).free_index,
                self.writer == old(self).writer,
                self.read_counter == old(self).read_counter,
                self.flash.contents() == old(self).flash.contents(),
                self.cache_offset == old(self).cache_offset,
                self.write_cache == old(self).write_cache,
                shaped ==> old(self).dir_shape(ab.0, ab.1),
                shaped ==> live_start <= ab.0 && start <= ab.1 <= end,
            decreases end - start,
        {
            let mid = (start + end) / 2;
            let v = self.read_u32(PREAMBLE_LEN + mid * 4)?;
            assert(v == old(self).dir_entry(mid as int));
            if v == u32::MAX {
                end = mid;
            } else {
                start = mid + 1;
                if v == 0 {
                    live_start = start;
                }
            }
        }
        while live_start < end
            invariant
                self.wf(),
                live_start <= end <= start <= top,
                top == (DIR_SIZE - PREAMBLE_LEN - 4) / 4,
                self.free_index == old(self).free_index,
                self.writer == old(self).writer,
                self.read_counter == old(self).read_counter,
                self.flash.contents() == old(self).flash.contents(),
                self.cache_offset == old(self).cache_offset,
                self.write_cache == old(self).write_cache,
                shaped ==> old(self).dir_shape(ab.0, ab.1),
                shaped ==> start == ab.1 && live_start <= ab.0 <= end,
            decreases end - live_start,
        {
            let mid = (live_start + end) / 2;
            let v = self.read_u32(PREAMBLE_LEN + mid * 4)?;
            assert(v == old(self).dir_entry(mid as int));
            if v != 0 {
                end = mid;
            } else {
                live_start = mid + 1;
            }
        }
        proof {
            assert forall|a: int, b: int| old(self).dir_shape(a, b) implies start == b
                && live_start == a by {
                assert(shaped);
                lemma_dir_shape_unique::<F, BASE, SIZE, DIR_SIZE, PAGE_SIZE, MAX_FILES>(*old(self), a, b, ab.0, ab.1);
            }
        }
        self.next_file_index = PREAMBLE_LEN + start * 4;
        self.oldest_file_index = PREAMBLE_LEN + live_start * 4;
        Ok(())
    }

    /// The first page after `offset`'s page, or the first after the store's header past the
    /// end of the disk.
    pub fn next_page(&self, offset: u32) -> (r: u32)
        requires
            Self::layout_ok(),
            offset <= SIZE,
        ensures
            r <= SIZE,
            r == if align_up(offset + PAGE_SIZE, PAGE_SIZE as int) > SIZE {
                DIR_SIZE + PREAMBLE_LEN
            } else {
                align_up(offset + PAGE_SIZE, PAGE_SIZE as int)
            },
    {
        let next = Self::align_next_page(offset + PAGE_SIZE as u32);
        if next as usize > SIZE {
            DIR_SIZE + PREAMBLE_LEN
        } else {
            next
        }
    }

    /// Sets where the next file goes: after the newest file.
    pub fn find_free_index(&mut self) -> (r: Result<(), RingFsError>)
        requires
            old(self).wf(),
        ensures
            final(self).wf(),
            final(self).next_file_index == old(self).next_file_index,
            final(self).oldest_file_index == old(self).oldest_file_index,
            final(self).writer == old(self).writer,
            final(self).read_counter == old(self).read_counter,
            final(self).flash.contents() == old(self).flash.contents(),
            final(self).cache_offset == old(self).cache_offset,
            final(self).write_cache == old(self).write_cache,
            old(self).next_file_index == PREAMBLE_LEN ==> r is Ok,
            r is Ok ==> final(self).free_index == Self::free_after(
                old(self).next_file_index as int,
                old(self).seen_u32(old(self).next_file_index - 4) as int,
                old(self).seen_u32(old(self).seen_u32(old(self).next_file_index - 4) as int) as int,
            ),
    {
        if self.next_file_index == PREAMBLE_LEN {
            self.free_index = Self::first_file_offset();
        } else {
            let offset = self.read_u32(self.next_file_index - 4)?;
            let len = self.read_u32(offset)?;
            if len as usize >= SIZE {
                self.free_index = self.next_page(offset);
            } else {
                let mut free = Self::align_next_page(offset + len);
                if free as usize > SIZE {
                    free = free - SIZE as u32 + Self::first_file_offset();
                }
                if free as usize > SIZE {
                    return Err(RingFsError::UnrecoverableDisk);
                }
                self.free_index = free;
            }
        }
        Ok(())
    }

    /// Deletes the oldest file, if any.
    pub fn delete_oldest(&mut self) -> (r: Result<(), RingFsError>)
        requires
            old(self).wf(),
        ensures
            final(self).wf(),
            final(self).next_file_index == old(self).next_file_index,
            final(self).free_index == old(self).free_index,
            final(self).writer == old(self).writer,
            final(self).read_counter == old(self).read_counter,
            old(self).oldest_file_index >= old(self).next_file_index ==> r is Ok && *final(self) == *old(self),
            r is Ok ==> final(self).oldest_file_index == if old(self).oldest_file_index < old(
                self,
            ).next_file_index {
                old(self).oldest_file_index + 4
            } else {
                old(self).oldest_file_index as int
            },
    {
        if self.oldest_file_index < self.next_file_index {
            self.write_u32(self.oldest_file_index, 0)?;
            self.oldest_file_index = self.oldest_file_index + 4;
        }
        Ok(())
    }

    /// Deletes the oldest files that lie from `start` to `end`, and erases that space.
    pub fn clear_space(&mut self, start: u32, end: u32) -> (r: Result<(), RingFsError>)
        requires
            old(self).wf(),
        ensures
            final(self).wf(),
            final(self).next_file_index == old(self).next_file_index,
            final(self).free_index == old(self).free_index,
            final(self).writer == old(self).writer,
            final(self).read_counter == old(self).read_counter,
            r is Ok ==> start <= end <= SIZE && forall|i: int|
                #![trigger final(self).flash.contents()[BASE + i]]
                start <= i < end && !(start == DIR_SIZE && i < DIR_SIZE + 12) ==> final(self).flash.contents()[BASE
                    + i] == 0xffu8,
            r is Ok && start == DIR_SIZE && DIR_SIZE + 12 <= end ==> final(self).flash.contents().subrange(
                BASE + DIR_SIZE,
                BASE + DIR_SIZE + 12,
            ) == Self::spec_header(),
    {
        while self.oldest_file_index < self.next_file_index
            invariant
                self.wf(),
                self.next_file_index == old(self).next_file_index,
                self.free_index == old(self).free_index,
                self.writer == old(self).writer,
                self.read_counter == old(self).read_counter,
            decreases self.next_file_index - self.oldest_file_index,
        {
            let offset = self.read_u32(self.oldest_file_index)?;
            if offset < start || offset >= end {
                break;
            }
            self.delete_oldest()?;
        }
        self.erase(start, end)?;
        let ghost c1 = self.flash.contents();
        if start == DIR_SIZE {
            let header = Self::header_sequence();
            self.write(DIR_SIZE, header.as_slice())?;
            proof {
                assert forall|i: int| 0 <= i < 12 && DIR_SIZE + 12 <= end implies self.flash.contents()[BASE
                    + DIR_SIZE + i] == header@[i] by {
                    lemma_erased_and(header@[i]);
                }
                if DIR_SIZE + 12 <= end {
                    assert(self.flash.contents().subrange(BASE + DIR_SIZE, BASE + DIR_SIZE + 12) =~= Self::spec_header());
                }
            }
        }
        Ok(())
    }

    /// Makes room for a file of `len` bytes where the next file goes, deleting the files in
    /// the way, and returns where it starts; the ring wraps past the end of the disk.
    pub fn free_space(&mut self, len: u32) -> (r: Result<u32, RingFsError>)
        requires
            old(self).wf(),
            len + 4 + Self::spec_first_file_offset() <= SIZE,
        ensures
            final(self).wf(),
            final(self).next_file_index == old(self).next_file_index,
            final(self).writer == old(self).writer,
            final(self).read_counter == old(self).read_counter,
            r matches Ok(start) ==> start == old(self).free_index,
            len == 0 ==> r == Ok::<u32, RingFsError>(old(self).free_index) && *final(self) == *old(self),
            len != 0 && align_down(align_up(old(self).free_index + len, PAGE_SIZE as int), old(self).erase_size as int)
                <= align_down(old(self).free_index as int, old(self).erase_size as int) ==> ({
                let pend = align_up(old(self).free_index + len, PAGE_SIZE as int);
                &&& pend > SIZE ==> r == Err::<u32, RingFsError>(RingFsError::OutOfSpace)
                &&& pend <= SIZE ==> r == Ok::<u32, RingFsError>(old(self).free_index) && final(self).free_index == pend
                    && final(self).flash == old(self).flash
            }),
    {
        if len == 0 {
            return Ok(self.free_index);
        }
        let start = self.free_index;
        let e = self.erase_size;
        let ffo = Self::first_file_offset();
        let start_eend = self.align_start_erase(start);
        let mut pend = Self::align_next_page(start + len);
        proof {
            lemma_align_down(pend as int, e as int);
            lemma_align_down(start as int, e as int);
        }
        if self.align_start_erase(pend) > start_eend {
            let estart = start_eend + e;
            if (pend as usize) < SIZE {
                let pe = self.align_start_erase(pend);
                self.clear_space(estart, pe + e)?;
            } else {
                pend = Self::align_next_page(start + len + 4 + ffo - SIZE as u32);
                if (estart as usize) < SIZE {
                    self.clear_space(estart, SIZE as u32)?;
                }
                proof {
                    lemma_align_down(pend as int, e as int);
                }
                let pe = self.align_start_erase(pend);
                self.clear_space(DIR_SIZE, pe + e)?;
                if pend > ffo {
                    self.write_u32(ffo, pend - ffo)?;
                    self.commit_write_cache()?;
                }
            }
        }
        if pend as usize > SIZE {
            return Err(RingFsError::OutOfSpace);
        }
        self.free_index = pend;
        Ok(start)
    }

    /// Claims the next directory entry, recycling the directory when it is full and deleting
    /// the oldest files beyond the most kept.
    pub fn next_file_index(&mut self) -> (r: Result<u32, RingFsError>)
        requires
            old(self).wf(),
        ensures
            final(self).wf(),
            final(self).writer == old(self).writer,
            final(self).read_counter == old(self).read_counter,
            r matches Ok(index) ==> index + 4 == final(self).next_file_index && index % 4 == 0
                && PREAMBLE_LEN <= index,
            old(self).next_file_index < DIR_SIZE - 4 && (old(self).next_file_index - old(self).oldest_file_index
                + 4) / 4 < MAX_FILES ==> r == Ok::<u32, RingFsError>(old(self).next_file_index) && final(self).flash
                == old(self).flash && final(self).oldest_file_index == old(self).oldest_file_index,
    {
        if self.next_file_index >= DIR_SIZE - 4 {
            self.recycle_dir_page()?;
        }
        if self.next_file_index >= DIR_SIZE {
            return Err(RingFsError::UnrecoverableDisk);
        }
        let index = self.next_file_index;
        while (index - self.oldest_file_index + 4) / 4 >= MAX_FILES
            invariant
                self.wf(),
                self.next_file_index == index,
                index < DIR_SIZE,
                self.writer == old(self).writer,
                self.read_counter == old(self).read_counter,
                (old(self).next_file_index < DIR_SIZE - 4 && (old(self).next_file_index - old(
                    self,
                ).oldest_file_index + 4) / 4 < MAX_FILES) ==> self.flash == old(self).flash
                    && self.oldest_file_index == old(self).oldest_file_index && index == old(self).next_file_index,
            decreases index - self.oldest_file_index,
        {
            self.delete_oldest()?;
        }
        self.next_file_index = self.next_file_index + 4;
        Ok(index)
    }

    /// Where the file after the one of `len` bytes at `offset` starts; for the end of the
    /// ring, the oldest file kept at the start of the erase block after it.
    pub fn next_file_offset(&mut self, offset: u32, len: u32) -> (r: Result<u32, RingFsError>)
        requires
            old(self).wf(),
            offset + 4 <= SIZE,
        ensures
            final(self).wf(),
            final(self).same_indices(old(self)),
            len == u32::MAX ==> r == Ok::<u32, RingFsError>(
                (if align_up(offset + PAGE_SIZE, PAGE_SIZE as int) > SIZE {
                    DIR_SIZE + PREAMBLE_LEN
                } else {
                    align_up(offset + PAGE_SIZE, PAGE_SIZE as int)
                }) as u32,
            ),
            len == RING_END_MARKER ==> ({
                let mark = align_down(offset as int, old(self).erase_size as int) + old(self).erase_size;
                let at = if mark >= SIZE {
                    align_down(Self::spec_first_file_offset(), old(self).erase_size as int) + old(self).erase_size
                } else {
                    mark
                };
                r matches Ok(v) ==> v == old(self).seen_u32(at)
            }),
            len != u32::MAX && len != RING_END_MARKER && len > SIZE ==> r == Err::<u32, RingFsError>(
                RingFsError::UnrecoverableDisk,
            ),
            len != u32::MAX && len != RING_END_MARKER && len <= SIZE ==> r == Ok::<u32, RingFsError>(
                (if align_up(offset + len, PAGE_SIZE as int) < SIZE {
                    align_up(offset + len, PAGE_SIZE as int)
                } else {
                    align_up(offset + len + 4 + Self::spec_first_file_offset() - SIZE, PAGE_SIZE as int)
                }) as u32,
            ),
    {
        if len == u32::MAX {
            Ok(self.next_page(offset))
        } else if len == RING_END_MARKER {
            let e = self.erase_size;
            proof {
                lemma_align_down(offset as int, e as int);
            }
            let mut mark = self.align_start_erase(offset) + e;
            if mark as usize >= SIZE {
                let ffo = Self::first_file_offset();
                proof {
                    lemma_align_down(ffo as int, e as int);
                }
                mark = self.align_start_erase(ffo) + e;
            }
            self.read_u32(mark)
        } else if len as usize > SIZE {
            Err(RingFsError::UnrecoverableDisk)
        } else {
            let pend = Self::align_next_page(offset + len);
            if (pend as usize) < SIZE {
                Ok(pend)
            } else {
                Ok(Self::align_next_page(offset + len + 4 + Self::first_file_offset() - SIZE as u32))
            }
        }
    }

    /// Rewrites the directory from the files in the ring, oldest first from `oldest` up to
    /// the end-of-ring marker.
    pub fn rebuild_dir(&mut self, oldest: u32) -> (r: Result<(), RingFsError>)
        requires
            old(self).wf(),
        ensures
            final(self).wf(),
            final(self).writer == old(self).writer,
            final(self).read_counter == old(self).read_counter,
            r is Ok ==> final(self).oldest_file_index == PREAMBLE_LEN && PREAMBLE_LEN <= final(self).next_file_index
                <= DIR_SIZE - 4 && final(self).next_file_index % 4 == 0,
    {
        self.erase(0, DIR_SIZE)?;
        self.oldest_file_index = PREAMBLE_LEN;
        let mut index: u32 = PREAMBLE_LEN;
        let mut offset: u32 = oldest;
        loop
            invariant
                self.wf(),
                self.oldest_file_index == PREAMBLE_LEN,
                PREAMBLE_LEN <= index <= DIR_SIZE - 4,
                index % 4 == 0,
                self.writer == old(self).writer,
                self.read_counter == old(self).read_counter,
                self.erase_size == old(self).erase_size,
            decreases DIR_SIZE - index,
        {
            let len = self.read_u32(offset)?;
            if len == RING_END_MARKER {
                break;
            }
            if index + 4 > DIR_SIZE - 4 {
                return Err(RingFsError::UnrecoverableDisk);
            }
            self.write_u32(index, offset)?;
            index = index + 4;
            offset = self.next_file_offset(offset, len)?;
        }
        self.next_file_index = index;
        self.find_free_index()?;
        let header = Self::header_sequence();
        self.write(0, header.as_slice())?;
        let pattern = le_u32_bytes_exec(END_PAGE_PATTERN);
        self.write(DIR_SIZE - 4, &pattern)?;
        Ok(())
    }

    /// Starts the directory afresh: marks the end of the ring where the next file goes, keeps
    /// the oldest file's location after it, and rebuilds the directory from the ring.
    pub fn recycle_dir_page(&mut self) -> (r: Result<(), RingFsError>)
        requires
            old(self).wf(),
        ensures
            final(self).wf(),
            final(self).writer == old(self).writer,
            final(self).read_counter == old(self).read_counter,
            r is Ok ==> final(self).oldest_file_index == PREAMBLE_LEN && PREAMBLE_LEN <= final(self).next_file_index
                <= DIR_SIZE - 4 && final(self).next_file_index % 4 == 0,
    {
        let free_index = self.free_index;
        let e = self.erase_size;
        proof {
            lemma_align_down(free_index as int, e as int);
        }
        let mut estart = self.align_start_erase(free_index) + e;
        if estart as usize + e as usize > SIZE {
            let ffo = Self::first_file_offset();
            proof {
                lemma_align_down(ffo as int, e as int);
            }
            estart = self.align_start_erase(ffo) + e;
            self.clear_space(DIR_SIZE, estart + e)?;
            self.write_u32(ffo, RING_END_MARKER)?;
        } else {
            self.clear_space(estart, estart + e)?;
        }
        let oldest = self.read_u32(self.oldest_file_index)?;
        self.write_u32(free_index, RING_END_MARKER)?;
        self.write_u32(estart, oldest)?;
        self.rebuild_dir(oldest)
    }

    /// Rebuilds a lost directory from the ring of files: follows the files from the first
    /// place to the end-of-ring marker, which tells where the oldest file is.
    pub fn recover_dir_from_store(&mut self) -> (r: Result<(), RingFsError>)
        requires
            old(self).wf(),
        ensures
            final(self).wf(),
            final(self).writer == old(self).writer,
            final(self).read_counter == old(self).read_counter,
            r is Ok ==> Self::formatted(final(self).flash.contents(), 0) || (final(self).oldest_file_index
                == PREAMBLE_LEN && PREAMBLE_LEN <= final(self).next_file_index <= DIR_SIZE - 4
                && final(self).next_file_index % 4 == 0),
    {
        let mut offset: u32 = Self::first_file_offset();
        let mut len = self.read_u32(offset)?;
        if len == u32::MAX {
            self.create_header_page(0)?;
            return Ok(());
        }
        loop
            invariant
                self.wf(),
                offset + 4 <= SIZE,
                self.writer == old(self).writer,
                self.read_counter == old(self).read_counter,
                self.erase_size == old(self).erase_size,
            decreases SIZE - offset,
        {
            if len == RING_END_MARKER {
                let oldest = self.next_file_offset(offset, len)?;
                return self.rebuild_dir(oldest);
            }
            if len == u32::MAX || len as usize > SIZE {
                return Err(RingFsError::UnrecoverableDisk);
            }
            let next = Self::align_next_page(offset + len);
            if next <= offset {
                return Err(RingFsError::UnrecoverableDisk);
            }
            offset = next;
            len = self.read_u32(offset)?;
        }
    }

    /// Rewrites a lost store header from the directory's.
    pub fn recover_store_from_dir(&mut self) -> (r: Result<(), RingFsError>)
        requires
            old(self).wf(),
        ensures
            final(self).wf(),
            final(self).same_indices(old(self)),
            r is Ok && old(self).erase_size >= 12 ==> final(self).flash.contents().subrange(
                BASE + DIR_SIZE,
                BASE + DIR_SIZE + 12,
            ) == Self::spec_header(),
            r is Ok ==> forall|i: int|
                #![trigger final(self).flash.contents()[BASE + i]]
                DIR_SIZE + 12 <= i < DIR_SIZE + old(self).erase_size ==> final(self).flash.contents()[BASE + i]
                    == 0xffu8,
    {
        self.erase(DIR_SIZE, DIR_SIZE + self.erase_size)?;
        let ghost c1 = self.flash.contents();
        let header = Self::header_sequence();
        let r = self.write(DIR_SIZE, header.as_slice());
        proof {
            if r is Ok {
                assert forall|i: int| 0 <= i < 12 && 12 <= old(self).erase_size implies self.flash.contents()[BASE
                    + DIR_SIZE + i] == header@[i] by {
                    lemma_erased_and(header@[i]);
                }
                if old(self).erase_size >= 12 {
                    assert(self.flash.contents().subrange(BASE + DIR_SIZE, BASE + DIR_SIZE + 12) =~= Self::spec_header());
                }
            }
        }
        r
    }
}

impl<
    F: NorFlash,
    const BASE: usize,
    const SIZE: usize,
    const DIR_SIZE: u32,
    const PAGE_SIZE: usize,
    const MAX_FILES: u32,
> NorflashRingFs<F, BASE, SIZE, DIR_SIZE, PAGE_SIZE, MAX_FILES> {
    /// Opens the file system on `flash`: checks the directory's and the store's headers,
    /// recovers whichever is lost from the other, and formats a disk with neither. An error
    /// when the flash's erase block does not fit the parameters.
    pub fn new(flash: F) -> (r: Result<Self, RingFsError>)
        requires
            Self::layout_ok(),
            flash.spec_wf(),
        ensures
            r matches Ok(fs) ==> fs.wf() && !fs.writer && fs.read_counter == 0,
            BASE % (DIR_SIZE as usize) != 0 ==> r == Err::<Self, RingFsError>(RingFsError::NotAligned),
    {
        let raw = flash.erase_size();
        let e0: u32 = if (raw / 4) * 4 < 4 {
            4
        } else {
            (raw / 4) * 4
        };
        let need: u32 = if MAX_FILES * 4 + PREAMBLE_LEN + 8 < e0 {
            e0
        } else {
            MAX_FILES * 4 + PREAMBLE_LEN + 8
        };
        proof {
            vstd::arithmetic::div_mod::lemma_fundamental_div_mod(need as int, e0 as int);
            assert((need / e0) * e0 == e0 * (need / e0)) by (nonlinear_arith);
        }
        let erase_size: u32 = if (need / e0) * e0 < e0 {
            e0
        } else {
            (need / e0) * e0
        };
        if (erase_size as usize) < PAGE_SIZE || erase_size > DIR_SIZE || erase_size % (PAGE_SIZE as u32)
            != 0 || DIR_SIZE % erase_size != 0 || SIZE % (erase_size as usize) != 0 || BASE % (
        DIR_SIZE as usize) != 0 {
            return Err(RingFsError::NotAligned);
        }
        let mut fs = NorflashRingFs {
            flash,
            erase_size,
            next_file_index: PREAMBLE_LEN,
            oldest_file_index: PREAMBLE_LEN,
            free_index: Self::first_file_offset(),
            write_cache: Self::blank_page(),
            cache_offset: u32::MAX,
            writer: false,
            read_counter: 0,
        };
        if fs.check_formatted(0)? {
            fs.init_dir_indices()?;
            if !fs.check_formatted(DIR_SIZE)? {
                fs.recover_store_from_dir()?;
            } else {
                fs.find_free_index()?;
            }
        } else if fs.check_formatted(DIR_SIZE)? {
            fs.recover_dir_from_store()?;
        } else {
            fs.create_header_page(0)?;
            fs.create_header_page(DIR_SIZE)?;
        }
        Ok(fs)
    }

    /// The descriptor of the file `index` places before the newest, for reading.
    pub fn file_reader(&mut self, index: u32) -> (r: Result<FileDescriptor, RingFsError>)
        requires
            old(self).wf(),
        ensures
            final(self).wf(),
            r matches Ok(d) ==> d.state == FileState::Reader && d.offset == 0 && d.location
                == old(self).seen_u32(old(self).next_file_index - index * 4 - 4) && d.len
                == old(self).seen_u32(d.location as int),
            index * 4 + old(self).oldest_file_index >= old(self).next_file_index ==> r
                == Err::<FileDescriptor, RingFsError>(RingFsError::FileNotFound),
            final(self).flash.contents() == old(self).flash.contents(),
    {
        if index as u64 * 4 + self.oldest_file_index as u64 >= self.next_file_index as u64 {
            return Err(RingFsError::FileNotFound);
        }
        let dir_location = self.next_file_index - index * 4 - 4;
        let start = self.read_u32(dir_location)?;
        self.file_reader_by_offset(start)
    }

    /// The descriptor of the file at `start`, for reading; not while a file is being written.
    pub fn file_reader_by_offset(&mut self, start: u32) -> (r: Result<FileDescriptor, RingFsError>)
        requires
            old(self).wf(),
        ensures
            final(self).wf(),
            r matches Ok(d) ==> d.state == FileState::Reader && d.offset == 0 && d.location
                == start && d.len == old(self).seen_u32(start as int),
            r is Ok ==> final(self).read_counter == old(self).read_counter + 1,
            final(self).flash.contents() == old(self).flash.contents(),
            final(self).cache_offset == old(self).cache_offset,
            final(self).write_cache == old(self).write_cache,
            old(self).writer ==> r == Err::<FileDescriptor, RingFsError>(RingFsError::InUse),
    {
        if self.writer {
            return Err(RingFsError::InUse);
        }
        let len = self.read_u32(start)?;
        if self.read_counter == usize::MAX {
            return Err(RingFsError::InUse);
        }
        self.read_counter = self.read_counter + 1;
        Ok(FileDescriptor::new_reader(start, len))
    }

    /// Writes `data` to the file of `desc`; on its first write, reads the file's length from
    /// the first four bytes and finds it a place.
    pub fn guarded_write_file(&mut self, desc: &mut FileDescriptor, data: &[u8]) -> (r: Result<
        (),
        RingFsError,
    >)
        requires
            old(self).wf(),
        ensures
            final(self).wf(),
            final(self).writer == old(self).writer,
            final(self).read_counter == old(self).read_counter,
            final(desc).state == old(desc).state,
            old(desc).location != 0 ==> final(desc).location == old(desc).location,
            old(desc).location == 0 && data@.len() < 4 ==> r == Err::<(), RingFsError>(
                RingFsError::MissingFileLength,
            ),
            old(desc).location == 0 && data@.len() >= 4 && le_u32(data@, 0) > SIZE - 4
                - Self::spec_first_file_offset() ==> r == Err::<(), RingFsError>(
                RingFsError::FileTooLarge,
            ),
            old(desc).location == 0 && r is Ok ==> final(desc).len == le_u32(data@, 0)
                && final(desc).offset == old(desc).offset + data@.len(),
            old(desc).location != 0 ==> {
                &&& (old(desc).offset > old(desc).len || data@.len() > old(desc).len - old(
                    desc,
                ).offset) ==> r == Err::<(), RingFsError>(RingFsError::FileOverrun)
                &&& r is Ok ==> final(desc).location == old(desc).location && final(desc).len
                    == old(desc).len && final(desc).offset == old(desc).offset + data@.len()
                    && final(self).flash.contents() == Self::file_written(
                    old(self).pending(),
                    old(desc).location as int,
                    old(desc).offset as int,
                    data@,
                )
            },
    {
        if desc.location == 0 {
            if data.len() < 4 {
                return Err(RingFsError::MissingFileLength);
            }
            let len = data[0] as u32 | ((data[1] as u32) << 8) | ((data[2] as u32) << 16) | ((
            data[3] as u32) << 24);
            let ffo = Self::first_file_offset();
            if len > SIZE as u32 - 4 - ffo {
                return Err(RingFsError::FileTooLarge);
            }
            let index = self.next_file_index()?;
            let start = self.free_space(len)?;
            self.write_u32(start, len)?;
            self.write_u32(index, start)?;
            self.commit_write_cache()?;
            desc.len = len;
            desc.location = start;
        }
        if desc.offset > desc.len || data.len() as u64 > (desc.len - desc.offset) as u64 {
            return Err(RingFsError::FileOverrun);
        }
        let len = data.len() as u32;
        let offset: u64 = desc.location as u64 + desc.offset as u64;
        let next_offset: u64 = offset + len as u64;
        if next_offset > SIZE as u64 {
            if offset >= SIZE as u64 {
                let o: u64 = offset - SIZE as u64 + Self::first_file_offset() as u64 + 4;
                if o > SIZE as u64 {
                    return Err(RingFsError::OutOfBounds);
                }
                self.write(o as u32, data)?;
            } else {
                let split = (SIZE as u64 - offset) as usize;
                self.write(offset as u32, vstd::slice::slice_subrange(data, 0, split))?;
                self.write(
                    Self::first_file_offset() + 4,
                    vstd::slice::slice_subrange(data, split, data.len()),
                )?;
            }
        } else {
            self.write(offset as u32, data)?;
        }
        desc.offset = desc.offset + len;
        Ok(())
    }

    /// Reads the bytes at `offset` into `data` from `from` to `to`.
    pub fn read_into(&mut self, offset: u32, data: &mut [u8], from: usize, to: usize) -> (r: Result<
        (),
        RingFsError,
    >)
        requires
            old(self).wf(),
            from <= to <= old(data)@.len(),
        ensures
            final(self).wf(),
            final(self).same_indices(old(self)),
            final(self).flash.contents() == old(self).flash.contents(),
            final(self).cache_offset == old(self).cache_offset,
            final(data)@.len() == old(data)@.len(),
            forall|k: int| 0 <= k < old(data)@.len() && !(from <= k < to) ==> final(data)@[k] == old(
                data,
            )@[k],
            offset + (to - from) > SIZE ==> r == Err::<(), RingFsError>(RingFsError::OutOfBounds),
            r is Ok ==> BASE + offset + (to - from) <= old(self).flash.contents().len() && forall|
                k: int,
            | from <= k < to ==> final(data)@[k] == old(self).flash.contents()[BASE + offset + k
                - from],
    {
        let mut tmp: Vec<u8> = Vec::new();
        let mut i: usize = from;
        while i < to
            invariant
                from <= i <= to,
                tmp@.len() == i - from,
            decreases to - i,
        {
            tmp.push(0);
            i = i + 1;
        }
        self.read(offset, tmp.as_mut_slice())?;
        let ghost f = self.flash.contents();
        let mut k: usize = 0;
        while k < tmp.len()
            invariant
                tmp@.len() == to - from,
                from <= to <= data@.len(),
                data@.len() == old(data)@.len(),
                k <= tmp@.len(),
                BASE + offset + (to - from) <= f.len(),
                forall|j: int| 0 <= j < tmp@.len() ==> tmp@[j] == f[BASE + offset + j],
                forall|j: int| 0 <= j < data@.len() && !(from <= j < from + k) ==> data@[j] == old(
                    data,
                )@[j],
                forall|j: int| from <= j < from + k ==> data@[j] == f[BASE + offset + j - from],
            decreases tmp@.len() - k,
        {
            data[from + k] = tmp[k];
            k = k + 1;
        }
        Ok(())
    }

    /// Reads from the file of `desc` into `data`, as much as fits and is left; returns how
    /// much.
    pub fn guarded_file_read(&mut self, desc: &mut FileDescriptor, data: &mut [u8]) -> (r: Result<
        u32,
        RingFsError,
    >)
        requires
            old(self).wf(),
        ensures
            final(self).wf(),
            final(self).writer == old(self).writer,
            final(self).read_counter == old(self).read_counter,
            final(desc).state == old(desc).state,
            final(desc).location == old(desc).location,
            final(desc).len == old(desc).len,
            final(data)@.len() == old(data)@.len(),
            r matches Ok(n) ==> n <= old(data)@.len() && n == (if old(desc).len - old(desc).offset
                < old(data)@.len() {
                old(desc).len - old(desc).offset
            } else {
                old(data)@.len() as int
            }),
            old(desc).offset > old(desc).len ==> r == Err::<u32, RingFsError>(
                RingFsError::OutOfBounds,
            ),
            final(self).flash.contents() == old(self).flash.contents(),
            r matches Ok(n) ==> {
                &&& final(desc).location == old(desc).location
                &&& final(desc).len == old(desc).len
                &&& final(desc).offset == old(desc).offset + n
                &&& forall|k: int|
                    0 <= k < n ==> final(data)@[k] == old(self).flash.contents()[BASE
                        + Self::file_pos(old(desc).location as int, old(desc).offset + k)]
                &&& forall|k: int| n <= k < old(data)@.len() ==> final(data)@[k] == old(data)@[k]
            },
    {
        if desc.offset > desc.len {
            return Err(RingFsError::OutOfBounds);
        }
        let rem = desc.len - desc.offset;
        let n: usize = if (rem as usize) < data.len() {
            rem as usize
        } else {
            data.len()
        };
        let len = n as u32;
        let offset: u64 = desc.location as u64 + desc.offset as u64;
        let next_offset: u64 = offset + len as u64;
        if next_offset > SIZE as u64 {
            if offset >= SIZE as u64 {
                let o: u64 = offset - SIZE as u64 + Self::first_file_offset() as u64 + 4;
                if o > SIZE as u64 {
                    return Err(RingFsError::OutOfBounds);
                }
                self.read_into(o as u32, data, 0, n)?;
            } else {
                let split = (SIZE as u64 - offset) as usize;
                self.read_into(offset as u32, data, 0, split)?;
                self.read_into(Self::first_file_offset() + 4, data, split, n)?;
            }
        } else {
            self.read_into(offset as u32, data, 0, n)?;
        }
        desc.offset = desc.offset + len;
        Ok(len)
    }

    /// Ends the use of the file of `desc`.
    pub fn close_desc(&mut self, desc: &mut FileDescriptor)
        requires
            old(self).wf(),
        ensures
            final(self).wf(),
            final(self).flash == old(self).flash,
            final(desc).state == FileState::Closed,
            final(desc).location == old(desc).location,
            final(desc).len == old(desc).len,
            final(desc).offset == old(desc).offset,
            old(desc).state == FileState::Writer ==> !final(self).writer,
            old(desc).state == FileState::Reader && old(self).read_counter > 0
                ==> final(self).read_counter == old(self).read_counter - 1,
    {
        match desc.state {
            FileState::Closed => {
                return ;
            },
            FileState::Reader => {
                if self.read_counter > 0 {
                    self.read_counter = self.read_counter - 1;
                }
            },
            FileState::Writer => {
                self.writer = false;
            },
        }
        desc.close();
    }
}

impl<
    F: NorFlash,
    const BASE: usize,
    const SIZE: usize,
    const DIR_SIZE: u32,
    const PAGE_SIZE: usize,
    const MAX_FILES: u32,
> RingFs for NorflashRingFs<F, BASE, SIZE, DIR_SIZE, PAGE_SIZE, MAX_FILES> {
    open spec fn fs_wf(&self) -> bool {
        self.wf()
    }

    open spec fn file_byte(&self, location: u32, p: int) -> u8 {
        self.flash.contents()[BASE + Self::file_pos(location as int, p)]
    }

    open spec fn files_idle(&self) -> bool {
        !self.writer && self.read_counter == 0
    }

    open spec fn file_location(&self, index: u32) -> Option<u32> {
        if index * 4 + self.oldest_file_index >= self.next_file_index {
            None
        } else {
            Some(self.seen_u32(self.next_file_index - index * 4 - 4))
        }
    }

    /// Opens a new file for writing; not while another file is open.
    fn create_file(&mut self) -> (r: Result<RingFsWriter, RingFsError>)
        ensures
            r is Ok <==> !old(self).writer && old(self).read_counter == 0,
            r matches Ok(w) ==> w.desc == (FileDescriptor { state: FileState::Writer, location: 0, len: 0, offset: 0 })
                && final(self).writer && final(self).flash == old(self).flash && final(self).read_counter == old(self).read_counter
                && final(self).same_store(old(self)),
            r is Err ==> r == Err::<RingFsWriter, RingFsError>(RingFsError::InUse) && *final(self) == *old(self),
    {
        if self.writer || self.read_counter > 0 {
            return Err(RingFsError::InUse);
        }
        self.writer = true;
        Ok(RingFsWriter::new(FileDescriptor::new_writer()))
    }

    fn file_reader_by_index(&mut self, index: u32) -> (r: Result<RingFsReader, RingFsError>)
        ensures
            index * 4 + old(self).oldest_file_index >= old(self).next_file_index ==> r == Err::<RingFsReader, RingFsError>(
                RingFsError::FileNotFound,
            ),
            r matches Ok(rd) ==> rd.desc.location == old(self).seen_u32(old(self).next_file_index - index * 4 - 4)
                && rd.desc.len == old(self).seen_u32(rd.desc.location as int),
    {
        let desc = self.file_reader(index)?;
        Ok(RingFsReader::new(desc))
    }

    fn file_reader_by_location(&mut self, location: u32) -> (r: Result<RingFsReader, RingFsError>)
        ensures
            old(self).writer ==> r == Err::<RingFsReader, RingFsError>(RingFsError::InUse),
            r matches Ok(rd) ==> rd.desc.len == old(self).seen_u32(location as int),
    {
        let desc = self.file_reader_by_offset(location)?;
        Ok(RingFsReader::new(desc))
    }

    fn close_file(&mut self, desc: &mut FileDescriptor) {
        self.close_desc(desc);
    }

    fn write_file(&mut self, desc: &mut FileDescriptor, data: &[u8]) -> (r: Result<(), RingFsError>)
        ensures
            old(desc).state == FileState::Closed ==> r == Err::<(), RingFsError>(RingFsError::FileClosed)
                && *final(desc) == *old(desc),
            old(desc).location != 0 ==> final(desc).location == old(desc).location,
            old(desc).state != FileState::Closed && old(desc).location == 0 && data@.len() < 4 ==> r
                == Err::<(), RingFsError>(RingFsError::MissingFileLength),
            old(desc).state != FileState::Closed && old(desc).location == 0 && data@.len() >= 4 && le_u32(data@, 0)
                > SIZE - 4 - Self::spec_first_file_offset() ==> r == Err::<(), RingFsError>(RingFsError::FileTooLarge),
            old(desc).state != FileState::Closed && old(desc).location != 0 && (old(desc).offset > old(desc).len
                || data@.len() > old(desc).len - old(desc).offset) ==> r == Err::<(), RingFsError>(
                RingFsError::FileOverrun,
            ),
            old(desc).state != FileState::Closed && old(desc).location != 0 && r is Ok ==> final(desc).location
                == old(desc).location && final(desc).len == old(desc).len && final(desc).offset == old(desc).offset
                + data@.len() && final(self).flash.contents() == Self::file_written(
                old(self).pending(),
                old(desc).location as int,
                old(desc).offset as int,
                data@,
            ),
            old(desc).state != FileState::Closed && (r is Err || final(desc).offset >= final(desc).len) ==> final(desc).state == FileState::Closed,
            r is Ok ==> final(desc).offset == old(desc).offset + data@.len(),
    {
        if desc.is_closed() {
            return Err(RingFsError::FileClosed);
        }
        let result = self.guarded_write_file(desc, data);
        if result.is_err() || desc.offset >= desc.len {
            self.close_desc(desc);
        }
        result
    }

    fn read_file(&mut self, desc: &mut FileDescriptor, data: &mut [u8]) -> (r: Result<u32, RingFsError>) {
        if desc.is_closed() {
            return Err(RingFsError::FileClosed);
        }
        let result = self.guarded_file_read(desc, data);
        if result.is_err() || desc.offset >= desc.len {
            self.close_desc(desc);
        }
        result
    }
}

/// Writing a byte over an erased byte leaves the byte written.
pub(crate) proof fn lemma_erased_and(x: u8)
    by (bit_vector)
    ensures
        0xffu8 & x == x,
{
}

/// A directory has one shape.
proof fn lemma_dir_shape_unique<
    F: NorFlash,
    const BASE: usize,
    const SIZE: usize,
    const DIR_SIZE: u32,
    const PAGE_SIZE: usize,
    const MAX_FILES: u32,
>(fs: NorflashRingFs<F, BASE, SIZE, DIR_SIZE, PAGE_SIZE, MAX_FILES>, a: int, b: int, c: int, d: int)
    requires
        fs.dir_shape(a, b),
        fs.dir_shape(c, d),
    ensures
        a == c,
        b == d,
{
    if a < c {
        assert(fs.dir_entry(a) == 0);
    } else if c < a {
        assert(fs.dir_entry(c) == 0);
    }
    if b < d {
        assert(fs.dir_entry(b) == u32::MAX);
    } else if d < b {
        assert(fs.dir_entry(d) == u32::MAX);
    }
}

/// The little-endian number of the little-endian bytes of `v` is `v`.
proof fn lemma_le_u32_bytes(v: u32)
    ensures
        le_u32(le_u32_bytes(v), 0) == v,
{
    let b = le_u32_bytes(v);
    assert((((v & 0xff) as u8) as u32 | (((((v >> 8u32) & 0xff) as u8) as u32) << 8u32) | (((((v
        >> 16u32) & 0xff) as u8) as u32) << 16u32) | ((((v >> 24u32) as u8) as u32) << 24u32)) == v)
        by (bit_vector);
}

/// Rounding down to a multiple of `a`.
proof fn lemma_align_down(o: int, a: int)
    requires
        0 <= o,
        0 < a,
    ensures
        0 <= align_down(o, a) <= o,
        align_down(o, a) % a == 0,
        o - align_down(o, a) < a,
        align_down(o, a) == a * (o / a),
        o % a == o - align_down(o, a),
{
    vstd::arithmetic::div_mod::lemma_fundamental_div_mod(o, a);
    vstd::arithmetic::div_mod::lemma_mod_multiples_basic(o / a, a);
    vstd::arithmetic::div_mod::lemma_div_pos_is_pos(o, a);
    assert(o / a * a == a * (o / a)) by (nonlinear_arith);
}

/// A multiple of a multiple of `p` is a multiple of `p`.
proof fn lemma_mod_trans(s: int, e: int, p: int)
    requires
        0 < p,
        0 < e,
        s % e == 0,
        e % p == 0,
    ensures
        s % p == 0,
{
    vstd::arithmetic::div_mod::lemma_fundamental_div_mod(s, e);
    vstd::arithmetic::div_mod::lemma_fundamental_div_mod(e, p);
    let i = s / e;
    let j = e / p;
    assert(s == p * (j * i)) by (nonlinear_arith)
        requires
            s == e * i,
            e == p * j,
    ;
    vstd::arithmetic::div_mod::lemma_mod_multiples_basic(j * i, p);
    assert(p * (j * i) == (j * i) * p) by (nonlinear_arith);
}

/// `o` rounded down to a multiple of `a` stays below a bound that is a multiple of `a`, a
/// whole `a` below it.
proof fn lemma_align_down_fits(o: int, a: int, size: int)
    requires
        0 < a,
        0 <= o < size,
        size % a == 0,
    ensures
        align_down(o, a) % a == 0,
        align_down(o, a) + a <= size,
        align_down(o, a) <= o,
{
    lemma_align_down(o, a);
    vstd::arithmetic::div_mod::lemma_fundamental_div_mod(size, a);
    assert(o / a < size / a) by {
        vstd::arithmetic::div_mod::lemma_div_is_ordered(o, size, a);
        if o / a == size / a {
            assert(a * (o / a) == a * (size / a));
        }
    }
    assert(a * (o / a) + a <= a * (size / a)) by (nonlinear_arith)
        requires
            o / a < size / a,
            0 < a,
    ;
}

/// A four-byte aligned offset's four bytes lie in the page of `a` bytes it is in, when `a`
/// is a multiple of four.
proof fn lemma_aligned_slot(o: int, a: int)
    requires
        0 <= o,
        0 < a,
        a % 4 == 0,
        o % 4 == 0,
    ensures
        o + 4 <= align_down(o, a) + a,
{
    lemma_align_down(o, a);
    let r = o - align_down(o, a);
    vstd::arithmetic::div_mod::lemma_fundamental_div_mod(a, 4);
    vstd::arithmetic::div_mod::lemma_fundamental_div_mod(o, 4);
    let q = o / a;
    assert(r == o - a * q);
    assert(r % 4 == 0) by {
        let ka = a / 4;
        let ko = o / 4;
        assert(r == 4 * (ko - ka * q)) by (nonlinear_arith)
            requires
                r == o - a * q,
                a == 4 * ka,
                o == 4 * ko,
        ;
        vstd::arithmetic::div_mod::lemma_mod_multiples_basic(ko - ka * q, 4);
        assert(4 * (ko - ka * q) == (ko - ka * q) * 4) by (nonlinear_arith);
    }
}

/// An offset whose four bytes lie in the page at `start` is at `offset - start` in it.
proof fn lemma_slot_in_page(offset: int, start: int, a: int)
    requires
        0 < a,
        start % a == 0,
        start <= offset,
        offset + 4 <= start + a,
        0 <= start,
    ensures
        offset % a + 4 <= a,
        offset % a == offset - start,
{
    vstd::arithmetic::div_mod::lemma_fundamental_div_mod(start, a);
    let k = start / a;
    assert(offset == a * k + (offset - start));
    vstd::arithmetic::div_mod::lemma_mod_multiples_vanish(k, offset - start, a);
    vstd::arithmetic::div_mod::lemma_small_mod((offset - start) as nat, a as nat);
}

fn push_le_u32(out: &mut Vec<u8>, v: u32)
    ensures
        final(out)@ == old(out)@ + le_u32_bytes(v),
{
    out.push((v & 0xff) as u8);
    out.push(((v >> 8) & 0xff) as u8);
    out.push(((v >> 16) & 0xff) as u8);
    out.push((v >> 24) as u8);
    assert(final(out)@ =~= old(out)@ + le_u32_bytes(v));
}

/// Whether `a` and `b` hold the same bytes.
pub fn same_bytes(a: &[u8], b: &[u8]) -> (r: bool)
    ensures
        r == (a@ == b@),
{
    if a.len() != b.len() {
        return false;
    }
    let mut i: usize = 0;
    while i < a.len()
        invariant
            a@.len() == b@.len(),
            i <= a@.len(),
            forall|k: int| 0 <= k < i ==> a@[k] == b@[k],
        decreases a@.len() - i,
    {
        if a[i] != b[i] {
            return false;
        }
        i = i + 1;
    }
    assert(a@ =~= b@);
    true
}

/// The little-endian bytes of `v`.
pub fn le_u32_bytes_exec(v: u32) -> (r: [u8; 4])
    ensures
        r@ == le_u32_bytes(v),
{
    let r = [(v & 0xff) as u8, ((v >> 8) & 0xff) as u8, ((v >> 16) & 0xff) as u8, (v >> 24) as u8];
    assert(r@ =~= le_u32_bytes(v));
    r
}

/// The little-endian number of the first four bytes of `b`.
pub fn read_le_u32_slice(b: &[u8]) -> (r: u32)
    requires
        b@.len() >= 4,
    ensures
        r == le_u32(b@, 0),
{
    b[0] as u32 | ((b[1] as u32) << 8) | ((b[2] as u32) << 16) | ((b[3] as u32) << 24)
}


} // verus!
