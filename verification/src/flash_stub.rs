//! A NOR flash held in memory: reads give back the bytes, writes can only clear bits, and
//! erasing sets every bit of a range.
use vstd::prelude::*;
use crate::norflash_ring_fs::{flash_erased, flash_written, FlashErrorKind, NorFlash};

verus! {

#[derive(Debug)]
pub enum FlashStubError {
    Unknown,
}

/// Bytes written to erased flash read back as they were written.
pub proof fn law_erase_write_read(buf: Seq<u8>, from: int, to: int, offset: int, data: Seq<u8>)
    requires
        0 <= from <= offset,
        offset + data.len() <= to <= buf.len(),
    ensures
        flash_written(flash_erased(buf, from, to), offset, data).subrange(
            offset,
            offset + data.len(),
        ) == data,
{
    let w = flash_written(flash_erased(buf, from, to), offset, data);
    let sub = w.subrange(offset, offset + data.len());
    assert forall|k: int| 0 <= k < data.len() implies #[trigger] sub[k] == data[k] by {
        let x = data[k];
        crate::norflash_ring_fs::lemma_erased_and(x);
        assert(sub[k] == w[offset + k]);
    }
    assert(sub =~= data);
}

/// An operation on the flash, as recorded.
#[derive(Debug)]
pub enum Action {
    Erase(u32, u32),
    Write(u32, Vec<u8>),
}

/// A flash of `FLASH_SIZE` bytes, and the record of the erase and write operations done.
pub struct NorFlashStub<const FLASH_SIZE: usize> {
    pub buf: Vec<u8>,
    pub actions: Vec<Action>,
    /// A write that starts at this offset is done and then reported as failed.
    pub fail_write_at: Option<u32>,
    /// An erase that starts at this offset is not done and is reported as failed.
    pub fail_erase_at: Option<u32>,
}

impl<const FLASH_SIZE: usize> NorFlashStub<FLASH_SIZE> {
    pub open spec fn wf(&self) -> bool {
        self.buf@.len() == FLASH_SIZE
    }

    /// A flash of zeros.
    pub fn default() -> (r: Self)
        ensures
            r.wf(),
            forall|i: int| 0 <= i < FLASH_SIZE ==> r.buf@[i] == 0,
            r.actions@.len() == 0,
            r.fail_write_at is None,
            r.fail_erase_at is None,
    {
        let mut buf: Vec<u8> = Vec::new();
        let mut i: usize = 0;
        while i < FLASH_SIZE
            invariant
                i <= FLASH_SIZE,
                buf@.len() == i,
                forall|k: int| 0 <= k < i ==> buf@[k] == 0,
            decreases FLASH_SIZE - i,
        {
            buf.push(0);
            i = i + 1;
        }
        NorFlashStub { buf, actions: Vec::new(), fail_write_at: None, fail_erase_at: None }
    }

    /// The size of the flash.
    pub fn capacity(&self) -> (r: usize)
        requires
            self.wf(),
        ensures
            r == FLASH_SIZE,
    {
        self.buf.len()
    }

    /// Reads the bytes from `offset` into `bytes`.
    pub fn read_bytes(&mut self, offset: u32, bytes: &mut [u8]) -> (r: Result<(), FlashStubError>)
        requires
            old(self).wf(),
            offset + old(bytes)@.len() <= FLASH_SIZE,
        ensures
            *final(self) == *old(self),
            final(self).wf(),
            r is Ok,
            final(bytes)@ == old(self).buf@.subrange(offset as int, offset + old(bytes)@.len()),
    {
        let start = offset as usize;
        let n = bytes.len();
        let mut i: usize = 0;
        while i < n
            invariant
                self.wf(),
                n == bytes@.len(),
                start + n <= FLASH_SIZE,
                i <= n,
                forall|k: int| 0 <= k < i ==> bytes@[k] == self.buf@[start + k],
            decreases n - i,
        {
            bytes[i] = self.buf[start + i];
            i = i + 1;
        }
        assert(bytes@ =~= self.buf@.subrange(offset as int, offset + n));
        Ok(())
    }

    /// Writes `bytes` at `offset`: each byte keeps only the bits set in both the old and the
    /// new byte.
    pub fn write_bytes(&mut self, offset: u32, bytes: &[u8]) -> (r: Result<(), FlashStubError>)
        requires
            old(self).wf(),
            offset + bytes@.len() <= FLASH_SIZE,
        ensures
            final(self).fail_write_at == old(self).fail_write_at,
            final(self).fail_erase_at == old(self).fail_erase_at,
            final(self).wf(),
            r is Ok,
            final(self).buf@ == flash_written(old(self).buf@, offset as int, bytes@),
            final(self).actions@.drop_last() == old(self).actions@,
            final(self).actions@.len() == old(self).actions@.len() + 1,
            final(self).actions@.last() matches Action::Write(o, v) && o == offset && v@ == bytes@,
            forall|i: int| 0 <= i < FLASH_SIZE ==> final(self).buf@[i] == if offset <= i < offset
                + bytes@.len() {
                old(self).buf@[i] & bytes@[i - offset]
            } else {
                old(self).buf@[i]
            },
    {
        self.actions.push(Action::Write(offset, vstd::slice::slice_to_vec(bytes)));
        let start = offset as usize;
        let n = bytes.len();
        let mut i: usize = 0;
        let ghost acts = self.actions@;
        while i < n
            invariant
                self.actions@ == acts,
                self.fail_write_at == old(self).fail_write_at,
                self.fail_erase_at == old(self).fail_erase_at,
                self.wf(),
                n == bytes@.len(),
                start == offset,
                start + n <= FLASH_SIZE,
                i <= n,
                forall|k: int| 0 <= k < FLASH_SIZE ==> self.buf@[k] == if start <= k < start + i {
                    old(self).buf@[k] & bytes@[k - start]
                } else {
                    old(self).buf@[k]
                },
            decreases n - i,
        {
            let v = self.buf[start + i] & bytes[i];
            self.buf.set(start + i, v);
            i = i + 1;
        }
        Ok(())
    }

    /// Erases the bytes from `from` to `to`: sets all their bits.
    pub fn erase_bytes(&mut self, from: u32, to: u32) -> (r: Result<(), FlashStubError>)
        requires
            old(self).wf(),
            from <= to <= FLASH_SIZE,
        ensures
            final(self).fail_write_at == old(self).fail_write_at,
            final(self).fail_erase_at == old(self).fail_erase_at,
            final(self).wf(),
            r is Ok,
            final(self).buf@ == flash_erased(old(self).buf@, from as int, to as int),
            final(self).actions@ == old(self).actions@.push(Action::Erase(from, to)),
            forall|i: int| 0 <= i < FLASH_SIZE ==> final(self).buf@[i] == if from <= i < to {
                0xffu8
            } else {
                old(self).buf@[i]
            },
    {
        self.actions.push(Action::Erase(from, to));
        let mut i = from as usize;
        let ghost acts = self.actions@;
        while i < to as usize
            invariant
                self.actions@ == acts,
                self.fail_write_at == old(self).fail_write_at,
                self.fail_erase_at == old(self).fail_erase_at,
                self.wf(),
                from <= i <= to <= FLASH_SIZE,
                forall|k: int| 0 <= k < FLASH_SIZE ==> self.buf@[k] == if from <= k < i {
                    0xffu8
                } else {
                    old(self).buf@[k]
                },
            decreases to - i,
        {
            self.buf.set(i, 0xff);
            i = i + 1;
        }
        Ok(())
    }
}

/// The erase block of the flash.
pub const STUB_ERASE_SIZE: u32 = 64;

impl<const FLASH_SIZE: usize> NorFlash for NorFlashStub<FLASH_SIZE> {
    open spec fn spec_wf(&self) -> bool {
        self.wf()
    }

    open spec fn contents(&self) -> Seq<u8> {
        self.buf@
    }

    fn erase_size(&self) -> (r: u32)
        ensures
            r == STUB_ERASE_SIZE,
    {
        STUB_ERASE_SIZE
    }

    fn read(&mut self, offset: u32, bytes: &mut [u8]) -> (res: Result<(), FlashErrorKind>)
        ensures
            res is Ok <==> offset + old(bytes)@.len() <= FLASH_SIZE,
            res is Err ==> (res matches Err(FlashErrorKind::OutOfBounds)) && final(bytes)@ == old(bytes)@,
            final(self).buf == old(self).buf,
            *final(self) == *old(self),
    {
        if offset as usize > self.buf.len() || bytes.len() > self.buf.len() - offset as usize {
            return Err(FlashErrorKind::OutOfBounds);
        }
        match NorFlashStub::read_bytes(self, offset, bytes) {
            Ok(()) => Ok(()),
            Err(_) => Err(FlashErrorKind::Other),
        }
    }

    fn write(&mut self, offset: u32, bytes: &[u8]) -> (res: Result<(), FlashErrorKind>)
        ensures
            res is Ok <==> offset + bytes@.len() <= FLASH_SIZE && old(self).fail_write_at != Some(offset),
            offset + bytes@.len() > FLASH_SIZE ==> (res matches Err(FlashErrorKind::OutOfBounds))
                && final(self).buf == old(self).buf,
            offset + bytes@.len() <= FLASH_SIZE && old(self).fail_write_at == Some(offset) ==> (res matches Err(FlashErrorKind::Other)),
            offset + bytes@.len() <= FLASH_SIZE ==> final(self).buf@ == flash_written(old(self).buf@, offset as int, bytes@),
            offset + bytes@.len() > FLASH_SIZE ==> final(self).actions == old(self).actions,
            offset + bytes@.len() <= FLASH_SIZE ==> final(self).actions@.drop_last() == old(self).actions@
                && final(self).actions@.len() == old(self).actions@.len() + 1 && (final(self).actions@.last() matches Action::Write(o, v)
                && o == offset && v@ == bytes@),
            final(self).fail_write_at == old(self).fail_write_at,
            final(self).fail_erase_at == old(self).fail_erase_at,
    {
        if offset as usize > self.buf.len() || bytes.len() > self.buf.len() - offset as usize {
            return Err(FlashErrorKind::OutOfBounds);
        }
        let done = NorFlashStub::write_bytes(self, offset, bytes);
        let fails = match self.fail_write_at {
            Some(o) => o == offset,
            None => false,
        };
        if fails {
            return Err(FlashErrorKind::Other);
        }
        match done {
            Ok(()) => Ok(()),
            Err(_) => Err(FlashErrorKind::Other),
        }
    }

    fn erase(&mut self, from: u32, to: u32) -> (res: Result<(), FlashErrorKind>)
        ensures
            res is Ok <==> from <= to <= FLASH_SIZE && old(self).fail_erase_at != Some(from),
            !(from <= to <= FLASH_SIZE) ==> (res matches Err(FlashErrorKind::OutOfBounds)),
            from <= to <= FLASH_SIZE && old(self).fail_erase_at == Some(from) ==> (res matches Err(FlashErrorKind::Other)),
            res is Err ==> final(self).buf == old(self).buf && final(self).actions == old(self).actions,
            res is Ok ==> final(self).buf@ == flash_erased(old(self).buf@, from as int, to as int)
                && final(self).actions@ == old(self).actions@.push(Action::Erase(from, to)),
            final(self).fail_write_at == old(self).fail_write_at,
            final(self).fail_erase_at == old(self).fail_erase_at,
    {
        if from > to || to as usize > self.buf.len() {
            return Err(FlashErrorKind::OutOfBounds);
        }
        let fails = match self.fail_erase_at {
            Some(o) => o == from,
            None => false,
        };
        if fails {
            return Err(FlashErrorKind::Other);
        }
        match NorFlashStub::erase_bytes(self, from, to) {
            Ok(()) => Ok(()),
            Err(_) => Err(FlashErrorKind::Other),
        }
    }
}

} // verus!
