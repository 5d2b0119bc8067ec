//! Files on a ring file system: descriptors, and readers and writers that go through the
//! file system that opened them.
use vstd::prelude::*;

verus! {

#[derive(Debug, PartialEq, Eq, Structural)]
pub enum RingFsError {
    OutOfSpace,
    FileOverrun,
    MissingFileLength,
    InUse,
    UnrecoverableDisk,
    FileTooLarge,
    FileNotFound,
    FileClosed,
    NotAligned,
    OutOfBounds,
    Unknown,
}

#[derive(Debug, Clone, Copy, PartialEq, Eq, Structural)]
pub enum FileState {
    Closed,
    Reader,
    Writer,
}

/// An open or closed file.
#[derive(Debug, Clone, Copy, PartialEq, Eq, Structural)]
pub struct FileDescriptor {
    pub state: FileState,
    /// Address of file contents on disk.
    pub location: u32,
    /// Length of file.
    pub len: u32,
    /// Offset from location to the current read/write location.
    pub offset: u32,
}

impl FileDescriptor {
    /// A descriptor for a new file to write; its place is found on the first write.
    pub fn new_writer() -> (r: Self)
        ensures
            r == (FileDescriptor { state: FileState::Writer, location: 0, len: 0, offset: 0 }),
    {
        FileDescriptor { state: FileState::Writer, location: 0, len: 0, offset: 0 }
    }

    /// A descriptor to read the file of `len` bytes at `location`.
    pub fn new_reader(location: u32, len: u32) -> (r: Self)
        ensures
            r == (FileDescriptor { state: FileState::Reader, location, len, offset: 0 }),
    {
        FileDescriptor { state: FileState::Reader, location, len, offset: 0 }
    }

    pub fn is_closed(&self) -> (r: bool)
        ensures
            r == (self.state == FileState::Closed),
    {
        match self.state {
            FileState::Closed => true,
            _ => false,
        }
    }

    pub fn close(&mut self)
        ensures
            *final(self) == (FileDescriptor { state: FileState::Closed, ..*old(self) }),
    {
        if !self.is_closed() {
            self.state = FileState::Closed;
        }
    }
}

/// A file system of files in a ring: the oldest files give way to new ones.
pub trait RingFs {
    /// The file system's own invariant.
    spec fn fs_wf(&self) -> bool;

    /// The byte at position `p` of the file at `location`, as reading the file gives it.
    spec fn file_byte(&self, location: u32, p: int) -> u8;

    /// Whether a new file can be opened: no file is open.
    spec fn files_idle(&self) -> bool;

    /// Where the file `index` places before the newest lies, when there is such a file.
    spec fn file_location(&self, index: u32) -> Option<u32>;


    /// Opens a new file for writing; its first four bytes written are its length.
    fn create_file(&mut self) -> (r: Result<RingFsWriter, RingFsError>)
        requires
            old(self).fs_wf(),
        ensures
            final(self).fs_wf(),
            r matches Ok(w) ==> w.desc.state == FileState::Writer,
            r is Ok <==> old(self).files_idle(),
    ;

    /// Opens the file `index` places before the newest for reading.
    fn file_reader_by_index(&mut self, index: u32) -> (r: Result<RingFsReader, RingFsError>)
        requires
            old(self).fs_wf(),
        ensures
            final(self).fs_wf(),
            forall|location: u32, p: int| #[trigger] final(self).file_byte(location, p) == old(self).file_byte(location, p),
            r matches Ok(rd) ==> rd.desc.state == FileState::Reader && rd.desc.offset == 0 && old(
                self,
            ).file_location(index) == Some(rd.desc.location),
            old(self).file_location(index) is None ==> r == Err::<RingFsReader, RingFsError>(
                RingFsError::FileNotFound,
            ),
    ;

    /// Opens the file at `location` for reading.
    fn file_reader_by_location(&mut self, location: u32) -> (r: Result<RingFsReader, RingFsError>)
        requires
            old(self).fs_wf(),
        ensures
            final(self).fs_wf(),
            forall|location: u32, p: int| #[trigger] final(self).file_byte(location, p) == old(self).file_byte(location, p),
            r matches Ok(rd) ==> rd.desc.state == FileState::Reader && rd.desc.location
                == location && rd.desc.offset == 0,
    ;

    fn close_file(&mut self, desc: &mut FileDescriptor)
        requires
            old(self).fs_wf(),
        ensures
            final(self).fs_wf(),
            forall|location: u32, p: int| #[trigger] final(self).file_byte(location, p) == old(self).file_byte(location, p),
            *final(desc) == (FileDescriptor { state: FileState::Closed, ..*old(desc) }),
    ;

    /// Writes `data` at the file's position; the file closes once full or on an error.
    fn write_file(&mut self, desc: &mut FileDescriptor, data: &[u8]) -> (r: Result<(), RingFsError>)
        requires
            old(self).fs_wf(),
        ensures
            final(self).fs_wf(),
            old(desc).state == FileState::Closed ==> r == Err::<(), RingFsError>(RingFsError::FileClosed)
                && *final(desc) == *old(desc),
            old(desc).state != FileState::Closed && (r is Err || final(desc).offset >= final(desc).len)
                ==> final(desc).state == FileState::Closed,
            r is Ok ==> final(desc).offset == old(desc).offset + data@.len(),
            old(desc).location != 0 ==> final(desc).location == old(desc).location,
    ;

    /// Reads from the file's position into `data`, as much as fits and is left; returns
    /// how much. The file closes once read to its end or on an error.
    fn read_file(&mut self, desc: &mut FileDescriptor, data: &mut [u8]) -> (r: Result<u32, RingFsError>)
        requires
            old(self).fs_wf(),
        ensures
            final(self).fs_wf(),
            forall|location: u32, p: int| #[trigger] final(self).file_byte(location, p) == old(self).file_byte(location, p),
            final(data)@.len() == old(data)@.len(),
            old(desc).state == FileState::Closed ==> r == Err::<u32, RingFsError>(RingFsError::FileClosed)
                && *final(desc) == *old(desc),
            old(desc).state != FileState::Closed && old(desc).offset > old(desc).len ==> r == Err::<
                u32,
                RingFsError,
            >(RingFsError::OutOfBounds),
            old(desc).state != FileState::Closed && (r is Err || final(desc).offset >= final(desc).len)
                ==> final(desc).state == FileState::Closed,
            !(r is Err || final(desc).offset >= final(desc).len) ==> final(desc).state == old(desc).state,
            final(desc).location == old(desc).location,
            final(desc).len == old(desc).len,
            r matches Ok(n) ==> read_result(*old(desc), *final(desc), old(data)@, final(data)@, n, |p: int| old(self).file_byte(old(desc).location, p)),
    ;
}

/// Whether reading `n` bytes of the file of `desc` into `data`, which became `data2`, left
/// the descriptor `desc2`: as many bytes as fit and are left were read, from the file's
/// bytes `bytes` at its position on, and the position moved past them.
pub open spec fn read_result(
    desc: FileDescriptor,
    desc2: FileDescriptor,
    data: Seq<u8>,
    data2: Seq<u8>,
    n: u32,
    bytes: spec_fn(int) -> u8,
) -> bool {
    &&& desc.offset <= desc.len
    &&& n == (if desc.len - desc.offset < data.len() {
        desc.len - desc.offset
    } else {
        data.len() as int
    })
    &&& desc2.location == desc.location
    &&& desc2.len == desc.len
    &&& desc2.offset == desc.offset + n
    &&& forall|k: int| 0 <= k < n ==> data2[k] == bytes(desc.offset + k)
    &&& forall|k: int| n <= k < data.len() ==> data2[k] == data[k]
}

/// A file being written, through the file system `fs` passed to each call.
pub struct RingFsWriter {
    pub desc: FileDescriptor,
}

impl RingFsWriter {
    pub fn new(desc: FileDescriptor) -> (r: Self)
        ensures
            r.desc == desc,
    {
        RingFsWriter { desc }
    }

    pub fn close<F: RingFs>(&mut self, fs: &mut F)
        requires
            old(fs).fs_wf(),
        ensures
            final(fs).fs_wf(),
            forall|location: u32, p: int| #[trigger] final(fs).file_byte(location, p) == old(fs).file_byte(location, p),
            final(self).desc == (FileDescriptor { state: FileState::Closed, ..old(self).desc }),
    {
        fs.close_file(&mut self.desc);
    }

    pub fn is_closed(&self) -> (r: bool)
        ensures
            r == (self.desc.state == FileState::Closed),
    {
        self.desc.is_closed()
    }

    pub fn write<F: RingFs>(&mut self, fs: &mut F, data: &[u8]) -> (r: Result<(), RingFsError>)
        requires
            old(fs).fs_wf(),
        ensures
            final(fs).fs_wf(),
            old(self).desc.state == FileState::Closed ==> r == Err::<(), RingFsError>(RingFsError::FileClosed)
                && final(self).desc == old(self).desc,
            old(self).desc.state != FileState::Closed && (r is Err || final(self).desc.offset
                >= final(self).desc.len) ==> final(self).desc.state == FileState::Closed,
            r is Ok ==> final(self).desc.offset == old(self).desc.offset + data@.len(),
            old(self).desc.location != 0 ==> final(self).desc.location == old(self).desc.location,
    {
        fs.write_file(&mut self.desc, data)
    }

    pub fn location(&self) -> (r: u32)
        ensures
            r == self.desc.location,
    {
        self.desc.location
    }
}

/// A file being read, through the file system `fs` passed to each call.
pub struct RingFsReader {
    pub desc: FileDescriptor,
}

impl RingFsReader {
    pub fn new(desc: FileDescriptor) -> (r: Self)
        ensures
            r.desc == desc,
    {
        RingFsReader { desc }
    }

    pub fn close<F: RingFs>(&mut self, fs: &mut F)
        requires
            old(fs).fs_wf(),
        ensures
            final(fs).fs_wf(),
            forall|location: u32, p: int| #[trigger] final(fs).file_byte(location, p) == old(fs).file_byte(location, p),
            final(self).desc == (FileDescriptor { state: FileState::Closed, ..old(self).desc }),
    {
        fs.close_file(&mut self.desc);
    }

    pub fn is_closed(&self) -> (r: bool)
        ensures
            r == (self.desc.state == FileState::Closed),
    {
        self.desc.is_closed()
    }

    pub fn read<F: RingFs>(&mut self, fs: &mut F, data: &mut [u8]) -> (r: Result<u32, RingFsError>)
        requires
            old(fs).fs_wf(),
        ensures
            final(fs).fs_wf(),
            forall|location: u32, p: int| #[trigger] final(fs).file_byte(location, p) == old(fs).file_byte(location, p),
            final(data)@.len() == old(data)@.len(),
            old(self).desc.state == FileState::Closed ==> r == Err::<u32, RingFsError>(
                RingFsError::FileClosed,
            ) && final(self).desc == old(self).desc,
            old(self).desc.state != FileState::Closed && old(self).desc.offset > old(self).desc.len ==> r
                == Err::<u32, RingFsError>(RingFsError::OutOfBounds),
            old(self).desc.state != FileState::Closed && (r is Err || final(self).desc.offset
                >= final(self).desc.len) ==> final(self).desc.state == FileState::Closed,
            !(r is Err || final(self).desc.offset >= final(self).desc.len) ==> final(self).desc.state
                == old(self).desc.state,
            final(self).desc.location == old(self).desc.location,
            final(self).desc.len == old(self).desc.len,
            r matches Ok(n) ==> read_result(
                old(self).desc,
                final(self).desc,
                old(data)@,
                final(data)@,
                n,
                |p: int| old(fs).file_byte(old(self).desc.location, p),
            ),
    {
        fs.read_file(&mut self.desc, data)
    }

    pub fn location(&self) -> (r: u32)
        ensures
            r == self.desc.location,
    {
        self.desc.location
    }

    /// Moves the read position to `offset` bytes into the file.
    pub fn seek(&mut self, offset: u32)
        ensures
            final(self).desc == (FileDescriptor { offset, ..old(self).desc }),
    {
        self.desc.offset = offset;
    }
}

} // verus!
