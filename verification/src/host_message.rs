//! The USB vendor interface on the keyboard's side: the messages to the host, what is done
//! with the host's messages, and reading the layout words of a stored config file.
use vstd::prelude::*;
use crate::config::vendor::{le_u32, le_u32_bytes};
use crate::norflash_ring_fs::le_u32_bytes_exec;
use crate::ring_fs::{FileState, RingFs, RingFsReader, RingFsWriter};
use crate::usb_vendor_message::{
    CLOSE_SAVE_CONFIG, FETCH_STATS, HOST_RECV_FILE_INFO, HOST_RECV_KEY_SCAN, HOST_RECV_STATS,
    MAX_BULK_LEN, OPEN_SAVE_CONFIG, READ_FILE_BY_INDEX, RESET_KEYBOARD, RESET_TO_USB_BOOT,
};

verus! {

/// The length of a message buffer: the largest bulk message.
pub const MSG_LEN: usize = 64;

/// A message to the host: a tag byte, then `len` bytes of content.
pub struct HostMessage {
    pub len: usize,
    pub data: [u8; 64],
}

impl HostMessage {
    pub open spec fn wf(&self) -> bool {
        self.len < MSG_LEN
    }

    /// A file information message with no file: every byte is the tag.
    pub fn file_info() -> (r: Self)
        ensures
            r.wf(),
            r.len == 0,
            forall|i: int| 0 <= i < MSG_LEN ==> r.data@[i] == HOST_RECV_FILE_INFO,
    {
        HostMessage { len: 0, data: [HOST_RECV_FILE_INFO; 64] }
    }

    /// A statistics message: the tag, then `time` in little-endian order.
    pub fn stats(time: u32) -> (r: Self)
        ensures
            r.wf(),
            r.len == 4,
            r.data@[0] == HOST_RECV_STATS,
            r.data@[1] == (time & 0xff) as u8,
            r.data@[2] == ((time >> 8) & 0xff) as u8,
            r.data@[3] == ((time >> 16) & 0xff) as u8,
            r.data@[4] == ((time >> 24) & 0xff) as u8,
            forall|i: int| 5 <= i < MSG_LEN ==> r.data@[i] == 0,
    {
        let mut data = [0u8; 64];
        data[0] = HOST_RECV_STATS;
        data[1] = (time & 0xff) as u8;
        data[2] = ((time >> 8) & 0xff) as u8;
        data[3] = ((time >> 16) & 0xff) as u8;
        data[4] = ((time >> 24) & 0xff) as u8;
        HostMessage { len: 4, data }
    }

    /// The tag and content of the message.
    pub fn as_slice(&self) -> (r: &[u8])
        requires
            self.wf(),
        ensures
            r@ == self.data@.subrange(0, self.len + 1),
    {
        vstd::slice::slice_subrange(self.data.as_slice(), 0, self.len + 1)
    }

    /// A key scan message, whose key is set by `set_key`.
    pub fn key_scan() -> (r: Self)
        ensures
            r.wf(),
            r.len == 3,
            r.data@[0] == HOST_RECV_KEY_SCAN,
            forall|i: int| 1 <= i < MSG_LEN ==> r.data@[i] == 0,
    {
        let mut data = [0u8; 64];
        data[0] = HOST_RECV_KEY_SCAN;
        HostMessage { len: 3, data }
    }

    /// Sets the key of a key scan message to the packed key `memo_bytes`.
    pub fn set_key(&mut self, memo_bytes: (u8, u8))
        ensures
            final(self).len == old(self).len,
            final(self).data@ == old(self).data@.update(1, memo_bytes.0).update(2, memo_bytes.1),
    {
        self.data[1] = memo_bytes.0;
        self.data[2] = memo_bytes.1;
    }
}

/// The layout words of a config file, read from just after its name.
pub struct ConfigFileIter(pub RingFsReader);

impl ConfigFileIter {
    /// Skips the header of the config file `reader` reads: 13 bytes, the length of the
    /// file name, and the name.
    pub fn new<F: RingFs>(fs: &mut F, reader: RingFsReader) -> (r: Self)
        requires
            old(fs).fs_wf(),
        ensures
            final(fs).fs_wf(),
            forall|location: u32, p: int| #[trigger] final(fs).file_byte(location, p) == old(fs).file_byte(location, p),
            r.0.desc.location == reader.desc.location,
            r.0.desc.len == reader.desc.len,
            r.0.desc.offset == 14 || r.0.desc.offset == 14 + old(fs).file_byte(reader.desc.location, 13),
            r.0.desc.state != FileState::Closed ==> r.0.desc.state == reader.desc.state && r.0.desc.offset == 14
                + old(fs).file_byte(reader.desc.location, 13),
    {
        let mut reader = reader;
        reader.seek(13);
        let ghost r0 = reader;
        let mut buf: Vec<u8> = vec![0u8];
        let skip: u8 = match reader.read(fs, buf.as_mut_slice()) {
            Ok(n) => if n == 1 {
                proof {
                    let bytes = |p: int| old(fs).file_byte(r0.desc.location, p);
                    assert(buf@[0] == bytes(r0.desc.offset + 0));
                }
                buf[0]
            } else {
                assert(reader.desc.offset >= reader.desc.len);
                0
            },
            Err(_) => 0,
        };
        reader.seek(14 + skip as u32);
        ConfigFileIter(reader)
    }

    /// The next word of the file, in little-endian order; `None` at its end.
    pub fn next<F: RingFs>(&mut self, fs: &mut F) -> (r: Option<u16>)
        requires
            old(fs).fs_wf(),
        ensures
            final(fs).fs_wf(),
            forall|location: u32, p: int| #[trigger] final(fs).file_byte(location, p) == old(fs).file_byte(location, p),
            final(self).0.desc.location == old(self).0.desc.location,
            r matches Some(w) ==> {
                let loc = old(self).0.desc.location;
                let off = old(self).0.desc.offset;
                &&& w == (old(fs).file_byte(loc, off as int) as u16 | ((old(fs).file_byte(loc, off + 1) as u16)
                    << 8u16)) as u16
                &&& final(self).0.desc.offset == off + 2
            },
            r is None ==> old(self).0.desc.state == FileState::Closed || old(self).0.desc.offset + 2 > old(
                self,
            ).0.desc.len || final(self).0.desc.state == FileState::Closed,
            old(self).0.desc.state != FileState::Closed && old(self).0.desc.offset + 2 <= old(self).0.desc.len
                && final(self).0.desc.state != FileState::Closed ==> r is Some,
    {
        let mut bytes: Vec<u8> = vec![0u8, 0u8];
        match self.0.read(fs, bytes.as_mut_slice()) {
            Ok(n) => if n == 2 {
                Some(bytes[0] as u16 | ((bytes[1] as u16) << 8))
            } else {
                None
            },
            Err(_) => None,
        }
    }
}

/// The time a statistics message carries, after its tag, is read back by the host as it was
/// sent: `KeyboardStats::from_bytes` of the bytes after the tag of `HostMessage::stats(time)`
/// gives `time`.
pub proof fn law_stats_round_trip(time: u32)
    ensures
        le_u32(
            seq![
                (time & 0xff) as u8,
                ((time >> 8) & 0xff) as u8,
                ((time >> 16) & 0xff) as u8,
                ((time >> 24) & 0xff) as u8,
            ],
            0,
        ) == time,
{
    let b = seq![
        (time & 0xff) as u8,
        ((time >> 8) & 0xff) as u8,
        ((time >> 16) & 0xff) as u8,
        ((time >> 24) & 0xff) as u8,
    ];
    let b0 = (time & 0xff) as u8;
    let b1 = ((time >> 8) & 0xff) as u8;
    let b2 = ((time >> 16) & 0xff) as u8;
    let b3 = ((time >> 24) & 0xff) as u8;
    assert(b[0] == b0 && b[1] == b1 && b[2] == b2 && b[3] == b3);
    assert((b0 as u32 | ((b1 as u32) << 8u32) | ((b2 as u32) << 16u32) | ((b3 as u32) << 24u32))
        == time) by (bit_vector)
        requires
            b0 == (time & 0xff) as u8,
            b1 == ((time >> 8) & 0xff) as u8,
            b2 == ((time >> 16) & 0xff) as u8,
            b3 == ((time >> 24) & 0xff) as u8,
    ;
}

/// Whether the vendor interface is between messages or receiving a config file.
#[derive(Debug, Clone, Copy, PartialEq, Eq, Structural)]
pub enum ReceiveState {
    Idle,
    ConfigData,
}

/// What the caller does after a message from the host.
pub enum ConfigAction {
    Nothing,
    /// Restart the keyboard.
    Reset,
    /// Restart the keyboard into its USB boot loader.
    ResetToUsbBoot,
    /// Send this message to the host.
    Send(HostMessage),
    /// Send the host a statistics message of the time now.
    SendStats,
    /// Have the mapper load the layout of the config file at this location.
    LoadLayout(u32),
}

/// The first byte of a message, or zero for an empty one.
pub open spec fn msg_tag(data: Seq<u8>) -> u8 {
    if data.len() == 0 {
        0
    } else {
        data[0]
    }
}

/// The vendor interface: the state of receiving, and the config file being written.
pub struct ConfigInterface {
    pub fw: Option<RingFsWriter>,
    pub rcv_state: ReceiveState,
}

impl ConfigInterface {
    pub fn new() -> (r: Self)
        ensures
            r.fw is None,
            r.rcv_state == ReceiveState::Idle,
    {
        ConfigInterface { fw: None, rcv_state: ReceiveState::Idle }
    }

    /// Takes a message from the host, on the file system `fs`. Between messages: opening a
    /// config file, a reset, a request for a file's information and start, or for the
    /// statistics. While receiving a config file: a full message is file data, and closing
    /// writes the rest and has the file loaded. Anything else is dropped, and ends a config
    /// file.
    pub fn receive<F: RingFs>(&mut self, fs: &mut F, data: &[u8]) -> (r: ConfigAction)
        requires
            old(fs).fs_wf(),
        ensures
            final(fs).fs_wf(),
            ({
                let tag = msg_tag(data@);
                let n = data@.len();
                match old(self).rcv_state {
                    ReceiveState::Idle => {
                        &&& (tag == OPEN_SAVE_CONFIG && n == 1) ==> final(self).rcv_state
                            == ReceiveState::ConfigData && r is Nothing
                        &&& !(tag == OPEN_SAVE_CONFIG && n == 1) ==> final(self).rcv_state
                            == ReceiveState::Idle
                        &&& (tag == RESET_KEYBOARD && n == 1) ==> r is Reset
                        &&& (tag == RESET_TO_USB_BOOT && n == 1) ==> r is ResetToUsbBoot
                        &&& (tag == READ_FILE_BY_INDEX && n == 5) ==> (r matches ConfigAction::Send(
                            m,
                        ) && m.wf() && m.data@[0] == HOST_RECV_FILE_INFO && (m.len == 0 || m.len
                            >= 4))
                        &&& (tag == FETCH_STATS && n == 1) ==> r is SendStats
                        &&& !((tag == OPEN_SAVE_CONFIG || tag == RESET_KEYBOARD || tag
                            == RESET_TO_USB_BOOT || tag == FETCH_STATS) && n == 1) && !(tag
                            == READ_FILE_BY_INDEX && n == 5) ==> r is Nothing
                    },
                    ReceiveState::ConfigData => {
                        &&& n == MAX_BULK_LEN ==> final(self).rcv_state == ReceiveState::ConfigData
                            && r is Nothing
                        &&& (n != MAX_BULK_LEN && tag == OPEN_SAVE_CONFIG && n == 1)
                            ==> final(self).rcv_state == ReceiveState::ConfigData && r is Nothing
                            && final(self).fw == old(self).fw
                        &&& (n != MAX_BULK_LEN && tag == CLOSE_SAVE_CONFIG) ==> final(self).rcv_state
                            == ReceiveState::Idle && final(self).fw is None && (r is Nothing
                            || r is LoadLayout) && (old(self).fw is Some || old(fs).files_idle() <==> r is LoadLayout) && (old(
                            self,
                        ).fw matches Some(v) ==> (v.desc.location != 0 ==> (r matches ConfigAction::LoadLayout(l)
                            && l == v.desc.location)))
                        &&& (n != MAX_BULK_LEN && !(tag == OPEN_SAVE_CONFIG && n == 1) && tag
                            != CLOSE_SAVE_CONFIG) ==> final(self).rcv_state == ReceiveState::Idle
                            && r is Nothing
                    },
                }
            }),
    {
        let tag: u8 = if data.len() == 0 {
            0
        } else {
            data[0]
        };
        match self.rcv_state {
            ReceiveState::Idle => {
                if tag == OPEN_SAVE_CONFIG && data.len() == 1 {
                    self.rcv_state = ReceiveState::ConfigData;
                    ConfigAction::Nothing
                } else if tag == RESET_KEYBOARD && data.len() == 1 {
                    ConfigAction::Reset
                } else if tag == RESET_TO_USB_BOOT && data.len() == 1 {
                    ConfigAction::ResetToUsbBoot
                } else if tag == READ_FILE_BY_INDEX && data.len() == 5 {
                    let index = data[1] as u32 | ((data[2] as u32) << 8) | ((data[3] as u32) << 16)
                        | ((data[4] as u32) << 24);
                    ConfigAction::Send(read_file_info(fs, index))
                } else if tag == FETCH_STATS && data.len() == 1 {
                    ConfigAction::SendStats
                } else {
                    ConfigAction::Nothing
                }
            },
            ReceiveState::ConfigData => {
                if data.len() == MAX_BULK_LEN as usize {
                    self.file_write(fs, data);
                    ConfigAction::Nothing
                } else if tag == OPEN_SAVE_CONFIG && data.len() == 1 {
                    self.rcv_state = ReceiveState::ConfigData;
                    ConfigAction::Nothing
                } else if tag == CLOSE_SAVE_CONFIG {
                    self.file_write(fs, vstd::slice::slice_subrange(data, 1, data.len()));
                    let action = match self.fw.take() {
                        Some(mut fw) => {
                            let location = fw.location();
                            fw.close(fs);
                            ConfigAction::LoadLayout(location)
                        },
                        None => ConfigAction::Nothing,
                    };
                    self.rcv_state = ReceiveState::Idle;
                    action
                } else {
                    self.rcv_state = ReceiveState::Idle;
                    ConfigAction::Nothing
                }
            },
        }
    }

    /// Writes `data` to the config file, opening it first when it is not open.
    fn file_write<F: RingFs>(&mut self, fs: &mut F, data: &[u8])
        requires
            old(fs).fs_wf(),
        ensures
            final(fs).fs_wf(),
            final(self).rcv_state == old(self).rcv_state,
            old(self).fw is Some ==> final(self).fw is Some,
            old(self).fw matches Some(w) ==> (w.desc.state == FileState::Closed ==> final(self).fw == old(self).fw),
            old(self).fw matches Some(v) ==> (v.desc.state != FileState::Closed && final(self).fw.unwrap().desc.state
                != FileState::Closed ==> final(self).fw.unwrap().desc.offset == v.desc.offset + data@.len()),
            old(self).fw matches Some(v) ==> (v.desc.location != 0 ==> final(self).fw.unwrap().desc.location
                == v.desc.location),
            old(self).fw is None ==> (final(self).fw is Some <==> old(fs).files_idle()),
    {
        if self.fw.is_none() {
            match fs.create_file() {
                Ok(fw) => {
                    self.fw = Some(fw);
                },
                Err(_) => {
                    return ;
                },
            }
        }
        match self.fw.take() {
            Some(mut fw) => {
                let _ = fw.write(fs, data);
                self.fw = Some(fw);
            },
            None => {},
        }
    }
}

/// The file information message for the file `index` places before the newest: its location
/// and as much of its start as fits; a message with no file when it cannot be read.
pub fn read_file_info<F: RingFs>(fs: &mut F, index: u32) -> (r: HostMessage)
    requires
        old(fs).fs_wf(),
    ensures
        final(fs).fs_wf(),
        r.wf(),
        r.data@[0] == HOST_RECV_FILE_INFO,
        r.len == 0 ==> forall|i: int| 0 <= i < MSG_LEN ==> r.data@[i] == HOST_RECV_FILE_INFO,
        r.len != 0 ==> r.len >= 4,
        old(fs).file_location(index) is None ==> r.len == 0,
        r.len != 0 ==> (old(fs).file_location(index) matches Some(loc) && r.data@.subrange(1, 5) == le_u32_bytes(loc)
            && forall|k: int| 0 <= k < r.len - 4 ==> r.data@[5 + k] == old(fs).file_byte(loc, k)),
{
    match fs.file_reader_by_index(index) {
        Ok(mut fr) => {
            let mut info = HostMessage::file_info();
            let loc = le_u32_bytes_exec(fr.location());
            info.data[1] = loc[0];
            info.data[2] = loc[1];
            info.data[3] = loc[2];
            info.data[4] = loc[3];
            assert(info.data@.subrange(1, 5) =~= le_u32_bytes(fr.desc.location));
            let mut buf = [0u8; 59];
            let ghost fs1 = *fs;
            let ghost d0 = fr.desc;
            let result = fr.read(fs, &mut buf);
            fr.close(fs);
            match result {
                Ok(n) => {
                    proof {
                        assert forall|k: int| 0 <= k < n implies buf@[k] == old(fs).file_byte(d0.location, k) by {
                            let bytes = |p: int| fs1.file_byte(d0.location, p);
                            assert(buf@[k] == bytes(d0.offset + k));
                            
                            assert(fs1.file_byte(d0.location, k) == old(fs).file_byte(d0.location, k));
                        }
                    }
                    let mut i: usize = 0;
                    while i < n as usize
                        invariant
                            n <= 59,
                            i <= n,
                            buf@.len() == 59,
                            info.data@.len() == MSG_LEN,
                            info.data@[0] == HOST_RECV_FILE_INFO,
                            info.data@.subrange(1, 5) == le_u32_bytes(d0.location),
                            forall|k: int| 0 <= k < n ==> buf@[k] == old(fs).file_byte(d0.location, k),
                            forall|k: int| 0 <= k < i ==> info.data@[5 + k] == old(fs).file_byte(d0.location, k),
                        decreases n - i,
                    {
                        info.data[5 + i] = buf[i];
                        i = i + 1;
                        assert(info.data@.subrange(1, 5) =~= le_u32_bytes(d0.location));
                    }
                    info.len = n as usize + 4;
                    info
                },
                Err(_) => HostMessage::file_info(),
            }
        },
        Err(_) => HostMessage::file_info(),
    }
}

} // verus!
