//! The host's side of the USB vendor interface: what it sends to save a config on the
//! keyboard, and what it reads from the keyboard's answers.
use vstd::prelude::*;
use crate::usb_vendor_message::{CLOSE_SAVE_CONFIG, MAX_BULK_LEN, OPEN_SAVE_CONFIG};

verus! {

/// The kind of a stored file.
#[derive(Debug, Clone, Copy, PartialEq, Eq, Structural)]
pub enum FileType {
    Config,
}

impl FileType {
    pub fn as_u8(&self) -> (r: u8)
        ensures
            r == 0,
    {
        match self {
            FileType::Config => 0,
        }
    }

    /// The file type of the tag `value`: every tag is a config.
    pub fn from_u8(value: u8) -> (r: Self)
        ensures
            r == FileType::Config,
    {
        FileType::Config
    }
}

/// The keyboard's statistics: how long it has been up.
pub struct KeyboardStats {
    pub uptime_ms: u64,
}

/// The little-endian number of the four bytes of `b` from `i`.
pub open spec fn le_u32(b: Seq<u8>, i: int) -> u32 {
    (b[i] as u32 | ((b[i + 1] as u32) << 8u32) | ((b[i + 2] as u32) << 16u32) | ((b[i + 3] as u32)
        << 24u32)) as u32
}

fn read_le_u32(b: &[u8], i: usize) -> (r: u32)
    requires
        i + 4 <= b@.len(),
    ensures
        r == le_u32(b@, i as int),
{
    b[i] as u32 | ((b[i + 1] as u32) << 8) | ((b[i + 2] as u32) << 16) | ((b[i + 3] as u32) << 24)
}

impl KeyboardStats {
    /// The statistics in a statistics message after its tag: the uptime in milliseconds.
    pub fn from_bytes(value: &[u8]) -> (r: Self)
        requires
            value@.len() >= 4,
        ensures
            r.uptime_ms == le_u32(value@, 0),
    {
        KeyboardStats { uptime_ms: read_le_u32(value, 0) as u64 }
    }
}

/// A file as the keyboard describes it: where it lies, its length, when it was saved (in
/// milliseconds since 1970), its type and name, and its number counted from the newest.
pub struct FileInfo {
    pub timestamp_ms: i64,
    pub length: u32,
    pub location: u32,
    pub index: u32,
    pub file_type: FileType,
    pub filename: Vec<u8>,
}

impl FileInfo {
    pub fn is_none(&self) -> (r: bool)
        ensures
            r == (self.location == 0),
    {
        self.location == 0
    }

    /// The file described by a file information message after its tag: location, length
    /// and time, little-endian, then the type, the length of the name and the name, which a
    /// zero byte may pad at its start. A message too short describes no file.
    pub fn from_bytes(value: &[u8]) -> (r: Self)
        ensures
            value@.len() < 18 ==> r.location == 0 && r.length == 0 && r.timestamp_ms == 0
                && r.filename@.len() == 0 && r.index == 0,
            value@.len() >= 18 ==> {
                &&& r.location == le_u32(value@, 0)
                &&& r.length == le_u32(value@, 4)
                &&& r.timestamp_ms == le_u64(value@, 8) as i64
                &&& r.index == 0
                &&& r.filename@ == value@.subrange(
                    name_start(value@),
                    name_end(value@),
                )
            },
    {
        if value.len() < 18 {
            return FileInfo {
                timestamp_ms: 0,
                length: 0,
                location: 0,
                index: 0,
                file_type: FileType::Config,
                filename: Vec::new(),
            };
        }
        let location = read_le_u32(value, 0);
        let length = read_le_u32(value, 4);
        let lo = read_le_u32(value, 8) as u64;
        let hi = read_le_u32(value, 12) as u64;
        let ts = lo | (hi << 32);
        let timestamp_ms: i64 = ts as i64;
        let name_end = if (value[17] as usize) + 18 < value.len() {
            value[17] as usize + 18
        } else {
            value.len()
        };
        let mut start: usize = 18;
        if start < name_end && value[start] == 0 {
            start = start + 1;
        }
        let filename = vstd::slice::slice_to_vec(vstd::slice::slice_subrange(value, start, name_end));
        FileInfo { timestamp_ms, length, location, index: 0, file_type: FileType::from_u8(value[16]), filename }
    }
}

/// The little-endian number of the eight bytes of `b` from `i`.
pub open spec fn le_u64(b: Seq<u8>, i: int) -> u64 {
    (le_u32(b, i) as u64 | ((le_u32(b, i + 4) as u64) << 32u64)) as u64
}

/// Where the name in a file information message ends: after the length its byte 17 gives,
/// or at the message's end.
pub open spec fn name_end(b: Seq<u8>) -> int {
    if b[17] + 18 < b.len() {
        b[17] + 18
    } else {
        b.len() as int
    }
}

/// Where the name in a file information message starts: at byte 18, or after a zero byte
/// there.
pub open spec fn name_start(b: Seq<u8>) -> int {
    if 18 < name_end(b) && b[18] == 0 {
        19
    } else {
        18
    }
}

/// The name bytes of a config file: at most 50 bytes of `name`, with a zero byte in front
/// where that makes an odd count even.
pub open spec fn spec_file_name_bytes(name: Seq<u8>) -> Seq<u8> {
    let n = if name.len() < 50 {
        name
    } else {
        name.subrange(0, 50)
    };
    if n.len() % 2 == 1 {
        seq![0u8] + n
    } else {
        n
    }
}

/// The little-endian bytes of the words `words`.
pub open spec fn le_bytes(words: Seq<u16>) -> Seq<u8> {
    Seq::new(2 * words.len(), |i: int| if i % 2 == 0 {
        (words[i / 2] & 0xff) as u8
    } else {
        (words[i / 2] >> 8u16) as u8
    })
}

/// The bytes of a config file holding the layout words `data`: its total length, its time
/// `timestamp`, its type, the length of its name, the name and the words.
pub open spec fn spec_config_file(data: Seq<u16>, name: Seq<u8>, timestamp: u64) -> Seq<u8> {
    let nb = spec_file_name_bytes(name);
    let total = (18 + nb.len() + 2 * data.len()) as u32;
    le_u32_bytes(total) + le_u32_bytes(timestamp as u32) + le_u32_bytes((timestamp >> 32u64) as u32)
        + seq![0u8, nb.len() as u8] + nb + le_bytes(data)
}

/// The little-endian bytes of `v`.
pub open spec fn le_u32_bytes(v: u32) -> Seq<u8> {
    seq![(v & 0xff) as u8, ((v >> 8u32) & 0xff) as u8, ((v >> 16u32) & 0xff) as u8, (v >> 24u32) as u8]
}

fn push_le_u32(out: &mut Vec<u8>, v: u32)
    ensures
        final(out)@ == old(out)@ + le_u32_bytes(v),
{
    out.push((v & 0xff) as u8);
    out.push(((v >> 8) & 0xff) as u8);
    out.push(((v >> 16) & 0xff) as u8);
    out.push((v >> 24) as u8);
    assert(final(out)@ =~= old(out)@ + le_u32_bytes(v));
}

/// The bytes of a config file holding the layout words `data`, named `name`, saved at
/// `timestamp`.
pub fn config_file_bytes(data: &[u16], name: &[u8], timestamp: u64) -> (r: Vec<u8>)
    requires
        data@.len() < 0x7fff_0000,
    ensures
        r@ == spec_config_file(data@, name@, timestamp),
{
    let n = if name.len() < 50 {
        name
    } else {
        vstd::slice::slice_subrange(name, 0, 50)
    };
    let mut nb: Vec<u8> = Vec::new();
    if n.len() % 2 == 1 {
        nb.push(0);
    }
    let mut i: usize = 0;
    let ghost head = nb@;
    while i < n.len()
        invariant
            i <= n@.len(),
            nb@ == head + n@.subrange(0, i as int),
        decreases n@.len() - i,
    {
        nb.push(n[i]);
        i = i + 1;
        assert(nb@ =~= head + n@.subrange(0, i as int));
    }
    assert(n@.subrange(0, n@.len() as int) =~= n@);
    assert(nb@ =~= spec_file_name_bytes(name@));
    let total: u32 = 18 + nb.len() as u32 + 2 * data.len() as u32;
    let mut out: Vec<u8> = Vec::new();
    push_le_u32(&mut out, total);
    push_le_u32(&mut out, timestamp as u32);
    push_le_u32(&mut out, (timestamp >> 32) as u32);
    out.push(0);
    out.push(nb.len() as u8);
    let mut k: usize = 0;
    let ghost pre = out@;
    while k < nb.len()
        invariant
            k <= nb@.len(),
            out@ == pre + nb@.subrange(0, k as int),
        decreases nb@.len() - k,
    {
        out.push(nb[k]);
        k = k + 1;
        assert(out@ =~= pre + nb@.subrange(0, k as int));
    }
    assert(nb@.subrange(0, nb@.len() as int) =~= nb@);
    let ghost mid = out@;
    let mut j: usize = 0;
    while j < data.len()
        invariant
            j <= data@.len(),
            out@ == mid + le_bytes(data@.subrange(0, j as int)),
        decreases data@.len() - j,
    {
        let w = data[j];
        out.push((w & 0xff) as u8);
        out.push((w >> 8) as u8);
        j = j + 1;
        assert(out@ =~= mid + le_bytes(data@.subrange(0, j as int)));
    }
    assert(data@.subrange(0, data@.len() as int) =~= data@);
    assert(out@ =~= spec_config_file(data@, name@, timestamp));
    out
}

/// The messages that save the config file `file`: an open message, the file in bulk
/// messages of the largest size, and the rest after a close tag.
pub open spec fn spec_save_config_messages(file: Seq<u8>) -> Seq<Seq<u8>> {
    let k = (file.len() / 64) as int;
    Seq::new(
        (k + 2) as nat,
        |i: int|
            if i == 0 {
                seq![OPEN_SAVE_CONFIG]
            } else if i <= k {
                file.subrange(64 * (i - 1), 64 * i)
            } else {
                seq![CLOSE_SAVE_CONFIG] + file.subrange(64 * k, file.len() as int)
            },
    )
}

/// The messages that save the config file `file`; see `spec_save_config_messages`.
pub fn save_config_messages(file: &[u8]) -> (r: Vec<Vec<u8>>)
    ensures
        r@.len() == file@.len() / 64 + 2,
        forall|i: int| 0 <= i < r@.len() ==> #[trigger] r@[i]@ == spec_save_config_messages(file@)[i],
{
    let mut out: Vec<Vec<u8>> = Vec::new();
    out.push(vec![OPEN_SAVE_CONFIG]);
    let chunk = MAX_BULK_LEN as usize;
    let mut start: usize = 0;
    loop
        invariant
            chunk == 64,
            start <= file@.len(),
            start % 64 == 0,
            out@.len() == start / 64 + 1,
            forall|i: int| 0 <= i < out@.len() ==> #[trigger] out@[i]@ == spec_save_config_messages(file@)[i],
        decreases file@.len() - start,
    {
        if file.len() - start < chunk {
            let mut last: Vec<u8> = Vec::new();
            last.push(CLOSE_SAVE_CONFIG);
            let mut i = start;
            while i < file.len()
                invariant
                    start <= i <= file@.len(),
                    last@ == seq![CLOSE_SAVE_CONFIG] + file@.subrange(start as int, i as int),
                decreases file@.len() - i,
            {
                last.push(file[i]);
                i = i + 1;
                assert(last@ =~= seq![CLOSE_SAVE_CONFIG] + file@.subrange(start as int, i as int));
            }
            assert(start / 64 == file@.len() / 64);
            out.push(last);
            return out;
        }
        let piece = vstd::slice::slice_to_vec(vstd::slice::slice_subrange(file, start, start + chunk));
        out.push(piece);
        start = start + chunk;
    }
}

/// The bytes the keyboard writes to its config file from the messages `msgs` that follow an
/// open message: a full bulk message is file data, and a close message adds the bytes after
/// its tag and ends the file.
pub open spec fn received_config_bytes(msgs: Seq<Seq<u8>>) -> Seq<u8>
    decreases msgs.len(),
{
    if msgs.len() == 0 {
        seq![]
    } else if msgs[0].len() == MAX_BULK_LEN {
        msgs[0] + received_config_bytes(msgs.drop_first())
    } else if msgs[0].len() > 0 && msgs[0][0] == CLOSE_SAVE_CONFIG {
        msgs[0].drop_first()
    } else {
        seq![]
    }
}

/// What the keyboard receives of a saved config file is the file: after the open message,
/// every message but the last is a full bulk message of file data, and the last is a close
/// message with the rest. This fails for a file whose length leaves 63 bytes over a multiple
/// of a bulk message: its close message is full, and is taken for data.
pub proof fn law_saved_config_received(file: Seq<u8>)
    requires
        file.len() % 64 != 63,
    ensures
        spec_save_config_messages(file)[0] == seq![OPEN_SAVE_CONFIG],
        received_config_bytes(spec_save_config_messages(file).drop_first()) == file,
{
    let msgs = spec_save_config_messages(file);
    let k = (file.len() / 64) as int;
    let tail = msgs.drop_first();
    assert forall|j: int| 0 <= j <= k implies #[trigger] received_config_bytes(tail.subrange(j, tail.len() as int))
        == file.subrange(64 * j, file.len() as int) by {
        lemma_received_suffix(file, j);
    }
    assert(tail.subrange(0, tail.len() as int) == tail);
}

proof fn lemma_received_suffix(file: Seq<u8>, j: int)
    requires
        file.len() % 64 != 63,
        0 <= j <= file.len() / 64,
    ensures
        received_config_bytes(spec_save_config_messages(file).drop_first().subrange(
            j,
            (file.len() / 64 + 1) as int,
        )) == file.subrange(64 * j, file.len() as int),
    decreases file.len() / 64 - j,
{
    let k = (file.len() / 64) as int;
    let tail = spec_save_config_messages(file).drop_first();
    let t = tail.subrange(j, k + 1);
    if j == k {
        let last = seq![CLOSE_SAVE_CONFIG] + file.subrange(64 * k, file.len() as int);
        assert(t[0] == last);
        assert(last.len() < 64);
        assert(last.drop_first() =~= file.subrange(64 * k, file.len() as int));
    } else {
        lemma_received_suffix(file, j + 1);
        assert(t[0] == file.subrange(64 * j, 64 * (j + 1)));
        assert(t.drop_first() =~= tail.subrange(j + 1, k + 1));
        assert(file.subrange(64 * j, 64 * (j + 1)) + file.subrange(64 * (j + 1), file.len() as int)
            =~= file.subrange(64 * j, file.len() as int));
    }
}

} // verus!
