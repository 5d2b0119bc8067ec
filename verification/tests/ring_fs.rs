use rpk::norflash_ring_fs::NorFlash;
use rpk::flash_stub::NorFlashStub;
use rpk::norflash_ring_fs::NorflashRingFs;
use rpk::ring_fs::{RingFs, RingFsError};

const DEFAULT_DSIZE: usize = 512;
const DIR_SIZE: u32 = 64;
const PAGE_SIZE: usize = 16;
const MAX_FILES: u32 = 20;

type DefaultNorFlashStub = NorFlashStub<DEFAULT_DSIZE>;
type TestMaxFilesFs<const M: u32> =
    NorflashRingFs<DefaultNorFlashStub, 0, DEFAULT_DSIZE, DIR_SIZE, PAGE_SIZE, M>;
type TestFs = TestMaxFilesFs<MAX_FILES>;

fn new_fs() -> TestFs {
    TestFs::new(DefaultNorFlashStub::default()).unwrap()
}

fn reopen(fs: TestFs) -> TestFs {
    TestFs::new(fs.flash).unwrap()
}

fn numbered<const N: usize>() -> [u8; N] {
    core::array::from_fn(|i| i as u8)
}

#[test]
fn ring_fs() {
    let mut fs = new_fs();

    let data: [u8; 30] = numbered();
    {
        let mut fw = fs.create_file().unwrap();
        fw.write(&mut fs, &34u32.to_le_bytes()).unwrap();
        fw.write(&mut fs, &data).unwrap();
        assert!(fw.is_closed());
    }
    let mut fr = fs.file_reader_by_index(0).unwrap();
    let mut rdata = [0; 34];
    assert_eq!(fr.read(&mut fs, &mut rdata).unwrap(), 34);

    assert_eq!(&34u32.to_le_bytes(), &rdata[..4]);
    assert_eq!(&data, &rdata[4..]);
    assert!(fr.is_closed());
    fr.close(&mut fs);
    assert!(fr.is_closed());
}

#[test]
fn limit_max_files() {
    let mut fs = TestMaxFilesFs::<6>::new(DefaultNorFlashStub::default()).unwrap();
    for i in 0..8 {
        let mut fw = fs.create_file().unwrap();
        fw.write(&mut fs, &5_u32.to_le_bytes()).unwrap();
        fw.write(&mut fs, &[i as u8]).unwrap();
    }
    let mut i = 0;
    loop {
        let Ok(mut fr) = fs.file_reader_by_index(i) else {
            break;
        };
        fr.close(&mut fs);
        i += 1;
    }
    assert_eq!(i, 5);
}

#[test]
fn recycle_dir_page() {
    let buf: [u8; 100] = numbered();
    let mut fs = new_fs();

    for i in 0..12 {
        let mut fw = fs.create_file().unwrap();
        fw.write(&mut fs, &(i as u32 + 34).to_le_bytes()).unwrap();

        fw.write(&mut fs, &buf[i..i * 2 + 30]).unwrap();
    }

    let i = 12;
    let mut fw = fs.create_file().unwrap();
    fw.write(&mut fs, &(i as u32 * 2 + 34).to_le_bytes()).unwrap();
    fw.write(&mut fs, &buf[i..i * 3 + 30]).unwrap();

    assert_eq!(fs.oldest_file_index, 12);
    assert_eq!(fs.next_file_index, 44);
    assert_eq!(fs.read_u32(12).unwrap(), 0x140);
    assert_eq!(fs.read_u32(40).unwrap(), 0xe0);
    fs.recycle_dir_page().unwrap();

    assert_eq!(fs.oldest_file_index, 12);
    assert_eq!(fs.next_file_index, 36);
    assert_eq!(fs.read_u32(12).unwrap(), 0x1a0);
    assert_eq!(fs.read_u32(32).unwrap(), 0xe0);

    let mut fw = fs.create_file().unwrap();
    fw.write(&mut fs, &6u32.to_le_bytes()).unwrap();
    fw.write(&mut fs, &buf[..2]).unwrap();

    fs.recycle_dir_page().unwrap();

    assert_eq!(fs.oldest_file_index, 12);
    assert_eq!(fs.next_file_index, 40);
    assert_eq!(fs.read_u32(12).unwrap(), 0x1a0);
    assert_eq!(fs.read_u32(36).unwrap(), 0x120);
    let index = fs.free_index;
    assert_eq!(index, 0x130);
    let len = fs.read_u32(index).unwrap();
    assert_eq!(len, u32::MAX >> 1);

    let mut fs = reopen(fs);
    let mut fw = fs.create_file().unwrap();
    fw.write(&mut fs, &7u32.to_le_bytes()).unwrap();
    fw.write(&mut fs, &buf[..3]).unwrap();
    assert_eq!(fs.free_index, 0x140);
}

#[test]
fn marker_spans_end_recycle_dir_page() {
    let buf: [u8; 200] = numbered();
    let mut fs = new_fs();

    for i in 0..4 {
        let mut fw = fs.create_file().unwrap();
        let i = i * 9 + 81;
        fw.write(&mut fs, &((i + 4) as u32).to_le_bytes()).unwrap();
        fw.write(&mut fs, &buf[..i]).unwrap();
    }

    // the write of the oldest file's location at the start of the block after the marker
    // fails
    fs.flash.fail_write_at = Some(128);
    assert_eq!(fs.free_index, 496);
    assert!(fs.recycle_dir_page().is_err());
    assert_eq!(fs.next_file_offset(0x1f0, u32::MAX >> 1).unwrap(), 272);
    fs.flash.fail_write_at = None;

    fs.flash.buf[0] = 0; // corrupt the dir

    // recover_dir_from_store
    let mut fs = reopen(fs);
    assert_eq!(fs.oldest_file_index, 12);
    assert_eq!(fs.next_file_index, 20);
    assert_eq!(fs.free_index, 496);
    assert_eq!(fs.read_u32(80).unwrap(), u32::MAX >> 1);
    assert_eq!(fs.read_u32(12).unwrap(), 0x110);
    assert_eq!(fs.read_u32(16).unwrap(), 0x180);
}

const FORMATTED: [u8; 16] = [
    110, 15, 172, 11, 64, 0, 0, 2, 0, 2, 0, 0, 255, 255, 255, 255,
];

fn header_pattern(suffix: &[u8]) -> [u8; FORMATTED.len()] {
    let mut pattern = FORMATTED;
    pattern[FORMATTED.len() - suffix.len()..].copy_from_slice(suffix);
    pattern
}

#[test]
fn uninitialized_disk() {
    let fs = new_fs();
    let mut stub = fs.flash;
    assert_eq!(&stub.buf[..16], &FORMATTED);
    assert_eq!(&stub.buf[64..(64 + 16)], &FORMATTED);

    stub.buf[12] = 0;
    stub.buf[13] = 0x01;
    stub.buf[14] = 0;
    stub.buf[15] = 0;

    let fs = TestFs::new(stub).unwrap();
    assert_eq!(fs.oldest_file_index, 12);
    assert_eq!(fs.next_file_index, 16);
    assert_eq!(fs.free_index, 256);
    let mut stub = fs.flash;
    assert_eq!(&stub.buf[..16], &header_pattern(&[0, 1, 0, 0]));

    // format disk
    stub.buf[63] = 0xf0;

    let mut stub = TestFs::new(stub).unwrap().flash;
    assert_eq!(&stub.buf[..16], &FORMATTED);

    // test corrupt empty dir
    stub.buf[1] = 0;
    stub.buf[15] = 0;

    let mut stub = TestFs::new(stub).unwrap().flash;
    assert_eq!(&stub.buf[..16], &FORMATTED);

    assert_eq!(&stub.buf[64..80], &FORMATTED);

    stub.buf[64 + 15] = 0;

    let stub = TestFs::new(stub).unwrap().flash;
    assert_eq!(&stub.buf[64..80], &header_pattern(&[255, 255, 255, 0]));
}

#[test]
fn align() {
    type FS = NorflashRingFs<NorFlashStub<256>, 0, 256, 64, 16, 6>;
    let fs = FS::new(NorFlashStub::<256>::default()).unwrap();

    assert_eq!(fs.align_start_erase(63), 0);
    assert_eq!(fs.align_start_erase(64), 64);
    assert_eq!(fs.align_start_erase(65), 64);
    assert_eq!(fs.align_start_erase(129), 128);
    assert_eq!(fs.align_start_erase(0), 0);

    assert_eq!(FS::align_next_page(15), 16);
    assert_eq!(FS::align_next_page(16), 16);
    assert_eq!(FS::align_next_page(17), 32);
    assert_eq!(FS::align_next_page(0), 0);
}

#[test]
fn reader_writer_conflicts() {
    let mut fs = new_fs();

    // only one writer; no readers
    let mut fw = fs.create_file().unwrap();
    fw.write(&mut fs, &5u32.to_le_bytes()).unwrap();
    assert!(!fw.is_closed());
    assert!(matches!(fs.create_file(), Err(RingFsError::InUse)));
    assert!(matches!(fs.file_reader_by_index(0), Err(RingFsError::InUse)));

    fw.write(&mut fs, &[60]).unwrap();
    assert!(fw.is_closed());

    // multi readers; no writers
    let mut fr1 = fs.file_reader_by_index(0).unwrap();
    let mut fr2 = fs.file_reader_by_index(0).unwrap();

    let mut buf1 = [0; 5];
    let mut buf2 = [0; 5];

    assert_eq!(fr1.read(&mut fs, &mut buf1).unwrap(), 5);
    assert!(matches!(fs.create_file(), Err(RingFsError::InUse)));
    assert_eq!(fr2.read(&mut fs, &mut buf2).unwrap(), 5);

    assert_eq!(&buf2, &[5, 0, 0, 0, 60]);
    assert_eq!(&buf1, &buf2);
    {
        let mut fw = fs.create_file().unwrap();
        fw.close(&mut fs);
    }
    let mut fw = fs.create_file().unwrap();
    fw.close(&mut fs);

    let mut fr2 = fs.file_reader_by_index(0).unwrap();
    assert_eq!(fr2.read(&mut fs, &mut buf2).unwrap(), 5);

    assert_eq!(&buf2, &[5, 0, 0, 0, 60]);
}

#[test]
fn seek() {
    let mut fs = new_fs();

    let mut fw = fs.create_file().unwrap();
    fw.write(&mut fs, &8u32.to_le_bytes()).unwrap();
    fw.write(&mut fs, &[6, 5, 4, 3]).unwrap();

    let mut fr = fs.file_reader_by_index(0).unwrap();
    let mut buf = [0];

    fr.read(&mut fs, &mut buf).unwrap();
    assert_eq!(buf[0], 8);
    fr.seek(4);
    fr.read(&mut fs, &mut buf).unwrap();
    assert_eq!(buf[0], 6);

    fr.seek(0);
    fr.read(&mut fs, &mut buf).unwrap();
    assert_eq!(buf[0], 8);

    fr.seek(40);
    let err = fr.read(&mut fs, &mut buf).err().unwrap();
    assert!(matches!(err, RingFsError::OutOfBounds));
    assert!(fr.is_closed());
}

#[test]
fn create_file() {
    let mut fs = new_fs();

    let start = {
        let mut fw = fs.create_file().unwrap();

        fw.write(&mut fs, &134u32.to_le_bytes()).unwrap();

        fw.write(&mut fs, b"0123456789abcdefghijklmnopqrstuvwxyz!@#$").unwrap();
        let buf: [u8; 90] = numbered();
        assert!(!fw.is_closed());
        fw.write(&mut fs, &buf).unwrap();
        assert!(fw.is_closed(), "should auto close once full");

        fw.location()
    };
    assert_eq!(fs.read_u32(12).unwrap(), 80);

    {
        let mut buf = [0; 140];

        let mut fr = fs.file_reader_by_index(0).unwrap();

        let n = fr.read(&mut fs, &mut buf).unwrap();

        assert_eq!(n, 134);
        let (len, data) = buf.split_at(4);
        assert_eq!(len, 134u32.to_le_bytes());
        assert_eq!(&data[..10], b"0123456789");

        assert_eq!(data[..130].iter().map(|n| *n as usize).sum::<usize>(), 7545);

        assert!(fr.is_closed());
        let mut fr = fs.file_reader_by_location(start).unwrap();
        fr.read(&mut fs, &mut buf).unwrap();
    }

    assert_eq!(
        fs.flash.buf[80..(80 + 134)].iter().map(|n| *n as usize).sum::<usize>(),
        7545 + 134
    );
}

fn length_prefixed_154() -> [u8; 154] {
    core::array::from_fn(|i| if i < 4 { 154u32.to_le_bytes()[i] } else { i as u8 })
}

#[test]
fn fill_disk() {
    let mut fs = new_fs();
    let buf = length_prefixed_154();

    for i in 0..3 {
        let mut fw = fs.create_file().unwrap();
        fw.write(&mut fs, &54u32.to_le_bytes()).unwrap();
        fw.write(&mut fs, &buf[(i * 50)..(50 + i * 50)]).unwrap();
    }

    let mut fw = fs.create_file().unwrap();
    fw.write(&mut fs, &buf).unwrap();
    assert_eq!(fs.read_u32(80).unwrap(), 54); // length of first file
    assert_eq!(fs.free_index, 432);
    assert_eq!(fs.next_file_index, 28);

    // should be too big to fit at end; need to split in two
    let mut fw = fs.create_file().unwrap();
    fw.write(&mut fs, &104u32.to_le_bytes()).unwrap();

    fw.write(&mut fs, &buf[..100]).unwrap();
    assert!(fw.is_closed());

    // read_file should work with split file
    let mut fr = fs.file_reader_by_index(0).unwrap();
    let mut rbuf = [0; 104];
    assert_eq!(fr.read(&mut fs, &mut rbuf).unwrap(), 104);
    assert_eq!(&buf[..100], &rbuf[4..]);

    let mut fw = fs.create_file().unwrap();
    fw.write(&mut fs, &24u32.to_le_bytes()).unwrap();
    fw.write(&mut fs, &buf[130..150]).unwrap();

    assert_eq!(fs.free_index, 144);
    assert_eq!(fs.next_file_index, 36);
    assert_eq!(fs.read_u32(12).unwrap(), 0); // deleted
    assert_eq!(fs.read_u32(16).unwrap(), 0); // deleted
    assert_eq!(fs.read_u32(20).unwrap(), 208);
    assert_eq!(fs.read_u32(24).unwrap(), 272);
    assert_eq!(fs.read_u32(28).unwrap(), 432);
    assert_eq!(fs.read_u32(32).unwrap(), 0x70);

    assert_eq!(fs.read_u32(0x50).unwrap(), 32);
    assert_eq!(fs.read_u32(0x70).unwrap(), 24);
}

#[test]
fn recover_store_from_dir() {
    let mut fs = new_fs();
    let buf = length_prefixed_154();

    for i in 0..3 {
        let mut fw = fs.create_file().unwrap();
        fw.write(&mut fs, &54u32.to_le_bytes()).unwrap();
        fw.write(&mut fs, &buf[(i * 50)..(50 + i * 50)]).unwrap();
    }

    fs.delete_oldest().unwrap();
    fs.delete_oldest().unwrap();
    fs.erase(64, 128).unwrap();

    // recover_store_from_dir
    let mut fs = reopen(fs);

    assert_eq!(fs.free_index, 80);
    assert_eq!(fs.next_file_index, 24);
    assert_eq!(fs.read_u32(12).unwrap(), 0); // deleted
    assert_eq!(fs.read_u32(16).unwrap(), 0); // deleted
    assert_eq!(fs.read_u32(20).unwrap(), 208);
    assert_eq!(fs.read_u32(24).unwrap(), u32::MAX);

    assert_eq!(fs.read_u32(208).unwrap(), 54);
    assert_eq!(&fs.flash.buf[64..80], &FORMATTED);
}

#[test]
fn recover_dir_from_store() {
    let mut fs = new_fs();
    let buf = length_prefixed_154();

    for i in 0..7 {
        let mut fw = fs.create_file().unwrap();
        fw.write(&mut fs, &54u32.to_le_bytes()).unwrap();
        let i = i % 3;
        fw.write(&mut fs, &buf[(i * 50)..(50 + i * 50)]).unwrap();
    }
    assert_eq!(fs.oldest_file_index, 16);
    assert_eq!(fs.next_file_index, 40);
    assert_eq!(fs.free_index, 96);

    // no recover needed here
    let mut fs = reopen(fs);
    assert_eq!(fs.oldest_file_index, 16);
    assert_eq!(fs.next_file_index, 40);
    assert_eq!(fs.free_index, 96);

    // erasing the block after the marker fails
    fs.flash.fail_erase_at = Some(128);
    assert!(fs.recycle_dir_page().is_err());
    fs.flash.fail_erase_at = None;

    // no recover needed here either
    let mut fs = reopen(fs);
    assert_eq!(fs.free_index, 96);
    assert_eq!(fs.next_file_index, 40);
    assert_eq!(fs.read_u32(12).unwrap(), 0); // deleted
    assert_eq!(fs.read_u32(16).unwrap(), 0); // deleted
    assert_eq!(fs.read_u32(20).unwrap(), 208);
    assert_eq!(fs.read_u32(36).unwrap(), 464);

    assert_eq!(fs.read_u32(208).unwrap(), 54);

    // erasing the directory fails after its header was damaged
    fs.flash.buf[0] = 0;
    fs.flash.fail_erase_at = Some(0);
    assert!(fs.recycle_dir_page().is_err());
    fs.flash.fail_erase_at = None;

    // recover_dir_from_store
    let mut fs = reopen(fs);

    let mut fr = fs.file_reader_by_index(0).unwrap();
    let mut buf = [0; 54];
    assert_eq!(fr.read(&mut fs, &mut buf).unwrap(), 54);
    assert_eq!(buf.iter().map(|i| *i as usize).sum::<usize>(), 1427);

    assert_eq!(fs.free_index, 96);
    assert_eq!(fs.next_file_index, 32);
    assert_eq!(fs.read_u32(12).unwrap(), 0xd0);
    assert_eq!(fs.read_u32(16).unwrap(), 0x110);
    assert_eq!(fs.read_u32(28).unwrap(), 0x1d0);

    assert_eq!(fs.read_u32(80).unwrap(), 16);
    assert_eq!(&fs.flash.buf[..12], &FORMATTED[..12]);
}

#[test]
fn file_not_found_past_oldest() {
    let mut fs = new_fs();
    assert!(matches!(fs.file_reader_by_index(0), Err(RingFsError::FileNotFound)));
    assert!(matches!(fs.file_reader_by_index(u32::MAX), Err(RingFsError::FileNotFound)));
}

#[test]
fn file_length_required_and_bounded() {
    let mut fs = new_fs();
    let mut fw = fs.create_file().unwrap();
    assert!(matches!(fw.write(&mut fs, &[1, 2]), Err(RingFsError::MissingFileLength)));
    assert!(fw.is_closed());
    let mut fw = fs.create_file().unwrap();
    assert!(matches!(
        fw.write(&mut fs, &10_000u32.to_le_bytes()),
        Err(RingFsError::FileTooLarge)
    ));
    let mut fw = fs.create_file().unwrap();
    fw.write(&mut fs, &6u32.to_le_bytes()).unwrap();
    assert!(matches!(fw.write(&mut fs, &[1, 2, 3]), Err(RingFsError::FileOverrun)));
    assert!(fw.is_closed());
}
