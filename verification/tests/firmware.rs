use rpk::norflash_ring_fs::NorFlash;
use rpk::bits::{add_key_bit, del_key_bit, KEY_BITS_SIZE};
use rpk::flash_stub::{FlashStubError, NorFlashStub};
use rpk::key_event::KeyEvent;
use rpk::layout::search_code;
use rpk::scan_key::{ScanKey, TimedScanKey};

#[test]
fn key_bits() {
    let mut bits = [0; KEY_BITS_SIZE];
    assert!(add_key_bit(&mut bits, 0x06));
    assert!(add_key_bit(&mut bits, 0x07));
    assert!(!add_key_bit(&mut bits, 0x07));
    assert!(add_key_bit(&mut bits, 0x08));
    assert!(add_key_bit(&mut bits, 0xe7));
    assert_eq!(&bits[..3], &[0b1100_0000, 0x01, 0]);
    assert_eq!(bits[KEY_BITS_SIZE - 4], 128);

    assert!(del_key_bit(&mut bits, 0x07));
    assert_eq!(&bits[..3], &[0b0100_0000, 0x01, 0]);
    assert!(!del_key_bit(&mut bits, 0x07));
}

#[test]
fn search_code_bug() {
    let codes = [
        258, 4096, 259, 4097, 260, 4098, 514, 4099, 515, 4100, 516, 4101, 770, 4102, 771, 4103,
        772, 4104,
    ];

    assert_eq!(search_code(&codes, 1, 1), 0);
    assert_eq!(search_code(&codes, 2, 6), 0);
    assert_eq!(search_code(&codes, 6, 1), 0);
    assert_eq!(search_code(&codes, 2, 2), 4099);
    assert_eq!(search_code(&codes, 3, 4), 4104);

    assert_eq!(search_code(&codes, 1, 2), 4096);
    assert_eq!(search_code(&codes, 2, 3), 4100);
    assert_eq!(search_code(&codes, 3, 3), 4103);
    assert_eq!(search_code(&codes, 3, 3), 4103);
    assert_eq!(search_code(&codes, 3, 2), 4102);
}

#[test]
fn nor_flash_stub() {
    let _err = FlashStubError::Unknown;

    let mut stub: NorFlashStub<256> = NorFlashStub::default();

    const BASE: u32 = 10;

    let mut buf = [0, 1, 2, 3];
    stub.read(BASE, &mut buf).unwrap();
    assert_eq!(&buf, &[0, 0, 0, 0]);

    let buf2 = [0xff, 0xf2, 0xf4, 0xf8];

    stub.write(BASE, &buf2).unwrap();

    stub.read(BASE, &mut buf).unwrap();
    assert_eq!(&buf, &[0, 0, 0, 0]);

    stub.erase(BASE, BASE + 16).unwrap();
    stub.read(BASE, &mut buf).unwrap();
    assert_eq!(&buf, &[0xff, 0xff, 0xff, 0xff]);

    stub.write(BASE, &buf2).unwrap();

    stub.read(BASE, &mut buf).unwrap();
    assert_eq!(&buf, &buf2);

    let buf2 = [0x12, 0x4f, 0x8f, 0x4f];

    stub.write(BASE, &buf2).unwrap();

    stub.read(BASE, &mut buf).unwrap();
    assert_eq!(&buf, &[18, 66, 132, 72]);
}

#[test]
fn mouse_key_event() {
    assert_eq!(KeyEvent::mouse_move(0, 10, 123), KeyEvent::MouseMove(0, 10, 123));
    assert_eq!(KeyEvent::mouse_move(1, -10, 0), KeyEvent::MouseMove(1, 246, 0));
}

#[test]
fn memo_timed_scan_key() {
    let mut t = TimedScanKey(ScanKey::new(1, 2, true), 1274);
    let memo = t.as_memo();
    assert_eq!(t.1, TimedScanKey::from_memo(&memo).1);

    t.1 = u64::MAX;
    let memo = t.as_memo();
    assert_eq!(t.1, TimedScanKey::from_memo(&memo).1);

    t.1 = std::time::SystemTime::now()
        .duration_since(std::time::UNIX_EPOCH)
        .unwrap()
        .as_micros() as u64;
    let memo = t.as_memo();
    assert_eq!(t.1, TimedScanKey::from_memo(&memo).1);
    assert_eq!(t.0.row(), 1);
    assert_eq!(t.0.column(), 2);
    assert!(t.0.is_down());
}
