use rpk::norflash_ring_fs::NorFlash;
use rpk::flash_stub::NorFlashStub;
use rpk::host_message::{ConfigAction, ConfigFileIter, ConfigInterface, HostMessage, ReceiveState};
use rpk::norflash_ring_fs::NorflashRingFs;
use rpk::ring_fs::RingFs;
use rpk::usb_vendor_message as msg;

type TestFs = NorflashRingFs<NorFlashStub<512>, 0, 512, 64, 16, 20>;

fn new_fs() -> TestFs {
    TestFs::new(NorFlashStub::default()).unwrap()
}

#[test]
fn reset_from_usb() {
    let mut fs = new_fs();
    let mut ci = ConfigInterface::new();
    assert!(matches!(ci.receive(&mut fs, &[msg::RESET_KEYBOARD]), ConfigAction::Reset));
    assert!(matches!(ci.receive(&mut fs, &[msg::RESET_KEYBOARD, 0]), ConfigAction::Nothing));
}

#[test]
fn reset_to_usb_boot_from_usb() {
    let mut fs = new_fs();
    let mut ci = ConfigInterface::new();
    assert!(matches!(
        ci.receive(&mut fs, &[msg::RESET_TO_USB_BOOT]),
        ConfigAction::ResetToUsbBoot
    ));
}

#[test]
fn read_file() {
    let mut fs = new_fs();
    let mut ci = ConfigInterface::new();
    let mut fw = fs.create_file().unwrap();
    let mut data: [u8; 20] = core::array::from_fn(|i| i as u8);
    data[0..4].copy_from_slice(&20u32.to_le_bytes());
    fw.write(&mut fs, &data).unwrap();
    let ConfigAction::Send(info) = ci.receive(&mut fs, &[msg::READ_FILE_BY_INDEX, 0, 0, 0, 0])
    else {
        panic!("expected a file information message");
    };
    assert_eq!(info.len, 24);
    let wb = info.as_slice();
    assert_eq!(wb[0], msg::HOST_RECV_FILE_INFO);
    assert_eq!(&wb[5..25], &data);
    assert_eq!(fw.location(), u32::from_le_bytes((&wb[1..5]).try_into().unwrap()));

    // no such file
    let ConfigAction::Send(info) = ci.receive(&mut fs, &[msg::READ_FILE_BY_INDEX, 1, 0, 0, 0])
    else {
        panic!("expected a file information message");
    };
    assert_eq!(info.as_slice(), HostMessage::file_info().as_slice());
}

#[test]
fn fetch_stats() {
    let mut fs = new_fs();
    let mut ci = ConfigInterface::new();
    assert!(matches!(ci.receive(&mut fs, &[msg::FETCH_STATS]), ConfigAction::SendStats));
    assert_eq!(HostMessage::stats(0x0403_0201).as_slice(), &[msg::HOST_RECV_STATS, 1, 2, 3, 4]);
}

fn load_location(action: ConfigAction) -> u32 {
    let ConfigAction::LoadLayout(location) = action else {
        panic!("expected LoadLayout()")
    };
    location
}

#[test]
fn save_config() {
    let mut fs = new_fs();
    let mut ci = ConfigInterface::new();
    {
        // load small layout file
        assert!(matches!(ci.receive(&mut fs, &[msg::OPEN_SAVE_CONFIG]), ConfigAction::Nothing));

        let mut data = [msg::CLOSE_SAVE_CONFIG, 6, 0, 0, 0, 1, 2];
        let location = load_location(ci.receive(&mut fs, &data));

        let mut fr = fs.file_reader_by_location(location).unwrap();
        assert_eq!(fr.read(&mut fs, &mut data).unwrap(), 6);
        assert_eq!(data[..6], [6, 0, 0, 0, 1, 2]);
        assert!(matches!(ci.rcv_state, ReceiveState::Idle));
    }

    {
        // load larger layout file
        ci.receive(&mut fs, &[msg::OPEN_SAVE_CONFIG]);

        let mut data: [u8; 190] = core::array::from_fn(|i| i as u8);
        data[..4].copy_from_slice(&[190, 0, 0, 0]);
        assert!(matches!(ci.receive(&mut fs, &data[..64]), ConfigAction::Nothing));
        assert!(matches!(ci.receive(&mut fs, &data[64..128]), ConfigAction::Nothing));

        data[127] = msg::CLOSE_SAVE_CONFIG;
        let location = load_location(ci.receive(&mut fs, &data[127..]));

        let mut fr = fs.file_reader_by_location(location).unwrap();
        assert_eq!(fr.read(&mut fs, &mut data).unwrap(), 190);
        assert_eq!(data[..6], [190, 0, 0, 0, 4, 5]);
        assert_eq!(data[185..], [185, 186, 187, 188, 189]);
    }
}

#[test]
fn unexpected_message_ends_config_file() {
    let mut fs = new_fs();
    let mut ci = ConfigInterface::new();
    ci.receive(&mut fs, &[msg::OPEN_SAVE_CONFIG]);
    assert!(matches!(ci.rcv_state, ReceiveState::ConfigData));
    assert!(matches!(ci.receive(&mut fs, &[msg::FETCH_STATS]), ConfigAction::Nothing));
    assert!(matches!(ci.rcv_state, ReceiveState::Idle));
}

#[test]
fn config_file_iter() {
    let mut fs = new_fs();
    let mut fw = fs.create_file().unwrap();
    let mut data: [u8; 31] = core::array::from_fn(|i| i as u8);
    data[0..4].copy_from_slice(&31u32.to_le_bytes());
    data[13] = 3;
    fw.write(&mut fs, &data).unwrap();
    let fr = fs.file_reader_by_index(0).unwrap();

    let mut iter = ConfigFileIter::new(&mut fs, fr);
    let mut ans = Vec::new();
    while let Some(w) = iter.next(&mut fs) {
        ans.push(w);
    }
    assert_eq!(&ans, &[4625, 5139, 5653, 6167, 6681, 7195, 7709]);
}
