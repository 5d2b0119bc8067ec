use chrono::Utc;
use rpk::config::vendor::{FileInfo, FileType};

#[test]
fn file_info_from() {
    let now = Utc::now();
    let now_ms = now.timestamp_micros() / 1000;
    let mut data = vec![];
    data.extend_from_slice(&(54321u32).to_le_bytes());
    data.extend_from_slice(&(123u32).to_le_bytes());
    data.extend_from_slice(&now_ms.to_le_bytes());
    data.push(FileType::Config.as_u8());
    data.push(5);
    data.extend_from_slice(b"file1notthis");

    let ans = FileInfo::from_bytes(data.as_slice());
    assert_eq!(ans.timestamp_ms - now_ms, 0);
    assert_eq!(ans.length, 123);
    assert_eq!(ans.location, 54321);
    assert_eq!(ans.index, 0);
    assert!(matches!(ans.file_type, FileType::Config));
    assert_eq!(ans.filename, b"file1");
}

#[test]
fn file_info_too_short() {
    let ans = FileInfo::from_bytes(&[1, 2, 3]);
    assert!(ans.is_none());
    assert!(ans.filename.is_empty());
}

#[test]
fn file_info_skips_pad_byte() {
    let mut data = vec![0u8; 16];
    data[0] = 9;
    data.push(0);
    data.push(4);
    data.extend_from_slice(&[0, b'a', b'b', b'c']);
    let ans = FileInfo::from_bytes(&data);
    assert_eq!(ans.location, 9);
    assert_eq!(ans.filename, b"abc");
}

#[test]
fn file_info_negative_timestamp() {
    let mut data = vec![];
    data.extend_from_slice(&7u32.to_le_bytes());
    data.extend_from_slice(&8u32.to_le_bytes());
    data.extend_from_slice(&(-1500i64).to_le_bytes());
    data.push(0);
    data.push(0);
    let ans = FileInfo::from_bytes(&data);
    assert_eq!(ans.timestamp_ms, -1500);
    assert_eq!(ans.length, 8);
    assert!(ans.filename.is_empty());
}
