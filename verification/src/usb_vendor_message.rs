//! Message tags of the USB vendor interface between the host tool and the keyboard.
use vstd::prelude::*;

verus! {

pub const OPEN_SAVE_CONFIG: u8 = 1;
pub const CLOSE_SAVE_CONFIG: u8 = 2;
pub const RESET_KEYBOARD: u8 = 3;
pub const RESET_TO_USB_BOOT: u8 = 4;
pub const READ_FILE_BY_INDEX: u8 = 5;
pub const FETCH_STATS: u8 = 6;
pub const SCAN_KEYS: u8 = 7;

/// The maximum allowed size of a USB bulk message.
pub const MAX_BULK_LEN: u16 = 64;

/// Tag of a file information message sent to the host.
pub const HOST_RECV_FILE_INFO: u8 = 0;
/// Tag of a statistics message sent to the host.
pub const HOST_RECV_STATS: u8 = 1;
/// Tag of a key scan message sent to the host.
pub const HOST_RECV_KEY_SCAN: u8 = 2;

} // verus!
