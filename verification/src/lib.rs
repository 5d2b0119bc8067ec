pub mod bits;
pub mod config;
pub mod device_lookup;
pub mod dual_action;
pub mod flash_stub;
pub mod globals;
pub mod host_message;
pub mod key_event;
pub mod key_reporter;
pub mod key_scanner;
pub mod key_range;
pub mod layout;
pub mod macros;
pub mod mapper;
pub mod macro_types;
pub mod mouse;
pub mod norflash_ring_fs;
pub mod ring_fs;
pub mod scan_key;
pub mod usb_device;
pub mod usb_vendor_message;
