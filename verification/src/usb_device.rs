//! The USB identity a keyboard presents: its vendor and product ids, names, serial number
//! and the power it draws.
use vstd::prelude::*;

verus! {

/// The settings of a keyboard's USB device.
pub struct ConfigBuilder {
    pub vendor_id: u16,
    pub product_id: u16,
    pub manufacturer: &'static str,
    pub product: &'static str,
    pub serial_number: &'static str,
    /// The most current the keyboard draws, in milliamperes.
    pub max_power: u16,
}

} // verus!
