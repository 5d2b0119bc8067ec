//! The events the mapper reports to the USB HID reporter.
use vstd::prelude::*;
use crate::key_range;

verus! {

#[derive(Debug, Clone, Copy, PartialEq, Eq, Structural)]
pub enum KeyEvent {
    Basic(u8, bool),
    PendingModifiers(u8, bool),
    Modifiers(u8, bool),
    Consumer(u16),
    SysCtl(u16),
    MouseButton(u8),
    MouseMove(u8, u8, u8),
    Pending,
    Clear,
    Delay(u16),
}

impl KeyEvent {
    /// A consumer control event for the consumer key code `kc`; the usage is 0 on release.
    pub fn consumer(kc: u16, is_down: bool) -> (r: Self)
        requires
            key_range::CONSUMER_MIN <= kc,
        ensures
            r == KeyEvent::Consumer(if is_down { (kc - key_range::CONSUMER_MIN) as u16 } else { 0 }),
    {
        let kc = kc - key_range::CONSUMER_MIN;
        KeyEvent::Consumer(if is_down { kc } else { 0 })
    }

    /// A system control event for the system control key code `kc`; the usage is 0 on
    /// release.
    pub fn sys_ctl(kc: u16, is_down: bool) -> (r: Self)
        requires
            key_range::SYS_CTL_MIN <= kc <= key_range::SYS_CTL_MAX,
        ensures
            r == KeyEvent::SysCtl(
                if is_down {
                    (kc - key_range::SYS_CTL_MIN + key_range::SYS_CTL_BASE) as u16
                } else {
                    0
                },
            ),
    {
        let kc = kc - key_range::SYS_CTL_MIN + key_range::SYS_CTL_BASE;
        KeyEvent::SysCtl(if is_down { kc } else { 0 })
    }

    pub fn basic(kc8: u8, is_down: bool) -> (r: Self)
        ensures
            r == KeyEvent::Basic(kc8, is_down),
    {
        KeyEvent::Basic(kc8, is_down)
    }

    pub fn mouse_button(mouse: u8) -> (r: Self)
        ensures
            r == KeyEvent::MouseButton(mouse),
    {
        KeyEvent::MouseButton(mouse)
    }

    /// A mouse movement of `amount` along axis `mouse`, sent as its two's complement byte.
    pub fn mouse_move(mouse: u8, amount: i8, keys: u8) -> (r: Self)
        ensures
            r == KeyEvent::MouseMove(mouse, amount as u8, keys),
    {
        KeyEvent::MouseMove(mouse, amount as u8, keys)
    }

    pub fn modifiers(modifiers: u8, is_down: bool, pending: bool) -> (r: Self)
        ensures
            r == if pending {
                KeyEvent::PendingModifiers(modifiers, is_down)
            } else {
                KeyEvent::Modifiers(modifiers, is_down)
            },
    {
        if pending {
            KeyEvent::PendingModifiers(modifiers, is_down)
        } else {
            KeyEvent::Modifiers(modifiers, is_down)
        }
    }
}

} // verus!
