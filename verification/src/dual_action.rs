//! The timer that decides whether a dual-action key was tapped or held.
use vstd::prelude::*;
use crate::scan_key::TimedScanKey;

verus! {

#[derive(Copy, Clone, Debug, PartialEq, Eq, Structural)]
pub enum DualActionTimer {
    NoDual,
    Wait {
        scan_key: TimedScanKey,
        duration: u16,
        tap_timeout: u16,
        tap: u16,
        hold: u16,
        count: usize,
    },
    Hold { scan_key: TimedScanKey, hold: u16 },
    Tap { scan_key: TimedScanKey, tap: u16 },
}

/// `a + b`, or `u64::MAX` where that does not fit.
pub open spec fn sat_add(a: u64, b: u64) -> u64 {
    if a + b > u64::MAX {
        u64::MAX
    } else {
        (a + b) as u64
    }
}

/// The low 16 bits of the time from `then` to `now`, wrapping like the clock.
pub open spec fn elapsed16(now: u64, then: u64) -> u16 {
    ((((now % 0x10000) + 0x10000 - (then % 0x10000)) as int) % 0x10000) as u16
}

/// `a + b` modulo 2^16.
pub open spec fn add16(a: u16, b: u16) -> u16 {
    ((a + b) % 0x10000) as u16
}

impl DualActionTimer {
    pub fn default() -> (r: Self)
        ensures
            r == DualActionTimer::NoDual,
    {
        DualActionTimer::NoDual
    }

    /// Starts waiting to see whether the key `scan_key` is tapped or held.
    pub fn start(&mut self, scan_key: TimedScanKey, tap: u16, hold: u16, duration: u16, tap_timeout: u16)
        ensures
            *final(self) == (DualActionTimer::Wait { scan_key, duration, tap_timeout, tap, hold, count: 2 }),
    {
        *self = DualActionTimer::Wait { scan_key, duration, tap_timeout, tap, hold, count: 2 };
    }

    /// Whether no decision is pending.
    pub fn is_no_timer(&self) -> (r: bool)
        ensures
            r == !(self is Wait),
    {
        !matches!(self, DualActionTimer::Wait { .. })
    }

    pub open spec fn spec_wait_until(&self) -> u64 {
        match *self {
            DualActionTimer::Wait { scan_key, duration, tap_timeout, count, .. } => {
                let n = sat_add(scan_key.1, duration as u64);
                if count == 0 {
                    let m = sat_add(scan_key.1, tap_timeout as u64);
                    if m < n {
                        m
                    } else {
                        n
                    }
                } else {
                    n
                }
            },
            _ => u64::MAX,
        }
    }

    /// When the pending decision times out; `u64::MAX` for none.
    pub fn wait_until(&self) -> (r: u64)
        ensures
            r == self.spec_wait_until(),
    {
        match self {
            DualActionTimer::Wait { scan_key, duration, tap_timeout, count, .. } => {
                let time = scan_key.1;
                let n = time.saturating_add(*duration as u64);
                if *count == 0 {
                    let m = time.saturating_add(*tap_timeout as u64);
                    if m < n {
                        m
                    } else {
                        n
                    }
                } else {
                    n
                }
            },
            _ => u64::MAX,
        }
    }

    /// Feeds the next key event to the timer. Returns whether the event is to be handled
    /// at once, which it is when no decision is pending.
    pub fn key_switch(&mut self, next_key: TimedScanKey) -> (r: bool)
        ensures
            r == (*old(self) is NoDual),
            match *old(self) {
                DualActionTimer::Wait { scan_key, duration, tap_timeout, tap, hold, count } => {
                    if next_key.0.col == scan_key.0.col && next_key.0.spec_row() == scan_key.0.spec_row() {
                        *final(self) == DualActionTimer::Tap { scan_key, tap }
                    } else if count == 0 {
                        *final(self) == DualActionTimer::Hold { scan_key, hold }
                    } else {
                        *final(self) == DualActionTimer::Wait {
                            scan_key,
                            duration,
                            tap,
                            tap_timeout: if count == 1 {
                                add16(tap_timeout, elapsed16(next_key.1, scan_key.1))
                            } else {
                                tap_timeout
                            },
                            hold,
                            count: (count - 1) as usize,
                        }
                    }
                },
                _ => *final(self) == *old(self),
            },
    {
        match *self {
            DualActionTimer::NoDual => true,
            DualActionTimer::Wait { scan_key, duration, tap_timeout, tap, hold, count } => {
                if next_key.same_key(&scan_key) {
                    *self = DualActionTimer::Tap { scan_key, tap };
                } else {
                    if count == 0 {
                        *self = DualActionTimer::Hold { scan_key, hold };
                        return false;
                    }
                    let a: u64 = next_key.1 % 0x10000;
                    let b: u64 = scan_key.1 % 0x10000;
                    let elapsed: u16 = ((a + 0x10000 - b) % 0x10000) as u16;
                    let new_timeout = if count == 1 {
                        ((tap_timeout as u32 + elapsed as u32) % 0x10000) as u16
                    } else {
                        tap_timeout
                    };
                    *self = DualActionTimer::Wait {
                        scan_key,
                        duration,
                        tap,
                        tap_timeout: new_timeout,
                        hold,
                        count: count - 1,
                    };
                }
                false
            },
            _ => false,
        }
    }

    /// Decides on a hold when the pending decision times out.
    pub fn timer_expired(&mut self)
        ensures
            match *old(self) {
                DualActionTimer::Wait { scan_key, hold, .. } => *final(self) == DualActionTimer::Hold { scan_key, hold },
                _ => *final(self) == *old(self),
            },
    {
        if let DualActionTimer::Wait { scan_key, hold, .. } = *self {
            *self = DualActionTimer::Hold { scan_key, hold };
        }
    }
}

} // verus!
