//! The state of the mouse keys: buttons held and movement keys held since when.
use vstd::prelude::*;
use crate::key_event::KeyEvent;
use crate::key_range;
use crate::layout::MOUSE_PROFILE_WORDS;

verus! {

/// A movement along one axis: when its key went down, relative to the first movement key
/// (0 for not moving), and the direction.
#[derive(Debug, Clone, Copy, PartialEq, Eq, Structural)]
pub struct MouseMove {
    pub start: u32,
    pub delta: i8,
}

impl MouseMove {
    pub fn default() -> (r: Self)
        ensures
            r.start == 0,
            r.delta == 0,
    {
        MouseMove { start: 0, delta: 0 }
    }

    /// A movement key in direction `delta` went down or up. A key going down takes over the
    /// direction; the key of the current direction going up stops the movement.
    pub fn action(&mut self, is_down: bool, delta: i8)
        ensures
            is_down ==> final(self).start == old(self).start && final(self).delta == (if old(self).start
                == 0 || delta != old(self).delta {
                delta
            } else {
                old(self).delta
            }),
            !is_down ==> final(self).delta == old(self).delta && final(self).start == (if old(
                self,
            ).start != 0 && delta == old(self).delta {
                0
            } else {
                old(self).start
            }),
    {
        if is_down {
            if self.start == 0 || delta != self.delta {
                self.delta = delta;
            }
        } else if self.start != 0 && delta == self.delta {
            self.start = 0;
        }
    }
}

/// When the mouse is next due to report movement: what the movement calculation needs.
#[derive(Debug, Clone, Copy, PartialEq, Eq, Structural)]
pub struct MouseTick {
    /// Milliseconds since the last movement report.
    pub time_since_last_report: u32,
    /// Milliseconds since the first movement key went down.
    pub rel_ms: u32,
    /// The number of movement axes to report: 0 or 4.
    pub axes: usize,
}

pub struct Mouse {
    pub mouse_keys: u8,
    pub mouse_move: [MouseMove; 4],
    pub down_count: u8,
    /// In milliseconds.
    pub first_down_time: u64,
    pub last_report_time: u32,
    /// The words of the mouse profile in use.
    pub config: Vec<u16>,
}

impl Mouse {
    pub open spec fn wf(&self) -> bool {
        self.config@.len() == MOUSE_PROFILE_WORDS
    }

    pub fn new(config: Vec<u16>) -> (r: Self)
        requires
            config@.len() == MOUSE_PROFILE_WORDS,
        ensures
            r.wf(),
            r.mouse_keys == 0,
            r.down_count == 0,
            r.first_down_time == 0,
            r.last_report_time == 0,
            r.config@ == config@,
    {
        Mouse {
            mouse_keys: 0,
            mouse_move: [MouseMove::default(), MouseMove::default(), MouseMove::default(), MouseMove::default()],
            down_count: 0,
            first_down_time: 0,
            last_report_time: 0,
            config,
        }
    }

    /// Releases every mouse key.
    pub fn clear_all(&mut self)
        ensures
            final(self).mouse_keys == 0,
            final(self).down_count == 0,
            final(self).first_down_time == 0,
            final(self).last_report_time == 0,
            forall|i: int| 0 <= i < 4 ==> final(self).mouse_move[i] == MouseMove::default_spec(),
            final(self).config == old(self).config,
    {
        self.mouse_keys = 0;
        self.mouse_move = [MouseMove::default(), MouseMove::default(), MouseMove::default(), MouseMove::default()];
        self.down_count = 0;
        self.first_down_time = 0;
        self.last_report_time = 0;
    }

    /// A mouse button or movement key `code`, counted from the start of the mouse key range,
    /// went down or up at `now`. Returns the button report to send; movement is reported
    /// by ticks.
    pub fn action(&mut self, code: u16, is_down: bool, now: u64) -> (r: Option<KeyEvent>)
        requires
            code <= key_range::MOUSE_DELTA_END,
        ensures
            final(self).config == old(self).config,
            code <= key_range::MOUSE_BUTTON_END ==> {
                let bit = (1u8 << code as u8) as u8;
                let keys = if is_down { old(self).mouse_keys | bit } else { old(self).mouse_keys & !bit };
                &&& final(self).mouse_keys == keys
                &&& r == Some(KeyEvent::MouseButton(keys))
                &&& final(self).down_count == old(self).down_count
                &&& final(self).first_down_time == old(self).first_down_time
            },
            code > key_range::MOUSE_BUTTON_END ==> {
                &&& r is None
                &&& final(self).mouse_keys == old(self).mouse_keys
                &&& is_down && old(self).down_count < 4 ==> final(self).down_count == old(self).down_count + 1
                &&& is_down && old(self).down_count == 0 ==> final(self).first_down_time == (if now > 0 { now - 1 } else { 0 })
                    && final(self).last_report_time == 0
                &&& !is_down && old(self).down_count > 1 ==> final(self).down_count == old(self).down_count - 1
                    && final(self).first_down_time == old(self).first_down_time
                &&& !is_down && old(self).down_count <= 1 ==> final(self).down_count == 0
                    && final(self).first_down_time == 0
            },
    {
        if code <= key_range::MOUSE_BUTTON_END {
            let bit: u8 = 1u8 << code as u8;
            if is_down {
                self.mouse_keys = self.mouse_keys | bit;
            } else {
                self.mouse_keys = self.mouse_keys & !bit;
            }
            Some(KeyEvent::mouse_button(self.mouse_keys))
        } else {
            let kc = code - key_range::MOUSE_DELTA;
            let delta: i8 = if kc & 1 == 0 {
                -1
            } else {
                1
            };
            let idx = (kc >> 1) as usize;
            assert(kc <= 7 ==> (kc >> 1u16) < 4) by (bit_vector);
            let mut mm = self.mouse_move[idx];
            mm.action(is_down, delta);
            if is_down {
                if self.down_count < 4 {
                    self.down_count = self.down_count + 1;
                    if self.down_count == 1 {
                        self.first_down_time = if now > 0 {
                            now - 1
                        } else {
                            0
                        };
                        self.last_report_time = 0;
                    }
                    let rel = if now >= self.first_down_time {
                        now - self.first_down_time
                    } else {
                        0
                    };
                    mm.start = (rel & 0xffff_ffff) as u32;
                }
            } else if self.down_count > 1 {
                self.down_count = self.down_count - 1;
            } else {
                self.first_down_time = 0;
                self.down_count = 0;
            }
            self.mouse_move[idx] = mm;
            None
        }
    }

    /// Takes the state of the movement keys at `now` for a movement report and marks it as
    /// reported.
    pub fn pending_events(&mut self, now: u64) -> (r: MouseTick)
        ensures
            r.rel_ms == (if old(self).down_count == 0 {
                u32::MAX
            } else {
                (if now >= old(self).first_down_time { now - old(self).first_down_time } else { 0 }) as u32
            }),
            r.time_since_last_report == (if r.rel_ms >= old(self).last_report_time {
                r.rel_ms - old(self).last_report_time
            } else {
                0
            }),
            final(self).last_report_time == r.rel_ms,
            r.axes == (if old(self).down_count == 0 { 0usize } else { 4usize }),
            final(self).config == old(self).config,
            final(self).down_count == old(self).down_count,
            final(self).first_down_time == old(self).first_down_time,
            final(self).mouse_keys == old(self).mouse_keys,
            final(self).mouse_move == old(self).mouse_move,
    {
        let rel_ms: u32 = if self.down_count == 0 {
            u32::MAX
        } else {
            (if now >= self.first_down_time { now - self.first_down_time } else { 0 }) as u32
        };
        let since = if rel_ms >= self.last_report_time {
            rel_ms - self.last_report_time
        } else {
            0
        };
        self.last_report_time = rel_ms;
        MouseTick {
            time_since_last_report: since,
            rel_ms,
            axes: if self.down_count == 0 {
                0
            } else {
                4
            },
        }
    }

    pub open spec fn spec_next_event_time(&self) -> u64 {
        if self.first_down_time == 0 {
            u64::MAX
        } else if self.last_report_time as int + 16 + self.first_down_time > u64::MAX {
            u64::MAX
        } else {
            (self.last_report_time as int + 16 + self.first_down_time) as u64
        }
    }

    /// When the next movement report is due; `u64::MAX` for none.
    pub fn next_event_time(&self) -> (r: u64)
        ensures
            r == self.spec_next_event_time(),
    {
        if self.first_down_time == 0 {
            u64::MAX
        } else {
            (self.last_report_time as u64 + 16).saturating_add(self.first_down_time)
        }
    }

    /// Uses the mouse profile `config`.
    pub fn set_config(&mut self, config: Vec<u16>)
        requires
            config@.len() == MOUSE_PROFILE_WORDS,
        ensures
            final(self).wf(),
            final(self).config@ == config@,
            final(self).mouse_keys == old(self).mouse_keys,
            final(self).down_count == old(self).down_count,
            final(self).first_down_time == old(self).first_down_time,
    {
        self.config = config;
    }

    /// The words of the mouse profile in use.
    pub fn get_config(&self) -> (r: &Vec<u16>)
        ensures
            r@ == self.config@,
    {
        &self.config
    }
}

impl MouseMove {
    pub open spec fn default_spec() -> MouseMove {
        MouseMove { start: 0, delta: 0 }
    }
}

} // verus!
