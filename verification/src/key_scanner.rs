//! The key matrix scanner's decisions: debouncing each switch, the events it reports, when
//! the matrix is idle, and how the time given to each output pin and the debounce counters
//! follow the measured scan time and the configured settle time.
//!
//! Times are in ticks of one microsecond. Driving the pins, reading them and waiting is the
//! caller's part: it calls `begin_scan`, then `scan_output` for each output pin with the
//! readings of the input pins, then `end_scan` with the time left over.
use vstd::prelude::*;
use crate::globals::{key_settle_time_uncompress, spec_key_settle_time_uncompress};
use crate::scan_key::ScanKey;

verus! {

/// How many idle scans follow the last key release before the scanner waits for a key.
pub const IDLE_WAIT_COUNT: u32 = 100;

/// The time given to each output pin at start.
pub const INITIAL_TIME_PER_OUTPUT_PIN: u64 = 32;

/// The state byte a key gets when its debounce starts: `key_state` in the low two bits, bit 7
/// set, and the debounce counter value at which it settles in bits 2 to 6.
pub open spec fn start_debounce_value(key_state: u8, debounce_count: u8, debounce_count_max: u8) -> u8 {
    key_state | 128u8 | ((if debounce_count == 0 {
        debounce_count_max
    } else {
        (debounce_count - 1) as u8
    }) << 2u8)
}

/// The tag of the scans in which a key that started debouncing settles.
pub open spec fn debounce_tag(debounce_count: u8) -> u8 {
    (debounce_count << 2u8) | 128u8
}

/// One key's step in a scan: its next state byte, whether a change is reported, and whether
/// it keeps the scanner awake, from its state byte `s` and whether it reads down.
///
/// Bit 0 of the state is the switch position, bit 1 the last position reported, and the bits
/// above are zero when the key is settled or the tag of the scan in which it settles.
pub open spec fn key_step(s: u8, down: bool, debounce_count: u8, debounce_count_max: u8) -> (
    u8,
    bool,
    bool,
) {
    let ks: u8 = if down { 1 } else { 0 };
    let settle = s & 0xfcu8;
    let changed = (s & 1u8) != ks;
    if settle != 0 {
        if settle == debounce_tag(debounce_count) {
            let s2 = s & 3u8;
            (s2, s2 == 1 || s2 == 2, down)
        } else if changed {
            (start_debounce_value(ks | (s & 2u8), debounce_count, debounce_count_max), false, true)
        } else {
            (s, false, true)
        }
    } else if changed {
        (start_debounce_value((ks * 3) as u8, debounce_count, debounce_count_max), true, true)
    } else {
        (s, false, down)
    }
}

/// The event for the key at output pin `out_idx` and input pin `in_idx`.
pub open spec fn scan_event(out_idx: int, in_idx: int, down: bool, row_is_output: bool) -> ScanKey {
    let (row, col) = if row_is_output {
        (out_idx as u8, in_idx as u8)
    } else {
        (in_idx as u8, out_idx as u8)
    };
    ScanKey { row: row | if down { 0x80u8 } else { 0u8 }, col }
}

/// The events of the first `n` keys of output pin `out_idx`, in input pin order.
pub open spec fn output_events(
    row: Seq<u8>,
    readings: Seq<bool>,
    n: int,
    out_idx: int,
    debounce_count: u8,
    debounce_count_max: u8,
    row_is_output: bool,
) -> Seq<ScanKey>
    decreases n,
{
    if n <= 0 {
        seq![]
    } else {
        let prev = output_events(
            row,
            readings,
            n - 1,
            out_idx,
            debounce_count,
            debounce_count_max,
            row_is_output,
        );
        if key_step(row[n - 1], readings[n - 1], debounce_count, debounce_count_max).1 {
            prev.push(scan_event(out_idx, n - 1, readings[n - 1], row_is_output))
        } else {
            prev
        }
    }
}

/// The least `pt * 2^k`, `k >= 0`, that is at least `ft`.
pub open spec fn grow_pin_time(pt: int, ft: int) -> int
    decreases ft - pt,
{
    if pt <= 0 || pt >= ft {
        pt
    } else if 2 * pt >= ft {
        2 * pt
    } else {
        grow_pin_time(2 * pt, ft)
    }
}

/// The next time per output pin, and whether it changed, from the time per output pin `tp`
/// and the scan's free time `sft`: halved when over half of it was left free (and at least 8),
/// and after an overrun doubled until the overrun fits.
pub open spec fn next_pin_time(tp: int, sft: int) -> (int, bool) {
    if sft > 0 {
        if sft >= 8 && sft > tp / 2 {
            (tp / 2, true)
        } else {
            (tp, false)
        }
    } else {
        (grow_pin_time(2 * tp, -sft), true)
    }
}

/// How many whole scans the settle time `m16` (compressed) lasts, at least one, where one scan
/// takes `scan_time` ticks.
pub open spec fn debounce_cycles(m16: u16, scan_time: int) -> int {
    let c = spec_key_settle_time_uncompress(m16 as int) / scan_time;
    if c < 1 {
        1
    } else {
        c
    }
}

/// The largest power of two not above `d`, for `1 <= d < 64`.
pub open spec fn floor_pow2(d: int) -> int {
    if d >= 32 {
        32
    } else if d >= 16 {
        16
    } else if d >= 8 {
        8
    } else if d >= 4 {
        4
    } else if d >= 2 {
        2
    } else {
        1
    }
}

/// The debounce counter maximum and the scan count maximum for a settle time of `dcycles`
/// scans: the debounce counter runs through a power of two values, at most 32, and each step
/// lasts enough scans for the whole to cover the settle time.
pub open spec fn debounce_maxima(dcycles: int) -> (int, int) {
    if dcycles >= 64 {
        (31, (dcycles / 32) % 65536 - 1)
    } else {
        (floor_pow2(dcycles) - 1, 0)
    }
}

/// The scanner's state between scans.
pub struct KeyScanner {
    /// A byte per key, by output pin then input pin; see `key_step`.
    pub state: Vec<Vec<u8>>,
    pub n_inputs: usize,
    /// Ticks allowed per output pin.
    pub time_per_output_pin: u64,
    /// The most ticks left over at the end of a scan since the counters were last computed;
    /// `i32::MIN` before the first scan.
    pub scan_free_time: i32,
    /// Whether all keys were up in the last scan.
    pub all_up: bool,
    /// Idle scans left before waiting for a key.
    pub all_up_limit: u32,
    /// Scans since `debounce_count` last moved.
    pub scan_count: u16,
    pub debounce_count: u8,
    pub debounce_count_max: u8,
    pub scan_count_max: u16,
    /// The compressed settle time the counters were computed for.
    pub debounce_ms_prev: u16,
}

impl KeyScanner {
    pub open spec fn wf(&self) -> bool {
        &&& 1 <= self.state@.len() <= 256
        &&& self.n_inputs <= 256
        &&& forall|o: int| 0 <= o < self.state@.len() ==> #[trigger] self.state@[o]@.len() == self.n_inputs
        &&& 1 <= self.time_per_output_pin < 0x8000_0000
        &&& self.debounce_count <= 31
        &&& self.debounce_count_max <= 31
        &&& self.scan_count < 65535
        &&& self.scan_count_max < 65535
    }

    /// Whether `other` equals `self` in everything but the key states.
    pub open spec fn same_but_state(&self, other: &Self) -> bool {
        &&& self.n_inputs == other.n_inputs
        &&& self.time_per_output_pin == other.time_per_output_pin
        &&& self.scan_free_time == other.scan_free_time
        &&& self.all_up == other.all_up
        &&& self.all_up_limit == other.all_up_limit
        &&& self.scan_count == other.scan_count
        &&& self.debounce_count == other.debounce_count
        &&& self.debounce_count_max == other.debounce_count_max
        &&& self.scan_count_max == other.scan_count_max
        &&& self.debounce_ms_prev == other.debounce_ms_prev
    }

    /// A scanner for `n_outputs` output pins and `n_inputs` input pins with every key up.
    pub fn new(n_inputs: usize, n_outputs: usize) -> (r: Self)
        requires
            1 <= n_outputs <= 256,
            n_inputs <= 256,
        ensures
            r.wf(),
            r.state@.len() == n_outputs,
            r.n_inputs == n_inputs,
            forall|o: int, i: int| 0 <= o < n_outputs && 0 <= i < n_inputs ==> r.state@[o]@[i] == 0,
            r.time_per_output_pin == INITIAL_TIME_PER_OUTPUT_PIN,
            r.scan_free_time == i32::MIN,
            !r.all_up,
            r.all_up_limit == 0,
            r.scan_count == 0,
            r.debounce_count == 0,
            r.debounce_count_max == 0,
            r.scan_count_max == 0,
            r.debounce_ms_prev == 0,
    {
        let mut state: Vec<Vec<u8>> = Vec::new();
        let mut o: usize = 0;
        while o < n_outputs
            invariant
                o <= n_outputs,
                state@.len() == o,
                forall|k: int| 0 <= k < o ==> #[trigger] state@[k]@.len() == n_inputs,
                forall|k: int, i: int| 0 <= k < o && 0 <= i < n_inputs ==> state@[k]@[i] == 0,
            decreases n_outputs - o,
        {
            let mut row: Vec<u8> = Vec::new();
            let mut i: usize = 0;
            while i < n_inputs
                invariant
                    i <= n_inputs,
                    row@.len() == i,
                    forall|k: int| 0 <= k < i ==> row@[k] == 0,
                decreases n_inputs - i,
            {
                row.push(0);
                i = i + 1;
            }
            state.push(row);
            o = o + 1;
        }
        KeyScanner {
            state,
            n_inputs,
            time_per_output_pin: INITIAL_TIME_PER_OUTPUT_PIN,
            scan_free_time: i32::MIN,
            all_up: false,
            all_up_limit: 0,
            scan_count: 0,
            debounce_count: 0,
            debounce_count_max: 0,
            scan_count_max: 0,
            debounce_ms_prev: 0,
        }
    }

    /// Half the time per output pin: the scan starts this long after it is called and ends
    /// this long before its last pin's time is up.
    pub fn half_time_per_output_pin(&self) -> (r: u64)
        requires
            self.wf(),
        ensures
            r == self.time_per_output_pin / 2,
    {
        self.time_per_output_pin / 2
    }

    /// Counts a scan: the debounce counter moves on after `scan_count_max + 1` scans and
    /// wraps after `debounce_count_max`.
    pub fn begin_scan(&mut self)
        requires
            old(self).wf(),
        ensures
            final(self).wf(),
            final(self).state == old(self).state,
            final(self).n_inputs == old(self).n_inputs,
            final(self).time_per_output_pin == old(self).time_per_output_pin,
            final(self).scan_free_time == old(self).scan_free_time,
            final(self).all_up == old(self).all_up,
            final(self).all_up_limit == old(self).all_up_limit,
            final(self).debounce_count_max == old(self).debounce_count_max,
            final(self).scan_count_max == old(self).scan_count_max,
            final(self).debounce_ms_prev == old(self).debounce_ms_prev,
            old(self).scan_count + 1 > old(self).scan_count_max ==> {
                &&& final(self).scan_count == 0
                &&& final(self).debounce_count == if old(self).debounce_count + 1
                    > old(self).debounce_count_max {
                    0
                } else {
                    old(self).debounce_count + 1
                }
            },
            old(self).scan_count + 1 <= old(self).scan_count_max ==> final(self).scan_count
                == old(self).scan_count + 1 && final(self).debounce_count == old(
                self,
            ).debounce_count,
    {
        self.scan_count = self.scan_count + 1;
        if self.scan_count > self.scan_count_max {
            self.scan_count = 0;
            self.debounce_count = self.debounce_count + 1;
            if self.debounce_count > self.debounce_count_max {
                self.debounce_count = 0;
            }
        }
    }

    /// Takes the readings of the input pins while output pin `output_idx` is driven: updates
    /// each key's state and returns the events to report, in input pin order, and whether
    /// no key of this output keeps the scanner awake.
    pub fn scan_output(&mut self, output_idx: usize, readings: &[bool], row_is_output: bool) -> (r: (
        Vec<ScanKey>,
        bool,
    ))
        requires
            old(self).wf(),
            output_idx < old(self).state@.len(),
            readings@.len() == old(self).n_inputs,
        ensures
            final(self).wf(),
            final(self).same_but_state(old(self)),
            final(self).state@.len() == old(self).state@.len(),
            forall|o: int|
                #![trigger final(self).state@[o]]
                0 <= o < old(self).state@.len() && o != output_idx ==> final(self).state@[o]
                    == old(self).state@[o],
            forall|i: int|
                #![trigger final(self).state@[output_idx as int]@[i]]
                0 <= i < readings@.len() ==> final(self).state@[output_idx as int]@[i] == key_step(
                    old(self).state@[output_idx as int]@[i],
                    readings@[i],
                    old(self).debounce_count,
                    old(self).debounce_count_max,
                ).0,
            r.0@ == output_events(
                old(self).state@[output_idx as int]@,
                readings@,
                readings@.len() as int,
                output_idx as int,
                old(self).debounce_count,
                old(self).debounce_count_max,
                row_is_output,
            ),
            r.1 == forall|i: int|
                0 <= i < readings@.len() ==> !(#[trigger] key_step(
                    old(self).state@[output_idx as int]@[i],
                    readings@[i],
                    old(self).debounce_count,
                    old(self).debounce_count_max,
                ).2),
    {
        let ghost old_row = self.state@[output_idx as int]@;
        let dc = self.debounce_count;
        let dcmax = self.debounce_count_max;
        let mut row = self.state[output_idx].clone();
        assert(row@ == old_row);
        assert(self.state@[output_idx as int]@.len() == self.n_inputs);
        let mut events: Vec<ScanKey> = Vec::new();
        let mut all_up = true;
        let mut i: usize = 0;
        while i < readings.len()
            invariant
                i <= readings@.len(),
                readings@.len() == old_row.len(),
                row@.len() == old_row.len(),
                dc <= 31,
                dcmax <= 31,
                output_idx < 256,
                old_row.len() <= 256,
                forall|k: int| i <= k < row@.len() ==> row@[k] == old_row[k],
                forall|k: int|
                    0 <= k < i ==> #[trigger] row@[k] == key_step(
                        old_row[k],
                        readings@[k],
                        dc,
                        dcmax,
                    ).0,
                events@ == output_events(
                    old_row,
                    readings@,
                    i as int,
                    output_idx as int,
                    dc,
                    dcmax,
                    row_is_output,
                ),
                all_up == forall|k: int|
                    0 <= k < i ==> !(#[trigger] key_step(old_row[k], readings@[k], dc, dcmax).2),
            decreases readings@.len() - i,
        {
            let down = readings[i];
            let (s2, report, awake) = scan_key(row[i], down, dc, dcmax);
            row.set(i, s2);
            if awake {
                all_up = false;
            }
            if report {
                let (r, c) = if row_is_output {
                    (output_idx as u8, i as u8)
                } else {
                    (i as u8, output_idx as u8)
                };
                events.push(ScanKey::new(r, c, down));
            }
            proof {
                if awake {
                    assert(key_step(old_row[i as int], readings@[i as int], dc, dcmax).2);
                } else {
                    assert(!key_step(old_row[i as int], readings@[i as int], dc, dcmax).2);
                }
            }
            i = i + 1;
        }
        self.state.set(output_idx, row);
        (events, all_up)
    }

    /// Ends a scan: keeps the most free time seen, and notes whether all keys were up, giving
    /// the scanner `IDLE_WAIT_COUNT` idle scans when they have just all come up.
    pub fn end_scan(&mut self, rem: i32, is_all_up: bool)
        requires
            old(self).wf(),
        ensures
            final(self).wf(),
            final(self).state == old(self).state,
            final(self).n_inputs == old(self).n_inputs,
            final(self).time_per_output_pin == old(self).time_per_output_pin,
            final(self).scan_count == old(self).scan_count,
            final(self).debounce_count == old(self).debounce_count,
            final(self).debounce_count_max == old(self).debounce_count_max,
            final(self).scan_count_max == old(self).scan_count_max,
            final(self).debounce_ms_prev == old(self).debounce_ms_prev,
            final(self).scan_free_time == if rem > old(self).scan_free_time {
                rem
            } else {
                old(self).scan_free_time
            },
            final(self).all_up == is_all_up,
            final(self).all_up_limit == if is_all_up && !old(self).all_up {
                IDLE_WAIT_COUNT
            } else {
                old(self).all_up_limit
            },
    {
        if rem > self.scan_free_time {
            self.scan_free_time = rem;
        }
        if is_all_up {
            if !self.all_up {
                self.all_up = true;
                self.all_up_limit = IDLE_WAIT_COUNT;
            }
        } else {
            self.all_up = false;
        }
    }

    /// Whether `calc_debounce_cycle` can run from this state with the settle time `m16`: the
    /// time per output pin it picks is not zero, a scan's time fits in 32 bits when the
    /// counters are computed, and the scan count maximum it picks is not below zero.
    pub open spec fn debounce_cycle_computable(&self, m16: u16) -> bool {
        let (tp, changed) = next_pin_time(
            self.time_per_output_pin as int,
            self.scan_free_time as int,
        );
        self.scan_free_time != i32::MIN ==> {
            &&& tp >= 1
            &&& (changed || m16 != self.debounce_ms_prev) ==> {
                &&& tp < 0x8000_0000
                &&& self.state@.len() * tp <= u32::MAX
                &&& debounce_maxima(debounce_cycles(m16, self.state@.len() * tp)).1 >= 0
            }
        }
    }

    /// Adjusts the time per output pin to the scans' free time, and, when it changed or the
    /// settle time `m16` (compressed) did, recomputes the debounce counters so that a
    /// debounce lasts the settle time. Does nothing before the first scan.
    pub fn calc_debounce_cycle(&mut self, m16: u16)
        requires
            old(self).wf(),
            old(self).debounce_cycle_computable(m16),
        ensures
            final(self).wf(),
            old(self).scan_free_time == i32::MIN ==> *final(self) == *old(self),
            old(self).scan_free_time != i32::MIN ==> {
                let (tp, changed) = next_pin_time(
                    old(self).time_per_output_pin as int,
                    old(self).scan_free_time as int,
                );
                &&& final(self).state == old(self).state
                &&& final(self).n_inputs == old(self).n_inputs
                &&& final(self).scan_free_time == old(self).scan_free_time
                &&& final(self).all_up == old(self).all_up
                &&& final(self).all_up_limit == old(self).all_up_limit
                &&& final(self).scan_count == old(self).scan_count
                &&& final(self).debounce_count == old(self).debounce_count
                &&& final(self).time_per_output_pin == tp
                &&& if changed || m16 != old(self).debounce_ms_prev {
                    let (dcm, scm) = debounce_maxima(
                        debounce_cycles(m16, old(self).state@.len() * tp),
                    );
                    &&& final(self).debounce_ms_prev == m16
                    &&& final(self).debounce_count_max == dcm
                    &&& final(self).scan_count_max == scm
                } else {
                    &&& final(self).debounce_ms_prev == old(self).debounce_ms_prev
                    &&& final(self).debounce_count_max == old(self).debounce_count_max
                    &&& final(self).scan_count_max == old(self).scan_count_max
                }
            },
    {
        if self.scan_free_time == i32::MIN {
            return;
        }
        let changed: bool;
        if self.scan_free_time > 0 {
            let ht = self.time_per_output_pin / 2;
            if self.scan_free_time >= 8 && self.scan_free_time as u64 > ht {
                self.time_per_output_pin = ht;
                changed = true;
            } else {
                changed = false;
            }
        } else {
            let pt0: u32 = (self.time_per_output_pin * 2) as u32;
            let ft: u32 = (-(self.scan_free_time as i64)) as u32;
            let mut pt: u32 = pt0;
            while pt < ft
                invariant
                    pt >= 2,
                    ft < 0x8000_0000,
                    grow_pin_time(pt as int, ft as int) == grow_pin_time(pt0 as int, ft as int),
                decreases 0x1_0000_0000int - pt,
            {
                pt = pt * 2;
            }
            self.time_per_output_pin = pt as u64;
            changed = true;
        }
        if changed || m16 != self.debounce_ms_prev {
            self.debounce_ms_prev = m16;
            let dt: u32 = key_settle_time_uncompress(m16 as u32);
            let n: u32 = self.state.len() as u32;
            let tp: u32 = self.time_per_output_pin as u32;
            assert(n * tp >= 1) by (nonlinear_arith)
                requires
                    n >= 1,
                    tp >= 1,
            ;
            let scan_time: u32 = n * tp;
            let q: u32 = dt / scan_time;
            let dcycles: u32 = if q < 1 {
                1
            } else {
                q
            };
            if dcycles >= 64 {
                self.debounce_count_max = 31;
                self.scan_count_max = ((dcycles / 32) % 65536) as u16 - 1;
            } else {
                let p: u8 = if dcycles >= 32 {
                    32
                } else if dcycles >= 16 {
                    16
                } else if dcycles >= 8 {
                    8
                } else if dcycles >= 4 {
                    4
                } else if dcycles >= 2 {
                    2
                } else {
                    1
                };
                self.debounce_count_max = p - 1;
                self.scan_count_max = 0;
            }
        }
    }

    /// The decisions made before waiting for a key: the counters are brought up to date and
    /// the keys are no longer taken to be all up.
    pub fn start_wait_for_key(&mut self, m16: u16)
        requires
            old(self).wf(),
            old(self).debounce_cycle_computable(m16),
        ensures
            final(self).wf(),
            !final(self).all_up,
            final(self).state == old(self).state,
            old(self).scan_free_time != i32::MIN ==> final(self).time_per_output_pin
                == next_pin_time(
                old(self).time_per_output_pin as int,
                old(self).scan_free_time as int,
            ).0,
    {
        self.calc_debounce_cycle(m16);
        self.all_up = false;
    }

    /// After a scan: whether to stop scanning and wait for a key, which comes once all keys
    /// have been up for `IDLE_WAIT_COUNT` more scans.
    pub fn idle_step(&mut self) -> (wait: bool)
        requires
            old(self).wf(),
        ensures
            final(self).wf(),
            final(self).state == old(self).state,
            wait == (old(self).all_up && old(self).all_up_limit == 0),
            final(self).all_up_limit == if old(self).all_up && old(self).all_up_limit > 0 {
                (old(self).all_up_limit - 1) as u32
            } else {
                old(self).all_up_limit
            },
            final(self).all_up == old(self).all_up,
            final(self).time_per_output_pin == old(self).time_per_output_pin,
            final(self).scan_count == old(self).scan_count,
            final(self).debounce_count == old(self).debounce_count,
    {
        if self.all_up {
            if self.all_up_limit == 0 {
                return true;
            } else {
                self.all_up_limit = self.all_up_limit - 1;
            }
        }
        false
    }
}

/// A settled key whose reading has not changed reports nothing and keeps its state; it keeps
/// the scanner awake only while it is down.
pub proof fn lemma_steady_key_quiet(s: u8, down: bool, debounce_count: u8, debounce_count_max: u8)
    requires
        s & 0xfcu8 == 0,
        (s & 1u8 == 1u8) == down,
    ensures
        key_step(s, down, debounce_count, debounce_count_max) == (s, false, down),
{
    assert((s & 1u8 == 1u8) == (s & 1u8 != 0u8)) by (bit_vector);
}

/// A settled key whose reading changes is reported at once, with its new position, and
/// starts to debounce: both its switch position and its reported position become the
/// reading.
pub proof fn lemma_change_reported_at_once(
    s: u8,
    down: bool,
    debounce_count: u8,
    debounce_count_max: u8,
)
    requires
        s & 0xfcu8 == 0,
        (s & 1u8 == 1u8) != down,
    ensures
        ({
            let (s2, reported, awake) = key_step(s, down, debounce_count, debounce_count_max);
            &&& reported
            &&& awake
            &&& s2 & 0xfcu8 != 0
            &&& s2 & 3u8 == if down {
                3u8
            } else {
                0u8
            }
        }),
{
    assert((s & 1u8 == 1u8) == (s & 1u8 != 0u8)) by (bit_vector);
    let v: u8 = if debounce_count == 0 {
        debounce_count_max
    } else {
        (debounce_count - 1) as u8
    };
    let k: u8 = if down { 3 } else { 0 };
    assert(((k | 128u8 | (v << 2u8)) & 0xfcu8 != 0) && (k <= 3 ==> (k | 128u8 | (v << 2u8))
        & 3u8 == k)) by (bit_vector);
}

/// While a key debounces, before the scan it settles in, no change of it is reported, and it
/// keeps the scanner awake.
pub proof fn lemma_debouncing_key_silent(
    s: u8,
    down: bool,
    debounce_count: u8,
    debounce_count_max: u8,
)
    requires
        s & 0xfcu8 != 0,
        s & 0xfcu8 != debounce_tag(debounce_count),
    ensures
        !key_step(s, down, debounce_count, debounce_count_max).1,
        key_step(s, down, debounce_count, debounce_count_max).2,
{
}

/// In the scan a debouncing key settles in, it becomes settled, keeping its switch position
/// and its reported position, and a change is reported when they differ.
pub proof fn lemma_settles_on_tag(s: u8, down: bool, debounce_count: u8, debounce_count_max: u8)
    requires
        s & 0xfcu8 != 0,
        s & 0xfcu8 == debounce_tag(debounce_count),
    ensures
        ({
            let (s2, reported, _) = key_step(s, down, debounce_count, debounce_count_max);
            &&& s2 & 0xfcu8 == 0
            &&& s2 & 3u8 == s & 3u8
            &&& reported == (s & 3u8 == 1u8 || s & 3u8 == 2u8)
        }),
{
    assert((s & 3u8) & 0xfcu8 == 0 && (s & 3u8) & 3u8 == s & 3u8) by (bit_vector);
}

/// A debounce lasts, in scans, more than half the settle time and at most all of it, when
/// the settle time is `dcycles` scans and the scan count maximum needs no wrapping.
pub proof fn lemma_debounce_span(dcycles: int)
    requires
        1 <= dcycles,
        dcycles / 32 < 65536,
    ensures
        ({
            let (dcm, scm) = debounce_maxima(dcycles);
            &&& (dcm + 1) * (scm + 1) <= dcycles
            &&& dcycles < 2 * ((dcm + 1) * (scm + 1))
        }),
{
    let (dcm, scm) = debounce_maxima(dcycles);
    if dcycles >= 64 {
        assert((dcycles / 32) % 65536 == dcycles / 32);
        assert((dcm + 1) * (scm + 1) == 32 * (dcycles / 32));
    }
}

/// The state byte of a key whose debounce starts; see `start_debounce_value`.
pub fn start_debounce(key_state: u8, debounce_count: u8, debounce_count_max: u8) -> (r: u8)
    ensures
        r == start_debounce_value(key_state, debounce_count, debounce_count_max),
{
    key_state | 128 | (if debounce_count == 0 {
        debounce_count_max
    } else {
        debounce_count - 1
    }) << 2
}

/// One key's step in a scan; see `key_step`.
pub fn scan_key(s: u8, down: bool, debounce_count: u8, debounce_count_max: u8) -> (r: (u8, bool, bool))
    requires
        debounce_count <= 31,
    ensures
        r == key_step(s, down, debounce_count, debounce_count_max),
{
    let ks: u8 = if down { 1 } else { 0 };
    let tag: u8 = (debounce_count << 2) | 128;
    let settle = s & 0xfc;
    let changed = (s & 1) != ks;
    if settle != 0 {
        if settle == tag {
            let s2 = s & 3;
            (s2, s2 == 1 || s2 == 2, down)
        } else if changed {
            (start_debounce(ks | (s & 2), debounce_count, debounce_count_max), false, true)
        } else {
            (s, false, true)
        }
    } else if changed {
        (start_debounce(ks * 3, debounce_count, debounce_count_max), true, true)
    } else {
        (s, false, down)
    }
}

} // verus!
