//! The key mapper: turns key switch events into HID reports, following the loaded layout
//! through layers, macros, dual actions and one-shot layers.
use vstd::prelude::*;
use std::collections::VecDeque;
use crate::dual_action::DualActionTimer;
use crate::globals;
use crate::key_event::KeyEvent;
use crate::key_range;
use crate::layout::{LoadError, Manager, MOUSE_PROFILE_WORDS};
use crate::globals::COMPOSITE_PART_BIT;
use crate::macros::{spec_restore, KeyPlusMod, Macro, SequenceMode};
use crate::mouse::{Mouse, MouseTick};
use crate::scan_key::{ScanKey, TimedScanKey};

pub mod actions;

verus! {

/// The free room in the report queue needed to run a macro step.
pub const MIN_REPORT_BUFFER_SIZE: usize = 4;

/// How deep actions may nest: macros running macros.
pub const MAX_ACTION_DEPTH: u32 = 32;

/// A layer waiting for the next key release to end its one-shot.
#[derive(Debug, Clone, Copy, PartialEq, Eq, Structural)]
pub enum Oneshot {
    Idle,
    WaitUp(u16),
    Ready(u16),
}

/// A firmware function the mapper asks the keyboard to run.
#[derive(Debug, Clone, Copy, PartialEq, Eq, Structural)]
pub enum FirmwareRequest {
    Idle,
    Reset,
    ResetToUsbBoot,
}

pub struct Mapper<
    const ROW_COUNT: usize,
    const COL_COUNT: usize,
    const LAYOUT_MAX: usize,
    const REPORT_BUFFER_SIZE: usize,
> {
    pub layout: Manager<ROW_COUNT, COL_COUNT, LAYOUT_MAX>,
    /// The action each key started when it went down, row by row.
    pub active_actions: Vec<KeyPlusMod>,
    pub mouse: Mouse,
    pub modifier_count: [i8; 8],
    /// The reports waiting to be sent, oldest first.
    pub reports: VecDeque<KeyEvent>,
    pub wait_time: u64,
    pub oneshot: Oneshot,
    pub dual_action: DualActionTimer,
    pub last_scan_key: TimedScanKey,
    pub macro_running: Macro,
    pub memo_count: usize,
    pub now: u64,
    /// The time the mapper last asked to be woken at; `u64::MAX` for never.
    pub timer_request: Option<u64>,
    /// The firmware function the mapper last asked for.
    pub firmware_request: FirmwareRequest,
    /// The movement report the mapper last asked for.
    pub mouse_tick: Option<MouseTick>,
}

impl<
    const ROW_COUNT: usize,
    const COL_COUNT: usize,
    const LAYOUT_MAX: usize,
    const REPORT_BUFFER_SIZE: usize,
> Mapper<ROW_COUNT, COL_COUNT, LAYOUT_MAX, REPORT_BUFFER_SIZE> {
    pub open spec fn params_ok() -> bool {
        &&& Manager::<ROW_COUNT, COL_COUNT, LAYOUT_MAX>::params_ok()
        &&& REPORT_BUFFER_SIZE >= MIN_REPORT_BUFFER_SIZE
        &&& REPORT_BUFFER_SIZE < 0x10000
    }

    pub open spec fn wf(&self) -> bool {
        &&& Self::params_ok()
        &&& self.layout.wf()
        &&& self.active_actions@.len() == ROW_COUNT * COL_COUNT
        &&& self.mouse.wf()
        &&& self.reports@.len() <= REPORT_BUFFER_SIZE
    }

    /// Whether `self` and `other` agree in everything but the report queue.
    pub open spec fn same_but_reports(&self, other: &Self) -> bool {
        &&& self.layout == other.layout
        &&& self.active_actions == other.active_actions
        &&& self.mouse == other.mouse
        &&& self.modifier_count == other.modifier_count
        &&& self.wait_time == other.wait_time
        &&& self.oneshot == other.oneshot
        &&& self.dual_action == other.dual_action
        &&& self.last_scan_key == other.last_scan_key
        &&& self.macro_running == other.macro_running
        &&& self.memo_count == other.memo_count
        &&& self.now == other.now
        &&& self.timer_request == other.timer_request
        &&& self.firmware_request == other.firmware_request
        &&& self.mouse_tick == other.mouse_tick
    }

    /// A mapper with no layout loaded.
    pub fn new() -> (r: Self)
        requires
            Self::params_ok(),
        ensures
            r.wf(),
            r.reports@.len() == 0,
            r.wait_time == u64::MAX,
            r.now == 1,
            r.macro_running == Macro::Noop,
            r.dual_action == DualActionTimer::NoDual,
    {
        let layout = Manager::<ROW_COUNT, COL_COUNT, LAYOUT_MAX>::new();
        proof {
            assert(ROW_COUNT * COL_COUNT < 0x8000) by (nonlinear_arith)
                requires
                    ROW_COUNT < 0x80,
                    COL_COUNT < 0x100,
            ;
        }
        let n = ROW_COUNT * COL_COUNT;
        let mut active_actions: Vec<KeyPlusMod> = Vec::new();
        let mut i: usize = 0;
        while i < n
            invariant
                i <= n,
                active_actions@.len() == i,
            decreases n - i,
        {
            active_actions.push(KeyPlusMod::none());
            i = i + 1;
        }
        let config = match layout.get_mouse_profile(1) {
            Some(c) => c,
            None => {
                let mut v: Vec<u16> = Vec::new();
                let mut j: usize = 0;
                while j < MOUSE_PROFILE_WORDS
                    invariant
                        j <= MOUSE_PROFILE_WORDS,
                        v@.len() == j,
                    decreases MOUSE_PROFILE_WORDS - j,
                {
                    v.push(0);
                    j = j + 1;
                }
                v
            },
        };
        Mapper {
            layout,
            active_actions,
            mouse: Mouse::new(config),
            modifier_count: [0; 8],
            reports: VecDeque::new(),
            wait_time: u64::MAX,
            oneshot: Oneshot::Idle,
            dual_action: DualActionTimer::NoDual,
            last_scan_key: TimedScanKey::none(),
            macro_running: Macro::Noop,
            memo_count: 0,
            now: 1,
            timer_request: None,
            firmware_request: FirmwareRequest::Idle,
            mouse_tick: None,
        }
    }

    /// Queues `message` for the reporter. When the queue is full it is emptied and a `Clear`
    /// report queued instead.
    pub fn report(&mut self, message: KeyEvent)
        requires
            old(self).wf(),
        ensures
            final(self).wf(),
            old(self).reports@.len() < REPORT_BUFFER_SIZE ==> final(self).reports@ == old(self).reports@.push(message),
            old(self).reports@.len() >= REPORT_BUFFER_SIZE ==> final(self).reports@ == seq![KeyEvent::Clear],
            final(self).same_but_reports(old(self)),
    {
        if self.reports.len() < REPORT_BUFFER_SIZE {
            self.reports.push_back(message);
        } else {
            self.reports.clear();
            self.reports.push_back(KeyEvent::Clear);
        }
    }

    /// Takes the oldest queued report.
    pub fn take_report(&mut self) -> (r: Option<KeyEvent>)
        requires
            old(self).wf(),
        ensures
            final(self).wf(),
            old(self).reports@.len() == 0 ==> r is None && final(self).reports@ == old(self).reports@,
            old(self).reports@.len() > 0 ==> r == Some(old(self).reports@[0])
                && final(self).reports@ == old(self).reports@.drop_first(),
    {
        self.reports.pop_front()
    }

    /// Empties the report queue.
    fn clear_reports(&mut self)
        requires
            old(self).wf(),
        ensures
            final(self).wf(),
            final(self).reports@.len() == 0,
            final(self).same_but_reports(old(self)),
    {
        self.reports.clear();
    }

    /// Whether the report queue has room for a macro step.
    pub fn room_to_report(&self) -> (r: bool)
        requires
            self.wf(),
        ensures
            r == (REPORT_BUFFER_SIZE - self.reports@.len() >= MIN_REPORT_BUFFER_SIZE),
    {
        REPORT_BUFFER_SIZE - self.reports.len() >= MIN_REPORT_BUFFER_SIZE
    }

    /// Takes the firmware function the mapper asked for.
    pub fn take_firmware_request(&mut self) -> (r: FirmwareRequest)
        ensures
            r == old(self).firmware_request,
            final(self).firmware_request == FirmwareRequest::Idle,
    {
        let r = self.firmware_request;
        self.firmware_request = FirmwareRequest::Idle;
        r
    }

    /// The debounce settle time of the loaded layout.
    pub fn debounce_setting(&self) -> (r: u16)
        ensures
            r == self.layout.spec_globals()[globals::DEBOUNCE_SETTLE_TIME - globals::DUAL_ACTION_TIMEOUT],
    {
        self.layout.global(globals::DEBOUNCE_SETTLE_TIME as usize)
    }
}

} // verus!

verus! {

/// The index of the highest set bit of `m`; 0 for none.
pub open spec fn top_bit(m: u8) -> u8 {
    if m >= 128 {
        7
    } else if m >= 64 {
        6
    } else if m >= 32 {
        5
    } else if m >= 16 {
        4
    } else if m >= 8 {
        3
    } else if m >= 4 {
        2
    } else if m >= 2 {
        1
    } else {
        0
    }
}

/// Whether bit `i` of `m` is set.
pub open spec fn bit_of(m: u8, i: int) -> bool {
    (m >> (i as u8)) & 1u8 == 1u8
}

/// A modifier count one higher, wrapping.
pub open spec fn inc8(c: i8) -> i8 {
    if c == 127i8 {
        -128i8
    } else {
        (c + 1) as i8
    }
}

/// A modifier count one lower, wrapping.
pub open spec fn dec8(c: i8) -> i8 {
    if c == -128i8 {
        127i8
    } else {
        (c - 1) as i8
    }
}

/// How many of the modifiers among the lowest `n` bits of `m` go from released to held
/// (`down`) or from held to released (`!down`) with the counts `c`.
pub open spec fn changed_count(c: Seq<i8>, m: u8, n: int, down: bool) -> nat
    decreases n,
{
    if n <= 0 {
        0
    } else {
        changed_count(c, m, n - 1, down) + if bit_of(m, n - 1) && (if down {
            c[n - 1] == 0
        } else {
            c[n - 1] == 1
        }) {
            1nat
        } else {
            0nat
        }
    }
}

/// The modifier counts after the modifiers `m` go down or up.
pub open spec fn counts_after(c: Seq<i8>, m: u8, down: bool) -> Seq<i8> {
    Seq::new(
        8,
        |i: int|
            if bit_of(m, i) {
                if down {
                    inc8(c[i])
                } else {
                    dec8(c[i])
                }
            } else {
                c[i]
            },
    )
}

/// Whether the modifier counts `c2` and reports `q2` are `c` and `q` after the modifiers `m`
/// went down or up: the counts change, and the change is reported when any modifier changed
/// state.
pub open spec fn modifiers_written(c: Seq<i8>, q: Seq<KeyEvent>, c2: Seq<i8>, q2: Seq<KeyEvent>, m: u8, down: bool, cap: int) -> bool {
    let changed = changed_count(c, m, 8, down);
    &&& c2 == counts_after(c, m, down)
    &&& changed == 0 ==> q2 == q
    &&& changed > 0 ==> q2 == queued(q, modifier_event(m, changed, down, false), cap)
}

/// The report for modifiers `m` going down or up when `changed` of them change state: the
/// key of the highest modifier when it is the only change and not pending, else all of them.
pub open spec fn modifier_event(m: u8, changed: nat, down: bool, pending: bool) -> KeyEvent {
    if changed == 1 && !pending {
        KeyEvent::Basic((key_range::MODIFIER_MIN + top_bit(m)) as u8, down)
    } else if pending {
        KeyEvent::PendingModifiers(m, down)
    } else {
        KeyEvent::Modifiers(m, down)
    }
}

/// The report queue after queueing `e` in a queue of capacity `cap`.
pub open spec fn queued(q: Seq<KeyEvent>, e: KeyEvent, cap: int) -> Seq<KeyEvent> {
    if q.len() < cap {
        q.push(e)
    } else {
        seq![KeyEvent::Clear]
    }
}

impl<
    const ROW_COUNT: usize,
    const COL_COUNT: usize,
    const LAYOUT_MAX: usize,
    const REPORT_BUFFER_SIZE: usize,
> Mapper<ROW_COUNT, COL_COUNT, LAYOUT_MAX, REPORT_BUFFER_SIZE> {
    /// Counts the modifiers `modifiers` as going down or up and reports the modifiers whose
    /// state changes.
    pub fn write_modifiers(&mut self, modifiers: u8, down: bool, pending: bool)
        requires
            old(self).wf(),
        ensures
            final(self).wf(),
            final(self).modifier_count@ == counts_after(old(self).modifier_count@, modifiers, down),
            ({
                let changed = changed_count(old(self).modifier_count@, modifiers, 8, down);
                &&& changed == 0 ==> final(self).reports@ == old(self).reports@
                &&& changed > 0 ==> final(self).reports@ == queued(
                    old(self).reports@,
                    modifier_event(modifiers, changed, down, pending),
                    REPORT_BUFFER_SIZE as int,
                )
            }),
            final(self).layout == old(self).layout,
            final(self).active_actions == old(self).active_actions,
            final(self).mouse == old(self).mouse,
            final(self).dual_action == old(self).dual_action,
            final(self).macro_running == old(self).macro_running,
            final(self).wait_time == old(self).wait_time,
            final(self).now == old(self).now,
            final(self).oneshot == old(self).oneshot,
            final(self).memo_count == old(self).memo_count,
            final(self).last_scan_key == old(self).last_scan_key,
    {
        let ghost c0 = self.modifier_count@;
        let mut changed: u32 = 0;
        let mut i: u8 = 0;
        let mut bits: u8 = modifiers;
        assert(modifiers >> 0u8 == modifiers) by (bit_vector);
        loop
            invariant
                i < 8,
                bits == modifiers >> i,
                i > 0 ==> bits != 0,
                self.wf(),
                c0 == old(self).modifier_count@,
                changed == changed_count(c0, modifiers, i as int, down),
                changed <= i,
                forall|j: int| 0 <= j < i ==> self.modifier_count@[j] == counts_after(c0, modifiers, down)[j],
                forall|j: int| i <= j < 8 ==> self.modifier_count@[j] == c0[j],
                self.reports == old(self).reports,
                self.layout == old(self).layout,
                self.active_actions == old(self).active_actions,
                self.mouse == old(self).mouse,
                self.dual_action == old(self).dual_action,
                self.macro_running == old(self).macro_running,
                self.wait_time == old(self).wait_time,
                self.now == old(self).now,
                self.oneshot == old(self).oneshot,
                self.memo_count == old(self).memo_count,
                self.last_scan_key == old(self).last_scan_key,
            decreases 8 - i,
        {
            let bit = bits & 1;
            let c = self.modifier_count[i as usize];
            if bit == 1 {
                let nc: i8 = if down {
                    if c == i8::MAX {
                        i8::MIN
                    } else {
                        c + 1
                    }
                } else {
                    if c == i8::MIN {
                        i8::MAX
                    } else {
                        c - 1
                    }
                };
                self.modifier_count[i as usize] = nc;
                if (down && nc == 1) || (!down && nc == 0) {
                    changed = changed + 1;
                }
            }
            proof {
                assert(bit_of(modifiers, i as int) == (bit == 1));
            }
            let k = i;
            bits = bits >> 1;
            i = i + 1;
            proof {
                assert((k < 8 && bits == (modifiers >> k) >> 1u8 ==> (k + 1 < 8 ==> bits == modifiers >> (k + 1u8)))
                    && (k == 7 && bits == (modifiers >> k) >> 1u8 ==> bits == 0u8)) by (bit_vector);
            }
            if bits == 0 {
                proof {
                    assert forall|j: int| i <= j < 8 implies !bit_of(modifiers, j) by {
                        let jj = j as u8;
                        lemma_bits_above_zero(modifiers, k, jj);
                    }
                    lemma_changed_count_tail(c0, modifiers, i as int, down);
                    assert(self.modifier_count@ =~= counts_after(c0, modifiers, down));
                    if changed > 0 {
                        if k == 0 {
                            assert(bit_of(modifiers, 0));
                            assert((modifiers >> 0u8) & 1u8 == 1u8 ==> modifiers >> 0u8 != 0u8) by (bit_vector);
                        }
                        lemma_top_bit(modifiers, k);
                    }
                }
                if changed != 0 {
                    if changed == 1 && !pending {
                        self.report(KeyEvent::basic((key_range::MODIFIER_MIN as u8) + k, down));
                    } else {
                        self.report(KeyEvent::modifiers(modifiers, down, pending));
                    }
                }
                return;
            }
        }
    }
}

/// Modifiers beyond the highest set bit do not change the count.
pub proof fn lemma_changed_count_tail(c: Seq<i8>, m: u8, n: int, down: bool)
    requires
        0 <= n <= 8,
        forall|j: int| n <= j < 8 ==> !bit_of(m, j),
    ensures
        changed_count(c, m, 8, down) == changed_count(c, m, n, down),
    decreases 8 - n,
{
    if n < 8 {
        lemma_changed_count_tail(c, m, n + 1, down);
    }
}

} // verus!

verus! {

proof fn lemma_top_bit(m: u8, k: u8)
    by (bit_vector)
    requires
        m >> k != 0u8,
        (m >> k) >> 1u8 == 0u8,
        k < 8u8,
    ensures
        k == top_bit(m),
{
}

proof fn lemma_bits_above_zero(m: u8, k: u8, j: u8)
    by (bit_vector)
    requires
        (m >> k) >> 1u8 == 0u8,
        k < j,
        j < 8u8,
    ensures
        (m >> j) & 1u8 == 0u8,
{
}

} // verus!

verus! {

impl<
    const ROW_COUNT: usize,
    const COL_COUNT: usize,
    const LAYOUT_MAX: usize,
    const REPORT_BUFFER_SIZE: usize,
> Mapper<ROW_COUNT, COL_COUNT, LAYOUT_MAX, REPORT_BUFFER_SIZE> {
    /// Counts the modifiers `modifiers` as going up and reports those released.
    pub fn write_up_modifiers(&mut self, modifiers: u8, pending: bool)
        requires
            old(self).wf(),
        ensures
            final(self).wf(),
            final(self).modifier_count@ == counts_after(old(self).modifier_count@, modifiers, false),
            ({
                let changed = changed_count(old(self).modifier_count@, modifiers, 8, false);
                &&& changed == 0 ==> final(self).reports@ == old(self).reports@
                &&& changed > 0 ==> final(self).reports@ == queued(
                    old(self).reports@,
                    modifier_event(modifiers, changed, false, pending),
                    REPORT_BUFFER_SIZE as int,
                )
            }),
            final(self).layout == old(self).layout,
            final(self).active_actions == old(self).active_actions,
            final(self).oneshot == old(self).oneshot,
    {
        self.write_modifiers(modifiers, false, pending)
    }

    /// Counts the modifiers `modifiers` as going down and reports those pressed.
    pub fn write_down_modifiers(&mut self, modifiers: u8, pending: bool)
        requires
            old(self).wf(),
        ensures
            final(self).wf(),
            final(self).modifier_count@ == counts_after(old(self).modifier_count@, modifiers, true),
            ({
                let changed = changed_count(old(self).modifier_count@, modifiers, 8, true);
                &&& changed == 0 ==> final(self).reports@ == old(self).reports@
                &&& changed > 0 ==> final(self).reports@ == queued(
                    old(self).reports@,
                    modifier_event(modifiers, changed, true, pending),
                    REPORT_BUFFER_SIZE as int,
                )
            }),
            final(self).layout == old(self).layout,
            final(self).active_actions == old(self).active_actions,
            final(self).oneshot == old(self).oneshot,
    {
        self.write_modifiers(modifiers, true, pending)
    }

    fn zero_modifiers(&mut self)
        requires
            old(self).wf(),
        ensures
            final(self).wf(),
            final(self).modifier_count@ == seq![0i8, 0, 0, 0, 0, 0, 0, 0],
            final(self).layout == old(self).layout,
            final(self).reports == old(self).reports,
            final(self).active_actions == old(self).active_actions,
            final(self).mouse == old(self).mouse,
            final(self).dual_action == old(self).dual_action,
            final(self).macro_running == old(self).macro_running,
            final(self).oneshot == old(self).oneshot,
            final(self).memo_count == old(self).memo_count,
    {
        self.modifier_count = [0; 8];
        assert(self.modifier_count@ =~= seq![0i8, 0, 0, 0, 0, 0, 0, 0]);
    }

    /// Forgets every active key, modifier, macro, mouse key and pending decision, resets
    /// the layers and reports a `Clear`.
    pub fn clear_all(&mut self)
        requires
            old(self).wf(),
        ensures
            final(self).wf(),
            final(self).reports@ == seq![KeyEvent::Clear],
            final(self).modifier_count@ == seq![0i8, 0, 0, 0, 0, 0, 0, 0],
            final(self).macro_running == Macro::Noop,
            final(self).dual_action == DualActionTimer::NoDual,
            final(self).layout.layer_stack() == seq![crate::layout::MAIN_BASE],
            final(self).layout.memos().len() == 0,
            final(self).layout.macro_words().len() == 0,
            forall|i: int| 0 <= i < ROW_COUNT * COL_COUNT ==> final(self).active_actions@[i] == KeyPlusMod(0, 0),
    {
        let n = self.active_actions.len();
        let mut i: usize = 0;
        while i < n
            invariant
                i <= n,
                n == self.active_actions@.len(),
                self.wf(),
                forall|k: int| 0 <= k < i ==> self.active_actions@[k] == KeyPlusMod(0, 0),
            decreases n - i,
        {
            self.active_actions.set(i, KeyPlusMod::none());
            i = i + 1;
        }
        self.zero_modifiers();
        self.macro_running = Macro::Noop;
        self.mouse.clear_all();
        self.layout.clear_all();
        self.dual_action = DualActionTimer::NoDual;
        self.clear_reports();
        self.report(KeyEvent::Clear);
        assert(self.reports@ =~= seq![KeyEvent::Clear]);
    }

    /// Forgets the modifiers and empties the layer stack but for the layout.
    pub fn clear_layers(&mut self)
        requires
            old(self).wf(),
        ensures
            final(self).wf(),
            final(self).modifier_count@ == seq![0i8, 0, 0, 0, 0, 0, 0, 0],
    {
        self.zero_modifiers();
        self.layout.clear_layers();
        self.report(KeyEvent::Modifiers(0, false));
    }

    /// Forgets the modifiers and the modifier layers and reports a `Clear`.
    pub fn stop_active(&mut self)
        requires
            old(self).wf(),
        ensures
            final(self).wf(),
            final(self).modifier_count@ == seq![0i8, 0, 0, 0, 0, 0, 0, 0],
    {
        self.zero_modifiers();
        if self.layout.layer_stack_len() > 0 {
            self.layout.clear_modifier_layers();
        }
        self.report(KeyEvent::Clear);
    }

    /// Loads the layout `layout_mapping` and uses its second mouse profile.
    pub fn load_layout(&mut self, layout_mapping: &[u16]) -> (r: Result<(), LoadError>)
        requires
            old(self).wf(),
        ensures
            final(self).wf(),
            r is Ok <==> crate::layout::load_ok(layout_mapping@, ROW_COUNT as int, COL_COUNT as int, LAYOUT_MAX as int),
            r is Ok ==> final(self).mouse.config@ == final(self).layout.spec_mouse_profiles().subrange(
                MOUSE_PROFILE_WORDS as int,
                2 * MOUSE_PROFILE_WORDS as int,
            ),
            r is Ok ==> {
                let data = layout_mapping@;
                let k = crate::layout::load_len(data);
                &&& final(self).layout.spec_mapping().len() == LAYOUT_MAX
                &&& final(self).layout.spec_mapping().subrange(0, k) == data.subrange(data.len() - k, data.len() as int)
                &&& final(self).layout.bottom() == k
                &&& final(self).layout.dir_base() == crate::layout::header_layer_count(data[2])
                &&& final(self).layout.layer_stack() == seq![crate::layout::MAIN_BASE]
                &&& final(self).layout.memos().len() == 0
                &&& final(self).layout.macro_words().len() == 0
                &&& final(self).layout.room() == LAYOUT_MAX - k - 1
                &&& (final(self).layout.spec_globals(), final(self).layout.spec_mouse_profiles())
                    == crate::layout::globals_apply(
                    data,
                    5,
                    data[4] as int,
                    old(self).layout.spec_globals(),
                    old(self).layout.spec_mouse_profiles(),
                )
            },
    {
        match self.layout.load(layout_mapping) {
            Ok(()) => {},
            Err(e) => {
                return Err(e);
            },
        }
        proof {
            self.layout.lemma_mouse_profiles_len();
        }
        match self.layout.get_mouse_profile(1) {
            Some(c) => self.mouse.set_config(c),
            None => {},
        }
        Ok(())
    }

    fn activate_action(&mut self, row_idx: usize, column_idx: usize, kc: KeyPlusMod)
        requires
            old(self).wf(),
            row_idx < ROW_COUNT,
            column_idx < COL_COUNT,
        ensures
            final(self).wf(),
            final(self).active_actions@ == old(self).active_actions@.update(
                row_idx * COL_COUNT + column_idx,
                kc,
            ),
            final(self).layout == old(self).layout,
            final(self).reports == old(self).reports,
            *final(self) == (Mapper { active_actions: final(self).active_actions, ..*old(self) }),
    {
        proof {
            lemma_key_index::<ROW_COUNT, COL_COUNT>(row_idx, column_idx);
        }
        self.active_actions.set(row_idx * COL_COUNT + column_idx, kc);
    }

    fn deactivate_action(&mut self, row_idx: usize, column_idx: usize) -> (r: KeyPlusMod)
        requires
            old(self).wf(),
            row_idx < ROW_COUNT,
            column_idx < COL_COUNT,
        ensures
            final(self).wf(),
            r == old(self).active_actions@[row_idx * COL_COUNT + column_idx],
            final(self).active_actions@ == old(self).active_actions@.update(
                row_idx * COL_COUNT + column_idx,
                KeyPlusMod(0, 0),
            ),
            final(self).layout == old(self).layout,
            final(self).reports == old(self).reports,
            *final(self) == (Mapper { active_actions: final(self).active_actions, ..*old(self) }),
    {
        proof {
            lemma_key_index::<ROW_COUNT, COL_COUNT>(row_idx, column_idx);
        }
        let i = row_idx * COL_COUNT + column_idx;
        let ans = self.active_actions[i];
        self.active_actions.set(i, KeyPlusMod::none());
        ans
    }

    /// When the next timed event is due: the earlier of the mouse's next tick and the end of
    /// the dual action's wait, and no later than now while a macro runs.
    pub open spec fn next_wait_time(&self) -> u64 {
        let a = self.mouse.spec_next_event_time();
        let b = self.dual_action.spec_wait_until();
        let t = if a < b {
            a
        } else {
            b
        };
        if !(self.macro_running is Noop) && self.now < t {
            self.now
        } else {
            t
        }
    }

    /// Asks to be woken when the next timed event is due.
    fn set_wait_time(&mut self)
        requires
            old(self).wf(),
        ensures
            final(self).wf(),
            final(self).layout == old(self).layout,
            final(self).reports == old(self).reports,
            final(self).macro_running == old(self).macro_running,
            final(self).dual_action == old(self).dual_action,
            *final(self) == (Mapper {
                wait_time: final(self).wait_time,
                timer_request: final(self).timer_request,
                ..*old(self)
            }),
            ({
                let t = old(self).next_wait_time();
                &&& t != old(self).wait_time ==> final(self).wait_time == t && final(self).timer_request == Some(t)
                &&& t == old(self).wait_time ==> final(self).wait_time == old(self).wait_time && final(self).timer_request == if t != u64::MAX {
                    Some(t)
                } else {
                    old(self).timer_request
                }
            }),
    {
        let a = self.mouse.next_event_time();
        let b = self.dual_action.wait_until();
        let mut t = if a < b {
            a
        } else {
            b
        };
        if let Macro::Noop = self.macro_running {
        } else if self.now < t {
            t = self.now;
        }
        if t != self.wait_time {
            self.wait_time = t;
            self.timer_request = Some(t);
        } else if t != u64::MAX {
            self.timer_request = Some(t);
        }
    }

    fn push_macro(&mut self, mac: Macro)
        requires
            old(self).wf(),
        ensures
            final(self).wf(),
            final(self).macro_running == mac,
            final(self).layout.layer_stack() == old(self).layout.layer_stack(),
            final(self).layout.memos() == old(self).layout.memos(),
    {
        let c = self.macro_running;
        self.layout.update_macro(&c);
        self.macro_running = self.layout.push_macro(mac);
    }

    fn pop_macro(&mut self)
        requires
            old(self).wf(),
        ensures
            final(self).wf(),
            old(self).layout.macro_words().len() >= 3 ==> final(self).macro_running == spec_restore(
                old(self).layout.macro_words().subrange(3, old(self).layout.macro_words().len() as int),
            ) && final(self).layout.macro_words() == old(self).layout.macro_words().subrange(
                3,
                old(self).layout.macro_words().len() as int,
            ),
            old(self).layout.macro_words().len() < 3 ==> final(self).macro_running == Macro::Noop
                && final(self).layout.macro_words() == old(self).layout.macro_words(),
            final(self).layout.layer_stack() == old(self).layout.layer_stack(),
            final(self).layout.memos() == old(self).layout.memos(),
    {
        self.macro_running = self.layout.pop_macro();
        self.set_wait_time();
    }

    fn mouse(&mut self, code: u16, is_down: bool)
        requires
            old(self).wf(),
            key_range::MOUSE_MIN <= code,
        ensures
            final(self).wf(),
            code - key_range::MOUSE_MIN > key_range::MOUSE_ACCEL_END ==> *final(self) == *old(self),
            ({
                let c = code - key_range::MOUSE_MIN;
                let i = c - key_range::MOUSE_ACCEL;
                key_range::MOUSE_ACCEL <= c <= key_range::MOUSE_ACCEL_END ==> {
                    &&& *final(self) == (Mapper { mouse: final(self).mouse, ..*old(self) })
                    &&& final(self).mouse.config@ == old(self).layout.spec_mouse_profiles().subrange(
                        i * MOUSE_PROFILE_WORDS,
                        (i + 1) * MOUSE_PROFILE_WORDS,
                    )
                    &&& final(self).mouse.mouse_keys == old(self).mouse.mouse_keys
                }
            }),
    {
        let code = code - key_range::MOUSE_MIN;
        if key_range::MOUSE_ACCEL <= code && code <= key_range::MOUSE_ACCEL_END {
            match self.layout.get_mouse_profile((code - key_range::MOUSE_ACCEL) as usize) {
                Some(c) => self.mouse.set_config(c),
                None => {},
            }
        } else if code <= key_range::MOUSE_DELTA_END {
            match self.mouse.action(code, is_down, self.now) {
                Some(key_event) => self.report(key_event),
                None => self.set_wait_time(),
            }
        }
    }

    fn modifier(&mut self, key: u16, is_down: bool)
        requires
            old(self).wf(),
            key_range::MODIFIER_MIN <= key <= key_range::MODIFIER_MAX,
        ensures
            final(self).wf(),
            final(self).modifier_count@ == counts_after(
                old(self).modifier_count@,
                (1u8 << ((key - key_range::MODIFIER_MIN) as u8)) as u8,
                is_down,
            ),
    {
        let idx = key - key_range::MODIFIER_MIN;
        let layer: u16 = if idx < 4 {
            idx
        } else if idx == 6 {
            4
        } else {
            idx - 4
        };
        let bit: u8 = 1u8 << (idx as u8);
        if is_down {
            self.layout.push_layer(layer);
            self.write_down_modifiers(bit, false);
        } else {
            self.layout.pop_layer(layer);
            self.write_up_modifiers(bit, false);
        }
    }

    /// Whether `new` is `old` after pushing layer `layern`: where there is room and the layer
    /// exists the stack grows by it, and a plain layer's modifiers are reported as held;
    /// otherwise the stack, the modifier counts and the reports stay.
    pub open spec fn layer_pushed(old: Self, new: Self, layern: u16) -> bool {
        let ok = old.layout.free_words() > 1 && old.layout.layer_range((layern & 0xffu16) as int) is Some;
        &&& !ok ==> new.layout.layer_stack() == old.layout.layer_stack() && new.modifier_count
            == old.modifier_count && new.reports == old.reports
        &&& ok ==> new.layout.layer_stack().len() > old.layout.layer_stack().len()
            && new.layout.layer_stack().subrange(0, old.layout.layer_stack().len() + 1int)
            == old.layout.layer_stack().push(layern)
        &&& new.layout.memos() == old.layout.memos()
        &&& new.active_actions == old.active_actions
        &&& ok && old.layout.layer_words((layern & 0xffu16) as int)[0] & COMPOSITE_PART_BIT == 0 ==> match new.layout.layer_range(
            layern as int,
        ) {
            Some((s, e)) => modifiers_written(
                old.modifier_count@,
                old.reports@,
                new.modifier_count@,
                new.reports@,
                new.layout.spec_mapping()[s] as u8,
                true,
                REPORT_BUFFER_SIZE as int,
            ),
            None => new.modifier_count == old.modifier_count && new.reports == old.reports,
        }
    }

    /// Whether `new` is `old` after popping the active layer `layern`: its modifiers are
    /// reported as released, and a plain layer's topmost entry leaves the stack.
    pub open spec fn layer_popped(old: Self, new: Self, layern: u16) -> bool {
        &&& match new.layout.layer_range(layern as int) {
            Some((s, e)) => modifiers_written(
                old.modifier_count@,
                old.reports@,
                new.modifier_count@,
                new.reports@,
                new.layout.spec_mapping()[s] as u8,
                false,
                REPORT_BUFFER_SIZE as int,
            ),
            None => new.modifier_count == old.modifier_count && new.reports == old.reports,
        }
        &&& new.layout.memos() == old.layout.memos()
        &&& new.active_actions == old.active_actions
        &&& ({
            let st = old.layout.layer_stack();
            let found = crate::layout::spec_last_index_of(st, layern, st.len() as int);
            old.layout.layer_words(layern as int)[0] & COMPOSITE_PART_BIT == 0 ==> new.layout.layer_stack()
                == st.remove(found->0)
        })
    }

    /// Pushes layer `layern` and reports its modifiers as held.
    pub fn push_layer(&mut self, layern: u16)
        requires
            old(self).wf(),
        ensures
            final(self).wf(),
            Self::layer_pushed(*old(self), *final(self), layern),
    {
        if self.layout.push_layer(layern) {
            match self.layout.get_layer(layern) {
                Some(l) => {
                    let m = l.modifiers();
                    self.write_down_modifiers(m, false);
                },
                None => {},
            }
        }
    }

    /// Pops layer `layern` and reports its modifiers as released. Returns whether the layer
    /// was active.
    pub fn pop_layer(&mut self, layern: u16) -> (r: bool)
        requires
            old(self).wf(),
        ensures
            final(self).wf(),
            r == (spec_pop_found(old(self).layout.layer_stack(), layern)
                && old(self).layout.layer_range(layern as int) is Some),
            !r ==> *final(self) == *old(self),
            r ==> Self::layer_popped(*old(self), *final(self), layern),
    {
        if self.layout.pop_layer(layern) {
            match self.layout.get_layer(layern) {
                Some(l) => {
                    let m = l.modifiers();
                    self.write_up_modifiers(m, false);
                },
                None => {},
            }
            true
        } else {
            false
        }
    }

    /// Whether `new` is `old` after the layer action `key` went down or up: a layer action
    /// pushes the layer while its key is down; a toggle pops an active layer and pushes
    /// another; a layout action makes the layer the layout; a one-shot layer is pushed and,
    /// on release, waits for the next key.
    pub open spec fn layer_action_done(old: Self, new: Self, key: u16, is_down: bool) -> bool {
        let base = key_range::spec_base_code(key);
        let layern = (key - base) as u16;
        let on = spec_pop_found(old.layout.layer_stack(), layern) && old.layout.layer_range(layern as int) is Some;
        &&& new.active_actions == old.active_actions
        &&& base != key_range::LAYER && base != key_range::TOGGLE && base != key_range::SET_LAYOUT
            && base != key_range::ONESHOT ==> new == old
        &&& (base == key_range::TOGGLE || base == key_range::SET_LAYOUT) && !is_down ==> new == old
        &&& base == key_range::ONESHOT && !is_down ==> new == (Mapper { oneshot: Oneshot::WaitUp(layern), ..old })
        &&& base == key_range::SET_LAYOUT && is_down ==> new.layout.spec_mapping() == old.layout.spec_mapping().update(
            old.layout.bottom(),
            layern,
        )
        &&& (base == key_range::LAYER || base == key_range::ONESHOT) && is_down ==> Self::layer_pushed(old, new, layern)
        &&& base == key_range::LAYER && !is_down ==> (on ==> Self::layer_popped(old, new, layern)) && (!on
            ==> new == old)
        &&& base == key_range::TOGGLE && is_down ==> (on ==> Self::layer_popped(old, new, layern)) && (!on
            ==> Self::layer_pushed(old, new, layern))
    }

    fn layer(&mut self, key: u16, is_down: bool)
        requires
            old(self).wf(),
        ensures
            final(self).wf(),
            Self::layer_action_done(*old(self), *final(self), key, is_down),
    {
        let base = key_range::base_code(key);
        let layern = key - base;
        if base == key_range::LAYER {
            if is_down {
                self.push_layer(layern);
            } else {
                self.pop_layer(layern);
            }
        } else if base == key_range::TOGGLE {
            if is_down && !self.pop_layer(layern) {
                self.push_layer(layern);
            }
        } else if base == key_range::SET_LAYOUT {
            if is_down {
                self.layout.set_layout(layern);
            }
        } else if base == key_range::ONESHOT {
            if is_down {
                self.push_layer(layern);
            } else {
                self.oneshot = Oneshot::WaitUp(layern);
            }
        }
    }

    fn firmware_action(&mut self, action: u16, is_down: bool)
        requires
            old(self).wf(),
        ensures
            final(self).wf(),
            action == key_range::FW_RESET_KEYBOARD && !is_down ==> final(self).firmware_request == FirmwareRequest::Reset,
            action == key_range::FW_RESET_TO_USB_BOOT && !is_down ==> final(self).firmware_request == FirmwareRequest::ResetToUsbBoot,
            (action == key_range::FW_RESET_KEYBOARD || action == key_range::FW_RESET_TO_USB_BOOT) && is_down
                ==> final(self).firmware_request == old(self).firmware_request,
    {
        if action == key_range::FW_RESET_KEYBOARD {
            if !is_down {
                self.firmware_request = FirmwareRequest::Reset;
            }
        } else if action == key_range::FW_RESET_TO_USB_BOOT {
            if !is_down {
                self.firmware_request = FirmwareRequest::ResetToUsbBoot;
            }
        } else if action == key_range::FW_CLEAR_ALL {
            self.clear_all();
        } else if action == key_range::FW_CLEAR_LAYERS {
            self.clear_layers();
        } else if action == key_range::FW_STOP_ACTIVE {
            self.stop_active();
        }
    }
}

/// The index of the key at `row`, `column` in a row-by-row array is in range.
pub proof fn lemma_key_index<const ROW_COUNT: usize, const COL_COUNT: usize>(row: usize, column: usize)
    requires
        row < ROW_COUNT < 0x80,
        column < COL_COUNT < 0x100,
    ensures
        row * COL_COUNT + column < ROW_COUNT * COL_COUNT < 0x8000,
{
    assert(row * COL_COUNT + column < ROW_COUNT * COL_COUNT) by (nonlinear_arith)
        requires
            row < ROW_COUNT,
            column < COL_COUNT,
    ;
    assert(ROW_COUNT * COL_COUNT < 0x8000) by (nonlinear_arith)
        requires
            ROW_COUNT < 0x80,
            COL_COUNT < 0x100,
    ;
}

/// Whether the layer stack `s` holds an entry naming layer `layern`.
pub open spec fn spec_pop_found(s: Seq<u16>, layern: u16) -> bool {
    crate::layout::spec_last_index_of(s, layern, s.len() as int) is Some
}

} // verus!
