//! What the mapper does with an action code, a key switch event and a timer tick.
//!
//! Actions nest: a macro runs other actions, a dual-action key runs its tap or hold action
//! and a postponed key event is replayed. Each nested call gets one less of a depth budget,
//! so that a layout whose macros refer to each other in a cycle stops instead of recursing
//! forever.
use vstd::prelude::*;
use crate::dual_action::DualActionTimer;
use crate::globals;
use crate::key_event::KeyEvent;
use crate::key_range;
use crate::macros::{KeyPlusMod, Macro, SequenceMode};
use crate::mapper::{queued, Mapper, Oneshot, MAX_ACTION_DEPTH, MIN_REPORT_BUFFER_SIZE};
use crate::layout::spec_find_code;
use crate::scan_key::{ScanKey, TimedScanKey};

verus! {

/// The report that the action code `action` makes by itself, for the codes that make one
/// report and nothing else: basic keys but the modifiers, consumer keys and system control
/// keys.
pub open spec fn simple_event(action: u16, is_down: bool) -> Option<KeyEvent> {
    if key_range::MODIFIER_MIN <= action <= key_range::MODIFIER_MAX {
        None
    } else if key_range::BASIC_MIN <= action <= key_range::BASIC_MAX {
        Some(KeyEvent::Basic(action as u8, is_down))
    } else if key_range::CONSUMER_MIN <= action <= key_range::CONSUMER_MAX {
        Some(KeyEvent::Consumer(if is_down { (action - key_range::CONSUMER_MIN) as u16 } else { 0 }))
    } else if key_range::SYS_CTL_MIN <= action <= key_range::SYS_CTL_MAX {
        Some(
            KeyEvent::SysCtl(
                if is_down {
                    (action - key_range::SYS_CTL_MIN + key_range::SYS_CTL_BASE) as u16
                } else {
                    0
                },
            ),
        )
    } else {
        None
    }
}

impl<
    const ROW_COUNT: usize,
    const COL_COUNT: usize,
    const LAYOUT_MAX: usize,
    const REPORT_BUFFER_SIZE: usize,
> Mapper<ROW_COUNT, COL_COUNT, LAYOUT_MAX, REPORT_BUFFER_SIZE> {
    /// Runs the action code `action` for a key going down or up.
    pub fn run_action(&mut self, action: u16, is_down: bool)
        requires
            old(self).wf(),
        ensures
            final(self).wf(),
            action == 0 ==> *final(self) == *old(self),
            simple_event(action, is_down) matches Some(e) ==> final(self).reports@ == queued(
                old(self).reports@,
                e,
                REPORT_BUFFER_SIZE as int,
            ) && final(self).same_but_reports(old(self)),
    {
        self.run_action_at(action, is_down, MAX_ACTION_DEPTH)
    }

    /// Runs `action`, then the action that a modifier macro among them leads to, with its
    /// modifiers held around it, and so on.
    fn run_action_at(&mut self, action: u16, is_down: bool, depth: u32)
        requires
            old(self).wf(),
        ensures
            final(self).wf(),
            action == 0 ==> *final(self) == *old(self),
            simple_event(action, is_down) matches Some(e) ==> final(self).reports@ == queued(
                old(self).reports@,
                e,
                REPORT_BUFFER_SIZE as int,
            ) && final(self).same_but_reports(old(self)),
            key_range::LAYER <= action <= key_range::LAYERS_LAST ==> Self::layer_action_done(
                *old(self),
                *final(self),
                action,
                is_down,
            ),
        decreases depth, 4int,
    {
        if action == 0 {
            return;
        }
        let mut next = self.action_step(action, is_down, 0, depth);
        if next.0 != 0 {
            let mut steps: u32 = 1;
            while next.0 != 0 && steps < MAX_ACTION_DEPTH
                invariant
                    self.wf(),
                decreases MAX_ACTION_DEPTH - steps,
            {
                next = self.action_step(next.0, is_down, next.1, depth);
                steps = steps + 1;
            }
        }
    }

    /// One step of `run_action_at`: runs `action` with `modifiers` held around it and returns
    /// the action a modifier macro leads to.
    fn action_step(&mut self, action: u16, is_down: bool, modifiers: u8, depth: u32) -> (r: KeyPlusMod)
        requires
            old(self).wf(),
        ensures
            final(self).wf(),
            modifiers == 0 && simple_event(action, is_down) is Some ==> r == KeyPlusMod(0, 0),
            modifiers == 0 ==> (simple_event(action, is_down) matches Some(e) ==> final(self).reports@
                == queued(old(self).reports@, e, REPORT_BUFFER_SIZE as int)
                && final(self).same_but_reports(old(self))),
            modifiers == 0 && key_range::LAYER <= action <= key_range::LAYERS_LAST ==> r == KeyPlusMod(0, 0)
                && Self::layer_action_done(*old(self), *final(self), action, is_down),
        decreases depth, 3int,
    {
        let mut newkey = KeyPlusMod::none();
        if is_down && modifiers != 0 {
            self.write_down_modifiers(modifiers, true);
        }
        if key_range::MODIFIER_MIN <= action && action <= key_range::MODIFIER_MAX {
            self.modifier(action, is_down);
        } else if key_range::BASIC_MIN <= action && action <= key_range::BASIC_MAX {
            self.report(KeyEvent::basic(action as u8, is_down));
        } else if key_range::MACROS_MIN <= action && action <= key_range::MACROS_MAX {
            newkey = self.macros(action, is_down, depth);
        } else if key_range::CONSUMER_MIN <= action && action <= key_range::CONSUMER_MAX {
            self.report(KeyEvent::consumer(action, is_down));
        } else if key_range::SYS_CTL_MIN <= action && action <= key_range::SYS_CTL_MAX {
            self.report(KeyEvent::sys_ctl(action, is_down));
        } else if key_range::MOUSE_MIN <= action && action <= key_range::MOUSE_MAX {
            self.mouse(action, is_down);
        } else if key_range::LAYER <= action && action <= key_range::LAYERS_LAST {
            self.layer(action, is_down);
        } else if key_range::FIRMWARE_MIN <= action && action <= key_range::FIRMWARE_MAX {
            self.firmware_action(action, is_down);
        }
        if modifiers != 0 && !is_down {
            self.write_up_modifiers(modifiers, false);
        }
        newkey
    }

    /// Runs the macro with code `code`. Returns the action that a modifier macro leads to.
    fn macros(&mut self, code: u16, is_down: bool, depth: u32) -> (r: KeyPlusMod)
        requires
            old(self).wf(),
            key_range::MACROS_MIN <= code,
        ensures
            final(self).wf(),
            ({
                let m = old(self).layout.spec_get_macro((code - key_range::MACROS_MIN) as u16);
                &&& m matches Macro::Modifier(km) ==> r == km && *final(self) == *old(self)
                &&& (m is Noop || m is TapDance) ==> *final(self) == *old(self)
                &&& !(m is Modifier) && !(m is HoldRelease) ==> r == KeyPlusMod(0, 0)
                &&& m matches Macro::DualAction(t, h, _, _) ==> (is_down ==> (final(self).dual_action matches
                    DualActionTimer::Wait { tap, hold, .. } && tap == t && hold == h))
                &&& m is Delay && !is_down ==> *final(self) == *old(self)
                &&& m matches Macro::Sequence { mode, rem, .. } ==> ((rem == 0 || (mode is Release) == is_down)
                    ==> *final(self) == *old(self))
            }),
        decreases depth, 2int,
    {
        let id = code - key_range::MACROS_MIN;
        let mac = self.layout.get_macro(id);
        match mac {
            Macro::Modifier(key_plus_mod) => key_plus_mod,
            Macro::DualAction(tap, hold, t1, t2) => {
                self.start_dual_action(is_down, tap, hold, t1, t2, depth);
                KeyPlusMod::none()
            },
            Macro::Noop => KeyPlusMod::none(),
            Macro::Sequence { mode, location, rem } => {
                if rem > 0 {
                    let run = match mode {
                        SequenceMode::Tap | SequenceMode::Hold => is_down,
                        SequenceMode::Release => !is_down,
                    };
                    if run {
                        self.push_macro(mac);
                        self.next_macro_seq(location, rem, mode, depth);
                    }
                }
                KeyPlusMod::none()
            },
            Macro::HoldRelease { hold, release } => {
                let next = if is_down {
                    hold
                } else {
                    release
                };
                if depth > 0 && key_range::MACROS_MIN <= next {
                    self.macros(next, is_down, depth - 1)
                } else {
                    KeyPlusMod::none()
                }
            },
            Macro::Delay(n) => {
                if is_down {
                    self.report(KeyEvent::Delay(n));
                }
                KeyPlusMod::none()
            },
            Macro::TapDance(_, _) => KeyPlusMod::none(),
        }
    }

    /// Runs the steps of the running sequence macro at `location`, `rem` steps left, while
    /// the report queue has room, until the sequence ends or another macro starts.
    fn next_macro_seq(&mut self, location: u32, rem: u16, mode: SequenceMode, depth: u32)
        requires
            old(self).wf(),
        ensures
            final(self).wf(),
            !(REPORT_BUFFER_SIZE - old(self).reports@.len() >= MIN_REPORT_BUFFER_SIZE) ==> *final(self) == (Mapper {
                wait_time: final(self).wait_time,
                timer_request: final(self).timer_request,
                ..*old(self)
            }),
        decreases depth, 1int,
    {
        let stack = self.layout.macro_stack();
        let mut location = location;
        let mut rem = rem;
        while self.room_to_report()
            invariant
                self.wf(),
                !(REPORT_BUFFER_SIZE - old(self).reports@.len() >= MIN_REPORT_BUFFER_SIZE) ==> *self == *old(self),
            decreases rem,
        {
            let tap = if (location as usize) < LAYOUT_MAX {
                self.layout.macro_code(location as usize)
            } else {
                0
            };
            let last = rem <= 1;
            if last {
                self.pop_macro();
            } else {
                location = location.wrapping_add(1);
                rem = rem - 1;
                self.macro_running = Macro::Sequence { mode, location, rem };
            }
            if depth > 0 {
                match mode {
                    SequenceMode::Hold => {
                        self.run_action_at(tap, true, depth - 1);
                    },
                    SequenceMode::Release => {
                        self.run_action_at(tap, false, depth - 1);
                    },
                    SequenceMode::Tap => {
                        self.run_action_at(tap, true, depth - 1);
                        self.run_action_at(tap, false, depth - 1);
                    },
                }
            }
            if last || self.layout.macro_stack() != stack {
                break;
            }
        }
        self.set_wait_time();
    }

    /// A dual-action key goes down or up: down starts the timer that decides between `tap`
    /// and `hold`, settling a pending decision as a hold first; up ends the hold action.
    fn start_dual_action(&mut self, is_down: bool, tap: u16, hold: u16, time1: u16, time2: u16, depth: u32)
        requires
            old(self).wf(),
        ensures
            final(self).wf(),
            is_down ==> (final(self).dual_action matches DualActionTimer::Wait {
                scan_key,
                duration,
                tap_timeout,
                tap: t,
                hold: h,
                count,
            } && t == tap && h == hold && count == 2 && (time1 != u16::MAX ==> duration == time1) && (time1
                != u16::MAX && time2 != u16::MAX ==> tap_timeout == time2) && (!(old(self).dual_action is Wait)
                ==> scan_key == old(self).last_scan_key)),
            !is_down && depth == 0 ==> *final(self) == (Mapper {
                wait_time: final(self).wait_time,
                timer_request: final(self).timer_request,
                ..*old(self)
            }),
        decreases depth, 1int,
    {
        if is_down {
            if let DualActionTimer::Wait { hold: pending_hold, .. } = self.dual_action {
                if depth > 0 {
                    self.run_action_at(pending_hold, true, depth - 1);
                }
                self.dual_action = DualActionTimer::NoDual;
            }
            let (time1, time2) = if time1 == u16::MAX {
                (
                    self.layout.global(globals::DUAL_ACTION_TIMEOUT as usize),
                    self.layout.global(globals::DUAL_ACTION_TIMEOUT2 as usize),
                )
            } else if time2 == u16::MAX {
                (time1, self.layout.global(globals::DUAL_ACTION_TIMEOUT2 as usize))
            } else {
                (time1, time2)
            };
            let k = self.last_scan_key;
            self.dual_action.start(k, tap, hold, time1, time2);
        } else if depth > 0 {
            self.run_action_at(hold, false, depth - 1);
        }
        self.set_wait_time();
    }
}

/// How the modifiers change from those of a key's layer, `layer_mods`, to those its modifier
/// macro asks for, `macro_mods`: the layer's modifiers the macro lets go, and the macro's
/// modifiers the layer does not hold.
pub fn modifier_change(layer_mods: u8, macro_mods: u8) -> (r: (u8, u8))
    ensures
        r == (layer_mods & !macro_mods, macro_mods & !layer_mods),
{
    (layer_mods & !macro_mods, macro_mods & !layer_mods)
}

} // verus!

verus! {

/// The memo count one higher, staying at the top of its range.
pub open spec fn count_up(n: usize) -> usize {
    if n < usize::MAX {
        (n + 1) as usize
    } else {
        n
    }
}

impl<
    const ROW_COUNT: usize,
    const COL_COUNT: usize,
    const LAYOUT_MAX: usize,
    const REPORT_BUFFER_SIZE: usize,
> Mapper<ROW_COUNT, COL_COUNT, LAYOUT_MAX, REPORT_BUFFER_SIZE> {
    /// Whether the memo queue can take a memo of `len` words.
    pub open spec fn memo_fits(&self, len: int) -> bool {
        self.layout.macro_words().len() == 0 && self.layout.room() > len + 1
    }

    /// Postpones the key event `k` to the end of the memo queue. When it does not fit,
    /// everything is cleared instead.
    fn push_scan_key(&mut self, k: &TimedScanKey) -> (r: bool)
        requires
            old(self).wf(),
        ensures
            final(self).wf(),
            r == old(self).memo_fits(5),
            r ==> final(self).layout.memos() == old(self).layout.memos().push(k.spec_as_memo())
                && final(self).memo_count == count_up(old(self).memo_count)
                && final(self).dual_action == old(self).dual_action
                && final(self).reports == old(self).reports
                && final(self).last_scan_key == old(self).last_scan_key,
            !r ==> final(self).reports@ == seq![KeyEvent::Clear] && final(self).dual_action
                == DualActionTimer::NoDual && final(self).layout.memos().len() == 0,
    {
        let memo = k.as_memo();
        if !self.layout.push_memo(&memo) {
            self.clear_all();
            false
        } else {
            if self.memo_count < usize::MAX {
                self.memo_count = self.memo_count + 1;
            }
            true
        }
    }

    /// Postpones the action `tap` to the end of the memo queue. When it does not fit,
    /// everything is cleared instead.
    fn push_action(&mut self, tap: u16, is_down: bool) -> (r: bool)
        requires
            old(self).wf(),
        ensures
            final(self).wf(),
            r == old(self).memo_fits(2),
            r ==> final(self).layout.memos() == old(self).layout.memos().push(
                seq![tap, if is_down { 1u16 } else { 0u16 }],
            ) && final(self).memo_count == count_up(old(self).memo_count),
            !r ==> final(self).reports@ == seq![KeyEvent::Clear] && final(self).layout.memos().len()
                == 0,
    {
        let memo: [u16; 2] = [tap, if is_down { 1 } else { 0 }];
        assert(memo@ =~= seq![tap, if is_down { 1u16 } else { 0u16 }]);
        if !self.layout.push_memo(&memo) {
            self.clear_all();
            false
        } else {
            if self.memo_count < usize::MAX {
                self.memo_count = self.memo_count + 1;
            }
            true
        }
    }

    /// Handles the key switch event `k`. While a dual-action key is undecided, other key
    /// events are postponed to the memo queue; once it is decided, its action runs first.
    pub fn key_switch(&mut self, k: TimedScanKey)
        requires
            old(self).wf(),
        ensures
            final(self).wf(),
            Self::postponed_while_undecided(*old(self), *final(self), k),
            old(self).dual_action is NoDual ==> Self::plain_key_handled(
                Mapper { last_scan_key: k, ..*old(self) },
                *final(self),
                k.0,
            ),
    {
        self.key_switch_at(k, MAX_ACTION_DEPTH)
    }

    /// Whether the key switch event `k` on a key of the matrix, handled at once, did what a
    /// plain key does: a key going down whose code in the active layers has no modifiers
    /// and is a key, consumer or system control code reports that code as pressed and
    /// remembers it as the key's action; a key going up whose remembered action is such a code
    /// reports it as released and forgets it.
    pub open spec fn plain_key_handled(old: Self, new: Self, k: ScanKey) -> bool {
        let row = k.spec_row() as usize;
        let column = k.col as usize;
        let idx = row * COL_COUNT + column;
        (row < ROW_COUNT && column < COL_COUNT) ==> {
            &&& k.spec_is_down() ==> (spec_find_code(
                old.layout.spec_mapping(),
                old.layout.dir_base(),
                ROW_COUNT as int,
                COL_COUNT as int,
                old.layout.layer_stack(),
                old.layout.layer_stack().len() as int,
                row,
                column,
            ) matches Some(kc) ==> (kc.1 == 0 ==> (simple_event(kc.0, true) matches Some(e) ==> new.reports@
                == queued(old.reports@, e, REPORT_BUFFER_SIZE as int) && new.active_actions@
                == old.active_actions@.update(idx, kc) && new.layout == old.layout && new.modifier_count
                == old.modifier_count)))
            &&& !k.spec_is_down() && old.oneshot is Idle ==> ({
                let kc = old.active_actions@[idx];
                kc.1 == 0 ==> (simple_event(kc.0, false) matches Some(e) ==> new.reports@ == queued(
                    old.reports@,
                    e,
                    REPORT_BUFFER_SIZE as int,
                ) && new.active_actions@ == old.active_actions@.update(idx, KeyPlusMod(0, 0))
                    && new.layout == old.layout && new.modifier_count == old.modifier_count)
            })
            &&& k.spec_is_down() ==> (spec_find_code(
                old.layout.spec_mapping(),
                old.layout.dir_base(),
                ROW_COUNT as int,
                COL_COUNT as int,
                old.layout.layer_stack(),
                old.layout.layer_stack().len() as int,
                row,
                column,
            ) matches Some(kc) ==> (kc.1 == 0 && key_range::LAYER <= kc.0 <= key_range::LAYERS_LAST ==> new.active_actions@
                == old.active_actions@.update(idx, kc) && Self::layer_action_done(
                Mapper { active_actions: new.active_actions, ..old },
                new,
                kc.0,
                true,
            )))
            &&& !k.spec_is_down() && old.oneshot is Idle ==> ({
                let kc = old.active_actions@[idx];
                let base = key_range::spec_base_code(kc.0);
                kc.1 == 0 && key_range::LAYER <= kc.0 <= key_range::LAYERS_LAST && (base == key_range::TOGGLE
                    || base == key_range::SET_LAYOUT) ==> new.active_actions@ == old.active_actions@.update(
                    idx,
                    KeyPlusMod(0, 0),
                ) && new == (Mapper { active_actions: new.active_actions, ..old })
            })
        }
    }

    /// Whether `k` was postponed, as it is when the dual-action key `old` waits on stays
    /// undecided: `k` is another key and the timer still counts key events.
    pub open spec fn postponed_while_undecided(old: Self, new: Self, k: TimedScanKey) -> bool {
        old.dual_action matches DualActionTimer::Wait { scan_key, count, .. } ==> (
        !(k.0.col == scan_key.0.col && k.0.spec_row() == scan_key.0.spec_row()) && count > 0 ==> {
            &&& old.memo_fits(5) ==> new.dual_action is Wait && new.layout.memos()
                == old.layout.memos().push(k.spec_as_memo()) && new.reports == old.reports
                && new.last_scan_key == k
            &&& !old.memo_fits(5) ==> new.reports@ == seq![KeyEvent::Clear] && new.dual_action
                == DualActionTimer::NoDual
        })
    }

    fn key_switch_at(&mut self, k: TimedScanKey, depth: u32)
        requires
            old(self).wf(),
        ensures
            final(self).wf(),
            Self::postponed_while_undecided(*old(self), *final(self), k),
            old(self).dual_action is NoDual ==> Self::plain_key_handled(
                Mapper { last_scan_key: k, ..*old(self) },
                *final(self),
                k.0,
            ),
    {
        self.last_scan_key = k;
        if self.dual_action.key_switch(k) {
            self.key_switch_1(k.0, depth);
            return;
        }
        match self.dual_action {
            DualActionTimer::NoDual | DualActionTimer::Wait { .. } => {
                self.push_scan_key(&k);
            },
            DualActionTimer::Hold { scan_key, hold } => {
                if !scan_key.0.is_same_key(k.0) {
                    self.push_scan_key(&k);
                }
                self.dual_action = DualActionTimer::NoDual;
                self.last_scan_key = scan_key;
                self.run_action_at(hold, true, depth);
            },
            DualActionTimer::Tap { scan_key, tap } => {
                if !scan_key.0.is_same_key(k.0) {
                    self.push_scan_key(&k);
                }
                self.dual_action = DualActionTimer::NoDual;
                self.last_scan_key = scan_key;
                if self.push_action(tap, false) {
                    self.run_action_at(tap, true, depth);
                }
            },
        }
    }

    /// Handles the key switch event `k` once no dual-action decision is pending: a key
    /// going down starts the action the active layers give it, a key going up ends the
    /// action it started.
    fn key_switch_1(&mut self, k: ScanKey, depth: u32)
        requires
            old(self).wf(),
        ensures
            final(self).wf(),
            k.spec_row() >= ROW_COUNT || k.col >= COL_COUNT ==> *final(self) == *old(self),
            k.spec_row() < ROW_COUNT && k.col < COL_COUNT && k.spec_is_down() && spec_find_code(
                old(self).layout.spec_mapping(),
                old(self).layout.dir_base(),
                ROW_COUNT as int,
                COL_COUNT as int,
                old(self).layout.layer_stack(),
                old(self).layout.layer_stack().len() as int,
                k.spec_row() as usize,
                k.col as usize,
            ) is None ==> *final(self) == *old(self),
            Self::plain_key_handled(*old(self), *final(self), k),
    {
        let row = k.row();
        let column = k.column();
        if row >= ROW_COUNT || column >= COL_COUNT {
            return;
        }
        if k.is_down() {
            let kc = match self.layout.find_code(row, column) {
                Some(kc) => kc,
                None => {
                    return;
                },
            };
            self.activate_action(row, column, kc);
            let layer_mods = kc.modifiers();
            match self.modifier_macro_of(kc.0) {
                Some(km) => {
                    let (release, add) = modifier_change(layer_mods, km.1);
                    if release != 0 {
                        self.write_up_modifiers(release, true);
                    }
                    if add != 0 {
                        self.write_down_modifiers(add, true);
                    }
                    self.run_action_at(km.0, true, depth);
                },
                None => {
                    if layer_mods != 0 {
                        self.write_up_modifiers(layer_mods, true);
                    }
                    self.run_action_at(kc.0, true, depth);
                },
            }
        } else {
            let kc = self.deactivate_action(row, column);
            let layer_mods = kc.modifiers();
            match self.modifier_macro_of(kc.0) {
                Some(km) => {
                    let (restore, drop) = modifier_change(layer_mods, km.1);
                    self.run_action_at(km.0, false, depth);
                    if drop != 0 {
                        self.write_up_modifiers(drop, restore != 0);
                    }
                    if restore != 0 {
                        self.write_down_modifiers(restore, false);
                    }
                },
                None => {
                    self.run_action_at(kc.0, false, depth);
                    if layer_mods != 0 {
                        self.write_down_modifiers(layer_mods, false);
                    }
                },
            }
            match self.oneshot {
                Oneshot::Idle => {},
                Oneshot::WaitUp(layern) => {
                    self.oneshot = Oneshot::Ready(layern);
                },
                Oneshot::Ready(layern) => {
                    self.oneshot = Oneshot::Idle;
                    self.pop_layer(layern);
                },
            }
        }
    }

    /// The key and modifiers of the modifier macro `code`, when it is one with a key.
    fn modifier_macro_of(&self, code: u16) -> (r: Option<KeyPlusMod>)
        requires
            self.wf(),
        ensures
            r == (if key_range::MACROS_MIN <= code && code <= key_range::MACROS_MAX {
                match self.layout.spec_get_macro((code - key_range::MACROS_MIN) as u16) {
                    Macro::Modifier(km) => if km.0 != 0 {
                        Some(km)
                    } else {
                        None
                    },
                    _ => None,
                }
            } else {
                None
            }),
    {
        if key_range::MACROS_MIN <= code && code <= key_range::MACROS_MAX {
            match self.layout.get_macro(code - key_range::MACROS_MIN) {
                Macro::Modifier(km) => if km.0 != 0 {
                    Some(km)
                } else {
                    None
                },
                _ => None,
            }
        } else {
            None
        }
    }

    /// The dual-action timer ran out: the pending key is decided as held and handled again.
    fn dual_action_expired(&mut self, depth: u32)
        requires
            old(self).wf(),
        ensures
            final(self).wf(),
            !(old(self).dual_action is Wait) && !(old(self).dual_action is Hold) ==> *final(self) == *old(self),
            depth == 0 ==> *final(self) == (Mapper {
                dual_action: match old(self).dual_action {
                    DualActionTimer::Wait { scan_key, hold, .. } => DualActionTimer::Hold { scan_key, hold },
                    d => d,
                },
                ..*old(self)
            }),
    {
        self.dual_action.timer_expired();
        if let DualActionTimer::Hold { scan_key, .. } = self.dual_action {
            if depth > 0 {
                self.key_switch_at(scan_key, depth - 1);
            }
        }
    }

    /// The timer the mapper asked for went off at `self.now`: runs the next steps of the
    /// running macro, asks for a mouse movement report in `mouse_tick`, or decides a pending
    /// dual-action key as held.
    pub fn check_time(&mut self)
        requires
            old(self).wf(),
        ensures
            final(self).wf(),
            old(self).wait_time == u64::MAX ==> *final(self) == *old(self),
            old(self).wait_time != u64::MAX && !(old(self).macro_running is Noop) && !(old(self).macro_running is Sequence)
                ==> *final(self) == *old(self),
            ({
                let o = *old(self);
                let only_timer = (Mapper {
                    wait_time: final(self).wait_time,
                    timer_request: final(self).timer_request,
                    ..o
                });
                o.wait_time != u64::MAX && o.macro_running is Noop ==> {
                    &&& o.now < o.wait_time ==> *final(self) == only_timer
                    &&& o.now >= o.wait_time && o.now >= o.mouse.spec_next_event_time() ==> final(self).mouse_tick is Some
                        && final(self).dual_action == o.dual_action && final(self).reports == o.reports
                    &&& o.now >= o.wait_time && o.now < o.mouse.spec_next_event_time()
                        && o.dual_action.spec_wait_until() > o.now ==> *final(self) == only_timer
                }
            }),
    {
        if self.wait_time != u64::MAX {
            match self.macro_running {
                Macro::Noop => {
                    if self.now >= self.wait_time {
                        if self.now >= self.mouse.next_event_time() {
                            let now = self.now;
                            let tick = self.mouse.pending_events(now);
                            self.mouse_tick = Some(tick);
                        } else if self.dual_action.wait_until() <= self.now {
                            self.dual_action_expired(MAX_ACTION_DEPTH);
                        }
                    }
                    self.set_wait_time();
                },
                Macro::Sequence { mode, location, rem } => {
                    self.next_macro_seq(location, rem, mode, MAX_ACTION_DEPTH);
                },
                _ => {},
            }
        }
    }

    /// Replays the oldest postponed key event or action, once no dual-action decision is
    /// pending. Returns whether there was one to replay.
    pub fn run_memo(&mut self) -> (r: bool)
        requires
            old(self).wf(),
        ensures
            final(self).wf(),
            r == (!(old(self).dual_action is Wait) && old(self).memo_count != 0),
            !r ==> *final(self) == *old(self),
    {
        if self.dual_action.is_no_timer() && self.memo_count != 0 {
            self.memo_count = self.memo_count - 1;
            if let Some(memo) = self.layout.pop_memo() {
                if memo.len() == 2 {
                    self.run_action_at(memo[0], memo[1] != 0, MAX_ACTION_DEPTH);
                } else if memo.len() == 5 {
                    let k = TimedScanKey::from_memo(memo.as_slice());
                    self.key_switch_at(k, MAX_ACTION_DEPTH);
                }
            }
            true
        } else {
            false
        }
    }
}

} // verus!
