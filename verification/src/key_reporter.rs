//! Turns the mapper's key events into USB HID reports: a keyboard report of the modifiers
//! and a bit per key held down, and the consumer, system control and mouse reports.
use vstd::prelude::*;
use crate::bits::{add_key_bit, bit_set, del_key_bit, KEY_BITS_SIZE};
use crate::key_event::KeyEvent;
use crate::key_range::{MODIFIER_MAX, MODIFIER_MIN};

verus! {

/// The reports to write for one key event, in order, and how long to wait after them.
pub struct ReportPlan {
    pub reports: Vec<Vec<u8>>,
    pub delay_ms: u16,
}

/// The state of the keyboard report: the modifiers held, and a bit for each key held.
pub struct Reporter {
    pub modifiers: u8,
    pub keys: Vec<u8>,
}

/// Whether `key` is one of the modifier keys.
pub open spec fn is_modifier_key(key: u8) -> bool {
    MODIFIER_MIN <= key <= MODIFIER_MAX
}

/// The modifier bit of the modifier key `key`.
pub open spec fn modifier_key_bit(key: u8) -> u8 {
    (1u8 << ((key - 0xe0) as u8)) as u8
}

/// Whether `new` is `old` with the key `key` down when `is_down` and up otherwise, and every
/// other key and the modifiers as they were.
pub open spec fn key_moved(old: Reporter, new: Reporter, key: u8, is_down: bool) -> bool {
    &&& new.down(key) == is_down
    &&& new.modifiers == old.modifiers
    &&& forall|k: u8| k != key ==> #[trigger] new.down(k) == old.down(k)
}

/// A key pressed and then released leaves the keyboard report's keys and modifiers as they
/// were when it was up.
pub proof fn law_press_release(r0: Reporter, r1: Reporter, r2: Reporter, key: u8)
    requires
        !r0.down(key),
        key_moved(r0, r1, key, true),
        key_moved(r1, r2, key, false),
    ensures
        forall|k: u8| #[trigger] r2.down(k) == r0.down(k),
        r2.modifiers == r0.modifiers,
{
    assert forall|k: u8| #[trigger] r2.down(k) == r0.down(k) by {
        if k != key {
            assert(r1.down(k) == r0.down(k));
        }
    }
}

/// A modifier key pressed and then released leaves the modifiers as they were when it was up.
pub proof fn law_modifier_press_release(modifiers: u8, key: u8)
    requires
        is_modifier_key(key),
        modifiers & modifier_key_bit(key) == 0,
    ensures
        (modifiers | modifier_key_bit(key)) & !modifier_key_bit(key) == modifiers,
{
    let b = modifier_key_bit(key);
    assert((modifiers | b) & !b == modifiers) by (bit_vector)
        requires
            modifiers & b == 0,
    ;
}

impl Reporter {
    pub open spec fn wf(&self) -> bool {
        self.keys@.len() == KEY_BITS_SIZE
    }

    /// Whether the key report holds `key` down.
    pub open spec fn down(&self, key: u8) -> bool {
        bit_set(self.keys@, key)
    }

    /// The keyboard report: its report id, the modifiers and the key bits.
    pub open spec fn spec_bytes(&self) -> Seq<u8> {
        seq![6u8, self.modifiers] + self.keys@
    }

    /// A report with no key down.
    pub fn new() -> (r: Self)
        ensures
            r.wf(),
            r.modifiers == 0,
            forall|i: int| 0 <= i < KEY_BITS_SIZE ==> r.keys@[i] == 0,
    {
        let mut keys: Vec<u8> = Vec::new();
        let mut i: usize = 0;
        while i < KEY_BITS_SIZE
            invariant
                i <= KEY_BITS_SIZE,
                keys@.len() == i,
                forall|k: int| 0 <= k < i ==> keys@[k] == 0,
            decreases KEY_BITS_SIZE - i,
        {
            keys.push(0);
            i = i + 1;
        }
        Reporter { modifiers: 0, keys }
    }

    /// The keyboard report as bytes.
    pub fn keyboard_report(&self) -> (r: Vec<u8>)
        requires
            self.wf(),
        ensures
            r@ == self.spec_bytes(),
    {
        let mut out: Vec<u8> = Vec::new();
        out.push(6);
        out.push(self.modifiers);
        let mut i: usize = 0;
        while i < self.keys.len()
            invariant
                i <= self.keys@.len(),
                out@ == seq![6u8, self.modifiers] + self.keys@.subrange(0, i as int),
            decreases self.keys@.len() - i,
        {
            out.push(self.keys[i]);
            i = i + 1;
            assert(out@ =~= seq![6u8, self.modifiers] + self.keys@.subrange(0, i as int));
        }
        assert(self.keys@.subrange(0, self.keys@.len() as int) =~= self.keys@);
        out
    }

    /// Holds `key` down; returns whether it was not down before. Keys below 4 are no keys.
    pub fn add_key(&mut self, key: u8) -> (r: bool)
        requires
            old(self).wf(),
        ensures
            final(self).wf(),
            is_modifier_key(key) ==> r && final(self).modifiers == old(self).modifiers
                | modifier_key_bit(key) && final(self).keys == old(self).keys,
            !is_modifier_key(key) && key > 3 ==> r == !old(self).down(key) && final(self).down(key)
                && final(self).modifiers == old(self).modifiers && (forall|k: u8| k != key
                ==> final(self).down(k) == old(self).down(k)),
            !is_modifier_key(key) && key <= 3 ==> r && final(self).modifiers == old(self).modifiers
                && final(self).keys == old(self).keys,
    {
        if MODIFIER_MIN as u8 <= key && key <= MODIFIER_MAX as u8 {
            let bit: u8 = 1u8 << (key - 0xe0);
            self.modifiers = self.modifiers | bit;
            return true;
        }
        if key > 3 {
            add_key_bit(self.keys.as_mut_slice(), key)
        } else {
            true
        }
    }

    /// Lets `key` go.
    pub fn remove_key(&mut self, key: u8)
        requires
            old(self).wf(),
        ensures
            final(self).wf(),
            is_modifier_key(key) ==> final(self).modifiers == old(self).modifiers & !modifier_key_bit(
                key,
            ) && final(self).keys == old(self).keys,
            !is_modifier_key(key) && key > 3 ==> !final(self).down(key) && final(self).modifiers
                == old(self).modifiers && (forall|k: u8| k != key ==> final(self).down(k) == old(
                self,
            ).down(k)),
            !is_modifier_key(key) && key <= 3 ==> final(self).modifiers == old(self).modifiers
                && final(self).keys == old(self).keys,
    {
        if MODIFIER_MIN as u8 <= key && key <= MODIFIER_MAX as u8 {
            let bit: u8 = 1u8 << (key - 0xe0);
            self.modifiers = self.modifiers & !bit;
            return;
        }
        if key > 3 {
            del_key_bit(self.keys.as_mut_slice(), key);
        }
    }

    /// The reports for the key event `msg`, and the state they leave.
    pub fn report(&mut self, msg: KeyEvent) -> (r: ReportPlan)
        requires
            old(self).wf(),
            msg matches KeyEvent::MouseMove(axis, _, _) ==> axis < 4,
        ensures
            final(self).wf(),
            match msg {
                KeyEvent::Basic(key, is_down) => {
                    &&& r.delay_ms == 0
                    &&& r.reports@.len() >= 1
                    &&& r.reports@.last()@ == final(self).spec_bytes()
                    &&& (is_down && !is_modifier_key(key) && key > 3) ==> final(self).down(key)
                        && r.reports@.len() == (if old(self).down(key) { 2int } else { 1int })
                    &&& (is_down && !is_modifier_key(key) && key > 3 && old(self).down(key)) ==> {
                        let first = r.reports@[0]@;
                        &&& first.len() == 2 + KEY_BITS_SIZE
                        &&& first[0] == 6 && first[1] == old(self).modifiers
                        &&& !bit_set(first.skip(2), key)
                        &&& forall|k: u8| k != key ==> bit_set(first.skip(2), k) == old(self).down(k)
                    }
                    &&& (!is_down && !is_modifier_key(key) && key > 3) ==> !final(self).down(key)
                        && r.reports@.len() == 1
                    &&& !is_modifier_key(key) && key > 3 ==> key_moved(*old(self), *final(self), key, is_down)
                    &&& !is_modifier_key(key) && key > 3 ==> final(self).modifiers == old(
                        self,
                    ).modifiers && (forall|k: u8| k != key ==> final(self).down(k) == old(
                        self,
                    ).down(k))
                    &&& is_modifier_key(key) ==> final(self).keys == old(self).keys
                        && r.reports@.len() == 1 && final(self).modifiers == if is_down {
                        old(self).modifiers | modifier_key_bit(key)
                    } else {
                        old(self).modifiers & !modifier_key_bit(key)
                    }
                },
                KeyEvent::Modifiers(m, is_down) => {
                    &&& r.delay_ms == 0
                    &&& r.reports@.len() == 1
                    &&& r.reports@[0]@ == final(self).spec_bytes()
                    &&& final(self).keys == old(self).keys
                    &&& final(self).modifiers == if is_down {
                        old(self).modifiers | m
                    } else {
                        old(self).modifiers & !m
                    }
                },
                KeyEvent::PendingModifiers(m, is_down) => {
                    &&& r.delay_ms == 0
                    &&& r.reports@.len() == 0
                    &&& final(self).keys == old(self).keys
                    &&& final(self).modifiers == if is_down {
                        old(self).modifiers | m
                    } else {
                        old(self).modifiers & !m
                    }
                },
                KeyEvent::Consumer(key) => r.delay_ms == 0 && r.reports@.len() == 1 && r.reports@[0]@
                    == seq![4u8, (key & 0xff) as u8, (key >> 8u16) as u8] && *final(self) == *old(
                    self,
                ),
                KeyEvent::SysCtl(key) => r.delay_ms == 0 && r.reports@.len() == 1 && r.reports@[0]@
                    == seq![3u8, (key & 0xff) as u8, (key >> 8u16) as u8] && *final(self) == *old(
                    self,
                ),
                KeyEvent::MouseButton(b) => r.delay_ms == 0 && r.reports@.len() == 1
                    && r.reports@[0]@ == seq![2u8, b] && *final(self) == *old(self),
                KeyEvent::MouseMove(axis, value, keys) => r.delay_ms == 0 && r.reports@.len() == 1
                    && r.reports@[0]@ == seq![2u8, keys, 0, 0, 0, 0].update(2 + axis, value)
                    && *final(self) == *old(self),
                KeyEvent::Pending => r.delay_ms == 0 && r.reports@.len() == 1 && r.reports@[0]@
                    == old(self).spec_bytes() && *final(self) == *old(self),
                KeyEvent::Clear => {
                    &&& r.delay_ms == 0
                    &&& final(self).modifiers == 0
                    &&& forall|i: int| 0 <= i < KEY_BITS_SIZE ==> final(self).keys@[i] == 0
                    &&& r.reports@.len() == 4
                    &&& r.reports@[0]@ == seq![2u8, 0, 0, 0, 0, 0]
                    &&& r.reports@[1]@ == seq![3u8, 0, 0]
                    &&& r.reports@[2]@ == seq![4u8, 0, 0]
                    &&& r.reports@[3]@ == final(self).spec_bytes()
                },
                KeyEvent::Delay(n) => r.delay_ms == n && r.reports@.len() == 0 && *final(self)
                    == *old(self),
            },
    {
        let mut reports: Vec<Vec<u8>> = Vec::new();
        let mut delay_ms: u16 = 0;
        match msg {
            KeyEvent::Basic(key, is_down) => {
                if is_down {
                    if !self.add_key(key) {
                        self.remove_key(key);
                        let first = self.keyboard_report();
                        proof {
                            assert(first@.skip(2) =~= self.keys@);
                        }
                        reports.push(first);
                        self.add_key(key);
                    }
                } else {
                    self.remove_key(key);
                }
                reports.push(self.keyboard_report());
            },
            KeyEvent::Modifiers(m, is_down) => {
                self.modifiers = if is_down {
                    self.modifiers | m
                } else {
                    self.modifiers & !m
                };
                reports.push(self.keyboard_report());
            },
            KeyEvent::PendingModifiers(m, is_down) => {
                self.modifiers = if is_down {
                    self.modifiers | m
                } else {
                    self.modifiers & !m
                };
            },
            KeyEvent::Consumer(key) => {
                reports.push(vec![4, (key & 0xff) as u8, (key >> 8) as u8]);
            },
            KeyEvent::SysCtl(key) => {
                reports.push(vec![3, (key & 0xff) as u8, (key >> 8) as u8]);
            },
            KeyEvent::MouseButton(b) => {
                reports.push(vec![2, b]);
            },
            KeyEvent::MouseMove(axis, value, keys) => {
                let mut mouse_report = vec![2, keys, 0, 0, 0, 0];
                mouse_report.set(2 + axis as usize, value);
                reports.push(mouse_report);
            },
            KeyEvent::Pending => {
                reports.push(self.keyboard_report());
            },
            KeyEvent::Clear => {
                self.modifiers = 0;
                let mut i: usize = 0;
                while i < self.keys.len()
                    invariant
                        i <= self.keys@.len(),
                        self.keys@.len() == KEY_BITS_SIZE,
                        self.modifiers == 0,
                        forall|k: int| 0 <= k < i ==> self.keys@[k] == 0,
                    decreases self.keys@.len() - i,
                {
                    self.keys.set(i, 0);
                    i = i + 1;
                }
                reports.push(vec![2, 0, 0, 0, 0, 0]);
                reports.push(vec![3, 0, 0]);
                reports.push(vec![4, 0, 0]);
                reports.push(self.keyboard_report());
            },
            KeyEvent::Delay(n) => {
                delay_ms = n;
            },
        }
        ReportPlan { reports, delay_ms }
    }
}

} // verus!
