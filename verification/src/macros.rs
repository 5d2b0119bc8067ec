//! Macros stored in a layout, and the frames that keep a running macro on the macro stack.
use vstd::prelude::*;
use crate::macro_types;

verus! {

/// An action code together with the modifiers that must be held while it runs.
#[derive(Debug, Clone, Copy, PartialEq, Eq, Structural)]
pub struct KeyPlusMod(pub u16, pub u8);

impl KeyPlusMod {
    pub fn new(code: u16, modifiers: u8) -> (r: Self)
        ensures
            r.0 == code,
            r.1 == modifiers,
    {
        Self(code, modifiers)
    }

    pub fn none() -> (r: Self)
        ensures
            r.0 == 0,
            r.1 == 0,
    {
        Self(0, 0)
    }

    pub fn modifiers(&self) -> (r: u8)
        ensures
            r == self.1,
    {
        self.1
    }

    pub fn code(&self) -> (r: u16)
        ensures
            r == self.0,
    {
        self.0
    }
}

#[derive(Debug, PartialEq, Eq, Copy, Clone, Structural)]
pub enum SequenceMode {
    Hold,
    Release,
    Tap,
}

impl SequenceMode {
    pub open spec fn spec_code(self) -> u16 {
        match self {
            SequenceMode::Hold => macro_types::HOLD,
            SequenceMode::Release => macro_types::RELEASE,
            SequenceMode::Tap => macro_types::TAP,
        }
    }

    /// The macro type tag of sequences run in this mode.
    pub fn code(&self) -> (r: u16)
        ensures
            r == self.spec_code(),
    {
        match self {
            SequenceMode::Hold => macro_types::HOLD,
            SequenceMode::Release => macro_types::RELEASE,
            SequenceMode::Tap => macro_types::TAP,
        }
    }
}

/// The sequence mode that a macro type tag stands for, if any.
pub open spec fn spec_sequence_mode(mode: u16) -> Option<SequenceMode> {
    if mode == macro_types::TAP {
        Some(SequenceMode::Tap)
    } else if mode == macro_types::HOLD {
        Some(SequenceMode::Hold)
    } else if mode == macro_types::RELEASE {
        Some(SequenceMode::Release)
    } else {
        None
    }
}

/// State of a running tap dance.
#[derive(Debug, PartialEq, Eq, Copy, Clone, Structural)]
pub struct TapDance {
    pub wait_until: u64,
    pub location: u32,
    pub tap_timeout: u16,
    pub rem: u16,
}

impl TapDance {
    pub fn default() -> (r: Self)
        ensures
            r.wait_until == u64::MAX,
            r.location == 0,
            r.tap_timeout == u16::MAX,
            r.rem == 0,
    {
        Self { wait_until: u64::MAX, location: 0, tap_timeout: u16::MAX, rem: 0 }
    }

    pub fn is_running(&self) -> (r: bool)
        ensures
            r == (self.location != 0),
    {
        self.location != 0
    }

    pub fn clear(&mut self)
        ensures
            final(self).location == 0,
            final(self).wait_until == u64::MAX,
            final(self).tap_timeout == old(self).tap_timeout,
            final(self).rem == old(self).rem,
    {
        self.location = 0;
        self.wait_until = u64::MAX;
    }

    pub fn start(&mut self, tap_timeout: u16, location: u32, rem: u16)
        ensures
            *final(self) == (TapDance { wait_until: u64::MAX, location, tap_timeout, rem }),
    {
        self.wait_until = u64::MAX;
        self.location = location;
        self.tap_timeout = tap_timeout;
        self.rem = rem;
    }

    /// Whether the tap dance ends where the sequence `location`, `len` ends.
    pub fn is_same(&self, location: u32, len: u16) -> (r: bool)
        ensures
            r == (self.location + self.rem == location + len),
    {
        self.location as u64 + self.rem as u64 == location as u64 + len as u64
    }
}

#[derive(Debug, PartialEq, Eq, Copy, Clone, Structural)]
pub enum Macro {
    Modifier(KeyPlusMod),
    DualAction(u16, u16, u16, u16),
    Noop,
    HoldRelease { hold: u16, release: u16 },
    Sequence { mode: SequenceMode, location: u32, rem: u16 },
    Delay(u16),
    TapDance(u32, u16),
}

/// The macro that the words `data`, stored at `location`, encode; `Noop` for words that
/// encode none.
pub open spec fn spec_decode(location: int, data: Seq<u16>) -> Macro {
    if data.len() == 0 {
        Macro::Noop
    } else {
        let tag = data[0] & 0xffu16;
        if tag == macro_types::MODIFIER {
            if data.len() >= 2 {
                Macro::Modifier(KeyPlusMod(data[1], (data[0] >> 8u16) as u8))
            } else {
                Macro::Noop
            }
        } else if tag == macro_types::DUAL_ACTION {
            if data.len() >= 3 {
                Macro::DualAction(
                    data[1],
                    data[2],
                    if data.len() > 3 { data[3] } else { u16::MAX },
                    if data.len() > 4 { data[4] } else { u16::MAX },
                )
            } else {
                Macro::Noop
            }
        } else if tag == macro_types::TAPDANCE {
            Macro::TapDance((location + 1) as u32, (data.len() - 1) as u16)
        } else if tag == macro_types::HOLD_RELEASE {
            if data.len() >= 3 {
                Macro::HoldRelease { hold: data[1], release: data[2] }
            } else {
                Macro::Noop
            }
        } else if tag == macro_types::DELAY {
            if data.len() >= 2 {
                Macro::Delay(data[1])
            } else {
                Macro::Noop
            }
        } else {
            match spec_sequence_mode(tag) {
                Some(mode) => Macro::Sequence {
                    mode,
                    location: (location + 1) as u32,
                    rem: (data.len() - 1) as u16,
                },
                None => Macro::Noop,
            }
        }
    }
}

/// The three words that keep a running sequence on the macro stack.
pub open spec fn spec_frame(mode: SequenceMode, location: u32, rem: u16) -> Seq<u16> {
    seq![
        (mode.spec_code() | (((location >> 16u32) & 0xffu32) as u16) << 8u16) as u16,
        (location & 0xffffu32) as u16,
        rem,
    ]
}

/// The running macro that a frame of the macro stack holds; `Noop` for no frame.
pub open spec fn spec_restore(data: Seq<u16>) -> Macro {
    if data.len() < 3 {
        Macro::Noop
    } else {
        match spec_sequence_mode(data[0] & 0xffu16) {
            Some(mode) => Macro::Sequence {
                mode,
                location: (data[1] as u32 | (((data[0] & 0xff00u16) as u32) << 16u32)) as u32,
                rem: data[2],
            },
            None => Macro::Noop,
        }
    }
}

impl Macro {
    /// Decodes the macro stored at `location`; `None` stands for a macro that is not there.
    pub fn decode(location: usize, data: Option<&[u16]>) -> (r: Macro)
        requires
            location < u32::MAX,
        ensures
            r == match data {
                Some(d) => spec_decode(location as int, d@),
                None => Macro::Noop,
            },
    {
        match data {
            Some(data) => {
                let len = data.len();
                if len == 0 {
                    return Macro::Noop;
                }
                let tag = data[0] & 0xff;
                if tag == macro_types::MODIFIER {
                    if len >= 2 {
                        Macro::Modifier(KeyPlusMod::new(data[1], (data[0] >> 8) as u8))
                    } else {
                        Macro::Noop
                    }
                } else if tag == macro_types::DUAL_ACTION {
                    if len >= 3 {
                        let t1 = if len > 3 { data[3] } else { u16::MAX };
                        let t2 = if len > 4 { data[4] } else { u16::MAX };
                        Macro::DualAction(data[1], data[2], t1, t2)
                    } else {
                        Macro::Noop
                    }
                } else if tag == macro_types::TAPDANCE {
                    Macro::TapDance(location as u32 + 1, (len - 1) as u16)
                } else if tag == macro_types::HOLD_RELEASE {
                    if len >= 3 {
                        Macro::HoldRelease { hold: data[1], release: data[2] }
                    } else {
                        Macro::Noop
                    }
                } else if tag == macro_types::DELAY {
                    if len >= 2 {
                        Macro::Delay(data[1])
                    } else {
                        Macro::Noop
                    }
                } else {
                    match Macro::sequence_mode(tag) {
                        Some(mode) => Macro::Sequence {
                            mode,
                            location: location as u32 + 1,
                            rem: (len - 1) as u16,
                        },
                        None => Macro::Noop,
                    }
                }
            },
            None => Macro::Noop,
        }
    }

    /// The number of words this macro takes on the macro stack.
    pub fn stack_size(&self) -> (r: usize)
        ensures
            r == (if self is Sequence { 3usize } else { 0usize }),
    {
        if let Macro::Sequence { .. } = self {
            3
        } else {
            0
        }
    }

    /// The frame that keeps this macro on the macro stack.
    pub fn frame(&self) -> (r: [u16; 3])
        requires
            self is Sequence,
        ensures
            r@ == spec_frame(self->mode, self->location, self->rem),
    {
        match self {
            Macro::Sequence { mode, location, rem } => {
                let l = *location;
                [
                    mode.code() | ((((l >> 16) & 0xff) as u16) << 8),
                    (l & 0xffff) as u16,
                    *rem,
                ]
            },
            _ => [0, 0, 0],
        }
    }

    /// Writes this macro's frame into the first three words of `store`, if it is a sequence.
    pub fn update(&self, store: &mut [u16])
        requires
            old(store)@.len() >= 3,
        ensures
            final(store)@.len() == old(store)@.len(),
            self is Sequence ==> final(store)@ == spec_frame(self->mode, self->location, self->rem)
                + old(store)@.subrange(3, old(store)@.len() as int),
            !(self is Sequence) ==> final(store)@ == old(store)@,
    {
        if let Macro::Sequence { .. } = self {
            let f = self.frame();
            store[0] = f[0];
            store[1] = f[1];
            store[2] = f[2];
            assert(store@ =~= f@ + old(store)@.subrange(3, old(store)@.len() as int));
        }
    }

    /// Pushes this macro's frame onto the end of `store`. Returns the macro and the number of
    /// words used.
    pub fn push(self, store: &mut [u16]) -> (r: (Self, usize))
        ensures
            r.0 == self,
            final(store)@.len() == old(store)@.len(),
            (self is Sequence && old(store)@.len() > 3) ==> r.1 == 3 && final(store)@
                == old(store)@.subrange(0, old(store)@.len() - 3) + spec_frame(
                self->mode,
                self->location,
                self->rem,
            ),
            !(self is Sequence && old(store)@.len() > 3) ==> r.1 == 0 && final(store)@ == old(
                store,
            )@,
    {
        let size = self.stack_size();
        let len = store.len();
        if size != 0 && len > size {
            let f = self.frame();
            store[len - 3] = f[0];
            store[len - 2] = f[1];
            store[len - 1] = f[2];
            assert(store@ =~= old(store)@.subrange(0, len - 3) + f@);
            return (self, size);
        }
        (self, 0)
    }

    /// Pops the top frame of the macro stack `data`: returns the macro of the frame beneath it
    /// and the number of words popped.
    pub fn pop(data: &[u16]) -> (r: (Self, usize))
        requires
            data@.len() >= 3,
        ensures
            r.0 == spec_restore(data@.subrange(3, data@.len() as int)),
            r.1 == 3,
    {
        (Self::restore(vstd::slice::slice_subrange(data, 3, data.len())), 3)
    }

    /// The running macro held by the frame at the start of `data`.
    pub fn restore(data: &[u16]) -> (r: Self)
        ensures
            r == spec_restore(data@),
    {
        if data.len() < 3 {
            return Macro::Noop;
        }
        match Self::sequence_mode(data[0] & 0xff) {
            Some(mode) => {
                let location = data[1] as u32 | (((data[0] & 0xff00) as u32) << 16);
                Macro::Sequence { mode, location, rem: data[2] }
            },
            None => Macro::Noop,
        }
    }

    pub fn sequence_mode(mode: u16) -> (r: Option<SequenceMode>)
        ensures
            r == spec_sequence_mode(mode),
    {
        if mode == macro_types::TAP {
            Some(SequenceMode::Tap)
        } else if mode == macro_types::HOLD {
            Some(SequenceMode::Hold)
        } else if mode == macro_types::RELEASE {
            Some(SequenceMode::Release)
        } else {
            None
        }
    }
}

/// A sequence whose location fits in 16 bits comes back unchanged from its stack frame.
pub proof fn lemma_frame_restore(mode: SequenceMode, location: u32, rem: u16)
    requires
        location < 0x10000,
    ensures
        spec_restore(spec_frame(mode, location, rem)) == (Macro::Sequence { mode, location, rem }),
{
    let f = spec_frame(mode, location, rem);
    let c = mode.spec_code();
    assert(c == 2 || c == 4 || c == 5);
    assert(location < 0x10000 ==> (location >> 16u32) & 0xffu32 == 0) by (bit_vector);
    assert((c == 2 || c == 4 || c == 5) ==> ((c | ((0u32 as u16) << 8u16)) as u16) & 0xffu16 == c
        && ((c | ((0u32 as u16) << 8u16)) as u16) & 0xff00u16 == 0) by (bit_vector);
    assert(location < 0x10000 ==> ((location & 0xffffu32) as u16) as u32 | (0u32 << 16u32)
        == location) by (bit_vector);
    match mode {
        SequenceMode::Hold => {},
        SequenceMode::Release => {},
        SequenceMode::Tap => {},
    }
}

} // verus!
