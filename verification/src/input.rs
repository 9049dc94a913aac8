//! Input events as the daemon sees them, and the identifiers of the codes
//! that they carry.

use vstd::prelude::*;

verus! {

/// Highest key code (`KEY_MAX` of the kernel's input event codes).
pub const KEY_MAX: u16 = 0x2ff;
/// Highest absolute axis code (`ABS_MAX`).
pub const ABS_MAX: u16 = 0x3f;
/// Highest relative axis code (`REL_MAX`).
pub const REL_MAX: u16 = 0x0f;
/// Highest synchronisation code (`SYN_MAX`).
pub const SYN_MAX: u16 = 0x0f;

/// Code of a key or button.
#[derive(Clone, Copy, Debug, PartialEq, Eq, Structural, Hash)]
pub struct KeyId(pub u16);

/// Code of an absolute axis.
#[derive(Clone, Copy, Debug, PartialEq, Eq, Structural, Hash)]
pub struct AxisId(pub u16);

/// Code of a relative axis (a motion).
#[derive(Clone, Copy, Debug, PartialEq, Eq, Structural, Hash)]
pub struct MotionId(pub u16);

/// Code of a synchronisation event.
#[derive(Clone, Copy, Debug, PartialEq, Eq, Structural, Hash)]
pub struct SyncKind(pub u16);

impl KeyId {
    /// The highest key code.
    pub fn max() -> (r: KeyId)
        ensures
            r.0 == KEY_MAX,
    {
        KeyId(KEY_MAX)
    }

    /// The key with the given raw code.
    pub fn from_raw(raw: u16) -> (r: KeyId)
        ensures
            r.0 == raw,
    {
        KeyId(raw)
    }

    /// The raw code of the key.
    pub fn as_raw(&self) -> (r: u16)
        ensures
            r == self.0,
    {
        self.0
    }
}

impl AxisId {
    /// The highest absolute axis code.
    pub fn max() -> (r: AxisId)
        ensures
            r.0 == ABS_MAX,
    {
        AxisId(ABS_MAX)
    }

    /// The axis with the given raw code.
    pub fn from_raw(raw: u16) -> (r: AxisId)
        ensures
            r.0 == raw,
    {
        AxisId(raw)
    }

    /// The raw code of the axis.
    pub fn as_raw(&self) -> (r: u16)
        ensures
            r == self.0,
    {
        self.0
    }
}

impl MotionId {
    /// The highest relative axis code.
    pub fn max() -> (r: MotionId)
        ensures
            r.0 == REL_MAX,
    {
        MotionId(REL_MAX)
    }

    /// The motion with the given raw code.
    pub fn from_raw(raw: u16) -> (r: MotionId)
        ensures
            r.0 == raw,
    {
        MotionId(raw)
    }

    /// The raw code of the motion.
    pub fn as_raw(&self) -> (r: u16)
        ensures
            r == self.0,
    {
        self.0
    }
}

impl SyncKind {
    /// The highest synchronisation code.
    pub fn max() -> (r: SyncKind)
        ensures
            r.0 == SYN_MAX,
    {
        SyncKind(SYN_MAX)
    }

    /// The synchronisation kind with the given raw code.
    pub fn from_raw(raw: u16) -> (r: SyncKind)
        ensures
            r.0 == raw,
    {
        SyncKind(raw)
    }

    /// The raw code of the synchronisation kind.
    pub fn as_raw(&self) -> (r: u16)
        ensures
            r == self.0,
    {
        self.0
    }
}

/// Time at which an event happened.
#[derive(Clone, Copy, Debug, PartialEq, Eq, Structural)]
pub struct Timestamp {
    pub seconds: usize,
    pub microseconds: usize,
}

/// Any event read from, or written to, an input device.
#[derive(Clone, Copy, Debug, PartialEq, Eq, Structural)]
pub enum InputEvent {
    Sync(SyncEvent),
    Key(KeyEvent),
    Axis(AxisEvent),
    Motion(MotionEvent),
}

/// End of a batch of events.
#[derive(Clone, Copy, Debug, PartialEq, Eq, Structural)]
pub struct SyncEvent {
    pub timestamp: Timestamp,
    pub kind: SyncKind,
}

/// State of a key: the kernel's values 0, 1 and 2, in that order.
#[derive(Clone, Copy, Debug, PartialEq, Eq, Structural)]
pub enum KeyState {
    Released,
    Pressed,
    AutoRepeat,
}

impl KeyState {
    /// The kernel's numeric value of the state.
    pub open spec fn spec_value(self) -> i32 {
        match self {
            KeyState::Released => 0,
            KeyState::Pressed => 1,
            KeyState::AutoRepeat => 2,
        }
    }

    /// The kernel's numeric value of the state (0, 1 or 2).
    pub fn value(self) -> (r: i32)
        ensures
            r == self.spec_value(),
    {
        match self {
            KeyState::Released => 0,
            KeyState::Pressed => 1,
            KeyState::AutoRepeat => 2,
        }
    }

    /// The state of the given kernel value; `None` for a value other than
    /// 0, 1 or 2.
    pub fn from_value(value: i32) -> (r: Option<KeyState>)
        ensures
            match r {
                Some(s) => s.spec_value() == value,
                None => value != 0 && value != 1 && value != 2,
            },
    {
        if value == 0 {
            Some(KeyState::Released)
        } else if value == 1 {
            Some(KeyState::Pressed)
        } else if value == 2 {
            Some(KeyState::AutoRepeat)
        } else {
            None
        }
    }
}

/// A key changed state.
#[derive(Clone, Copy, Debug, PartialEq, Eq, Structural)]
pub struct KeyEvent {
    pub timestamp: Timestamp,
    pub id: KeyId,
    pub state: KeyState,
}

/// Position of an absolute axis.
#[derive(Clone, Copy, Debug, PartialEq, Eq, Structural)]
pub struct AxisState(pub isize);

/// What a physical device reports of one of its absolute axes.
#[derive(Clone, Copy, Debug, PartialEq, Eq, Structural)]
pub struct AxisInfo {
    pub value: i32,
    pub min: i32,
    pub max: i32,
    pub flat: i32,
}

/// An absolute axis moved.
#[derive(Clone, Copy, Debug, PartialEq, Eq, Structural)]
pub struct AxisEvent {
    pub timestamp: Timestamp,
    pub id: AxisId,
    pub state: AxisState,
}

/// Amount of a relative motion.
#[derive(Clone, Copy, Debug, PartialEq, Eq, Structural)]
pub struct MotionState(pub isize);

/// A relative axis moved.
#[derive(Clone, Copy, Debug, PartialEq, Eq, Structural)]
pub struct MotionEvent {
    pub timestamp: Timestamp,
    pub id: MotionId,
    pub state: MotionState,
}

} // verus!
