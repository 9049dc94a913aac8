//! Raw input-device records: the kernel's event type and code numbers,
//! the value, and the time, and how input events translate to and from
//! them.

use vstd::prelude::*;
use crate::input::{AxisEvent, AxisId, AxisState, InputEvent, KeyEvent, KeyId, KeyState, MotionEvent, MotionId, MotionState, SyncEvent, SyncKind, Timestamp};

verus! {

/// Event type of synchronisation events.
pub const EV_SYN: u32 = 0;
/// Event type of key events.
pub const EV_KEY: u32 = 1;
/// Event type of relative axis events.
pub const EV_REL: u32 = 2;
/// Event type of absolute axis events.
pub const EV_ABS: u32 = 3;

/// A record as read from, or written to, an input device node.
#[derive(Clone, Copy, Debug, PartialEq, Eq, Structural)]
pub struct RawEvent {
    pub seconds: i64,
    pub microseconds: i64,
    pub event_type: u32,
    pub code: u32,
    pub value: i32,
}

/// A record that cannot be read as an input event.
#[derive(Clone, Copy, Debug, PartialEq, Eq, Structural)]
pub enum Error {
    /// A key record whose value is not 0, 1 or 2.
    UnsupportedKeyState(i32),
}

/// The record of `event`: its time, type, code and value.
pub open spec fn encode(event: InputEvent) -> RawEvent {
    match event {
        InputEvent::Sync(e) => RawEvent {
            seconds: e.timestamp.seconds as i64,
            microseconds: e.timestamp.microseconds as i64,
            event_type: EV_SYN,
            code: e.kind.0 as u32,
            value: 0,
        },
        InputEvent::Key(e) => RawEvent {
            seconds: e.timestamp.seconds as i64,
            microseconds: e.timestamp.microseconds as i64,
            event_type: EV_KEY,
            code: e.id.0 as u32,
            value: e.state.spec_value(),
        },
        InputEvent::Axis(e) => RawEvent {
            seconds: e.timestamp.seconds as i64,
            microseconds: e.timestamp.microseconds as i64,
            event_type: EV_ABS,
            code: e.id.0 as u32,
            value: e.state.0 as i32,
        },
        InputEvent::Motion(e) => RawEvent {
            seconds: e.timestamp.seconds as i64,
            microseconds: e.timestamp.microseconds as i64,
            event_type: EV_REL,
            code: e.id.0 as u32,
            value: e.state.0 as i32,
        },
    }
}

/// The time of a record.
pub open spec fn spec_timestamp(event: RawEvent) -> Timestamp {
    Timestamp { seconds: event.seconds as usize, microseconds: event.microseconds as usize }
}

/// The key state of a kernel value, if it is one.
pub open spec fn key_state_of(value: i32) -> Option<KeyState> {
    if value == 0 {
        Some(KeyState::Released)
    } else if value == 1 {
        Some(KeyState::Pressed)
    } else if value == 2 {
        Some(KeyState::AutoRepeat)
    } else {
        None
    }
}

/// The input event of a record: `None` for a type the daemon does not
/// handle, an error for a key record with an unknown value.
pub open spec fn decode(event: RawEvent) -> Result<Option<InputEvent>, Error> {
    let timestamp = spec_timestamp(event);
    if event.event_type == EV_SYN {
        Ok(Some(InputEvent::Sync(SyncEvent { timestamp, kind: SyncKind(event.code as u16) })))
    } else if event.event_type == EV_KEY {
        match key_state_of(event.value) {
            Some(state) => Ok(Some(InputEvent::Key(KeyEvent { timestamp, id: KeyId(event.code as u16), state }))),
            None => Err(Error::UnsupportedKeyState(event.value)),
        }
    } else if event.event_type == EV_ABS {
        Ok(Some(InputEvent::Axis(AxisEvent { timestamp, id: AxisId(event.code as u16), state: AxisState(event.value as isize) })))
    } else if event.event_type == EV_REL {
        Ok(Some(InputEvent::Motion(MotionEvent { timestamp, id: MotionId(event.code as u16), state: MotionState(event.value as isize) })))
    } else {
        Ok(None)
    }
}

/// The record of `event`.
pub fn as_evdev_event(event: &InputEvent) -> (r: RawEvent)
    ensures
        r == encode(*event),
{
    match event {
        InputEvent::Sync(e) => RawEvent {
            seconds: e.timestamp.seconds as i64,
            microseconds: e.timestamp.microseconds as i64,
            event_type: EV_SYN,
            code: e.kind.0 as u32,
            value: 0,
        },
        InputEvent::Key(e) => RawEvent {
            seconds: e.timestamp.seconds as i64,
            microseconds: e.timestamp.microseconds as i64,
            event_type: EV_KEY,
            code: e.id.0 as u32,
            value: e.state.value(),
        },
        InputEvent::Axis(e) => RawEvent {
            seconds: e.timestamp.seconds as i64,
            microseconds: e.timestamp.microseconds as i64,
            event_type: EV_ABS,
            code: e.id.0 as u32,
            value: e.state.0 as i32,
        },
        InputEvent::Motion(e) => RawEvent {
            seconds: e.timestamp.seconds as i64,
            microseconds: e.timestamp.microseconds as i64,
            event_type: EV_REL,
            code: e.id.0 as u32,
            value: e.state.0 as i32,
        },
    }
}

/// The time of a record.
pub fn timestamp(event: &RawEvent) -> (r: Timestamp)
    ensures
        r == spec_timestamp(*event),
{
    Timestamp { seconds: event.seconds as usize, microseconds: event.microseconds as usize }
}

/// The synchronisation event of a record with code `code`.
pub fn sync_event(event: &RawEvent, code: u32) -> (r: SyncEvent)
    ensures
        r == (SyncEvent { timestamp: spec_timestamp(*event), kind: SyncKind(code as u16) }),
{
    SyncEvent { timestamp: timestamp(event), kind: SyncKind::from_raw(code as u16) }
}

/// The key event of a record with code `code`; an error if the record's
/// value is not a key state.
pub fn key_event(event: &RawEvent, code: u32) -> (r: Result<KeyEvent, Error>)
    ensures
        r == (match key_state_of(event.value) {
            Some(state) => Ok(KeyEvent { timestamp: spec_timestamp(*event), id: KeyId(code as u16), state }),
            None => Err(Error::UnsupportedKeyState(event.value)),
        }),
{
    let timestamp = timestamp(event);
    let id = KeyId::from_raw(code as u16);
    match KeyState::from_value(event.value) {
        Some(state) => Ok(KeyEvent { timestamp, id, state }),
        None => Err(Error::UnsupportedKeyState(event.value)),
    }
}

/// The absolute axis event of a record with code `code`.
pub fn axis_event(event: &RawEvent, code: u32) -> (r: AxisEvent)
    ensures
        r == (AxisEvent { timestamp: spec_timestamp(*event), id: AxisId(code as u16), state: AxisState(event.value as isize) }),
{
    AxisEvent { timestamp: timestamp(event), id: AxisId::from_raw(code as u16), state: AxisState(event.value as isize) }
}

/// The relative axis event of a record with code `code`.
pub fn motion_event(event: &RawEvent, code: u32) -> (r: MotionEvent)
    ensures
        r == (MotionEvent { timestamp: spec_timestamp(*event), id: MotionId(code as u16), state: MotionState(event.value as isize) }),
{
    MotionEvent { timestamp: timestamp(event), id: MotionId::from_raw(code as u16), state: MotionState(event.value as isize) }
}

/// Reads a record as an input event, by its type.
pub fn dispatch(event: &RawEvent) -> (r: Result<Option<InputEvent>, Error>)
    ensures
        r == decode(*event),
{
    if event.event_type == EV_SYN {
        Ok(Some(InputEvent::Sync(sync_event(event, event.code))))
    } else if event.event_type == EV_KEY {
        match key_event(event, event.code) {
            Ok(e) => Ok(Some(InputEvent::Key(e))),
            Err(err) => Err(err),
        }
    } else if event.event_type == EV_ABS {
        Ok(Some(InputEvent::Axis(axis_event(event, event.code))))
    } else if event.event_type == EV_REL {
        Ok(Some(InputEvent::Motion(motion_event(event, event.code))))
    } else {
        Ok(None)
    }
}

/// An event whose time and value fit a record is what its record decodes to.
pub proof fn lemma_decode_encode(event: InputEvent)
    requires
        event_fits(event),
    ensures
        decode(encode(event)) == Ok::<Option<InputEvent>, Error>(Some(event)),
{
    match event {
        InputEvent::Key(e) => {
            assert(key_state_of(e.state.spec_value()) == Some(e.state));
        },
        _ => {},
    }
}

/// The time of `event` fits a record's seconds and microseconds, and its
/// value fits a record's value.
pub open spec fn event_fits(event: InputEvent) -> bool {
    let t = match event {
        InputEvent::Sync(e) => e.timestamp,
        InputEvent::Key(e) => e.timestamp,
        InputEvent::Axis(e) => e.timestamp,
        InputEvent::Motion(e) => e.timestamp,
    };
    &&& t.seconds <= i64::MAX
    &&& t.microseconds <= i64::MAX
    &&& match event {
        InputEvent::Axis(e) => i32::MIN <= e.state.0 <= i32::MAX,
        InputEvent::Motion(e) => i32::MIN <= e.state.0 <= i32::MAX,
        _ => true,
    }
}

} // verus!
