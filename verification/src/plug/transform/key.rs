//! Transforms of keys: into a key, into the reversed key, or into an axis
//! at one end of its range.

use vstd::prelude::*;
use crate::config::adapter::Mapper;
use crate::input::{AxisEvent, AxisId, AxisState, InputEvent, KeyEvent, KeyId, KeyState};
use super::{Error, ErrorView, Transform, TransformCreateContext, res_view, events_view, single};

verus! {

/// What a key of the device becomes.
#[derive(Clone, Copy, Debug, PartialEq, Eq, Structural)]
pub enum KeyTransform {
    IntoKey(IntoKey),
    IntoReversedKey(IntoReversedKey),
    IntoAxis(IntoAxis),
}

/// The key becomes the port's key, in the same state.
#[derive(Clone, Copy, Debug, PartialEq, Eq, Structural)]
pub struct IntoKey(pub KeyId);

/// The key becomes the port's key, pressed when it is released and
/// released when it is pressed.
#[derive(Clone, Copy, Debug, PartialEq, Eq, Structural)]
pub struct IntoReversedKey(pub KeyId);

/// The key moves the port's axis to `pressed` when pressed and to
/// `released` when released.
#[derive(Clone, Copy, Debug, PartialEq, Eq, Structural)]
pub struct IntoAxis {
    pub id: AxisId,
    pub pressed: isize,
    pub released: isize,
}

impl KeyTransform {
    /// The events that `event` becomes.
    pub open spec fn spec_apply(self, event: KeyEvent) -> Result<Seq<InputEvent>, ErrorView> {
        match self {
            KeyTransform::IntoKey(t) => Ok(
                seq![InputEvent::Key(KeyEvent { timestamp: event.timestamp, id: t.0, state: event.state })],
            ),
            KeyTransform::IntoReversedKey(t) => match event.state {
                KeyState::Pressed => Ok(
                    seq![InputEvent::Key(KeyEvent { timestamp: event.timestamp, id: t.0, state: KeyState::Released })],
                ),
                KeyState::Released => Ok(
                    seq![InputEvent::Key(KeyEvent { timestamp: event.timestamp, id: t.0, state: KeyState::Pressed })],
                ),
                KeyState::AutoRepeat => Err(ErrorView::UnsupportedAutoRepeatForReverseKey(t.0)),
            },
            KeyTransform::IntoAxis(t) => Ok(
                seq![InputEvent::Axis(AxisEvent {
                    timestamp: event.timestamp,
                    id: t.id,
                    state: AxisState(if event.state == KeyState::Released { t.released } else { t.pressed }),
                })],
            ),
        }
    }

    /// The input key and the transform that `mapper` describes, in `context`.
    pub open spec fn spec_create(context: TransformCreateContext, mapper: Mapper) -> Result<(KeyId, KeyTransform), ErrorView> {
        match mapper {
            Mapper::Key(input, output) => match context.spec_find_input_key(input@) {
                Err(e) => Err(e),
                Ok(i) => match context.spec_find_output_key(output@) {
                    Err(e) => Err(e),
                    Ok(o) => Ok((i, KeyTransform::IntoKey(IntoKey(o)))),
                },
            },
            Mapper::KeyReversed(input, output) => match context.spec_find_input_key(input@) {
                Err(e) => Err(e),
                Ok(i) => match context.spec_find_output_key(output@) {
                    Err(e) => Err(e),
                    Ok(o) => Ok((i, KeyTransform::IntoReversedKey(IntoReversedKey(o)))),
                },
            },
            Mapper::KeyToAxis(input, output) => match context.spec_find_input_key(input@) {
                Err(e) => Err(e),
                Ok(i) => match context.spec_find_output_axis(output@) {
                    Err(e) => Err(e),
                    Ok(a) => Ok((i, KeyTransform::IntoAxis(IntoAxis { id: a.id, released: a.min as isize, pressed: a.max as isize }))),
                },
            },
            _ => Err(ErrorView::InvalidTransformCreateCalled),
        }
    }

    /// The input key and transform of a key mapper; an error for a mapper of
    /// another kind or a name that is not found.
    pub fn create(context: &TransformCreateContext, mapper: &Mapper) -> (r: Result<(KeyId, KeyTransform), Error>)
        ensures
            res_view(r) == KeyTransform::spec_create(*context, *mapper),
    {
        match mapper {
            Mapper::Key(input, output) => IntoKey::create(context, input, output),
            Mapper::KeyReversed(input, output) => IntoReversedKey::create(context, input, output),
            Mapper::KeyToAxis(input, output) => IntoAxis::create(context, input, output),
            _ => Err(Error::InvalidTransformCreateCalled),
        }
    }
}

impl Transform<KeyEvent> for KeyTransform {
    open spec fn ready(&self, event: KeyEvent) -> bool {
        true
    }

    fn apply(&mut self, event: &KeyEvent) -> (r: Result<Vec<InputEvent>, Error>)
        ensures
            *final(self) == *old(self),
            events_view(r) == old(self).spec_apply(*event),
    {
        match self {
            KeyTransform::IntoKey(transform) => transform.apply(event),
            KeyTransform::IntoReversedKey(transform) => transform.apply(event),
            KeyTransform::IntoAxis(transform) => transform.apply(event),
        }
    }
}

impl IntoKey {
    /// The device's key `input` becomes the port's key `output`.
    pub fn create(context: &TransformCreateContext, input: &String, output: &String) -> (r: Result<(KeyId, KeyTransform), Error>)
        ensures
            res_view(r) == KeyTransform::spec_create(*context, Mapper::Key(*input, *output)),
    {
        let input_key = match context.find_input_key(input) {
            Ok(k) => k,
            Err(e) => return Err(e),
        };
        let output_key = match context.find_output_key(output) {
            Ok(k) => k,
            Err(e) => return Err(e),
        };
        Ok((input_key, KeyTransform::IntoKey(IntoKey(output_key))))
    }

    fn apply(&self, event: &KeyEvent) -> (r: Result<Vec<InputEvent>, Error>)
        ensures
            events_view(r) == KeyTransform::IntoKey(*self).spec_apply(*event),
    {
        single(InputEvent::Key(KeyEvent { timestamp: event.timestamp, id: self.0, state: event.state }))
    }
}

impl IntoReversedKey {
    /// The device's key `input` becomes the port's key `output`, reversed.
    pub fn create(context: &TransformCreateContext, input: &String, output: &String) -> (r: Result<(KeyId, KeyTransform), Error>)
        ensures
            res_view(r) == KeyTransform::spec_create(*context, Mapper::KeyReversed(*input, *output)),
    {
        let input_key = match context.find_input_key(input) {
            Ok(k) => k,
            Err(e) => return Err(e),
        };
        let output_key = match context.find_output_key(output) {
            Ok(k) => k,
            Err(e) => return Err(e),
        };
        Ok((input_key, KeyTransform::IntoReversedKey(IntoReversedKey(output_key))))
    }

    fn apply(&self, event: &KeyEvent) -> (r: Result<Vec<InputEvent>, Error>)
        ensures
            events_view(r) == KeyTransform::IntoReversedKey(*self).spec_apply(*event),
    {
        let state = match event.state {
            KeyState::Pressed => KeyState::Released,
            KeyState::Released => KeyState::Pressed,
            KeyState::AutoRepeat => return Err(Error::UnsupportedAutoRepeatForReverseKey(self.0)),
        };
        single(InputEvent::Key(KeyEvent { timestamp: event.timestamp, id: self.0, state }))
    }
}

impl IntoAxis {
    /// The device's key `input` moves the port's axis `output` between the
    /// ends of its range: its maximum when pressed, its minimum when released.
    pub fn create(context: &TransformCreateContext, input: &String, output: &String) -> (r: Result<(KeyId, KeyTransform), Error>)
        ensures
            res_view(r) == KeyTransform::spec_create(*context, Mapper::KeyToAxis(*input, *output)),
    {
        let input_key = match context.find_input_key(input) {
            Ok(k) => k,
            Err(e) => return Err(e),
        };
        let output_axis = match context.find_output_axis(output) {
            Ok(a) => a,
            Err(e) => return Err(e),
        };
        Ok((input_key, KeyTransform::IntoAxis(IntoAxis {
            id: output_axis.id,
            released: output_axis.min as isize,
            pressed: output_axis.max as isize,
        })))
    }

    fn apply(&self, event: &KeyEvent) -> (r: Result<Vec<InputEvent>, Error>)
        ensures
            events_view(r) == KeyTransform::IntoAxis(*self).spec_apply(*event),
    {
        let state = match event.state {
            KeyState::Pressed | KeyState::AutoRepeat => AxisState(self.pressed),
            KeyState::Released => AxisState(self.released),
        };
        single(InputEvent::Axis(AxisEvent { timestamp: event.timestamp, id: self.id, state }))
    }
}

/// A reversed key presses its port key when the device key is released and
/// releases it when the device key is pressed, so that two reversals give
/// the device key's state back; it refuses auto-repeat.
pub proof fn lemma_reversed_key_flips(t: IntoReversedKey, event: KeyEvent)
    ensures
        event.state == KeyState::AutoRepeat ==> KeyTransform::IntoReversedKey(t).spec_apply(event) is Err,
        event.state != KeyState::AutoRepeat ==> (KeyTransform::IntoReversedKey(t).spec_apply(event) matches Ok(events) && {
            &&& events.len() == 1
            &&& (events[0] matches InputEvent::Key(k) && {
                &&& k.id == t.0
                &&& k.timestamp == event.timestamp
                &&& k.state != event.state
                &&& k.state != KeyState::AutoRepeat
                &&& KeyTransform::IntoReversedKey(t).spec_apply(k) == Ok::<Seq<InputEvent>, ErrorView>(
                    seq![InputEvent::Key(KeyEvent { timestamp: event.timestamp, id: t.0, state: event.state })])
            })
        }),
{
}

/// A key that drives an axis holds the axis at its pressed value for as
/// long as the key is down, whether just pressed or repeating, and moves
/// it to its released value only when the key is released; each key event
/// gives exactly one event, on the transform's axis, at the event's time.
pub proof fn lemma_key_to_axis_held(t: IntoAxis, event: KeyEvent)
    ensures
        KeyTransform::IntoAxis(t).spec_apply(event) matches Ok(events) && events.len() == 1,
        event.state != KeyState::Released ==> KeyTransform::IntoAxis(t).spec_apply(event)
            == Ok::<Seq<InputEvent>, ErrorView>(seq![InputEvent::Axis(AxisEvent { timestamp: event.timestamp, id: t.id, state: AxisState(t.pressed) })]),
        event.state == KeyState::Released ==> KeyTransform::IntoAxis(t).spec_apply(event)
            == Ok::<Seq<InputEvent>, ErrorView>(seq![InputEvent::Axis(AxisEvent { timestamp: event.timestamp, id: t.id, state: AxisState(t.released) })]),
        KeyTransform::IntoAxis(t).spec_apply(KeyEvent { state: KeyState::AutoRepeat, ..event })
            == KeyTransform::IntoAxis(t).spec_apply(KeyEvent { state: KeyState::Pressed, ..event }),
{
}

/// A key mapped onto a port axis drives that axis between its ends: the
/// key held puts the axis at the port axis's maximum, the key released at
/// its minimum.
pub proof fn lemma_key_to_axis_ends(context: TransformCreateContext, input: String, output: String)
    ensures
        KeyTransform::spec_create(context, Mapper::KeyToAxis(input, output)) matches Ok((k, t)) ==> {
            let axis = context.spec_find_output_axis(output@)->Ok_0;
            &&& k == context.spec_find_input_key(input@)->Ok_0
            &&& t matches KeyTransform::IntoAxis(a) && {
                &&& a.id == axis.id
                &&& a.pressed == axis.max as isize
                &&& a.released == axis.min as isize
            }
        },
{
}

} // verus!
