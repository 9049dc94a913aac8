//! Transforms of absolute axes: into the port's axis, rescaled to its
//! range, or into a pair of keys pressed near either end.

use vstd::prelude::*;
use crate::config::adapter::Mapper;
use crate::input::{AxisEvent, AxisId, AxisInfo, AxisState, InputEvent, KeyEvent, KeyId, KeyState, Timestamp};
use super::{Error, ErrorView, Transform, TransformCreateContext, events_view, single, tdiv, fits, div};

verus! {

/// What an absolute axis of the device becomes.
pub enum AxisTransform {
    IntoAxis(IntoAxis),
    IntoKeys(IntoKeys),
}

/// The axis moves the port's axis `id`, its range `from_min ..
/// from_min + from_range` rescaled onto `to_min .. to_min + to_range`,
/// negated when `reverse`.
#[derive(Clone, Copy, Debug, PartialEq, Eq, Structural)]
pub struct IntoAxis {
    pub id: AxisId,
    pub reverse: bool,
    pub from_min: isize,
    pub from_range: isize,
    pub to_min: isize,
    pub to_range: isize,
}

/// The axis presses and releases port keys, each pressed while the axis
/// lies within its bounds.
pub struct IntoKeys(pub Vec<IntoKey>);

/// A port key pressed while the axis lies in `lower ..= upper`, with the
/// state it was last given.
#[derive(Clone, Copy, Debug, PartialEq, Eq, Structural)]
pub struct IntoKey {
    pub lower: isize,
    pub upper: isize,
    pub id: KeyId,
    pub state: KeyState,
}

/// Model of an `AxisTransform`.
pub enum AxisTransformView {
    IntoAxis(IntoAxis),
    IntoKeys(Seq<IntoKey>),
}

impl View for AxisTransform {
    type V = AxisTransformView;

    open spec fn view(&self) -> AxisTransformView {
        match self {
            AxisTransform::IntoAxis(t) => AxisTransformView::IntoAxis(*t),
            AxisTransform::IntoKeys(t) => AxisTransformView::IntoKeys(t.0@),
        }
    }
}

/// A created axis transform, taken by its model.
pub open spec fn created_view(r: Result<(AxisId, AxisTransform), Error>) -> Result<(AxisId, AxisTransformView), ErrorView> {
    match r {
        Ok((a, t)) => Ok((a, t@)),
        Err(e) => Err(e@),
    }
}

impl IntoAxis {
    /// The position `state` rescaled onto the port's range, before reversal.
    pub open spec fn scaled(self, state: int) -> int {
        tdiv((state - self.from_min) * self.to_range, self.from_range as int) + self.to_min
    }

    /// The port's position for the device's position `state`.
    pub open spec fn value(self, state: int) -> int {
        if self.reverse { -self.scaled(state) } else { self.scaled(state) }
    }

    /// Each step of the computation of `value(state)` stays within `isize`
    /// and divides by a non-zero range.
    pub open spec fn spec_ready(self, state: int) -> bool {
        &&& self.from_range != 0
        &&& fits(state - self.from_min)
        &&& fits((state - self.from_min) * self.to_range)
        &&& fits(tdiv((state - self.from_min) * self.to_range, self.from_range as int))
        &&& fits(self.scaled(state))
        &&& fits(self.value(state))
    }

    /// Whether `spec_ready(state)` holds.
    pub fn is_ready(&self, state: isize) -> (r: bool)
        ensures
            r == self.spec_ready(state as int),
    {
        if self.from_range == 0 {
            return false;
        }
        let d = match state.checked_sub(self.from_min) {
            Some(d) => d,
            None => return false,
        };
        let p = match d.checked_mul(self.to_range) {
            Some(p) => p,
            None => return false,
        };
        let q = match p.checked_div(self.from_range) {
            Some(q) => q,
            None => return false,
        };
        let s = match q.checked_add(self.to_min) {
            Some(s) => s,
            None => return false,
        };
        if self.reverse {
            s != isize::MIN
        } else {
            true
        }
    }

    /// The port's axis for a device axis with range `info` and a port axis
    /// `output`.
    pub open spec fn spec_new(info: AxisInfo, output: crate::config::port::Axis, reverse: bool) -> IntoAxis {
        IntoAxis {
            id: output.id,
            reverse,
            from_min: info.min as isize,
            from_range: (info.max as isize).wrapping_sub(info.min as isize),
            to_min: output.min as isize,
            to_range: (output.max as isize).wrapping_sub(output.min as isize),
        }
    }

    /// The device's axis `input` moves the port's axis `output`, rescaled,
    /// and negated when `reverse`.
    pub fn create(context: &TransformCreateContext, reverse: bool, input: &String, output: &String) -> (r: Result<(AxisId, AxisTransform), Error>)
        ensures
            created_view(r) == AxisTransform::spec_create(
                *context,
                if reverse { Mapper::AxisReversed(*input, *output) } else { Mapper::Axis(*input, *output) },
            ),
    {
        let input_axis = match context.find_input_axis(input) {
            Ok(a) => a,
            Err(e) => return Err(e),
        };
        let input_axisinfo = match context.find_input_axisinfo(input_axis) {
            Ok(i) => i,
            Err(e) => return Err(e),
        };
        let output_axis = match context.find_output_axis(output) {
            Ok(a) => a,
            Err(e) => return Err(e),
        };
        let from_min = input_axisinfo.min as isize;
        let from_max = input_axisinfo.max as isize;
        let to_min = output_axis.min as isize;
        let to_max = output_axis.max as isize;
        let from_range = from_max.wrapping_sub(from_min);
        let to_range = to_max.wrapping_sub(to_min);
        let into_axis = IntoAxis { id: output_axis.id, reverse, from_min, from_range, to_min, to_range };
        Ok((input_axis, AxisTransform::IntoAxis(into_axis)))
    }

    fn apply(&mut self, event: &AxisEvent) -> (r: Result<Vec<InputEvent>, Error>)
        requires
            old(self).spec_ready(event.state.0 as int),
        ensures
            *final(self) == *old(self),
            events_view(r) == Ok::<Seq<InputEvent>, ErrorView>(
                seq![InputEvent::Axis(AxisEvent {
                    timestamp: event.timestamp,
                    id: old(self).id,
                    state: AxisState(old(self).value(event.state.0 as int) as isize),
                })],
            ),
    {
        let id = self.id;
        let d = event.state.0 - self.from_min;
        let p = d * self.to_range;
        let state = div(p, self.from_range) + self.to_min;
        let state = if self.reverse { -state } else { state };
        let state = AxisState(state);
        single(InputEvent::Axis(AxisEvent { timestamp: event.timestamp, id, state }))
    }
}

/// State of a key of an `IntoKeys` for the axis position `state`.
pub open spec fn target(key: IntoKey, state: int) -> KeyState {
    if key.lower <= state && state <= key.upper { KeyState::Pressed } else { KeyState::Released }
}

/// The keys after the axis moved to `state`, and the key events of those
/// whose state changed, in order.
pub open spec fn keys_step(keys: Seq<IntoKey>, timestamp: Timestamp, state: int) -> (Seq<IntoKey>, Seq<InputEvent>)
    decreases keys.len(),
{
    if keys.len() == 0 {
        (Seq::empty(), Seq::empty())
    } else {
        let prev = keys_step(keys.drop_last(), timestamp, state);
        let key = keys.last();
        let s = target(key, state);
        (
            prev.0.push(IntoKey { state: s, ..key }),
            if key.state != s {
                prev.1.push(InputEvent::Key(KeyEvent { timestamp, id: key.id, state: s }))
            } else {
                prev.1
            },
        )
    }
}

/// Keys for the bounds `keys`, all released.
pub open spec fn released_keys(keys: Seq<(isize, isize, KeyId)>) -> Seq<IntoKey> {
    keys.map_values(|k: (isize, isize, KeyId)| IntoKey { lower: k.0, upper: k.1, id: k.2, state: KeyState::Released })
}

/// Half the range of an axis, rounded toward zero (the difference wrapping
/// around as `isize` does).
pub open spec fn halfrange(info: AxisInfo) -> isize {
    tdiv((info.max as isize).wrapping_sub(info.min as isize) as int, 2) as isize
}

/// Middle of the range of an axis, rounded toward zero (the sum wrapping
/// around as `isize` does).
pub open spec fn midpoint(info: AxisInfo) -> isize {
    tdiv((info.max as isize).wrapping_add(info.min as isize) as int, 2) as isize
}

/// Distance from the middle of the range at which an `AxisToKeys` key
/// presses: `threshold` percent of half the range (the product wrapping
/// around as `isize` does).
pub open spec fn reach(info: AxisInfo, threshold: isize) -> isize {
    tdiv(halfrange(info).wrapping_mul(threshold) as int, 100) as isize
}

impl IntoKeys {
    /// Keys for the bounds `keys`, all released.
    pub fn new(keys: &[(isize, isize, KeyId)]) -> (r: Self)
        ensures
            r.0@ == released_keys(keys@),
    {
        let mut v: Vec<IntoKey> = Vec::new();
        let mut i: usize = 0;
        while i < keys.len()
            invariant
                i <= keys.len(),
                v@ == released_keys(keys@.take(i as int)),
            decreases keys.len() - i,
        {
            let (lower, upper, id) = keys[i];
            v.push(IntoKey { lower, upper, id, state: KeyState::Released });
            assert(released_keys(keys@.take(i + 1)) =~= released_keys(keys@.take(i as int)).push(
                IntoKey { lower, upper, id, state: KeyState::Released },
            ));
            i = i + 1;
        }
        assert(keys@.take(keys.len() as int) =~= keys@);
        IntoKeys(v)
    }

    /// The device's axis `input` presses the port's key `output_min` while
    /// it lies between its minimum and `threshold` percent of the half range
    /// below the middle, and `output_max` symmetrically at the top.
    pub fn create(context: &TransformCreateContext, input: &String, output_min: &String, output_max: &String, threshold: isize) -> (r: Result<(AxisId, AxisTransform), Error>)
        ensures
            created_view(r) == AxisTransform::spec_create(
                *context,
                Mapper::AxisToKeys(*input, *output_min, *output_max, threshold),
            ),
    {
        let input_axis = match context.find_input_axis(input) {
            Ok(a) => a,
            Err(e) => return Err(e),
        };
        let input_axisinfo = match context.find_input_axisinfo(input_axis) {
            Ok(i) => i,
            Err(e) => return Err(e),
        };
        let output_min_key = match context.find_output_key(output_min) {
            Ok(k) => k,
            Err(e) => return Err(e),
        };
        let output_max_key = match context.find_output_key(output_max) {
            Ok(k) => k,
            Err(e) => return Err(e),
        };
        let input_min = input_axisinfo.min as isize;
        let input_max = input_axisinfo.max as isize;
        let input_halfrange = div(input_max.wrapping_sub(input_min), 2);
        let input_midpoint = div(input_max.wrapping_add(input_min), 2);
        let product = input_halfrange.wrapping_mul(threshold);
        let offset = div(product, 100);
        let input_min_threshold = input_midpoint.wrapping_sub(offset);
        let input_max_threshold = input_midpoint.wrapping_add(offset);
        let bounds = [
            (input_min, input_min_threshold, output_min_key),
            (input_max_threshold, input_max, output_max_key),
        ];
        let into_keys = Self::new(&bounds);
        Ok((input_axis, AxisTransform::IntoKeys(into_keys)))
    }

    /// The device's axis `input`, a hat, presses the port's key `output_min`
    /// while negative and `output_max` while positive.
    pub fn create_hat(context: &TransformCreateContext, input: &String, output_min: &String, output_max: &String) -> (r: Result<(AxisId, AxisTransform), Error>)
        ensures
            created_view(r) == AxisTransform::spec_create(
                *context,
                Mapper::HatToKeys(*input, *output_min, *output_max),
            ),
    {
        let input_axis = match context.find_input_axis(input) {
            Ok(a) => a,
            Err(e) => return Err(e),
        };
        let input_axisinfo = match context.find_input_axisinfo(input_axis) {
            Ok(i) => i,
            Err(e) => return Err(e),
        };
        let output_min_key = match context.find_output_key(output_min) {
            Ok(k) => k,
            Err(e) => return Err(e),
        };
        let output_max_key = match context.find_output_key(output_max) {
            Ok(k) => k,
            Err(e) => return Err(e),
        };
        let bounds = [
            (input_axisinfo.min as isize, -1, output_min_key),
            (1, input_axisinfo.max as isize, output_max_key),
        ];
        let into_keys = Self::new(&bounds);
        Ok((input_axis, AxisTransform::IntoKeys(into_keys)))
    }

    fn apply(&mut self, event: &AxisEvent) -> (r: Result<Vec<InputEvent>, Error>)
        ensures
            final(self).0@ == keys_step(old(self).0@, event.timestamp, event.state.0 as int).0,
            events_view(r) == Ok::<Seq<InputEvent>, ErrorView>(keys_step(old(self).0@, event.timestamp, event.state.0 as int).1),
    {
        let timestamp = event.timestamp;
        let axis_state = event.state.0;
        let ghost old_keys = self.0@;
        let mut events: Vec<InputEvent> = Vec::new();
        let mut i: usize = 0;
        assert(old_keys.take(0) =~= Seq::<IntoKey>::empty());
        assert(old_keys.skip(0) =~= old_keys);
        while i < self.0.len()
            invariant
                i <= self.0.len(),
                self.0@.len() == old_keys.len(),
                self.0@ == keys_step(old_keys.take(i as int), timestamp, axis_state as int).0 + old_keys.skip(i as int),
                events@ == keys_step(old_keys.take(i as int), timestamp, axis_state as int).1,
            decreases self.0.len() - i,
        {
            proof {
                let pre = keys_step(old_keys.take(i as int), timestamp, axis_state as int);
                assert(old_keys.take(i + 1).drop_last() =~= old_keys.take(i as int));
                assert(pre.0.len() == i) by {
                    lemma_keys_step_len(old_keys.take(i as int), timestamp, axis_state as int);
                }
                assert(self.0@[i as int] == old_keys[i as int]);
            }
            let key = self.0[i];
            let id = key.id;
            let state = if axis_state >= key.lower && axis_state <= key.upper {
                KeyState::Pressed
            } else {
                KeyState::Released
            };
            if key.state != state {
                self.0.set(i, IntoKey { state, ..key });
                events.push(InputEvent::Key(KeyEvent { timestamp, id, state }));
            }
            proof {
                let pre = keys_step(old_keys.take(i as int), timestamp, axis_state as int);
                let post = keys_step(old_keys.take(i + 1), timestamp, axis_state as int);
                assert(post.0 =~= pre.0.push(IntoKey { state, ..key }));
                assert(self.0@ =~= post.0 + old_keys.skip(i + 1));
            }
            i = i + 1;
        }
        assert(old_keys.take(old_keys.len() as int) =~= old_keys);
        assert(self.0@ =~= keys_step(old_keys, timestamp, axis_state as int).0);
        Ok(events)
    }
}

/// `keys_step` keeps the number of keys.
pub proof fn lemma_keys_step_len(keys: Seq<IntoKey>, timestamp: Timestamp, state: int)
    ensures
        keys_step(keys, timestamp, state).0.len() == keys.len(),
    decreases keys.len(),
{
    if keys.len() > 0 {
        lemma_keys_step_len(keys.drop_last(), timestamp, state);
    }
}

impl AxisTransformView {
    /// The transform after the axis event `event`, and the events it becomes.
    pub open spec fn step(self, event: AxisEvent) -> (AxisTransformView, Seq<InputEvent>) {
        match self {
            AxisTransformView::IntoAxis(t) => (
                self,
                seq![InputEvent::Axis(AxisEvent {
                    timestamp: event.timestamp,
                    id: t.id,
                    state: AxisState(t.value(event.state.0 as int) as isize),
                })],
            ),
            AxisTransformView::IntoKeys(keys) => {
                let s = keys_step(keys, event.timestamp, event.state.0 as int);
                (AxisTransformView::IntoKeys(s.0), s.1)
            },
        }
    }

    /// The transform can take `event` without overflow.
    pub open spec fn ready(self, event: AxisEvent) -> bool {
        match self {
            AxisTransformView::IntoAxis(t) => t.spec_ready(event.state.0 as int),
            AxisTransformView::IntoKeys(_) => true,
        }
    }
}

impl AxisTransform {
    /// The input axis and the transform that `mapper` describes.
    pub open spec fn spec_create(context: TransformCreateContext, mapper: Mapper) -> Result<(AxisId, AxisTransformView), ErrorView> {
        match mapper {
            Mapper::Axis(input, output) => AxisTransform::spec_create_into_axis(context, false, input@, output@),
            Mapper::AxisReversed(input, output) => AxisTransform::spec_create_into_axis(context, true, input@, output@),
            Mapper::AxisToKeys(input, output_min, output_max, threshold) => match context.spec_find_input_axis(input@) {
                Err(e) => Err(e),
                Ok(a) => match context.spec_find_input_axisinfo(a) {
                    Err(e) => Err(e),
                    Ok(info) => match context.spec_find_output_key(output_min@) {
                        Err(e) => Err(e),
                        Ok(kmin) => match context.spec_find_output_key(output_max@) {
                            Err(e) => Err(e),
                            Ok(kmax) => Ok((a, AxisTransformView::IntoKeys(released_keys(seq![
                                (info.min as isize, midpoint(info).wrapping_sub(reach(info, threshold)), kmin),
                                (midpoint(info).wrapping_add(reach(info, threshold)), info.max as isize, kmax),
                            ])))),
                        },
                    },
                },
            },
            Mapper::HatToKeys(input, output_min, output_max) => match context.spec_find_input_axis(input@) {
                Err(e) => Err(e),
                Ok(a) => match context.spec_find_input_axisinfo(a) {
                    Err(e) => Err(e),
                    Ok(info) => match context.spec_find_output_key(output_min@) {
                        Err(e) => Err(e),
                        Ok(kmin) => match context.spec_find_output_key(output_max@) {
                            Err(e) => Err(e),
                            Ok(kmax) => Ok((a, AxisTransformView::IntoKeys(released_keys(seq![
                                (info.min as isize, -1isize, kmin),
                                (1isize, info.max as isize, kmax),
                            ])))),
                        },
                    },
                },
            },
            _ => Err(ErrorView::InvalidTransformCreateCalled),
        }
    }

    /// The axis-to-axis transform between the named axes.
    pub open spec fn spec_create_into_axis(context: TransformCreateContext, reverse: bool, input: Seq<char>, output: Seq<char>) -> Result<(AxisId, AxisTransformView), ErrorView> {
        match context.spec_find_input_axis(input) {
            Err(e) => Err(e),
            Ok(a) => match context.spec_find_input_axisinfo(a) {
                Err(e) => Err(e),
                Ok(info) => match context.spec_find_output_axis(output) {
                    Err(e) => Err(e),
                    Ok(o) => Ok((a, AxisTransformView::IntoAxis(IntoAxis::spec_new(info, o, reverse)))),
                },
            },
        }
    }

    /// The input axis and transform of an axis mapper; an error for a mapper
    /// of another kind or a name that is not found.
    pub fn create(context: &TransformCreateContext, mapper: &Mapper) -> (r: Result<(AxisId, AxisTransform), Error>)
        ensures
            created_view(r) == AxisTransform::spec_create(*context, *mapper),
    {
        match mapper {
            Mapper::Axis(input, output) => IntoAxis::create(context, false, input, output),
            Mapper::AxisReversed(input, output) => IntoAxis::create(context, true, input, output),
            Mapper::AxisToKeys(input, output_min, output_max, threshold) => IntoKeys::create(context, input, output_min, output_max, *threshold),
            Mapper::HatToKeys(input, output_min, output_max) => IntoKeys::create_hat(context, input, output_min, output_max),
            _ => Err(Error::InvalidTransformCreateCalled),
        }
    }

    /// Whether the transform can take `event` without overflow.
    pub fn is_ready(&self, event: &AxisEvent) -> (r: bool)
        ensures
            r == self@.ready(*event),
    {
        match self {
            AxisTransform::IntoAxis(t) => t.is_ready(event.state.0),
            AxisTransform::IntoKeys(_) => true,
        }
    }
}

impl Transform<AxisEvent> for AxisTransform {
    open spec fn ready(&self, event: AxisEvent) -> bool {
        self@.ready(event)
    }

    fn apply(&mut self, event: &AxisEvent) -> (r: Result<Vec<InputEvent>, Error>)
        ensures
            final(self)@ == old(self)@.step(*event).0,
            events_view(r) == Ok::<Seq<InputEvent>, ErrorView>(old(self)@.step(*event).1),
    {
        match self {
            AxisTransform::IntoAxis(into_axis) => into_axis.apply(event),
            AxisTransform::IntoKeys(into_keys) => into_keys.apply(event),
        }
    }
}

/// Moving the axis to the position it already has changes no key and
/// gives no event.
pub proof fn lemma_keys_step_settled(keys: Seq<IntoKey>, t1: Timestamp, t2: Timestamp, state: int)
    ensures
        keys_step(keys_step(keys, t1, state).0, t2, state).0 == keys_step(keys, t1, state).0,
        keys_step(keys_step(keys, t1, state).0, t2, state).1.len() == 0,
    decreases keys.len(),
{
    if keys.len() > 0 {
        let first = keys_step(keys, t1, state).0;
        lemma_keys_step_len(keys, t1, state);
        assert(first.drop_last() == keys_step(keys.drop_last(), t1, state).0);
        lemma_keys_step_settled(keys.drop_last(), t1, t2, state);
    }
}

/// A non-reversed axis maps the ends of the device's range onto the ends of
/// the port's range; a reversed one onto their opposites.
pub proof fn lemma_into_axis_ends(info: AxisInfo, output: crate::config::port::Axis, reverse: bool)
    requires
        info.min < info.max,
        isize::MIN <= info.max as int - info.min as int <= isize::MAX,
        isize::MIN <= output.max as int - output.min as int <= isize::MAX,
    ensures
        IntoAxis::spec_new(info, output, reverse).value(info.min as int) == if reverse { -(output.min as int) } else { output.min as int },
        IntoAxis::spec_new(info, output, reverse).value(info.max as int) == if reverse { -(output.max as int) } else { output.max as int },
{
    let t = IntoAxis::spec_new(info, output, reverse);
    let d = info.max as int - info.min as int;
    let r = output.max as int - output.min as int;
    assert(t.from_range as int == d);
    assert(t.to_range as int == r);
    assert(tdiv(0 * r, d) == 0);
    lemma_tdiv_exact(d, r);
}

/// Dividing `d * r` by `d` gives `r`, truncated or not.
proof fn lemma_tdiv_exact(d: int, r: int)
    requires
        d > 0,
    ensures
        tdiv(d * r, d) == r,
{
    if r > 0 {
        assert(d * r > 0) by (nonlinear_arith) requires d > 0, r > 0;
        assert((d * r) / d == r) by (nonlinear_arith) requires d > 0;
    } else if r < 0 {
        assert(d * r < 0) by (nonlinear_arith) requires d > 0, r < 0;
        assert(((d * r) * -1) / d == -r) by (nonlinear_arith) requires d > 0;
    } else {
        assert(d * r == 0) by (nonlinear_arith) requires r == 0;
    }
}

/// The events of the keys of an axis are key events.
pub proof fn lemma_keys_step_keys(keys: Seq<IntoKey>, timestamp: Timestamp, state: int)
    ensures
        forall|i: int| 0 <= i < keys_step(keys, timestamp, state).1.len() ==> (#[trigger] keys_step(keys, timestamp, state).1[i]) is Key,
    decreases keys.len(),
{
    if keys.len() > 0 {
        lemma_keys_step_keys(keys.drop_last(), timestamp, state);
        let prev = keys_step(keys.drop_last(), timestamp, state).1;
        let cur = keys_step(keys, timestamp, state).1;
        assert forall|i: int| 0 <= i < cur.len() implies (#[trigger] cur[i]) is Key by {
            if i < prev.len() {
                assert(cur[i] == prev[i]);
            }
        }
    }
}

/// Whether `x` is a value of `isize`.
pub open spec fn in_isize(x: int) -> bool {
    isize::MIN <= x <= isize::MAX
}

/// A hat drives its keys so that the hat at rest, at 0, presses neither:
/// the bounds of no key of a created hat transform hold 0, so that after
/// the hat moves to 0 every key is released.
pub proof fn lemma_hat_centre_presses_nothing(context: TransformCreateContext, input: String, output_min: String, output_max: String, timestamp: Timestamp)
    ensures
        AxisTransform::spec_create(context, Mapper::HatToKeys(input, output_min, output_max)) matches Ok((_, t)) ==> {
            &&& t matches AxisTransformView::IntoKeys(keys) && {
                &&& keys.len() == 2
                &&& forall|j: int| 0 <= j < keys.len() ==> !((#[trigger] keys[j]).lower <= 0 && 0 <= keys[j].upper)
                &&& forall|j: int| 0 <= j < keys.len() ==> (#[trigger] keys_step(keys, timestamp, 0).0[j]).state == KeyState::Released
                &&& keys_step(keys, timestamp, 0).1.len() == 0
                &&& keys[0].id == context.spec_find_output_key(output_min@)->Ok_0
                &&& keys[1].id == context.spec_find_output_key(output_max@)->Ok_0
                &&& forall|j: int| 0 <= j < keys.len() ==> (#[trigger] keys[j]).state == KeyState::Released
                &&& forall|x: int| context.spec_find_input_axisinfo(context.spec_find_input_axis(input@)->Ok_0)->Ok_0.min <= x
                    <= context.spec_find_input_axisinfo(context.spec_find_input_axis(input@)->Ok_0)->Ok_0.max ==> {
                    &&& (#[trigger] target(keys[0], x) == KeyState::Pressed) == (x < 0)
                    &&& (target(keys[1], x) == KeyState::Pressed) == (x > 0)
                }
            }
        },
{
    reveal_with_fuel(keys_step, 3);
    if let Ok((_, t)) = AxisTransform::spec_create(context, Mapper::HatToKeys(input, output_min, output_max)) {
        if let AxisTransformView::IntoKeys(keys) = t {
            lemma_keys_step_len(keys, timestamp, 0);
            assert(keys.drop_last().drop_last() =~= Seq::<IntoKey>::empty());
            let first = keys_step(keys.drop_last(), timestamp, 0);
            assert(first.0 =~= seq![IntoKey { state: KeyState::Released, ..keys[0] }]);
        }
    }
}

/// The keys of an axis-to-keys transform lie symmetrically about the middle
/// of the device's axis: the lower key spans from the axis minimum to
/// `threshold` percent of the half range below the middle, the upper key
/// from as far above the middle to the axis maximum (the middle and the
/// distances rounded toward zero, without overflow). When that distance is
/// not zero, the axis at its middle presses neither key.
pub proof fn lemma_axis_keys_symmetric(context: TransformCreateContext, input: String, output_min: String, output_max: String, threshold: isize, timestamp: Timestamp)
    ensures
        AxisTransform::spec_create(context, Mapper::AxisToKeys(input, output_min, output_max, threshold)) matches Ok((a, t)) ==> {
            let info = context.spec_find_input_axisinfo(a)->Ok_0;
            let lo = info.min as int;
            let hi = info.max as int;
            let middle = tdiv(lo + hi, 2);
            let half = tdiv(hi - lo, 2);
            let distance = tdiv(half * threshold, 100);
            (in_isize(hi - lo) && in_isize(lo + hi) && in_isize(half * threshold) && in_isize(middle - distance) && in_isize(middle + distance)) ==> {
                &&& t matches AxisTransformView::IntoKeys(keys) && {
                    &&& keys.len() == 2
                    &&& keys[0].lower == lo
                    &&& keys[0].upper == middle - distance
                    &&& keys[1].lower == middle + distance
                    &&& keys[1].upper == hi
                    &&& keys[0].upper + keys[1].lower == 2 * middle
                    &&& keys[0].id == context.spec_find_output_key(output_min@)->Ok_0
                    &&& keys[1].id == context.spec_find_output_key(output_max@)->Ok_0
                    &&& forall|j: int| 0 <= j < keys.len() ==> (#[trigger] keys[j]).state == KeyState::Released
                    &&& distance > 0 ==> forall|j: int| 0 <= j < keys.len() ==> (#[trigger] keys_step(keys, timestamp, middle).0[j]).state == KeyState::Released
                }
            }
        },
{
    reveal_with_fuel(keys_step, 3);
    if let Ok((a, t)) = AxisTransform::spec_create(context, Mapper::AxisToKeys(input, output_min, output_max, threshold)) {
        let info = context.spec_find_input_axisinfo(a)->Ok_0;
        let lo = info.min as int;
        let hi = info.max as int;
        let middle = tdiv(lo + hi, 2);
        let half = tdiv(hi - lo, 2);
        let distance = tdiv(half * threshold, 100);
        if in_isize(hi - lo) && in_isize(lo + hi) && in_isize(half * threshold) && in_isize(middle - distance) && in_isize(middle + distance) {
            assert(halfrange(info) as int == half) by {
                lemma_tdiv_bounds(hi - lo, 2);
            }
            assert(midpoint(info) as int == middle) by {
                lemma_tdiv_bounds(lo + hi, 2);
            }
            assert(halfrange(info).wrapping_mul(threshold) as int == half * threshold) by {
                lemma_signed_crop_in_range(half * threshold);
            }
            assert(reach(info, threshold) as int == distance) by {
                lemma_tdiv_bounds(half * threshold, 100);
            }
            if let AxisTransformView::IntoKeys(keys) = t {
                lemma_keys_step_len(keys, timestamp, middle);
                assert(keys.drop_last().drop_last() =~= Seq::<IntoKey>::empty());
                let first = keys_step(keys.drop_last(), timestamp, middle);
                assert(first.0 =~= seq![IntoKey { state: target(keys[0], middle), ..keys[0] }]);
            }
        }
    }
}

/// Truncated division shrinks toward zero.
proof fn lemma_tdiv_bounds(x: int, d: int)
    requires
        d > 0,
    ensures
        x >= 0 ==> 0 <= tdiv(x, d) <= x,
        x < 0 ==> x <= tdiv(x, d) <= 0,
{
    if x > 0 {
        assert(0 <= x / d <= x) by (nonlinear_arith) requires x > 0, d > 0;
    } else if x < 0 {
        assert(0 <= (x * -1) / d <= x * -1) by (nonlinear_arith) requires x < 0, d > 0;
    }
}

/// Cropping to `isize` keeps a value of `isize`.
proof fn lemma_signed_crop_in_range(x: int)
    requires
        in_isize(x),
    ensures
        vstd::wrapping::isize_specs::signed_crop(x) as int == x,
{
    let m: int = usize::MAX - usize::MIN + 1;
    assert(m == 2 * (isize::MAX as int + 1));
    assert(isize::MIN as int == -(isize::MAX as int + 1));
    if x >= 0 {
        vstd::arithmetic::div_mod::lemma_small_mod(x as nat, m as nat);
    } else {
        vstd::arithmetic::div_mod::lemma_mod_add_multiples_vanish(x, m);
        vstd::arithmetic::div_mod::lemma_small_mod((m + x) as nat, m as nat);
    }
}

} // verus!
