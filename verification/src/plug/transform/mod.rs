//! Transforms: what one input of a physical device becomes on a port.

pub mod axis;
pub mod key;
pub mod motion;

pub use axis::AxisTransform;
pub use key::KeyTransform;
pub use motion::MotionTransform;

use vstd::prelude::*;
use crate::config::adapter::Adapter;
use crate::config::lookup::{find_named, named};
use crate::config::port::Axis;
use crate::device::{Device, axis_entry};
use crate::input::{AxisId, AxisInfo, InputEvent, KeyId, MotionId};
use crate::port::Port;
use crate::text::{debug_quoted, debug_str, decimal, push_decimal};

verus! {

/// Why a transform could not be created or applied.
pub enum Error {
    /// A transform was asked of a mapper of another kind.
    InvalidTransformCreateCalled,
    /// A reversed key cannot repeat.
    UnsupportedAutoRepeatForReverseKey(KeyId),
    /// A name of the mapping is unknown; the message says which.
    Find(String),
}

/// Model of an `Error`.
pub enum ErrorView {
    InvalidTransformCreateCalled,
    UnsupportedAutoRepeatForReverseKey(KeyId),
    Find(Seq<char>),
}

impl View for Error {
    type V = ErrorView;

    open spec fn view(&self) -> ErrorView {
        match self {
            Error::InvalidTransformCreateCalled => ErrorView::InvalidTransformCreateCalled,
            Error::UnsupportedAutoRepeatForReverseKey(k) => ErrorView::UnsupportedAutoRepeatForReverseKey(*k),
            Error::Find(s) => ErrorView::Find(s@),
        }
    }
}

/// A result with its error taken by its model.
pub open spec fn res_view<T>(r: Result<T, Error>) -> Result<T, ErrorView> {
    match r {
        Ok(v) => Ok(v),
        Err(e) => Err(e@),
    }
}

/// Events produced by a transform, taken by their sequence.
pub open spec fn events_view(r: Result<Vec<InputEvent>, Error>) -> Result<Seq<InputEvent>, ErrorView> {
    match r {
        Ok(v) => Ok(v@),
        Err(e) => Err(e@),
    }
}

/// Quotient of `x` by `d` rounded toward zero, as Rust's `/` computes it.
pub open spec fn tdiv(x: int, d: int) -> int {
    if x == 0 {
        0
    } else if x > 0 && d > 0 {
        x / d
    } else if x < 0 && d < 0 {
        (x * -1) / (d * -1)
    } else if x < 0 {
        ((x * -1) / d) * -1
    } else {
        (x / (d * -1)) * -1
    }
}

/// `x` is a value of `isize`.
pub open spec fn fits(x: int) -> bool {
    isize::MIN <= x <= isize::MAX
}

/// Divides as `/` does, on inputs where `/` does not panic.
pub fn div(x: isize, d: isize) -> (r: isize)
    requires
        d != 0,
        fits(tdiv(x as int, d as int)),
    ensures
        r == tdiv(x as int, d as int),
{
    match x.checked_div(d) {
        Some(q) => q,
        None => {
            proof {
                assert(false);
            }
            0
        },
    }
}

/// Something that turns an input event into events for a port.
pub trait Transform<E> {
    /// Applying the transform to `event` computes without overflow.
    spec fn ready(&self, event: E) -> bool;

    /// The events that `event` becomes.
    fn apply(&mut self, event: &E) -> (r: Result<Vec<InputEvent>, Error>)
        requires
            old(self).ready(*event),
    ;
}

/// What a transform is created from: the device, the port and the adapter
/// that joins them.
pub struct TransformCreateContext<'a> {
    pub device: &'a Device,
    pub port: &'a Port,
    pub adapter: &'a Adapter,
}

/// Message for a name that a mapping uses and that is not found.
pub open spec fn find_message(adapter: Seq<char>, what: Seq<char>, name: Seq<char>) -> Seq<char> {
    "[Plug "@ + debug_quoted(adapter) + "] Unable to find "@ + what + " "@ + debug_quoted(name)
}

/// Text of an axis code in messages.
pub open spec fn axis_id_text(id: AxisId) -> Seq<char> {
    "AxisId("@ + decimal(id.0 as nat) + ")"@
}

/// Message for an axis whose information the device does not give.
pub open spec fn axisinfo_message(adapter: Seq<char>, id: AxisId) -> Seq<char> {
    "[Plug "@ + debug_quoted(adapter) + "] Unable to query device axis info "@ + axis_id_text(id)
}

fn make_find_message(adapter: &String, what: &str, name: &String) -> (r: String)
    ensures
        r@ == find_message(adapter@, what@, name@),
{
    let mut msg = String::from_str("[Plug ");
    let q = debug_str(adapter);
    msg.append(q.as_str());
    msg.append("] Unable to find ");
    msg.append(what);
    msg.append(" ");
    let q = debug_str(name);
    msg.append(q.as_str());
    msg
}

/// Looks up `name` in a name table, or fails with the message for `what`.
pub open spec fn found<V>(entries: Seq<(String, V)>, adapter: Seq<char>, what: Seq<char>, name: Seq<char>) -> Result<V, ErrorView> {
    match named(entries, name) {
        Some(v) => Ok(v),
        None => Err(ErrorView::Find(find_message(adapter, what, name))),
    }
}

impl<'a> TransformCreateContext<'a> {
    pub open spec fn spec_find_input_key(self, name: Seq<char>) -> Result<KeyId, ErrorView> {
        found(self.device.config.keys@, self.adapter.name@, "device key/button"@, name)
    }

    pub open spec fn spec_find_output_key(self, name: Seq<char>) -> Result<KeyId, ErrorView> {
        found(self.port.config.keys@, self.adapter.name@, "port key/button"@, name)
    }

    pub open spec fn spec_find_input_axis(self, name: Seq<char>) -> Result<AxisId, ErrorView> {
        found(self.device.config.axes@, self.adapter.name@, "device axis"@, name)
    }

    pub open spec fn spec_find_input_axisinfo(self, id: AxisId) -> Result<AxisInfo, ErrorView> {
        match axis_entry(self.device.backend.axes@, id) {
            Some(v) => Ok(v),
            None => Err(ErrorView::Find(axisinfo_message(self.adapter.name@, id))),
        }
    }

    pub open spec fn spec_find_output_axis(self, name: Seq<char>) -> Result<Axis, ErrorView> {
        found(self.port.config.axes@, self.adapter.name@, "port axis"@, name)
    }

    pub open spec fn spec_find_input_motion(self, name: Seq<char>) -> Result<MotionId, ErrorView> {
        found(self.device.config.motions@, self.adapter.name@, "device motion"@, name)
    }

    pub open spec fn spec_find_output_motion(self, name: Seq<char>) -> Result<MotionId, ErrorView> {
        found(self.port.config.motions@, self.adapter.name@, "port motion"@, name)
    }

    /// The device's key named `name`.
    pub fn find_input_key(&self, name: &String) -> (r: Result<KeyId, Error>)
        ensures
            res_view(r) == self.spec_find_input_key(name@),
    {
        match find_named(&self.device.config.keys, name) {
            Some(v) => Ok(v),
            None => Err(Error::Find(make_find_message(&self.adapter.name, "device key/button", name))),
        }
    }

    /// The port's key named `name`.
    pub fn find_output_key(&self, name: &String) -> (r: Result<KeyId, Error>)
        ensures
            res_view(r) == self.spec_find_output_key(name@),
    {
        match find_named(&self.port.config.keys, name) {
            Some(v) => Ok(v),
            None => Err(Error::Find(make_find_message(&self.adapter.name, "port key/button", name))),
        }
    }

    /// The device's absolute axis named `name`.
    pub fn find_input_axis(&self, name: &String) -> (r: Result<AxisId, Error>)
        ensures
            res_view(r) == self.spec_find_input_axis(name@),
    {
        match find_named(&self.device.config.axes, name) {
            Some(v) => Ok(v),
            None => Err(Error::Find(make_find_message(&self.adapter.name, "device axis", name))),
        }
    }

    /// What the device reported of its axis `id`.
    pub fn find_input_axisinfo(&self, id: AxisId) -> (r: Result<AxisInfo, Error>)
        ensures
            res_view(r) == self.spec_find_input_axisinfo(id),
    {
        match self.device.axis_info(id) {
            Some(v) => Ok(v),
            None => {
                let mut msg = String::from_str("[Plug ");
                let q = debug_str(&self.adapter.name);
                msg.append(q.as_str());
                msg.append("] Unable to query device axis info ");
                msg.append("AxisId(");
                push_decimal(&mut msg, id.0 as usize);
                msg.append(")");
                proof {
                    let m = "[Plug "@ + debug_quoted(self.adapter.name@) + "] Unable to query device axis info "@;
                    assert(msg@ =~= m + axis_id_text(id));
                }
                Err(Error::Find(msg))
            },
        }
    }

    /// The port's absolute axis named `name`, with its range.
    pub fn find_output_axis(&self, name: &String) -> (r: Result<Axis, Error>)
        ensures
            res_view(r) == self.spec_find_output_axis(name@),
    {
        match find_named(&self.port.config.axes, name) {
            Some(v) => Ok(v),
            None => Err(Error::Find(make_find_message(&self.adapter.name, "port axis", name))),
        }
    }

    /// The device's relative axis named `name`.
    pub fn find_input_motion(&self, name: &String) -> (r: Result<MotionId, Error>)
        ensures
            res_view(r) == self.spec_find_input_motion(name@),
    {
        match find_named(&self.device.config.motions, name) {
            Some(v) => Ok(v),
            None => Err(Error::Find(make_find_message(&self.adapter.name, "device motion", name))),
        }
    }

    /// The port's relative axis named `name`.
    pub fn find_output_motion(&self, name: &String) -> (r: Result<MotionId, Error>)
        ensures
            res_view(r) == self.spec_find_output_motion(name@),
    {
        match find_named(&self.port.config.motions, name) {
            Some(v) => Ok(v),
            None => Err(Error::Find(make_find_message(&self.adapter.name, "port motion", name))),
        }
    }
}

/// The single event `event`.
pub fn single(event: InputEvent) -> (r: Result<Vec<InputEvent>, Error>)
    ensures
        events_view(r) == Ok::<Seq<InputEvent>, ErrorView>(seq![event]),
{
    let mut v: Vec<InputEvent> = Vec::new();
    v.push(event);
    Ok(v)
}

} // verus!
