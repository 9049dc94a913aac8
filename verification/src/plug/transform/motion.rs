//! Transforms of relative axes: into the port's relative axis.

use vstd::prelude::*;
use crate::config::adapter::Mapper;
use crate::input::{InputEvent, MotionEvent, MotionId};
use super::{Error, ErrorView, Transform, TransformCreateContext, res_view, events_view, single};

verus! {

/// What a relative axis of the device becomes.
#[derive(Clone, Copy, Debug, PartialEq, Eq, Structural)]
pub enum MotionTransform {
    IntoMotion(IntoMotion),
}

/// The motion becomes the same motion on the port's relative axis.
#[derive(Clone, Copy, Debug, PartialEq, Eq, Structural)]
pub struct IntoMotion(pub MotionId);

impl MotionTransform {
    /// The events that `event` becomes.
    pub open spec fn spec_apply(self, event: MotionEvent) -> Result<Seq<InputEvent>, ErrorView> {
        match self {
            MotionTransform::IntoMotion(t) => Ok(
                seq![InputEvent::Motion(MotionEvent { timestamp: event.timestamp, id: t.0, state: event.state })],
            ),
        }
    }

    /// The input motion and the transform that `mapper` describes.
    pub open spec fn spec_create(context: TransformCreateContext, mapper: Mapper) -> Result<(MotionId, MotionTransform), ErrorView> {
        match mapper {
            Mapper::Motion(input, output) => match context.spec_find_input_motion(input@) {
                Err(e) => Err(e),
                Ok(i) => match context.spec_find_output_motion(output@) {
                    Err(e) => Err(e),
                    Ok(o) => Ok((i, MotionTransform::IntoMotion(IntoMotion(o)))),
                },
            },
            _ => Err(ErrorView::InvalidTransformCreateCalled),
        }
    }

    /// The input motion and transform of a motion mapper; an error for a
    /// mapper of another kind or a name that is not found.
    pub fn create(context: &TransformCreateContext, mapper: &Mapper) -> (r: Result<(MotionId, MotionTransform), Error>)
        ensures
            res_view(r) == MotionTransform::spec_create(*context, *mapper),
    {
        match mapper {
            Mapper::Motion(input, output) => IntoMotion::create(context, input, output),
            _ => Err(Error::InvalidTransformCreateCalled),
        }
    }
}

impl Transform<MotionEvent> for MotionTransform {
    open spec fn ready(&self, event: MotionEvent) -> bool {
        true
    }

    fn apply(&mut self, event: &MotionEvent) -> (r: Result<Vec<InputEvent>, Error>)
        ensures
            *final(self) == *old(self),
            events_view(r) == old(self).spec_apply(*event),
    {
        match self {
            MotionTransform::IntoMotion(transform) => transform.apply(event),
        }
    }
}

impl IntoMotion {
    /// The device's motion `input` becomes the port's motion `output`.
    pub fn create(context: &TransformCreateContext, input: &String, output: &String) -> (r: Result<(MotionId, MotionTransform), Error>)
        ensures
            res_view(r) == MotionTransform::spec_create(*context, Mapper::Motion(*input, *output)),
    {
        let input_motion = match context.find_input_motion(input) {
            Ok(m) => m,
            Err(e) => return Err(e),
        };
        let output_motion = match context.find_output_motion(output) {
            Ok(m) => m,
            Err(e) => return Err(e),
        };
        Ok((input_motion, MotionTransform::IntoMotion(IntoMotion(output_motion))))
    }

    fn apply(&self, event: &MotionEvent) -> (r: Result<Vec<InputEvent>, Error>)
        ensures
            events_view(r) == MotionTransform::IntoMotion(*self).spec_apply(*event),
    {
        single(InputEvent::Motion(MotionEvent { timestamp: event.timestamp, id: self.0, state: event.state }))
    }
}

} // verus!
