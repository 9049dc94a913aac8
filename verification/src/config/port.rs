//! Configuration of a virtual port: its identity, its slots, and the names
//! of the keys, axes and motions that it offers.

use vstd::prelude::*;
use crate::input::{KeyId, AxisId, MotionId};
use super::lookup::{clone_strings, clone_table};

verus! {

/// A kind of virtual port; one port is created per slot.
pub struct Port {
    pub name: String,
    pub product_id: i32,
    pub version: i32,
    pub fullname: String,
    pub slots: Vec<String>,
    pub keys: Vec<(String, KeyId)>,
    pub axes: Vec<(String, Axis)>,
    pub motions: Vec<(String, MotionId)>,
}

/// An absolute axis offered by a port, with its range.
#[derive(Clone, Copy, Debug, PartialEq, Eq, Structural)]
pub struct Axis {
    pub id: AxisId,
    pub min: i32,
    pub max: i32,
    pub flat: i32,
}

/// Model of a port configuration.
pub struct PortView {
    pub name: String,
    pub product_id: i32,
    pub version: i32,
    pub fullname: String,
    pub slots: Seq<String>,
    pub keys: Seq<(String, KeyId)>,
    pub axes: Seq<(String, Axis)>,
    pub motions: Seq<(String, MotionId)>,
}

impl View for Port {
    type V = PortView;

    open spec fn view(&self) -> PortView {
        PortView {
            name: self.name,
            product_id: self.product_id,
            version: self.version,
            fullname: self.fullname,
            slots: self.slots@,
            keys: self.keys@,
            axes: self.axes@,
            motions: self.motions@,
        }
    }
}

impl Port {
    /// The slots of a port kind whose configuration names none: the single
    /// slot `"unique"`.
    pub fn unique_slot() -> (r: Vec<String>)
        ensures
            r@.len() == 1,
            r@[0]@ == "unique"@,
    {
        let mut r: Vec<String> = Vec::new();
        r.push(String::from_str("unique"));
        r
    }
}

impl Clone for Port {
    fn clone(&self) -> (r: Self)
        ensures
            r@ == self@,
    {
        Port {
            name: self.name.clone(),
            product_id: self.product_id,
            version: self.version,
            fullname: self.fullname.clone(),
            slots: clone_strings(&self.slots),
            keys: clone_table(&self.keys),
            axes: clone_table(&self.axes),
            motions: clone_table(&self.motions),
        }
    }
}

} // verus!
