//! A physical device known to the daemon.

use vstd::prelude::*;
use crate::config::device::{Device as Config, DeviceSpec};
use crate::input::{AxisId, AxisInfo};
use crate::plug::Plug;
use crate::text::decimal;

verus! {

/// Identifier of a registered physical device.
#[derive(Clone, Copy, Debug, PartialEq, Eq, Structural, Hash)]
pub struct DeviceId(pub usize);

/// What the daemon reads of a physical input device: its driver, its
/// vendor and product codes, and the ranges of its absolute axes as the
/// device reported them when it was opened.
pub struct PhysDevice {
    pub driver: String,
    pub vendor_id: u16,
    pub product_id: u16,
    pub axes: Vec<(AxisId, AxisInfo)>,
}

/// The information of the first entry of `axes` for `axis`, if any.
pub open spec fn axis_entry(axes: Seq<(AxisId, AxisInfo)>, axis: AxisId) -> Option<AxisInfo>
    decreases axes.len(),
{
    if axes.len() == 0 {
        None
    } else if axes[0].0 == axis {
        Some(axes[0].1)
    } else {
        axis_entry(axes.drop_first(), axis)
    }
}

impl PhysDevice {
    /// What identifies the device, for recognising its configuration.
    pub open spec fn spec_spec(&self) -> DeviceSpec {
        DeviceSpec { vendor: self.vendor_id as i32, product: self.product_id as i32, driver: self.driver }
    }

    /// What identifies the device: its vendor and product codes, and its driver.
    pub fn spec(&self) -> (r: DeviceSpec)
        ensures
            r.vendor == self.vendor_id as i32,
            r.product == self.product_id as i32,
            r.driver@ == self.driver@,
    {
        DeviceSpec { vendor: self.vendor_id as i32, product: self.product_id as i32, driver: self.driver.clone() }
    }

    /// What the device reported of the absolute axis `axis`, if it has it.
    pub fn axis_info(&self, axis: AxisId) -> (r: Option<AxisInfo>)
        ensures
            r == axis_entry(self.axes@, axis),
    {
        let mut i: usize = 0;
        assert(self.axes@.skip(0) =~= self.axes@);
        while i < self.axes.len()
            invariant
                i <= self.axes.len(),
                axis_entry(self.axes@, axis) == axis_entry(self.axes@.skip(i as int), axis),
            decreases self.axes.len() - i,
        {
            assert(self.axes@.skip(i as int).drop_first() =~= self.axes@.skip(i + 1));
            if self.axes[i].0 == axis {
                return Some(self.axes[i].1);
            }
            i = i + 1;
        }
        None
    }
}

/// A physical device registered with the daemon.
pub struct Device {
    pub id: DeviceId,
    /// Position of the device among the devices of its configuration, from 0.
    pub slot_idx: usize,
    pub name: String,
    pub fullname: String,
    pub config: Config,
    pub backend: PhysDevice,
    pub plug: Option<Plug>,
}

impl Device {
    /// Registers the device `backend` under `id`, as the device of position
    /// `slot_idx` of configuration `config`: it is named after the
    /// configuration and its position counted from 1.
    pub fn new(id: DeviceId, config: &Config, slot_idx: usize, backend: PhysDevice) -> (r: Self)
        requires
            slot_idx < usize::MAX,
        ensures
            r.id == id,
            r.slot_idx == slot_idx,
            r.config@ == config@,
            r.name@ == config.name@ + ":"@ + decimal((slot_idx + 1) as nat),
            r.fullname@ == config.fullname@ + " "@ + decimal((slot_idx + 1) as nat),
            r.backend == backend,
            r.plug is None,
    {
        let config = config.clone();
        let mut name = config.name.clone();
        name.append(":");
        crate::text::push_decimal(&mut name, slot_idx + 1);
        let mut fullname = config.fullname.clone();
        fullname.append(" ");
        crate::text::push_decimal(&mut fullname, slot_idx + 1);
        Device { id, slot_idx, name, fullname, config, backend, plug: None }
    }

    /// What the device reported of the absolute axis `axis`, if it has it.
    pub fn axis_info(&self, axis: AxisId) -> (r: Option<AxisInfo>)
        ensures
            r == axis_entry(self.backend.axes@, axis),
    {
        self.backend.axis_info(axis)
    }
}

} // verus!
