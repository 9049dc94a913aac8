//! What the daemon does on each event of its devices: the records to write
//! to its ports' virtual devices and the events to tell its monitors.

use vstd::prelude::*;
use crate::daemon::Daemon;
use crate::device::DeviceId;
use crate::input::{AxisEvent, InputEvent, KeyEvent, MotionEvent, SyncEvent, ABS_MAX, KEY_MAX, REL_MAX};
use crate::plug::{ErrorView, Plug, PlugId, TablesView, plug_in_range, axis_outputs, axis_row_ready, key_outputs, motion_outputs, routes_within};
use crate::plug::{lemma_axis_outputs_ports, lemma_key_outputs_ports, lemma_motion_outputs_ports};
use crate::daemon::{DaemonView, port_ids, sorted_keys};
use crate::daemon::plugging::{plug_devices, plugged, plugged_events};
use crate::autoplug::autoplug_step;
use crate::config::adapter::Adapter;
use crate::device::{Device, PhysDevice};
use crate::config::first_device_found;
use crate::daemon::devices::{first_slot, is_registered};
use crate::daemon::{plug_args_defined, plug_codes_ok, plug_done, plug_error, reset_done};
use crate::protocol::{Command, Response};
use crate::port::Port;
use crate::protocol::{Event, EventView, event_views};
use crate::port::PortId;
use crate::raw::{RawEvent, encode};

verus! {

/// The records for a synchronisation event: one for each port of each
/// plug of `plugids`, in order.
pub open spec fn sync_writes(plugs: Map<usize, Plug>, plugids: Seq<PlugId>, event: SyncEvent) -> Seq<(PortId, RawEvent)>
    decreases plugids.len(),
{
    if plugids.len() == 0 {
        Seq::empty()
    } else {
        sync_writes(plugs, plugids.drop_last(), event)
            + plugs[plugids.last().0].portids@.map_values(|p: PortId| (p, encode(InputEvent::Sync(event))))
    }
}

/// The records that translated events become, each written to its port.
pub open spec fn writes_of(outputs: Seq<(InputEvent, PortId)>) -> Seq<(PortId, RawEvent)> {
    outputs.map_values(|o: (InputEvent, PortId)| (o.1, encode(o.0)))
}

/// The events that a key event becomes through the plugs `plugids` in
/// turn; the first error stops the translation.
pub open spec fn key_run(plugs: Map<usize, Plug>, plugids: Seq<PlugId>, event: KeyEvent) -> Result<Seq<(InputEvent, PortId)>, ErrorView>
    decreases plugids.len(),
{
    if plugids.len() == 0 {
        Ok(Seq::empty())
    } else {
        match key_run(plugs, plugids.drop_last(), event) {
            Err(e) => Err(e),
            Ok(prev) => match key_outputs(plugs[plugids.last().0].tables().keys[event.id.0 as int], event) {
                Err(e) => Err(e),
                Ok(o) => Ok(prev + o),
            },
        }
    }
}

/// The events that a motion event becomes through the plugs `plugids` in turn.
pub open spec fn motion_run(plugs: Map<usize, Plug>, plugids: Seq<PlugId>, event: MotionEvent) -> Seq<(InputEvent, PortId)>
    decreases plugids.len(),
{
    if plugids.len() == 0 {
        Seq::empty()
    } else {
        motion_run(plugs, plugids.drop_last(), event) + motion_outputs(plugs[plugids.last().0].tables().motions[event.id.0 as int], event)
    }
}

/// What the daemon does on an event: the records to write to ports, and
/// the events to tell the monitors.
pub struct Reaction {
    pub writes: Vec<(PortId, RawEvent)>,
    pub events: Vec<Event>,
}

/// Why the daemon cannot go on after an event: a plug could not translate
/// it, or the automatic plugging chose a device that has left.
pub enum Error {
    Translate(crate::plug::Error),
    UnknownDevice(DeviceId),
    /// The adapter maps a code of the device out of the range of its kind
    /// of input onto a port named `Gamepad:1`.
    CodeOutOfRange(DeviceId),
}

/// The keys of `keys` whose port is named `name`, in order.
pub open spec fn keys_named(pm: Map<usize, Port>, keys: Seq<usize>, name: Seq<char>) -> Seq<usize>
    decreases keys.len(),
{
    if keys.len() == 0 {
        Seq::empty()
    } else {
        let prev = keys_named(pm, keys.drop_last(), name);
        if pm[keys.last()].name@ == name { prev.push(keys.last()) } else { prev }
    }
}

/// `gp` are the ports named `Gamepad:1`, by increasing key.
pub open spec fn is_first_gamepads(pm: Map<usize, Port>, gp: Seq<&Port>) -> bool {
    exists|keys: Seq<usize>| {
        &&& sorted_keys(keys, pm.dom())
        &&& gp.len() == keys_named(pm, keys, "Gamepad:1"@).len()
        &&& forall|n: int| 0 <= n < gp.len() ==> *(#[trigger] gp[n]) == pm[keys_named(pm, keys, "Gamepad:1"@)[n]]
    }
}

/// `gp` are the first ports named `Gamepad:1`, by increasing key.
pub open spec fn is_gamepads_prefix(pm: Map<usize, Port>, gp: Seq<&Port>) -> bool {
    exists|keys: Seq<usize>| {
        &&& sorted_keys(keys, pm.dom())
        &&& gp.len() <= keys_named(pm, keys, "Gamepad:1"@).len()
        &&& forall|n: int| 0 <= n < gp.len() ==> *(#[trigger] gp[n]) == pm[keys_named(pm, keys, "Gamepad:1"@)[n]]
    }
}

/// Plugging the device `id` of `devices` into `ports` through `adapter`
/// reads only codes in range.
pub open spec fn device_in_range(adapter: &Adapter, devices: Map<usize, (Device, Vec<PlugId>)>, id: DeviceId, ports: Seq<&Port>) -> bool {
    plug_in_range(adapter, &devices[id.0].0, ports)
}

/// `i` is the first position of `ids` whose device reads a code out of
/// range when plugged into `ports` through `adapter`.
pub open spec fn first_out_of_range(adapter: &Adapter, devices: Map<usize, (Device, Vec<PlugId>)>, ids: Seq<DeviceId>, ports: Seq<&Port>, i: int) -> bool {
    &&& 0 <= i < ids.len()
    &&& !device_in_range(adapter, devices, ids[i], ports)
    &&& forall|j: int| 0 <= j < i ==> device_in_range(adapter, devices, #[trigger] ids[j], ports)
}

/// Every device of `ids` reads only codes in range when plugged through
/// `adapter` into each port of `gp`, alone.
pub open spec fn all_in_range(adapter: &Adapter, devices: Map<usize, (Device, Vec<PlugId>)>, ids: Seq<DeviceId>, gp: Seq<&Port>) -> bool {
    forall|m: int, j: int| 0 <= m < gp.len() && 0 <= j < ids.len() ==> #[trigger] device_in_range(adapter, devices, ids[j], seq![gp[m]])
}

/// The daemon went from `d0` to `d1` by plugging the devices `ids` through
/// an adapter of model `a` into the first ports named `Gamepad:1`, until a
/// port, the last of `gp`, into which the device `id` would read a code out
/// of range.
pub open spec fn codes_refused(d0: Daemon, d1: Daemon, a: crate::config::adapter::AdapterView, ids: Seq<DeviceId>, id: DeviceId) -> bool {
    exists|adapter: Adapter, gp: Seq<&Port>, i: int| {
        &&& adapter@ == a
        &&& gp.len() > 0
        &&& is_gamepads_prefix(d0.port_map(), gp)
        &&& plugged_each(d0.plug_map(), d0.device_map(), d1.plug_map(), d1.device_map(), &adapter, ids, gp.drop_last())
        &&& all_in_range(&adapter, d0.device_map(), ids, gp.drop_last())
        &&& first_out_of_range(&adapter, d0.device_map(), ids, seq![gp.last()], i)
        &&& id == ids[i]
    }
}

/// The registries went from `plugs0`, `devices0` to `plugs1`, `devices1` by
/// plugging the devices `ids` into each port of `gp` in turn, alone.
pub open spec fn plugged_each(
    plugs0: Map<usize, Plug>,
    devices0: Map<usize, (Device, Vec<PlugId>)>,
    plugs1: Map<usize, Plug>,
    devices1: Map<usize, (Device, Vec<PlugId>)>,
    adapter: &Adapter,
    ids: Seq<DeviceId>,
    gp: Seq<&Port>,
) -> bool
    decreases gp.len(),
{
    if gp.len() == 0 {
        plugs1 == plugs0 && devices1 == devices0
    } else {
        exists|plugs: Map<usize, Plug>, devices: Map<usize, (Device, Vec<PlugId>)>, keys: Seq<usize>| {
            &&& plugged_each(plugs0, devices0, plugs, devices, adapter, ids, gp.drop_last())
            &&& plugged(plugs, devices, plugs1, devices1, adapter, ids, seq![gp.last()], keys)
        }
    }
}

/// The events told when plugging the devices `ids` into each port of `gp`
/// in turn.
pub open spec fn plugged_each_events(adapter: &Adapter, devices: Map<usize, (Device, Vec<PlugId>)>, ids: Seq<DeviceId>, gp: Seq<&Port>) -> Seq<EventView>
    decreases gp.len(),
{
    if gp.len() == 0 {
        Seq::empty()
    } else {
        plugged_each_events(adapter, devices, ids, gp.drop_last()) + plugged_events(adapter, devices, ids, seq![gp.last()])
    }
}

/// The first position of `ids` whose device is not registered.
pub open spec fn first_unknown_of(devices: Map<usize, (Device, Vec<PlugId>)>, ids: Seq<DeviceId>) -> int {
    choose|i: int| first_unknown(devices, ids, i)
}

/// The daemon went from `d0` to `d1` by registering `device` under `id`, in
/// the next slot of the configuration `config`.
pub open spec fn device_added(d0: Daemon, d1: Daemon, id: DeviceId, config: crate::config::device::Device, device: PhysDevice) -> bool {
    &&& id.0 == d0@.next_device
    &&& !d0.device_map().contains_key(id.0)
    &&& d1.device_map() == d0.device_map().insert(id.0, d1.device_map()[id.0])
    &&& d1.device_map()[id.0].1@ == Seq::<PlugId>::empty()
    &&& exists|j: int| {
        &&& first_slot(d0@.slots, config.name@, j)
        &&& !d0@.slots[j].1.contains_key(d0@.next_slots[j])
        &&& d1@.slots == d0@.slots.update(j, (d0@.slots[j].0, d0@.slots[j].1.insert(d0@.next_slots[j], id.0)))
        &&& is_registered(d1.device_map()[id.0].0, id, config, d0@.next_slots[j], device)
    }
    &&& d1@ == (DaemonView {
        devices: d1@.devices,
        next_device: d1@.next_device,
        slots: d1@.slots,
        next_slots: d1@.next_slots,
        ..d0@
    })
}

/// `i` is the first position of `ids` whose device is not registered.
pub open spec fn first_unknown(devices: Map<usize, (Device, Vec<PlugId>)>, ids: Seq<DeviceId>, i: int) -> bool {
    &&& 0 <= i < ids.len()
    &&& !devices.contains_key(ids[i].0)
    &&& forall|j: int| 0 <= j < i ==> devices.contains_key((#[trigger] ids[j]).0)
}

/// Some port is named `Gamepad:1`.
pub open spec fn has_first_gamepad(pm: Map<usize, Port>) -> bool {
    exists|k: usize| pm.contains_key(k) && (#[trigger] pm[k]).name@ == "Gamepad:1"@
}

/// The daemon went from `d0` to `d1` by plugging the devices `ids` through
/// an adapter of model `a` into each port named `Gamepad:1` in turn, alone;
/// `events` are the events told.
pub open spec fn gamepads_plugged(d0: Daemon, d1: Daemon, a: crate::config::adapter::AdapterView, ids: Seq<DeviceId>, events: Seq<EventView>) -> bool {
    exists|adapter: Adapter, gp: Seq<&Port>| {
        &&& adapter@ == a
        &&& is_first_gamepads(d0.port_map(), gp)
        &&& all_in_range(&adapter, d0.device_map(), ids, gp)
        &&& plugged_each(d0.plug_map(), d0.device_map(), d1.plug_map(), d1.device_map(), &adapter, ids, gp)
        &&& events == plugged_each_events(&adapter, d0.device_map(), ids, gp)
    }
}

/// What a key event of a device without plugs does: the automatic
/// plugging rules take it; when they plug devices through an adapter,
/// either some port is named `Gamepad:1` and one of the devices has left,
/// which stops the daemon, or the devices are plugged into each port named
/// `Gamepad:1` in turn and the monitors are told, unless a device would
/// read a code out of range, which stops the daemon at that port.
pub open spec fn autoplugged(d0: Daemon, d1: Daemon, deviceid: DeviceId, event: KeyEvent, r: Result<Reaction, Error>) -> bool {
    let step = autoplug_step(d0.rules(), d0.device_map()[deviceid.0].0.config.name@, deviceid, event);
    match step.1 {
        None => {
            &&& r matches Ok(reaction) && reaction.writes@.len() == 0 && reaction.events@.len() == 0
            &&& d1@ == (DaemonView { rules: step.0, ..d0@ })
        },
        Some((a, ids)) => if has_first_gamepad(d0.port_map()) && exists|i: int| first_unknown(d0.device_map(), ids, i) {
            &&& r matches Err(Error::UnknownDevice(id)) && id == ids[first_unknown_of(d0.device_map(), ids)]
            &&& d1@ == (DaemonView { rules: step.0, ..d0@ })
        } else {
            &&& (r matches Ok(reaction) && reaction.writes@.len() == 0 && gamepads_plugged(d0, d1, a, ids, event_views(reaction.events@)))
                || (r matches Err(Error::CodeOutOfRange(id)) && codes_refused(d0, d1, a, ids, id))
            &&& d1@ == (DaemonView { devices: d1@.devices, plugs: d1@.plugs, next_plug: d1@.next_plug, rules: step.0, ..d0@ })
        },
    }
}

/// The tables of the plugs, by key.
pub open spec fn plug_tables(plugs: Map<usize, Plug>) -> Map<usize, TablesView> {
    Map::new(|k: usize| plugs.contains_key(k), |k: usize| plugs[k].tables())
}

/// The tables after an absolute axis event goes through the plugs
/// `plugids` in turn, and the events it becomes.
pub open spec fn axis_run(tables: Map<usize, TablesView>, plugids: Seq<PlugId>, event: AxisEvent) -> (Map<usize, TablesView>, Seq<(InputEvent, PortId)>)
    decreases plugids.len(),
{
    if plugids.len() == 0 {
        (tables, Seq::empty())
    } else {
        let prev = axis_run(tables, plugids.drop_last(), event);
        let k = plugids.last().0;
        let t = prev.0[k];
        let out = axis_outputs(t.axes[event.id.0 as int], event);
        (prev.0.insert(k, TablesView { axes: t.axes.update(event.id.0 as int, out.0), ..t }), prev.1 + out.1)
    }
}

impl Daemon {
    /// Every transform of the event's axis in the plugs of the device can
    /// take the event without overflow.
    pub open spec fn axis_ready(&self, deviceid: DeviceId, event: AxisEvent) -> bool {
        forall|i: int| 0 <= i < self.device_map()[deviceid.0].1@.len() ==> axis_row_ready(
            (#[trigger] self.plug_map()[self.device_map()[deviceid.0].1@[i].0]).tables().axes[event.id.0 as int], event)
    }

    /// Whether `axis_ready` holds.
    pub fn can_take_axis(&self, deviceid: DeviceId, event: &AxisEvent) -> (r: bool)
        requires
            self.wf(),
            self.device_map().contains_key(deviceid.0),
            self.device_map()[deviceid.0].1@.len() > 0 ==> event.id.0 <= ABS_MAX,
        ensures
            r == self.axis_ready(deviceid, *event),
    {
        let plugids = self.devices.plugs(deviceid);
        let mut i: usize = 0;
        while i < plugids.len()
            invariant
                i <= plugids.len(),
                self.wf(),
                *plugids == self.device_map()[deviceid.0].1,
                self.device_map().contains_key(deviceid.0),
                plugids@.len() > 0 ==> event.id.0 <= ABS_MAX,
                forall|j: int| 0 <= j < i ==> axis_row_ready(
                    (#[trigger] self.plug_map()[plugids@[j].0]).tables().axes[event.id.0 as int], *event),
            decreases plugids.len() - i,
        {
            let plugid = plugids[i];
            assert(self.plug_map().contains_key(plugid.0));
            if !self.plugs.index(plugid).can_translate_axis(event) {
                return false;
            }
            i = i + 1;
        }
        true
    }

    /// The records for an absolute axis event of the device `deviceid`,
    /// through each of its plugs, whose transforms take the event.
    pub fn on_input_axis_change(&mut self, deviceid: DeviceId, event: AxisEvent) -> (r: Vec<(PortId, RawEvent)>)
        requires
            old(self).wf(),
            old(self).device_map().contains_key(deviceid.0),
            old(self).device_map()[deviceid.0].1@.len() > 0 ==> event.id.0 <= ABS_MAX,
            old(self).axis_ready(deviceid, event),
        ensures
            final(self).wf(),
            final(self)@ == (DaemonView { plugs: final(self)@.plugs, ..old(self)@ }),
            final(self).plug_map().dom() == old(self).plug_map().dom(),
            forall|k: usize| #[trigger] old(self).plug_map().contains_key(k) ==> {
                &&& final(self).plug_map()[k].id == old(self).plug_map()[k].id
                &&& final(self).plug_map()[k].name == old(self).plug_map()[k].name
                &&& final(self).plug_map()[k].deviceid == old(self).plug_map()[k].deviceid
                &&& final(self).plug_map()[k].portids == old(self).plug_map()[k].portids
            },
            plug_tables(final(self).plug_map()) == axis_run(plug_tables(old(self).plug_map()), old(self).device_map()[deviceid.0].1@, event).0,
            r@ == writes_of(axis_run(plug_tables(old(self).plug_map()), old(self).device_map()[deviceid.0].1@, event).1),
    {
        let ghost tables0 = plug_tables(self.plug_map());
        let ghost plugs0 = self.plug_map();
        let ghost all = self.device_map()[deviceid.0].1@;
        let mut plugids: Vec<PlugId> = Vec::new();
        {
            let list = self.devices.plugs(deviceid);
            let mut n: usize = 0;
            while n < list.len()
                invariant
                    n <= list.len(),
                    plugids@ == list@.take(n as int),
                decreases list.len() - n,
            {
                plugids.push(list[n]);
                assert(list@.take(n + 1) =~= list@.take(n as int).push(list@[n as int]));
                n = n + 1;
            }
            assert(list@.take(list@.len() as int) =~= list@);
        }
        let mut writes: Vec<(PortId, RawEvent)> = Vec::new();
        let mut i: usize = 0;
        assert(plugids@.take(0) =~= Seq::<PlugId>::empty());
        assert(plug_tables(self.plug_map()) =~= tables0);
        while i < plugids.len()
            invariant
                i <= plugids.len(),
                self.wf(),
                plugids@ == all,
                all == old(self).device_map()[deviceid.0].1@,
                old(self).device_map().contains_key(deviceid.0),
                plugs0 == old(self).plug_map(),
                tables0 == plug_tables(plugs0),
                forall|j: int| 0 <= j < all.len() ==> plugs0.contains_key((#[trigger] all[j]).0),
                forall|j: int| 0 <= j < all.len() ==> axis_row_ready((#[trigger] plugs0[all[j].0]).tables().axes[event.id.0 as int], event),
                all.len() > 0 ==> event.id.0 <= ABS_MAX,
                self@ == (DaemonView { plugs: self@.plugs, ..old(self)@ }),
                self.plug_map().dom() == plugs0.dom(),
                forall|k: usize| #[trigger] plugs0.contains_key(k) ==> {
                    &&& self.plug_map()[k].id == plugs0[k].id
                    &&& self.plug_map()[k].name == plugs0[k].name
                    &&& self.plug_map()[k].deviceid == plugs0[k].deviceid
                    &&& self.plug_map()[k].portids == plugs0[k].portids
                    &&& axis_row_ready(self.plug_map()[k].tables().axes[event.id.0 as int], event)
                        == axis_row_ready(plugs0[k].tables().axes[event.id.0 as int], event)
                },
                plug_tables(self.plug_map()) == axis_run(tables0, all.take(i as int), event).0,
                writes@ == writes_of(axis_run(tables0, all.take(i as int), event).1),
            decreases plugids.len() - i,
        {
            assert(all.take(i + 1).drop_last() =~= all.take(i as int));
            let plugid = plugids[i];
            assert(plugs0.contains_key(plugid.0));
            assert(plugs0.contains_key(all[i as int].0));
            let ghost plugs_before = self.plug_map();
            let ghost row = plugs_before[plugid.0].tables().axes[event.id.0 as int];
            assert(plug_tables(plugs_before)[plugid.0] == plugs_before[plugid.0].tables());
            let plug = self.plugs.index_mut(plugid);
            let outputs = plug.translate_axis(&event);
            proof {
                let ids = port_ids(self.port_map());
                assert forall|j: int| 0 <= j < row.len() implies ids.contains((#[trigger] row[j]).1) by {
                    assert(plugs_before[plugid.0].tables().axes[event.id.0 as int][j] == row[j]);
                }
                lemma_axis_outputs_ports(row, event, ids);
                let t = plugs_before[plugid.0].tables();
                let t1 = self.plug_map()[plugid.0].tables();
                assert(t1 == TablesView { axes: t.axes.update(event.id.0 as int, axis_outputs(row, event).0), ..t });
                assert(plug_tables(self.plug_map()) =~= plug_tables(plugs_before).insert(plugid.0, t1));
                assert forall|k: usize| self.plug_map().contains_key(k) implies {
                    &&& routes_within((#[trigger] self.plug_map()[k]).tables(), port_ids(self.port_map()))
                    &&& forall|x: int| 0 <= x < self.plug_map()[k].portids@.len() ==> self.port_map().contains_key(self.plug_map()[k].portids@[x].0)
                } by {
                    if k == plugid.0 {
                        assert forall|c: int, j: int| 0 <= c < t1.axes.len() && 0 <= j < t1.axes[c].len() implies ids.contains(#[trigger] t1.axes[c][j].1) by {
                            if c == event.id.0 as int {
                                assert(t1.axes[c][j] == axis_outputs(row, event).0[j]);
                            } else {
                                assert(t1.axes[c][j] == t.axes[c][j]);
                            }
                        }
                    }
                }
                assert forall|k: usize| #[trigger] plugs0.contains_key(k) implies axis_row_ready(self.plug_map()[k].tables().axes[event.id.0 as int], event)
                    == axis_row_ready(plugs0[k].tables().axes[event.id.0 as int], event) by {
                    if k == plugid.0 {
                        assert(t1.axes[event.id.0 as int] == axis_outputs(row, event).0);
                    }
                }
                assert(self.plugs.wf());
                assert(self@ == (DaemonView { plugs: self@.plugs, ..old(self)@ }));
            }
            match outputs {
                Ok(outputs) => {
                    self.emit_all(&outputs, &mut writes);
                    proof {
                        let o = axis_run(tables0, all.take(i as int), event).1;
                        assert(writes_of(o + outputs@) =~= writes_of(o) + writes_of(outputs@));
                    }
                },
                Err(_) => {
                    assert(false);
                },
            }
            i = i + 1;
        }
        assert(all.take(all.len() as int) =~= all);
        writes
    }

    /// Appends to `writes` the record of each translated event for its port.
    fn emit_all(&self, outputs: &Vec<(InputEvent, PortId)>, writes: &mut Vec<(PortId, RawEvent)>)
        requires
            self.wf(),
            forall|i: int| 0 <= i < outputs@.len() ==> port_ids(self.port_map()).contains((#[trigger] outputs@[i]).1),
        ensures
            final(writes)@ == old(writes)@ + writes_of(outputs@),
    {
        let ghost before = writes@;
        let mut i: usize = 0;
        while i < outputs.len()
            invariant
                i <= outputs.len(),
                self.wf(),
                forall|j: int| 0 <= j < outputs@.len() ==> port_ids(self.port_map()).contains((#[trigger] outputs@[j]).1),
                writes@ == before + writes_of(outputs@.take(i as int)),
            decreases outputs.len() - i,
        {
            let (output, portid) = outputs[i];
            assert(port_ids(self.port_map()).contains(outputs@[i as int].1));
            let raw = self.ports.index(portid).emit_event(&output);
            writes.push((portid, raw));
            assert(writes_of(outputs@.take(i + 1)) =~= writes_of(outputs@.take(i as int)).push((portid, raw)));
            i = i + 1;
        }
        assert(outputs@.take(outputs@.len() as int) =~= outputs@);
    }

    /// The records for a key event of the device `deviceid` through each of
    /// its plugs; the first translation error stops it.
    fn translate_key_all(&mut self, deviceid: DeviceId, event: &KeyEvent) -> (r: Result<Vec<(PortId, RawEvent)>, crate::plug::Error>)
        requires
            old(self).wf(),
            old(self).device_map().contains_key(deviceid.0),
            event.id.0 <= KEY_MAX,
        ensures
            final(self)@ == old(self)@,
            match r {
                Ok(w) => key_run(old(self).plug_map(), old(self).device_map()[deviceid.0].1@, *event) matches Ok(o) && w@ == writes_of(o),
                Err(e) => key_run(old(self).plug_map(), old(self).device_map()[deviceid.0].1@, *event) == Err::<Seq<(InputEvent, PortId)>, ErrorView>(e@),
            },
    {
        let plugids = self.devices.plugs(deviceid);
        let mut writes: Vec<(PortId, RawEvent)> = Vec::new();
        let mut i: usize = 0;
        assert(plugids@.take(0) =~= Seq::<PlugId>::empty());
        while i < plugids.len()
            invariant
                i <= plugids.len(),
                self.wf(),
                self@ == old(self)@,
                *plugids == self.device_map()[deviceid.0].1,
                self.device_map().contains_key(deviceid.0),
                event.id.0 <= KEY_MAX,
                key_run(self.plug_map(), plugids@.take(i as int), *event) matches Ok(o) && writes@ == writes_of(o),
            decreases plugids.len() - i,
        {
            assert(plugids@.take(i + 1).drop_last() =~= plugids@.take(i as int));
            let plugid = plugids[i];
            assert(self.plug_map().contains_key(plugid.0));
            let ghost plugs_before = self.plug_map();
            let plug = self.plugs.index_mut(plugid);
            let outputs = plug.translate_key(event);
            proof {
                assert(self.plug_map() =~= plugs_before);
                assert(self@ == old(self)@);
            }
            match outputs {
                Ok(outputs) => {
                    proof {
                        let row = self.plug_map()[plugid.0].tables().keys[event.id.0 as int];
                        assert forall|j: int| 0 <= j < row.len() implies port_ids(self.port_map()).contains((#[trigger] row[j]).1) by {
                            assert(self.plug_map()[plugid.0].tables().keys[event.id.0 as int][j] == row[j]);
                        }
                        lemma_key_outputs_ports(row, *event, port_ids(self.port_map()));
                    }
                    let ghost prev = writes@;
                    self.emit_all(&outputs, &mut writes);
                    proof {
                        let o = key_run(self.plug_map(), plugids@.take(i as int), *event)->Ok_0;
                        assert(writes_of(o + outputs@) =~= writes_of(o) + writes_of(outputs@));
                    }
                },
                Err(e) => {
                    proof {
                        lemma_key_run_err(self.plug_map(), plugids@, *event, i + 1);
                        assert(plugids@.take(plugids@.len() as int) =~= plugids@);
                    }
                    return Err(e);
                },
            }
            i = i + 1;
        }
        assert(plugids@.take(plugids@.len() as int) =~= plugids@);
        Ok(writes)
    }

    /// Registers a new physical device under the configuration of the first
    /// device configuration that recognises it, if any.
    pub fn on_device_add(&mut self, device: PhysDevice) -> (r: Option<DeviceId>)
        requires
            old(self).wf(),
        ensures
            final(self).wf(),
            match r {
                None => {
                    &&& forall|i: int| 0 <= i < old(self).config().devices@.len() ==> !(#[trigger] old(self).config().devices@[i])@.find(device.spec_spec())
                    &&& final(self)@ == old(self)@
                },
                Some(id) => exists|i: int| first_device_found(old(self).config().devices@, device.spec_spec(), i)
                    && device_added(*old(self), *final(self), id, old(self).config().devices@[i], device),
            },
    {
        let spec = device.spec();
        proof {
            assert forall|i: int| 0 <= i < self.config.devices@.len() implies
                (#[trigger] self.config.devices@[i])@.find(spec) == self.config.devices@[i]@.find(device.spec_spec()) by {
                lemma_find_same(self.config.devices@[i]@, spec, device.spec_spec());
            }
        }
        let config = match self.config.find_device_by_spec(&spec) {
            Some(config) => config,
            None => {
                proof {
                    assert forall|i: int| 0 <= i < old(self).config().devices@.len() implies
                        !(#[trigger] old(self).config().devices@[i])@.find(device.spec_spec()) by {
                        assert(!self.config.devices@[i]@.find(spec));
                    }
                    assert(self@ == old(self)@);
                }
                return None;
            },
        };
        let ghost d0 = *self;
        proof {
            let i = choose|i: int| first_device_found(self.config.devices@, spec, i) && self.config.devices@[i] == *config;
            assert(crate::daemon::has_slots(self.devices.slots(), self.config.devices@[i].name@));
        }
        let id = self.devices.register(config, device);
        proof {
            let i = choose|i: int| first_device_found(d0.config.devices@, spec, i) && d0.config.devices@[i] == *config;
            assert(first_device_found(d0.config.devices@, device.spec_spec(), i));
            assert forall|j: int| 0 <= j < self.config.devices@.len() implies crate::daemon::has_slots(self.devices.slots(), (#[trigger] self.config.devices@[j]).name@) by {
                assert(crate::daemon::has_slots(d0.devices.slots(), self.config.devices@[j].name@));
                let x = choose|x: int| 0 <= x < d0.devices.slots().len() && (#[trigger] d0.devices.slots()[x]).0@ == self.config.devices@[j].name@;
                assert(self.devices.slots()[x].0 == d0.devices.slots()[x].0);
            }
            assert forall|k: usize, x: int| self.devices.map().contains_key(k) && 0 <= x < self.devices.map()[k].1@.len()
                implies self.plugs.map().contains_key((#[trigger] self.devices.map()[k].1@[x]).0) by {
                if k != id.0 {
                    assert(d0.devices.map().contains_key(k));
                    assert(self.devices.map()[k] == d0.devices.map()[k]);
                }
            }
            let cfg = d0.config.devices@[i];
            assert(id.0 == d0@.next_device);
            assert(!d0.device_map().contains_key(id.0));
            assert(self.device_map() == d0.device_map().insert(id.0, self.device_map()[id.0]));
            let j = choose|j: int| {
                &&& first_slot(d0.devices.slots(), config.name@, j)
                &&& !d0.devices.slots()[j].1.contains_key(d0.devices.next_slot(j))
                &&& self.devices.slots() == d0.devices.slots().update(j, (d0.devices.slots()[j].0, d0.devices.slots()[j].1.insert(d0.devices.next_slot(j), id.0)))
                &&& is_registered(self.devices.map()[id.0].0, id, *config, d0.devices.next_slot(j), device)
            };
            assert(d0.devices.next_slot(j) == d0@.next_slots[j]);
            assert(is_registered(self.device_map()[id.0].0, id, cfg, d0@.next_slots[j], device));
            assert(first_slot(d0@.slots, cfg.name@, j));
            assert(!d0@.slots[j].1.contains_key(d0@.next_slots[j]));
            assert(self@.slots == d0@.slots.update(j, (d0@.slots[j].0, d0@.slots[j].1.insert(d0@.next_slots[j], id.0))));
            assert(self@ == (DaemonView {
                devices: self@.devices,
                next_device: self@.next_device,
                slots: self@.slots,
                next_slots: self@.next_slots,
                ..d0@
            }));
            assert(device_added(d0, *self, id, d0.config.devices@[i], device));
            assert(d0 == *old(self));
            assert(first_device_found(old(self).config().devices@, device.spec_spec(), i)
                && device_added(*old(self), *self, id, old(self).config().devices@[i], device));
        }
        Some(id)
    }

    /// Forgets the device `deviceid`, which has no plug, and frees its slot.
    pub fn on_device_remove(&mut self, deviceid: DeviceId)
        requires
            old(self).wf(),
            old(self).device_map().contains_key(deviceid.0),
            old(self).device_map()[deviceid.0].1@.len() == 0,
        ensures
            final(self).wf(),
            final(self).device_map() == old(self).device_map().remove(deviceid.0),
            exists|j: int| {
                &&& first_slot(old(self)@.slots, old(self).device_map()[deviceid.0].0.config.name@, j)
                &&& final(self)@.slots == old(self)@.slots.update(j, (old(self)@.slots[j].0,
                    old(self)@.slots[j].1.remove(old(self).device_map()[deviceid.0].0.slot_idx)))
            },
            final(self)@ == (DaemonView {
                devices: final(self)@.devices,
                next_device: final(self)@.next_device,
                slots: final(self)@.slots,
                next_slots: final(self)@.next_slots,
                ..old(self)@
            }),
    {
        let ghost d0 = *self;
        let (device, plugids) = match self.devices.unregister(deviceid) {
            Ok(entry) => entry,
            Err(_) => return,
        };
        proof {
            let j = choose|j: int| {
                &&& first_slot(d0.devices.slots(), d0.devices.map()[deviceid.0].0.config.name@, j)
                &&& self.devices.slots() == d0.devices.slots().update(j, (d0.devices.slots()[j].0, d0.devices.slots()[j].1.remove(d0.devices.map()[deviceid.0].0.slot_idx)))
            };
            assert(first_slot(old(self)@.slots, old(self).device_map()[deviceid.0].0.config.name@, j));
        }
        let ghost d1 = *self;
        let mut i: usize = 0;
        while i < plugids.len()
            invariant
                plugids@.len() == 0,
                *self == d1,
            decreases plugids.len() - i,
        {
            let plugid = plugids[i];
            let plug = self.plugs.unregister(plugid);
            self.devices.unregister_plug(plug.deviceid, plugid);
            i = i + 1;
        }
        proof {
            assert forall|j: int| 0 <= j < self.config.devices@.len() implies crate::daemon::has_slots(self.devices.slots(), (#[trigger] self.config.devices@[j]).name@) by {
                assert(crate::daemon::has_slots(d0.devices.slots(), self.config.devices@[j].name@));
                let x = choose|x: int| 0 <= x < d0.devices.slots().len() && (#[trigger] d0.devices.slots()[x]).0@ == self.config.devices@[j].name@;
                assert(self.devices.slots()[x].0 == d0.devices.slots()[x].0);
            }
            assert forall|k: usize, x: int| self.devices.map().contains_key(k) && 0 <= x < self.devices.map()[k].1@.len()
                implies self.plugs.map().contains_key((#[trigger] self.devices.map()[k].1@[x]).0) by {
                assert(d0.devices.map().contains_key(k));
                assert(self.devices.map()[k] == d0.devices.map()[k]);
            }
        }
    }

    /// Answers a command: a ping or a reset is acknowledged, a plug command
    /// plugs, and a new monitor is told the ports it can watch. Reloading
    /// and quitting are the caller's to do.
    pub fn on_command(&mut self, command: Command) -> (r: (Result<Response, String>, Vec<Event>))
        requires
            old(self).wf(),
            !(command is Reload),
            !(command is Quit),
            command matches Command::Plug(args) ==> plug_args_defined(*old(self), args) && plug_codes_ok(*old(self), args),
        ensures
            final(self).wf(),
            match command {
                Command::Plug(args) => match r.0 {
                    Err(e) => plug_error(*old(self), args) == Some(e@) && r.1@.len() == 0 && final(self)@ == old(self)@,
                    Ok(response) => {
                        &&& plug_error(*old(self), args) is None
                        &&& response == Response::Ack
                        &&& final(self).config() == old(self).config()
                        &&& final(self).port_map() == old(self).port_map()
                        &&& final(self).rules() == old(self).rules()
                        &&& plug_done(*old(self), *final(self), args, event_views(r.1@))
                    },
                },
                Command::Monitor => {
                    &&& r.0 matches Ok(Response::MonitorInit(m)) && exists|keys: Seq<usize>| {
                        &&& sorted_keys(keys, old(self).port_map().dom())
                        &&& crate::text::views(m.ports@) == crate::daemon::gamepad_names(old(self).port_map(), keys)
                    }
                    &&& r.1@.len() == 0
                    &&& final(self)@ == old(self)@
                },
                Command::Reset => r.0 == Ok::<Response, String>(Response::Ack) && r.1@.len() == 0 && reset_done(*old(self), *final(self)),
                _ => r.0 == Ok::<Response, String>(Response::Ack) && r.1@.len() == 0 && final(self)@ == old(self)@,
            },
    {
        match command {
            Command::Ping => (Ok(Response::Ack), Vec::new()),
            Command::Plug(args) => self.plug(args),
            Command::Reset => (self.reset(), Vec::new()),
            Command::Monitor => (Ok(self.register_monitor()), Vec::new()),
            Command::Reload => (Ok(Response::Ack), Vec::new()),
            Command::Quit => (Ok(Response::Ack), Vec::new()),
        }
    }

    /// Whether a device is registered under `id`.
    pub fn has_device(&self, id: DeviceId) -> (r: bool)
        requires
            self.wf(),
        ensures
            r == self.device_map().contains_key(id.0),
    {
        self.devices.contains(id)
    }

    /// The device registered under `id`.
    pub fn device(&self, id: DeviceId) -> (r: &Device)
        requires
            self.device_map().contains_key(id.0),
        ensures
            *r == self.device_map()[id.0].0,
    {
        self.devices.index(id)
    }

    /// The plugs of the device registered under `id`.
    pub fn device_plugs(&self, id: DeviceId) -> (r: &Vec<PlugId>)
        requires
            self.device_map().contains_key(id.0),
        ensures
            *r == self.device_map()[id.0].1,
    {
        self.devices.plugs(id)
    }

    /// The position of the first device of `ids` that would read a code out
    /// of range when plugged into `ports` through `adapter`.
    fn first_out_of_range_device(&self, adapter: &Adapter, ids: &Vec<DeviceId>, ports: &[&Port]) -> (r: Option<usize>)
        requires
            forall|k: int| 0 <= k < ids@.len() ==> self.device_map().contains_key((#[trigger] ids@[k]).0),
        ensures
            match r {
                Some(j) => first_out_of_range(adapter, self.device_map(), ids@, ports@, j as int),
                None => forall|j: int| 0 <= j < ids@.len() ==> #[trigger] device_in_range(adapter, self.device_map(), ids@[j], ports@),
            },
    {
        let mut j: usize = 0;
        while j < ids.len()
            invariant
                j <= ids@.len(),
                forall|k: int| 0 <= k < ids@.len() ==> self.device_map().contains_key((#[trigger] ids@[k]).0),
                forall|k: int| 0 <= k < j ==> #[trigger] device_in_range(adapter, self.device_map(), ids@[k], ports@),
            decreases ids@.len() - j,
        {
            let device = self.devices.index(ids[j]);
            if !crate::plug::codes_in_range(adapter, device, ports) {
                return Some(j);
            }
            j = j + 1;
        }
        None
    }

    /// The position of the first device of `ids` that is not registered.
    fn first_unknown_device(&self, ids: &Vec<DeviceId>) -> (r: Option<usize>)
        ensures
            match r {
                Some(j) => first_unknown(self.device_map(), ids@, j as int),
                None => forall|j: int| 0 <= j < ids@.len() ==> self.device_map().contains_key((#[trigger] ids@[j]).0),
            },
    {
        let mut j: usize = 0;
        while j < ids.len()
            invariant
                j <= ids.len(),
                forall|x: int| 0 <= x < j ==> self.device_map().contains_key((#[trigger] ids@[x]).0),
            decreases ids.len() - j,
        {
            if !self.devices.contains(ids[j]) {
                return Some(j);
            }
            j = j + 1;
        }
        None
    }

    /// Takes a key event of the device `deviceid`. A device with plugs has
    /// the event translated by each plug in turn. A device without plugs
    /// has the event taken by the automatic plugging rules; when they plug
    /// devices, these are plugged through the rules' adapter into each port
    /// named `Gamepad:1` in turn, alone, and the monitors are told.
    pub fn on_input_key_change(&mut self, deviceid: DeviceId, event: KeyEvent) -> (r: Result<Reaction, Error>)
        requires
            old(self).wf(),
            old(self).device_map().contains_key(deviceid.0),
            old(self).device_map()[deviceid.0].1@.len() > 0 ==> event.id.0 <= KEY_MAX,
        ensures
            final(self).wf(),
            old(self).device_map()[deviceid.0].1@.len() > 0 ==> {
                &&& final(self)@ == old(self)@
                &&& match r {
                    Ok(reaction) => {
                        &&& key_run(old(self).plug_map(), old(self).device_map()[deviceid.0].1@, event) matches Ok(o)
                        &&& reaction.writes@ == writes_of(o)
                        &&& reaction.events@.len() == 0
                    },
                    Err(e) => e matches Error::Translate(pe)
                        && key_run(old(self).plug_map(), old(self).device_map()[deviceid.0].1@, event)
                            == Err::<Seq<(InputEvent, PortId)>, ErrorView>(pe@),
                }
            },
            old(self).device_map()[deviceid.0].1@.len() == 0 ==> autoplugged(*old(self), *final(self), deviceid, event, r),
    {
        let has_plugs = self.devices.plugs(deviceid).len() > 0;
        if has_plugs {
            match self.translate_key_all(deviceid, &event) {
                Ok(writes) => Ok(Reaction { writes, events: Vec::new() }),
                Err(e) => Err(Error::Translate(e)),
            }
        } else {
            let ghost d0 = *self;
            let found = {
                let device = self.devices.index(deviceid);
                self.autoplug.on_input_key_change(device, &event)
            };
            let ghost d1 = *self;
            let ghost step = autoplug_step(d0.rules(), d0.device_map()[deviceid.0].0.config.name@, deviceid, event);
            proof {
                assert(d1@ == (DaemonView { rules: step.0, ..d0@ }));
            }
            let mut events: Vec<Event> = Vec::new();
            match found {
                None => {
                    Ok(Reaction { writes: Vec::new(), events })
                },
                Some((adapter, indexes)) => {
                    let entries = self.ports.iter();
                    let ghost keys = Seq::new(entries@.len(), |i: int| entries@[i].0);
                    proof {
                        assert(sorted_keys(keys, self.port_map().dom())) by {
                            assert forall|k: usize| keys.to_set().contains(k) <==> self.port_map().dom().contains(k) by {
                                if keys.to_set().contains(k) {
                                    let p = choose|p: int| 0 <= p < keys.len() && keys[p] == k;
                                    assert(self.port_map().contains_key(entries@[p].0));
                                }
                                if self.port_map().dom().contains(k) {
                                    let p = choose|p: int| 0 <= p < entries@.len() && (#[trigger] entries@[p]).0 == k;
                                    assert(keys[p] == k);
                                }
                            }
                            assert(keys.to_set() =~= self.port_map().dom());
                        }
                        reveal_strlit("Gamepad:1");
                    }
                    let first_gamepad = String::from_str("Gamepad:1");
                    let ghost mut gp: Seq<&Port> = Seq::empty();
                    let mut i: usize = 0;
                    assert(keys.take(0) =~= Seq::<usize>::empty());
                    while i < entries.len()
                        invariant
                            i <= entries.len(),
                            self.wf(),
                            first_gamepad@ == "Gamepad:1"@,
                            keys == Seq::new(entries@.len(), |i: int| entries@[i].0),
                            sorted_keys(keys, d1.port_map().dom()),
                            forall|p: int| 0 <= p < entries@.len() ==> *(#[trigger] entries@[p]).1 == d1.port_map()[entries@[p].0],
                            forall|p: int| 0 <= p < entries@.len() ==> d1.port_map().contains_key((#[trigger] entries@[p]).0),
                            gp.len() == keys_named(d1.port_map(), keys.take(i as int), "Gamepad:1"@).len(),
                            forall|n: int| 0 <= n < gp.len() ==> *(#[trigger] gp[n]) == d1.port_map()[keys_named(d1.port_map(), keys.take(i as int), "Gamepad:1"@)[n]],
                            d1.wf(),
                            d0 == *old(self),
                            d0.device_map()[deviceid.0].1@.len() == 0,
                            step == autoplug_step(d0.rules(), d0.device_map()[deviceid.0].0.config.name@, deviceid, event),
                            step.1 == Some((adapter@, indexes@)),
                            d1@ == (DaemonView { rules: step.0, ..d0@ }),
                            gp.len() == 0 ==> self@ == d1@,
                            d1.device_map() == d0.device_map(),
                            d1.plug_map() == d0.plug_map(),
                            self@ == (DaemonView { devices: self@.devices, plugs: self@.plugs, next_plug: self@.next_plug, ..d1@ }),
                            plugged_each(d1.plug_map(), d1.device_map(), self.plug_map(), self.device_map(), &adapter, indexes@, gp),
                            self.device_map().dom() == d1.device_map().dom(),
                            forall|k: usize| #[trigger] d1.device_map().contains_key(k) ==> self.device_map()[k].0 == d1.device_map()[k].0,
                            event_views(events@) == plugged_each_events(&adapter, d1.device_map(), indexes@, gp),
                            gp.len() > 0 ==> forall|j: int| 0 <= j < indexes@.len() ==> d1.device_map().contains_key((#[trigger] indexes@[j]).0),
                            all_in_range(&adapter, d0.device_map(), indexes@, gp),
                        decreases entries.len() - i,
                    {
                        let ghost prefix = keys.take(i as int);
                        assert(keys.take(i + 1).drop_last() =~= prefix);
                        assert(keys.take(i + 1).last() == keys[i as int]);
                        let port = entries[i].1;
                        if port.name == first_gamepad {
                            match self.first_unknown_device(&indexes) {
                                Some(j) => {
                                    proof {
                                        if gp.len() > 0 {
                                            assert(d1.device_map().contains_key(indexes@[j as int].0));
                                            assert(self.device_map().dom().contains(indexes@[j as int].0));
                                        }
                                        assert(gp.len() == 0);
                                        assert(self@ == d1@);
                                        assert(first_unknown(d0.device_map(), indexes@, j as int));
                                        lemma_first_unknown_unique(d0.device_map(), indexes@, j as int);
                                        assert(d1.port_map().contains_key(entries@[i as int].0));
                                        assert(d0.port_map()[entries@[i as int].0].name@ == "Gamepad:1"@);
                                        assert(has_first_gamepad(d0.port_map()));
                                        assert(d0 == *old(self));
                                        assert(step.1 == Some((adapter@, indexes@)));
                                        assert(step.1->Some_0.1 == indexes@);
                                        assert(first_unknown(d0.device_map(), step.1->Some_0.1, j as int));
                                        assert(has_first_gamepad(d0.port_map()) && exists|x: int| first_unknown(d0.device_map(), step.1->Some_0.1, x));
                                        assert(self@ == (DaemonView { rules: step.0, ..d0@ }));
                                        assert(self.rules() == step.0);
                                        assert(autoplugged(d0, *self, deviceid, event, Err::<Reaction, Error>(Error::UnknownDevice(indexes@[j as int]))));
                                    }
                                    return Err(Error::UnknownDevice(indexes[j]));
                                },
                                None => {},
                            }
                            let mut ports: Vec<&Port> = Vec::new();
                            ports.push(port);
                            proof {
                                assert(ports@ =~= seq![port]);
                                assert forall|k: int| 0 <= k < indexes@.len() implies
                                    #[trigger] device_in_range(&adapter, self.device_map(), indexes@[k], ports@) == device_in_range(&adapter, d0.device_map(), indexes@[k], ports@) by {
                                    assert(d1.device_map().contains_key(indexes@[k].0));
                                }
                            }
                            match self.first_out_of_range_device(&adapter, &indexes, ports.as_slice()) {
                                Some(j) => {
                                    proof {
                                        let full = gp.push(port);
                                        assert(full.drop_last() =~= gp);
                                        assert(full.last() == port);
                                        lemma_keys_named_prefix(d1.port_map(), keys, i + 1);
                                        assert(keys_named(d1.port_map(), keys.take(i + 1), "Gamepad:1"@)
                                            == keys_named(d1.port_map(), prefix, "Gamepad:1"@).push(keys[i as int]));
                                        assert(*port == d1.port_map()[keys[i as int]]);
                                        assert forall|n: int| 0 <= n < full.len() implies *(#[trigger] full[n]) == d0.port_map()[keys_named(d0.port_map(), keys, "Gamepad:1"@)[n]] by {
                                            let kn1 = keys_named(d1.port_map(), keys.take(i + 1), "Gamepad:1"@);
                                            assert(kn1[n] == keys_named(d1.port_map(), keys, "Gamepad:1"@)[n]);
                                            if n < gp.len() {
                                                assert(full[n] == gp[n]);
                                                assert(kn1[n] == keys_named(d1.port_map(), prefix, "Gamepad:1"@)[n]);
                                            } else {
                                                assert(kn1[n] == keys[i as int]);
                                            }
                                        }
                                        assert(is_gamepads_prefix(d0.port_map(), full));
                                        assert forall|x: int| 0 <= x < j implies device_in_range(&adapter, d0.device_map(), #[trigger] indexes@[x], seq![full.last()]) by {
                                            assert(device_in_range(&adapter, self.device_map(), indexes@[x], ports@));
                                        }
                                        assert(first_out_of_range(&adapter, d0.device_map(), indexes@, seq![full.last()], j as int));
                                        assert(plugged_each(d0.plug_map(), d0.device_map(), self.plug_map(), self.device_map(), &adapter, indexes@, full.drop_last()));
                                        assert(codes_refused(d0, *self, adapter@, indexes@, indexes@[j as int]));
                                        assert(has_first_gamepad(d0.port_map())) by {
                                            assert(d0.port_map().contains_key(entries@[i as int].0));
                                        }
                                        assert(!exists|x: int| first_unknown(d0.device_map(), indexes@, x));
                                        assert(self.rules() == step.0);
                                        assert(d0 == *old(self));
                                        assert(autoplugged(d0, *self, deviceid, event, Err::<Reaction, Error>(Error::CodeOutOfRange(indexes@[j as int]))));
                                    }
                                    return Err(Error::CodeOutOfRange(indexes[j]));
                                },
                                None => {},
                            }
                            let ghost plugs_before = self.plug_map();
                            let ghost devices_before = self.device_map();
                            let ghost self_before = *self;
                            let ghost events_before = events@;
                            proof {
                                assert forall|k: int| 0 <= k < indexes@.len() implies plug_in_range(&adapter, &self.devices.map()[(#[trigger] indexes@[k]).0].0, ports@) by {
                                    assert(device_in_range(&adapter, self.device_map(), indexes@[k], ports@));
                                }
                            }
                            let mut made = plug_devices(&mut self.plugs, &mut self.devices, &adapter, &indexes, ports.as_slice());
                            let ghost made_events = made@;
                            events.append(&mut made);
                            proof {
                                let pkeys = choose|pkeys: Seq<usize>| plugged(plugs_before, devices_before, self.plug_map(), self.device_map(), &adapter, indexes@, ports@, pkeys);
                                assert(ports@ =~= seq![port]);
                                assert(d1.port_map().contains_key(port.id.0)) by {
                                    assert(d1.port_map().contains_key(entries@[i as int].0));
                                    assert(port.id.0 == entries@[i as int].0);
                                }
                                crate::daemon::lemma_plugged_wf(self_before, *self, &adapter, indexes@, ports@, pkeys);
                                let old_gp = gp;
                                gp = gp.push(port);
                                assert(gp.drop_last() =~= old_gp);
                                assert(gp.last() == port);
                                assert(plugged_each(d1.plug_map(), d1.device_map(), self.plug_map(), self.device_map(), &adapter, indexes@, gp));
                                lemma_plugged_events_same(&adapter, devices_before, d1.device_map(), indexes@, ports@);
                                assert(event_views(events@) =~= event_views(events_before) + event_views(made_events));
                                assert(keys_named(d1.port_map(), keys.take(i + 1), "Gamepad:1"@)
                                    == keys_named(d1.port_map(), prefix, "Gamepad:1"@).push(keys[i as int]));
                                assert forall|m: int, x: int| 0 <= m < gp.len() && 0 <= x < indexes@.len() implies
                                    #[trigger] device_in_range(&adapter, d0.device_map(), indexes@[x], seq![gp[m]]) by {
                                    if m == gp.len() - 1 {
                                        assert(gp[m] == port);
                                        assert(device_in_range(&adapter, self_before.device_map(), indexes@[x], ports@));
                                        assert(d1.device_map().contains_key(indexes@[x].0));
                                    } else {
                                        assert(gp[m] == old_gp[m]);
                                    }
                                }
                            }
                        } else {
                            assert(keys_named(d1.port_map(), keys.take(i + 1), "Gamepad:1"@) == keys_named(d1.port_map(), prefix, "Gamepad:1"@));
                        }
                        i = i + 1;
                    }
                    proof {
                        assert(keys.take(keys.len() as int) =~= keys);
                        assert(is_first_gamepads(d1.port_map(), gp));
                        lemma_keys_named_nonempty(d1.port_map(), keys, "Gamepad:1"@);
                        if has_first_gamepad(d0.port_map()) {
                            let k = choose|k: usize| d0.port_map().contains_key(k) && (#[trigger] d0.port_map()[k]).name@ == "Gamepad:1"@;
                            assert(keys.to_set().contains(k));
                            let p = choose|p: int| 0 <= p < keys.len() && keys[p] == k;
                            assert(d1.port_map()[keys[p]].name@ == "Gamepad:1"@);
                            assert(gp.len() > 0);
                            assert(!exists|x: int| first_unknown(d0.device_map(), indexes@, x));
                        }
                        assert(d1.port_map() == d0.port_map());
                        assert(is_first_gamepads(d0.port_map(), gp));
                        assert(all_in_range(&adapter, d0.device_map(), indexes@, gp));
                        assert(plugged_each(d0.plug_map(), d0.device_map(), self.plug_map(), self.device_map(), &adapter, indexes@, gp));
                        assert(event_views(events@) == plugged_each_events(&adapter, d0.device_map(), indexes@, gp));
                        assert(self@ == (DaemonView { devices: self@.devices, plugs: self@.plugs, next_plug: self@.next_plug, rules: step.0, ..d0@ }));
                        assert(step.1 == Some((adapter@, indexes@)));
                    }
                    let writes: Vec<(PortId, RawEvent)> = Vec::new();
                    proof {
                        assert(!(has_first_gamepad(d0.port_map()) && exists|x: int| first_unknown(d0.device_map(), indexes@, x)));
                        assert(plugged_each(d0.plug_map(), d0.device_map(), self.plug_map(), self.device_map(), &adapter, indexes@, gp));
                        assert(gamepads_plugged(d0, *self, adapter@, indexes@, event_views(events@)));
                        let rr = Ok::<Reaction, Error>(Reaction { writes, events });
                        assert(autoplugged(d0, *self, deviceid, event, rr));
                    }
                    Ok(Reaction { writes, events })
                },
            }
        }
    }

    /// The records for a relative axis event of the device `deviceid`,
    /// through each of its plugs.
    pub fn on_input_motion(&mut self, deviceid: DeviceId, event: MotionEvent) -> (r: Vec<(PortId, RawEvent)>)
        requires
            old(self).wf(),
            old(self).device_map().contains_key(deviceid.0),
            old(self).device_map()[deviceid.0].1@.len() > 0 ==> event.id.0 <= REL_MAX,
        ensures
            final(self)@ == old(self)@,
            r@ == writes_of(motion_run(old(self).plug_map(), old(self).device_map()[deviceid.0].1@, event)),
    {
        let plugids = self.devices.plugs(deviceid);
        let mut writes: Vec<(PortId, RawEvent)> = Vec::new();
        let mut i: usize = 0;
        assert(plugids@.take(0) =~= Seq::<PlugId>::empty());
        while i < plugids.len()
            invariant
                i <= plugids.len(),
                self.wf(),
                self@ == old(self)@,
                *plugids == self.device_map()[deviceid.0].1,
                self.device_map().contains_key(deviceid.0),
                plugids@.len() > 0 ==> event.id.0 <= REL_MAX,
                writes@ == writes_of(motion_run(self.plug_map(), plugids@.take(i as int), event)),
            decreases plugids.len() - i,
        {
            assert(plugids@.take(i + 1).drop_last() =~= plugids@.take(i as int));
            let plugid = plugids[i];
            assert(self.plug_map().contains_key(plugid.0));
            let ghost plugs_before = self.plug_map();
            let plug = self.plugs.index_mut(plugid);
            let outputs = plug.translate_motion(&event);
            proof {
                assert(self.plug_map() =~= plugs_before);
                assert(self@ == old(self)@);
            }
            match outputs {
                Ok(outputs) => {
                    proof {
                        let row = self.plug_map()[plugid.0].tables().motions[event.id.0 as int];
                        assert forall|j: int| 0 <= j < row.len() implies port_ids(self.port_map()).contains((#[trigger] row[j]).1) by {
                            assert(self.plug_map()[plugid.0].tables().motions[event.id.0 as int][j] == row[j]);
                        }
                        lemma_motion_outputs_ports(row, event, port_ids(self.port_map()));
                    }
                    let ghost prev = writes@;
                    self.emit_all(&outputs, &mut writes);
                    proof {
                        let o = motion_run(self.plug_map(), plugids@.take(i as int), event);
                        assert(writes_of(o + outputs@) =~= writes_of(o) + writes_of(outputs@));
                    }
                },
                Err(_) => {},
            }
            i = i + 1;
        }
        assert(plugids@.take(plugids@.len() as int) =~= plugids@);
        writes
    }

    /// The records for a synchronisation event of the device `deviceid`:
    /// the event, for each port of each of its plugs.
    pub fn on_input_sync(&mut self, deviceid: DeviceId, event: SyncEvent) -> (r: Vec<(PortId, RawEvent)>)
        requires
            old(self).wf(),
            old(self).device_map().contains_key(deviceid.0),
        ensures
            final(self)@ == old(self)@,
            r@ == sync_writes(old(self).plug_map(), old(self).device_map()[deviceid.0].1@, event),
    {
        let plugids = self.devices.plugs(deviceid);
        let mut writes: Vec<(PortId, RawEvent)> = Vec::new();
        let mut i: usize = 0;
        assert(plugids@.take(0) =~= Seq::<PlugId>::empty());
        while i < plugids.len()
            invariant
                i <= plugids.len(),
                self.wf(),
                *plugids == self.device_map()[deviceid.0].1,
                self.device_map().contains_key(deviceid.0),
                writes@ == sync_writes(self.plug_map(), plugids@.take(i as int), event),
            decreases plugids.len() - i,
        {
            assert(plugids@.take(i + 1).drop_last() =~= plugids@.take(i as int));
            let plugid = plugids[i];
            assert(self.plug_map().contains_key(plugid.0));
            let plug = self.plugs.index(plugid);
            let portids = plug.sync_ports(event);
            let ghost before = writes@;
            let mut j: usize = 0;
            while j < portids.len()
                invariant
                    j <= portids.len(),
                    self.wf(),
                    portids@ == self.plug_map()[plugid.0].portids@,
                    self.plug_map().contains_key(plugid.0),
                    writes@ == before + portids@.take(j as int).map_values(|p: PortId| (p, encode(InputEvent::Sync(event)))),
                decreases portids.len() - j,
            {
                let portid = portids[j];
                assert(self.port_map().contains_key(portid.0));
                let port = self.ports.index(portid);
                let raw = port.emit_event(&InputEvent::Sync(event));
                writes.push((portid, raw));
                assert(portids@.take(j + 1).map_values(|p: PortId| (p, encode(InputEvent::Sync(event))))
                    =~= portids@.take(j as int).map_values(|p: PortId| (p, encode(InputEvent::Sync(event)))).push((portid, raw)));
                j = j + 1;
            }
            assert(portids@.take(portids@.len() as int) =~= portids@);
            i = i + 1;
        }
        assert(plugids@.take(plugids@.len() as int) =~= plugids@);
        writes
    }
}

/// Once the plugs of a prefix fail, the whole translation fails with the
/// same error.
proof fn lemma_key_run_err(plugs: Map<usize, Plug>, plugids: Seq<PlugId>, event: KeyEvent, j: int)
    requires
        0 <= j <= plugids.len(),
        key_run(plugs, plugids.take(j), event) is Err,
    ensures
        key_run(plugs, plugids, event) == key_run(plugs, plugids.take(j), event),
    decreases plugids.len() - j,
{
    if j < plugids.len() {
        assert(plugids.take(j + 1).drop_last() =~= plugids.take(j));
        lemma_key_run_err(plugs, plugids, event, j + 1);
    } else {
        assert(plugids.take(j) =~= plugids);
    }
}

/// The events told depend on the devices alone, not on their plugs.
proof fn lemma_plugged_events_same(adapter: &Adapter, d1: Map<usize, (Device, Vec<PlugId>)>, d2: Map<usize, (Device, Vec<PlugId>)>, ids: Seq<DeviceId>, ports: Seq<&Port>)
    requires
        forall|i: int| 0 <= i < ids.len() ==> d1[(#[trigger] ids[i]).0].0 == d2[ids[i].0].0,
    ensures
        plugged_events(adapter, d1, ids, ports) == plugged_events(adapter, d2, ids, ports),
    decreases ids.len(),
{
    if ids.len() > 0 {
        let prefix = ids.drop_last();
        assert forall|i: int| 0 <= i < prefix.len() implies d1[(#[trigger] prefix[i]).0].0 == d2[prefix[i].0].0 by {
            assert(prefix[i] == ids[i]);
        }
        lemma_plugged_events_same(adapter, d1, d2, prefix, ports);
        assert(d1[ids[ids.len() - 1].0].0 == d2[ids[ids.len() - 1].0].0);
    }
}

/// Some key of `keys` has a port named `name` exactly when some are kept.
proof fn lemma_keys_named_nonempty(pm: Map<usize, Port>, keys: Seq<usize>, name: Seq<char>)
    ensures
        (keys_named(pm, keys, name).len() > 0) == (exists|j: int| 0 <= j < keys.len() && (#[trigger] pm[keys[j]]).name@ == name),
    decreases keys.len(),
{
    if keys.len() > 0 {
        let prefix = keys.drop_last();
        lemma_keys_named_nonempty(pm, prefix, name);
        if exists|j: int| 0 <= j < prefix.len() && (#[trigger] pm[prefix[j]]).name@ == name {
            let j = choose|j: int| 0 <= j < prefix.len() && (#[trigger] pm[prefix[j]]).name@ == name;
            assert(prefix[j] == keys[j]);
        }
        if exists|j: int| 0 <= j < keys.len() && (#[trigger] pm[keys[j]]).name@ == name {
            let j = choose|j: int| 0 <= j < keys.len() && (#[trigger] pm[keys[j]]).name@ == name;
            if j < prefix.len() {
                assert(prefix[j] == keys[j]);
            }
        }
    }
}

/// The first unknown device is the one that `autoplugged` names.
proof fn lemma_first_unknown_unique(devices: Map<usize, (Device, Vec<PlugId>)>, ids: Seq<DeviceId>, i: int)
    requires
        first_unknown(devices, ids, i),
    ensures
        first_unknown_of(devices, ids) == i,
{
    let j = first_unknown_of(devices, ids);
    if j < i {
        assert(devices.contains_key(ids[j].0));
    } else if i < j {
        assert(devices.contains_key(ids[i].0));
    }
}

/// Whether a device configuration recognises a device depends on the
/// device's codes and the characters of its driver.
proof fn lemma_find_same(d: crate::config::device::DeviceView, s1: crate::config::device::DeviceSpec, s2: crate::config::device::DeviceSpec)
    requires
        s1.driver@ == s2.driver@,
        s1.vendor == s2.vendor,
        s1.product == s2.product,
    ensures
        d.find(s1) == d.find(s2),
{
    assert forall|i: int| 0 <= i < d.matches_.len() implies (#[trigger] d.matches_[i]).check(s1) == d.matches_[i].check(s2) by {}
    if d.find(s1) {
        let i = choose|i: int| 0 <= i < d.matches_.len() && #[trigger] d.matches_[i].check(s1);
        assert(d.matches_[i].check(s2));
    }
    if d.find(s2) {
        let i = choose|i: int| 0 <= i < d.matches_.len() && #[trigger] d.matches_[i].check(s2);
        assert(d.matches_[i].check(s1));
    }
}

/// The ports named `name` among the first `i` keys are the first of those
/// among all the keys.
proof fn lemma_keys_named_prefix(pm: Map<usize, Port>, keys: Seq<usize>, i: int)
    requires
        0 <= i <= keys.len(),
    ensures
        keys_named(pm, keys.take(i), "Gamepad:1"@).len() <= keys_named(pm, keys, "Gamepad:1"@).len(),
        forall|n: int| 0 <= n < keys_named(pm, keys.take(i), "Gamepad:1"@).len() ==>
            #[trigger] keys_named(pm, keys.take(i), "Gamepad:1"@)[n] == keys_named(pm, keys, "Gamepad:1"@)[n],
    decreases keys.len() - i,
{
    if i < keys.len() {
        lemma_keys_named_prefix(pm, keys, i + 1);
        assert(keys.take(i + 1).drop_last() =~= keys.take(i));
        let a = keys_named(pm, keys.take(i), "Gamepad:1"@);
        let b = keys_named(pm, keys.take(i + 1), "Gamepad:1"@);
        assert forall|n: int| 0 <= n < a.len() implies #[trigger] a[n] == b[n] by {}
    } else {
        assert(keys.take(i) =~= keys);
    }
}

} // verus!
