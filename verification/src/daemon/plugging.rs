//! Plugging devices into ports: what the registries become, and the events
//! told to the monitors.

use vstd::prelude::*;
use crate::config::adapter::Adapter;
use crate::daemon::devices::Devices;
use crate::daemon::plugs::Plugs;
use crate::device::{Device, DeviceId};
use crate::plug::{Plug, PlugId, plug_in_range, spec_tables};
use crate::port::Port;
use crate::protocol::{Event, EventView, event_views, PluggedEvent};
use crate::text::views;

verus! {

/// The names of `ports`, in order.
pub open spec fn port_names(ports: Seq<&Port>) -> Seq<Seq<char>> {
    ports.map_values(|p: &Port| p.name@)
}

/// Plugging the device `id` of `devices` into `ports` through `adapter`
/// succeeds.
pub open spec fn plug_succeeds(adapter: &Adapter, devices: Map<usize, (Device, Vec<PlugId>)>, id: DeviceId, ports: Seq<&Port>) -> bool {
    spec_tables(adapter, &devices[id.0].0, ports) is Ok
}

/// The event told when the device `id` of `devices` is plugged.
pub open spec fn plugged_event(adapter: &Adapter, devices: Map<usize, (Device, Vec<PlugId>)>, id: DeviceId, ports: Seq<&Port>) -> EventView {
    EventView::Plugged { device: devices[id.0].0.name@, ports: port_names(ports), adapter: adapter.name@ }
}

/// The events told when plugging the devices `ids` in turn: one per device
/// whose plugging succeeds.
pub open spec fn plugged_events(adapter: &Adapter, devices: Map<usize, (Device, Vec<PlugId>)>, ids: Seq<DeviceId>, ports: Seq<&Port>) -> Seq<EventView>
    decreases ids.len(),
{
    if ids.len() == 0 {
        Seq::empty()
    } else {
        let prev = plugged_events(adapter, devices, ids.drop_last(), ports);
        if plug_succeeds(adapter, devices, ids.last(), ports) {
            prev.push(plugged_event(adapter, devices, ids.last(), ports))
        } else {
            prev
        }
    }
}

/// The plugs made for the device of key `k` when plugging the devices
/// `ids` in turn, the plug of `ids[j]` taking the key `keys[j]`.
pub open spec fn new_plugs(adapter: &Adapter, devices: Map<usize, (Device, Vec<PlugId>)>, ids: Seq<DeviceId>, ports: Seq<&Port>, keys: Seq<usize>, k: usize) -> Seq<PlugId>
    decreases ids.len(),
{
    if ids.len() == 0 {
        Seq::empty()
    } else {
        let prev = new_plugs(adapter, devices, ids.drop_last(), ports, keys, k);
        if plug_succeeds(adapter, devices, ids.last(), ports) && ids.last().0 == k {
            prev.push(PlugId(keys[ids.len() - 1]))
        } else {
            prev
        }
    }
}

/// `p` is the plug of `device` into `ports` through `adapter`, under `key`.
pub open spec fn is_plug_of(p: Plug, key: usize, adapter: &Adapter, device: &Device, ports: Seq<&Port>) -> bool {
    &&& p.id == PlugId(key)
    &&& p.name@ == adapter.name@
    &&& p.deviceid == device.id
    &&& p.portids@ == ports.map_values(|q: &Port| q.id)
    &&& spec_tables(adapter, device, ports) == Ok::<_, crate::plug::ErrorView>(p.tables())
}

/// The registries went from `plugs0`, `devices0` to `plugs1`, `devices1` by
/// plugging the devices `ids` in turn into `ports` through `adapter`, each
/// plug made taking a fresh key: the plug of `ids[j]`, if made, has key
/// `keys[j]` and is added to the plugs of its device.
pub open spec fn plugged(
    plugs0: Map<usize, Plug>,
    devices0: Map<usize, (Device, Vec<PlugId>)>,
    plugs1: Map<usize, Plug>,
    devices1: Map<usize, (Device, Vec<PlugId>)>,
    adapter: &Adapter,
    ids: Seq<DeviceId>,
    ports: Seq<&Port>,
    keys: Seq<usize>,
) -> bool {
    &&& keys.len() == ids.len()
    &&& forall|j: int| 0 <= j < ids.len() && plug_succeeds(adapter, devices0, ids[j], ports) ==> {
        &&& !plugs0.contains_key(#[trigger] keys[j])
        &&& plugs1.contains_key(keys[j])
        &&& is_plug_of(plugs1[keys[j]], keys[j], adapter, &devices0[ids[j].0].0, ports)
    }
    &&& forall|i: int, j: int| 0 <= i < j < ids.len() && plug_succeeds(adapter, devices0, ids[i], ports)
        && plug_succeeds(adapter, devices0, ids[j], ports) ==> keys[i] != keys[j]
    &&& forall|k: usize| #[trigger] plugs1.contains_key(k) ==> plugs0.contains_key(k)
        || exists|j: int| 0 <= j < ids.len() && plug_succeeds(adapter, devices0, ids[j], ports) && keys[j] == k
    &&& forall|k: usize| #[trigger] plugs0.contains_key(k) ==> plugs1.contains_key(k) && plugs1[k] == plugs0[k]
    &&& devices1.dom() == devices0.dom()
    &&& forall|k: usize| devices0.contains_key(k) ==> {
        &&& (#[trigger] devices1[k]).0 == devices0[k].0
        &&& devices1[k].1@ == devices0[k].1@ + new_plugs(adapter, devices0, ids, ports, keys, k)
    }
}

/// Plugs each device of `deviceids` in turn into `ports` through `adapter`;
/// a device whose plugging fails is left as it is. Gives the events to tell
/// the monitors, one per plug made.
pub fn plug_devices(plugs: &mut Plugs, devices: &mut Devices, adapter: &Adapter, deviceids: &Vec<DeviceId>, ports: &[&Port]) -> (r: Vec<Event>)
    requires
        old(plugs).wf(),
        old(devices).wf(),
        forall|i: int| 0 <= i < deviceids@.len() ==> old(devices).map().contains_key((#[trigger] deviceids@[i]).0),
        forall|i: int| 0 <= i < deviceids@.len() ==> plug_in_range(adapter, &old(devices).map()[(#[trigger] deviceids@[i]).0].0, ports@),
    ensures
        final(plugs).wf(),
        final(devices).wf(),
        final(devices).slots() == old(devices).slots(),
        final(devices).next_slots() == old(devices).next_slots(),
        final(devices).next() == old(devices).next(),
        event_views(r@) == plugged_events(adapter, old(devices).map(), deviceids@, ports@),
        exists|keys: Seq<usize>| plugged(old(plugs).map(), old(devices).map(), final(plugs).map(), final(devices).map(), adapter, deviceids@, ports@, keys),
{
    let ghost plugs0 = plugs.map();
    let ghost devices0 = devices.map();
    let ghost ids = deviceids@;
    let ghost mut keys: Seq<usize> = Seq::empty();
    let mut events: Vec<Event> = Vec::new();
    let mut i: usize = 0;
    assert(ids.take(0) =~= Seq::<DeviceId>::empty());
    assert(event_views(events@) =~= Seq::<EventView>::empty());
    while i < deviceids.len()
        invariant
            i <= deviceids.len(),
            ids == deviceids@,
            plugs.wf(),
            devices.wf(),
            devices.slots() == old(devices).slots(),
            devices.next_slots() == old(devices).next_slots(),
            devices.next() == old(devices).next(),
            plugs0 == old(plugs).map(),
            devices0 == old(devices).map(),
            forall|j: int| 0 <= j < ids.len() ==> devices0.contains_key((#[trigger] ids[j]).0),
            forall|j: int| 0 <= j < ids.len() ==> plug_in_range(adapter, &devices0[(#[trigger] ids[j]).0].0, ports@),
            event_views(events@) == plugged_events(adapter, devices0, ids.take(i as int), ports@),
            plugged(plugs0, devices0, plugs.map(), devices.map(), adapter, ids.take(i as int), ports@, keys),
        decreases deviceids.len() - i,
    {
        let ghost prefix = ids.take(i as int);
        let ghost next = ids.take(i + 1);
        assert(next.drop_last() =~= prefix);
        assert(next.last() == ids[i as int]);
        let ghost plugs_before = plugs.map();
        let ghost devices_before = devices.map();
        let ghost events_before = events@;
        let deviceid = deviceids[i];
        assert(devices0.contains_key(deviceid.0));
        assert(devices.map()[deviceid.0].0 == devices0[deviceid.0].0);
        let device = devices.index(deviceid);
        proof {
            assert(plug_in_range(adapter, &devices0[ids[i as int].0].0, ports@));
        }
        let device_name = device.name.clone();
        let result = plugs.register(adapter, device, ports);
        match result {
            Ok(plug) => {
                let key = plug.id.0;
                let adapter_name = plug.name.clone();
                let mut names: Vec<String> = Vec::new();
                let mut n: usize = 0;
                while n < ports.len()
                    invariant
                        n <= ports.len(),
                        names@.len() == n,
                        forall|m: int| 0 <= m < n ==> (#[trigger] names@[m])@ == ports@[m].name@,
                    decreases ports.len() - n,
                {
                    names.push(ports[n].name.clone());
                    n = n + 1;
                }
                assert(views(names@) =~= port_names(ports@));
                devices.register_plug(deviceid, plug.id);
                let event = Event::Plugged(PluggedEvent { device: device_name, ports: names, adapter: adapter_name });
                events.push(event);
                proof {
                    assert(event_views(events@) =~= event_views(events_before).push(event@));
                    assert(event@ == plugged_event(adapter, devices0, ids[i as int], ports@));
                    let old_keys = keys;
                    keys = keys.push(key);
                    lemma_new_plugs_step(adapter, devices0, ids, ports@, old_keys, keys, i as int);
                    assert(!plugs_before.contains_key(key));
                    assert forall|j: int| 0 <= j < next.len() && plug_succeeds(adapter, devices0, next[j], ports@) implies {
                        &&& !plugs0.contains_key(#[trigger] keys[j])
                        &&& plugs.map().contains_key(keys[j])
                        &&& is_plug_of(plugs.map()[keys[j]], keys[j], adapter, &devices0[next[j].0].0, ports@)
                    } by {
                        if j < i {
                            assert(prefix[j] == next[j]);
                            assert(old_keys[j] == keys[j]);
                            assert(plugs_before.contains_key(keys[j]));
                        } else {
                            if plugs0.contains_key(key) {
                                assert(plugs_before.contains_key(key));
                            }
                        }
                    }
                    assert forall|a: int, b: int| 0 <= a < b < next.len() && plug_succeeds(adapter, devices0, next[a], ports@)
                        && plug_succeeds(adapter, devices0, next[b], ports@) implies keys[a] != keys[b] by {
                        assert(prefix[a] == next[a]);
                        if b < i {
                            assert(prefix[b] == next[b]);
                        } else {
                            assert(plugs_before.contains_key(old_keys[a]));
                        }
                    }
                    assert forall|k: usize| #[trigger] plugs.map().contains_key(k) implies plugs0.contains_key(k)
                        || exists|j: int| 0 <= j < next.len() && plug_succeeds(adapter, devices0, next[j], ports@) && keys[j] == k by {
                        if k != key {
                            assert(plugs_before.contains_key(k));
                            if !plugs0.contains_key(k) {
                                let j = choose|j: int| 0 <= j < prefix.len() && plug_succeeds(adapter, devices0, prefix[j], ports@) && old_keys[j] == k;
                                assert(next[j] == prefix[j]);
                                assert(keys[j] == old_keys[j]);
                            }
                        } else {
                            assert(keys[i as int] == k);
                            assert(next[i as int] == ids[i as int]);
                            assert(plug_succeeds(adapter, devices0, next[i as int], ports@));
                        }
                    }
                    assert forall|k: usize| #[trigger] plugs0.contains_key(k) implies plugs.map().contains_key(k) && plugs.map()[k] == plugs0[k] by {
                        assert(plugs_before.contains_key(k));
                    }
                    assert(devices.map().dom() =~= devices0.dom());
                    assert forall|k: usize| devices0.contains_key(k) implies {
                        &&& (#[trigger] devices.map()[k]).0 == devices0[k].0
                        &&& devices.map()[k].1@ == devices0[k].1@ + new_plugs(adapter, devices0, next, ports@, keys, k)
                    } by {
                        if k == deviceid.0 {
                            assert(devices0[k].1@ + new_plugs(adapter, devices0, prefix, ports@, old_keys, k).push(PlugId(key))
                                =~= (devices0[k].1@ + new_plugs(adapter, devices0, prefix, ports@, old_keys, k)).push(PlugId(key)));
                        }
                    }
                }
            },
            Err(_) => {
                proof {
                    assert(!plug_succeeds(adapter, devices0, ids[i as int], ports@));
                    let old_keys = keys;
                    keys = keys.push(0usize);
                    lemma_new_plugs_step(adapter, devices0, ids, ports@, old_keys, keys, i as int);
                    assert forall|j: int| 0 <= j < next.len() && plug_succeeds(adapter, devices0, next[j], ports@) implies {
                        &&& !plugs0.contains_key(#[trigger] keys[j])
                        &&& plugs.map().contains_key(keys[j])
                        &&& is_plug_of(plugs.map()[keys[j]], keys[j], adapter, &devices0[next[j].0].0, ports@)
                    } by {
                        assert(prefix[j] == next[j]);
                        assert(old_keys[j] == keys[j]);
                    }
                    assert forall|a: int, b: int| 0 <= a < b < next.len() && plug_succeeds(adapter, devices0, next[a], ports@)
                        && plug_succeeds(adapter, devices0, next[b], ports@) implies keys[a] != keys[b] by {
                        assert(prefix[a] == next[a]);
                        assert(prefix[b] == next[b]);
                    }
                    assert forall|k: usize| #[trigger] plugs.map().contains_key(k) implies plugs0.contains_key(k)
                        || exists|j: int| 0 <= j < next.len() && plug_succeeds(adapter, devices0, next[j], ports@) && keys[j] == k by {
                        if !plugs0.contains_key(k) {
                            let j = choose|j: int| 0 <= j < prefix.len() && plug_succeeds(adapter, devices0, prefix[j], ports@) && old_keys[j] == k;
                            assert(next[j] == prefix[j]);
                            assert(keys[j] == old_keys[j]);
                        }
                    }
                }
            },
        }
        i = i + 1;
    }
    assert(ids.take(ids.len() as int) =~= ids);
    events
}

/// One more device plugged: the plugs of each device and the events grow
/// by at most the new plug.
proof fn lemma_new_plugs_step(adapter: &Adapter, devices: Map<usize, (Device, Vec<PlugId>)>, ids: Seq<DeviceId>, ports: Seq<&Port>, keys: Seq<usize>, next_keys: Seq<usize>, i: int)
    requires
        0 <= i < ids.len(),
        keys.len() == i,
        next_keys.len() == i + 1,
        forall|j: int| 0 <= j < i ==> next_keys[j] == keys[j],
    ensures
        forall|k: usize| #[trigger] new_plugs(adapter, devices, ids.take(i + 1), ports, next_keys, k) == if plug_succeeds(adapter, devices, ids[i], ports) && ids[i].0 == k {
            new_plugs(adapter, devices, ids.take(i), ports, keys, k).push(PlugId(next_keys[i]))
        } else {
            new_plugs(adapter, devices, ids.take(i), ports, keys, k)
        },
{
    assert(ids.take(i + 1).drop_last() =~= ids.take(i));
    assert(ids.take(i + 1).last() == ids[i]);
    assert forall|k: usize| #[trigger] new_plugs(adapter, devices, ids.take(i + 1), ports, next_keys, k) == if plug_succeeds(adapter, devices, ids[i], ports) && ids[i].0 == k {
        new_plugs(adapter, devices, ids.take(i), ports, keys, k).push(PlugId(next_keys[i]))
    } else {
        new_plugs(adapter, devices, ids.take(i), ports, keys, k)
    } by {
        lemma_new_plugs_keys(adapter, devices, ids.take(i), ports, keys, next_keys, k);
    }
}

/// The plugs made for a device depend only on the keys of the devices
/// plugged.
proof fn lemma_new_plugs_keys(adapter: &Adapter, devices: Map<usize, (Device, Vec<PlugId>)>, ids: Seq<DeviceId>, ports: Seq<&Port>, keys1: Seq<usize>, keys2: Seq<usize>, k: usize)
    requires
        keys1.len() >= ids.len(),
        keys2.len() >= ids.len(),
        forall|j: int| 0 <= j < ids.len() ==> keys1[j] == keys2[j],
    ensures
        new_plugs(adapter, devices, ids, ports, keys1, k) == new_plugs(adapter, devices, ids, ports, keys2, k),
    decreases ids.len(),
{
    if ids.len() > 0 {
        lemma_new_plugs_keys(adapter, devices, ids.drop_last(), ports, keys1, keys2, k);
    }
}

} // verus!
