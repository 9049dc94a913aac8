//! The registry of physical devices, each with the plugs made of it, and
//! the slots that number the devices of each configuration.

use vstd::prelude::*;
use slab::Slab;
use crate::config::Config;
use crate::config::device::Device as DeviceConfig;
use crate::device::{Device, DeviceId, PhysDevice};
use crate::plug::PlugId;
use crate::protocol::PlugArgs;
use crate::text::{decimal, not_found, not_found_message};

verus! {

/// What a slab of slots holds: for each slot taken, the key of its device.
pub uninterp spec fn slot_slab(s: Slab<usize>) -> Map<usize, usize>;

/// The key that a slab of slots gives to the next value inserted.
pub uninterp spec fn slot_slab_next(s: Slab<usize>) -> usize;

/// What a slab of devices holds, by key: each device with its plugs.
pub uninterp spec fn device_slab(s: Slab<(Device, Vec<PlugId>)>) -> Map<usize, (Device, Vec<PlugId>)>;

/// The key that a slab of devices gives to the next value inserted.
pub uninterp spec fn device_slab_next(s: Slab<(Device, Vec<PlugId>)>) -> usize;

/// `Slab::with_capacity`: an empty slab.
#[verifier::external_body]
fn slot_slab_with_capacity(capacity: usize) -> (r: Slab<usize>)
    ensures
        slot_slab(r).dom().is_empty(),
{
    Slab::with_capacity(capacity)
}

/// `Slab::vacant_key`: the key of the next insertion, which holds no value.
/// It is at most the length of the slab's vector of entries, which cannot
/// reach `usize::MAX`.
#[verifier::external_body]
fn slot_slab_vacant_key(s: &Slab<usize>) -> (r: usize)
    ensures
        r == slot_slab_next(*s),
        !slot_slab(*s).contains_key(r),
        r < usize::MAX,
{
    s.vacant_key()
}

/// `Slab::insert`: stores the value under the next key, which it returns.
#[verifier::external_body]
fn slot_slab_insert(s: &mut Slab<usize>, value: usize) -> (r: usize)
    ensures
        r == slot_slab_next(*old(s)),
        !slot_slab(*old(s)).contains_key(r),
        slot_slab(*final(s)) == slot_slab(*old(s)).insert(r, value),
{
    s.insert(value)
}

/// `Slab::remove`: takes out the value under a key that holds one.
#[verifier::external_body]
fn slot_slab_remove(s: &mut Slab<usize>, key: usize) -> (r: usize)
    requires
        slot_slab(*old(s)).contains_key(key),
    ensures
        r == slot_slab(*old(s))[key],
        slot_slab(*final(s)) == slot_slab(*old(s)).remove(key),
{
    s.remove(key)
}

/// `Slab::with_capacity`: an empty slab.
#[verifier::external_body]
fn device_slab_with_capacity(capacity: usize) -> (r: Slab<(Device, Vec<PlugId>)>)
    ensures
        device_slab(r).dom().is_empty(),
{
    Slab::with_capacity(capacity)
}

/// `Slab::vacant_key`: the key of the next insertion, which holds no value.
#[verifier::external_body]
fn device_slab_vacant_key(s: &Slab<(Device, Vec<PlugId>)>) -> (r: usize)
    ensures
        r == device_slab_next(*s),
        !device_slab(*s).contains_key(r),
{
    s.vacant_key()
}

/// `Slab::insert`: stores the value under the next key, which it returns.
#[verifier::external_body]
fn device_slab_insert(s: &mut Slab<(Device, Vec<PlugId>)>, value: (Device, Vec<PlugId>)) -> (r: usize)
    ensures
        r == device_slab_next(*old(s)),
        !device_slab(*old(s)).contains_key(r),
        device_slab(*final(s)) == device_slab(*old(s)).insert(r, value),
{
    s.insert(value)
}

/// `Slab::remove`: takes out the value under a key that holds one.
#[verifier::external_body]
fn device_slab_remove(s: &mut Slab<(Device, Vec<PlugId>)>, key: usize) -> (r: (Device, Vec<PlugId>))
    requires
        device_slab(*old(s)).contains_key(key),
    ensures
        r == device_slab(*old(s))[key],
        device_slab(*final(s)) == device_slab(*old(s)).remove(key),
{
    s.remove(key)
}

/// `Slab`'s indexing: the value under a key that holds one.
#[verifier::external_body]
fn device_slab_get(s: &Slab<(Device, Vec<PlugId>)>, key: usize) -> (r: &(Device, Vec<PlugId>))
    requires
        device_slab(*s).contains_key(key),
    ensures
        *r == device_slab(*s)[key],
{
    &s[key]
}

/// `Slab`'s mutable indexing: the value under a key that holds one, which
/// the slab holds as it is left; the next key stays.
#[verifier::external_body]
fn device_slab_get_mut(s: &mut Slab<(Device, Vec<PlugId>)>, key: usize) -> (r: &mut (Device, Vec<PlugId>))
    requires
        device_slab(*old(s)).contains_key(key),
    ensures
        *r == device_slab(*old(s))[key],
        device_slab(*final(s)) == device_slab(*old(s)).insert(key, *final(r)),
        device_slab_next(*final(s)) == device_slab_next(*old(s)),
{
    &mut s[key]
}

/// The keys of `Slab::iter`, which walks the values by increasing key.
#[verifier::external_body]
fn device_slab_keys(s: &Slab<(Device, Vec<PlugId>)>) -> (r: Vec<usize>)
    ensures
        r@.to_set() == device_slab(*s).dom(),
        forall|i: int, j: int| 0 <= i < j < r@.len() ==> r@[i] < r@[j],
{
    s.iter().map(|(key, _)| key).collect()
}

/// `Slab::contains`: whether a key holds a value.
#[verifier::external_body]
fn device_slab_contains(s: &Slab<(Device, Vec<PlugId>)>, key: usize) -> (r: bool)
    ensures
        r == device_slab(*s).contains_key(key),
{
    s.contains(key)
}

/// The registry of devices.
pub struct Devices {
    slots: Vec<(String, Slab<usize>)>,
    devices: Slab<(Device, Vec<PlugId>)>,
}

/// `i` is the first position of `slots` for the configuration `name`.
pub open spec fn first_slot(slots: Seq<(String, Map<usize, usize>)>, name: Seq<char>, i: int) -> bool {
    &&& 0 <= i < slots.len()
    &&& slots[i].0@ == name
    &&& forall|j: int| 0 <= j < i ==> slots[j].0@ != name
}

/// `k` is the least key of `m` whose device is named `name`.
pub open spec fn first_device_named(m: Map<usize, (Device, Vec<PlugId>)>, name: Seq<char>, k: usize) -> bool {
    &&& m.contains_key(k)
    &&& m[k].0.name@ == name
    &&& forall|j: usize| j < k && m.contains_key(j) ==> (#[trigger] m[j]).0.name@ != name
}

/// Some device of `m` is named `name`.
pub open spec fn has_device_named(m: Map<usize, (Device, Vec<PlugId>)>, name: Seq<char>) -> bool {
    exists|k: usize| m.contains_key(k) && (#[trigger] m[k]).0.name@ == name
}

/// `i` is the first position of `names` that no device of `m` is named.
pub open spec fn first_missing_device(m: Map<usize, (Device, Vec<PlugId>)>, names: Seq<String>, i: int) -> bool {
    &&& 0 <= i < names.len()
    &&& !has_device_named(m, names[i]@)
    &&& forall|j: int| 0 <= j < i ==> has_device_named(m, (#[trigger] names[j])@)
}

/// The plugs of `s` but `p`, in order.
pub open spec fn without(s: Seq<PlugId>, p: PlugId) -> Seq<PlugId>
    decreases s.len(),
{
    if s.len() == 0 {
        s
    } else if s.last() != p {
        without(s.drop_last(), p).push(s.last())
    } else {
        without(s.drop_last(), p)
    }
}

/// `d` is the device registered under `id` as slot `slot` of configuration
/// `config`, reading `backend`.
pub open spec fn is_registered(d: Device, id: DeviceId, config: DeviceConfig, slot: usize, backend: PhysDevice) -> bool {
    &&& d.id == id
    &&& d.slot_idx == slot
    &&& d.config@ == config@
    &&& slot < usize::MAX
    &&& d.name@ == config.name@ + ":"@ + decimal((slot + 1) as nat)
    &&& d.fullname@ == config.fullname@ + " "@ + decimal((slot + 1) as nat)
    &&& d.backend == backend
    &&& d.plug is None
}

impl Devices {
    /// The devices, by key, each with its plugs.
    pub closed spec fn map(&self) -> Map<usize, (Device, Vec<PlugId>)> {
        device_slab(self.devices)
    }

    /// The key that the next device registered gets.
    pub closed spec fn next(&self) -> usize {
        device_slab_next(self.devices)
    }

    /// The slots of each configuration name: for each slot taken, the key
    /// of its device.
    pub closed spec fn slots(&self) -> Seq<(String, Map<usize, usize>)> {
        self.slots@.map_values(|e: (String, Slab<usize>)| (e.0, slot_slab(e.1)))
    }

    /// The slot that the next device of each configuration name gets.
    pub closed spec fn next_slots(&self) -> Seq<usize> {
        self.slots@.map_values(|e: (String, Slab<usize>)| slot_slab_next(e.1))
    }

    /// The slot that the next device of the configuration at `i` gets.
    pub open spec fn next_slot(&self, i: int) -> usize {
        self.next_slots()[i]
    }

    /// Every device is registered under its own identifier, and holds the
    /// slot of its configuration's name that names it.
    pub open spec fn wf(&self) -> bool {
        forall|k: usize| self.map().contains_key(k) ==> {
            &&& (#[trigger] self.map()[k]).0.id == DeviceId(k)
            &&& exists|i: int| first_slot(self.slots(), self.map()[k].0.config.name@, i)
                && self.slots()[i].1.contains_key(self.map()[k].0.slot_idx)
                && self.slots()[i].1[self.map()[k].0.slot_idx] == k
        }
    }

    /// No device; an empty set of slots per device configuration.
    pub fn new(config: &Config) -> (r: Self)
        ensures
            r.map().dom().is_empty(),
            r.slots().len() == config.devices@.len(),
            forall|i: int| 0 <= i < r.slots().len() ==> {
                &&& (#[trigger] r.slots()[i]).0@ == config.devices@[i].name@
                &&& r.slots()[i].1.dom().is_empty()
            },
            r.wf(),
    {
        let devices = device_slab_with_capacity(64);
        let mut slots: Vec<(String, Slab<usize>)> = Vec::new();
        let mut i: usize = 0;
        while i < config.devices.len()
            invariant
                i <= config.devices.len(),
                slots@.len() == i,
                forall|j: int| 0 <= j < i ==> {
                    &&& (#[trigger] slots@[j]).0@ == config.devices@[j].name@
                    &&& slot_slab(slots@[j].1).dom().is_empty()
                },
            decreases config.devices.len() - i,
        {
            let name = config.devices[i].name.clone();
            slots.push((name, slot_slab_with_capacity(64)));
            i = i + 1;
        }
        Devices { slots, devices }
    }

    /// Whether a device is registered under `id`.
    pub fn contains(&self, id: DeviceId) -> (r: bool)
        ensures
            r == self.map().contains_key(id.0),
    {
        device_slab_contains(&self.devices, id.0)
    }

    /// The key of the first device of `keys` named `name`, where `keys`
    /// are the keys of the registry in increasing order.
    fn first_named(&self, keys: &Vec<usize>, name: &String) -> (r: Option<usize>)
        requires
            keys@.to_set() == self.map().dom(),
            forall|i: int, j: int| 0 <= i < j < keys@.len() ==> keys@[i] < keys@[j],
        ensures
            match r {
                Some(k) => first_device_named(self.map(), name@, k),
                None => !has_device_named(self.map(), name@),
            },
    {
        let mut i: usize = 0;
        while i < keys.len()
            invariant
                i <= keys.len(),
                keys@.to_set() == self.map().dom(),
                forall|p: int, q: int| 0 <= p < q < keys@.len() ==> keys@[p] < keys@[q],
                forall|p: int| 0 <= p < i ==> (#[trigger] self.map()[keys@[p]]).0.name@ != name@,
            decreases keys.len() - i,
        {
            let key = keys[i];
            assert(keys@.to_set().contains(key));
            let entry = device_slab_get(&self.devices, key);
            if entry.0.name == *name {
                proof {
                    assert forall|j: usize| j < key && self.map().contains_key(j) implies (#[trigger] self.map()[j]).0.name@ != name@ by {
                        assert(keys@.to_set().contains(j));
                        let p = choose|p: int| 0 <= p < keys@.len() && keys@[p] == j;
                        if p > i {
                            assert(keys@[i as int] < keys@[p]);
                        }
                    }
                }
                return Some(key);
            }
            i = i + 1;
        }
        proof {
            assert forall|k: usize| self.map().contains_key(k) implies (#[trigger] self.map()[k]).0.name@ != name@ by {
                assert(keys@.to_set().contains(k));
                let p = choose|p: int| 0 <= p < keys@.len() && keys@[p] == k;
            }
        }
        None
    }

    /// The devices that the command names, each the first of that name by
    /// key; or, for the first name that no device bears, the message
    /// `Device (i, name) not found`.
    pub fn find_from_plugargs(&self, plug: &PlugArgs) -> (r: Result<Vec<&Device>, String>)
        requires
            self.wf(),
        ensures
            match r {
                Ok(v) => {
                    &&& v@.len() == plug.devices@.len()
                    &&& forall|i: int| 0 <= i < v@.len() ==> first_device_named(self.map(), plug.devices@[i]@, (#[trigger] v@[i]).id.0)
                    &&& forall|i: int| 0 <= i < v@.len() ==> *(#[trigger] v@[i]) == self.map()[v@[i].id.0].0
                },
                Err(e) => exists|i: int| first_missing_device(self.map(), plug.devices@, i) && e@ == not_found("Device"@, i as nat, plug.devices@[i]@),
            },
    {
        let keys = device_slab_keys(&self.devices);
        let mut devices: Vec<&Device> = Vec::new();
        let mut i: usize = 0;
        while i < plug.devices.len()
            invariant
                i <= plug.devices.len(),
                self.wf(),
                keys@.to_set() == self.map().dom(),
                forall|p: int, q: int| 0 <= p < q < keys@.len() ==> keys@[p] < keys@[q],
                devices@.len() == i,
                forall|j: int| 0 <= j < i ==> first_device_named(self.map(), plug.devices@[j]@, (#[trigger] devices@[j]).id.0),
                forall|j: int| 0 <= j < i ==> *(#[trigger] devices@[j]) == self.map()[devices@[j].id.0].0,
            decreases plug.devices.len() - i,
        {
            match self.first_named(&keys, &plug.devices[i]) {
                Some(key) => {
                    let entry = device_slab_get(&self.devices, key);
                    devices.push(&entry.0);
                },
                None => {
                    proof {
                        assert forall|j: int| 0 <= j < i implies has_device_named(self.map(), (#[trigger] plug.devices@[j])@) by {
                            assert(first_device_named(self.map(), plug.devices@[j]@, devices@[j].id.0));
                        }
                        assert(first_missing_device(self.map(), plug.devices@, i as int));
                        reveal_strlit("Device");
                    }
                    return Err(not_found_message("Device", i, &plug.devices[i]));
                },
            }
            i = i + 1;
        }
        Ok(devices)
    }

    /// The plugs of the device `id`.
    pub fn plugs(&self, id: DeviceId) -> (r: &Vec<PlugId>)
        requires
            self.map().contains_key(id.0),
        ensures
            *r == self.map()[id.0].1,
    {
        &device_slab_get(&self.devices, id.0).1
    }

    /// The device `id`.
    pub fn index(&self, id: DeviceId) -> (r: &Device)
        requires
            self.map().contains_key(id.0),
        ensures
            *r == self.map()[id.0].0,
    {
        &device_slab_get(&self.devices, id.0).0
    }

    /// The position in the slots of the first slot list for `name`.
    fn slot_of(&self, name: &String) -> (r: usize)
        requires
            exists|i: int| 0 <= i < self.slots().len() && self.slots()[i].0@ == name@,
        ensures
            first_slot(self.slots(), name@, r as int),
    {
        let mut i: usize = 0;
        while i < self.slots.len()
            invariant
                i <= self.slots.len(),
                self.slots().len() == self.slots@.len(),
                exists|j: int| 0 <= j < self.slots().len() && self.slots()[j].0@ == name@,
                forall|j: int| 0 <= j < i ==> self.slots()[j].0@ != name@,
            decreases self.slots.len() - i,
        {
            assert(self.slots()[i as int].0 == self.slots@[i as int].0);
            if self.slots[i].0 == *name {
                return i;
            }
            i = i + 1;
        }
        proof {
            let j = choose|j: int| 0 <= j < self.slots().len() && self.slots()[j].0@ == name@;
        }
        0
    }

    /// Registers the device `device` of configuration `config` under the
    /// next key, in the next slot of the configuration's name.
    pub fn register(&mut self, config: &DeviceConfig, device: PhysDevice) -> (r: DeviceId)
        requires
            old(self).wf(),
            exists|i: int| 0 <= i < old(self).slots().len() && old(self).slots()[i].0@ == config.name@,
        ensures
            final(self).wf(),
            r.0 == old(self).next(),
            !old(self).map().contains_key(r.0),
            final(self).map() == old(self).map().insert(r.0, final(self).map()[r.0]),
            final(self).map()[r.0].1@ == Seq::<PlugId>::empty(),
            exists|i: int| {
                &&& first_slot(old(self).slots(), config.name@, i)
                &&& !old(self).slots()[i].1.contains_key(old(self).next_slot(i))
                &&& final(self).slots() == old(self).slots().update(i, (old(self).slots()[i].0, old(self).slots()[i].1.insert(old(self).next_slot(i), r.0)))
                &&& is_registered(final(self).map()[r.0].0, r, *config, old(self).next_slot(i), device)
            },
    {
        let ghost old_map = self.map();
        let ghost old_slots = self.slots();
        let i = self.slot_of(&config.name);
        let key = device_slab_vacant_key(&self.devices);
        let slot = slot_slab_vacant_key(&self.slots[i].1);
        let id = DeviceId(key);
        let registered = Device::new(id, config, slot, device);
        let entry = &mut self.slots[i];
        slot_slab_insert(&mut entry.1, key);
        let plugs: Vec<PlugId> = Vec::with_capacity(4);
        device_slab_insert(&mut self.devices, (registered, plugs));
        proof {
            assert(self.slots() =~= old_slots.update(i as int, (old_slots[i as int].0, old_slots[i as int].1.insert(slot, key))));
            assert forall|k: usize| self.map().contains_key(k) implies {
                &&& (#[trigger] self.map()[k]).0.id == DeviceId(k)
                &&& exists|j: int| first_slot(self.slots(), self.map()[k].0.config.name@, j)
                    && self.slots()[j].1.contains_key(self.map()[k].0.slot_idx)
                    && self.slots()[j].1[self.map()[k].0.slot_idx] == k
            } by {
                if k == key {
                    assert(first_slot(self.slots(), config.name@, i as int));
                } else {
                    assert(old_map.contains_key(k));
                    let j = choose|j: int| first_slot(old_slots, old_map[k].0.config.name@, j)
                        && old_slots[j].1.contains_key(old_map[k].0.slot_idx)
                        && old_slots[j].1[old_map[k].0.slot_idx] == k;
                    assert(first_slot(self.slots(), self.map()[k].0.config.name@, j));
                }
            }
            assert(self.map() =~= old_map.insert(key, self.map()[key]));
        }
        id
    }

    /// Adds the plug `plugid` to those of the device `id`.
    pub fn register_plug(&mut self, id: DeviceId, plugid: PlugId)
        requires
            old(self).wf(),
            old(self).map().contains_key(id.0),
        ensures
            final(self).wf(),
            final(self).slots() == old(self).slots(),
            final(self).next_slots() == old(self).next_slots(),
            final(self).next() == old(self).next(),
            final(self).map().dom() == old(self).map().dom(),
            forall|k: usize| k != id.0 && old(self).map().contains_key(k) ==> #[trigger] final(self).map()[k] == old(self).map()[k],
            final(self).map()[id.0].0 == old(self).map()[id.0].0,
            final(self).map()[id.0].1@ == old(self).map()[id.0].1@.push(plugid),
    {
        let ghost old_map = self.map();
        let entry = device_slab_get_mut(&mut self.devices, id.0);
        entry.1.push(plugid);
        proof {
            assert(self.map().dom() =~= old_map.dom());
            assert forall|k: usize| self.map().contains_key(k) implies {
                &&& (#[trigger] self.map()[k]).0.id == DeviceId(k)
                &&& exists|j: int| first_slot(self.slots(), self.map()[k].0.config.name@, j)
                    && self.slots()[j].1.contains_key(self.map()[k].0.slot_idx)
                    && self.slots()[j].1[self.map()[k].0.slot_idx] == k
            } by {
                assert(old_map.contains_key(k));
                let j = choose|j: int| first_slot(self.slots(), old_map[k].0.config.name@, j)
                    && self.slots()[j].1.contains_key(old_map[k].0.slot_idx)
                    && self.slots()[j].1[old_map[k].0.slot_idx] == k;
                assert(self.map()[k].0 == old_map[k].0);
            }
        }
    }

    /// Removes the plug `plugid` from those of the device `id`.
    pub fn unregister_plug(&mut self, id: DeviceId, plugid: PlugId)
        requires
            old(self).wf(),
            old(self).map().contains_key(id.0),
        ensures
            final(self).wf(),
            final(self).slots() == old(self).slots(),
            final(self).next_slots() == old(self).next_slots(),
            final(self).next() == old(self).next(),
            final(self).map().dom() == old(self).map().dom(),
            forall|k: usize| k != id.0 && old(self).map().contains_key(k) ==> #[trigger] final(self).map()[k] == old(self).map()[k],
            final(self).map()[id.0].0 == old(self).map()[id.0].0,
            final(self).map()[id.0].1@ == without(old(self).map()[id.0].1@, plugid),
    {
        let ghost old_map = self.map();
        let entry = device_slab_get_mut(&mut self.devices, id.0);
        let mut kept: Vec<PlugId> = Vec::new();
        let ghost all = entry.1@;
        let mut i: usize = 0;
        while i < entry.1.len()
            invariant
                i <= entry.1.len(),
                entry.1@ == all,
                kept@ == without(all.take(i as int), plugid),
            decreases entry.1.len() - i,
        {
            assert(all.take(i + 1).drop_last() =~= all.take(i as int));
            let p = entry.1[i];
            assert(all.take(i + 1).last() == p);
            if p != plugid {
                kept.push(p);
            }
            i = i + 1;
        }
        assert(all.take(all.len() as int) =~= all);
        entry.1 = kept;
        proof {
            assert(self.map().dom() =~= old_map.dom());
            assert forall|k: usize| self.map().contains_key(k) implies {
                &&& (#[trigger] self.map()[k]).0.id == DeviceId(k)
                &&& exists|j: int| first_slot(self.slots(), self.map()[k].0.config.name@, j)
                    && self.slots()[j].1.contains_key(self.map()[k].0.slot_idx)
                    && self.slots()[j].1[self.map()[k].0.slot_idx] == k
            } by {
                assert(old_map.contains_key(k));
                let j = choose|j: int| first_slot(self.slots(), old_map[k].0.config.name@, j)
                    && self.slots()[j].1.contains_key(old_map[k].0.slot_idx)
                    && self.slots()[j].1[old_map[k].0.slot_idx] == k;
                assert(self.map()[k].0 == old_map[k].0);
            }
        }
    }

    /// The keys of the devices, by increasing key.
    pub fn keys(&self) -> (r: Vec<usize>)
        ensures
            r@.to_set() == self.map().dom(),
            forall|i: int, j: int| 0 <= i < j < r@.len() ==> r@[i] < r@[j],
    {
        device_slab_keys(&self.devices)
    }

    /// Forgets every plug of the device `id`.
    pub fn clear_plugs(&mut self, id: DeviceId)
        requires
            old(self).wf(),
            old(self).map().contains_key(id.0),
        ensures
            final(self).wf(),
            final(self).slots() == old(self).slots(),
            final(self).next_slots() == old(self).next_slots(),
            final(self).next() == old(self).next(),
            final(self).map().dom() == old(self).map().dom(),
            forall|k: usize| k != id.0 && old(self).map().contains_key(k) ==> #[trigger] final(self).map()[k] == old(self).map()[k],
            final(self).map()[id.0].0 == old(self).map()[id.0].0,
            final(self).map()[id.0].1@ == Seq::<PlugId>::empty(),
    {
        let ghost old_map = self.map();
        let entry = device_slab_get_mut(&mut self.devices, id.0);
        entry.1 = Vec::new();
        proof {
            assert(self.map().dom() =~= old_map.dom());
            assert forall|k: usize| self.map().contains_key(k) implies {
                &&& (#[trigger] self.map()[k]).0.id == DeviceId(k)
                &&& exists|j: int| first_slot(self.slots(), self.map()[k].0.config.name@, j)
                    && self.slots()[j].1.contains_key(self.map()[k].0.slot_idx)
                    && self.slots()[j].1[self.map()[k].0.slot_idx] == k
            } by {
                assert(old_map.contains_key(k));
                let j = choose|j: int| first_slot(self.slots(), old_map[k].0.config.name@, j)
                    && self.slots()[j].1.contains_key(old_map[k].0.slot_idx)
                    && self.slots()[j].1[old_map[k].0.slot_idx] == k;
                assert(self.map()[k].0 == old_map[k].0);
            }
        }
    }

    /// Takes out the device `id` with its plugs, and frees its slot.
    pub fn unregister(&mut self, id: DeviceId) -> (r: Result<(Device, Vec<PlugId>), String>)
        requires
            old(self).wf(),
            old(self).map().contains_key(id.0),
        ensures
            final(self).wf(),
            r == Ok::<_, String>(old(self).map()[id.0]),
            final(self).map() == old(self).map().remove(id.0),
            exists|i: int| {
                &&& first_slot(old(self).slots(), old(self).map()[id.0].0.config.name@, i)
                &&& final(self).slots() == old(self).slots().update(i, (old(self).slots()[i].0, old(self).slots()[i].1.remove(old(self).map()[id.0].0.slot_idx)))
            },
    {
        let ghost old_map = self.map();
        let ghost old_slots = self.slots();
        let device = device_slab_remove(&mut self.devices, id.0);
        proof {
            assert(old_map.contains_key(id.0));
            let j = choose|j: int| first_slot(old_slots, old_map[id.0].0.config.name@, j)
                && old_slots[j].1.contains_key(old_map[id.0].0.slot_idx)
                && old_slots[j].1[old_map[id.0].0.slot_idx] == id.0;
            assert(self.slots()[j].0@ == device.0.config.name@);
        }
        let i = self.slot_of(&device.0.config.name);
        proof {
            let j = choose|j: int| first_slot(old_slots, old_map[id.0].0.config.name@, j)
                && old_slots[j].1.contains_key(old_map[id.0].0.slot_idx)
                && old_slots[j].1[old_map[id.0].0.slot_idx] == id.0;
            if j < i {
                assert(old_slots[j].0@ == device.0.config.name@);
            } else if i < j {
                assert(old_slots[i as int].0@ == device.0.config.name@);
            }
            assert(self.slots()[i as int].1 == slot_slab(self.slots@[i as int].1));
        }
        let entry = &mut self.slots[i];
        slot_slab_remove(&mut entry.1, device.0.slot_idx);
        proof {
            let slot = old_map[id.0].0.slot_idx;
            assert(self.slots() =~= old_slots.update(i as int, (old_slots[i as int].0, old_slots[i as int].1.remove(slot))));
            assert forall|k: usize| self.map().contains_key(k) implies {
                &&& (#[trigger] self.map()[k]).0.id == DeviceId(k)
                &&& exists|j: int| first_slot(self.slots(), self.map()[k].0.config.name@, j)
                    && self.slots()[j].1.contains_key(self.map()[k].0.slot_idx)
                    && self.slots()[j].1[self.map()[k].0.slot_idx] == k
            } by {
                assert(old_map.contains_key(k));
                let j = choose|j: int| first_slot(old_slots, old_map[k].0.config.name@, j)
                    && old_slots[j].1.contains_key(old_map[k].0.slot_idx)
                    && old_slots[j].1[old_map[k].0.slot_idx] == k;
                assert(first_slot(self.slots(), self.map()[k].0.config.name@, j));
                if j == i as int {
                    assert(old_map[k].0.slot_idx != slot);
                }
            }
        }
        Ok(device)
    }
}

/// Two registered devices of one configuration name hold different slots,
/// so that they are numbered differently.
pub proof fn lemma_slots_distinct(devices: &Devices, k1: usize, k2: usize)
    requires
        devices.wf(),
        devices.map().contains_key(k1),
        devices.map().contains_key(k2),
        k1 != k2,
        devices.map()[k1].0.config.name@ == devices.map()[k2].0.config.name@,
    ensures
        devices.map()[k1].0.slot_idx != devices.map()[k2].0.slot_idx,
{
    let name = devices.map()[k1].0.config.name@;
    let i = choose|i: int| first_slot(devices.slots(), name, i)
        && devices.slots()[i].1.contains_key(devices.map()[k1].0.slot_idx)
        && devices.slots()[i].1[devices.map()[k1].0.slot_idx] == k1;
    let j = choose|j: int| first_slot(devices.slots(), name, j)
        && devices.slots()[j].1.contains_key(devices.map()[k2].0.slot_idx)
        && devices.slots()[j].1[devices.map()[k2].0.slot_idx] == k2;
    if i < j {
        assert(devices.slots()[i].0@ != name);
    } else if j < i {
        assert(devices.slots()[j].0@ != name);
    }
}

} // verus!
