//! The daemon's configuration: the devices it recognises, the virtual ports
//! it offers and the adapters that map one onto the other.



pub mod adapter;
pub mod device;
pub mod lookup;
pub mod port;


use vstd::prelude::*;

verus! {

/// The whole configuration, as read from the configuration directory.
pub struct Config {
    pub devices: Vec<device::Device>,
    pub ports: Vec<port::Port>,
    pub adapters: Vec<adapter::Adapter>,
}

/// `i` is the first position of `devices` whose device is named `name`.
pub open spec fn first_device_named(devices: Seq<device::Device>, name: Seq<char>, i: int) -> bool {
    &&& 0 <= i < devices.len()
    &&& devices[i].name@ == name
    &&& forall|j: int| 0 <= j < i ==> devices[j].name@ != name
}

/// `i` is the first position of `devices` whose device recognises `spec`.
pub open spec fn first_device_found(devices: Seq<device::Device>, spec: device::DeviceSpec, i: int) -> bool {
    &&& 0 <= i < devices.len()
    &&& devices[i]@.find(spec)
    &&& forall|j: int| 0 <= j < i ==> !devices[j]@.find(spec)
}

/// `i` is the first position of `adapters` whose adapter is named `name`.
pub open spec fn first_adapter_named(adapters: Seq<adapter::Adapter>, name: Seq<char>, i: int) -> bool {
    &&& 0 <= i < adapters.len()
    &&& adapters[i].name@ == name
    &&& forall|j: int| 0 <= j < i ==> adapters[j].name@ != name
}

impl Config {
    /// The first device configuration with the given name.
    pub fn find_device_by_name(&self, name: &String) -> (r: Option<&device::Device>)
        ensures
            match r {
                Some(d) => exists|i: int| first_device_named(self.devices@, name@, i) && self.devices@[i] == *d,
                None => forall|i: int| 0 <= i < self.devices.len() ==> self.devices@[i].name@ != name@,
            },
    {
        let mut i: usize = 0;
        while i < self.devices.len()
            invariant
                i <= self.devices.len(),
                forall|j: int| 0 <= j < i ==> self.devices@[j].name@ != name@,
            decreases self.devices.len() - i,
        {
            if self.devices[i].name == *name {
                assert(first_device_named(self.devices@, name@, i as int));
                return Some(&self.devices[i]);
            }
            i = i + 1;
        }
        None
    }

    /// The first device configuration that recognises the device `spec`.
    pub fn find_device_by_spec(&self, spec: &device::DeviceSpec) -> (r: Option<&device::Device>)
        ensures
            match r {
                Some(d) => exists|i: int| first_device_found(self.devices@, *spec, i) && self.devices@[i] == *d,
                None => forall|i: int| 0 <= i < self.devices.len() ==> !self.devices@[i]@.find(*spec),
            },
    {
        let mut i: usize = 0;
        while i < self.devices.len()
            invariant
                i <= self.devices.len(),
                forall|j: int| 0 <= j < i ==> !self.devices@[j]@.find(*spec),
            decreases self.devices.len() - i,
        {
            if self.devices[i].find(spec) {
                assert(first_device_found(self.devices@, *spec, i as int));
                return Some(&self.devices[i]);
            }
            i = i + 1;
        }
        None
    }

    /// The first adapter configuration with the given name.
    pub fn find_adapter_by_name(&self, name: &String) -> (r: Option<&adapter::Adapter>)
        ensures
            match r {
                Some(a) => exists|i: int| first_adapter_named(self.adapters@, name@, i) && self.adapters@[i] == *a,
                None => forall|i: int| 0 <= i < self.adapters.len() ==> self.adapters@[i].name@ != name@,
            },
    {
        let mut i: usize = 0;
        while i < self.adapters.len()
            invariant
                i <= self.adapters.len(),
                forall|j: int| 0 <= j < i ==> self.adapters@[j].name@ != name@,
            decreases self.adapters.len() - i,
        {
            if self.adapters[i].name == *name {
                assert(first_adapter_named(self.adapters@, name@, i as int));
                return Some(&self.adapters[i]);
            }
            i = i + 1;
        }
        None
    }

    /// Each name table of the configuration maps each name once, as a map
    /// by name does: device and port codes by name, default adapters by
    /// kinds of ports, adapter mappings by pair of names.
    pub open spec fn tables_unique(&self) -> bool {
        &&& forall|i: int| 0 <= i < self.devices@.len() ==> {
            &&& lookup::names_unique((#[trigger] self.devices@[i]).keys@)
            &&& lookup::names_unique(self.devices@[i].axes@)
            &&& lookup::names_unique(self.devices@[i].motions@)
            &&& lookup::kinds_unique(self.devices@[i]@.default_adapters)
        }
        &&& forall|i: int| 0 <= i < self.ports@.len() ==> {
            &&& lookup::names_unique((#[trigger] self.ports@[i]).keys@)
            &&& lookup::names_unique(self.ports@[i].axes@)
            &&& lookup::names_unique(self.ports@[i].motions@)
        }
        &&& forall|i: int| 0 <= i < self.adapters@.len() ==> lookup::pairs_unique((#[trigger] self.adapters@[i]).map@)
    }

    /// Whether `tables_unique` holds.
    pub fn check_tables_unique(&self) -> (r: bool)
        ensures
            r == self.tables_unique(),
    {
        let mut i: usize = 0;
        while i < self.devices.len()
            invariant
                i <= self.devices@.len(),
                forall|k: int| 0 <= k < i ==> {
                    &&& lookup::names_unique((#[trigger] self.devices@[k]).keys@)
                    &&& lookup::names_unique(self.devices@[k].axes@)
                    &&& lookup::names_unique(self.devices@[k].motions@)
                    &&& lookup::kinds_unique(self.devices@[k]@.default_adapters)
                },
            decreases self.devices@.len() - i,
        {
            let d = &self.devices[i];
            assert(d@.default_adapters =~= d.default_adapters@.map_values(|e: (Vec<String>, String)| (e.0@, e.1)));
            if !lookup::check_names_unique(&d.keys) || !lookup::check_names_unique(&d.axes)
                || !lookup::check_names_unique(&d.motions) || !lookup::check_kinds_unique(&d.default_adapters) {
                return false;
            }
            i = i + 1;
        }
        let mut i: usize = 0;
        while i < self.ports.len()
            invariant
                i <= self.ports@.len(),
                forall|k: int| 0 <= k < self.devices@.len() ==> {
                    &&& lookup::names_unique((#[trigger] self.devices@[k]).keys@)
                    &&& lookup::names_unique(self.devices@[k].axes@)
                    &&& lookup::names_unique(self.devices@[k].motions@)
                    &&& lookup::kinds_unique(self.devices@[k]@.default_adapters)
                },
                forall|k: int| 0 <= k < i ==> {
                    &&& lookup::names_unique((#[trigger] self.ports@[k]).keys@)
                    &&& lookup::names_unique(self.ports@[k].axes@)
                    &&& lookup::names_unique(self.ports@[k].motions@)
                },
            decreases self.ports@.len() - i,
        {
            let p = &self.ports[i];
            if !lookup::check_names_unique(&p.keys) || !lookup::check_names_unique(&p.axes) || !lookup::check_names_unique(&p.motions) {
                return false;
            }
            i = i + 1;
        }
        let mut i: usize = 0;
        while i < self.adapters.len()
            invariant
                i <= self.adapters@.len(),
                forall|k: int| 0 <= k < self.devices@.len() ==> {
                    &&& lookup::names_unique((#[trigger] self.devices@[k]).keys@)
                    &&& lookup::names_unique(self.devices@[k].axes@)
                    &&& lookup::names_unique(self.devices@[k].motions@)
                    &&& lookup::kinds_unique(self.devices@[k]@.default_adapters)
                },
                forall|k: int| 0 <= k < self.ports@.len() ==> {
                    &&& lookup::names_unique((#[trigger] self.ports@[k]).keys@)
                    &&& lookup::names_unique(self.ports@[k].axes@)
                    &&& lookup::names_unique(self.ports@[k].motions@)
                },
                forall|k: int| 0 <= k < i ==> lookup::pairs_unique((#[trigger] self.adapters@[k]).map@),
            decreases self.adapters@.len() - i,
        {
            if !lookup::check_pairs_unique(&self.adapters[i].map) {
                return false;
            }
            i = i + 1;
        }
        true
    }
}

} // verus!
