//! The daemon's state: the registries of devices, ports and plugs, and the
//! automatic plugging rules; and what it does on each command and event.

use vstd::prelude::*;
use crate::autoplug::{AutoPlug, autoplug_keys_known, spec_per_adapters};
use crate::config::{Config, first_adapter_named};
use crate::config::adapter::Adapter;
use crate::device::{Device, DeviceId};
use crate::plug::{Plug, PlugId, plug_in_range, routes_within, lemma_plug_routes};
use crate::port::{Port, PortId};
use crate::protocol::{Event, EventView, event_views, MonitorInit, PlugArgs, Response};
use crate::text::{debug_list, not_found, push_debug_list, views};
use devices::{Devices, first_device_named, first_missing_device};
use plugging::{plug_devices, plugged, plugged_events};
use ports::{Ports, first_missing_port, first_port_named, port_slots, ports_of};

pub mod devices;
pub mod events;
pub mod plugging;
pub mod plugs;
pub mod ports;

verus! {

/// The slab of the `slab` crate: values stored under keys that it hands out.
#[verifier::external_type_specification]
#[verifier::external_body]
#[verifier::reject_recursive_types(T)]
pub struct ExSlab<T>(slab::Slab<T>);

/// The daemon: its configuration, its registries and its automatic
/// plugging rules. The monitors it writes to are held by its caller, which
/// sends them the events that each operation gives.
pub struct Daemon {
    config: Config,
    devices: Devices,
    ports: Ports,
    plugs: plugs::Plugs,
    autoplug: AutoPlug,
}

/// The identifiers of the ports of `m`.
pub open spec fn port_ids(m: Map<usize, Port>) -> Set<PortId> {
    Set::new(|p: PortId| m.contains_key(p.0))
}

/// What the daemon needs of a configuration: each of its name tables maps
/// each name once, and every trigger key of the automatic plugging rules is
/// known to its device.
pub open spec fn config_ok(config: Config) -> bool {
    &&& config.tables_unique()
    &&& autoplug_keys_known(config)
}

/// Whether the daemon can run on `config` (`config_ok`).
pub fn config_check(config: &Config) -> (r: bool)
    ensures
        r == config_ok(*config),
{
    config.check_tables_unique() && crate::autoplug::keys_known(config)
}

/// Some slots of `slots` are for the configuration name `name`.
pub open spec fn has_slots(slots: Seq<(String, Map<usize, usize>)>, name: Seq<char>) -> bool {
    exists|j: int| 0 <= j < slots.len() && (#[trigger] slots[j]).0@ == name
}

/// A string option, taken by its view.
pub open spec fn option_view(o: Option<String>) -> Option<Seq<char>> {
    match o {
        Some(s) => Some(s@),
        None => None,
    }
}

/// The common value of `names` if they all agree, else nothing.
pub open spec fn agreed(names: Seq<Option<Seq<char>>>) -> Option<Seq<char>> {
    if forall|i: int| 0 <= i < names.len() ==> #[trigger] names[i] == names[0] {
        names[0]
    } else {
        None
    }
}

/// The device that a plug command's name `name` designates.
pub open spec fn found_device(m: Map<usize, (Device, Vec<PlugId>)>, name: Seq<char>) -> DeviceId {
    DeviceId(choose|k: usize| first_device_named(m, name, k))
}

/// The port that a plug command's name `name` designates.
pub open spec fn found_port(m: Map<usize, Port>, name: Seq<char>) -> usize {
    choose|k: usize| first_port_named(m, name, k)
}

/// Model of the daemon: its configuration, its registries with the keys
/// and slots they give next, and its automatic plugging rules.
pub struct DaemonView {
    pub config: Config,
    pub devices: Map<usize, (Device, Vec<PlugId>)>,
    pub next_device: usize,
    pub slots: Seq<(String, Map<usize, usize>)>,
    pub next_slots: Seq<usize>,
    pub ports: Map<usize, Port>,
    pub plugs: Map<usize, Plug>,
    pub next_plug: usize,
    pub rules: Seq<crate::autoplug::PerAdapterView>,
}

impl View for Daemon {
    type V = DaemonView;

    closed spec fn view(&self) -> DaemonView {
        DaemonView {
            config: self.config,
            devices: self.devices.map(),
            next_device: self.devices.next(),
            slots: self.devices.slots(),
            next_slots: self.devices.next_slots(),
            ports: self.ports.map(),
            plugs: self.plugs.map(),
            next_plug: self.plugs.next(),
            rules: self.autoplug@,
        }
    }
}

impl Daemon {
    /// The configuration.
    pub open spec fn config(&self) -> Config {
        self@.config
    }

    /// The devices, by key, each with its plugs.
    pub open spec fn device_map(&self) -> Map<usize, (Device, Vec<PlugId>)> {
        self@.devices
    }

    /// The ports, by key.
    pub open spec fn port_map(&self) -> Map<usize, Port> {
        self@.ports
    }

    /// The plugs, by key.
    pub open spec fn plug_map(&self) -> Map<usize, Plug> {
        self@.plugs
    }

    /// The automatic plugging rules.
    pub open spec fn rules(&self) -> Seq<crate::autoplug::PerAdapterView> {
        self@.rules
    }

    /// The daemon's invariant: each registry's own, every device
    /// configuration has slots, every registered device's code tables are in
    /// range, every plug of a device is registered, and every plug feeds
    /// registered ports only.
    pub closed spec fn wf(&self) -> bool {
        &&& config_ok(self.config)
        &&& self.devices.wf()
        &&& self.ports.wf()
        &&& self.plugs.wf()
        &&& self.autoplug.wf()
        &&& forall|i: int| 0 <= i < self.config.devices@.len() ==> has_slots(self.devices.slots(), (#[trigger] self.config.devices@[i]).name@)
        &&& forall|k: usize, i: int| self.devices.map().contains_key(k) && 0 <= i < self.devices.map()[k].1@.len()
            ==> self.plugs.map().contains_key((#[trigger] self.devices.map()[k].1@[i]).0)
        &&& forall|k: usize| self.plugs.map().contains_key(k) ==> {
            &&& routes_within((#[trigger] self.plugs.map()[k]).tables(), port_ids(self.ports.map()))
            &&& forall|i: int| 0 <= i < self.plugs.map()[k].portids@.len() ==> self.ports.map().contains_key(self.plugs.map()[k].portids@[i].0)
        }
    }

    /// The daemon for `config`: no device, one port per slot of each port
    /// configuration, no plug, and the automatic plugging rules of the
    /// configuration's adapters.
    pub fn new(config: Config) -> (r: Self)
        requires
            config_ok(config),
        ensures
            r.wf(),
            r.config() == config,
            r.device_map().dom().is_empty(),
            ports_of(r.port_map(), port_slots(config.ports@)),
            r.plug_map().dom().is_empty(),
            r.rules() == spec_per_adapters(config, config.adapters@),
    {
        let devices = Devices::new(&config);
        let ports = Ports::new(&config);
        let plugs = plugs::Plugs::new();
        let autoplug = AutoPlug::new(&config);
        let r = Daemon { config, devices, ports, plugs, autoplug };
        proof {
            assert forall|i: int| 0 <= i < r.config.devices@.len() implies has_slots(r.devices.slots(), (#[trigger] r.config.devices@[i]).name@) by {
                assert(r.devices.slots()[i].0@ == r.config.devices@[i].name@);
            }
            assert forall|k: usize| !r.devices.map().contains_key(k) by {
                assert(!r.devices.map().dom().contains(k));
            }
            assert forall|k: usize| !r.plugs.map().contains_key(k) by {
                assert(!r.plugs.map().dom().contains(k));
            }
            assert(config_ok(r.config));
            assert(r.devices.wf());
            assert(r.ports.wf());
            assert(r.plugs.wf());
            assert(r.autoplug.wf());
        }
        r
    }

    /// What a new monitor is told: the names of the ports of kind
    /// `Gamepad`, by increasing key.
    pub fn register_monitor(&self) -> (r: Response)
        ensures
            r matches Response::MonitorInit(m) && exists|keys: Seq<usize>| {
                &&& sorted_keys(keys, self.port_map().dom())
                &&& views(m.ports@) == gamepad_names(self.port_map(), keys)
            },
    {
        let entries = self.ports.iter();
        let ghost keys = Seq::new(entries@.len(), |i: int| entries@[i].0);
        let mut names: Vec<String> = Vec::new();
        let gamepad = String::from_str("Gamepad");
        proof { reveal_strlit("Gamepad"); }
        let mut i: usize = 0;
        assert(keys.take(0) =~= Seq::<usize>::empty());
        while i < entries.len()
            invariant
                i <= entries.len(),
                gamepad@ == "Gamepad"@,
                keys == Seq::new(entries@.len(), |i: int| entries@[i].0),
                forall|p: int| 0 <= p < entries@.len() ==> *(#[trigger] entries@[p]).1 == self.port_map()[entries@[p].0],
                views(names@) == gamepad_names(self.port_map(), keys.take(i as int)),
            decreases entries.len() - i,
        {
            assert(keys.take(i + 1).drop_last() =~= keys.take(i as int));
            assert(keys.take(i + 1).last() == entries@[i as int].0);
            let port = entries[i].1;
            if port.config.name == gamepad {
                let ghost before = names@;
                names.push(port.name.clone());
                assert(views(names@) =~= views(before).push(port.name@));
            }
            i = i + 1;
        }
        assert(keys.take(keys.len() as int) =~= keys);
        proof {
            assert forall|k: usize| keys.to_set().contains(k) <==> self.port_map().dom().contains(k) by {
                if keys.to_set().contains(k) {
                    let p = choose|p: int| 0 <= p < keys.len() && keys[p] == k;
                    assert(self.port_map().contains_key(entries@[p].0));
                }
                if self.port_map().dom().contains(k) {
                    let p = choose|p: int| 0 <= p < entries@.len() && (#[trigger] entries@[p]).0 == k;
                    assert(keys[p] == k);
                }
            }
            assert(keys.to_set() =~= self.port_map().dom());
        }
        Response::MonitorInit(MonitorInit { ports: names })
    }

    /// The ports with their keys, by increasing key.
    pub fn ports(&self) -> (r: Vec<(usize, &Port)>)
        ensures
            forall|i: int| 0 <= i < r@.len() ==> self.port_map().contains_key((#[trigger] r@[i]).0),
            forall|k: usize| self.port_map().contains_key(k) ==> exists|i: int| 0 <= i < r@.len() && (#[trigger] r@[i]).0 == k,
            forall|i: int, j: int| 0 <= i < j < r@.len() ==> r@[i].0 < r@[j].0,
            forall|i: int| 0 <= i < r@.len() ==> *(#[trigger] r@[i]).1 == self.port_map()[r@[i].0],
    {
        self.ports.iter()
    }

    /// Unplugs all: every plug is taken out and every device is left
    /// without plugs. The command is acknowledged.
    pub fn reset(&mut self) -> (r: Result<Response, String>)
        requires
            old(self).wf(),
        ensures
            final(self).wf(),
            r == Ok::<Response, String>(Response::Ack),
            reset_done(*old(self), *final(self)),
    {
        let ghost d0 = *self;
        let keys = self.plugs.keys();
        let mut i: usize = 0;
        assert(keys@.take(0) =~= Seq::<usize>::empty());
        while i < keys.len()
            invariant
                i <= keys@.len(),
                d0.wf(),
                keys@.to_set() == d0.plugs.map().dom(),
                forall|p: int, q: int| 0 <= p < q < keys@.len() ==> keys@[p] < keys@[q],
                self.plugs.wf(),
                self.config == d0.config,
                self.devices == d0.devices,
                self.ports == d0.ports,
                self.autoplug == d0.autoplug,
                forall|k: usize| #[trigger] self.plugs.map().contains_key(k) <==> d0.plugs.map().contains_key(k) && !keys@.take(i as int).contains(k),
            decreases keys@.len() - i,
        {
            let key = keys[i];
            assert(keys@.take(i + 1).drop_last() =~= keys@.take(i as int));
            assert(keys@.take(i + 1).last() == key);
            assert(keys@.to_set().contains(key));
            assert(!keys@.take(i as int).contains(key)) by {
                if keys@.take(i as int).contains(key) {
                    let p = choose|p: int| 0 <= p < i && #[trigger] keys@.take(i as int)[p] == key;
                    assert(keys@[p] < keys@[i as int]);
                }
            }
            assert(self.plugs.map().contains_key(key));
            let _plug = self.plugs.unregister(PlugId(key));
            proof {
                assert forall|k: usize| #[trigger] self.plugs.map().contains_key(k) <==> d0.plugs.map().contains_key(k) && !keys@.take(i + 1).contains(k) by {
                    if keys@.take(i + 1).contains(k) && k != key {
                        let p = choose|p: int| 0 <= p < i + 1 && #[trigger] keys@.take(i + 1)[p] == k;
                        assert(keys@.take(i as int)[p] == k);
                    }
                    if keys@.take(i as int).contains(k) {
                        let p = choose|p: int| 0 <= p < i && #[trigger] keys@.take(i as int)[p] == k;
                        assert(keys@.take(i + 1)[p] == k);
                    }
                }
            }
            i = i + 1;
        }
        assert(keys@.take(keys@.len() as int) =~= keys@);
        proof {
            assert forall|k: usize| !self.plugs.map().contains_key(k) by {
                if d0.plugs.map().contains_key(k) {
                    assert(keys@.to_set().contains(k));
                }
            }
            assert(self.plugs.map().dom() =~= Set::<usize>::empty());
        }
        let dkeys = self.devices.keys();
        let mut n: usize = 0;
        while n < dkeys.len()
            invariant
                n <= dkeys@.len(),
                dkeys@.to_set() == d0.devices.map().dom(),
                self.devices.wf(),
                self.plugs.map().dom() == Set::<usize>::empty(),
                self.plugs.wf(),
                self.config == d0.config,
                self.ports == d0.ports,
                self.autoplug == d0.autoplug,
                self.devices.slots() == d0.devices.slots(),
                self.devices.next_slots() == d0.devices.next_slots(),
                self.devices.next() == d0.devices.next(),
                self.devices.map().dom() == d0.devices.map().dom(),
                forall|k: usize| #[trigger] d0.devices.map().contains_key(k) ==> self.devices.map()[k].0 == d0.devices.map()[k].0,
                forall|k: usize| #[trigger] d0.devices.map().contains_key(k) && dkeys@.take(n as int).contains(k) ==> self.devices.map()[k].1@.len() == 0,
            decreases dkeys@.len() - n,
        {
            let key = dkeys[n];
            assert(dkeys@.to_set().contains(key));
            self.devices.clear_plugs(DeviceId(key));
            proof {
                assert forall|k: usize| #[trigger] d0.devices.map().contains_key(k) && dkeys@.take(n + 1).contains(k) implies self.devices.map()[k].1@.len() == 0 by {
                    if k != key {
                        let p = choose|p: int| 0 <= p < n + 1 && #[trigger] dkeys@.take(n + 1)[p] == k;
                        assert(dkeys@.take(n as int)[p] == k);
                    }
                }
            }
            n = n + 1;
        }
        assert(dkeys@.take(dkeys@.len() as int) =~= dkeys@);
        proof {
            assert forall|k: usize| #[trigger] d0.devices.map().contains_key(k) implies self.devices.map()[k].1@.len() == 0 by {
                assert(dkeys@.to_set().contains(k));
                let p = choose|p: int| 0 <= p < dkeys@.len() && #[trigger] dkeys@[p] == k;
                assert(dkeys@.take(dkeys@.len() as int)[p] == k);
            }
            assert forall|i: int| 0 <= i < self.config.devices@.len() implies has_slots(self.devices.slots(), (#[trigger] self.config.devices@[i]).name@) by {
                assert(has_slots(d0.devices.slots(), d0.config.devices@[i].name@));
            }
            assert forall|k: usize, x: int| self.devices.map().contains_key(k) && 0 <= x < self.devices.map()[k].1@.len()
                implies self.plugs.map().contains_key((#[trigger] self.devices.map()[k].1@[x]).0) by {
                assert(d0.devices.map().contains_key(k));
            }
            assert(self.plug_map().dom() == Set::<usize>::empty());
            assert(self.device_map().dom() == d0.device_map().dom());
            assert forall|k: usize| #[trigger] d0.device_map().contains_key(k) implies {
                &&& self.device_map()[k].0 == d0.device_map()[k].0
                &&& self.device_map()[k].1@ == Seq::<PlugId>::empty()
            } by {
                assert(d0.devices.map().contains_key(k));
                assert(self.devices.map()[k].1@.len() == 0);
            }
            assert(self@ == (DaemonView { devices: self@.devices, plugs: self@.plugs, next_plug: self@.next_plug, ..d0@ }));
            assert(reset_done(d0, *self));
        }
        Ok(Response::Ack)
    }

    /// Whether the plug command `args` can be answered (`plug_args_defined`).
    pub fn plug_defined(&self, args: &PlugArgs) -> (r: bool)
        requires
            self.wf(),
        ensures
            r == plug_args_defined(*self, *args),
    {
        if args.adapter.is_some() || args.devices.len() > 0 {
            return true;
        }
        match self.ports.find_from_plugargs(args) {
            Ok(ports) => {
                proof {
                    lemma_no_missing_port(self.ports.map(), args.ports@, ports@);
                }
                false
            },
            Err(e) => {
                proof {
                    let i = choose|i: int| first_missing_port(self.ports.map(), args.ports@, i) && e@ == not_found("Port"@, i as nat, args.ports@[i]@);
                    assert(first_missing_port(self.port_map(), args.ports@, i));
                }
                true
            },
        }
    }

    /// Whether the devices that the plug command `args` designates read,
    /// through its adapter, only codes in range for its ports
    /// (`plug_codes_ok`).
    pub fn plug_codes_check(&self, args: &PlugArgs) -> (r: bool)
        requires
            self.wf(),
            plug_args_defined(*self, *args),
        ensures
            r == plug_codes_ok(*self, *args),
    {
        let ghost d = *self;
        match resolve(&self.devices, &self.ports, &self.config, args, Ghost(d)) {
            Err(_) => true,
            Ok((ids, ports, adapter)) => {
                let ghost dm = self.device_map();
                let mut k: usize = 0;
                while k < ids.len()
                    invariant
                        k <= ids@.len(),
                        d == *self,
                        dm == self.device_map(),
                        dm == d.device_map(),
                        plug_error(d, *args) is None,
                        ids@ == found_devices(d.device_map(), args.devices@),
                        is_found_ports(d.port_map(), args.ports@, ports@),
                        *adapter == d.config().adapters@[chosen_adapter(d, *args)],
                        forall|x: int| 0 <= x < ids@.len() ==> dm.contains_key((#[trigger] ids@[x]).0),
                        forall|x: int| 0 <= x < k ==> plug_in_range(adapter, &dm[(#[trigger] ids@[x]).0].0, ports@),
                    decreases ids@.len() - k,
                {
                    let device = self.devices.index(ids[k]);
                    if !crate::plug::codes_in_range(adapter, device, ports.as_slice()) {
                        proof {
                            assert(ids@[k as int] == found_devices(dm, args.devices@)[k as int]);
                            assert(!plug_in_range(&d.config().adapters@[chosen_adapter(d, *args)],
                                &dm[found_devices(dm, args.devices@)[k as int].0].0, ports@));
                        }
                        return false;
                    }
                    k = k + 1;
                }
                proof {
                    assert forall|ps: Seq<&Port>, i: int| is_found_ports(d.port_map(), args.ports@, ps) && 0 <= i < args.devices@.len() implies #[trigger] plug_in_range(
                        &d.config().adapters@[chosen_adapter(d, *args)],
                        &d.device_map()[found_devices(d.device_map(), args.devices@)[i].0].0,
                        ps,
                    ) by {
                        lemma_found_ports_unique(d.port_map(), args.ports@, ps, ports@);
                        assert(ids@[i] == found_devices(dm, args.devices@)[i]);
                    }
                }
                true
            },
        }
    }

    /// Plugs the devices that the command names into the ports it names,
    /// through the adapter it names or else the default adapter that all
    /// the devices agree on for those kinds of ports. Fails, changing
    /// nothing, with the first of: a device name not found, a port name not
    /// found, no agreed default adapter, an adapter name not configured.
    /// Otherwise plugs each device in turn, leaving a device whose plugging
    /// fails unplugged, and gives the events for the monitors.
    pub fn plug(&mut self, plug: PlugArgs) -> (r: (Result<Response, String>, Vec<Event>))
        requires
            old(self).wf(),
            plug_args_defined(*old(self), plug),
            plug_codes_ok(*old(self), plug),
        ensures
            final(self).wf(),
            match r.0 {
                Err(e) => {
                    &&& plug_error(*old(self), plug) == Some(e@)
                    &&& r.1@.len() == 0
                    &&& final(self)@ == old(self)@
                },
                Ok(response) => {
                    &&& plug_error(*old(self), plug) is None
                    &&& response == Response::Ack
                    &&& final(self).config() == old(self).config()
                    &&& final(self).port_map() == old(self).port_map()
                    &&& final(self).rules() == old(self).rules()
                    &&& final(self)@ == (DaemonView {
                        devices: final(self)@.devices,
                        plugs: final(self)@.plugs,
                        next_plug: final(self)@.next_plug,
                        ..old(self)@
                    })
                    &&& plug_done(*old(self), *final(self), plug, event_views(r.1@))
                },
            },
    {
        let ghost d0 = *self;
        let ghost dm = self.devices.map();
        let ghost pm = self.ports.map();
        let (deviceids, ports, adapter) = match resolve(&self.devices, &self.ports, &self.config, &plug, Ghost(d0)) {
            Ok(parts) => parts,
            Err(e) => return (Err(e), Vec::new()),
        };
        proof {
            assert forall|k: int| 0 <= k < deviceids@.len() implies plug_in_range(adapter, &dm[(#[trigger] deviceids@[k]).0].0, ports@) by {
                lemma_plug_codes_at(d0, plug, adapter, deviceids@, ports@, k);
            }
        }
        let ghost plugs0 = self.plugs.map();
        let events = plug_devices(&mut self.plugs, &mut self.devices, adapter, &deviceids, ports.as_slice());
        proof {
            let keys = choose|keys: Seq<usize>| plugged(plugs0, dm, self.plugs.map(), self.devices.map(), adapter, deviceids@, ports@, keys);
            lemma_plugged_wf(*old(self), *self, adapter, deviceids@, ports@, keys);
            assert(is_found_ports(pm, plug.ports@, ports@));
            assert(event_views(events@) == plugged_events(adapter, dm, found_devices(dm, plug.devices@), ports@));
            assert(plugged(old(self).plug_map(), dm, self.plug_map(), self.device_map(), adapter, found_devices(dm, plug.devices@), ports@, keys));
            assert(plug_done(*old(self), *self, plug, event_views(events@)));
        }
        (Ok(Response::Ack), events)
    }
}

/// What a plug command designates: the devices and the ports it names and
/// the adapter it names or that the devices agree on; or the message of
/// the first of these that is not found.
fn resolve<'a>(devices: &Devices, ports: &'a Ports, config: &'a Config, plug: &PlugArgs, Ghost(d): Ghost<Daemon>)
    -> (r: Result<(Vec<DeviceId>, Vec<&'a Port>, &'a Adapter), String>)
    requires
        d.wf(),
        d.devices == *devices,
        d.ports == *ports,
        d.config == *config,
        plug_args_defined(d, *plug),
    ensures
        match r {
            Err(e) => plug_error(d, *plug) == Some(e@),
            Ok((ids, found_ports, adapter)) => {
                &&& plug_error(d, *plug) is None
                &&& ids@ == found_devices(d.device_map(), plug.devices@)
                &&& forall|k: int| 0 <= k < ids@.len() ==> d.device_map().contains_key((#[trigger] ids@[k]).0)
                &&& is_found_ports(d.port_map(), plug.ports@, found_ports@)
                &&& forall|k: int| 0 <= k < found_ports@.len() ==> d.port_map().contains_key((#[trigger] found_ports@[k]).id.0)
                &&& *adapter == d.config().adapters@[chosen_adapter(d, *plug)]
            },
        },
{
        let ghost dm = devices.map();
        let ghost pm = ports.map();
        let found = match devices.find_from_plugargs(plug) {
            Ok(v) => v,
            Err(e) => {
                proof {
                    let i = choose|i: int| first_missing_device(dm, plug.devices@, i) && e@ == not_found("Device"@, i as nat, plug.devices@[i]@);
                    lemma_first_missing_device_unique(dm, plug.devices@, i);
                }
                return Err(e);
            },
        };
        proof {
            lemma_no_missing_device(dm, plug.devices@, found@);
        }
        let ports_found = match ports.find_from_plugargs(plug) {
            Ok(v) => v,
            Err(e) => {
                proof {
                    let i = choose|i: int| first_missing_port(pm, plug.ports@, i) && e@ == not_found("Port"@, i as nat, plug.ports@[i]@);
                    lemma_first_missing_port_unique(pm, plug.ports@, i);
                }
                return Err(e);
            },
        };
        proof {
            lemma_no_missing_port(pm, plug.ports@, ports_found@);
        }
        let mut kinds: Vec<String> = Vec::new();
        let mut i: usize = 0;
        while i < ports_found.len()
            invariant
                i <= ports_found.len(),
                kinds@.len() == i,
                forall|j: int| 0 <= j < i ==> (#[trigger] kinds@[j])@ == ports_found@[j].config.name@,
            decreases ports_found.len() - i,
        {
            kinds.push(ports_found[i].config.name.clone());
            i = i + 1;
        }
        assert(views(kinds@) =~= port_kinds(pm, plug.ports@));
        let adapter_name = match &plug.adapter {
            Some(name) => Some(name.clone()),
            None => {
                let first = found[0].config.find_adapter(kinds.as_slice());
                let mut agreed_name = clone_option(&first);
                let mut j: usize = 0;
                while j < found.len()
                    invariant
                        j <= found.len(),
                        found@.len() > 0,
                        option_view(first) == default_names(dm, plug.devices@, port_kinds(pm, plug.ports@))[0],
                        views(kinds@) == port_kinds(pm, plug.ports@),
                        forall|k: int| 0 <= k < found@.len() ==> *(#[trigger] found@[k]) == dm[found_device(dm, plug.devices@[k]@).0].0,
                        found@.len() == plug.devices@.len(),
                        option_view(agreed_name) == if j == 0 {
                            default_names(dm, plug.devices@, port_kinds(pm, plug.ports@))[0]
                        } else {
                            agreed(default_names(dm, plug.devices@, port_kinds(pm, plug.ports@)).take(j as int))
                        },
                    decreases found.len() - j,
                {
                    let name = found[j].config.find_adapter(kinds.as_slice());
                    proof {
                        let all = default_names(dm, plug.devices@, port_kinds(pm, plug.ports@));
                        assert(option_view(name) == all[j as int]);
                        lemma_agreed_step(all, j as int);
                    }
                    if !same_name(&agreed_name, &name) {
                        agreed_name = None;
                    }
                    j = j + 1;
                }
                proof {
                    let all = default_names(dm, plug.devices@, port_kinds(pm, plug.ports@));
                    assert(all.take(found@.len() as int) =~= all);
                }
                agreed_name
            },
        };
        let adapter_name = match adapter_name {
            Some(name) => name,
            None => {
                let mut message = String::from_str("No default adapter found for ");
                proof { reveal_strlit("No default adapter found for "); }
                push_debug_list(&mut message, &kinds);
                return Err(message);
            },
        };
        let adapter = match config.find_adapter_by_name(&adapter_name) {
            Some(adapter) => adapter,
            None => {
                let mut message = String::from_str("Adapter ");
                message.append(adapter_name.as_str());
                message.append(" not found");
                proof {
                    reveal_strlit("Adapter ");
                    reveal_strlit(" not found");
                }
                return Err(message);
            },
        };
        let mut deviceids: Vec<DeviceId> = Vec::new();
        let mut j: usize = 0;
        while j < found.len()
            invariant
                j <= found.len(),
                deviceids@.len() == j,
                forall|k: int| 0 <= k < j ==> #[trigger] deviceids@[k] == found@[k].id,
            decreases found.len() - j,
        {
            deviceids.push(found[j].id);
            j = j + 1;
        }
        proof {
            assert(deviceids@ =~= found_devices(dm, plug.devices@));
            assert forall|k: int| 0 <= k < deviceids@.len() implies dm.contains_key((#[trigger] deviceids@[k]).0) by {
                assert(first_device_named(dm, plug.devices@[k]@, found@[k].id.0));
            }
        }
        proof {
            assert(chosen_name(d, *plug) == Some(adapter_name@));
            let i = choose|i: int| first_adapter_named(config.adapters@, adapter_name@, i) && config.adapters@[i] == *adapter;
            lemma_first_adapter_unique(config.adapters@, adapter_name@, i);
            assert(has_adapter(config.adapters@, adapter_name@));
            assert(plug_error(d, *plug) is None);
            assert(chosen_adapter(d, *plug) == i);
        }
        Ok((deviceids, ports_found, adapter))
}

/// The ports that a plug command designates are one sequence.
proof fn lemma_found_ports_unique(pm: Map<usize, Port>, names: Seq<String>, p1: Seq<&Port>, p2: Seq<&Port>)
    requires
        is_found_ports(pm, names, p1),
        is_found_ports(pm, names, p2),
    ensures
        p1 == p2,
{
    assert forall|i: int| 0 <= i < p1.len() implies p1[i] == p2[i] by {
        assert(*p1[i] == *p2[i]);
    }
    assert(p1 =~= p2);
}

/// What `plug_codes_ok` says of one device of the command.
proof fn lemma_plug_codes_at(d: Daemon, args: PlugArgs, adapter: &Adapter, ids: Seq<DeviceId>, ports: Seq<&Port>, k: int)
    requires
        plug_codes_ok(d, args),
        plug_error(d, args) is None,
        *adapter == d.config().adapters@[chosen_adapter(d, args)],
        ids == found_devices(d.device_map(), args.devices@),
        is_found_ports(d.port_map(), args.ports@, ports),
        0 <= k < ids.len(),
    ensures
        plug_in_range(adapter, &d.device_map()[ids[k].0].0, ports),
{
    assert(plug_in_range(
        &d.config().adapters@[chosen_adapter(d, args)],
        &d.device_map()[found_devices(d.device_map(), args.devices@)[k].0].0,
        ports,
    ));
}

/// The daemon went from `d0` to `d1` by unplugging all: no plug is left,
/// every device has no plug, nothing else changed but the key of the next
/// plug.
pub open spec fn reset_done(d0: Daemon, d1: Daemon) -> bool {
    &&& d1.plug_map().dom() == Set::<usize>::empty()
    &&& d1.device_map().dom() == d0.device_map().dom()
    &&& forall|k: usize| #[trigger] d0.device_map().contains_key(k) ==> {
        &&& d1.device_map()[k].0 == d0.device_map()[k].0
        &&& d1.device_map()[k].1@ == Seq::<PlugId>::empty()
    }
    &&& d1@ == (DaemonView { devices: d1@.devices, plugs: d1@.plugs, next_plug: d1@.next_plug, ..d0@ })
}

/// `keys` are the keys `dom`, by increasing value.
pub open spec fn sorted_keys(keys: Seq<usize>, dom: Set<usize>) -> bool {
    &&& keys.to_set() == dom
    &&& forall|i: int, j: int| 0 <= i < j < keys.len() ==> keys[i] < keys[j]
}

/// The names of the ports of kind `Gamepad` among the ports of `m` under
/// `keys`, in order.
pub open spec fn gamepad_names(m: Map<usize, Port>, keys: Seq<usize>) -> Seq<Seq<char>>
    decreases keys.len(),
{
    if keys.len() == 0 {
        Seq::empty()
    } else {
        let prev = gamepad_names(m, keys.drop_last());
        if m[keys.last()].config.name@ == "Gamepad"@ {
            prev.push(m[keys.last()].name@)
        } else {
            prev
        }
    }
}

/// A plug command names an adapter or a device, or one of its ports is not
/// found (without these, choosing the default adapter would read the
/// adapter of a first device that the command does not name).
pub open spec fn plug_args_defined(d: Daemon, args: PlugArgs) -> bool {
    args.adapter is Some || args.devices@.len() > 0 || exists|i: int| first_missing_port(d.port_map(), args.ports@, i)
}

/// The kinds of the ports that a plug command names.
pub open spec fn port_kinds(pm: Map<usize, Port>, names: Seq<String>) -> Seq<Seq<char>> {
    names.map_values(|n: String| pm[found_port(pm, n@)].config.name@)
}

/// The devices that a plug command names.
pub open spec fn found_devices(dm: Map<usize, (Device, Vec<PlugId>)>, names: Seq<String>) -> Seq<DeviceId> {
    names.map_values(|n: String| found_device(dm, n@))
}

/// The default adapter of each device that a plug command names, for the
/// port kinds `kinds`.
pub open spec fn default_names(dm: Map<usize, (Device, Vec<PlugId>)>, names: Seq<String>, kinds: Seq<Seq<char>>) -> Seq<Option<Seq<char>>> {
    names.map_values(|n: String| option_view(dm[found_device(dm, n@).0].0.config@.find_adapter(kinds)))
}

/// `ports` are the ports that a plug command's names `names` designate.
pub open spec fn is_found_ports(pm: Map<usize, Port>, names: Seq<String>, ports: Seq<&Port>) -> bool {
    &&& ports.len() == names.len()
    &&& forall|i: int| 0 <= i < ports.len() ==> *(#[trigger] ports[i]) == pm[found_port(pm, names[i]@)]
}

/// The adapter name that a plug command gives or that its devices agree on.
pub open spec fn chosen_name(d: Daemon, args: PlugArgs) -> Option<Seq<char>> {
    match args.adapter {
        Some(a) => Some(a@),
        None => agreed(default_names(d.device_map(), args.devices@, port_kinds(d.port_map(), args.ports@))),
    }
}

/// Some adapter of `adapters` is named `name`.
pub open spec fn has_adapter(adapters: Seq<Adapter>, name: Seq<char>) -> bool {
    exists|i: int| 0 <= i < adapters.len() && (#[trigger] adapters[i]).name@ == name
}

/// The message with which a plug command fails, if it fails.
pub open spec fn plug_error(d: Daemon, args: PlugArgs) -> Option<Seq<char>> {
    let dm = d.device_map();
    let pm = d.port_map();
    if exists|i: int| first_missing_device(dm, args.devices@, i) {
        let i = choose|i: int| first_missing_device(dm, args.devices@, i);
        Some(not_found("Device"@, i as nat, args.devices@[i]@))
    } else if exists|i: int| first_missing_port(pm, args.ports@, i) {
        let i = choose|i: int| first_missing_port(pm, args.ports@, i);
        Some(not_found("Port"@, i as nat, args.ports@[i]@))
    } else {
        match chosen_name(d, args) {
            None => Some("No default adapter found for "@ + debug_list(port_kinds(pm, args.ports@))),
            Some(n) => if has_adapter(d.config().adapters@, n) {
                None
            } else {
                Some("Adapter "@ + n + " not found"@)
            },
        }
    }
}

/// The position of the adapter that a plug command designates.
pub open spec fn chosen_adapter(d: Daemon, args: PlugArgs) -> int {
    choose|i: int| first_adapter_named(d.config().adapters@, chosen_name(d, args)->Some_0, i)
}

/// Where a plug command succeeds, each device it names reads, through the
/// adapter it designates, only codes in range for the ports it names.
pub open spec fn plug_codes_ok(d: Daemon, args: PlugArgs) -> bool {
    plug_error(d, args) is None ==> forall|ports: Seq<&Port>, i: int|
        is_found_ports(d.port_map(), args.ports@, ports) && 0 <= i < args.devices@.len() ==> #[trigger] plug_in_range(
            &d.config().adapters@[chosen_adapter(d, args)],
            &d.device_map()[found_devices(d.device_map(), args.devices@)[i].0].0,
            ports,
        )
}

/// The daemon went from `d0` to `d1` by plugging, as the plug command
/// `args` asks, the devices it names into the ports it names through the
/// first adapter of the chosen name; `events` are the events told.
pub open spec fn plug_done(d0: Daemon, d1: Daemon, args: PlugArgs, events: Seq<EventView>) -> bool {
    let dm = d0.device_map();
    let ai = chosen_adapter(d0, args);
    exists|ports: Seq<&Port>, adapter: &Adapter, keys: Seq<usize>| {
        &&& is_found_ports(d0.port_map(), args.ports@, ports)
        &&& *adapter == d0.config().adapters@[ai]
        &&& events == plugged_events(adapter, dm, found_devices(dm, args.devices@), ports)
        &&& plugged(d0.plug_map(), dm, d1.plug_map(), d1.device_map(), adapter, found_devices(dm, args.devices@), ports, keys)
    }
}

/// A copy of a string option.
fn clone_option(o: &Option<String>) -> (r: Option<String>)
    ensures
        option_view(r) == option_view(*o),
{
    match o {
        Some(s) => Some(s.clone()),
        None => None,
    }
}

/// Whether two string options are equal.
fn same_name(a: &Option<String>, b: &Option<String>) -> (r: bool)
    ensures
        r == (option_view(*a) == option_view(*b)),
{
    match (a, b) {
        (Some(x), Some(y)) => *x == *y,
        (None, None) => true,
        _ => false,
    }
}

/// The first missing device of a command is the one `plug_error` names.
proof fn lemma_first_missing_device_unique(dm: Map<usize, (Device, Vec<PlugId>)>, names: Seq<String>, i: int)
    requires
        first_missing_device(dm, names, i),
    ensures
        (choose|j: int| first_missing_device(dm, names, j)) == i,
{
    let j = choose|j: int| first_missing_device(dm, names, j);
    if j < i {
        assert(devices::has_device_named(dm, names[j]@));
    } else if i < j {
        assert(devices::has_device_named(dm, names[i]@));
    }
}

/// The first missing port of a command is the one `plug_error` names.
proof fn lemma_first_missing_port_unique(pm: Map<usize, Port>, names: Seq<String>, i: int)
    requires
        first_missing_port(pm, names, i),
    ensures
        (choose|j: int| first_missing_port(pm, names, j)) == i,
{
    let j = choose|j: int| first_missing_port(pm, names, j);
    if j < i {
        assert(ports::has_port_named(pm, names[j]@));
    } else if i < j {
        assert(ports::has_port_named(pm, names[i]@));
    }
}

/// The first adapter of a name is the one `plug_done` designates.
proof fn lemma_first_adapter_unique(adapters: Seq<Adapter>, name: Seq<char>, i: int)
    requires
        first_adapter_named(adapters, name, i),
    ensures
        (choose|j: int| first_adapter_named(adapters, name, j)) == i,
{
    let j = choose|j: int| first_adapter_named(adapters, name, j);
    if j < i {
        assert(adapters[j].name@ != name);
    } else if i < j {
        assert(adapters[i].name@ != name);
    }
}

/// Devices found for every name: none is missing, and they are the
/// devices that the names designate.
proof fn lemma_no_missing_device(dm: Map<usize, (Device, Vec<PlugId>)>, names: Seq<String>, v: Seq<&Device>)
    requires
        v.len() == names.len(),
        forall|i: int| 0 <= i < v.len() ==> first_device_named(dm, names[i]@, (#[trigger] v[i]).id.0),
        forall|i: int| 0 <= i < v.len() ==> *(#[trigger] v[i]) == dm[v[i].id.0].0,
        forall|k: usize| dm.contains_key(k) ==> (#[trigger] dm[k]).0.id == DeviceId(k),
    ensures
        !exists|i: int| first_missing_device(dm, names, i),
        forall|i: int| 0 <= i < v.len() ==> found_device(dm, names[i]@) == (#[trigger] v[i]).id,
        forall|i: int| 0 <= i < v.len() ==> *(#[trigger] v[i]) == dm[found_device(dm, names[i]@).0].0,
{
    assert forall|i: int| 0 <= i < v.len() implies found_device(dm, names[i]@) == (#[trigger] v[i]).id by {
        let k = choose|k: usize| first_device_named(dm, names[i]@, k);
        assert(first_device_named(dm, names[i]@, v[i].id.0));
        if k < v[i].id.0 {
            assert(dm[k].0.name@ != names[i]@);
        } else if v[i].id.0 < k {
            assert(dm[v[i].id.0].0.name@ != names[i]@);
        }
        assert(dm[v[i].id.0].0.id == DeviceId(v[i].id.0));
    }
    if exists|i: int| first_missing_device(dm, names, i) {
        let i = choose|i: int| first_missing_device(dm, names, i);
        assert(first_device_named(dm, names[i]@, v[i].id.0));
        assert(devices::has_device_named(dm, names[i]@));
    }
}

/// Ports found for every name: none is missing, and they are the ports
/// that the names designate.
proof fn lemma_no_missing_port(pm: Map<usize, Port>, names: Seq<String>, v: Seq<&Port>)
    requires
        v.len() == names.len(),
        forall|i: int| 0 <= i < v.len() ==> first_port_named(pm, names[i]@, (#[trigger] v[i]).id.0),
        forall|i: int| 0 <= i < v.len() ==> *(#[trigger] v[i]) == pm[v[i].id.0],
    ensures
        !exists|i: int| first_missing_port(pm, names, i),
        forall|i: int| 0 <= i < v.len() ==> found_port(pm, names[i]@) == (#[trigger] v[i]).id.0,
        is_found_ports(pm, names, v),
        forall|i: int| 0 <= i < v.len() ==> pm.contains_key((#[trigger] v[i]).id.0),
{
    assert forall|i: int| 0 <= i < v.len() implies found_port(pm, names[i]@) == (#[trigger] v[i]).id.0 by {
        let k = choose|k: usize| first_port_named(pm, names[i]@, k);
        assert(first_port_named(pm, names[i]@, v[i].id.0));
        if k < v[i].id.0 {
            assert(pm[k].name@ != names[i]@);
        } else if v[i].id.0 < k {
            assert(pm[v[i].id.0].name@ != names[i]@);
        }
    }
    assert forall|i: int| 0 <= i < v.len() implies pm.contains_key((#[trigger] v[i]).id.0) by {
        assert(first_port_named(pm, names[i]@, v[i].id.0));
    }
    if exists|i: int| first_missing_port(pm, names, i) {
        let i = choose|i: int| first_missing_port(pm, names, i);
        assert(first_port_named(pm, names[i]@, v[i].id.0));
        assert(ports::has_port_named(pm, names[i]@));
    }
}

/// One more name in the agreement: it stays if the name equals it.
proof fn lemma_agreed_step(all: Seq<Option<Seq<char>>>, j: int)
    requires
        0 <= j < all.len(),
    ensures
        agreed(all.take(j + 1)) == {
            let l = if j == 0 { all[0] } else { agreed(all.take(j)) };
            if l == all[j] { l } else { None }
        },
{
    let t = all.take(j + 1);
    let p = all.take(j);
    if j > 0 {
        if forall|i: int| 0 <= i < p.len() ==> #[trigger] p[i] == p[0] {
            if all[j] == all[0] {
                assert forall|i: int| 0 <= i < t.len() implies #[trigger] t[i] == t[0] by {
                    if i < j {
                        assert(t[i] == p[i]);
                    }
                }
            } else {
                assert(!(t[j] == t[0]));
            }
        } else {
            let i = choose|i: int| 0 <= i < p.len() && !(#[trigger] p[i] == p[0]);
            assert(t[i] == p[i]);
            assert(!(t[i] == t[0]));
        }
    } else {
        assert forall|i: int| 0 <= i < t.len() implies #[trigger] t[i] == t[0] by {}
    }
}

/// The plugs made for a device are plugs of the devices that succeeded.
proof fn lemma_new_plugs_made(adapter: &Adapter, dm: Map<usize, (Device, Vec<PlugId>)>, ids: Seq<DeviceId>, ports: Seq<&Port>, keys: Seq<usize>, k: usize)
    requires
        keys.len() >= ids.len(),
    ensures
        forall|x: int| 0 <= x < plugging::new_plugs(adapter, dm, ids, ports, keys, k).len() ==> exists|j: int| {
            &&& 0 <= j < ids.len()
            &&& plugging::plug_succeeds(adapter, dm, ids[j], ports)
            &&& #[trigger] plugging::new_plugs(adapter, dm, ids, ports, keys, k)[x] == PlugId(keys[j])
        },
    decreases ids.len(),
{
    if ids.len() > 0 {
        let prefix = ids.drop_last();
        lemma_new_plugs_made(adapter, dm, prefix, ports, keys, k);
        let s = plugging::new_plugs(adapter, dm, ids, ports, keys, k);
        let prev = plugging::new_plugs(adapter, dm, prefix, ports, keys, k);
        assert forall|x: int| 0 <= x < s.len() implies exists|j: int| {
            &&& 0 <= j < ids.len()
            &&& plugging::plug_succeeds(adapter, dm, ids[j], ports)
            &&& #[trigger] s[x] == PlugId(keys[j])
        } by {
            if x < prev.len() {
                assert(s[x] == prev[x]);
                let j = choose|j: int| {
                    &&& 0 <= j < prefix.len()
                    &&& plugging::plug_succeeds(adapter, dm, prefix[j], ports)
                    &&& #[trigger] prev[x] == PlugId(keys[j])
                };
                assert(prefix[j] == ids[j]);
            } else {
                assert(s[x] == PlugId(keys[ids.len() - 1]));
            }
        }
    }
}

/// Plugging keeps the daemon's invariant.
proof fn lemma_plugged_wf(d0: Daemon, d1: Daemon, adapter: &Adapter, ids: Seq<DeviceId>, ports: Seq<&Port>, keys: Seq<usize>)
    requires
        d0.wf(),
        d1.config == d0.config,
        d1.ports == d0.ports,
        d1.autoplug == d0.autoplug,
        d1.devices.wf(),
        d1.plugs.wf(),
        d1.devices.slots() == d0.devices.slots(),
        forall|i: int| 0 <= i < ids.len() ==> d0.devices.map().contains_key((#[trigger] ids[i]).0),
        forall|i: int| 0 <= i < ports.len() ==> d0.ports.map().contains_key((#[trigger] ports[i]).id.0),
        forall|i: int| 0 <= i < ids.len() ==> plug_in_range(adapter, &d0.devices.map()[(#[trigger] ids[i]).0].0, ports),
        plugged(d0.plugs.map(), d0.devices.map(), d1.plugs.map(), d1.devices.map(), adapter, ids, ports, keys),
    ensures
        d1.wf(),
{
    let dm0 = d0.devices.map();
    let dm1 = d1.devices.map();
    let pm0 = d0.plugs.map();
    let pm1 = d1.plugs.map();
    let ids_set = port_ids(d0.ports.map());
    assert forall|k: usize, i: int| dm1.contains_key(k) && 0 <= i < dm1[k].1@.len() implies pm1.contains_key((#[trigger] dm1[k].1@[i]).0) by {
        assert(dm0.contains_key(k));
        let old_len = dm0[k].1@.len();
        if i < old_len {
            assert(dm1[k].1@[i] == dm0[k].1@[i]);
            assert(pm0.contains_key(dm0[k].1@[i].0));
        } else {
            lemma_new_plugs_made(adapter, dm0, ids, ports, keys, k);
            let s = plugging::new_plugs(adapter, dm0, ids, ports, keys, k);
            assert(dm1[k].1@[i] == s[i - old_len]);
            let j = choose|j: int| {
                &&& 0 <= j < ids.len()
                &&& plugging::plug_succeeds(adapter, dm0, ids[j], ports)
                &&& #[trigger] s[i - old_len] == PlugId(keys[j])
            };
            assert(pm1.contains_key(keys[j]));
        }
    }
    assert forall|k: usize| pm1.contains_key(k) implies {
        &&& routes_within((#[trigger] pm1[k]).tables(), port_ids(d1.ports.map()))
        &&& forall|i: int| 0 <= i < pm1[k].portids@.len() ==> d1.ports.map().contains_key(pm1[k].portids@[i].0)
    } by {
        if pm0.contains_key(k) {
            assert(pm1[k] == pm0[k]);
        } else {
            let j = choose|j: int| 0 <= j < ids.len() && plugging::plug_succeeds(adapter, dm0, ids[j], ports) && keys[j] == k;
            let device = &dm0[ids[j].0].0;
            assert(dm0.contains_key(ids[j].0));
            assert forall|i: int| 0 <= i < ports.len() implies ids_set.contains((#[trigger] ports[i]).id) by {
                assert(d0.ports.map().contains_key(ports[i].id.0));
            }
            assert(plug_in_range(adapter, device, ports));
            lemma_plug_routes(adapter, device, ports, ids_set);
            assert(plugging::is_plug_of(pm1[keys[j]], keys[j], adapter, device, ports));
            assert forall|i: int| 0 <= i < pm1[k].portids@.len() implies d1.ports.map().contains_key(pm1[k].portids@[i].0) by {
                assert(pm1[k].portids@[i] == ports[i].id);
                assert(d0.ports.map().contains_key(ports[i].id.0));
            }
        }
    }
}

} // verus!
