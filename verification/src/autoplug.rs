//! Automatic plugging: an adapter whose configuration names trigger keys
//! plugs the devices on which those keys are held, once every trigger is
//! held on exactly one device.

use vstd::prelude::*;
use std::collections::HashSet;
use crate::config::{Config, first_device_named};
use crate::config::adapter::{Adapter as AdapterConfig, AdapterView, Device as InputConfig};
use crate::config::device::Device as DeviceConfig;
use crate::config::lookup::{find_named, named};
use crate::device::{Device, DeviceId};
use crate::input::{KeyEvent, KeyId, KeyState};

verus! {

broadcast use vstd::std_specs::hash::group_hash_axioms;

/// The automatic plugging rules of all adapters that have some.
pub struct AutoPlug {
    per_adapters: Vec<PerAdapter>,
}

struct PerAdapter {
    adapter: AdapterConfig,
    triggers: Vec<Trigger>,
}

struct Trigger {
    device_name: String,
    key_id: KeyId,
    candidates: HashSet<usize>,
}

/// Model of the rules of one adapter.
pub struct PerAdapterView {
    pub adapter: AdapterView,
    pub triggers: Seq<TriggerView>,
}

/// Model of one trigger: a key of a kind of device, and the devices of
/// that kind on which it is currently held.
pub struct TriggerView {
    pub device_name: Seq<char>,
    pub key_id: KeyId,
    pub candidates: Set<usize>,
}

impl View for Trigger {
    type V = TriggerView;

    closed spec fn view(&self) -> TriggerView {
        TriggerView { device_name: self.device_name@, key_id: self.key_id, candidates: self.candidates@ }
    }
}

impl View for PerAdapter {
    type V = PerAdapterView;

    closed spec fn view(&self) -> PerAdapterView {
        PerAdapterView { adapter: self.adapter@, triggers: self.triggers@.map_values(|t: Trigger| t@) }
    }
}

impl View for AutoPlug {
    type V = Seq<PerAdapterView>;

    closed spec fn view(&self) -> Seq<PerAdapterView> {
        self.per_adapters@.map_values(|p: PerAdapter| p@)
    }
}

/// The first device configuration named `name`, if any.
pub open spec fn device_named(devices: Seq<DeviceConfig>, name: Seq<char>) -> Option<DeviceConfig> {
    if exists|i: int| first_device_named(devices, name, i) {
        Some(devices[choose|i: int| first_device_named(devices, name, i)])
    } else {
        None
    }
}

/// Where the scan of an adapter's trigger keys stands: the triggers found
/// so far; an input whose device kind is unknown (the adapter has no
/// rules); or a trigger key that the device kind does not name.
pub enum Scan {
    Found(Seq<TriggerView>),
    Unknown,
    MissingKey,
}

/// The scan after the autoplug entry `entry`, for the adapter input `input`.
pub open spec fn scan_step(devices: Seq<DeviceConfig>, input: InputConfig, prev: Scan, entry: (String, String)) -> Scan {
    match prev {
        Scan::Found(ts) => if input.name@ == entry.0@ {
            match device_named(devices, input.match_@) {
                None => Scan::Unknown,
                Some(dc) => match named(dc.keys@, entry.1@) {
                    None => Scan::MissingKey,
                    Some(k) => Scan::Found(ts.push(TriggerView { device_name: entry.0@, key_id: k, candidates: Set::empty() })),
                },
            }
        } else {
            Scan::Found(ts)
        },
        other => other,
    }
}

/// The scan after the autoplug entries `entries`, in order, for `input`.
pub open spec fn scan_entries(devices: Seq<DeviceConfig>, input: InputConfig, entries: Seq<(String, String)>, start: Scan) -> Scan
    decreases entries.len(),
{
    if entries.len() == 0 {
        start
    } else {
        scan_step(devices, input, scan_entries(devices, input, entries.drop_last(), start), entries.last())
    }
}

/// The scan of the adapter inputs `inputs`, each against every autoplug entry.
pub open spec fn scan_inputs(devices: Seq<DeviceConfig>, inputs: Seq<InputConfig>, autoplug: Seq<(String, String)>) -> Scan
    decreases inputs.len(),
{
    if inputs.len() == 0 {
        Scan::Found(Seq::empty())
    } else {
        scan_entries(devices, inputs.last(), autoplug, scan_inputs(devices, inputs.drop_last(), autoplug))
    }
}

/// The rules of `adapter`: its triggers, when the scan finds some.
pub open spec fn spec_per_adapter(config: Config, adapter: AdapterConfig) -> Option<PerAdapterView> {
    match scan_inputs(config.devices@, adapter.inputs@, adapter.autoplug@) {
        Scan::Found(ts) => if ts.len() > 0 { Some(PerAdapterView { adapter: adapter@, triggers: ts }) } else { None },
        _ => None,
    }
}

/// The rules of the adapters `adapters` that have some, in order.
pub open spec fn spec_per_adapters(config: Config, adapters: Seq<AdapterConfig>) -> Seq<PerAdapterView>
    decreases adapters.len(),
{
    if adapters.len() == 0 {
        Seq::empty()
    } else {
        let prev = spec_per_adapters(config, adapters.drop_last());
        match spec_per_adapter(config, adapters.last()) {
            Some(p) => prev.push(p),
            None => prev,
        }
    }
}

/// Every trigger key that the configuration's adapters name is known to
/// the device kind it is scanned against (else reading the rules fails).
pub open spec fn autoplug_keys_known(config: Config) -> bool {
    forall|i: int| 0 <= i < config.adapters@.len() ==>
        !(scan_inputs(config.devices@, (#[trigger] config.adapters@[i]).inputs@, config.adapters@[i].autoplug@) is MissingKey)
}

/// The trigger after the key event `event` of `device`: the device joins
/// the candidates when the trigger's key is pressed or repeats on a device
/// of the trigger's kind, and leaves them when it is released.
pub open spec fn trigger_update(t: TriggerView, device_kind: Seq<char>, device: DeviceId, event: KeyEvent) -> TriggerView {
    if t.device_name == device_kind && t.key_id == event.id {
        match event.state {
            KeyState::Released => TriggerView { candidates: t.candidates.remove(device.0), ..t },
            _ => TriggerView { candidates: t.candidates.insert(device.0), ..t },
        }
    } else {
        t
    }
}

/// The only element of a set of one element.
pub open spec fn single(s: Set<usize>) -> usize {
    choose|x: usize| s.contains(x)
}

/// The devices of the triggers that have a single candidate, each once, in
/// order; and whether every trigger has a single candidate.
pub open spec fn collect(ts: Seq<TriggerView>) -> (Seq<DeviceId>, bool)
    decreases ts.len(),
{
    if ts.len() == 0 {
        (Seq::empty(), true)
    } else {
        let prev = collect(ts.drop_last());
        let t = ts.last();
        if t.candidates.len() == 1 {
            let c = DeviceId(single(t.candidates));
            (if prev.0.contains(c) { prev.0 } else { prev.0.push(c) }, prev.1)
        } else {
            (prev.0, false)
        }
    }
}

/// The triggers with no candidates left.
pub open spec fn cleared(ts: Seq<TriggerView>) -> Seq<TriggerView> {
    ts.map_values(|t: TriggerView| TriggerView { candidates: Set::empty(), ..t })
}

/// The rules of an adapter after a key event of a device of kind
/// `device_kind`: when every trigger then has a single candidate, the
/// candidates are cleared and the adapter is to plug the candidates.
pub open spec fn per_adapter_step(p: PerAdapterView, device_kind: Seq<char>, device: DeviceId, event: KeyEvent) -> (PerAdapterView, Option<(AdapterView, Seq<DeviceId>)>) {
    let updated = p.triggers.map_values(|t: TriggerView| trigger_update(t, device_kind, device, event));
    let c = collect(updated);
    if c.1 {
        (PerAdapterView { triggers: cleared(updated), ..p }, Some((p.adapter, c.0)))
    } else {
        (PerAdapterView { triggers: updated, ..p }, None)
    }
}

/// The rules after a key event: each adapter's rules take it in turn, until
/// one of them plugs.
pub open spec fn autoplug_step(ps: Seq<PerAdapterView>, device_kind: Seq<char>, device: DeviceId, event: KeyEvent) -> (Seq<PerAdapterView>, Option<(AdapterView, Seq<DeviceId>)>)
    decreases ps.len(),
{
    if ps.len() == 0 {
        (Seq::empty(), None)
    } else {
        let first = per_adapter_step(ps[0], device_kind, device, event);
        if first.1 is Some {
            (seq![first.0] + ps.drop_first(), first.1)
        } else {
            let rest = autoplug_step(ps.drop_first(), device_kind, device, event);
            (seq![first.0] + rest.0, rest.1)
        }
    }
}

/// The candidate sets of the rules are finite.
pub open spec fn rules_wf(ps: Seq<PerAdapterView>) -> bool {
    forall|i: int, j: int| 0 <= i < ps.len() && 0 <= j < ps[i].triggers.len() ==> (#[trigger] ps[i].triggers[j]).candidates.finite()
}

/// The first device found by `find_device_by_name` is `device_named`.
proof fn lemma_device_named(devices: Seq<DeviceConfig>, name: Seq<char>, i: int)
    requires
        first_device_named(devices, name, i),
    ensures
        device_named(devices, name) == Some(devices[i]),
{
    let j = choose|j: int| first_device_named(devices, name, j);
    if j < i {
        assert(devices[j].name@ != name);
    } else if i < j {
        assert(devices[i].name@ != name);
    }
}

/// The only element of a set of one element.
fn the_candidate(s: &HashSet<usize>) -> (r: usize)
    requires
        s@.len() == 1,
    ensures
        s@ == set![r],
{
    let mut r: usize = 0;
    let mut found = false;
    for x in it: s.iter()
        invariant
            found <==> it.index() > 0,
            it.seq().len() == 1,
            it.seq().unref().to_set() == s@,
            found ==> r == *it.seq()[0],
            found ==> s@ == set![r],
    {
        if !found {
            r = *x;
            proof {
                let q = it.seq().unref();
                assert forall|y: usize| q.to_set().contains(y) <==> y == r by {
                    if y == r {
                        assert(q.contains(r));
                    }
                    if q.to_set().contains(y) {
                        assert(q.contains(y));
                    }
                }
                assert(q.to_set() =~= set![r]);
            }
        }
        found = true;
    }
    r
}

/// A scan that stopped stays stopped over further entries.
proof fn lemma_scan_entries_stopped(devices: Seq<DeviceConfig>, input: InputConfig, entries: Seq<(String, String)>, start: Scan)
    requires
        !(start is Found),
    ensures
        scan_entries(devices, input, entries, start) == start,
    decreases entries.len(),
{
    if entries.len() > 0 {
        lemma_scan_entries_stopped(devices, input, entries.drop_last(), start);
    }
}

/// A scan of entries that stops on a prefix stops there.
proof fn lemma_scan_entries_prefix(devices: Seq<DeviceConfig>, input: InputConfig, entries: Seq<(String, String)>, start: Scan, j: int)
    requires
        0 <= j <= entries.len(),
        !(scan_entries(devices, input, entries.take(j), start) is Found),
    ensures
        scan_entries(devices, input, entries, start) == scan_entries(devices, input, entries.take(j), start),
    decreases entries.len() - j,
{
    if j < entries.len() {
        assert(entries.take(j + 1).drop_last() =~= entries.take(j));
        lemma_scan_entries_prefix(devices, input, entries, start, j + 1);
    } else {
        assert(entries.take(j) =~= entries);
    }
}

/// A scan of inputs that stops on a prefix stops there.
proof fn lemma_scan_inputs_prefix(devices: Seq<DeviceConfig>, inputs: Seq<InputConfig>, autoplug: Seq<(String, String)>, i: int)
    requires
        0 <= i <= inputs.len(),
        !(scan_inputs(devices, inputs.take(i), autoplug) is Found),
    ensures
        scan_inputs(devices, inputs, autoplug) == scan_inputs(devices, inputs.take(i), autoplug),
    decreases inputs.len() - i,
{
    if i < inputs.len() {
        assert(inputs.take(i + 1).drop_last() =~= inputs.take(i));
        lemma_scan_entries_stopped(devices, inputs.take(i + 1).last(), autoplug, scan_inputs(devices, inputs.take(i), autoplug));
        lemma_scan_inputs_prefix(devices, inputs, autoplug, i + 1);
    } else {
        assert(inputs.take(i) =~= inputs);
    }
}

impl PerAdapter {
    /// The rules of `adapter`, if it has triggers and all its inputs name
    /// known device kinds.
    fn new(config: &Config, adapter: &AdapterConfig) -> (r: Option<PerAdapter>)
        requires
            !(scan_inputs(config.devices@, adapter.inputs@, adapter.autoplug@) is MissingKey),
        ensures
            match r {
                Some(p) => spec_per_adapter(*config, *adapter) == Some(p@),
                None => spec_per_adapter(*config, *adapter) is None,
            },
            r matches Some(p) ==> forall|j: int| 0 <= j < p@.triggers.len() ==> (#[trigger] p@.triggers[j]).candidates.finite(),
    {
        let ghost devices = config.devices@;
        let ghost inputs = adapter.inputs@;
        let ghost autoplug = adapter.autoplug@;
        let cloned = adapter.clone();
        let mut triggers: Vec<Trigger> = Vec::new();
        assert(inputs.take(0) =~= Seq::<InputConfig>::empty());
        assert(triggers@.map_values(|t: Trigger| t@) =~= Seq::<TriggerView>::empty());
        let mut i: usize = 0;
        while i < cloned.inputs.len()
            invariant
                i <= cloned.inputs.len(),
                inputs == adapter.inputs@,
                inputs == cloned.inputs@,
                autoplug == adapter.autoplug@,
                autoplug == cloned.autoplug@,
                cloned@ == adapter@,
                devices == config.devices@,
                !(scan_inputs(devices, inputs, autoplug) is MissingKey),
                scan_inputs(devices, inputs.take(i as int), autoplug) == Scan::Found(triggers@.map_values(|t: Trigger| t@)),
                forall|j: int| 0 <= j < triggers@.len() ==> (#[trigger] triggers@[j])@.candidates == Set::<usize>::empty(),
            decreases cloned.inputs.len() - i,
        {
            assert(inputs.take(i + 1).drop_last() =~= inputs.take(i as int));
            assert(inputs.take(i + 1).last() == inputs[i as int]);
            let device = &cloned.inputs[i];
            let ghost start = scan_inputs(devices, inputs.take(i as int), autoplug);
            assert(autoplug.take(0) =~= Seq::<(String, String)>::empty());
            let mut j: usize = 0;
            while j < cloned.autoplug.len()
                invariant
                    j <= cloned.autoplug.len(),
                    i < cloned.inputs.len(),
                    inputs == adapter.inputs@,
                inputs == cloned.inputs@,
                    autoplug == adapter.autoplug@,
                autoplug == cloned.autoplug@,
                cloned@ == adapter@,
                    devices == config.devices@,
                    *device == inputs[i as int],
                    !(scan_inputs(devices, inputs, autoplug) is MissingKey),
                    start == scan_inputs(devices, inputs.take(i as int), autoplug),
                    inputs.take(i + 1).drop_last() == inputs.take(i as int),
                    inputs.take(i + 1).last() == inputs[i as int],
                    scan_entries(devices, inputs[i as int], autoplug.take(j as int), start) == Scan::Found(triggers@.map_values(|t: Trigger| t@)),
                    forall|k: int| 0 <= k < triggers@.len() ==> (#[trigger] triggers@[k])@.candidates == Set::<usize>::empty(),
                decreases cloned.autoplug.len() - j,
            {
                assert(autoplug.take(j + 1).drop_last() =~= autoplug.take(j as int));
                assert(autoplug.take(j + 1).last() == autoplug[j as int]);
                let device_name = &cloned.autoplug[j].0;
                let key_name = &cloned.autoplug[j].1;
                if device.name == *device_name {
                    match config.find_device_by_name(&device.match_) {
                        Some(device_config) => {
                            proof {
                                let k = choose|k: int| first_device_named(config.devices@, device.match_@, k) && config.devices@[k] == *device_config;
                                lemma_device_named(devices, device.match_@, k);
                            }
                            match find_named(&device_config.keys, key_name) {
                                Some(key_id) => {
                                    let candidates: HashSet<usize> = HashSet::new();
                                    let t = Trigger { device_name: device_name.clone(), key_id, candidates };
                                    let ghost before = triggers@;
                                    assert(t@ == TriggerView { device_name: device_name@, key_id, candidates: Set::empty() });
                                    triggers.push(t);
                                    proof {
                                        assert(triggers@.map_values(|t: Trigger| t@) =~= before.map_values(|t: Trigger| t@).push(t@));
                                    }
                                },
                                None => {
                                    proof {
                                        lemma_scan_entries_prefix(devices, inputs[i as int], autoplug, start, j + 1);
                                        lemma_scan_inputs_prefix(devices, inputs, autoplug, i + 1);
                                    }
                                    assert(false);
                                    return None;
                                },
                            }
                        },
                        None => {
                            proof {
                                assert(device_named(devices, device.match_@) is None);
                                assert(scan_entries(devices, inputs[i as int], autoplug.take(j + 1), start) == Scan::Unknown);
                                lemma_scan_entries_prefix(devices, inputs[i as int], autoplug, start, j + 1);
                                assert(scan_inputs(devices, inputs.take(i + 1), autoplug) == Scan::Unknown);
                                lemma_scan_inputs_prefix(devices, inputs, autoplug, i + 1);
                            }
                            return None;
                        },
                    }
                }
                j = j + 1;
            }
            assert(autoplug.take(autoplug.len() as int) =~= autoplug);
            i = i + 1;
        }
        assert(inputs.take(inputs.len() as int) =~= inputs);
        if triggers.len() > 0 {
            Some(PerAdapter { adapter: cloned, triggers })
        } else {
            None
        }
    }
}

/// Whether scanning the inputs of `adapter` against its autoplug entries
/// meets a trigger key that the device kind does not name.
fn misses_key(config: &Config, adapter: &AdapterConfig) -> (r: bool)
    ensures
        r == (scan_inputs(config.devices@, adapter.inputs@, adapter.autoplug@) is MissingKey),
{
    let ghost devices = config.devices@;
    let ghost inputs = adapter.inputs@;
    let ghost autoplug = adapter.autoplug@;
    let ghost mut ts: Seq<TriggerView> = Seq::empty();
    assert(inputs.take(0) =~= Seq::<InputConfig>::empty());
    let mut i: usize = 0;
    while i < adapter.inputs.len()
        invariant
            i <= adapter.inputs.len(),
            inputs == adapter.inputs@,
            autoplug == adapter.autoplug@,
            devices == config.devices@,
            scan_inputs(devices, inputs.take(i as int), autoplug) == Scan::Found(ts),
        decreases adapter.inputs.len() - i,
    {
        assert(inputs.take(i + 1).drop_last() =~= inputs.take(i as int));
        assert(inputs.take(i + 1).last() == inputs[i as int]);
        let device = &adapter.inputs[i];
        let ghost start = scan_inputs(devices, inputs.take(i as int), autoplug);
        assert(autoplug.take(0) =~= Seq::<(String, String)>::empty());
        let mut j: usize = 0;
        while j < adapter.autoplug.len()
            invariant
                j <= adapter.autoplug.len(),
                i < adapter.inputs.len(),
                inputs == adapter.inputs@,
                autoplug == adapter.autoplug@,
                devices == config.devices@,
                *device == inputs[i as int],
                start == scan_inputs(devices, inputs.take(i as int), autoplug),
                inputs.take(i + 1).drop_last() == inputs.take(i as int),
                inputs.take(i + 1).last() == inputs[i as int],
                scan_entries(devices, inputs[i as int], autoplug.take(j as int), start) == Scan::Found(ts),
            decreases adapter.autoplug.len() - j,
        {
            assert(autoplug.take(j + 1).drop_last() =~= autoplug.take(j as int));
            assert(autoplug.take(j + 1).last() == autoplug[j as int]);
            let device_name = &adapter.autoplug[j].0;
            let key_name = &adapter.autoplug[j].1;
            if device.name == *device_name {
                match config.find_device_by_name(&device.match_) {
                    Some(device_config) => {
                        proof {
                            let k = choose|k: int| first_device_named(config.devices@, device.match_@, k) && config.devices@[k] == *device_config;
                            lemma_device_named(devices, device.match_@, k);
                        }
                        match find_named(&device_config.keys, key_name) {
                            Some(key_id) => {
                                proof {
                                    ts = ts.push(TriggerView { device_name: device_name@, key_id, candidates: Set::empty() });
                                }
                            },
                            None => {
                                proof {
                                    lemma_scan_entries_prefix(devices, inputs[i as int], autoplug, start, j + 1);
                                    lemma_scan_inputs_prefix(devices, inputs, autoplug, i + 1);
                                }
                                return true;
                            },
                        }
                    },
                    None => {
                        proof {
                            assert(device_named(devices, device.match_@) is None);
                            lemma_scan_entries_prefix(devices, inputs[i as int], autoplug, start, j + 1);
                            lemma_scan_inputs_prefix(devices, inputs, autoplug, i + 1);
                        }
                        return false;
                    },
                }
            }
            j = j + 1;
        }
        assert(autoplug.take(autoplug.len() as int) =~= autoplug);
        i = i + 1;
    }
    assert(inputs.take(inputs.len() as int) =~= inputs);
    false
}

/// Whether every trigger key that the configuration's adapters name is
/// known to its device kind.
pub fn keys_known(config: &Config) -> (r: bool)
    ensures
        r == autoplug_keys_known(*config),
{
    let mut i: usize = 0;
    while i < config.adapters.len()
        invariant
            i <= config.adapters.len(),
            forall|k: int| 0 <= k < i ==>
                !(scan_inputs(config.devices@, (#[trigger] config.adapters@[k]).inputs@, config.adapters@[k].autoplug@) is MissingKey),
        decreases config.adapters.len() - i,
    {
        if misses_key(config, &config.adapters[i]) {
            return false;
        }
        i = i + 1;
    }
    true
}

/// Whether `v` holds `c`.
fn contains_device(v: &Vec<DeviceId>, c: DeviceId) -> (r: bool)
    ensures
        r == v@.contains(c),
{
    let mut i: usize = 0;
    while i < v.len()
        invariant
            i <= v.len(),
            forall|j: int| 0 <= j < i ==> v@[j] != c,
        decreases v.len() - i,
    {
        if v[i] == c {
            assert(v@[i as int] == c);
            return true;
        }
        i = i + 1;
    }
    false
}

impl PerAdapter {
    /// Takes the key event `event` of `device`: updates the candidates of the
    /// triggers of the event's key; when every trigger then has a single
    /// candidate, clears them and gives the adapter and those devices.
    fn on_input_key_change(&mut self, device: &Device, event: &KeyEvent) -> (r: Option<(AdapterConfig, Vec<DeviceId>)>)
        requires
            forall|j: int| 0 <= j < old(self)@.triggers.len() ==> (#[trigger] old(self)@.triggers[j]).candidates.finite(),
        ensures
            final(self)@ == per_adapter_step(old(self)@, device.config.name@, device.id, *event).0,
            match r {
                Some((a, v)) => per_adapter_step(old(self)@, device.config.name@, device.id, *event).1 == Some((a@, v@)),
                None => per_adapter_step(old(self)@, device.config.name@, device.id, *event).1 is None,
            },
            forall|j: int| 0 <= j < final(self)@.triggers.len() ==> (#[trigger] final(self)@.triggers[j]).candidates.finite(),
    {
        let ghost old_view = self@;
        let ghost kind = device.config.name@;
        let ghost updated = old_view.triggers.map_values(|t: TriggerView| trigger_update(t, kind, device.id, *event));
        let mut indexes: Vec<DeviceId> = Vec::new();
        let mut all = true;
        let mut i: usize = 0;
        assert(updated.take(0) =~= Seq::<TriggerView>::empty());
        while i < self.triggers.len()
            invariant
                i <= self.triggers.len(),
                self.triggers@.len() == old_view.triggers.len(),
                self@.adapter == old_view.adapter,
                kind == device.config.name@,
                updated == old_view.triggers.map_values(|t: TriggerView| trigger_update(t, kind, device.id, *event)),
                forall|j: int| 0 <= j < i ==> (#[trigger] self.triggers@[j])@ == updated[j],
                forall|j: int| i <= j < self.triggers@.len() ==> (#[trigger] self.triggers@[j])@ == old_view.triggers[j],
                forall|j: int| 0 <= j < old_view.triggers.len() ==> (#[trigger] old_view.triggers[j]).candidates.finite(),
                collect(updated.take(i as int)) == (indexes@, all),
            decreases self.triggers.len() - i,
        {
            assert(updated.take(i + 1).drop_last() =~= updated.take(i as int));
            assert(updated.take(i + 1).last() == updated[i as int]);
            assert(self.triggers@[i as int]@ == old_view.triggers[i as int]);
            let trigger = &mut self.triggers[i];
            if trigger.device_name == device.config.name && trigger.key_id == event.id {
                match event.state {
                    KeyState::Released => {
                        trigger.candidates.remove(&device.id.0);
                    },
                    KeyState::Pressed => {
                        trigger.candidates.insert(device.id.0);
                    },
                    KeyState::AutoRepeat => {
                        trigger.candidates.insert(device.id.0);
                    },
                }
            }
            assert(trigger@ == updated[i as int]);
            if trigger.candidates.len() == 1 {
                let candidate = the_candidate(&trigger.candidates);
                proof {
                    assert(trigger.candidates@.contains(candidate));
                    assert(single(trigger.candidates@) == candidate);
                }
                if !contains_device(&indexes, DeviceId(candidate)) {
                    indexes.push(DeviceId(candidate));
                }
            } else {
                all = false;
            }
            i = i + 1;
        }
        assert(updated.take(updated.len() as int) =~= updated);
        if all {
            let mut k: usize = 0;
            while k < self.triggers.len()
                invariant
                    k <= self.triggers.len(),
                    self.triggers@.len() == updated.len(),
                    self@.adapter == old_view.adapter,
                    forall|j: int| 0 <= j < k ==> (#[trigger] self.triggers@[j])@ == cleared(updated)[j],
                    forall|j: int| k <= j < self.triggers@.len() ==> (#[trigger] self.triggers@[j])@ == updated[j],
                decreases self.triggers.len() - k,
            {
                let trigger = &mut self.triggers[k];
                trigger.candidates.clear();
                k = k + 1;
            }
            assert(self@.triggers =~= cleared(updated));
            Some((self.adapter.clone(), indexes))
        } else {
            assert(self@.triggers =~= updated);
            None
        }
    }
}

impl AutoPlug {
    /// The rules of the configuration's adapters that have triggers.
    pub fn new(config: &Config) -> (r: Self)
        requires
            autoplug_keys_known(*config),
        ensures
            r@ == spec_per_adapters(*config, config.adapters@),
            rules_wf(r@),
    {
        let mut per_adapters: Vec<PerAdapter> = Vec::new();
        let mut i: usize = 0;
        assert(config.adapters@.take(0) =~= Seq::<AdapterConfig>::empty());
        assert(per_adapters@.map_values(|p: PerAdapter| p@) =~= Seq::<PerAdapterView>::empty());
        while i < config.adapters.len()
            invariant
                i <= config.adapters.len(),
                autoplug_keys_known(*config),
                per_adapters@.map_values(|p: PerAdapter| p@) == spec_per_adapters(*config, config.adapters@.take(i as int)),
                rules_wf(per_adapters@.map_values(|p: PerAdapter| p@)),
            decreases config.adapters.len() - i,
        {
            assert(config.adapters@.take(i + 1).drop_last() =~= config.adapters@.take(i as int));
            assert(config.adapters@.take(i + 1).last() == config.adapters@[i as int]);
            let ghost before = per_adapters@;
            match PerAdapter::new(config, &config.adapters[i]) {
                Some(per_adapter) => {
                    per_adapters.push(per_adapter);
                    assert(per_adapters@.map_values(|p: PerAdapter| p@) =~= before.map_values(|p: PerAdapter| p@).push(per_adapter@));
                },
                None => {},
            }
            i = i + 1;
        }
        assert(config.adapters@.take(config.adapters.len() as int) =~= config.adapters@);
        AutoPlug { per_adapters }
    }

    /// The candidate sets of the rules are finite.
    pub open spec fn wf(&self) -> bool {
        rules_wf(self@)
    }

    /// Takes the key event `event` of `device`: each adapter's rules take it
    /// in turn until one of them plugs, which gives its adapter and the
    /// devices to plug.
    pub fn on_input_key_change(&mut self, device: &Device, event: &KeyEvent) -> (r: Option<(AdapterConfig, Vec<DeviceId>)>)
        requires
            old(self).wf(),
        ensures
            final(self)@ == autoplug_step(old(self)@, device.config.name@, device.id, *event).0,
            match r {
                Some((a, v)) => autoplug_step(old(self)@, device.config.name@, device.id, *event).1 == Some((a@, v@)),
                None => autoplug_step(old(self)@, device.config.name@, device.id, *event).1 is None,
            },
            final(self).wf(),
    {
        let ghost old_view = self@;
        let ghost kind = device.config.name@;
        let mut i: usize = 0;
        while i < self.per_adapters.len()
            invariant
                i <= self.per_adapters.len(),
                self.per_adapters@.len() == old_view.len(),
                old_view == old(self)@,
                kind == device.config.name@,
                forall|j: int| 0 <= j < i ==> (#[trigger] per_adapter_step(old_view[j], kind, device.id, *event)).1 is None,
                forall|j: int| 0 <= j < i ==> (#[trigger] self.per_adapters@[j])@ == per_adapter_step(old_view[j], kind, device.id, *event).0,
                forall|j: int| i <= j < old_view.len() ==> (#[trigger] self.per_adapters@[j])@ == old_view[j],
                rules_wf(self@),
                rules_wf(old_view),
            decreases self.per_adapters.len() - i,
        {
            let ghost before = self@;
            let ghost before_vec = self.per_adapters@;
            let per_adapter = &mut self.per_adapters[i];
            assert(per_adapter@ == old_view[i as int]);
            let result = per_adapter.on_input_key_change(device, event);
            proof {
                assert forall|j: int, k: int| 0 <= j < self@.len() && 0 <= k < self@[j].triggers.len()
                    implies (#[trigger] self@[j].triggers[k]).candidates.finite() by {
                    if j != i {
                        assert(self@[j] == before[j]);
                    }
                }
            }
            match result {
                Some(found) => {
                    proof {
                        lemma_autoplug_step_skip(old_view, kind, device.id, *event, i as int);
                        let rest = old_view.skip(i as int);
                        assert(rest[0] == old_view[i as int]);
                        assert(rest.drop_first() =~= old_view.skip(i + 1));
                        let first = per_adapter_step(rest[0], kind, device.id, *event);
                        assert(first.1 is Some);
                        assert(autoplug_step(rest, kind, device.id, *event) == (seq![first.0] + rest.drop_first(), first.1));
                        assert(self@[i as int] == first.0);
                        assert forall|j: int| 0 <= j < i implies self@[j] == per_adapter_step(old_view[j], kind, device.id, *event).0 by {
                            assert(self@[j] == self.per_adapters@[j]@);
                        }
                        assert forall|j: int| i < j < old_view.len() implies self@[j] == old_view[j] by {
                            assert(self@[j] == self.per_adapters@[j]@);
                            assert(self.per_adapters@[j] == before_vec[j]);
                        }
                        let prefix = stepped(old_view, kind, device.id, *event, i as int);
                        assert(self@ =~= prefix + (seq![self@[i as int]] + old_view.skip(i + 1)));
                    }
                    return Some(found);
                },
                None => {},
            }
            i = i + 1;
        }
        proof {
            lemma_autoplug_step_skip(old_view, kind, device.id, *event, i as int);
            assert(old_view.skip(i as int) =~= Seq::<PerAdapterView>::empty());
            let prefix = stepped(old_view, kind, device.id, *event, i as int);
            assert(self@ =~= prefix + Seq::<PerAdapterView>::empty());
        }
        None
    }
}

/// The rules of the first `i` adapters, each after the key event.
pub open spec fn stepped(ps: Seq<PerAdapterView>, kind: Seq<char>, device: DeviceId, event: KeyEvent, i: int) -> Seq<PerAdapterView> {
    Seq::new(i as nat, |j: int| per_adapter_step(ps[j], kind, device, event).0)
}

/// When none of the first `i` adapters' rules plugs, the step over all of
/// them is their steps followed by the step over the rest.
proof fn lemma_autoplug_step_skip(ps: Seq<PerAdapterView>, kind: Seq<char>, device: DeviceId, event: KeyEvent, i: int)
    requires
        0 <= i <= ps.len(),
        forall|j: int| 0 <= j < i ==> (#[trigger] per_adapter_step(ps[j], kind, device, event)).1 is None,
    ensures
        autoplug_step(ps, kind, device, event) == (
            stepped(ps, kind, device, event, i) + autoplug_step(ps.skip(i), kind, device, event).0,
            autoplug_step(ps.skip(i), kind, device, event).1),
    decreases i,
{
    if i == 0 {
        assert(ps.skip(0) =~= ps);
        assert(stepped(ps, kind, device, event, 0) + autoplug_step(ps, kind, device, event).0
            =~= autoplug_step(ps, kind, device, event).0);
    } else {
        let tail = ps.drop_first();
        assert forall|j: int| 0 <= j < i - 1 implies (#[trigger] per_adapter_step(tail[j], kind, device, event)).1 is None by {
            assert(tail[j] == ps[j + 1]);
            assert(per_adapter_step(ps[j + 1], kind, device, event).1 is None);
        }
        lemma_autoplug_step_skip(tail, kind, device, event, i - 1);
        assert(tail.skip(i - 1) =~= ps.skip(i));
        assert(per_adapter_step(ps[0], kind, device, event).1 is None);
        let rest = autoplug_step(ps.skip(i), kind, device, event);
        assert(seq![per_adapter_step(ps[0], kind, device, event).0]
            + (stepped(tail, kind, device, event, i - 1) + rest.0)
            =~= stepped(ps, kind, device, event, i) + rest.0);
    }
}

/// When an adapter's rules plug, every trigger is left without candidates,
/// and the devices plugged are the single candidate of each trigger.
pub proof fn lemma_plugging_clears(p: PerAdapterView, device_kind: Seq<char>, device: DeviceId, event: KeyEvent)
    ensures
        per_adapter_step(p, device_kind, device, event).1 is Some ==> {
            &&& forall|j: int| 0 <= j < per_adapter_step(p, device_kind, device, event).0.triggers.len()
                ==> (#[trigger] per_adapter_step(p, device_kind, device, event).0.triggers[j]).candidates == Set::<usize>::empty()
            &&& per_adapter_step(p, device_kind, device, event).0.triggers.len() == p.triggers.len()
        },
{
}

/// A device that releases a trigger's key is no longer a candidate of it;
/// one that presses it, or holds it, is.
pub proof fn lemma_trigger_release(t: TriggerView, device_kind: Seq<char>, device: DeviceId, event: KeyEvent)
    requires
        t.device_name == device_kind,
        t.key_id == event.id,
    ensures
        event.state == KeyState::Released ==> !trigger_update(t, device_kind, device, event).candidates.contains(device.0),
        event.state != KeyState::Released ==> trigger_update(t, device_kind, device, event).candidates.contains(device.0),
{
}

/// A key event of a device of another kind than a trigger's leaves that
/// trigger as it was, its candidates included.
pub proof fn lemma_trigger_other_kind(t: TriggerView, device_kind: Seq<char>, device: DeviceId, event: KeyEvent)
    requires
        t.device_name != device_kind,
    ensures
        trigger_update(t, device_kind, device, event) == t,
        trigger_update(t, device_kind, device, event).candidates == t.candidates,
{
}

/// A key event of a device of a kind that no trigger of the adapter names
/// changes no candidate: the adapter's rules plug, and clear, only if they
/// would have without the event.
pub proof fn lemma_per_adapter_other_kind(p: PerAdapterView, device_kind: Seq<char>, device: DeviceId, event: KeyEvent)
    requires
        forall|j: int| 0 <= j < p.triggers.len() ==> (#[trigger] p.triggers[j]).device_name != device_kind,
    ensures
        per_adapter_step(p, device_kind, device, event).0.triggers
            == (if collect(p.triggers).1 { cleared(p.triggers) } else { p.triggers }),
        per_adapter_step(p, device_kind, device, event).1 is Some <==> collect(p.triggers).1,
{
    let updated = p.triggers.map_values(|t: TriggerView| trigger_update(t, device_kind, device, event));
    assert forall|j: int| 0 <= j < p.triggers.len() implies updated[j] == p.triggers[j] by {
        lemma_trigger_other_kind(p.triggers[j], device_kind, device, event);
    }
    assert(updated =~= p.triggers);
}

} // verus!
