//! Configuration of a physical device: how it is recognised, the names of
//! its keys and axes, and the adapters to use by default.

use vstd::prelude::*;
use crate::input::{KeyId, AxisId, MotionId, KEY_MAX, ABS_MAX, REL_MAX};
use crate::text::views;
use super::lookup::{clone_strings, clone_numbers, clone_table, strings_eq};

verus! {

/// A kind of physical device.
pub struct Device {
    pub name: String,
    pub fullname: String,
    /// The rules by which the device is recognised (any one suffices).
    pub matches_: Vec<Match>,
    /// Adapter to use by default, by the kinds of ports plugged.
    pub default_adapters: Vec<(Vec<String>, String)>,
    pub keys: Vec<(String, KeyId)>,
    pub axes: Vec<(String, AxisId)>,
    pub motions: Vec<(String, MotionId)>,
    pub leds: Option<Leds>,
}

/// A rule recognising a device: each non-empty list must hold the device's
/// value.
pub struct Match {
    pub driver: Vec<String>,
    pub vendor: Vec<i32>,
    pub product: Vec<i32>,
}

/// What identifies a physical device that appears.
pub struct DeviceSpec {
    pub vendor: i32,
    pub product: i32,
    pub driver: String,
}

/// Configuration of a device's leds.
pub struct Leds {
    pub match_: String,
}

/// Model of a `Match`.
pub struct MatchView {
    pub driver: Seq<String>,
    pub vendor: Seq<i32>,
    pub product: Seq<i32>,
}

/// Model of a device configuration.
pub struct DeviceView {
    pub name: String,
    pub fullname: String,
    pub matches_: Seq<MatchView>,
    pub default_adapters: Seq<(Seq<String>, String)>,
    pub keys: Seq<(String, KeyId)>,
    pub axes: Seq<(String, AxisId)>,
    pub motions: Seq<(String, MotionId)>,
    pub leds: Option<Leds>,
}

impl View for Match {
    type V = MatchView;

    open spec fn view(&self) -> MatchView {
        MatchView { driver: self.driver@, vendor: self.vendor@, product: self.product@ }
    }
}

impl View for Device {
    type V = DeviceView;

    open spec fn view(&self) -> DeviceView {
        DeviceView {
            name: self.name,
            fullname: self.fullname,
            matches_: self.matches_@.map_values(|m: Match| m@),
            default_adapters: self.default_adapters@.map_values(
                |e: (Vec<String>, String)| (e.0@, e.1),
            ),
            keys: self.keys@,
            axes: self.axes@,
            motions: self.motions@,
            leds: self.leds,
        }
    }
}

/// `values` accepts `refvalue`: it is empty or holds it.
pub open spec fn accepts<T>(refvalue: T, values: Seq<T>) -> bool {
    values.len() == 0 || values.contains(refvalue)
}

impl MatchView {
    /// The rule recognises the device.
    pub open spec fn check(self, spec: DeviceSpec) -> bool {
        &&& accepts(spec.driver@, views(self.driver))
        &&& accepts(spec.vendor, self.vendor)
        &&& accepts(spec.product, self.product)
    }
}

impl DeviceView {
    /// Every code that the device's name tables give is within the range of
    /// its kind of input.
    pub open spec fn ids_in_range(self) -> bool {
        &&& forall|i: int| 0 <= i < self.keys.len() ==> (#[trigger] self.keys[i]).1.0 <= KEY_MAX
        &&& forall|i: int| 0 <= i < self.axes.len() ==> (#[trigger] self.axes[i]).1.0 <= ABS_MAX
        &&& forall|i: int| 0 <= i < self.motions.len() ==> (#[trigger] self.motions[i]).1.0 <= REL_MAX
    }

    /// Some rule of the device recognises it.
    pub open spec fn find(self, spec: DeviceSpec) -> bool {
        exists|i: int| 0 <= i < self.matches_.len() && #[trigger] self.matches_[i].check(spec)
    }

    /// The adapter of the first entry of `default_adapters` for exactly
    /// these kinds of ports, if any.
    pub open spec fn find_adapter(self, ports: Seq<Seq<char>>) -> Option<String> {
        default_adapter(self.default_adapters, ports)
    }
}

/// The adapter of the first entry for exactly the port kinds `ports`.
pub open spec fn default_adapter(entries: Seq<(Seq<String>, String)>, ports: Seq<Seq<char>>) -> Option<String>
    decreases entries.len(),
{
    if entries.len() == 0 {
        None
    } else if views(entries[0].0) == ports {
        Some(entries[0].1)
    } else {
        default_adapter(entries.drop_first(), ports)
    }
}

impl Clone for Match {
    fn clone(&self) -> (r: Self)
        ensures
            r@ == self@,
    {
        Match {
            driver: clone_strings(&self.driver),
            vendor: clone_numbers(&self.vendor),
            product: clone_numbers(&self.product),
        }
    }
}

impl Clone for Device {
    fn clone(&self) -> (r: Self)
        ensures
            r@ == self@,
    {
        let mut matches_: Vec<Match> = Vec::new();
        let mut i: usize = 0;
        while i < self.matches_.len()
            invariant
                i <= self.matches_.len(),
                matches_@.len() == i,
                forall|j: int| 0 <= j < i ==> #[trigger] matches_@[j]@ == self.matches_@[j]@,
            decreases self.matches_.len() - i,
        {
            matches_.push(self.matches_[i].clone());
            i = i + 1;
        }
        let mut default_adapters: Vec<(Vec<String>, String)> = Vec::new();
        let mut i: usize = 0;
        while i < self.default_adapters.len()
            invariant
                i <= self.default_adapters.len(),
                default_adapters@.len() == i,
                forall|j: int| 0 <= j < i ==> #[trigger] default_adapters@[j].0@ == self.default_adapters@[j].0@
                    && default_adapters@[j].1 == self.default_adapters@[j].1,
            decreases self.default_adapters.len() - i,
        {
            let ports = clone_strings(&self.default_adapters[i].0);
            let adapter = self.default_adapters[i].1.clone();
            default_adapters.push((ports, adapter));
            i = i + 1;
        }
        let r = Device {
            name: self.name.clone(),
            fullname: self.fullname.clone(),
            matches_,
            default_adapters,
            keys: clone_table(&self.keys),
            axes: clone_table(&self.axes),
            motions: clone_table(&self.motions),
            leds: match &self.leds {
                Some(l) => Some(Leds { match_: l.match_.clone() }),
                None => None,
            },
        };
        assert(r@.matches_ =~= self@.matches_);
        assert(r@.default_adapters =~= self@.default_adapters);
        r
    }
}

impl Device {
    /// Whether every code of the device's name tables is within the range
    /// of its kind of input.
    pub fn ids_in_range(&self) -> (r: bool)
        ensures
            r == self@.ids_in_range(),
    {
        let mut i: usize = 0;
        while i < self.keys.len()
            invariant
                i <= self.keys.len(),
                forall|j: int| 0 <= j < i ==> (#[trigger] self.keys@[j]).1.0 <= KEY_MAX,
            decreases self.keys.len() - i,
        {
            if self.keys[i].1.0 > KEY_MAX {
                assert(self@.keys[i as int].1.0 > KEY_MAX);
                return false;
            }
            i = i + 1;
        }
        let mut i: usize = 0;
        while i < self.axes.len()
            invariant
                i <= self.axes.len(),
                forall|j: int| 0 <= j < i ==> (#[trigger] self.axes@[j]).1.0 <= ABS_MAX,
            decreases self.axes.len() - i,
        {
            if self.axes[i].1.0 > ABS_MAX {
                assert(self@.axes[i as int].1.0 > ABS_MAX);
                return false;
            }
            i = i + 1;
        }
        let mut i: usize = 0;
        while i < self.motions.len()
            invariant
                i <= self.motions.len(),
                forall|j: int| 0 <= j < i ==> (#[trigger] self.motions@[j]).1.0 <= REL_MAX,
            decreases self.motions.len() - i,
        {
            if self.motions[i].1.0 > REL_MAX {
                assert(self@.motions[i as int].1.0 > REL_MAX);
                return false;
            }
            i = i + 1;
        }
        true
    }

    /// Whether one of the device's rules recognises the device `spec`.
    pub fn find(&self, spec: &DeviceSpec) -> (r: bool)
        ensures
            r == self@.find(*spec),
    {
        let mut i: usize = 0;
        while i < self.matches_.len()
            invariant
                i <= self.matches_.len(),
                forall|j: int| 0 <= j < i ==> !(#[trigger] self@.matches_[j]).check(*spec),
            decreases self.matches_.len() - i,
        {
            if self.matches_[i].check(spec) {
                assert(self@.matches_[i as int].check(*spec));
                return true;
            }
            i = i + 1;
        }
        false
    }

    /// The default adapter for the port kinds `ports`, if one is configured.
    pub fn find_adapter(&self, ports: &[String]) -> (r: Option<String>)
        ensures
            r == self@.find_adapter(views(ports@)),
    {
        let mut i: usize = 0;
        assert(self@.default_adapters.skip(0) =~= self@.default_adapters);
        while i < self.default_adapters.len()
            invariant
                i <= self.default_adapters.len(),
                self@.find_adapter(views(ports@)) == default_adapter(self@.default_adapters.skip(i as int), views(ports@)),
            decreases self.default_adapters.len() - i,
        {
            assert(self@.default_adapters.skip(i as int).drop_first() =~= self@.default_adapters.skip(i + 1));
            if strings_eq(self.default_adapters[i].0.as_slice(), ports) {
                return Some(self.default_adapters[i].1.clone());
            }
            i = i + 1;
        }
        None
    }
}

/// Whether `value` is accepted by `values` (empty, or holding it).
fn check_one_text(refvalue: &String, values: &Vec<String>) -> (r: bool)
    ensures
        r == accepts(refvalue@, views(values@)),
{
    if values.len() == 0 {
        return true;
    }
    let mut i: usize = 0;
    while i < values.len()
        invariant
            i <= values.len(),
            forall|j: int| 0 <= j < i ==> values@[j]@ != refvalue@,
        decreases values.len() - i,
    {
        if values[i] == *refvalue {
            assert(views(values@)[i as int] == refvalue@);
            return true;
        }
        i = i + 1;
    }
    false
}

/// Whether `value` is accepted by `values` (empty, or holding it).
fn check_one_number(refvalue: i32, values: &Vec<i32>) -> (r: bool)
    ensures
        r == accepts(refvalue, values@),
{
    if values.len() == 0 {
        return true;
    }
    let mut i: usize = 0;
    while i < values.len()
        invariant
            i <= values.len(),
            forall|j: int| 0 <= j < i ==> values@[j] != refvalue,
        decreases values.len() - i,
    {
        if values[i] == refvalue {
            assert(values@[i as int] == refvalue);
            return true;
        }
        i = i + 1;
    }
    false
}

impl Match {
    /// Whether the rule recognises the device `spec`.
    pub fn check(&self, spec: &DeviceSpec) -> (r: bool)
        ensures
            r == self@.check(*spec),
    {
        check_one_text(&spec.driver, &self.driver) && check_one_number(spec.vendor, &self.vendor)
            && check_one_number(spec.product, &self.product)
    }
}

} // verus!
