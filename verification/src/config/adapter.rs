//! Configuration of an adapter: which devices and ports it joins, and how
//! each input of the device maps onto the port.

use vstd::prelude::*;
use super::lookup::clone_pairs;

verus! {

/// An adapter from devices to ports.
pub struct Adapter {
    pub name: String,
    /// The devices that the adapter takes, each with the device kind it matches.
    pub inputs: Vec<Device>,
    /// The ports that the adapter feeds, each with the port kind it matches.
    pub outputs: Vec<Output>,
    /// Pairs (input name, key name): pressing these keys plugs automatically.
    pub autoplug: Vec<(String, String)>,
    /// Mappings by (input name, output name).
    pub map: Vec<((String, String), Vec<Mapper>)>,
}

/// An input of an adapter.
pub struct Device {
    pub name: String,
    pub match_: String,
}

/// An output of an adapter.
pub struct Output {
    pub name: String,
    pub match_: String,
}

/// One mapping from an input of the device to outputs of the port.
pub enum Mapper {
    Key(String, String),
    KeyReversed(String, String),
    KeyToAxis(String, String),
    Axis(String, String),
    AxisReversed(String, String),
    AxisToKeys(String, String, String, isize),
    HatToKeys(String, String, String),
    Motion(String, String),
}

/// Model of an adapter.
pub struct AdapterView {
    pub name: String,
    pub inputs: Seq<Device>,
    pub outputs: Seq<Output>,
    pub autoplug: Seq<(String, String)>,
    pub map: Seq<((String, String), Seq<Mapper>)>,
}

impl View for Adapter {
    type V = AdapterView;

    open spec fn view(&self) -> AdapterView {
        AdapterView {
            name: self.name,
            inputs: self.inputs@,
            outputs: self.outputs@,
            autoplug: self.autoplug@,
            map: self.map@.map_values(|e: ((String, String), Vec<Mapper>)| (e.0, e.1@)),
        }
    }
}

impl Clone for Device {
    fn clone(&self) -> (r: Self)
        ensures
            r == *self,
    {
        Device { name: self.name.clone(), match_: self.match_.clone() }
    }
}

impl Clone for Output {
    fn clone(&self) -> (r: Self)
        ensures
            r == *self,
    {
        Output { name: self.name.clone(), match_: self.match_.clone() }
    }
}

impl Clone for Mapper {
    fn clone(&self) -> (r: Self)
        ensures
            r == *self,
    {
        match self {
            Mapper::Key(a, b) => Mapper::Key(a.clone(), b.clone()),
            Mapper::KeyReversed(a, b) => Mapper::KeyReversed(a.clone(), b.clone()),
            Mapper::KeyToAxis(a, b) => Mapper::KeyToAxis(a.clone(), b.clone()),
            Mapper::Axis(a, b) => Mapper::Axis(a.clone(), b.clone()),
            Mapper::AxisReversed(a, b) => Mapper::AxisReversed(a.clone(), b.clone()),
            Mapper::AxisToKeys(a, b, c, t) => Mapper::AxisToKeys(a.clone(), b.clone(), c.clone(), *t),
            Mapper::HatToKeys(a, b, c) => Mapper::HatToKeys(a.clone(), b.clone(), c.clone()),
            Mapper::Motion(a, b) => Mapper::Motion(a.clone(), b.clone()),
        }
    }
}

/// Copies a list whose items copy exactly.
fn clone_mappers(v: &Vec<Mapper>) -> (r: Vec<Mapper>)
    ensures
        r@ == v@,
{
    let mut r: Vec<Mapper> = Vec::new();
    let mut i: usize = 0;
    while i < v.len()
        invariant
            i <= v.len(),
            r@ == v@.take(i as int),
        decreases v.len() - i,
    {
        r.push(v[i].clone());
        assert(v@.take(i + 1) =~= v@.take(i as int).push(v@[i as int]));
        i = i + 1;
    }
    assert(v@.take(v.len() as int) =~= v@);
    r
}

impl Clone for Adapter {
    fn clone(&self) -> (r: Self)
        ensures
            r@ == self@,
    {
        let mut inputs: Vec<Device> = Vec::new();
        let mut i: usize = 0;
        while i < self.inputs.len()
            invariant
                i <= self.inputs.len(),
                inputs@ == self.inputs@.take(i as int),
            decreases self.inputs.len() - i,
        {
            inputs.push(self.inputs[i].clone());
            assert(self.inputs@.take(i + 1) =~= self.inputs@.take(i as int).push(self.inputs@[i as int]));
            i = i + 1;
        }
        assert(self.inputs@.take(self.inputs.len() as int) =~= self.inputs@);
        let mut outputs: Vec<Output> = Vec::new();
        let mut i: usize = 0;
        while i < self.outputs.len()
            invariant
                i <= self.outputs.len(),
                outputs@ == self.outputs@.take(i as int),
            decreases self.outputs.len() - i,
        {
            outputs.push(self.outputs[i].clone());
            assert(self.outputs@.take(i + 1) =~= self.outputs@.take(i as int).push(self.outputs@[i as int]));
            i = i + 1;
        }
        assert(self.outputs@.take(self.outputs.len() as int) =~= self.outputs@);
        let mut map: Vec<((String, String), Vec<Mapper>)> = Vec::new();
        let mut i: usize = 0;
        while i < self.map.len()
            invariant
                i <= self.map.len(),
                map@.len() == i,
                forall|j: int| 0 <= j < i ==> #[trigger] map@[j].0 == self.map@[j].0
                    && map@[j].1@ == self.map@[j].1@,
            decreases self.map.len() - i,
        {
            let a = self.map[i].0.0.clone();
            let b = self.map[i].0.1.clone();
            let m = clone_mappers(&self.map[i].1);
            map.push(((a, b), m));
            i = i + 1;
        }
        let r = Adapter {
            name: self.name.clone(),
            inputs,
            outputs,
            autoplug: clone_pairs(&self.autoplug),
            map,
        };
        assert(r@.map =~= self@.map);
        r
    }
}

} // verus!
