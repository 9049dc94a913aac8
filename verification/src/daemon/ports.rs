//! The registry of ports.

use vstd::prelude::*;
use slab::Slab;
use crate::config::Config;
use crate::config::port::Port as PortConfig;
use crate::port::{Port, PortId, port_name, port_fullname};
use crate::protocol::PlugArgs;
use crate::text::{not_found, not_found_message};

verus! {

/// What a slab of ports holds, by key.
pub uninterp spec fn port_slab(s: Slab<Port>) -> Map<usize, Port>;

/// The key that a slab of ports gives to the next value inserted.
pub uninterp spec fn port_slab_next(s: Slab<Port>) -> usize;

/// `Slab::with_capacity`: an empty slab.
#[verifier::external_body]
fn port_slab_with_capacity(capacity: usize) -> (r: Slab<Port>)
    ensures
        port_slab(r).dom().is_empty(),
{
    Slab::with_capacity(capacity)
}

/// `Slab::vacant_key`: the key of the next insertion, which holds no value.
#[verifier::external_body]
fn port_slab_vacant_key(s: &Slab<Port>) -> (r: usize)
    ensures
        r == port_slab_next(*s),
        !port_slab(*s).contains_key(r),
{
    s.vacant_key()
}

/// `Slab::insert`: stores the value under the next key, which it returns.
#[verifier::external_body]
fn port_slab_insert(s: &mut Slab<Port>, value: Port) -> (r: usize)
    ensures
        r == port_slab_next(*old(s)),
        !port_slab(*old(s)).contains_key(r),
        port_slab(*final(s)) == port_slab(*old(s)).insert(r, value),
{
    s.insert(value)
}

/// `Slab`'s indexing: the value under a key that holds one.
#[verifier::external_body]
fn port_slab_get(s: &Slab<Port>, key: usize) -> (r: &Port)
    requires
        port_slab(*s).contains_key(key),
    ensures
        *r == port_slab(*s)[key],
{
    &s[key]
}

/// The keys of `Slab::iter`, which walks the values by increasing key.
#[verifier::external_body]
fn port_slab_keys(s: &Slab<Port>) -> (r: Vec<usize>)
    ensures
        r@.to_set() == port_slab(*s).dom(),
        forall|i: int, j: int| 0 <= i < j < r@.len() ==> r@[i] < r@[j],
{
    s.iter().map(|(key, _)| key).collect()
}

/// The registry of ports: one per slot of each port configuration.
pub struct Ports {
    ports: Slab<Port>,
}

/// The slots of the port configurations, in order, each with its
/// configuration.
pub open spec fn port_slots(configs: Seq<PortConfig>) -> Seq<(PortConfig, String)>
    decreases configs.len(),
{
    if configs.len() == 0 {
        Seq::empty()
    } else {
        port_slots(configs.drop_last()) + configs.last().slots@.map_values(|s: String| (configs.last(), s))
    }
}

/// `port` is the port of slot `slot` registered under `key`.
pub open spec fn is_port_of(port: Port, key: usize, slot: (PortConfig, String)) -> bool {
    &&& port.id == PortId(key)
    &&& port.config@ == slot.0@
    &&& port.name@ == port_name(slot.0.name@, slot.1@)
    &&& port.fullname@ == port_fullname(slot.0.fullname@, slot.1@)
}

/// `m` holds one port per slot of `slots`, each under its own key.
pub open spec fn ports_of(m: Map<usize, Port>, slots: Seq<(PortConfig, String)>) -> bool {
    exists|keys: Seq<usize>| ports_under(m, slots, keys)
}

/// `m` holds the port of each slot `slots[n]` under `keys[n]`, and nothing else.
pub open spec fn ports_under(m: Map<usize, Port>, slots: Seq<(PortConfig, String)>, keys: Seq<usize>) -> bool {
    &&& keys.len() == slots.len()
    &&& keys.no_duplicates()
    &&& m.dom() == keys.to_set()
    &&& forall|n: int| 0 <= n < keys.len() ==> is_port_of(#[trigger] m[keys[n]], keys[n], slots[n])
}

/// `i` is the first position of `names` that no port of `m` is named.
pub open spec fn first_missing_port(m: Map<usize, Port>, names: Seq<String>, i: int) -> bool {
    &&& 0 <= i < names.len()
    &&& !has_port_named(m, names[i]@)
    &&& forall|j: int| 0 <= j < i ==> has_port_named(m, (#[trigger] names[j])@)
}

/// `k` is the least key of `m` whose port is named `name`.
pub open spec fn first_port_named(m: Map<usize, Port>, name: Seq<char>, k: usize) -> bool {
    &&& m.contains_key(k)
    &&& m[k].name@ == name
    &&& forall|j: usize| j < k && m.contains_key(j) ==> (#[trigger] m[j]).name@ != name
}

/// Some port of `m` is named `name`.
pub open spec fn has_port_named(m: Map<usize, Port>, name: Seq<char>) -> bool {
    exists|k: usize| m.contains_key(k) && (#[trigger] m[k]).name@ == name
}

impl Ports {
    /// The ports, by key.
    pub closed spec fn map(&self) -> Map<usize, Port> {
        port_slab(self.ports)
    }

    /// Every port is registered under its own identifier.
    pub open spec fn wf(&self) -> bool {
        forall|k: usize| self.map().contains_key(k) ==> (#[trigger] self.map()[k]).id == PortId(k)
    }

    /// One port per slot of each port configuration of `config`.
    pub fn new(config: &Config) -> (r: Self)
        ensures
            ports_of(r.map(), port_slots(config.ports@)),
            r.wf(),
    {
        let mut ports = port_slab_with_capacity(64);
        let ghost mut keys: Seq<usize> = Seq::empty();
        let mut i: usize = 0;
        assert(config.ports@.take(0) =~= Seq::<PortConfig>::empty());
        assert(keys.to_set() =~= port_slab(ports).dom());
        while i < config.ports.len()
            invariant
                i <= config.ports.len(),
                ports_under(port_slab(ports), port_slots(config.ports@.take(i as int)), keys),
            decreases config.ports.len() - i,
        {
            let config_port = &config.ports[i];
            let ghost before = port_slots(config.ports@.take(i as int));
            assert(config.ports@.take(i + 1).drop_last() =~= config.ports@.take(i as int));
            assert(config.ports@.take(i + 1).last() == *config_port);
            let mut j: usize = 0;
            while j < config_port.slots.len()
                invariant
                    j <= config_port.slots.len(),
                    ports_under(port_slab(ports), before + config_port.slots@.take(j as int).map_values(|s: String| (*config_port, s)), keys),
                decreases config_port.slots.len() - j,
            {
                let slot = &config_port.slots[j];
                let key = port_slab_vacant_key(&ports);
                let port = Port::new(PortId(key), config_port, slot);
                let ghost old_map = port_slab(ports);
                let ghost old_keys = keys;
                let ghost old_slots = before + config_port.slots@.take(j as int).map_values(|s: String| (*config_port, s));
                let ghost new_slots = before + config_port.slots@.take(j + 1).map_values(|s: String| (*config_port, s));
                port_slab_insert(&mut ports, port);
                proof {
                    keys = keys.push(key);
                    assert(new_slots =~= old_slots.push((*config_port, *slot)));
                    old_keys.lemma_push_to_set_commute(key);
                    assert(keys.to_set() =~= old_keys.to_set().insert(key));
                    assert(keys.no_duplicates()) by {
                        assert(!old_keys.contains(key)) by {
                            if old_keys.contains(key) {
                                assert(old_keys.to_set().contains(key));
                            }
                        }
                    }
                    assert forall|n: int| 0 <= n < keys.len() implies is_port_of(#[trigger] port_slab(ports)[keys[n]], keys[n], new_slots[n]) by {
                        if n < old_keys.len() {
                            assert(old_keys.to_set().contains(old_keys[n]));
                            assert(old_keys[n] != key);
                        }
                    }
                }
                j = j + 1;
            }
            assert(config_port.slots@.take(config_port.slots@.len() as int) =~= config_port.slots@);
            i = i + 1;
        }
        assert(config.ports@.take(config.ports@.len() as int) =~= config.ports@);
        Ports { ports }
    }

    /// The key of the first port of `keys` named `name`, where `keys` are
    /// the keys of the registry in increasing order.
    fn first_named(&self, keys: &Vec<usize>, name: &String) -> (r: Option<usize>)
        requires
            keys@.to_set() == self.map().dom(),
            forall|i: int, j: int| 0 <= i < j < keys@.len() ==> keys@[i] < keys@[j],
        ensures
            match r {
                Some(k) => first_port_named(self.map(), name@, k),
                None => !has_port_named(self.map(), name@),
            },
    {
        let mut i: usize = 0;
        while i < keys.len()
            invariant
                i <= keys.len(),
                keys@.to_set() == self.map().dom(),
                forall|p: int, q: int| 0 <= p < q < keys@.len() ==> keys@[p] < keys@[q],
                forall|p: int| 0 <= p < i ==> (#[trigger] self.map()[keys@[p]]).name@ != name@,
            decreases keys.len() - i,
        {
            let key = keys[i];
            assert(keys@.to_set().contains(key));
            let port = port_slab_get(&self.ports, key);
            if port.name == *name {
                proof {
                    assert forall|j: usize| j < key && self.map().contains_key(j) implies (#[trigger] self.map()[j]).name@ != name@ by {
                        assert(keys@.to_set().contains(j));
                        let p = choose|p: int| 0 <= p < keys@.len() && keys@[p] == j;
                        if p >= i {
                            if p > i {
                                assert(keys@[i as int] < keys@[p]);
                            }
                        }
                    }
                }
                return Some(key);
            }
            i = i + 1;
        }
        proof {
            assert forall|k: usize| self.map().contains_key(k) implies (#[trigger] self.map()[k]).name@ != name@ by {
                assert(keys@.to_set().contains(k));
                let p = choose|p: int| 0 <= p < keys@.len() && keys@[p] == k;
            }
        }
        None
    }

    /// The ports that the command names, each the first of that name by
    /// key; or, for the first name that no port bears, the message
    /// `Port (i, name) not found`.
    pub fn find_from_plugargs(&self, plug: &PlugArgs) -> (r: Result<Vec<&Port>, String>)
        requires
            self.wf(),
        ensures
            match r {
                Ok(v) => {
                    &&& v@.len() == plug.ports@.len()
                    &&& forall|i: int| 0 <= i < v@.len() ==> first_port_named(self.map(), plug.ports@[i]@, (#[trigger] v@[i]).id.0)
                    &&& forall|i: int| 0 <= i < v@.len() ==> *(#[trigger] v@[i]) == self.map()[v@[i].id.0]
                },
                Err(e) => exists|i: int| first_missing_port(self.map(), plug.ports@, i) && e@ == not_found("Port"@, i as nat, plug.ports@[i]@),
            },
    {
        let keys = port_slab_keys(&self.ports);
        let mut ports: Vec<&Port> = Vec::new();
        let mut i: usize = 0;
        while i < plug.ports.len()
            invariant
                i <= plug.ports.len(),
                self.wf(),
                keys@.to_set() == self.map().dom(),
                forall|p: int, q: int| 0 <= p < q < keys@.len() ==> keys@[p] < keys@[q],
                ports@.len() == i,
                forall|j: int| 0 <= j < i ==> first_port_named(self.map(), plug.ports@[j]@, (#[trigger] ports@[j]).id.0),
                forall|j: int| 0 <= j < i ==> *(#[trigger] ports@[j]) == self.map()[ports@[j].id.0],
            decreases plug.ports.len() - i,
        {
            match self.first_named(&keys, &plug.ports[i]) {
                Some(key) => {
                    let port = port_slab_get(&self.ports, key);
                    ports.push(port);
                },
                None => {
                    proof {
                        assert forall|j: int| 0 <= j < i implies has_port_named(self.map(), (#[trigger] plug.ports@[j])@) by {
                            assert(first_port_named(self.map(), plug.ports@[j]@, ports@[j].id.0));
                        }
                        assert(first_missing_port(self.map(), plug.ports@, i as int));
                    }
                    proof { reveal_strlit("Port"); }
                    return Err(not_found_message("Port", i, &plug.ports[i]));
                },
            }
            i = i + 1;
        }
        Ok(ports)
    }

    /// The ports with their keys, by increasing key.
    pub fn iter(&self) -> (r: Vec<(usize, &Port)>)
        ensures
            forall|i: int| 0 <= i < r@.len() ==> self.map().contains_key((#[trigger] r@[i]).0),
            forall|k: usize| self.map().contains_key(k) ==> exists|i: int| 0 <= i < r@.len() && (#[trigger] r@[i]).0 == k,
            forall|i: int, j: int| 0 <= i < j < r@.len() ==> r@[i].0 < r@[j].0,
            forall|i: int| 0 <= i < r@.len() ==> *(#[trigger] r@[i]).1 == self.map()[r@[i].0],
    {
        let keys = port_slab_keys(&self.ports);
        let mut r: Vec<(usize, &Port)> = Vec::new();
        let mut i: usize = 0;
        while i < keys.len()
            invariant
                i <= keys.len(),
                keys@.to_set() == self.map().dom(),
                r@.len() == i,
                forall|p: int| 0 <= p < i ==> (#[trigger] r@[p]).0 == keys@[p],
                forall|p: int| 0 <= p < r@.len() ==> *(#[trigger] r@[p]).1 == self.map()[r@[p].0],
            decreases keys.len() - i,
        {
            let key = keys[i];
            assert(keys@.to_set().contains(key));
            let port = port_slab_get(&self.ports, key);
            r.push((key, port));
            i = i + 1;
        }
        proof {
            assert forall|p: int| 0 <= p < r@.len() implies self.map().contains_key((#[trigger] r@[p]).0) by {
                assert(keys@.contains(keys@[p]));
            }
            assert forall|k: usize| self.map().contains_key(k) implies exists|p: int| 0 <= p < r@.len() && (#[trigger] r@[p]).0 == k by {
                assert(keys@.to_set().contains(k));
                let p = choose|p: int| 0 <= p < keys@.len() && keys@[p] == k;
                assert(r@[p].0 == k);
            }
        }
        r
    }

    /// The port registered under `id`.
    pub fn index(&self, id: PortId) -> (r: &Port)
        requires
            self.map().contains_key(id.0),
        ensures
            *r == self.map()[id.0],
    {
        port_slab_get(&self.ports, id.0)
    }
}

} // verus!
