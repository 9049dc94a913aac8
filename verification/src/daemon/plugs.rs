//! The registry of plugs.

use vstd::prelude::*;
use slab::Slab;
use crate::config::adapter::Adapter;
use crate::device::Device;
use crate::plug::{Error, Plug, PlugId, spec_tables};
use crate::port::Port;

verus! {

/// What a slab of plugs holds, by key.
pub uninterp spec fn plug_slab(s: Slab<Plug>) -> Map<usize, Plug>;

/// The key that a slab of plugs gives to the next value inserted.
pub uninterp spec fn plug_slab_next(s: Slab<Plug>) -> usize;

/// `Slab::with_capacity`: an empty slab.
#[verifier::external_body]
fn plug_slab_with_capacity(capacity: usize) -> (r: Slab<Plug>)
    ensures
        plug_slab(r).dom().is_empty(),
{
    Slab::with_capacity(capacity)
}

/// `Slab::vacant_key`: the key of the next insertion, which holds no value.
#[verifier::external_body]
fn plug_slab_vacant_key(s: &Slab<Plug>) -> (r: usize)
    ensures
        r == plug_slab_next(*s),
        !plug_slab(*s).contains_key(r),
{
    s.vacant_key()
}

/// `Slab::insert`: stores the value under the next key, which it returns.
#[verifier::external_body]
fn plug_slab_insert(s: &mut Slab<Plug>, value: Plug) -> (r: usize)
    ensures
        r == plug_slab_next(*old(s)),
        !plug_slab(*old(s)).contains_key(r),
        plug_slab(*final(s)) == plug_slab(*old(s)).insert(r, value),
{
    s.insert(value)
}

/// `Slab::remove`: takes out the value under a key that holds one.
#[verifier::external_body]
fn plug_slab_remove(s: &mut Slab<Plug>, key: usize) -> (r: Plug)
    requires
        plug_slab(*old(s)).contains_key(key),
    ensures
        r == plug_slab(*old(s))[key],
        plug_slab(*final(s)) == plug_slab(*old(s)).remove(key),
{
    s.remove(key)
}

/// `Slab`'s indexing: the value under a key that holds one.
#[verifier::external_body]
fn plug_slab_get(s: &Slab<Plug>, key: usize) -> (r: &Plug)
    requires
        plug_slab(*s).contains_key(key),
    ensures
        *r == plug_slab(*s)[key],
{
    &s[key]
}

/// `Slab`'s mutable indexing: the value under a key that holds one, which
/// the slab holds as it is left; the next key stays.
#[verifier::external_body]
fn plug_slab_get_mut(s: &mut Slab<Plug>, key: usize) -> (r: &mut Plug)
    requires
        plug_slab(*old(s)).contains_key(key),
    ensures
        *r == plug_slab(*old(s))[key],
        plug_slab(*final(s)) == plug_slab(*old(s)).insert(key, *final(r)),
        plug_slab_next(*final(s)) == plug_slab_next(*old(s)),
{
    &mut s[key]
}

/// The keys of `Slab::iter`, which walks the values by increasing key.
#[verifier::external_body]
fn plug_slab_keys(s: &Slab<Plug>) -> (r: Vec<usize>)
    ensures
        r@.to_set() == plug_slab(*s).dom(),
        forall|i: int, j: int| 0 <= i < j < r@.len() ==> r@[i] < r@[j],
{
    s.iter().map(|(key, _)| key).collect()
}

/// The registry of plugs.
pub struct Plugs {
    plugs: Slab<Plug>,
}

impl Plugs {
    /// The plugs, by key.
    pub closed spec fn map(&self) -> Map<usize, Plug> {
        plug_slab(self.plugs)
    }

    /// The key that the next plug registered gets.
    pub closed spec fn next(&self) -> usize {
        plug_slab_next(self.plugs)
    }

    /// Every plug is registered under its own identifier, and its tables
    /// have one list per code.
    pub open spec fn wf(&self) -> bool {
        forall|k: usize| self.map().contains_key(k) ==> {
            &&& (#[trigger] self.map()[k]).id == PlugId(k)
            &&& self.map()[k].wf()
        }
    }

    /// No plug.
    pub fn new() -> (r: Self)
        ensures
            r.map().dom().is_empty(),
            r.wf(),
    {
        Plugs { plugs: plug_slab_with_capacity(64) }
    }

    /// Plugs `device` into `ports` through `adapter` under the next key; on
    /// failure nothing is registered.
    pub fn register(&mut self, adapter: &Adapter, device: &Device, ports: &[&Port]) -> (r: Result<&Plug, Error>)
        requires
            old(self).wf(),
            crate::plug::plug_in_range(adapter, device, ports@),
        ensures
            final(self).wf(),
            match r {
                Ok(p) => {
                    &&& !old(self).map().contains_key(old(self).next())
                    &&& final(self).map() == old(self).map().insert(old(self).next(), *p)
                    &&& p.id == PlugId(old(self).next())
                    &&& p.name@ == adapter.name@
                    &&& p.deviceid == device.id
                    &&& p.portids@ == ports@.map_values(|p: &Port| p.id)
                    &&& spec_tables(adapter, device, ports@) == Ok::<_, crate::plug::ErrorView>(p.tables())
                },
                Err(e) => {
                    &&& final(self).map() == old(self).map()
                    &&& spec_tables(adapter, device, ports@) == Err::<crate::plug::TablesView, _>(e@)
                },
            },
    {
        let key = plug_slab_vacant_key(&self.plugs);
        let plugid = PlugId(key);
        let plug = match Plug::new(plugid, adapter, device, ports) {
            Ok(plug) => plug,
            Err(e) => return Err(e),
        };
        let ghost value = plug;
        let ghost before = self.map();
        let key = plug_slab_insert(&mut self.plugs, plug);
        proof {
            assert forall|k: usize| self.map().contains_key(k) implies {
                &&& (#[trigger] self.map()[k]).id == PlugId(k)
                &&& self.map()[k].wf()
            } by {
                if k != key {
                    assert(before.contains_key(k));
                }
            }
        }
        Ok(plug_slab_get(&self.plugs, key))
    }

    /// Takes out the plug `plugid`.
    pub fn unregister(&mut self, plugid: PlugId) -> (r: Plug)
        requires
            old(self).wf(),
            old(self).map().contains_key(plugid.0),
        ensures
            final(self).wf(),
            r == old(self).map()[plugid.0],
            final(self).map() == old(self).map().remove(plugid.0),
    {
        plug_slab_remove(&mut self.plugs, plugid.0)
    }

    /// The plug `id`.
    pub fn index(&self, id: PlugId) -> (r: &Plug)
        requires
            self.map().contains_key(id.0),
        ensures
            *r == self.map()[id.0],
    {
        plug_slab_get(&self.plugs, id.0)
    }

    /// The plug `id`, to change; the registry holds it as it is left.
    pub fn index_mut(&mut self, id: PlugId) -> (r: &mut Plug)
        requires
            old(self).map().contains_key(id.0),
        ensures
            *r == old(self).map()[id.0],
            final(self).map() == old(self).map().insert(id.0, *final(r)),
            final(self).next() == old(self).next(),
    {
        plug_slab_get_mut(&mut self.plugs, id.0)
    }

    /// The keys of the plugs, by increasing key.
    pub fn keys(&self) -> (r: Vec<usize>)
        ensures
            r@.to_set() == self.map().dom(),
            forall|i: int, j: int| 0 <= i < j < r@.len() ==> r@[i] < r@[j],
    {
        plug_slab_keys(&self.plugs)
    }
}

} // verus!
