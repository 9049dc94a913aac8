//! A virtual port offered by the daemon.

use vstd::prelude::*;
use crate::config::port::Port as Config;
use crate::input::InputEvent;
use crate::raw::{RawEvent, encode};

verus! {

/// Identifier of a port.
#[derive(Clone, Copy, Debug, PartialEq, Eq, Structural, Hash)]
pub struct PortId(pub usize);

/// A virtual port: one slot of a port configuration.
pub struct Port {
    pub id: PortId,
    pub name: String,
    pub fullname: String,
    pub config: Config,
}

/// Name of a port for slot `slot` of a kind named `name`: the kind's name
/// for the slot `"unique"`, `name:slot` otherwise.
pub open spec fn port_name(name: Seq<char>, slot: Seq<char>) -> Seq<char> {
    if slot == "unique"@ { name } else { name + ":"@ + slot }
}

/// Full name of a port for slot `slot` of a kind with full name `fullname`.
pub open spec fn port_fullname(fullname: Seq<char>, slot: Seq<char>) -> Seq<char> {
    if slot == "unique"@ { fullname } else { fullname + " "@ + slot }
}

impl Port {
    /// The port `id` for slot `slot` of port kind `config`.
    pub fn new(id: PortId, config: &Config, slot: &String) -> (r: Port)
        ensures
            r.id == id,
            r.config@ == config@,
            r.name@ == port_name(config.name@, slot@),
            r.fullname@ == port_fullname(config.fullname@, slot@),
    {
        let config = config.clone();
        let unique = String::from_str("unique");
        if *slot == unique {
            let name = config.name.clone();
            let fullname = config.fullname.clone();
            Port { id, name, fullname, config }
        } else {
            let mut name = config.name.clone();
            name.append(":");
            name.append(slot.as_str());
            let mut fullname = config.fullname.clone();
            fullname.append(" ");
            fullname.append(slot.as_str());
            Port { id, name, fullname, config }
        }
    }

    /// The record to write to the port's virtual device for `event`.
    pub fn emit_event(&self, event: &InputEvent) -> (r: RawEvent)
        ensures
            r == encode(*event),
    {
        crate::raw::as_evdev_event(event)
    }
}

} // verus!
