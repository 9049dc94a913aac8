//! Messages between the daemon and its clients, over a stream where each
//! message ends with `DELIMITER`.

use vstd::prelude::*;

verus! {

/// Path of the daemon's command socket.
pub const DEFAULT_SOCK: &'static str = "/tmp/multitapd.sock";

/// Byte that ends each message.
pub const DELIMITER: u8 = 0u8;

/// A command to the daemon.
#[derive(Debug, PartialEq, Eq)]
pub enum Command {
    /// Reload the daemon.
    Reload,
    /// Quit the daemon.
    Quit,
    /// Ping the daemon.
    Ping,
    /// Plug devices into ports.
    Plug(PlugArgs),
    /// Reset (unplug all).
    Reset,
    /// Receive the daemon's events.
    Monitor,
}

/// Devices to plug into ports, through an adapter if one is named.
#[derive(Debug, PartialEq, Eq)]
pub struct PlugArgs {
    pub devices: Vec<String>,
    pub ports: Vec<String>,
    pub adapter: Option<String>,
}

/// The daemon's answer to a command.
#[derive(Debug, PartialEq, Eq)]
pub enum Response {
    Ack,
    MonitorInit(MonitorInit),
}

/// What a new monitor is told: the ports it can watch.
#[derive(Debug, PartialEq, Eq)]
pub struct MonitorInit {
    pub ports: Vec<String>,
}

/// An event sent to the monitors.
#[derive(Debug, PartialEq, Eq)]
pub enum Event {
    Plugged(PluggedEvent),
    Unplug(UnplugEvent),
}

/// A device was plugged into ports through an adapter.
#[derive(Debug, PartialEq, Eq)]
pub struct PluggedEvent {
    pub device: String,
    pub ports: Vec<String>,
    pub adapter: String,
}

/// Ports were unplugged.
#[derive(Debug, PartialEq, Eq)]
pub struct UnplugEvent {
    pub ports: Vec<String>,
}

/// Model of an event: the names it carries.
pub enum EventView {
    Plugged { device: Seq<char>, ports: Seq<Seq<char>>, adapter: Seq<char> },
    Unplug { ports: Seq<Seq<char>> },
}

/// The views of a sequence of events.
pub open spec fn event_views(events: Seq<Event>) -> Seq<EventView> {
    events.map_values(|e: Event| e@)
}

impl View for Event {
    type V = EventView;

    open spec fn view(&self) -> EventView {
        match self {
            Event::Plugged(e) => EventView::Plugged {
                device: e.device@,
                ports: crate::text::views(e.ports@),
                adapter: e.adapter@,
            },
            Event::Unplug(e) => EventView::Unplug { ports: crate::text::views(e.ports@) },
        }
    }
}

} // verus!
