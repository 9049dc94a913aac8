use multitap::config::Config;
use multitap::config::adapter::{Adapter, Device as AdapterInput, Mapper, Output};
use multitap::config::device::{Device as DeviceConfig, Match};
use multitap::config::port::{Axis, Port as PortConfig};
use multitap::daemon::{config_check, Daemon};
use multitap::daemon::events::{Error, Reaction};
use multitap::device::{DeviceId, PhysDevice};
use multitap::input::{
    AxisEvent, AxisId, AxisInfo, AxisState, KeyEvent, KeyId, KeyState, MotionEvent, MotionId, MotionState,
    SyncEvent, SyncKind, Timestamp,
};
use multitap::port::PortId;
use multitap::protocol::{Command, Event, MonitorInit, PlugArgs, PluggedEvent, Response};
use multitap::raw::{RawEvent, EV_ABS, EV_KEY, EV_REL, EV_SYN};

fn s(text: &str) -> String {
    text.to_string()
}

fn pad_config() -> DeviceConfig {
    DeviceConfig {
        name: s("Pad"),
        fullname: s("Test Pad"),
        matches_: vec![Match { driver: vec![s("usbhid")], vendor: vec![0x1234], product: vec![] }],
        default_adapters: vec![(vec![s("Gamepad")], s("Pad to gamepad"))],
        keys: vec![(s("A"), KeyId(304)), (s("B"), KeyId(305)), (s("START"), KeyId(315))],
        axes: vec![(s("X"), AxisId(0))],
        motions: vec![(s("WHEEL"), MotionId(8))],
        leds: None,
    }
}

fn gamepad_config() -> PortConfig {
    PortConfig {
        name: s("Gamepad"),
        product_id: 1,
        version: 1,
        fullname: s("Virtual Gamepad"),
        slots: vec![s("1"), s("2")],
        keys: vec![(s("BTN_SOUTH"), KeyId(304)), (s("BTN_EAST"), KeyId(305)), (s("BTN_START"), KeyId(315))],
        axes: vec![(s("ABS_X"), Axis { id: AxisId(0), min: -100, max: 100, flat: 0 })],
        motions: vec![(s("REL_WHEEL"), MotionId(8))],
    }
}

fn pad_adapter() -> Adapter {
    Adapter {
        name: s("Pad to gamepad"),
        inputs: vec![AdapterInput { name: s("Pad"), match_: s("Pad") }],
        outputs: vec![Output { name: s("gamepad"), match_: s("Gamepad") }],
        autoplug: vec![(s("Pad"), s("START"))],
        map: vec![(
            (s("Pad"), s("gamepad")),
            vec![
                Mapper::Key(s("A"), s("BTN_SOUTH")),
                Mapper::KeyReversed(s("B"), s("BTN_EAST")),
                Mapper::Axis(s("X"), s("ABS_X")),
                Mapper::Motion(s("WHEEL"), s("REL_WHEEL")),
            ],
        )],
    }
}

fn config() -> Config {
    Config { devices: vec![pad_config()], ports: vec![gamepad_config()], adapters: vec![pad_adapter()] }
}

fn phys(vendor: u16) -> PhysDevice {
    PhysDevice {
        driver: s("usbhid"),
        vendor_id: vendor,
        product_id: 1,
        axes: vec![(AxisId(0), AxisInfo { value: 0, min: 0, max: 255, flat: 0 })],
    }
}

fn at() -> Timestamp {
    Timestamp { seconds: 1, microseconds: 2 }
}

fn key(code: u16, state: KeyState) -> KeyEvent {
    KeyEvent { timestamp: at(), id: KeyId(code), state }
}

fn raw(event_type: u32, code: u32, value: i32) -> RawEvent {
    RawEvent { seconds: 1, microseconds: 2, event_type, code, value }
}

fn plug_args(devices: &[&str], ports: &[&str], adapter: Option<&str>) -> PlugArgs {
    PlugArgs {
        devices: devices.iter().map(|d| s(d)).collect(),
        ports: ports.iter().map(|p| s(p)).collect(),
        adapter: adapter.map(|a| s(a)),
    }
}

fn plugged(device: &str) -> Event {
    Event::Plugged(PluggedEvent { device: s(device), ports: vec![s("Gamepad:1")], adapter: s("Pad to gamepad") })
}

fn daemon_with_two_pads() -> Daemon {
    let mut daemon = Daemon::new(config());
    assert_eq!(daemon.on_device_add(phys(0x1234)), Some(DeviceId(0)));
    assert_eq!(daemon.on_device_add(phys(0x1234)), Some(DeviceId(1)));
    daemon
}

fn writes(result: Result<Reaction, Error>) -> Vec<(PortId, RawEvent)> {
    match result {
        Ok(reaction) => {
            assert!(reaction.events.is_empty());
            reaction.writes
        },
        Err(_) => panic!("the event was refused"),
    }
}

#[test]
fn config_is_usable() {
    assert!(config_check(&config()));
}

#[test]
fn config_with_unknown_trigger_key_is_refused() {
    let mut config = config();
    config.adapters[0].autoplug = vec![(s("Pad"), s("SELECT"))];
    assert!(!config_check(&config));
}

#[test]
fn config_with_a_name_twice_is_refused() {
    let mut config = config();
    config.devices[0].keys.push((s("A"), KeyId(306)));
    assert!(!config_check(&config));
    let mut config = self::config();
    config.adapters[0].map.push(((s("Pad"), s("gamepad")), vec![]));
    assert!(!config_check(&config));
}

#[test]
fn unused_code_out_of_range_is_harmless() {
    let mut config = config();
    config.devices[0].keys.push((s("HUGE"), KeyId(0x300)));
    assert!(config_check(&config));
    let mut daemon = Daemon::new(config);
    assert_eq!(daemon.on_device_add(phys(0x1234)), Some(DeviceId(0)));
    let args = plug_args(&["Pad:1"], &["Gamepad:1"], None);
    assert!(daemon.plug_codes_check(&args));
    let (result, events) = daemon.plug(args);
    assert_eq!(result, Ok(Response::Ack));
    assert_eq!(events, vec![plugged("Pad:1")]);
}

fn out_of_range_config() -> Config {
    let mut config = config();
    config.devices[0].keys.push((s("HUGE"), KeyId(0x300)));
    config.adapters[0].map[0].1.push(Mapper::Key(s("HUGE"), s("BTN_SOUTH")));
    config
}

#[test]
fn mapped_code_out_of_range_cannot_be_plugged() {
    let mut daemon = Daemon::new(out_of_range_config());
    assert_eq!(daemon.on_device_add(phys(0x1234)), Some(DeviceId(0)));
    assert!(!daemon.plug_codes_check(&plug_args(&["Pad:1"], &["Gamepad:1"], None)));
    assert!(daemon.plug_codes_check(&plug_args(&["Nope"], &["Gamepad:1"], None)));
}

#[test]
fn autoplugging_a_code_out_of_range_stops_the_daemon() {
    let mut daemon = Daemon::new(out_of_range_config());
    assert_eq!(daemon.on_device_add(phys(0x1234)), Some(DeviceId(0)));
    match daemon.on_input_key_change(DeviceId(0), key(315, KeyState::Pressed)) {
        Err(Error::CodeOutOfRange(id)) => assert_eq!(id, DeviceId(0)),
        _ => panic!("a code out of range was plugged"),
    }
    assert!(daemon.device_plugs(DeviceId(0)).is_empty());
}

#[test]
fn monitor_is_told_the_gamepad_ports() {
    let daemon = Daemon::new(config());
    assert_eq!(daemon.register_monitor(), Response::MonitorInit(MonitorInit { ports: vec![s("Gamepad:1"), s("Gamepad:2")] }));
}

#[test]
fn unknown_device_is_not_registered() {
    let mut daemon = Daemon::new(config());
    assert_eq!(daemon.on_device_add(phys(0x9999)), None);
}

#[test]
fn devices_are_numbered_from_one() {
    let daemon = daemon_with_two_pads();
    assert_eq!(daemon.device(DeviceId(0)).name, s("Pad:1"));
    assert_eq!(daemon.device(DeviceId(1)).name, s("Pad:2"));
    assert_eq!(daemon.device(DeviceId(1)).fullname, s("Test Pad 2"));
}

#[test]
fn plug_unknown_device_fails() {
    let mut daemon = daemon_with_two_pads();
    let (result, events) = daemon.plug(plug_args(&["Pad:1", "Nope"], &["Gamepad:1"], None));
    assert_eq!(result, Err(s("Device (1, Nope) not found")));
    assert!(events.is_empty());
}

#[test]
fn plug_unknown_port_fails() {
    let mut daemon = daemon_with_two_pads();
    let (result, events) = daemon.plug(plug_args(&["Pad:1"], &["Nope"], None));
    assert_eq!(result, Err(s("Port (0, Nope) not found")));
    assert!(events.is_empty());
}

#[test]
fn plug_without_default_adapter_fails() {
    let mut daemon = daemon_with_two_pads();
    let (result, _) = daemon.plug(plug_args(&["Pad:1"], &["Gamepad:1", "Gamepad:2"], None));
    assert_eq!(result, Err(s("No default adapter found for [\"Gamepad\", \"Gamepad\"]")));
}

#[test]
fn plug_unknown_adapter_fails() {
    let mut daemon = daemon_with_two_pads();
    let (result, _) = daemon.plug(plug_args(&["Pad:1"], &["Gamepad:1"], Some("Missing")));
    assert_eq!(result, Err(s("Adapter Missing not found")));
}

#[test]
fn plug_with_default_adapter_tells_monitors() {
    let mut daemon = daemon_with_two_pads();
    let (result, events) = daemon.plug(plug_args(&["Pad:1"], &["Gamepad:1"], None));
    assert_eq!(result, Ok(Response::Ack));
    assert_eq!(events, vec![plugged("Pad:1")]);
}

#[test]
fn plugged_device_keys_reach_the_port() {
    let mut daemon = daemon_with_two_pads();
    let _ = daemon.plug(plug_args(&["Pad:1"], &["Gamepad:1"], Some("Pad to gamepad")));
    let out = writes(daemon.on_input_key_change(DeviceId(0), key(304, KeyState::Pressed)));
    assert_eq!(out, vec![(PortId(0), raw(EV_KEY, 304, 1))]);
    let out = writes(daemon.on_input_key_change(DeviceId(0), key(305, KeyState::Pressed)));
    assert_eq!(out, vec![(PortId(0), raw(EV_KEY, 305, 0))]);
    let out = writes(daemon.on_input_key_change(DeviceId(0), key(305, KeyState::Released)));
    assert_eq!(out, vec![(PortId(0), raw(EV_KEY, 305, 1))]);
    let out = writes(daemon.on_input_key_change(DeviceId(0), key(316, KeyState::Pressed)));
    assert!(out.is_empty());
}

#[test]
fn reversed_key_refuses_auto_repeat() {
    let mut daemon = daemon_with_two_pads();
    let _ = daemon.plug(plug_args(&["Pad:1"], &["Gamepad:1"], None));
    match daemon.on_input_key_change(DeviceId(0), key(305, KeyState::AutoRepeat)) {
        Err(Error::Translate(_)) => {},
        _ => panic!("auto-repeat of a reversed key was accepted"),
    }
}

#[test]
fn plugged_device_axis_is_rescaled() {
    let mut daemon = daemon_with_two_pads();
    let _ = daemon.plug(plug_args(&["Pad:1"], &["Gamepad:1"], None));
    for (state, expected) in [(0isize, -100i32), (255, 100), (128, 0)] {
        let event = AxisEvent { timestamp: at(), id: AxisId(0), state: AxisState(state) };
        assert!(daemon.can_take_axis(DeviceId(0), &event));
        assert_eq!(daemon.on_input_axis_change(DeviceId(0), event), vec![(PortId(0), raw(EV_ABS, 0, expected))]);
    }
}

#[test]
fn plugged_device_motion_and_sync_reach_the_port() {
    let mut daemon = daemon_with_two_pads();
    let _ = daemon.plug(plug_args(&["Pad:1"], &["Gamepad:1"], None));
    let motion = MotionEvent { timestamp: at(), id: MotionId(8), state: MotionState(-3) };
    assert_eq!(daemon.on_input_motion(DeviceId(0), motion), vec![(PortId(0), raw(EV_REL, 8, -3))]);
    let sync = SyncEvent { timestamp: at(), kind: SyncKind(0) };
    assert_eq!(daemon.on_input_sync(DeviceId(0), sync), vec![(PortId(0), raw(EV_SYN, 0, 0))]);
    assert!(daemon.on_input_sync(DeviceId(1), sync).is_empty());
}

#[test]
fn unplugged_device_events_go_nowhere() {
    let mut daemon = daemon_with_two_pads();
    let out = writes(daemon.on_input_key_change(DeviceId(0), key(304, KeyState::Pressed)));
    assert!(out.is_empty());
    let motion = MotionEvent { timestamp: at(), id: MotionId(8), state: MotionState(1) };
    assert!(daemon.on_input_motion(DeviceId(0), motion).is_empty());
}

#[test]
fn pressing_the_trigger_key_plugs_automatically() {
    let mut daemon = daemon_with_two_pads();
    match daemon.on_input_key_change(DeviceId(1), key(315, KeyState::Pressed)) {
        Ok(reaction) => {
            assert!(reaction.writes.is_empty());
            assert_eq!(reaction.events, vec![plugged("Pad:2")]);
        },
        Err(_) => panic!("automatic plugging failed"),
    }
    let out = writes(daemon.on_input_key_change(DeviceId(1), key(304, KeyState::Pressed)));
    assert_eq!(out, vec![(PortId(0), raw(EV_KEY, 304, 1))]);
}

fn two_trigger_daemon() -> Daemon {
    let mut adapter = pad_adapter();
    adapter.autoplug = vec![(s("Pad"), s("START")), (s("Pad"), s("A"))];
    let mut config = config();
    config.adapters = vec![adapter];
    let mut daemon = Daemon::new(config);
    assert_eq!(daemon.on_device_add(phys(0x1234)), Some(DeviceId(0)));
    assert_eq!(daemon.on_device_add(phys(0x1234)), Some(DeviceId(1)));
    daemon
}

fn told(result: Result<Reaction, Error>) -> Vec<Event> {
    match result {
        Ok(reaction) => {
            assert!(reaction.writes.is_empty());
            reaction.events
        },
        Err(_) => panic!("the event was refused"),
    }
}

#[test]
fn trigger_held_on_two_devices_waits() {
    let mut daemon = two_trigger_daemon();
    assert!(told(daemon.on_input_key_change(DeviceId(0), key(315, KeyState::Pressed))).is_empty());
    assert!(told(daemon.on_input_key_change(DeviceId(1), key(315, KeyState::Pressed))).is_empty());
    assert!(told(daemon.on_input_key_change(DeviceId(0), key(304, KeyState::Pressed))).is_empty());
    assert_eq!(told(daemon.on_input_key_change(DeviceId(1), key(315, KeyState::Released))), vec![plugged("Pad:1")]);
}

#[test]
fn released_trigger_is_forgotten() {
    let mut daemon = two_trigger_daemon();
    assert!(told(daemon.on_input_key_change(DeviceId(0), key(315, KeyState::Pressed))).is_empty());
    assert!(told(daemon.on_input_key_change(DeviceId(0), key(315, KeyState::Released))).is_empty());
    assert!(told(daemon.on_input_key_change(DeviceId(0), key(304, KeyState::Pressed))).is_empty());
    assert_eq!(told(daemon.on_input_key_change(DeviceId(0), key(315, KeyState::Pressed))), vec![plugged("Pad:1")]);
}

#[test]
fn departed_candidate_stops_the_daemon() {
    let mut daemon = two_trigger_daemon();
    assert!(told(daemon.on_input_key_change(DeviceId(1), key(315, KeyState::Pressed))).is_empty());
    daemon.on_device_remove(DeviceId(1));
    match daemon.on_input_key_change(DeviceId(0), key(304, KeyState::Pressed)) {
        Err(Error::UnknownDevice(id)) => assert_eq!(id, DeviceId(1)),
        _ => panic!("a departed device was plugged"),
    }
}

#[test]
fn removed_device_frees_its_slot() {
    let mut daemon = daemon_with_two_pads();
    daemon.on_device_remove(DeviceId(0));
    assert!(!daemon.has_device(DeviceId(0)));
    assert_eq!(daemon.on_device_add(phys(0x1234)), Some(DeviceId(0)));
    assert_eq!(daemon.device(DeviceId(0)).name, s("Pad:1"));
}

#[test]
fn commands_are_answered() {
    let mut daemon = daemon_with_two_pads();
    assert_eq!(daemon.on_command(Command::Ping), (Ok(Response::Ack), vec![]));
    assert_eq!(daemon.on_command(Command::Reset), (Ok(Response::Ack), vec![]));
    let (monitor, _) = daemon.on_command(Command::Monitor);
    assert_eq!(monitor, Ok(Response::MonitorInit(MonitorInit { ports: vec![s("Gamepad:1"), s("Gamepad:2")] })));
    let (result, events) = daemon.on_command(Command::Plug(plug_args(&["Pad:2"], &["Gamepad:2"], None)));
    assert_eq!(result, Ok(Response::Ack));
    assert_eq!(
        events,
        vec![Event::Plugged(PluggedEvent { device: s("Pad:2"), ports: vec![s("Gamepad:2")], adapter: s("Pad to gamepad") })]
    );
}

#[test]
fn reset_unplugs_all() {
    let mut daemon = daemon_with_two_pads();
    let _ = daemon.plug(plug_args(&["Pad:1"], &["Gamepad:1"], None));
    let _ = daemon.plug(plug_args(&["Pad:2"], &["Gamepad:1", "Gamepad:2"], Some("Pad to gamepad")));
    assert_eq!(daemon.device_plugs(DeviceId(0)).len(), 1);
    let (result, events) = daemon.on_command(Command::Reset);
    assert_eq!(result, Ok(Response::Ack));
    assert!(events.is_empty());
    assert!(daemon.device_plugs(DeviceId(0)).is_empty());
    assert!(daemon.device_plugs(DeviceId(1)).is_empty());
    let out = writes(daemon.on_input_key_change(DeviceId(0), key(304, KeyState::Pressed)));
    assert!(out.is_empty());
    assert_eq!(daemon.reset(), Ok(Response::Ack));
}

#[test]
fn plug_of_nothing_into_an_unknown_port_fails() {
    let mut daemon = daemon_with_two_pads();
    let args = plug_args(&[], &["Nope"], None);
    assert!(daemon.plug_defined(&args));
    let (result, events) = daemon.plug(args);
    assert_eq!(result, Err(s("Port (0, Nope) not found")));
    assert!(events.is_empty());
    assert!(!daemon.plug_defined(&plug_args(&[], &["Gamepad:1"], None)));
    assert!(daemon.plug_defined(&plug_args(&[], &["Gamepad:1"], Some("Pad to gamepad"))));
}
