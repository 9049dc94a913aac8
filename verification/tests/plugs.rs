use multitap::config::adapter::{Adapter, Device as AdapterInput, Mapper, Output};
use multitap::config::device::{Device as DeviceConfig, DeviceSpec, Match};
use multitap::config::port::{Axis, Port as PortConfig};
use multitap::config::Config;
use multitap::device::{Device, DeviceId, PhysDevice};
use multitap::input::{AxisEvent, AxisId, AxisInfo, AxisState, InputEvent, KeyEvent, KeyId, KeyState, MotionId, Timestamp};
use multitap::plug::transform::axis::{AxisTransform, IntoAxis, IntoKeys};
use multitap::plug::transform::key::{IntoReversedKey, KeyTransform};
use multitap::plug::transform::{Error as TransformError, Transform, TransformCreateContext};
use multitap::plug::{Error, Plug, PlugId};
use multitap::port::{Port, PortId};

fn s(text: &str) -> String {
    text.to_string()
}

fn pad_config() -> DeviceConfig {
    DeviceConfig {
        name: s("Pad"),
        fullname: s("Test Pad"),
        matches_: vec![
            Match { driver: vec![s("usbhid")], vendor: vec![0x1234], product: vec![] },
            Match { driver: vec![], vendor: vec![], product: vec![77] },
        ],
        default_adapters: vec![(vec![s("Gamepad")], s("Pad to gamepad")), (vec![s("Gamepad"), s("Gamepad")], s("Twice"))],
        keys: vec![(s("A"), KeyId(304)), (s("B"), KeyId(305)), (s("L"), KeyId(310)), (s("R"), KeyId(311))],
        axes: vec![(s("X"), AxisId(0)), (s("HAT"), AxisId(16))],
        motions: vec![(s("WHEEL"), MotionId(8))],
        leds: None,
    }
}

fn gamepad_config() -> PortConfig {
    PortConfig {
        name: s("Gamepad"),
        product_id: 1,
        version: 1,
        fullname: s("Virtual Gamepad"),
        slots: vec![s("unique")],
        keys: vec![(s("BTN_SOUTH"), KeyId(304)), (s("BTN_EAST"), KeyId(305)), (s("LEFT"), KeyId(546)), (s("RIGHT"), KeyId(547))],
        axes: vec![(s("ABS_X"), Axis { id: AxisId(0), min: -100, max: 100, flat: 0 }), (s("ABS_Z"), Axis { id: AxisId(2), min: 0, max: 10, flat: 0 })],
        motions: vec![(s("REL_WHEEL"), MotionId(8))],
    }
}

fn adapter(mappers: Vec<Mapper>) -> Adapter {
    Adapter {
        name: s("Pad to gamepad"),
        inputs: vec![AdapterInput { name: s("pad"), match_: s("Pad") }],
        outputs: vec![Output { name: s("gamepad"), match_: s("Gamepad") }],
        autoplug: vec![],
        map: vec![((s("pad"), s("gamepad")), mappers)],
    }
}

fn device() -> Device {
    let backend = PhysDevice {
        driver: s("usbhid"),
        vendor_id: 0x1234,
        product_id: 1,
        axes: vec![
            (AxisId(0), AxisInfo { value: 0, min: -32768, max: 32767, flat: 0 }),
            (AxisId(16), AxisInfo { value: 0, min: -1, max: 1, flat: 0 }),
        ],
    };
    Device::new(DeviceId(3), &pad_config(), 0, backend)
}

fn port() -> Port {
    Port::new(PortId(5), &gamepad_config(), &s("unique"))
}

fn at() -> Timestamp {
    Timestamp { seconds: 0, microseconds: 0 }
}

fn key(id: KeyId, state: KeyState) -> KeyEvent {
    KeyEvent { timestamp: at(), id, state }
}

fn axis(id: AxisId, state: isize) -> AxisEvent {
    AxisEvent { timestamp: at(), id, state: AxisState(state) }
}

#[test]
fn port_of_a_unique_slot_keeps_the_kind_name() {
    let p = port();
    assert_eq!(p.name, s("Gamepad"));
    assert_eq!(p.fullname, s("Virtual Gamepad"));
    let q = Port::new(PortId(1), &gamepad_config(), &s("2"));
    assert_eq!(q.name, s("Gamepad:2"));
    assert_eq!(q.fullname, s("Virtual Gamepad 2"));
}

#[test]
fn device_is_found_by_any_rule() {
    let config = pad_config();
    assert!(config.find(&DeviceSpec { vendor: 0x1234, product: 9, driver: s("usbhid") }));
    assert!(config.find(&DeviceSpec { vendor: 1, product: 77, driver: s("other") }));
    assert!(!config.find(&DeviceSpec { vendor: 0x1234, product: 9, driver: s("other") }));
    assert_eq!(config.find_adapter(&[s("Gamepad")]), Some(s("Pad to gamepad")));
    assert_eq!(config.find_adapter(&[s("Gamepad"), s("Gamepad")]), Some(s("Twice")));
    assert_eq!(config.find_adapter(&[s("Other")]), None);
}

#[test]
fn configuration_lookups_take_the_first_match() {
    let mut second = pad_config();
    second.fullname = s("Second");
    let config = Config { devices: vec![pad_config(), second], ports: vec![], adapters: vec![adapter(vec![])] };
    assert_eq!(config.find_device_by_name(&s("Pad")).map(|d| d.fullname.clone()), Some(s("Test Pad")));
    assert!(config.find_device_by_name(&s("Nope")).is_none());
    let spec = DeviceSpec { vendor: 0x1234, product: 1, driver: s("usbhid") };
    assert_eq!(config.find_device_by_spec(&spec).map(|d| d.fullname.clone()), Some(s("Test Pad")));
    assert!(config.find_adapter_by_name(&s("Pad to gamepad")).is_some());
    assert!(config.find_adapter_by_name(&s("x")).is_none());
}

#[test]
fn plug_maps_each_mapper() {
    let adapter = adapter(vec![
        Mapper::Key(s("A"), s("BTN_SOUTH")),
        Mapper::KeyToAxis(s("B"), s("ABS_Z")),
        Mapper::AxisToKeys(s("X"), s("LEFT"), s("RIGHT"), 50),
        Mapper::Motion(s("WHEEL"), s("REL_WHEEL")),
    ]);
    let device = device();
    let port = port();
    let mut plug = match Plug::new(PlugId(2), &adapter, &device, &[&port]) {
        Ok(plug) => plug,
        Err(_) => panic!("plugging failed"),
    };
    assert_eq!(plug.id, PlugId(2));
    assert_eq!(plug.deviceid, DeviceId(3));
    assert_eq!(plug.portids, vec![PortId(5)]);
    assert_eq!(plug.sync_ports(multitap::input::SyncEvent { timestamp: at(), kind: multitap::input::SyncKind(0) }), &[PortId(5)]);
    match plug.translate_key(&key(KeyId(304), KeyState::Pressed)) {
        Ok(out) => assert_eq!(out, vec![(InputEvent::Key(key(KeyId(304), KeyState::Pressed)), PortId(5))]),
        Err(_) => panic!("translation failed"),
    }
    match plug.translate_key(&key(KeyId(305), KeyState::Pressed)) {
        Ok(out) => assert_eq!(out, vec![(InputEvent::Axis(axis(AxisId(2), 10)), PortId(5))]),
        Err(_) => panic!("translation failed"),
    }
    match plug.translate_key(&key(KeyId(305), KeyState::Released)) {
        Ok(out) => assert_eq!(out, vec![(InputEvent::Axis(axis(AxisId(2), 0)), PortId(5))]),
        Err(_) => panic!("translation failed"),
    }
    let low = axis(AxisId(0), -30000);
    assert!(plug.can_translate_axis(&low));
    match plug.translate_axis(&low) {
        Ok(out) => assert_eq!(out, vec![(InputEvent::Key(key(KeyId(546), KeyState::Pressed)), PortId(5))]),
        Err(_) => panic!("translation failed"),
    }
    match plug.translate_axis(&low) {
        Ok(out) => assert!(out.is_empty()),
        Err(_) => panic!("translation failed"),
    }
    match plug.translate_axis(&axis(AxisId(0), 0)) {
        Ok(out) => assert_eq!(out, vec![(InputEvent::Key(key(KeyId(546), KeyState::Released)), PortId(5))]),
        Err(_) => panic!("translation failed"),
    }
}

#[test]
fn plug_fails_on_an_unknown_name() {
    let adapter = adapter(vec![Mapper::Key(s("A"), s("BTN_SOUTH")), Mapper::Key(s("Z"), s("BTN_SOUTH"))]);
    match Plug::new(PlugId(0), &adapter, &device(), &[&port()]) {
        Err(Error::Transform(TransformError::Find(message))) => {
            assert_eq!(message, s("[Plug \"Pad to gamepad\"] Unable to find device key/button \"Z\""));
        },
        _ => panic!("an unknown key was accepted"),
    }
}

#[test]
fn plug_fails_without_an_input_for_the_device() {
    let mut adapter = adapter(vec![]);
    adapter.inputs = vec![AdapterInput { name: s("pad"), match_: s("Other") }];
    match Plug::new(PlugId(0), &adapter, &device(), &[&port()]) {
        Err(Error::Find(message)) => assert_eq!(message, s("[Plug \"Pad to gamepad\"] Unable to find input \"Pad\"")),
        _ => panic!("a device without input was plugged"),
    }
}

#[test]
fn plug_fails_without_a_map() {
    let mut adapter = adapter(vec![]);
    adapter.map = vec![];
    match Plug::new(PlugId(0), &adapter, &device(), &[&port()]) {
        Err(Error::Find(message)) => {
            assert_eq!(message, s("[Plug \"Pad to gamepad\"] Unable to find map (\"pad\", \"gamepad\")"));
        },
        _ => panic!("a device without map was plugged"),
    }
}

#[test]
fn axis_without_device_information_is_refused() {
    let adapter = adapter(vec![Mapper::Axis(s("X"), s("ABS_X"))]);
    let mut device = device();
    device.backend.axes = vec![];
    match Plug::new(PlugId(0), &adapter, &device, &[&port()]) {
        Err(Error::Transform(TransformError::Find(message))) => {
            assert_eq!(message, s("[Plug \"Pad to gamepad\"] Unable to query device axis info AxisId(0)"));
        },
        _ => panic!("an axis without information was accepted"),
    }
}

#[test]
fn reversed_key_flips_and_refuses_repeat() {
    let mut t = KeyTransform::IntoReversedKey(IntoReversedKey(KeyId(9)));
    match t.apply(&key(KeyId(1), KeyState::Pressed)) {
        Ok(out) => assert_eq!(out, vec![InputEvent::Key(key(KeyId(9), KeyState::Released))]),
        Err(_) => panic!("reversal failed"),
    }
    match t.apply(&key(KeyId(1), KeyState::Released)) {
        Ok(out) => assert_eq!(out, vec![InputEvent::Key(key(KeyId(9), KeyState::Pressed))]),
        Err(_) => panic!("reversal failed"),
    }
    assert!(matches!(t.apply(&key(KeyId(1), KeyState::AutoRepeat)), Err(TransformError::UnsupportedAutoRepeatForReverseKey(KeyId(9)))));
}

#[test]
fn axis_is_rescaled_and_reversed() {
    let mut straight = AxisTransform::IntoAxis(IntoAxis { id: AxisId(1), reverse: false, from_min: 0, from_range: 255, to_min: -100, to_range: 200 });
    let mut reversed = AxisTransform::IntoAxis(IntoAxis { id: AxisId(1), reverse: true, from_min: 0, from_range: 255, to_min: -100, to_range: 200 });
    for (state, value) in [(0isize, -100isize), (255, 100), (64, -50)] {
        match straight.apply(&axis(AxisId(0), state)) {
            Ok(out) => assert_eq!(out, vec![InputEvent::Axis(axis(AxisId(1), value))]),
            Err(_) => panic!("rescaling failed"),
        }
        match reversed.apply(&axis(AxisId(0), state)) {
            Ok(out) => assert_eq!(out, vec![InputEvent::Axis(axis(AxisId(1), -value))]),
            Err(_) => panic!("rescaling failed"),
        }
    }
    let flat = IntoAxis { id: AxisId(1), reverse: false, from_min: 0, from_range: 0, to_min: 0, to_range: 1 };
    assert!(!flat.is_ready(3));
}

#[test]
fn hat_keys_press_at_the_ends() {
    let adapter = adapter(vec![Mapper::HatToKeys(s("HAT"), s("LEFT"), s("RIGHT"))]);
    let device = device();
    let port = port();
    let context = TransformCreateContext { device: &device, port: &port, adapter: &adapter };
    let mut hat = match AxisTransform::create(&context, &Mapper::HatToKeys(s("HAT"), s("LEFT"), s("RIGHT"))) {
        Ok((id, t)) => {
            assert_eq!(id, AxisId(16));
            t
        },
        Err(_) => panic!("creation failed"),
    };
    match hat.apply(&axis(AxisId(16), 1)) {
        Ok(out) => assert_eq!(out, vec![InputEvent::Key(key(KeyId(547), KeyState::Pressed))]),
        Err(_) => panic!("hat failed"),
    }
    match hat.apply(&axis(AxisId(16), -1)) {
        Ok(out) => assert_eq!(
            out,
            vec![InputEvent::Key(key(KeyId(546), KeyState::Pressed)), InputEvent::Key(key(KeyId(547), KeyState::Released))]
        ),
        Err(_) => panic!("hat failed"),
    }
}

#[test]
fn keys_of_an_axis_start_released() {
    let keys = IntoKeys::new(&[(0, 5, KeyId(1)), (6, 9, KeyId(2))]);
    assert_eq!(keys.0.len(), 2);
    assert_eq!(keys.0[1].state, KeyState::Released);
    let mut t = AxisTransform::IntoKeys(keys);
    match t.apply(&axis(AxisId(0), 7)) {
        Ok(out) => assert_eq!(out, vec![InputEvent::Key(key(KeyId(2), KeyState::Pressed))]),
        Err(_) => panic!("keys failed"),
    }
}

#[test]
fn creating_a_key_transform_from_an_axis_mapper_is_refused() {
    let adapter = adapter(vec![]);
    let device = device();
    let port = port();
    let context = TransformCreateContext { device: &device, port: &port, adapter: &adapter };
    assert!(matches!(
        KeyTransform::create(&context, &Mapper::Axis(s("X"), s("ABS_X"))),
        Err(TransformError::InvalidTransformCreateCalled)
    ));
}
