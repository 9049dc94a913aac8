use multitap::eventloop::{command_processing, EventLoopResult, LoopFlags, Processing};
use multitap::framing::{CommandBuffer, Received, SOCKET_CONNECTION_BUF_SIZE};
use multitap::input::{AxisEvent, AxisId, AxisState, InputEvent, KeyEvent, KeyId, KeyState, MotionEvent, MotionId, MotionState, SyncEvent, SyncKind, Timestamp};
use multitap::protocol::{Command, PlugArgs, DELIMITER};
use multitap::raw::{as_evdev_event, dispatch, key_event, Error as RawError, RawEvent, EV_ABS, EV_KEY, EV_REL, EV_SYN};
use multitap::text::{not_found_message, push_debug_list, push_decimal};
use multitap::uevent::{driver, enumerate, is_event_node, join_path, parse, registration, sysfs_path, ListedDevice, Registration};

#[test]
fn partial_messages_are_gathered() {
    let mut buffer = CommandBuffer::new();
    assert_eq!(buffer.room(), SOCKET_CONNECTION_BUF_SIZE);
    assert_eq!(buffer.receive(b"\"Pi"), Received::Partial);
    assert_eq!(buffer.room(), SOCKET_CONNECTION_BUF_SIZE - 3);
    assert_eq!(buffer.receive(b"ng\"\0"), Received::Message(b"\"Ping\"".to_vec()));
    assert_eq!(buffer.room(), SOCKET_CONNECTION_BUF_SIZE);
    assert_eq!(buffer.receive(b"x\0"), Received::Message(b"x".to_vec()));
}

#[test]
fn empty_read_is_done() {
    let mut buffer = CommandBuffer::new();
    assert_eq!(buffer.receive(b""), Received::Done);
    assert_eq!(buffer.receive(&[DELIMITER]), Received::Message(vec![]));
}

#[test]
fn full_buffer_reads_nothing_more() {
    let mut buffer = CommandBuffer::new();
    let data = vec![b'a'; SOCKET_CONNECTION_BUF_SIZE];
    assert_eq!(buffer.receive(&data), Received::Partial);
    assert_eq!(buffer.room(), 0);
    assert_eq!(buffer.receive(&[]), Received::Done);
}

#[test]
fn termination_wins_over_reloading() {
    let mut flags = LoopFlags::new();
    assert_eq!(flags.result(), None);
    assert!(flags.take(Processing::Continue));
    assert!(flags.take(Processing::Register));
    assert!(flags.take(Processing::Reload));
    assert_eq!(flags.result(), Some(EventLoopResult::Reload));
    assert!(flags.take(Processing::Term));
    assert!(!flags.take(Processing::Done));
    assert_eq!(flags.result(), Some(EventLoopResult::Term));
}

#[test]
fn reload_and_quit_stop_the_loop() {
    assert_eq!(command_processing(&Command::Reload), Some(Processing::Reload));
    assert_eq!(command_processing(&Command::Quit), Some(Processing::Term));
    assert_eq!(command_processing(&Command::Ping), None);
    let plug = PlugArgs { devices: vec![], ports: vec![], adapter: None };
    assert_eq!(command_processing(&Command::Plug(plug)), None);
}

fn at() -> Timestamp {
    Timestamp { seconds: 7, microseconds: 9 }
}

#[test]
fn events_become_records() {
    let key = InputEvent::Key(KeyEvent { timestamp: at(), id: KeyId(30), state: KeyState::AutoRepeat });
    assert_eq!(as_evdev_event(&key), RawEvent { seconds: 7, microseconds: 9, event_type: EV_KEY, code: 30, value: 2 });
    let axis = InputEvent::Axis(AxisEvent { timestamp: at(), id: AxisId(1), state: AxisState(-42) });
    assert_eq!(as_evdev_event(&axis), RawEvent { seconds: 7, microseconds: 9, event_type: EV_ABS, code: 1, value: -42 });
    let motion = InputEvent::Motion(MotionEvent { timestamp: at(), id: MotionId(0), state: MotionState(5) });
    assert_eq!(as_evdev_event(&motion), RawEvent { seconds: 7, microseconds: 9, event_type: EV_REL, code: 0, value: 5 });
    let sync = InputEvent::Sync(SyncEvent { timestamp: at(), kind: SyncKind(0) });
    assert_eq!(as_evdev_event(&sync), RawEvent { seconds: 7, microseconds: 9, event_type: EV_SYN, code: 0, value: 0 });
}

#[test]
fn records_decode_to_their_events() {
    for event in [
        InputEvent::Key(KeyEvent { timestamp: at(), id: KeyId(30), state: KeyState::Pressed }),
        InputEvent::Axis(AxisEvent { timestamp: at(), id: AxisId(1), state: AxisState(77) }),
        InputEvent::Motion(MotionEvent { timestamp: at(), id: MotionId(8), state: MotionState(-1) }),
        InputEvent::Sync(SyncEvent { timestamp: at(), kind: SyncKind(0) }),
    ] {
        assert_eq!(dispatch(&as_evdev_event(&event)), Ok(Some(event)));
    }
}

#[test]
fn unknown_key_value_is_refused() {
    let record = RawEvent { seconds: 0, microseconds: 0, event_type: EV_KEY, code: 30, value: 3 };
    assert_eq!(key_event(&record, 30), Err(RawError::UnsupportedKeyState(3)));
    assert_eq!(dispatch(&record), Err(RawError::UnsupportedKeyState(3)));
    let other = RawEvent { seconds: 0, microseconds: 0, event_type: 17, code: 0, value: 1 };
    assert_eq!(dispatch(&other), Ok(None));
}

#[test]
fn names_are_quoted_and_numbered() {
    let mut quoted = String::new();
    push_debug_list(&mut quoted, &vec!["a\"b".to_string()]);
    assert_eq!(quoted, "[\"a\\\"b\"]");
    let mut out = String::from("n=");
    push_decimal(&mut out, 1203);
    assert_eq!(out, "n=1203");
    let mut list = String::new();
    push_debug_list(&mut list, &vec!["x".to_string(), "y z".to_string()]);
    assert_eq!(list, "[\"x\", \"y z\"]");
    assert_eq!(not_found_message("Port", 10, &"P".to_string()), "Port (10, P) not found");
}

fn uevent_bytes(lines: &[&str]) -> Vec<u8> {
    let mut v = Vec::new();
    for line in lines {
        v.extend_from_slice(line.as_bytes());
        v.push(0);
    }
    v
}

#[test]
fn new_event_device_is_announced() {
    let msg = uevent_bytes(&["add@/devices/usb1/input/input5/event5", "ACTION=add", "DEVPATH=/devices/usb1/input/input5/event5", "SUBSYSTEM=input", "DEVNAME=input/event5"]);
    let fields = parse(&msg);
    assert_eq!(fields.action, Some(b"add".to_vec()));
    assert_eq!(fields.devname, Some(b"input/event5".to_vec()));
    assert_eq!(
        registration(&fields),
        Some(Registration { syspath: Some(b"/sys/devices/usb1/input/input5".to_vec()), devnode: b"/dev/input/event5".to_vec() })
    );
}

#[test]
fn other_device_events_are_ignored() {
    let removed = uevent_bytes(&["ACTION=remove", "DEVPATH=/devices/x", "DEVNAME=input/event5"]);
    assert_eq!(registration(&parse(&removed)), None);
    let mouse = uevent_bytes(&["ACTION=add", "DEVPATH=/devices/x", "DEVNAME=input/mouse0"]);
    assert_eq!(registration(&parse(&mouse)), None);
    let nameless = uevent_bytes(&["ACTION=add", "DEVPATH=/devices/x"]);
    assert_eq!(registration(&parse(&nameless)), None);
}

#[test]
fn last_value_of_a_field_counts() {
    let msg = b"ACTION=remove\0ACTION=add\0DEVNAME=/dev/input/event9";
    let fields = parse(msg);
    assert_eq!(fields.action, Some(b"add".to_vec()));
    assert_eq!(fields.devpath, None);
    assert_eq!(registration(&fields), Some(Registration { syspath: None, devnode: b"/dev/input/event9".to_vec() }));
}

#[test]
fn paths_join_as_std_does() {
    assert_eq!(join_path(b"/dev", b"input/event1"), b"/dev/input/event1".to_vec());
    assert_eq!(join_path(b"/dev", b"/other"), b"/other".to_vec());
    assert_eq!(join_path(b"/dev", b""), b"/dev/".to_vec());
}

fn lines(text: &str) -> Vec<Vec<u8>> {
    text.lines().map(|l| l.as_bytes().to_vec()).collect()
}

#[test]
fn device_list_gives_devices_with_keys() {
    let list = lines(
        "I: Bus=0003 Vendor=046d\nN: Name=\"Pad\"\nS: Sysfs=/devices/usb1/input/input5\nH: Handlers=kbd event5 js0\nB: KEY=ffff\n\nI: Bus=0019\nS: Sysfs=/devices/LNXPWRBN/input/input0\nH: Handlers=kbd\nB: EV=3\n\nS: Sysfs=/devices/x/input/input7\nH: Handlers=event7\nB: KEY=1\n",
    );
    match enumerate(&list) {
        Ok(devices) => {
            assert_eq!(devices.len(), 2);
            let ListedDevice { sysfs, handler } = &devices[0];
            assert_eq!(sysfs, &Some(b"devices/usb1/input/input5".to_vec()));
            assert_eq!(handler, &Some(b"event5".to_vec()));
            assert_eq!(devices[1].sysfs, Some(b"devices/x/input/input7".to_vec()));
            assert_eq!(devices[1].handler, Some(b"event7".to_vec()));
        },
        Err(n) => panic!("line {} refused", n),
    }
}

#[test]
fn device_without_handler_is_listed_without_one() {
    let list = lines("S: Sysfs=/devices/y\nB: KEY=1\n");
    match enumerate(&list) {
        Ok(devices) => {
            assert_eq!(devices.len(), 1);
            assert_eq!(devices[0].handler, None);
        },
        Err(n) => panic!("line {} refused", n),
    }
}

#[test]
fn malformed_sysfs_line_is_refused() {
    let list = lines("I: Bus=1\nS: Sysfs\nB: KEY=1\n");
    assert!(matches!(enumerate(&list), Err(1)));
}

#[test]
fn registration_gives_the_parent_sysfs_path() {
    let msg = b"add@/devices/pci0/usb1/1-1:1.0/input/input7/event7\0ACTION=add\0DEVPATH=/devices/pci0/usb1/1-1:1.0/input/input7/event7\0SUBSYSTEM=input\0DEVNAME=input/event7\0";
    assert_eq!(
        registration(&parse(msg)),
        Some(Registration { syspath: Some(b"/sys/devices/pci0/usb1/1-1:1.0/input/input7".to_vec()), devnode: b"/dev/input/event7".to_vec() })
    );
}

#[test]
fn sysfs_path_follows_path_components() {
    assert_eq!(sysfs_path(b""), None);
    assert_eq!(sysfs_path(b"/x"), Some(b"/sys".to_vec()));
    assert_eq!(sysfs_path(b"/"), Some(b"/".to_vec()));
    assert_eq!(sysfs_path(b"/a//b/."), Some(b"/sys/a".to_vec()));
    assert_eq!(sysfs_path(b"//abs/dev"), Some(b"/abs".to_vec()));
    assert_eq!(sysfs_path(b"/a/b/"), Some(b"/sys/a".to_vec()));
}

#[test]
fn virtual_devices_have_the_virtual_driver() {
    let path = |p: &str| p.split('/').filter(|c| !c.is_empty()).map(|c| c.as_bytes().to_vec()).collect::<Vec<_>>();
    assert_eq!(driver(&path("/sys/devices/virtual/input/input3/event3"), Some(b"usbhid".to_vec())), Some(b"virtual".to_vec()));
    assert_eq!(driver(&path("/sys/devices/pci0/usb1/input/input5/event5"), Some(b"usbhid".to_vec())), Some(b"usbhid".to_vec()));
    assert_eq!(driver(&path("/sys/devices/pci0/input/event5"), None), None);
}

#[test]
fn only_event_nodes_are_devices() {
    assert!(is_event_node(b"event12"));
    assert!(!is_event_node(b"mouse0"));
    assert!(!is_event_node(b"even"));
}
