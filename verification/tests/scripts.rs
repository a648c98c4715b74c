//! What scripts ask for, the registry and the devices in it.

use keyforge::bytes::{get_u32, put_u32, UHID_EVENT_SIZE};
use keyforge::device::{ReadOutcome, UhidDevice, WriteStep};
use keyforge::error::UhidError;
use keyforge::event::{
    encode_input2, BUS_USB, UHID_CREATE2, UHID_DEV_NUMBERED_INPUT_REPORTS, UHID_INPUT2, UHID_OPEN,
};
use keyforge::kernel::KernelEvent;
use keyforge::layout::{gamepad_descriptor, GamepadAxis, ReportLayout};
use keyforge::registry::{CreatePlan, Registry};
use keyforge::script::{
    constants, device_destroy, device_get_report_reply, device_input, device_input_raw,
    device_layout, device_set_report_reply, event_fields, finish_create, gamepad_table,
    input_report, keyboard_table, mouse_table, plan_request, CreateRequest, Field, ScriptError, ScriptInput,
};

fn request(name: &[u8], descriptor: Vec<u8>) -> CreateRequest {
    CreateRequest {
        name: name.to_vec(),
        phys: Vec::new(),
        uniq: Vec::new(),
        bus: None,
        vendor: None,
        product: None,
        version: None,
        country: None,
        descriptor,
    }
}

fn add(registry: &mut Registry, req: CreateRequest, layout: Option<ReportLayout>, fd: i32) -> u32 {
    let (name, plan) = plan_request(registry, &req);
    match plan.unwrap() {
        CreatePlan::Reuse(id) => id,
        CreatePlan::Fresh(_) => {
            let device = UhidDevice::open(fd).unwrap();
            finish_create(registry, name, req.descriptor, device, true, Ok(layout)).unwrap()
        }
    }
}

fn silent() -> ScriptInput {
    ScriptInput {
        button_list: None,
        held: Vec::new(),
        x: None,
        y: None,
        z: None,
        rx: None,
        ry: None,
        hat: None,
        modifiers: None,
        keys: None,
        button_bits: None,
        wheel: None,
    }
}

#[test]
fn create_reuses_live_device_by_name() {
    let mut registry = Registry::new();
    let mut create = |fd: i32| {
        let descriptor = gamepad_table(Some(4), Vec::new(), None).unwrap().descriptor;
        let layout = device_layout(Some("gamepad"), Some(4), &Vec::new(), None).unwrap();
        add(
            &mut registry,
            request(b"keyforge-reuse-test", descriptor),
            layout,
            fd,
        )
    };
    let first = create(3);
    let second = create(4);
    assert_eq!(first, second);
    let entry = registry.with(first).unwrap();
    assert_eq!(entry.device.fd(), 3);
    match &entry.layout {
        Some(ReportLayout::Gamepad { buttons, .. }) => assert_eq!(*buttons, 4),
        other => panic!("{other:?}"),
    }
}

#[test]
fn a_device_gets_its_id_only_when_all_went_well() {
    let mut registry = Registry::new();
    let mut finish = |fd: i32, written: bool, layout| {
        let device = UhidDevice::open(fd).unwrap();
        finish_create(&mut registry, "pad".to_string(), vec![1], device, written, layout)
    };
    assert_eq!(finish(3, false, Ok(None)).unwrap_err().fd(), 3);
    assert_eq!(finish(4, true, Err(UhidError::ButtonCount)).unwrap_err().fd(), 4);
    assert_eq!(finish(5, false, Err(UhidError::AxisCount)).unwrap_err().fd(), 5);
    let id = finish(6, true, Ok(Some(ReportLayout::Mouse))).unwrap();
    assert_eq!(registry.ids(), vec![id]);
    let entry = registry.with(id).unwrap();
    assert_eq!(entry.device.fd(), 6);
    assert_eq!(entry.name, "pad");
    assert!(matches!(entry.layout, Some(ReportLayout::Mouse)));
}

#[test]
fn ids_and_names_hold_over_many_calls() {
    let mut registry = Registry::new();
    let a = add(&mut registry, request(b"a", vec![1]), None, 3);
    let b = add(&mut registry, request(b"b", vec![1]), None, 4);
    assert!(registry.remove(a).is_some());
    let mut seen = vec![a, b];
    for fd in 5..9 {
        let id = add(&mut registry, request(b"a", vec![fd as u8]), None, fd);
        assert!(!seen.contains(&id));
        seen.push(id);
        let live = registry.ids();
        let named_a = live.iter().filter(|i| registry.with(**i).unwrap().name == "a");
        assert_eq!(named_a.count(), 1);
    }
    assert!(registry.with(a).is_none());
    assert_eq!(add(&mut registry, request(b"b", vec![1]), None, 9), b);
}

#[test]
fn poll_returns_empty_table_without_devices() {
    let mut registry = Registry::new();
    assert!(registry.ids().is_empty());
    assert_eq!(registry.take_pending().len(), 0);
    let flags = constants()
        .into_iter()
        .find(|c| c.0 == "DEV_NUMBERED_INPUT_REPORTS")
        .map(|c| c.1);
    assert_eq!(flags, Some(UHID_DEV_NUMBERED_INPUT_REPORTS));
}

#[test]
fn device_open_reports_missing_node_gracefully() {
    assert!(UhidDevice::open(-1).is_none());
    let dev = UhidDevice::open(3).unwrap();
    let mut destroy = dev.destroy();
    assert_eq!(destroy.fd(), 3);
    assert_eq!(destroy.wrote(UHID_EVENT_SIZE as isize), WriteStep::Done);
}

#[test]
fn lua_surface_builds_layouts_and_fails_closed_without_node() {
    let pad = gamepad_table(Some(8), Vec::new(), None).unwrap();
    assert!(pad.descriptor.len() > 32);
    assert_eq!(keyboard_table().kind, "keyboard");

    let mut registry = Registry::new();
    let (_, plan) = plan_request(
        &mut registry,
        &request(b"keyforge-test", keyboard_table().descriptor),
    );
    assert!(matches!(plan, Ok(CreatePlan::Fresh(None))));
    assert!(UhidDevice::open(-1).is_none());
    assert!(registry.ids().is_empty());
}

#[test]
fn a_new_descriptor_replaces_the_device() {
    let mut registry = Registry::new();
    let first = add(&mut registry, request(b"pad", vec![1]), None, 3);
    let (_, plan) = plan_request(&mut registry, &request(b"pad", vec![2]));
    match plan {
        Ok(CreatePlan::Fresh(Some(old))) => {
            assert_eq!(old.device.fd(), 3);
            assert_eq!(old.descriptor, vec![1]);
        }
        other => panic!("{other:?}"),
    }
    assert!(registry.with(first).is_none());
    let second = add(&mut registry, request(b"pad", vec![2]), None, 4);
    assert_ne!(first, second);
}

#[test]
fn devices_without_a_name_are_never_reused() {
    let mut registry = Registry::new();
    let a = add(&mut registry, request(b"", vec![1]), None, 3);
    let b = add(&mut registry, request(b"", vec![1]), None, 4);
    assert_ne!(a, b);
    assert_eq!(registry.ids().len(), 2);
}

#[test]
fn a_request_needs_a_descriptor() {
    let mut registry = Registry::new();
    let (_, plan) = plan_request(&mut registry, &request(b"pad", Vec::new()));
    let e = plan.unwrap_err();
    assert!(matches!(e, ScriptError::NeedsDescriptor));
    assert_eq!(e.message(), "uh.create needs a descriptor");
}

#[test]
fn names_are_read_as_text() {
    let mut registry = Registry::new();
    let (name, _) = plan_request(&mut registry, &request("p\u{e4}d".as_bytes(), vec![1]));
    assert_eq!(name, "p\u{e4}d");
    let (name, _) = plan_request(&mut registry, &request(&[0x70, 0xFF, 0x64], vec![1]));
    assert_eq!(name, "p\u{fffd}d");
}

#[test]
fn requests_have_defaults() {
    let p = request(b"pad", vec![1]).params();
    assert_eq!(p.bus, BUS_USB);
    assert_eq!((p.vendor, p.product, p.version, p.country), (0, 0, 0, 0));
    let mut req = request(b"pad", vec![1]);
    req.bus = Some(5);
    req.vendor = Some(1);
    req.product = Some(2);
    req.version = Some(3);
    req.country = Some(4);
    req.phys = vec![9];
    req.uniq = vec![8];
    let p = req.params();
    assert_eq!((p.bus, p.vendor, p.product), (5, 1, 2));
    assert_eq!((p.version, p.country), (3, 4));
    assert_eq!((p.phys, p.uniq), (vec![9], vec![8]));
}

#[test]
fn gamepads_are_built_from_what_is_asked_for() {
    let t = gamepad_table(None, Vec::new(), None).unwrap();
    let g = t.gamepad.unwrap();
    assert_eq!(t.kind, "gamepad");
    assert_eq!((g.buttons, g.hat), (16, false));
    assert_eq!(g.axes, vec!["x", "y"]);
    assert_eq!(
        t.descriptor,
        gamepad_descriptor(16, &[GamepadAxis::X, GamepadAxis::Y], false)
    );
    let t = gamepad_table(Some(2), vec!["RX".to_string()], Some(true)).unwrap();
    let g = t.gamepad.unwrap();
    assert_eq!((g.buttons, g.hat), (2, true));
    assert_eq!(g.axes, vec!["rx"]);
    assert_eq!(mouse_table().kind, "mouse");
    assert_eq!(mouse_table().descriptor.len(), 50);
}

#[test]
fn gamepads_are_refused_with_a_reason() {
    let names = vec!["x".to_string(), "Q".to_string(), "?".to_string()];
    let e = gamepad_table(Some(0), names, None).unwrap_err();
    assert_eq!(e.message(), "unknown gamepad axis: Q");
    let e = gamepad_table(Some(0), Vec::new(), None).unwrap_err();
    assert_eq!(e.message(), "gamepad needs 1..32 buttons");
    let e = gamepad_table(None, vec!["x".to_string(); 6], None).unwrap_err();
    assert_eq!(e.message(), "gamepad needs 1..5 axes");
}

#[test]
fn devices_get_the_layout_of_their_kind() {
    let none = Vec::new();
    assert!(device_layout(None, None, &none, None).unwrap().is_none());
    assert!(device_layout(Some("tablet"), None, &none, None).unwrap().is_none());
    assert!(matches!(
        device_layout(Some("keyboard"), Some(0), &none, None),
        Ok(Some(ReportLayout::Keyboard))
    ));
    assert!(matches!(
        device_layout(Some("mouse"), None, &none, None),
        Ok(Some(ReportLayout::Mouse))
    ));
    match device_layout(Some("gamepad"), None, &vec!["?".to_string()], None) {
        Ok(Some(ReportLayout::Gamepad { buttons, axes, hat })) => {
            assert_eq!(buttons, 16);
            assert_eq!(axes, vec![GamepadAxis::X, GamepadAxis::Y]);
            assert!(!hat);
        }
        other => panic!("{other:?}"),
    }
    assert!(matches!(
        device_layout(Some("gamepad"), Some(33), &none, None),
        Err(UhidError::ButtonCount)
    ));
}

#[test]
fn gamepad_input_is_packed() {
    let layout = Some(
        ReportLayout::gamepad(4, vec![GamepadAxis::X, GamepadAxis::Ry], true).unwrap(),
    );
    let mut input = silent();
    input.button_list = Some(vec![0, 1, 4, 5, 99]);
    input.x = Some(-1);
    input.ry = Some(2);
    input.hat = Some(8);
    assert_eq!(input_report(&layout, input).unwrap(), vec![0x09, 0xFF, 0xFF, 2, 0, 8]);
    let mut input = silent();
    input.held = vec![None, Some(true), Some(false)];
    assert_eq!(input_report(&layout, input).unwrap(), vec![0x02, 0, 0, 0, 0, 0]);
}

#[test]
fn keyboard_and_mouse_input_is_packed() {
    let mut input = silent();
    input.modifiers = Some(1);
    input.keys = Some(vec![4]);
    assert_eq!(
        input_report(&Some(ReportLayout::Keyboard), input).unwrap(),
        vec![1, 0, 4, 0, 0, 0, 0, 0]
    );
    assert_eq!(
        input_report(&Some(ReportLayout::Keyboard), silent()).unwrap(),
        vec![0; 8]
    );
    let mut input = silent();
    input.button_bits = Some(3);
    input.y = Some(-300);
    input.wheel = Some(1);
    assert_eq!(
        input_report(&Some(ReportLayout::Mouse), input).unwrap(),
        vec![3, 0, 129, 1]
    );
    assert_eq!(input_report(&None, silent()), Err(UhidError::NoLayout));
}

#[test]
fn devices_are_reached_by_their_id() {
    let mut registry = Registry::new();
    let id = add(&mut registry, request(b"kbd", vec![1]), Some(ReportLayout::Keyboard), 6);
    let bare = add(&mut registry, request(b"raw", vec![1]), None, 7);

    let t = device_input(&registry, id, silent()).ok().unwrap();
    assert_eq!(t.fd(), 6);
    assert_eq!(t.rest(), &encode_input2(&[0; 8]).unwrap()[..]);
    let t = device_input_raw(&registry, bare, &[5]).ok().unwrap();
    assert_eq!(t.fd(), 7);
    assert_eq!(get_u32(t.rest(), 0), UHID_INPUT2);
    let t = device_get_report_reply(&registry, id, 1, 2, &[3]).ok().unwrap();
    assert_eq!(get_u32(t.rest(), 4), 1);
    let t = device_set_report_reply(&registry, id, 8, 2).ok().unwrap();
    assert_eq!(get_u32(t.rest(), 4), 8);

    let e = device_input(&registry, bare, silent()).err().unwrap();
    assert_eq!(e.message(), "device has no report layout; use input_raw");
    let e = device_input_raw(&registry, id, &[0; 4097]).err().unwrap();
    assert_eq!(e.message(), "UHID input too large: 4097 > 4096");
    let e = device_input_raw(&registry, 99, &[]).err().unwrap();
    assert_eq!(e.message(), "unknown or destroyed uhid device");

    let (t, entry) = device_destroy(&mut registry, id).ok().unwrap();
    assert_eq!((t.fd(), entry.device.fd()), (6, 6));
    let e = device_destroy(&mut registry, id).err().unwrap();
    assert_eq!(e.message(), "uhid device already destroyed");
    assert!(device_set_report_reply(&registry, id, 0, 0).is_err());
    let next = add(&mut registry, request(b"kbd", vec![1]), None, 6);
    assert_ne!(next, id);
}

#[test]
fn events_are_queued_in_order() {
    let mut registry = Registry::new();
    let id = add(&mut registry, request(b"pad", vec![1]), None, 3);
    let mut buf = [0u8; UHID_EVENT_SIZE];
    put_u32(&mut buf, 0, UHID_OPEN);
    let read = UhidDevice::read_event(UHID_EVENT_SIZE as isize, false, &buf);
    assert!(registry.pump(id, read));
    assert!(registry.pump(id, ReadOutcome::Event(KernelEvent::Stop)));
    assert!(!registry.pump(id, UhidDevice::read_event(-1, true, &buf)));
    assert!(!registry.pump(id, UhidDevice::read_event(-1, false, &buf)));
    assert_eq!(
        registry.take_pending(),
        vec![(id, KernelEvent::Open), (id, KernelEvent::Stop)]
    );
    assert!(registry.take_pending().is_empty());
}

#[test]
fn a_transfer_goes_on_after_a_short_write() {
    let dev = UhidDevice::open(9).unwrap();
    let params = request(b"pad", vec![1]).params();
    let mut t = dev.create(&params).ok().unwrap();
    assert_eq!(get_u32(t.rest(), 0), UHID_CREATE2);
    assert_eq!(t.wrote(4), WriteStep::More);
    assert_eq!(t.rest().len(), UHID_EVENT_SIZE - 4);
    assert_eq!(&t.rest()[..3], b"pad");
    assert_eq!(t.wrote(0), WriteStep::Failed);
    assert_eq!(t.wrote(-1), WriteStep::Failed);
    assert_eq!(t.wrote((UHID_EVENT_SIZE - 4) as isize), WriteStep::Done);
}

#[test]
fn a_descriptor_is_released_once() {
    let mut dev = UhidDevice::open(9).unwrap();
    assert_eq!(dev.release(), Some(9));
    assert_eq!(dev.release(), None);
}

#[test]
fn events_become_tables() {
    assert_eq!(
        event_fields(&KernelEvent::Start { dev_flags: 4 }),
        vec![
            ("type", Field::Text("start")),
            ("dev_flags", Field::Number(4)),
        ]
    );
    assert_eq!(
        event_fields(&KernelEvent::SetReport {
            id: 1,
            rnum: 2,
            rtype: 3,
            data: vec![4],
        }),
        vec![
            ("type", Field::Text("set_report")),
            ("id", Field::Number(1)),
            ("rnum", Field::Number(2)),
            ("rtype", Field::Number(3)),
            ("data", Field::Bytes(vec![4])),
        ]
    );
    for (event, kind) in [
        (KernelEvent::Stop, "stop"),
        (KernelEvent::Open, "open"),
        (KernelEvent::Close, "close"),
        (KernelEvent::Output { rtype: 1, data: vec![] }, "output"),
        (KernelEvent::GetReport { id: 1, rnum: 2, rtype: 3 }, "get_report"),
        (KernelEvent::Unknown { ty: 77 }, "unknown"),
    ] {
        assert_eq!(event_fields(&event)[0], ("type", Field::Text(kind)));
    }
    assert_eq!(
        event_fields(&KernelEvent::Unknown { ty: 77 })[1],
        ("code", Field::Number(77))
    );
}

#[test]
fn scripts_see_the_constants() {
    let list = constants();
    assert_eq!(list.len(), 10);
    assert!(list.contains(&("BUS_VIRTUAL", 6)));
    assert!(list.contains(&("DATA_MAX", 4096)));
    assert!(list.contains(&("INPUT_REPORT", 2)));
}
