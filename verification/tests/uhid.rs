//! The wire format, the descriptors and the reports.

use keyforge::bytes::{get_u16, get_u32, get_u64, put_u16, put_u32, put_u64, UHID_EVENT_SIZE};
use keyforge::error::UhidError;
use keyforge::event::{
    encode_create2, encode_destroy, encode_get_report_reply, encode_input2,
    encode_set_report_reply, CreateParams, BUS_USB, OFF_CREATE_BUS, OFF_CREATE_NAME,
    OFF_CREATE_PHYS, OFF_CREATE_PRODUCT, OFF_CREATE_RD_DATA, OFF_CREATE_RD_SIZE, OFF_CREATE_UNIQ,
    OFF_CREATE_VENDOR, OFF_CREATE_VERSION, UHID_CLOSE, UHID_CREATE2, UHID_DATA_MAX, UHID_DESTROY,
    UHID_DEV_NUMBERED_INPUT_REPORTS, UHID_FEATURE_REPORT, UHID_GET_REPORT, UHID_GET_REPORT_REPLY,
    UHID_INPUT2, UHID_OPEN, UHID_OUTPUT, UHID_OUTPUT_REPORT, UHID_SET_REPORT,
    UHID_SET_REPORT_REPLY, UHID_START, UHID_STOP,
};
use keyforge::kernel::{parse_event, KernelEvent};
use keyforge::layout::{
    gamepad_descriptor, keyboard_descriptor, mouse_descriptor, GamepadAxis, ReportLayout,
};
use keyforge::report::{
    clamp, pack_gamepad, pack_keyboard, pack_mouse, GamepadState, KeyboardState, MouseState,
};
use keyforge::strmap::StrMap;

#[test]
fn event_size_matches_c_abi() {
    assert_eq!(UHID_EVENT_SIZE, 4376);
    assert_eq!(OFF_CREATE_RD_DATA + UHID_DATA_MAX, UHID_EVENT_SIZE);
}

#[test]
fn create2_encodes_c_struct_layout() {
    let params = CreateParams {
        name: b"KeyForge Pad".to_vec(),
        phys: b"keyforge/input0".to_vec(),
        uniq: Vec::new(),
        bus: BUS_USB,
        vendor: 0x045e,
        product: 0x02e0,
        version: 1,
        country: 0,
        descriptor: vec![0x05, 0x01, 0x09, 0x04],
    };
    let ev = encode_create2(&params).unwrap();
    assert_eq!(get_u32(&ev, 0), UHID_CREATE2);
    assert_eq!(&ev[OFF_CREATE_NAME..OFF_CREATE_NAME + 12], b"KeyForge Pad");
    assert_eq!(ev[OFF_CREATE_NAME + 12], 0);
    assert_eq!(
        &ev[OFF_CREATE_PHYS..OFF_CREATE_PHYS + 15],
        b"keyforge/input0"
    );
    assert_eq!(get_u16(&ev, OFF_CREATE_RD_SIZE), 4);
    assert_eq!(get_u16(&ev, OFF_CREATE_BUS), BUS_USB);
    assert_eq!(get_u32(&ev, OFF_CREATE_VENDOR), 0x045e);
    assert_eq!(get_u32(&ev, OFF_CREATE_PRODUCT), 0x02e0);
    assert_eq!(get_u32(&ev, OFF_CREATE_VERSION), 1);
    assert_eq!(
        &ev[OFF_CREATE_RD_DATA..OFF_CREATE_RD_DATA + 4],
        &[0x05, 0x01, 0x09, 0x04]
    );
    assert!(ev[OFF_CREATE_RD_DATA + 4..].iter().all(|&b| b == 0));
}

#[test]
fn create2_rejects_oversize_descriptors() {
    let params = CreateParams {
        name: Vec::new(),
        phys: Vec::new(),
        uniq: Vec::new(),
        bus: BUS_USB,
        vendor: 0,
        product: 0,
        version: 0,
        country: 0,
        descriptor: vec![0u8; UHID_DATA_MAX + 1],
    };
    assert!(encode_create2(&params).is_err());
    assert!(encode_input2(&[0u8; UHID_DATA_MAX + 1]).is_err());
}

#[test]
fn input2_and_replies_encode() {
    let ev = encode_input2(&[0x01, 0x02]).unwrap();
    assert_eq!(get_u32(&ev, 0), UHID_INPUT2);
    assert_eq!(get_u16(&ev, 4), 2);
    assert_eq!(&ev[6..8], &[0x01, 0x02]);

    let ev = encode_destroy();
    assert_eq!(get_u32(&ev, 0), UHID_DESTROY);

    let ev = encode_get_report_reply(7, 0, &[0xAA]).unwrap();
    assert_eq!(get_u32(&ev, 0), UHID_GET_REPORT_REPLY);
    assert_eq!(get_u32(&ev, 4), 7);
    assert_eq!(get_u16(&ev, 8), 0);
    assert_eq!(get_u16(&ev, 10), 1);
    assert_eq!(ev[12], 0xAA);

    let ev = encode_set_report_reply(9, 5);
    assert_eq!(get_u32(&ev, 0), UHID_SET_REPORT_REPLY);
    assert_eq!(get_u32(&ev, 4), 9);
    assert_eq!(get_u16(&ev, 8), 5);
}

#[test]
fn kernel_events_parse() {
    let mut start = [0u8; UHID_EVENT_SIZE];
    put_u32(&mut start, 0, UHID_START);
    put_u64(&mut start, 4, UHID_DEV_NUMBERED_INPUT_REPORTS);
    assert_eq!(
        parse_event(&start),
        Some(KernelEvent::Start {
            dev_flags: UHID_DEV_NUMBERED_INPUT_REPORTS
        })
    );

    let mut out = [0u8; UHID_EVENT_SIZE];
    put_u32(&mut out, 0, UHID_OUTPUT);
    out[4..7].copy_from_slice(&[0x10, 0x20, 0x30]);
    put_u16(&mut out, 4100, 3);
    out[4102] = UHID_OUTPUT_REPORT;
    assert_eq!(
        parse_event(&out),
        Some(KernelEvent::Output {
            rtype: UHID_OUTPUT_REPORT,
            data: vec![0x10, 0x20, 0x30]
        })
    );

    let mut get = [0u8; UHID_EVENT_SIZE];
    put_u32(&mut get, 0, UHID_GET_REPORT);
    put_u32(&mut get, 4, 42);
    get[8] = 2;
    get[9] = UHID_FEATURE_REPORT;
    assert_eq!(
        parse_event(&get),
        Some(KernelEvent::GetReport {
            id: 42,
            rnum: 2,
            rtype: UHID_FEATURE_REPORT
        })
    );
}

#[test]
fn boot_descriptors_have_canonical_shape() {
    let kbd = keyboard_descriptor();
    assert_eq!(kbd.len(), 63);
    assert_eq!(&kbd[..4], &[0x05, 0x01, 0x09, 0x06]);
    assert_eq!(kbd[kbd.len() - 1], 0xC0);
    assert!(kbd.windows(2).any(|w| w == [0x95, 0x06]));
    assert_eq!(pack_keyboard(&KeyboardState::default()).len(), 8);

    let mouse = mouse_descriptor();
    assert_eq!(mouse.len(), 50);
    assert_eq!(&mouse[..4], &[0x05, 0x01, 0x09, 0x02]);
    assert_eq!(mouse[mouse.len() - 1], 0xC0);
    assert_eq!(pack_mouse(&MouseState::default()), vec![0, 0, 0, 0]);
}

#[test]
fn gamepad_descriptor_and_packing_agree() {
    let axes = vec![
        GamepadAxis::X,
        GamepadAxis::Y,
        GamepadAxis::Rx,
        GamepadAxis::Ry,
    ];
    let rd = gamepad_descriptor(16, &axes, true);
    assert_eq!(&rd[..6], &[0x05, 0x01, 0x09, 0x04, 0xA1, 0x01]);
    assert_eq!(rd[rd.len() - 1], 0xC0);
    assert!(rd.windows(2).any(|w| w == [0x29, 16]));

    let layout = ReportLayout::gamepad(16, axes, true).expect("valid gamepad layout");
    assert_eq!(layout.report_len(), 2 + 8 + 1);
    let mut state_axes = StrMap::new();
    state_axes.insert("x".to_string(), 1000);
    state_axes.insert("y".to_string(), -1000);
    state_axes.insert("rx".to_string(), 32767);
    state_axes.insert("ry".to_string(), -32768);
    let state = GamepadState {
        buttons: {
            let mut b = vec![false; 16];
            b[0] = true;
            b[15] = true;
            b
        },
        axes: state_axes,
        hat: 3,
    };
    let report = pack_gamepad(&layout, &state).unwrap();
    assert_eq!(&report[..2], &[0x01, 0x80]);
    assert_eq!(&report[2..4], &1000i16.to_le_bytes());
    assert_eq!(&report[4..6], &(-1000i16).to_le_bytes());
    assert_eq!(&report[6..8], &32767i16.to_le_bytes());
    assert_eq!(&report[8..10], &(-32767i16).to_le_bytes());
    assert_eq!(report[10], 3);
}

#[test]
fn keyboard_and_mouse_pack_reports() {
    let kbd = pack_keyboard(&KeyboardState {
        modifiers: 0x02,
        keys: vec![0x04, 0x05],
    });
    assert_eq!(kbd, vec![0x02, 0x00, 0x04, 0x05, 0, 0, 0, 0]);

    let mouse = pack_mouse(&MouseState {
        buttons: 0x01,
        x: 10,
        y: -10,
        wheel: 130,
    });
    assert_eq!(mouse, vec![0x01, 10, 246, 127]);
}

#[test]
fn numbers_read_back_in_little_endian() {
    let mut ev = [0u8; UHID_EVENT_SIZE];
    put_u16(&mut ev, 10, 0x1234);
    put_u32(&mut ev, 20, 0x89AB_CDEF);
    put_u64(&mut ev, 30, 0x0102_0304_0506_0708);
    assert_eq!(&ev[10..12], &[0x34, 0x12]);
    assert_eq!(&ev[20..24], &[0xEF, 0xCD, 0xAB, 0x89]);
    assert_eq!(&ev[30..38], &[8, 7, 6, 5, 4, 3, 2, 1]);
    assert_eq!(get_u16(&ev, 10), 0x1234);
    assert_eq!(get_u32(&ev, 20), 0x89AB_CDEF);
    assert_eq!(get_u64(&ev, 30), 0x0102_0304_0506_0708);
}

#[test]
fn long_names_are_cut_and_terminated() {
    let params = CreateParams {
        name: vec![0x41; 300],
        phys: vec![0x42; 64],
        uniq: vec![0x43; 63],
        bus: BUS_USB,
        vendor: 0,
        product: 0,
        version: 0,
        country: 0,
        descriptor: vec![1],
    };
    let ev = encode_create2(&params).unwrap();
    assert!(ev[OFF_CREATE_NAME..OFF_CREATE_NAME + 127].iter().all(|&b| b == 0x41));
    assert_eq!(ev[OFF_CREATE_NAME + 127], 0);
    assert!(ev[OFF_CREATE_PHYS..OFF_CREATE_PHYS + 63].iter().all(|&b| b == 0x42));
    assert_eq!(ev[OFF_CREATE_PHYS + 63], 0);
    assert!(ev[OFF_CREATE_UNIQ..OFF_CREATE_UNIQ + 63].iter().all(|&b| b == 0x43));
    assert_eq!(ev[OFF_CREATE_UNIQ + 63], 0);
}

#[test]
fn the_largest_payloads_fit() {
    let full = vec![7u8; UHID_DATA_MAX];
    let params = CreateParams {
        name: Vec::new(),
        phys: Vec::new(),
        uniq: Vec::new(),
        bus: BUS_USB,
        vendor: 0,
        product: 0,
        version: 0,
        country: 0,
        descriptor: full.clone(),
    };
    assert_eq!(get_u16(&encode_create2(&params).unwrap(), OFF_CREATE_RD_SIZE), 4096);
    assert_eq!(get_u16(&encode_input2(&full).unwrap(), 4), 4096);
    assert_eq!(get_u16(&encode_get_report_reply(1, 2, &full).unwrap(), 10), 4096);
}

#[test]
fn errors_say_what_is_wrong() {
    let over = vec![0u8; UHID_DATA_MAX + 1];
    let params = CreateParams {
        name: Vec::new(),
        phys: Vec::new(),
        uniq: Vec::new(),
        bus: BUS_USB,
        vendor: 0,
        product: 0,
        version: 0,
        country: 0,
        descriptor: over.clone(),
    };
    let e = encode_create2(&params).unwrap_err();
    assert_eq!(e, UhidError::DescriptorTooLarge(4097));
    assert_eq!(e.message(), "HID report descriptor too large: 4097 > 4096");
    let e = encode_input2(&over).unwrap_err();
    assert_eq!(e, UhidError::InputTooLarge(4097));
    assert_eq!(e.message(), "UHID input too large: 4097 > 4096");
    let e = encode_get_report_reply(1, 0, &over).unwrap_err();
    assert_eq!(e, UhidError::ReplyTooLarge);
    assert_eq!(e.message(), "UHID report reply too large");
    let e = ReportLayout::gamepad(0, vec![GamepadAxis::X], false).unwrap_err();
    assert_eq!(e.message(), "gamepad needs 1..32 buttons");
    assert_eq!(
        ReportLayout::gamepad(33, vec![GamepadAxis::X], false).unwrap_err(),
        UhidError::ButtonCount
    );
    let e = ReportLayout::gamepad(1, Vec::new(), false).unwrap_err();
    assert_eq!(e.message(), "gamepad needs 1..5 axes");
    assert_eq!(
        ReportLayout::gamepad(1, vec![GamepadAxis::X; 6], false).unwrap_err(),
        UhidError::AxisCount
    );
    let e = pack_gamepad(&ReportLayout::Mouse, &GamepadState::default()).unwrap_err();
    assert_eq!(e.message(), "layout is not a gamepad");
    assert_eq!(
        UhidError::NoLayout.message(),
        "device has no report layout; use input_raw"
    );
}

#[test]
fn other_kernel_events_parse() {
    for (ty, event) in [
        (UHID_STOP, KernelEvent::Stop),
        (UHID_OPEN, KernelEvent::Open),
        (UHID_CLOSE, KernelEvent::Close),
        (99, KernelEvent::Unknown { ty: 99 }),
    ] {
        let mut ev = [0u8; UHID_EVENT_SIZE];
        put_u32(&mut ev, 0, ty);
        assert_eq!(parse_event(&ev), Some(event));
    }
    let mut set = [0u8; UHID_EVENT_SIZE];
    put_u32(&mut set, 0, UHID_SET_REPORT);
    put_u32(&mut set, 4, 5);
    set[8] = 1;
    set[9] = UHID_OUTPUT_REPORT;
    put_u16(&mut set, 10, 2);
    set[12] = 0xCA;
    set[13] = 0xFE;
    assert_eq!(
        parse_event(&set),
        Some(KernelEvent::SetReport {
            id: 5,
            rnum: 1,
            rtype: UHID_OUTPUT_REPORT,
            data: vec![0xCA, 0xFE]
        })
    );
}

#[test]
fn lengths_beyond_the_buffer_hold_no_event() {
    let mut out = [0u8; UHID_EVENT_SIZE];
    put_u32(&mut out, 0, UHID_OUTPUT);
    put_u16(&mut out, 4100, 0xFFFF);
    assert_eq!(parse_event(&out), None);
    put_u16(&mut out, 4100, 4372);
    match parse_event(&out) {
        Some(KernelEvent::Output { data, .. }) => assert_eq!(data.len(), 4372),
        other => panic!("{other:?}"),
    }
    let mut set = [0u8; UHID_EVENT_SIZE];
    put_u32(&mut set, 0, UHID_SET_REPORT);
    put_u16(&mut set, 10, 4365);
    assert_eq!(parse_event(&set), None);
    assert_eq!(parse_event(&out[..4102]), None);
}

#[test]
fn short_buffers_hold_no_event() {
    assert_eq!(parse_event(&[]), None);
    assert_eq!(parse_event(&[2, 0, 0]), None);
}

#[test]
fn gamepad_descriptor_declares_what_reports_hold() {
    let axes = [GamepadAxis::X, GamepadAxis::Y];
    let rd = gamepad_descriptor(4, &axes, false);
    assert!(rd.windows(2).any(|w| w == [0x95, 4]));
    assert!(rd.windows(2).any(|w| w == [0x09, 0x30]));
    assert!(rd.windows(2).any(|w| w == [0x09, 0x31]));
    let layout = ReportLayout::gamepad(4, axes.to_vec(), false).unwrap();
    assert_eq!(layout.report_len(), 5);
    assert_eq!(pack_gamepad(&layout, &GamepadState::default()).unwrap().len(), 5);
}

#[test]
fn more_buttons_than_declared_are_not_reported() {
    let layout = ReportLayout::gamepad(3, vec![GamepadAxis::Z], false).unwrap();
    let state = GamepadState {
        buttons: vec![true; 20],
        axes: StrMap::new(),
        hat: 0,
    };
    assert_eq!(pack_gamepad(&layout, &state).unwrap(), vec![0x07, 0, 0]);
}

#[test]
fn the_hat_takes_four_bits() {
    let layout = ReportLayout::gamepad(1, vec![GamepadAxis::X], true).unwrap();
    let state = GamepadState {
        buttons: Vec::new(),
        axes: StrMap::new(),
        hat: 0x1F,
    };
    assert_eq!(pack_gamepad(&layout, &state).unwrap(), vec![0, 0, 0, 0x0F]);
}

#[test]
fn a_seventh_key_is_not_reported() {
    let report = pack_keyboard(&KeyboardState {
        modifiers: 0,
        keys: vec![1, 2, 3, 4, 5, 6, 7],
    });
    assert_eq!(report, vec![0, 0, 1, 2, 3, 4, 5, 6]);
}

#[test]
fn axis_names_are_found_in_any_case() {
    assert_eq!(GamepadAxis::from_name("X"), Some(GamepadAxis::X));
    assert_eq!(GamepadAxis::from_name("y"), Some(GamepadAxis::Y));
    assert_eq!(GamepadAxis::from_name("Z"), Some(GamepadAxis::Z));
    assert_eq!(GamepadAxis::from_name("rX"), Some(GamepadAxis::Rx));
    assert_eq!(GamepadAxis::from_name("RY"), Some(GamepadAxis::Ry));
    assert_eq!(GamepadAxis::from_name("rz"), None);
    assert_eq!(GamepadAxis::from_name(""), None);
    assert_eq!(GamepadAxis::Rx.name(), "rx");
    assert_eq!(GamepadAxis::Ry.usage(), 0x34);
}

#[test]
fn clamp_keeps_to_its_bounds() {
    assert_eq!(clamp(-5, -3, 3), -3);
    assert_eq!(clamp(5, -3, 3), 3);
    assert_eq!(clamp(2, -3, 3), 2);
}
