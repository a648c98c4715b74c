//! The virtual mirror, and what scripts emit on it.

use keyforge::bytes::{get_u16, get_u32};
use keyforge::device::UhidDevice;
use keyforge::emit::{
    apply_emit, flush_emits, flush_pending_releases, process_button, process_stick,
    process_trigger, EmitEvent, Event, Release, Side, EV_ABS, EV_KEY, EV_SYN, LAST_TIME,
};
use keyforge::error::UhidError;
use keyforge::event::{BUS_USB, UHID_DESTROY, UHID_INPUT2};
use keyforge::layout::GamepadAxis;
use keyforge::mirror::{mirror_axes, mirror_layout, Mirror};
use keyforge::session::{next_turn, Session, Turn};
use keyforge::source::{
    connect_device, read_step, sort_events, stick_text, virtual_controller, Connect, InputStep,
    ReadStep, Sticks, Wake,
};

#[test]
fn mirror_layout_sorts_and_truncates_buttons() {
    let (descriptor, map) =
        mirror_layout(vec![307, 304, 305], mirror_axes(&[0, 1])).expect("mirror layout");
    assert_eq!(map.codes, vec![304, 305, 307]);
    assert_eq!(map.axes.len(), 2);
    assert!(!descriptor.is_empty());

    let many: Vec<u16> = (0..64).collect();
    let (_, map) = mirror_layout(many, mirror_axes(&[0])).expect("truncated layout");
    assert_eq!(map.codes.len(), 32);
}

#[test]
fn mirror_layout_rejects_empty_devices() {
    assert!(mirror_layout(Vec::new(), mirror_axes(&[0])).is_err());
    assert!(mirror_layout(vec![304], Vec::new()).is_err());
}

#[test]
fn mirror_state_packs_button_and_axis_updates() {
    let (_, map) =
        mirror_layout(vec![304, 305], mirror_axes(&[0, 1, 3, 4])).expect("mirror layout");
    let mut state = map.blank_state();
    assert_eq!(state.buttons, vec![false, false]);

    assert!(map.apply_key(&mut state, 305, true));
    assert!(!map.apply_key(&mut state, 305, true));
    assert!(!map.apply_key(&mut state, 999, true));
    assert!(map.apply_abs(&mut state, 0, 1000));
    assert!(map.apply_abs(&mut state, 4, -2000));
    assert!(!map.apply_abs(&mut state, 0x10, 5));

    let report = map.pack(&state).expect("pack mirror state");
    // Button index 1 -> second bit; X=1000 LE; RY=-2000 LE.
    assert_eq!(&report[1..3], &1000i16.to_le_bytes());
    assert_eq!(&report[3..5], &[0, 0]);
    assert_eq!(&report[5..7], &[0, 0]);
    assert_eq!(&report[7..9], &(-2000i16).to_le_bytes());
}

#[test]
fn axes_are_mirrored_in_increasing_order() {
    let axes = mirror_axes(&[5, 4, 0, 0x10, 2]);
    let codes: Vec<u32> = axes.iter().map(|a| a.0).collect();
    let mut sorted = codes.clone();
    sorted.sort();
    assert_eq!(codes, sorted);
    assert!(axes.contains(&(0, GamepadAxis::X)));
    assert!(axes.contains(&(4, GamepadAxis::Ry)));
    assert!(!codes.contains(&0x10));
}

fn pad() -> Mirror {
    let (mirror, _) = virtual_controller(0x054c, vec![305, 304], &[0, 1, 2, 3, 4]).unwrap();
    mirror
}

/// The report that the mirror would send now.
fn due(mirror: &Mirror) -> Option<Vec<u8>> {
    mirror.flush(&UhidDevice::open(3).unwrap()).map(|t| {
        assert_eq!(t.fd(), 3);
        assert_eq!(get_u32(t.rest(), 0), UHID_INPUT2);
        let n = get_u16(t.rest(), 4) as usize;
        t.rest()[6..6 + n].to_vec()
    })
}

#[test]
fn the_virtual_controller_says_what_it_is() {
    let (mirror, params) = virtual_controller(0x054c, vec![305, 304], &[1, 0]).unwrap();
    assert_eq!(params.name, b"KeyForge Virtual Controller".to_vec());
    assert_eq!(params.phys, b"keyforge/input0".to_vec());
    assert!(params.uniq.is_empty());
    assert_eq!(params.bus, BUS_USB);
    assert_eq!((params.vendor, params.product), (0x054c, 0x02d1));
    assert_eq!((params.version, params.country), (1, 0));
    assert_eq!(due(&mirror), None);
    let t = mirror.destroy(&UhidDevice::open(3).unwrap());
    assert_eq!(get_u32(t.rest(), 0), UHID_DESTROY);
    assert_eq!(
        virtual_controller(1, Vec::new(), &[0]).err(),
        Some(UhidError::ButtonCount)
    );
    assert_eq!(
        virtual_controller(1, vec![1], &[0x10]).err(),
        Some(UhidError::AxisCount)
    );
}

#[test]
fn a_report_is_due_after_a_change_until_it_is_sent() {
    let mut m = pad();
    m.key(304, false);
    m.abs(0, 0);
    m.key(999, true);
    assert_eq!(due(&m), None);
    m.key(304, true);
    assert_eq!(due(&m).unwrap()[0], 0x01);
    m.flushed(false);
    assert!(due(&m).is_some());
    m.flushed(true);
    assert_eq!(due(&m), None);
    m.abs(0, 40000);
    assert_eq!(&due(&m).unwrap()[1..3], &32767i16.to_le_bytes());
}

#[test]
fn pressing_twice_and_releasing_is_releasing() {
    let mut m = pad();
    m.key(305, true);
    m.key(305, true);
    assert_eq!(due(&m).unwrap()[0], 0x02);
    m.key(304, true);
    m.key(305, false);
    assert_eq!(due(&m).unwrap()[0], 0x01);
}

fn key(code: u16, value: i32, hold_ms: Option<u64>) -> EmitEvent {
    EmitEvent {
        ev_type: EV_KEY as u16,
        code,
        value,
        hold_ms,
    }
}

#[test]
fn emitted_events_reach_the_mirror() {
    let mut m = pad();
    apply_emit(&mut m, &key(304, 2, None));
    assert_eq!(due(&m).unwrap()[0], 0x01);
    apply_emit(
        &mut m,
        &EmitEvent {
            ev_type: EV_ABS as u16,
            code: 1,
            value: -5,
            hold_ms: None,
        },
    );
    assert_eq!(&due(&m).unwrap()[3..5], &(-5i16).to_le_bytes());
    let before = due(&m);
    apply_emit(
        &mut m,
        &EmitEvent {
            ev_type: EV_SYN as u16,
            code: 0,
            value: 1,
            hold_ms: Some(1),
        },
    );
    assert_eq!(due(&m), before);
}

#[test]
fn only_presses_are_held() {
    let mut m = pad();
    let mut pending = Vec::new();
    let emits = [
        key(304, 1, Some(20)),
        key(305, 2, Some(20)),
        key(305, 0, Some(20)),
        key(304, 1, None),
        EmitEvent {
            ev_type: EV_ABS as u16,
            code: 0,
            value: 1,
            hold_ms: Some(20),
        },
        key(305, 1, Some(u64::MAX)),
    ];
    flush_emits(&mut m, &mut pending, &emits, &[LAST_TIME, 0, 0, 0, 0, 7]);
    assert_eq!(
        pending,
        vec![
            Release {
                at: LAST_TIME + 20_000_000,
                code: 304
            },
            Release {
                at: 7 + u64::MAX as u128 * 1_000_000,
                code: 305
            },
        ]
    );
}

#[test]
fn each_hold_counts_from_its_own_time() {
    let mut m = pad();
    let mut pending = Vec::new();
    let emits = [key(304, 1, Some(1)), key(304, 0, None), key(305, 1, Some(1))];
    flush_emits(&mut m, &mut pending, &emits, &[10, 20, 30]);
    assert_eq!(
        pending,
        vec![
            Release {
                at: 1_000_010,
                code: 304
            },
            Release {
                at: 1_000_030,
                code: 305
            },
        ]
    );
    assert_eq!(due(&m).unwrap()[0], 0x02);
}

#[test]
fn holds_end_in_time() {
    let mut m = pad();
    let mut pending = Vec::new();
    flush_emits(&mut m, &mut pending, &[key(304, 1, Some(20))], &[5]);
    flush_emits(&mut m, &mut pending, &[key(305, 1, Some(30))], &[5]);
    m.flushed(true);
    assert!(flush_pending_releases(&mut pending, &mut m, 20_000_004));
    assert_eq!(due(&m), None);
    assert_eq!(pending.len(), 2);
    assert!(flush_pending_releases(&mut pending, &mut m, 20_000_005));
    assert_eq!(due(&m).unwrap()[0], 0x02);
    assert_eq!(pending, vec![Release { at: 30_000_005, code: 305 }]);
    assert!(flush_pending_releases(&mut pending, &mut m, LAST_TIME));
    assert_eq!(due(&m).unwrap()[0], 0x00);
    assert!(pending.is_empty());
    assert!(!flush_pending_releases(&mut pending, &mut m, LAST_TIME));
}

#[test]
fn triggers_come_after_what_scripts_emit() {
    let (mut m, _) = virtual_controller(1, vec![304], &[0, 2]).unwrap();
    let mut pending = Vec::new();
    let emit = EmitEvent {
        ev_type: EV_ABS as u16,
        code: 2,
        value: 7,
        hold_ms: None,
    };
    process_trigger(9, Side::Left, &[emit], &[0], false, &mut pending, &mut m);
    assert_eq!(&due(&m).unwrap()[3..5], &9i16.to_le_bytes());
    process_trigger(11, Side::Left, &[emit], &[0], true, &mut pending, &mut m);
    assert_eq!(&due(&m).unwrap()[3..5], &7i16.to_le_bytes());
}

#[test]
fn sticks_come_before_what_scripts_emit() {
    let mut m = pad();
    let mut pending = Vec::new();
    let emit = EmitEvent {
        ev_type: EV_ABS as u16,
        code: 0,
        value: 7,
        hold_ms: None,
    };
    process_stick(Side::Left, 1, 2, &[emit], &[0], false, &mut pending, &mut m);
    let report = due(&m).unwrap();
    assert_eq!(&report[1..3], &7i16.to_le_bytes());
    assert_eq!(&report[3..5], &2i16.to_le_bytes());
    process_stick(Side::Right, 5, 6, &[], &[], false, &mut pending, &mut m);
    process_stick(Side::Right, 8, 9, &[], &[], true, &mut pending, &mut m);
    let report = due(&m).unwrap();
    assert!(report.windows(4).any(|w| w == [5, 0, 6, 0]));
}

#[test]
fn buttons_come_after_what_scripts_emit() {
    let mut m = pad();
    let mut pending = Vec::new();
    process_button(304, false, &[key(304, 1, None)], &[0], false, &mut pending, &mut m);
    assert_eq!(due(&m).unwrap()[0], 0x00);
    process_button(304, true, &[key(305, 1, None)], &[0], true, &mut pending, &mut m);
    assert_eq!(due(&m).unwrap()[0], 0x02);
}

#[test]
fn sticks_are_shown_with_the_report() {
    let mut s = Sticks::new();
    assert_eq!(s.take(3, 0, 10), InputStep::Nothing);
    assert_eq!(s.take(3, 1, 20), InputStep::Nothing);
    assert_eq!(s.take(3, 0, 11), InputStep::Nothing);
    assert_eq!(s.take(0, 1, 0), InputStep::Nothing);
    assert_eq!(
        s.take(0, 0, 0),
        InputStep::Sync {
            left: Some(Event::Stick {
                x: 11,
                y: 20,
                side: Side::Left
            }),
            right: None
        }
    );
    assert_eq!(
        s.take(0, 0, 0),
        InputStep::Sync {
            left: None,
            right: None
        }
    );
    assert_eq!(s.take(3, 4, -1), InputStep::Nothing);
    assert_eq!(
        s.take(0, 0, 0),
        InputStep::Sync {
            left: None,
            right: Some(Event::Stick {
                x: 0,
                y: -1,
                side: Side::Right
            })
        }
    );
    assert_eq!(
        s.take(3, 2, 5),
        InputStep::Run(Event::Trigger {
            value: 5,
            side: Side::Left
        })
    );
    assert_eq!(
        s.take(3, 5, 6),
        InputStep::Run(Event::Trigger {
            value: 6,
            side: Side::Right
        })
    );
    assert_eq!(
        s.take(1, 304, 2),
        InputStep::Run(Event::Button {
            code: 304,
            pressed: true
        })
    );
    assert_eq!(s.take(4, 4, 1), InputStep::Nothing);
}

#[test]
fn stick_positions_are_told_in_decimal() {
    assert_eq!(stick_text(0, -7), "0 -7");
    assert_eq!(stick_text(i32::MIN, i32::MAX), "-2147483648 2147483647");
}

#[test]
fn a_short_read_ends_the_reading() {
    assert_eq!(read_step(24, 24, true, false, false), ReadStep::Event);
    assert_eq!(read_step(0, 24, false, false, true), ReadStep::Gone);
    assert_eq!(read_step(-1, 24, false, true, true), ReadStep::Wait);
    assert_eq!(read_step(-1, 24, false, true, false), ReadStep::Gone);
    assert_eq!(read_step(-1, 24, false, false, true), ReadStep::Gone);
    assert_eq!(read_step(-1, 24, true, true, true), ReadStep::Gone);
    assert_eq!(read_step(8, 24, false, false, false), ReadStep::Wait);
}

#[test]
fn poll_events_are_told_apart() {
    assert_eq!(
        sort_events(&[(1, 4), (1, 0)], Some(4), 7),
        Wake {
            changed: true,
            ready: false,
            hup: false
        }
    );
    assert_eq!(
        sort_events(&[(1, 7), (0x10, 4)], Some(4), 7),
        Wake {
            changed: true,
            ready: true,
            hup: false
        }
    );
    assert_eq!(
        sort_events(&[(0x8, 7)], None, 7),
        Wake {
            changed: false,
            ready: true,
            hup: true
        }
    );
}

#[test]
fn connecting_goes_step_by_step() {
    let (step, give_up) = connect_device(Connect::Find, false, true);
    assert_eq!((step, give_up), (Connect::Pause, false));
    assert_eq!(connect_device(step, true, true), (Connect::Find, false));
    assert_eq!(connect_device(Connect::Find, true, true), (Connect::Settle, false));
    assert_eq!(connect_device(Connect::Settle, true, true), (Connect::Create, false));
    assert_eq!(connect_device(Connect::Settle, true, false), (Connect::Create, false));
    assert_eq!(connect_device(Connect::Create, false, true), (Connect::Pause, true));
    assert_eq!(connect_device(Connect::Create, true, false), (Connect::Done, false));
    assert_eq!(connect_device(Connect::Create, true, true), (Connect::Hide, false));
    assert_eq!(connect_device(Connect::Hide, false, true), (Connect::Pause, true));
    assert_eq!(connect_device(Connect::Hide, true, true), (Connect::Done, false));
    assert_eq!(connect_device(Connect::Done, true, true), (Connect::Done, false));
}

#[test]
fn a_session_holds_keys_only_while_connected() {
    let dev = UhidDevice::open(3).unwrap();
    let mut s = Session::new();
    let press = key(304, 1, Some(10));
    let up = Event::Button {
        code: 305,
        pressed: false,
    };
    assert!(!s.connected());
    s.deliver(up, &[press], &[0], false);
    assert_eq!(s.timeout(), 500);
    assert!(!s.release(LAST_TIME));
    assert!(s.flush(&dev).is_none());

    s.connect(pad());
    s.deliver(up, &[press], &[0], true);
    assert_eq!(s.timeout(), 50);
    assert_eq!(s.flush(&dev).unwrap().rest()[6], 0x01);
    s.flushed(true);
    assert!(s.flush(&dev).is_none());
    assert!(s.release(9_999_999));
    assert!(s.flush(&dev).is_none());
    assert!(s.release(10_000_000));
    assert_eq!(s.flush(&dev).unwrap().rest()[6], 0x00);
    assert_eq!(s.timeout(), 500);

    s.deliver(up, &[press], &[0], false);
    assert!(s.disconnect().is_some());
    assert!(!s.connected());
    assert_eq!(s.timeout(), 500);
    assert!(s.disconnect().is_none());
}

#[test]
fn a_session_takes_what_the_controller_sends() {
    let dev = UhidDevice::open(3).unwrap();
    let mut s = Session::new();
    s.connect(pad());
    assert_eq!(s.take(3, 0, 12), InputStep::Nothing);
    assert_eq!(s.stick_positions().lx, 12);
    match s.take(0, 0, 0) {
        InputStep::Sync {
            left: Some(event),
            right: None,
        } => s.deliver(event, &[], &[], false),
        other => panic!("{other:?}"),
    }
    assert_eq!(&s.flush(&dev).unwrap().rest()[7..9], &12i16.to_le_bytes());
    match s.take(1, 305, 1) {
        InputStep::Run(event) => s.deliver(event, &[], &[], false),
        other => panic!("{other:?}"),
    }
    assert_eq!(s.flush(&dev).unwrap().rest()[6], 0x02);
}

#[test]
fn a_round_goes_turn_by_turn() {
    assert_eq!(next_turn(Turn::Connect, true, true, false), Turn::Serve);
    assert_eq!(next_turn(Turn::Serve, true, true, false), Turn::Wait);
    assert_eq!(next_turn(Turn::Wait, true, true, false), Turn::Begin);
    assert_eq!(next_turn(Turn::Wait, true, true, true), Turn::Read);
    assert_eq!(next_turn(Turn::Read, true, false, true), Turn::Begin);
    assert_eq!(next_turn(Turn::Begin, true, false, false), Turn::Check);
    assert_eq!(next_turn(Turn::Begin, false, false, false), Turn::Connect);
    assert_eq!(next_turn(Turn::Begin, false, true, false), Turn::Serve);
    assert_eq!(next_turn(Turn::Check, false, false, false), Turn::Connect);
    assert_eq!(next_turn(Turn::Check, false, true, false), Turn::Serve);
}
