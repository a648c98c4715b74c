//! The physical controller: its events, and how it is found.

use vstd::prelude::*;

use crate::emit::{Event, Side, EV_ABS, EV_KEY, EV_SYN, SYN_REPORT};
use crate::error::UhidError;
use crate::event::CreateParams;
use crate::layout;
use crate::mirror;
use crate::mirror::{mirror_axes, Mirror, ABS_RX, ABS_RY, ABS_RZ, ABS_X, ABS_Y, ABS_Z};
use crate::text;
use crate::text::push_signed;

verus! {

/// The bit of a poll event that says that the other end is gone.
pub const EPOLLHUP: u32 = 0x10;

/// The bit of a poll event that says that there was an error.
pub const EPOLLERR: u32 = 0x08;

/// The product id of the virtual controller.
pub const VIRTUAL_PRODUCT: u16 = 0x02d1;

/// Where the sticks stand, and which of them moved since the last report.
#[derive(Debug, Clone, Copy, PartialEq, Eq, Structural)]
pub struct Sticks {
    pub lx: i32,
    pub ly: i32,
    pub rx: i32,
    pub ry: i32,
    pub ld: bool,
    pub rd: bool,
}

/// What an input event calls for.
#[derive(Debug, Clone, Copy, PartialEq, Eq, Structural)]
pub enum InputStep {
    /// Nothing.
    Nothing,
    /// The scripts are to see this event.
    Run(Event),
    /// The report is complete: the scripts are to see the sticks that moved,
    /// the left one first.
    Sync { left: Option<Event>, right: Option<Event> },
}

/// The sticks after an axis event.
pub open spec fn moved(s: Sticks, code: u32, value: i32) -> Sticks {
    if code == ABS_X {
        Sticks { lx: value, ld: true, ..s }
    } else if code == ABS_Y {
        Sticks { ly: value, ld: true, ..s }
    } else if code == ABS_RX {
        Sticks { rx: value, rd: true, ..s }
    } else if code == ABS_RY {
        Sticks { ry: value, rd: true, ..s }
    } else {
        s
    }
}

/// The sticks after an input event.
pub open spec fn after_input(s: Sticks, kind: u16, code: u16, value: i32) -> Sticks {
    if kind == EV_ABS {
        moved(s, code as u32, value)
    } else if kind == EV_SYN && code == SYN_REPORT {
        Sticks { ld: false, rd: false, ..s }
    } else {
        s
    }
}

/// What an input event calls for.
pub open spec fn input_step(s: Sticks, kind: u16, code: u16, value: i32) -> InputStep {
    if kind == EV_ABS && code == ABS_Z {
        InputStep::Run(Event::Trigger { value, side: Side::Left })
    } else if kind == EV_ABS && code == ABS_RZ {
        InputStep::Run(Event::Trigger { value, side: Side::Right })
    } else if kind == EV_KEY {
        InputStep::Run(Event::Button { code, pressed: value != 0 })
    } else if kind == EV_SYN && code == SYN_REPORT {
        InputStep::Sync {
            left: if s.ld {
                Some(Event::Stick { x: s.lx, y: s.ly, side: Side::Left })
            } else {
                None
            },
            right: if s.rd {
                Some(Event::Stick { x: s.rx, y: s.ry, side: Side::Right })
            } else {
                None
            },
        }
    } else {
        InputStep::Nothing
    }
}

impl Sticks {
    /// Sticks at rest.
    pub fn new() -> (s: Sticks)
        ensures
            s == (Sticks { lx: 0, ly: 0, rx: 0, ry: 0, ld: false, rd: false }),
    {
        Sticks { lx: 0, ly: 0, rx: 0, ry: 0, ld: false, rd: false }
    }

    /// Takes an input event of the controller.
    pub fn take(&mut self, kind: u16, code: u16, value: i32) -> (step: InputStep)
        ensures
            *final(self) == after_input(*old(self), kind, code, value),
            step == input_step(*old(self), kind, code, value),
    {
        let ev = kind as i32;
        let axis = code as u32;
        if ev == EV_ABS {
            if axis == ABS_X {
                self.lx = value;
                self.ld = true;
            } else if axis == ABS_Y {
                self.ly = value;
                self.ld = true;
            } else if axis == ABS_RX {
                self.rx = value;
                self.rd = true;
            } else if axis == ABS_RY {
                self.ry = value;
                self.rd = true;
            } else if axis == ABS_Z {
                return InputStep::Run(Event::Trigger { value, side: Side::Left });
            } else if axis == ABS_RZ {
                return InputStep::Run(Event::Trigger { value, side: Side::Right });
            }
            InputStep::Nothing
        } else if ev == EV_KEY {
            InputStep::Run(Event::Button { code, pressed: value != 0 })
        } else if ev == EV_SYN && axis == SYN_REPORT {
            let left = if self.ld {
                Some(Event::Stick { x: self.lx, y: self.ly, side: Side::Left })
            } else {
                None
            };
            let right = if self.rd {
                Some(Event::Stick { x: self.rx, y: self.ry, side: Side::Right })
            } else {
                None
            };
            self.ld = false;
            self.rd = false;
            InputStep::Sync { left, right }
        } else {
            InputStep::Nothing
        }
    }
}

/// A stick is shown to the scripts once for each report in which it moved:
/// directly after one report the next shows neither stick.
pub proof fn law_sticks_shown_once(s: Sticks, kind: u16, code: u16, value: i32)
    requires
        input_step(s, kind, code, value) is Sync,
    ensures
        input_step(after_input(s, kind, code, value), kind, code, value) == (InputStep::Sync {
            left: None,
            right: None,
        }),
{
}

/// The last position before a report is the one that is shown.
pub proof fn law_last_move_is_shown(s: Sticks, x: i32, y: i32)
    ensures
        ({
            let left = after_input(
                after_input(s, EV_ABS as u16, ABS_X as u16, x),
                EV_ABS as u16,
                ABS_Y as u16,
                y,
            );
            let right = after_input(
                after_input(s, EV_ABS as u16, ABS_RX as u16, x),
                EV_ABS as u16,
                ABS_RY as u16,
                y,
            );
            &&& input_step(left, EV_SYN as u16, SYN_REPORT as u16, 0) matches InputStep::Sync {
                left: Some(e),
                ..
            } && e == (Event::Stick { x, y, side: Side::Left })
            &&& input_step(right, EV_SYN as u16, SYN_REPORT as u16, 0) matches InputStep::Sync {
                right: Some(e),
                ..
            } && e == (Event::Stick { x, y, side: Side::Right })
        }),
{
}

/// The text that tells where a stick stands.
pub fn stick_text(x: i32, y: i32) -> (s: String)
    ensures
        s@ == text::signed_decimal(x as int) + seq![' '] + text::signed_decimal(y as int),
{
    let mut s = String::new();
    push_signed(&mut s, x);
    s.push(' ');
    push_signed(&mut s, y);
    assert(s@ =~= text::signed_decimal(x as int) + seq![' '] + text::signed_decimal(y as int));
    s
}

/// What reading the controller came to.
#[derive(Debug, Clone, Copy, PartialEq, Eq, Structural)]
pub enum ReadStep {
    /// A whole event was read.
    Event,
    /// There is nothing to read for now.
    Wait,
    /// The controller is gone.
    Gone,
}

/// What reading the controller came to.
pub open spec fn read_result(
    n: int,
    size: int,
    hup: bool,
    would_block: bool,
    alive: bool,
) -> ReadStep {
    if n == size {
        ReadStep::Event
    } else if n == 0 || hup || (n < 0 && (!would_block || !alive)) {
        ReadStep::Gone
    } else {
        ReadStep::Wait
    }
}

/// A controller is taken for gone exactly where no whole event came and one of
/// these holds: the end was reached, it hung up, reading failed for another
/// reason than that it would block, or it is not alive while nothing comes.
pub proof fn law_gone_controllers(
    n: int,
    size: int,
    hup: bool,
    would_block: bool,
    alive: bool,
)
    requires
        size > 0,
    ensures
        read_result(n, size, hup, would_block, alive) == ReadStep::Event <==> n == size,
        n == 0 ==> read_result(n, size, hup, would_block, alive) == ReadStep::Gone,
        hup && n != size ==> read_result(n, size, hup, would_block, alive) == ReadStep::Gone,
        n < 0 && !would_block ==> read_result(n, size, hup, would_block, alive) == ReadStep::Gone,
        n < 0 && !alive ==> read_result(n, size, hup, would_block, alive) == ReadStep::Gone,
        n < 0 && would_block && alive && !hup ==> read_result(n, size, hup, would_block, alive)
            == ReadStep::Wait,
        0 < n && n != size && !hup ==> read_result(n, size, hup, would_block, alive)
            == ReadStep::Wait,
{
}

/// Tells what reading the controller came to: `n` of `size` bytes were read,
/// or a negative number stands for an error, which `would_block` tells from
/// others. `hup` and `alive` say how the controller looks otherwise.
pub fn read_step(n: isize, size: isize, hup: bool, would_block: bool, alive: bool) -> (r: ReadStep)
    ensures
        r == read_result(n as int, size as int, hup, would_block, alive),
{
    if n == size {
        return ReadStep::Event;
    }
    if n == 0 || hup || (n < 0 && !would_block) || (n < 0 && !alive) {
        ReadStep::Gone
    } else {
        ReadStep::Wait
    }
}

/// What a wait for events came to.
#[derive(Debug, Clone, Copy, PartialEq, Eq, Structural)]
pub struct Wake {
    /// The input directory changed.
    pub changed: bool,
    /// The controller can be read.
    pub ready: bool,
    /// The controller hung up or failed.
    pub hup: bool,
}

/// Whether an event tells of the controller.
pub open spec fn of_device(ev: (u32, u64), watch: Option<u64>, device: u64) -> bool {
    watch != Some(ev.1) && ev.1 == device
}

/// Sorts poll events, each with its bits and the number that it was
/// registered under: `watch` for the input directory, `device` for the
/// controller.
pub fn sort_events(events: &[(u32, u64)], watch: Option<u64>, device: u64) -> (w: Wake)
    ensures
        w.changed == exists|i: int|
            0 <= i < events@.len() && watch == Some((#[trigger] events@[i]).1),
        w.ready == exists|i: int|
            0 <= i < events@.len() && of_device(#[trigger] events@[i], watch, device),
        w.hup == exists|i: int|
            0 <= i < events@.len() && of_device(#[trigger] events@[i], watch, device)
                && events@[i].0 & (EPOLLHUP | EPOLLERR) != 0,
{
    let mut w = Wake { changed: false, ready: false, hup: false };
    let mut i: usize = 0;
    while i < events.len()
        invariant
            i <= events@.len(),
            w.changed == exists|j: int|
                0 <= j < i && watch == Some((#[trigger] events@[j]).1),
            w.ready == exists|j: int|
                0 <= j < i && of_device(#[trigger] events@[j], watch, device),
            w.hup == exists|j: int|
                0 <= j < i && of_device(#[trigger] events@[j], watch, device) && events@[j].0 & (
                EPOLLHUP | EPOLLERR) != 0,
        decreases events@.len() - i,
    {
        let (bits, tag) = events[i];
        let watched = match watch {
            Some(t) => tag == t,
            None => false,
        };
        assert(watched == (watch == Some(events@[i as int].1)));
        if watched {
            w.changed = true;
        } else if tag == device {
            assert(of_device(events@[i as int], watch, device));
            w.ready = true;
            if bits & (EPOLLHUP | EPOLLERR) != 0 {
                w.hup = true;
            }
        }
        i += 1;
    }
    w
}

/// What is to be done next to connect to the controller.
#[derive(Debug, Clone, Copy, PartialEq, Eq, Structural)]
pub enum Connect {
    /// Look for the controller and open it.
    Find,
    /// Wait a second before the controller is used.
    Settle,
    /// Read what the controller has and create its mirror.
    Create,
    /// Hide the controller from other readers.
    Hide,
    /// Wait a second before the next attempt.
    Pause,
    /// The controller is connected.
    Done,
}

/// What follows a step of connecting that went well or did not, and whether
/// the controller is to be given up first, with its mirror if it has one.
pub open spec fn connect_after(step: Connect, ok: bool, hide: bool) -> (Connect, bool) {
    match step {
        Connect::Find => (if ok {
            Connect::Settle
        } else {
            Connect::Pause
        }, false),
        Connect::Settle => (Connect::Create, false),
        Connect::Create => (if !ok {
            Connect::Pause
        } else if hide {
            Connect::Hide
        } else {
            Connect::Done
        }, !ok),
        Connect::Hide => (if ok {
            Connect::Done
        } else {
            Connect::Pause
        }, !ok),
        Connect::Pause => (Connect::Find, false),
        Connect::Done => (Connect::Done, false),
    }
}

/// Decides what follows a step of connecting: the controller is found, gets
/// its mirror, and only then is hidden.
pub fn connect_device(step: Connect, ok: bool, hide: bool) -> (r: (Connect, bool))
    ensures
        r == connect_after(step, ok, hide),
{
    match step {
        Connect::Find => {
            if ok {
                (Connect::Settle, false)
            } else {
                (Connect::Pause, false)
            }
        },
        Connect::Settle => (Connect::Create, false),
        Connect::Create => {
            if !ok {
                (Connect::Pause, true)
            } else if hide {
                (Connect::Hide, false)
            } else {
                (Connect::Done, false)
            }
        },
        Connect::Hide => {
            if ok {
                (Connect::Done, false)
            } else {
                (Connect::Pause, true)
            }
        },
        Connect::Pause => (Connect::Find, false),
        Connect::Done => (Connect::Done, false),
    }
}

/// The step that connecting comes to after the given outcomes, from the start.
pub open spec fn connect_run(outcomes: Seq<bool>, hide: bool) -> Connect
    decreases outcomes.len(),
{
    if outcomes.len() == 0 {
        Connect::Find
    } else {
        connect_after(connect_run(outcomes.drop_last(), hide), outcomes.last(), hide).0
    }
}

/// Whether the last steps before `Done` were those of a connection: the
/// controller was found, settled, got its mirror and, if that was asked for,
/// was hidden after it.
pub open spec fn connected_in_order(outcomes: Seq<bool>, hide: bool) -> bool {
    let n = outcomes.len() as int;
    let create = if hide {
        n - 2
    } else {
        n - 1
    };
    &&& create >= 2
    &&& connect_run(outcomes.take(create - 2), hide) == Connect::Find && outcomes[create - 2]
    &&& connect_run(outcomes.take(create - 1), hide) == Connect::Settle
    &&& connect_run(outcomes.take(create), hide) == Connect::Create && outcomes[create]
    &&& hide ==> connect_run(outcomes.take(create + 1), hide) == Connect::Hide && outcomes[create
        + 1]
}

/// Connecting is done only after the controller was found, had settled, got
/// its mirror and then, if that was asked for, was hidden, all in one attempt.
pub proof fn law_connected_in_order(outcomes: Seq<bool>, hide: bool)
    requires
        connect_run(outcomes, hide) == Connect::Done,
        outcomes.len() > 0 ==> connect_run(outcomes.drop_last(), hide) != Connect::Done,
    ensures
        connected_in_order(outcomes, hide),
{
    let n = outcomes.len() as int;
    let a = outcomes.drop_last();
    assert(a =~= outcomes.take(n - 1));
    if !hide {
        lemma_shown_is_not_hidden(a);
    }
    let b = a.drop_last();
    assert(b =~= outcomes.take(n - 2));
    let c = b.drop_last();
    assert(c =~= outcomes.take(n - 3));
    if hide {
        assert(connect_run(a, hide) == Connect::Hide);
        assert(connect_run(b, hide) == Connect::Create);
        assert(connect_run(c, hide) == Connect::Settle);
        let d = c.drop_last();
        assert(d =~= outcomes.take(n - 4));
        assert(connect_run(d, hide) == Connect::Find);
    } else {
        assert(connect_run(a, hide) == Connect::Create);
        assert(connect_run(b, hide) == Connect::Settle);
        assert(connect_run(c, hide) == Connect::Find);
    }
}

proof fn lemma_shown_is_not_hidden(outcomes: Seq<bool>)
    ensures
        connect_run(outcomes, false) != Connect::Hide,
{
}

/// A controller that was found and could not be mirrored or hidden is given
/// up before the next attempt, and one that was is not.
pub proof fn law_failed_attempt_is_given_up(step: Connect, ok: bool, hide: bool)
    requires
        step == Connect::Create || step == Connect::Hide,
    ensures
        connect_after(step, ok, hide).1 == !ok,
        !ok ==> connect_after(step, ok, hide).0 == Connect::Pause,
        ok ==> connect_after(step, ok, hide).0 != Connect::Pause,
{
}

/// The mirror of a controller with the given keys and axes, and what its
/// device is to be registered with.
pub fn virtual_controller(vid: u16, codes: Vec<u16>, abs: &[u32]) -> (r: Result<
    (Mirror, CreateParams),
    UhidError,
>)
    ensures
        match r {
            Ok((m, params)) => {
                &&& codes@.len() > 0
                &&& 1 <= mirror::axes_of(abs@).len() <= layout::MAX_AXES
                &&& m.wf()
                &&& m@.codes == mirror::kept_codes(codes@)
                &&& m@.axes == mirror::axes_of(abs@)
                &&& m@.buttons == Seq::new(m@.codes.len(), |i: int| false)
                &&& m@.values == Map::<Seq<char>, i32>::empty()
                &&& m@.hat == 0
                &&& !m@.dirty
                &&& params.name@ == vstd::utf8::encode_utf8("KeyForge Virtual Controller"@)
                &&& params.phys@ == mirror::mirror_phys()
                &&& params.uniq@.len() == 0
                &&& params.bus == crate::event::BUS_USB
                &&& params.vendor == vid
                &&& params.product == VIRTUAL_PRODUCT
                &&& params.version == 1
                &&& params.country == 0
                &&& params.descriptor@ == layout::gamepad_bytes(
                    mirror::kept_codes(codes@).len() as u8,
                    mirror::axis_kinds(mirror::axes_of(abs@)),
                    false,
                )
            },
            Err(e) => if codes@.len() == 0 {
                e == UhidError::ButtonCount
            } else {
                e == UhidError::AxisCount && (mirror::axes_of(abs@).len() == 0
                    || mirror::axes_of(abs@).len() > layout::MAX_AXES)
            },
        },
{
    Mirror::create(
        "KeyForge Virtual Controller",
        vid,
        VIRTUAL_PRODUCT,
        codes,
        mirror_axes(abs),
    )
}

/// A key event (type 1) is shown to the scripts as a button event with its own
/// code, pressed exactly where its value is not zero.
pub proof fn law_keys_are_shown(s: Sticks, code: u16, value: i32)
    ensures
        input_step(s, 1, code, value) matches InputStep::Run(Event::Button { code: c, pressed })
            && c == code && (pressed <==> value != 0),
        after_input(s, 1, code, value) == s,
{
}

/// A trigger event (type 3, code 2 on the left and 5 on the right) is shown to
/// the scripts with its value and side.
pub proof fn law_triggers_are_shown(s: Sticks, value: i32)
    ensures
        input_step(s, 3, 2, value) matches InputStep::Run(Event::Trigger { value: v, side }) && v
            == value && side == Side::Left,
        input_step(s, 3, 5, value) matches InputStep::Run(Event::Trigger { value: v, side }) && v
            == value && side == Side::Right,
        after_input(s, 3, 2, value) == s,
        after_input(s, 3, 5, value) == s,
{
}

/// A stick event (type 3, codes 0 and 1 on the left, 3 and 4 on the right) moves
/// one coordinate of its stick, marks the stick as moved, and is shown to no
/// script yet.
pub proof fn law_sticks_are_tracked(s: Sticks, value: i32)
    ensures
        after_input(s, 3, 0, value) == (Sticks { lx: value, ld: true, ..s }),
        after_input(s, 3, 1, value) == (Sticks { ly: value, ld: true, ..s }),
        after_input(s, 3, 3, value) == (Sticks { rx: value, rd: true, ..s }),
        after_input(s, 3, 4, value) == (Sticks { ry: value, rd: true, ..s }),
        forall|code: u16|
            code == 0 || code == 1 || code == 3 || code == 4 ==> #[trigger] input_step(
                s,
                3,
                code,
                value,
            ) == InputStep::Nothing,
{
}

/// The end of a report (type 0, code 0) shows exactly the sticks that moved, at
/// their positions and on their sides, and marks them as shown.
pub proof fn law_reports_show_moved_sticks(s: Sticks, value: i32)
    ensures
        input_step(s, 0, 0, value) matches InputStep::Sync { left, right } && {
            &&& left is Some == s.ld
            &&& right is Some == s.rd
            &&& s.ld ==> left == Some(Event::Stick { x: s.lx, y: s.ly, side: Side::Left })
            &&& s.rd ==> right == Some(Event::Stick { x: s.rx, y: s.ry, side: Side::Right })
        },
        after_input(s, 0, 0, value) == (Sticks { ld: false, rd: false, ..s }),
{
}

/// Every other event is passed over.
pub proof fn law_other_events_are_passed_over(s: Sticks, kind: u16, code: u16, value: i32)
    requires
        kind == 0 ==> code != 0,
        kind == 3 ==> code > 5,
        kind != 1,
    ensures
        input_step(s, kind, code, value) == InputStep::Nothing,
        after_input(s, kind, code, value) == s,
{
}

/// Attempts to connect go on until one succeeds: where none is found there is a
/// pause, and behind every pause another look.
pub proof fn law_attempts_go_on(ok: bool, hide: bool)
    ensures
        connect_after(Connect::Find, false, hide) == (Connect::Pause, false),
        connect_after(Connect::Find, true, hide) == (Connect::Settle, false),
        connect_after(Connect::Pause, ok, hide) == (Connect::Find, false),
        connect_after(Connect::Done, ok, hide) == (Connect::Done, false),
        connect_after(Connect::Create, true, false).0 == Connect::Done,
        connect_after(Connect::Create, true, true).0 == Connect::Hide,
{
}

/// An event tells of the controller exactly where it carries the controller's
/// number and not that of the input directory, and of its end where one of the
/// two bits for that is set.
pub proof fn law_poll_events(bits: u32, tag: u64, watch: u64, device: u64)
    ensures
        of_device((bits, tag), None, device) <==> tag == device,
        of_device((bits, tag), Some(watch), device) <==> tag == device && tag != watch,
        (EPOLLHUP | EPOLLERR) == 24u32,
        bits & (EPOLLHUP | EPOLLERR) != 0 <==> bits / 8 % 2 == 1 || bits / 16 % 2 == 1,
{
    assert(0x10u32 | 0x08u32 == 24u32) by (bit_vector);
    assert(bits & 24u32 != 0 <==> bits / 8 % 2 == 1 || bits / 16 % 2 == 1) by (bit_vector);
}

} // verus!
