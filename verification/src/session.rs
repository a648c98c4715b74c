//! The controller that is connected, its mirror, and the keys that are held.

use vstd::prelude::*;

use crate::device::{Transfer, UhidDevice};
use crate::emit;
use crate::emit::{
    flush_pending_releases, process_button, process_stick, process_trigger, EmitEvent, Event,
    Release, Side,
};
use crate::event;
use crate::mirror;
use crate::mirror::{Mirror, MirrorView, ABS_RX, ABS_RY, ABS_RZ, ABS_X, ABS_Y, ABS_Z};
use crate::reload::poll_timeout;
use crate::source;
use crate::source::{InputStep, Sticks};

verus! {

/// What the daemon keeps of the controller while it runs.
pub struct Session {
    mirror: Option<Mirror>,
    pending: Vec<Release>,
    sticks: Sticks,
}

/// `m` after an event that the scripts have seen: a button or a trigger comes
/// after what they emitted, a stick before it, and neither comes if they
/// dropped it.
pub open spec fn delivered(
    m: MirrorView,
    event: Event,
    emits: Seq<EmitEvent>,
    dropped: bool,
) -> MirrorView {
    if dropped {
        emit::after_emits(m, emits)
    } else {
        match event {
            Event::Button { code, pressed } => mirror::after_key(
                emit::after_emits(m, emits),
                code,
                pressed,
            ),
            Event::Trigger { value, side: Side::Left } => mirror::after_abs(
                emit::after_emits(m, emits),
                ABS_Z,
                value,
            ),
            Event::Trigger { value, side: Side::Right } => mirror::after_abs(
                emit::after_emits(m, emits),
                ABS_RZ,
                value,
            ),
            Event::Stick { x, y, side: Side::Left } => emit::after_emits(
                mirror::after_abs(mirror::after_abs(m, ABS_X, x), ABS_Y, y),
                emits,
            ),
            Event::Stick { x, y, side: Side::Right } => emit::after_emits(
                mirror::after_abs(mirror::after_abs(m, ABS_RX, x), ABS_RY, y),
                emits,
            ),
        }
    }
}

impl Session {
    /// The mirror, while a controller is connected.
    pub closed spec fn mirror(self) -> Option<Mirror> {
        self.mirror
    }

    /// The releases that are to come.
    pub closed spec fn pending(self) -> Seq<Release> {
        self.pending@
    }

    /// Where the sticks of the controller stand.
    pub closed spec fn sticks(self) -> Sticks {
        self.sticks
    }

    /// Whether the mirror is sound, and no key is held without one.
    pub open spec fn wf(self) -> bool {
        match self.mirror() {
            Some(m) => m.wf(),
            None => self.pending().len() == 0,
        }
    }

    /// No controller.
    pub fn new() -> (s: Session)
        ensures
            s.wf(),
            s.mirror() is None,
            s.sticks() == (Sticks { lx: 0, ly: 0, rx: 0, ry: 0, ld: false, rd: false }),
    {
        Session { mirror: None, pending: Vec::new(), sticks: Sticks::new() }
    }

    /// Whether a controller is connected.
    pub fn connected(&self) -> (r: bool)
        ensures
            r == self.mirror() is Some,
    {
        self.mirror.is_some()
    }

    /// Takes the mirror of a controller that was connected.
    pub fn connect(&mut self, mirror: Mirror)
        requires
            old(self).wf(),
            old(self).mirror() is None,
            mirror.wf(),
        ensures
            final(self).wf(),
            final(self).mirror() == Some(mirror),
            final(self).pending() == Seq::<Release>::empty(),
            final(self).sticks() == old(self).sticks(),
    {
        self.mirror = Some(mirror);
        assert(self.pending@ =~= Seq::<Release>::empty());
    }

    /// Gives the controller up: its mirror, whose keys are held no longer.
    pub fn disconnect(&mut self) -> (r: Option<Mirror>)
        ensures
            final(self).wf(),
            r == old(self).mirror(),
            final(self).mirror() is None,
            final(self).pending() == Seq::<Release>::empty(),
            final(self).sticks() == old(self).sticks(),
    {
        let mut gone: Option<Mirror> = None;
        std::mem::swap(&mut gone, &mut self.mirror);
        self.pending = Vec::new();
        gone
    }

    /// Where the sticks stand, for those who look at them from outside.
    pub fn stick_positions(&self) -> (s: Sticks)
        ensures
            s == self.sticks(),
    {
        self.sticks
    }

    /// How long to wait for events, in milliseconds.
    pub fn timeout(&self) -> (ms: i32)
        ensures
            ms == (if self.pending().len() == 0 {
                500int
            } else {
                50int
            }),
    {
        poll_timeout(&self.pending)
    }

    /// Takes an input event of the controller.
    pub fn take(&mut self, kind: u16, code: u16, value: i32) -> (step: InputStep)
        ensures
            final(self).mirror() == old(self).mirror(),
            final(self).pending() == old(self).pending(),
            final(self).sticks() == source::after_input(old(self).sticks(), kind, code, value),
            step == source::input_step(old(self).sticks(), kind, code, value),
    {
        self.sticks.take(kind, code, value)
    }

    /// Takes an event that the scripts have seen to the mirror, with what they
    /// emitted and when each of that is taken. Without a controller there is
    /// nothing to take it to.
    pub fn deliver(&mut self, event: Event, emits: &[EmitEvent], times: &[u128], dropped: bool)
        requires
            old(self).wf(),
            emit::timed(emits@, times@),
        ensures
            final(self).wf(),
            final(self).sticks() == old(self).sticks(),
            match old(self).mirror() {
                Some(m) => {
                    &&& final(self).mirror() matches Some(n) && {
                        &&& n.map() == m.map()
                        &&& n@ == delivered(m@, event, emits@, dropped)
                    }
                    &&& final(self).pending() == old(self).pending() + emit::holds(
                        emits@,
                        times@,
                    )
                },
                None => {
                    &&& final(self).mirror() is None
                    &&& final(self).pending() == old(self).pending()
                },
            },
    {
        match &mut self.mirror {
            Some(out) => match event {
                Event::Button { code, pressed } => {
                    process_button(code, pressed, emits, times, dropped, &mut self.pending, out);
                },
                Event::Trigger { value, side } => {
                    process_trigger(value, side, emits, times, dropped, &mut self.pending, out);
                },
                Event::Stick { x, y, side } => {
                    process_stick(side, x, y, emits, times, dropped, &mut self.pending, out);
                },
            },
            None => {},
        }
    }

    /// Lets the keys go up whose time has come. Returns whether the mirror is
    /// to be flushed.
    pub fn release(&mut self, now: u128) -> (due: bool)
        requires
            old(self).wf(),
        ensures
            final(self).wf(),
            final(self).sticks() == old(self).sticks(),
            due == (old(self).pending().len() > 0),
            match old(self).mirror() {
                Some(m) => {
                    &&& final(self).mirror() matches Some(n) && {
                        &&& n.map() == m.map()
                        &&& n@ == emit::after_releases(m@, old(self).pending(), now)
                    }
                    &&& final(self).pending().to_multiset()
                        == old(self).pending().to_multiset().filter(|r: Release| r.at > now)
                },
                None => {
                    &&& final(self).mirror() is None
                    &&& final(self).pending() == old(self).pending()
                },
            },
    {
        match &mut self.mirror {
            Some(out) => flush_pending_releases(&mut self.pending, out, now),
            None => false,
        }
    }

    /// The report to send to the mirror's device, when one is due.
    pub fn flush(&self, device: &UhidDevice) -> (r: Option<Transfer>)
        requires
            self.wf(),
        ensures
            match r {
                Some(t) => {
                    &&& self.mirror() matches Some(m) && m.dirty() && t.event()
                        == event::input2_frame(mirror::mirror_report(m.map(), m.state()@))
                    &&& t.spec_fd() == device.spec_fd()
                    &&& t.sent() == 0
                    &&& t.unfinished()
                },
                None => self.mirror() matches Some(m) ==> !m.dirty(),
            },
    {
        match &self.mirror {
            Some(m) => m.flush(device),
            None => None,
        }
    }

    /// Takes note of whether the report that `flush` gave was sent.
    pub fn flushed(&mut self, sent: bool)
        requires
            old(self).wf(),
        ensures
            final(self).wf(),
            final(self).pending() == old(self).pending(),
            final(self).sticks() == old(self).sticks(),
            match old(self).mirror() {
                Some(m) => final(self).mirror() matches Some(n) && {
                    &&& n.map() == m.map()
                    &&& n@ == (MirrorView { dirty: m@.dirty && !sent, ..m@ })
                },
                None => final(self).mirror() is None,
            },
    {
        match &mut self.mirror {
            Some(m) => m.flushed(sent),
            None => {},
        }
    }
}

/// What the daemon is at. It starts with `Connect`.
#[derive(Debug, Clone, Copy, PartialEq, Eq, Structural)]
pub enum Turn {
    /// A round begins.
    Begin,
    /// The controller and the configuration are looked at.
    Check,
    /// The controller is looked for until it is connected.
    Connect,
    /// Held keys are let go and the devices of scripts are read.
    Serve,
    /// Events are waited for.
    Wait,
    /// The controller is read.
    Read,
}

/// What follows a turn: `due` says whether it is time for a check,
/// `connected` whether a controller is connected after the turn, `ready`
/// whether the wait ended with the controller to be read.
pub open spec fn turn_after(turn: Turn, due: bool, connected: bool, ready: bool) -> Turn {
    let go_on = if connected {
        Turn::Serve
    } else {
        Turn::Connect
    };
    match turn {
        Turn::Begin => if due {
            Turn::Check
        } else {
            go_on
        },
        Turn::Check => go_on,
        Turn::Connect => go_on,
        Turn::Serve => Turn::Wait,
        Turn::Wait => if ready {
            Turn::Read
        } else {
            Turn::Begin
        },
        Turn::Read => Turn::Begin,
    }
}

/// Decides what follows a turn.
pub fn next_turn(turn: Turn, due: bool, connected: bool, ready: bool) -> (r: Turn)
    ensures
        r == turn_after(turn, due, connected, ready),
{
    match turn {
        Turn::Begin => {
            if due {
                Turn::Check
            } else if connected {
                Turn::Serve
            } else {
                Turn::Connect
            }
        },
        Turn::Check => {
            if connected {
                Turn::Serve
            } else {
                Turn::Connect
            }
        },
        Turn::Connect => {
            if connected {
                Turn::Serve
            } else {
                Turn::Connect
            }
        },
        Turn::Serve => Turn::Wait,
        Turn::Wait => {
            if ready {
                Turn::Read
            } else {
                Turn::Begin
            }
        },
        Turn::Read => Turn::Begin,
    }
}

/// Keys are let go, events waited for and the controller read only while one
/// is connected: serving starts only then, and up to the next round nothing
/// but reading can end the connection.
pub proof fn law_served_while_connected(turn: Turn, due: bool, connected: bool, ready: bool)
    ensures
        turn_after(turn, due, connected, ready) == Turn::Serve ==> connected,
        turn_after(turn, due, connected, ready) == Turn::Wait ==> turn == Turn::Serve,
        turn_after(turn, due, connected, ready) == Turn::Read ==> turn == Turn::Wait,
        turn == Turn::Read ==> turn_after(turn, due, connected, ready) == Turn::Begin,
        turn == Turn::Begin && !connected ==> turn_after(turn, due, connected, ready)
            == Turn::Check || turn_after(turn, due, connected, ready) == Turn::Connect,
{
}

/// What scripts emit comes before a button or a trigger and after a stick, and
/// is all that comes of an event that they drop.
pub proof fn law_order_of_delivery(
    m: MirrorView,
    event: Event,
    emits: Seq<EmitEvent>,
)
    ensures
        delivered(m, event, emits, true) == emit::after_emits(m, emits),
        event is Stick ==> delivered(m, event, emits, false) == emit::after_emits(
            delivered(m, event, Seq::empty(), false),
            emits,
        ),
        !(event is Stick) ==> delivered(m, event, emits, false) == delivered(
            emit::after_emits(m, emits),
            event,
            Seq::empty(),
            false,
        ),
{
    assert(forall|n: MirrorView| #[trigger]
        emit::after_emits(n, Seq::<EmitEvent>::empty()) == n);
}

/// A button that the controller presses goes down on the mirror and one that it
/// lets go goes up, whatever scripts emit, unless they drop the event.
pub proof fn law_buttons_follow_the_controller(
    m: MirrorView,
    s: Sticks,
    code: u16,
    value: i32,
    emits: Seq<EmitEvent>,
    i: int,
)
    requires
        m.buttons.len() == m.codes.len(),
        0 <= i < m.codes.len(),
        m.codes[i] == code,
        forall|j: int| 0 <= j < i ==> m.codes[j] != code,
    ensures
        source::input_step(s, 1, code, value) matches InputStep::Run(event) && delivered(
            m,
            event,
            emits,
            false,
        ).buttons[i] == (value != 0),
{
    source::law_keys_are_shown(s, code, value);
    lemma_emits_keep_shape(m, emits);
    let n = emit::after_emits(m, emits);
    mirror::law_key_moves_its_button(n, code, i);
}

/// A press and a release of a button, neither dropped, leave it up.
pub proof fn law_release_follows_press(
    m: MirrorView,
    s: Sticks,
    code: u16,
    down: i32,
    i: int,
)
    requires
        down != 0,
        m.buttons.len() == m.codes.len(),
        0 <= i < m.codes.len(),
        m.codes[i] == code,
        forall|j: int| 0 <= j < i ==> m.codes[j] != code,
    ensures
        source::input_step(s, 1, code, down) matches InputStep::Run(press)
            && source::input_step(s, 1, code, 0) matches InputStep::Run(release) && {
            let pressed = delivered(m, press, Seq::empty(), false);
            &&& pressed.buttons[i]
            &&& !delivered(pressed, release, Seq::empty(), false).buttons[i]
        },
{
    law_buttons_follow_the_controller(m, s, code, down, Seq::empty(), i);
    let press = Event::Button { code, pressed: true };
    source::law_keys_are_shown(s, code, down);
    assert(source::input_step(s, 1, code, down) == InputStep::Run(press));
    let pressed = delivered(m, press, Seq::empty(), false);
    mirror::law_keys_and_axes_are_apart(m, code, true, 0, 0);
    lemma_key_keeps_shape(m, code, true);
    assert(emit::after_emits(m, Seq::<EmitEvent>::empty()) == m);
    law_buttons_follow_the_controller(pressed, s, code, 0, Seq::empty(), i);
}

proof fn lemma_key_keeps_shape(m: MirrorView, code: u16, pressed: bool)
    ensures
        mirror::after_key(m, code, pressed).buttons.len() == m.buttons.len(),
        mirror::after_key(m, code, pressed).codes == m.codes,
        mirror::after_key(m, code, pressed).axes == m.axes,
{
    mirror::lemma_key_index_in(m.codes, code);
}

proof fn lemma_emits_keep_shape(m: MirrorView, emits: Seq<EmitEvent>)
    ensures
        emit::after_emits(m, emits).buttons.len() == m.buttons.len(),
        emit::after_emits(m, emits).codes == m.codes,
        emit::after_emits(m, emits).axes == m.axes,
    decreases emits.len(),
{
    if emits.len() != 0 {
        lemma_emits_keep_shape(m, emits.drop_last());
        lemma_key_keeps_shape(
            emit::after_emits(m, emits.drop_last()),
            emits.last().code,
            emits.last().value != 0,
        );
    }
}

/// The value that 16 bits can hold symmetrically, nearest to `v`.
pub open spec fn cut(v: i32) -> int {
    if v < -32767 {
        -32767
    } else if v > 32767 {
        32767
    } else {
        v as int
    }
}

/// A trigger is reported on its own axis: the left one on physical axis 2, at
/// the value that the scripts left it, whatever they emitted; the right one is
/// the physical axis 5, which is not mirrored.
pub proof fn law_triggers_are_reported(
    m: MirrorView,
    codes: Seq<u32>,
    value: i32,
    emits: Seq<EmitEvent>,
    j: int,
)
    requires
        m.axes == mirror::axes_of(codes),
        m.codes.len() <= 32,
        0 <= j < m.axes.len(),
    ensures
        ({
            let left = delivered(m, Event::Trigger { value, side: Side::Left }, emits, false);
            let right = delivered(m, Event::Trigger { value, side: Side::Right }, emits, false);
            let n = emit::after_emits(m, emits);
            &&& mirror::reported_axis(left, j) == (if m.axes[j].0 == 2 {
                cut(value)
            } else {
                mirror::reported_axis(n, j)
            })
            &&& mirror::reported_axis(right, j) == mirror::reported_axis(n, j)
            &&& left.buttons == n.buttons && right.buttons == n.buttons
        }),
{
    lemma_emits_keep_shape(m, emits);
    let n = emit::after_emits(m, emits);
    mirror::law_axis_moves_alone(n, codes, 2, value, j);
    mirror::law_axis_moves_alone(n, codes, 5, value, j);
    mirror::law_mirrored_axes(codes);
    assert(mirror::axes_of(codes)[j] == m.axes[j]);
}

/// A stick is reported on its own two axes: the left one on the physical axes
/// 0 and 1, the right one on 3 and 4; no other axis moves.
pub proof fn law_sticks_are_reported(m: MirrorView, codes: Seq<u32>, x: i32, y: i32, j: int)
    requires
        m.axes == mirror::axes_of(codes),
        m.codes.len() <= 32,
        0 <= j < m.axes.len(),
    ensures
        ({
            let left = delivered(m, Event::Stick { x, y, side: Side::Left }, Seq::empty(), false);
            let right = delivered(m, Event::Stick { x, y, side: Side::Right }, Seq::empty(), false);
            let code = m.axes[j].0;
            &&& mirror::reported_axis(left, j) == (if code == 0 {
                cut(x)
            } else if code == 1 {
                cut(y)
            } else {
                mirror::reported_axis(m, j)
            })
            &&& mirror::reported_axis(right, j) == (if code == 3 {
                cut(x)
            } else if code == 4 {
                cut(y)
            } else {
                mirror::reported_axis(m, j)
            })
            &&& left.buttons == m.buttons && right.buttons == m.buttons
        }),
{
    assert(forall|n: MirrorView| #[trigger]
        emit::after_emits(n, Seq::<EmitEvent>::empty()) == n);
    mirror::law_axis_moves_alone(m, codes, 0, x, j);
    mirror::law_axis_moves_alone(mirror::after_abs(m, 0, x), codes, 1, y, j);
    mirror::law_axis_moves_alone(m, codes, 3, x, j);
    mirror::law_axis_moves_alone(mirror::after_abs(m, 3, x), codes, 4, y, j);
}

/// A round runs in this order: a check where one is due, connecting until a
/// controller is connected, serving, waiting and, where the controller is to be
/// read, reading; the next round follows.
pub proof fn law_order_of_turns(due: bool, connected: bool, ready: bool)
    ensures
        turn_after(Turn::Begin, true, connected, ready) == Turn::Check,
        turn_after(Turn::Begin, false, true, ready) == Turn::Serve,
        turn_after(Turn::Begin, false, false, ready) == Turn::Connect,
        turn_after(Turn::Check, due, true, ready) == Turn::Serve,
        turn_after(Turn::Check, due, false, ready) == Turn::Connect,
        turn_after(Turn::Connect, due, true, ready) == Turn::Serve,
        turn_after(Turn::Connect, due, false, ready) == Turn::Connect,
        turn_after(Turn::Serve, due, connected, ready) == Turn::Wait,
        turn_after(Turn::Wait, due, connected, true) == Turn::Read,
        turn_after(Turn::Wait, due, connected, false) == Turn::Begin,
        turn_after(Turn::Read, due, connected, ready) == Turn::Begin,
{
}

} // verus!
