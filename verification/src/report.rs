//! Input reports: the bytes that carry the state of a device.

use vstd::prelude::*;

use crate::bytes;
use crate::error::UhidError;
use crate::layout;
use crate::layout::{GamepadAxis, ReportLayout};
use crate::strmap::StrMap;

verus! {

/// What a gamepad reports: its buttons in order, its axes by name, its hat.
#[derive(Debug, Clone)]
pub struct GamepadState {
    pub buttons: Vec<bool>,
    pub axes: StrMap<i32>,
    pub hat: u8,
}

/// What a `GamepadState` holds.
#[verifier::ext_equal]
pub struct GamepadView {
    pub buttons: Seq<bool>,
    pub axes: Map<Seq<char>, i32>,
    pub hat: u8,
}

impl View for GamepadState {
    type V = GamepadView;

    open spec fn view(&self) -> GamepadView {
        GamepadView { buttons: self.buttons@, axes: self.axes@, hat: self.hat }
    }
}

impl Default for GamepadState {
    fn default() -> (s: Self)
        ensures
            s@ == (GamepadView { buttons: Seq::empty(), axes: Map::empty(), hat: 0 }),
    {
        GamepadState { buttons: Vec::new(), axes: StrMap::new(), hat: 0 }
    }
}

/// What a keyboard reports: its modifiers and the keys held down.
#[derive(Debug, Clone)]
pub struct KeyboardState {
    pub modifiers: u8,
    pub keys: Vec<u8>,
}

impl Default for KeyboardState {
    fn default() -> (s: Self)
        ensures
            s.modifiers == 0,
            s.keys@.len() == 0,
    {
        KeyboardState { modifiers: 0, keys: Vec::new() }
    }
}

/// What a mouse reports: its buttons and how far it and its wheel moved.
#[derive(Debug, Clone, Copy)]
pub struct MouseState {
    pub buttons: u8,
    pub x: i32,
    pub y: i32,
    pub wheel: i32,
}

impl Default for MouseState {
    fn default() -> (s: Self)
        ensures
            s == (MouseState { buttons: 0, x: 0, y: 0, wheel: 0 }),
    {
        MouseState { buttons: 0, x: 0, y: 0, wheel: 0 }
    }
}

/// `v`, or the nearer of `low` and `high` where it lies outside of them.
pub open spec fn clamped(v: int, low: int, high: int) -> int {
    if v < low {
        low
    } else if v > high {
        high
    } else {
        v
    }
}

/// 1 where button `i` is one of the first `limit` and pressed, 0 elsewhere.
pub open spec fn pressed_bit(pressed: Seq<bool>, limit: int, i: int) -> int {
    if i < limit && i < pressed.len() && pressed[i] {
        1
    } else {
        0
    }
}

/// The byte that holds buttons `8 * k` to `8 * k + 7`, the first in the lowest bit.
pub open spec fn button_byte(pressed: Seq<bool>, limit: int, k: int) -> u8 {
    (pressed_bit(pressed, limit, 8 * k) + 2 * pressed_bit(pressed, limit, 8 * k + 1) + 4
        * pressed_bit(pressed, limit, 8 * k + 2) + 8 * pressed_bit(pressed, limit, 8 * k + 3) + 16
        * pressed_bit(pressed, limit, 8 * k + 4) + 32 * pressed_bit(pressed, limit, 8 * k + 5) + 64
        * pressed_bit(pressed, limit, 8 * k + 6) + 128 * pressed_bit(
        pressed,
        limit,
        8 * k + 7,
    )) as u8
}

/// What is reported for `axis`: its value, or 0 where it has none, cut to 16 bits.
pub open spec fn axis_value(values: Map<Seq<char>, i32>, axis: GamepadAxis) -> int {
    if values.contains_key(axis.spec_name()) {
        clamped(values[axis.spec_name()] as int, -32767, 32767)
    } else {
        0
    }
}

/// The two bytes of `v` in two's complement.
pub open spec fn signed16(v: int) -> Seq<u8> {
    bytes::le16((v % 0x1_0000) as u16)
}

/// The values of `axes`, two bytes each.
pub open spec fn axis_area(values: Map<Seq<char>, i32>, axes: Seq<GamepadAxis>) -> Seq<u8>
    decreases axes.len(),
{
    if axes.len() == 0 {
        Seq::empty()
    } else {
        axis_area(values, axes.drop_last()) + signed16(axis_value(values, axes.last()))
    }
}

/// The report of a gamepad: buttons, axes and, where there is one, the hat.
pub open spec fn gamepad_report(
    buttons: u8,
    axes: Seq<GamepadAxis>,
    hat: bool,
    state: GamepadView,
) -> Seq<u8> {
    Seq::new(
        layout::button_bytes(buttons) as nat,
        |k: int| button_byte(state.buttons, buttons as int, k),
    ) + axis_area(state.axes, axes) + if hat {
        seq![(state.hat % 16) as u8]
    } else {
        Seq::empty()
    }
}

/// The boot-protocol report of a keyboard: at most six keys.
pub open spec fn keyboard_report(modifiers: u8, keys: Seq<u8>) -> Seq<u8> {
    bytes::padded(
        seq![modifiers, 0u8] + keys.take(
            if keys.len() < 6 {
                keys.len() as int
            } else {
                6
            },
        ),
        8,
    )
}

/// `v` cut to what fits a signed byte symmetrically, in two's complement.
pub open spec fn signed8(v: int) -> u8 {
    (clamped(v, -127, 127) % 256) as u8
}

/// The report of a mouse.
pub open spec fn mouse_report(state: MouseState) -> Seq<u8> {
    seq![
        state.buttons,
        signed8(state.x as int),
        signed8(state.y as int),
        signed8(state.wheel as int),
    ]
}

/// Bit `j` of `b`.
pub open spec fn bit_of(b: u8, j: int) -> bool {
    let weight: u8 = if j == 0 {
        1
    } else if j == 1 {
        2
    } else if j == 2 {
        4
    } else if j == 3 {
        8
    } else if j == 4 {
        16
    } else if j == 5 {
        32
    } else if j == 6 {
        64
    } else {
        128
    };
    b / weight % 2 == 1
}

proof fn lemma_axis_area_len(values: Map<Seq<char>, i32>, axes: Seq<GamepadAxis>)
    ensures
        axis_area(values, axes).len() == 2 * axes.len(),
    decreases axes.len(),
{
    if axes.len() != 0 {
        lemma_axis_area_len(values, axes.drop_last());
    }
}

proof fn lemma_pair_appended(prefix: Seq<u8>, last: Seq<u8>, k: int)
    requires
        last.len() == 2,
        0 <= k <= prefix.len(),
    ensures
        k + 2 <= prefix.len() ==> (prefix + last).subrange(k, k + 2) == prefix.subrange(k, k + 2),
        k == prefix.len() ==> (prefix + last).subrange(k, k + 2) == last,
{
    if k + 2 <= prefix.len() {
        assert((prefix + last).subrange(k, k + 2) =~= prefix.subrange(k, k + 2));
    }
    if k == prefix.len() {
        assert((prefix + last).subrange(k, k + 2) =~= last);
    }
}

proof fn lemma_axis_at(values: Map<Seq<char>, i32>, axes: Seq<GamepadAxis>, i: int)
    requires
        0 <= i < axes.len(),
    ensures
        axis_area(values, axes).len() == 2 * axes.len(),
        axis_area(values, axes).subrange(2 * i, 2 * i + 2) == signed16(
            axis_value(values, axes[i]),
        ),
    decreases axes.len(),
{
    let front = axes.drop_last();
    let last = signed16(axis_value(values, axes.last()));
    lemma_axis_area_len(values, front);
    lemma_pair_appended(axis_area(values, front), last, 2 * i);
    if i < front.len() {
        lemma_axis_at(values, front, i);
    }
}

/// A gamepad report has the length that its layout states.
pub proof fn law_gamepad_report_length(
    buttons: u8,
    axes: Vec<GamepadAxis>,
    hat: bool,
    state: GamepadView,
)
    ensures
        gamepad_report(buttons, axes@, hat, state).len() == (ReportLayout::Gamepad {
            buttons,
            axes,
            hat,
        }).spec_report_len(),
{
    lemma_axis_area_len(state.axes, axes@);
}

/// Keyboard and mouse reports have the length that their layouts state.
pub proof fn law_fixed_report_lengths(modifiers: u8, keys: Seq<u8>, mouse: MouseState)
    ensures
        keyboard_report(modifiers, keys).len() == ReportLayout::Keyboard.spec_report_len(),
        mouse_report(mouse).len() == ReportLayout::Mouse.spec_report_len(),
{
}

/// Each button has its own bit of the report: set while it is pressed.
pub proof fn law_button_bits(
    buttons: u8,
    axes: Seq<GamepadAxis>,
    hat: bool,
    state: GamepadView,
    i: int,
)
    requires
        0 <= i < buttons,
    ensures
        bit_of(gamepad_report(buttons, axes, hat, state)[i / 8], i % 8) == (i
            < state.buttons.len() && state.buttons[i]),
{
    let k = i / 8;
    let j = i % 8;
    let b = gamepad_report(buttons, axes, hat, state)[k];
    assert(i == 8 * k + j);
    assert(b == button_byte(state.buttons, buttons as int, k));
    let n = buttons as int;
    let s = state.buttons;
    lemma_byte_bits(
        pressed_bit(s, n, 8 * k),
        pressed_bit(s, n, 8 * k + 1),
        pressed_bit(s, n, 8 * k + 2),
        pressed_bit(s, n, 8 * k + 3),
        pressed_bit(s, n, 8 * k + 4),
        pressed_bit(s, n, 8 * k + 5),
        pressed_bit(s, n, 8 * k + 6),
        pressed_bit(s, n, 8 * k + 7),
        b,
    );
}

proof fn lemma_byte_bits(
    b0: int,
    b1: int,
    b2: int,
    b3: int,
    b4: int,
    b5: int,
    b6: int,
    b7: int,
    b: u8,
)
    requires
        0 <= b0 <= 1,
        0 <= b1 <= 1,
        0 <= b2 <= 1,
        0 <= b3 <= 1,
        0 <= b4 <= 1,
        0 <= b5 <= 1,
        0 <= b6 <= 1,
        0 <= b7 <= 1,
        b == b0 + 2 * b1 + 4 * b2 + 8 * b3 + 16 * b4 + 32 * b5 + 64 * b6 + 128 * b7,
    ensures
        bit_of(b, 0) == (b0 == 1),
        bit_of(b, 1) == (b1 == 1),
        bit_of(b, 2) == (b2 == 1),
        bit_of(b, 3) == (b3 == 1),
        bit_of(b, 4) == (b4 == 1),
        bit_of(b, 5) == (b5 == 1),
        bit_of(b, 6) == (b6 == 1),
        bit_of(b, 7) == (b7 == 1),
{
}

/// Each axis reads back from its place behind the buttons as the value it has.
#[verifier::spinoff_prover]
pub proof fn law_axis_reads_back(
    buttons: u8,
    axes: Seq<GamepadAxis>,
    hat: bool,
    state: GamepadView,
    i: int,
)
    requires
        0 <= i < axes.len(),
    ensures
        ({
            let raw = bytes::le16_at(
                gamepad_report(buttons, axes, hat, state),
                layout::button_bytes(buttons) + 2 * i,
            );
            axis_value(state.axes, axes[i]) == if raw < 0x8000 {
                raw as int
            } else {
                raw - 0x1_0000
            }
        }),
{
    let report = gamepad_report(buttons, axes, hat, state);
    let off = layout::button_bytes(buttons) + 2 * i;
    let v = axis_value(state.axes, axes[i]);
    lemma_axis_at(state.axes, axes, i);
    assert(off + 2 <= report.len() && report.subrange(off, off + 2) == signed16(v)) by {
        let head = Seq::new(
            layout::button_bytes(buttons) as nat,
            |k: int| button_byte(state.buttons, buttons as int, k),
        );
        let tail = if hat {
            seq![(state.hat % 16) as u8]
        } else {
            Seq::empty()
        };
        lemma_inside(head, axis_area(state.axes, axes), tail, 2 * i);
    }
    bytes::lemma_le16_in(report, off, (v % 0x1_0000) as u16);
    lemma_two_complement(v);
}

proof fn lemma_two_complement(v: int)
    requires
        -32767 <= v <= 32767,
    ensures
        v == if ((v % 0x1_0000) as u16) < 0x8000 {
            ((v % 0x1_0000) as u16) as int
        } else {
            ((v % 0x1_0000) as u16) - 0x1_0000
        },
{
}

proof fn lemma_inside(head: Seq<u8>, body: Seq<u8>, tail: Seq<u8>, k: int)
    requires
        0 <= k,
        k + 2 <= body.len(),
    ensures
        (head + body + tail).subrange(head.len() + k, head.len() + k + 2) == body.subrange(
            k,
            k + 2,
        ),
{
    assert((head + body + tail).subrange(head.len() + k, head.len() + k + 2) =~= body.subrange(
        k,
        k + 2,
    ));
}

/// `v`, or the nearer of `low` and `high` where it lies outside of them.
pub fn clamp(v: i32, low: i32, high: i32) -> (r: i32)
    requires
        low <= high,
    ensures
        r == clamped(v as int, low as int, high as int),
{
    if v < low {
        low
    } else if v > high {
        high
    } else {
        v
    }
}

fn bit(pressed: &Vec<bool>, limit: usize, i: usize) -> (r: u8)
    ensures
        r == pressed_bit(pressed@, limit as int, i as int),
{
    if i < limit && i < pressed.len() && pressed[i] {
        1
    } else {
        0
    }
}

/// Packs the state of a gamepad into one report.
pub fn pack_gamepad(layout: &ReportLayout, state: &GamepadState) -> (r: Result<Vec<u8>, UhidError>)
    ensures
        match layout {
            ReportLayout::Gamepad { buttons, axes, hat } => r matches Ok(report) && report@
                == gamepad_report(*buttons, axes@, *hat, state@),
            _ => r == Err::<Vec<u8>, UhidError>(UhidError::NotGamepad),
        },
{
    let (buttons, axes, hat) = match layout {
        ReportLayout::Gamepad { buttons, axes, hat } => (*buttons, axes, *hat),
        _ => {
            return Err(UhidError::NotGamepad);
        },
    };
    let limit: usize = buttons as usize;
    let held = (limit + 7) / 8;
    let mut report: Vec<u8> = Vec::new();
    let mut k: usize = 0;
    while k < held
        invariant
            k <= held,
            held <= 32,
            limit == buttons,
            report@ == Seq::new(
                k as nat,
                |k: int| button_byte(state.buttons@, buttons as int, k),
            ),
        decreases held - k,
    {
        let s = &state.buttons;
        let first = 8 * k;
        report.push(
            bit(s, limit, first) + 2 * bit(s, limit, first + 1) + 4 * bit(s, limit, first + 2) + 8
                * bit(s, limit, first + 3) + 16 * bit(s, limit, first + 4) + 32 * bit(
                s,
                limit,
                first + 5,
            ) + 64 * bit(s, limit, first + 6) + 128 * bit(s, limit, first + 7),
        );
        k += 1;
    }
    let ghost area = report@;
    let mut i: usize = 0;
    assert(report@ =~= area + axis_area(state.axes@, axes@.take(0)));
    while i < axes.len()
        invariant
            i <= axes@.len(),
            report@ == area + axis_area(state.axes@, axes@.take(i as int)),
        decreases axes@.len() - i,
    {
        let v: i32 = match state.axes.get(axes[i].name()) {
            Some(v) => clamp(*v, -32767, 32767),
            None => 0,
        };
        let raw: u16 = if v < 0 {
            (v + 0x1_0000) as u16
        } else {
            v as u16
        };
        report.push((raw % 256) as u8);
        report.push((raw / 256) as u8);
        proof {
            assert(v == axis_value(state.axes@, axes@[i as int]));
            assert(raw == (v as int) % 0x1_0000);
            let upto = axes@.take(i + 1);
            assert(upto.drop_last() =~= axes@.take(i as int));
            assert(upto.last() == axes@[i as int]);
            assert(report@ =~= area + axis_area(state.axes@, upto));
        }
        i += 1;
    }
    assert(axes@.take(i as int) =~= axes@);
    if hat {
        report.push(state.hat % 16);
    }
    assert(report@ =~= gamepad_report(buttons, axes@, hat, state@));
    Ok(report)
}

/// Packs the state of a keyboard into one report.
pub fn pack_keyboard(state: &KeyboardState) -> (report: Vec<u8>)
    ensures
        report@ == keyboard_report(state.modifiers, state.keys@),
{
    let mut report: Vec<u8> = vec![state.modifiers, 0, 0, 0, 0, 0, 0, 0];
    let mut i: usize = 0;
    while i < 6 && i < state.keys.len()
        invariant
            i <= 6,
            i <= state.keys@.len(),
            report@ =~= bytes::padded(
                seq![state.modifiers, 0u8] + state.keys@.take(i as int),
                8,
            ),
        decreases 6 - i,
    {
        report[2 + i] = state.keys[i];
        i += 1;
    }
    report
}

fn signed_byte(v: i32) -> (b: u8)
    ensures
        b == signed8(v as int),
{
    let c = clamp(v, -127, 127);
    if c < 0 {
        (c + 256) as u8
    } else {
        c as u8
    }
}

/// Packs the state of a mouse into one report.
pub fn pack_mouse(state: &MouseState) -> (report: Vec<u8>)
    ensures
        report@ == mouse_report(*state),
{
    let report: Vec<u8> = vec![
        state.buttons,
        signed_byte(state.x),
        signed_byte(state.y),
        signed_byte(state.wheel),
    ];
    assert(report@ =~= mouse_report(*state));
    report
}

/// The signed 16-bit number at `off`, least significant byte first.
pub open spec fn signed_at(report: Seq<u8>, off: int) -> int {
    let raw = report[off] + 256 * report[off + 1];
    if raw < 32768 {
        raw
    } else {
        raw - 65536
    }
}

/// The signed 8-bit number at `off`.
pub open spec fn signed_byte_at(report: Seq<u8>, off: int) -> int {
    if report[off] < 128 {
        report[off] as int
    } else {
        report[off] - 256
    }
}

/// Behind the whole bytes of the buttons stand the axes, two bytes each: what
/// reads back for each is the value that the state holds under the name of
/// that axis, cut to what 16 bits hold symmetrically, or 0 where it holds none.
pub proof fn law_axis_is_reported(
    buttons: u8,
    axes: Seq<GamepadAxis>,
    hat: bool,
    state: GamepadView,
    i: int,
)
    requires
        0 <= i < axes.len(),
    ensures
        ({
            let name = match axes[i] {
                GamepadAxis::X => seq!['x'],
                GamepadAxis::Y => seq!['y'],
                GamepadAxis::Z => seq!['z'],
                GamepadAxis::Rx => seq!['r', 'x'],
                GamepadAxis::Ry => seq!['r', 'y'],
            };
            signed_at(gamepad_report(buttons, axes, hat, state), (buttons + 7) / 8 + 2 * i) == (
            if !state.axes.contains_key(name) {
                0
            } else if state.axes[name] < -32767 {
                -32767
            } else if state.axes[name] > 32767 {
                32767
            } else {
                state.axes[name] as int
            })
        }),
{
    law_axis_reads_back(buttons, axes, hat, state, i);
}

/// The hat takes the low four bits of the byte behind the axes.
pub proof fn law_hat_is_reported(
    buttons: u8,
    axes: Seq<GamepadAxis>,
    hat: bool,
    state: GamepadView,
)
    ensures
        gamepad_report(buttons, axes, hat, state).len() == (buttons + 7) / 8 + 2 * axes.len() + if hat {
            1int
        } else {
            0
        },
        hat ==> gamepad_report(buttons, axes, hat, state)[(buttons + 7) / 8 + 2 * axes.len()]
            == state.hat % 16,
{
    lemma_axis_area_len(state.axes, axes);
}

/// The bits that fill the last byte of the buttons are clear.
pub proof fn law_fill_bits_are_clear(
    buttons: u8,
    axes: Seq<GamepadAxis>,
    hat: bool,
    state: GamepadView,
    i: int,
)
    requires
        buttons <= i < 8 * ((buttons + 7) / 8),
    ensures
        !bit_of(gamepad_report(buttons, axes, hat, state)[i / 8], i % 8),
{
    let k = i / 8;
    let b = gamepad_report(buttons, axes, hat, state)[k];
    assert(i == 8 * k + i % 8);
    assert(b == button_byte(state.buttons, buttons as int, k));
    let n = buttons as int;
    let s = state.buttons;
    lemma_byte_bits(
        pressed_bit(s, n, 8 * k),
        pressed_bit(s, n, 8 * k + 1),
        pressed_bit(s, n, 8 * k + 2),
        pressed_bit(s, n, 8 * k + 3),
        pressed_bit(s, n, 8 * k + 4),
        pressed_bit(s, n, 8 * k + 5),
        pressed_bit(s, n, 8 * k + 6),
        pressed_bit(s, n, 8 * k + 7),
        b,
    );
}

/// A keyboard report holds the modifiers, a zero byte, and the first six keys
/// in order, with zeros where there are fewer.
pub proof fn law_keys_are_reported(modifiers: u8, keys: Seq<u8>)
    ensures
        ({
            let report = keyboard_report(modifiers, keys);
            &&& report.len() == 8
            &&& report[0] == modifiers
            &&& report[1] == 0
            &&& forall|i: int|
                0 <= i < 6 ==> #[trigger] report[2 + i] == (if i < keys.len() {
                    keys[i]
                } else {
                    0
                })
        }),
{
    let report = keyboard_report(modifiers, keys);
    assert forall|i: int| 0 <= i < 6 implies #[trigger] report[2 + i] == (if i < keys.len() {
        keys[i]
    } else {
        0
    }) by {}
}

/// A mouse report holds the buttons, the two moves and the wheel, each move
/// read back as it was given and cut to -127 and 127.
pub proof fn law_moves_are_reported(state: MouseState)
    ensures
        ({
            let report = mouse_report(state);
            &&& report.len() == 4
            &&& report[0] == state.buttons
            &&& -127 <= state.x <= 127 ==> signed_byte_at(report, 1) == state.x
            &&& state.x > 127 ==> signed_byte_at(report, 1) == 127
            &&& state.x < -127 ==> signed_byte_at(report, 1) == -127
            &&& -127 <= state.y <= 127 ==> signed_byte_at(report, 2) == state.y
            &&& state.y > 127 ==> signed_byte_at(report, 2) == 127
            &&& state.y < -127 ==> signed_byte_at(report, 2) == -127
            &&& -127 <= state.wheel <= 127 ==> signed_byte_at(report, 3) == state.wheel
            &&& state.wheel > 127 ==> signed_byte_at(report, 3) == 127
            &&& state.wheel < -127 ==> signed_byte_at(report, 3) == -127
        }),
{
}

} // verus!
