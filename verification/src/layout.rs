//! Report descriptors and the report layouts that go with them.

use vstd::prelude::*;

use crate::error::UhidError;
use crate::text::{chars_of, lower};

verus! {

/// A gamepad axis, with its HID usage and its name.
#[derive(Debug, Clone, Copy, PartialEq, Eq, Structural)]
pub enum GamepadAxis {
    X,
    Y,
    Z,
    Rx,
    Ry,
}

/// The axis with this name, in any case of letters.
pub open spec fn axis_named(name: Seq<char>) -> Option<GamepadAxis> {
    let low = crate::text::ascii_lower(name);
    if low == GamepadAxis::X.spec_name() {
        Some(GamepadAxis::X)
    } else if low == GamepadAxis::Y.spec_name() {
        Some(GamepadAxis::Y)
    } else if low == GamepadAxis::Z.spec_name() {
        Some(GamepadAxis::Z)
    } else if low == GamepadAxis::Rx.spec_name() {
        Some(GamepadAxis::Rx)
    } else if low == GamepadAxis::Ry.spec_name() {
        Some(GamepadAxis::Ry)
    } else {
        None
    }
}

impl GamepadAxis {
    /// The text that stands for the axis.
    pub open spec fn spec_name(self) -> Seq<char> {
        match self {
            GamepadAxis::X => seq!['x'],
            GamepadAxis::Y => seq!['y'],
            GamepadAxis::Z => seq!['z'],
            GamepadAxis::Rx => seq!['r', 'x'],
            GamepadAxis::Ry => seq!['r', 'y'],
        }
    }

    /// The HID usage on the generic desktop page.
    pub open spec fn spec_usage(self) -> u8 {
        match self {
            GamepadAxis::X => 0x30,
            GamepadAxis::Y => 0x31,
            GamepadAxis::Z => 0x32,
            GamepadAxis::Rx => 0x33,
            GamepadAxis::Ry => 0x34,
        }
    }

    /// Stable key of the axis in a state map.
    pub fn name(self) -> (r: &'static str)
        ensures
            r@ == self.spec_name(),
    {
        proof {
            reveal_strlit("x");
            reveal_strlit("y");
            reveal_strlit("z");
            reveal_strlit("rx");
            reveal_strlit("ry");
            assert("x"@ =~= seq!['x']);
            assert("y"@ =~= seq!['y']);
            assert("z"@ =~= seq!['z']);
            assert("rx"@ =~= seq!['r', 'x']);
            assert("ry"@ =~= seq!['r', 'y']);
        }
        match self {
            GamepadAxis::X => "x",
            GamepadAxis::Y => "y",
            GamepadAxis::Z => "z",
            GamepadAxis::Rx => "rx",
            GamepadAxis::Ry => "ry",
        }
    }

    /// The HID usage on the generic desktop page.
    pub fn usage(self) -> (r: u8)
        ensures
            r == self.spec_usage(),
    {
        match self {
            GamepadAxis::X => 0x30,
            GamepadAxis::Y => 0x31,
            GamepadAxis::Z => 0x32,
            GamepadAxis::Rx => 0x33,
            GamepadAxis::Ry => 0x34,
        }
    }

    /// The axis with this name, in any case of letters.
    pub fn from_name(name: &str) -> (r: Option<Self>)
        ensures
            r == axis_named(name@),
    {
        let chars = chars_of(name);
        let ghost low = crate::text::ascii_lower(name@);
        if chars.len() == 1 {
            let c = lower(chars[0]);
            assert(low =~= seq![c]);
            assert(low[0] == c);
            if c == 'x' {
                return Some(GamepadAxis::X);
            }
            if c == 'y' {
                return Some(GamepadAxis::Y);
            }
            if c == 'z' {
                return Some(GamepadAxis::Z);
            }
        } else if chars.len() == 2 {
            let a = lower(chars[0]);
            let b = lower(chars[1]);
            assert(low =~= seq![a, b]);
            assert(low[0] == a && low[1] == b);
            if a == 'r' && b == 'x' {
                return Some(GamepadAxis::Rx);
            }
            if a == 'r' && b == 'y' {
                return Some(GamepadAxis::Ry);
            }
        }
        proof {
            assert(low.len() == chars@.len());
            lemma_axis_letters();
        }
        None
    }
}

proof fn lemma_axis_letters()
    ensures
        GamepadAxis::X.spec_name().len() == 1 && GamepadAxis::X.spec_name()[0] == 'x',
        GamepadAxis::Y.spec_name().len() == 1 && GamepadAxis::Y.spec_name()[0] == 'y',
        GamepadAxis::Z.spec_name().len() == 1 && GamepadAxis::Z.spec_name()[0] == 'z',
        GamepadAxis::Rx.spec_name().len() == 2 && GamepadAxis::Rx.spec_name()[0] == 'r'
            && GamepadAxis::Rx.spec_name()[1] == 'x',
        GamepadAxis::Ry.spec_name().len() == 2 && GamepadAxis::Ry.spec_name()[0] == 'r'
            && GamepadAxis::Ry.spec_name()[1] == 'y',
{
}

/// Axis names tell the axes apart.
pub proof fn law_axis_names_distinct(a: GamepadAxis, b: GamepadAxis)
    requires
        a.spec_name() == b.spec_name(),
    ensures
        a == b,
{
    lemma_axis_letters();
    let m = a.spec_name();
    let n = b.spec_name();
    assert(m.len() == n.len() && m[0] == n[0] && m[m.len() - 1] == n[n.len() - 1]);
    assert(a is X || a is Y || a is Z || a is Rx || a is Ry);
    assert(b is X || b is Y || b is Z || b is Rx || b is Ry);
}

/// An axis is found by its own name.
pub proof fn law_axis_found_by_name(a: GamepadAxis)
    ensures
        axis_named(a.spec_name()) == Some(a),
{
    lemma_axis_letters();
    assert(a is X || a is Y || a is Z || a is Rx || a is Ry);
    assert(crate::text::ascii_lower(a.spec_name()) =~= a.spec_name());
    if axis_named(a.spec_name()) is Some {
        law_axis_names_distinct(axis_named(a.spec_name())->0, a);
    }
}

/// How the reports of a device are laid out.
#[derive(Debug, Clone)]
pub enum ReportLayout {
    Gamepad { buttons: u8, axes: Vec<GamepadAxis>, hat: bool },
    Keyboard,
    Mouse,
}

pub const MAX_BUTTONS: u8 = 32;

pub const MAX_AXES: usize = 5;

/// Bytes that hold `buttons` bits.
pub open spec fn button_bytes(buttons: u8) -> int {
    (buttons + 7) / 8
}

impl ReportLayout {
    /// Whether the layout is one that `gamepad` can give, or a fixed one.
    pub open spec fn valid(self) -> bool {
        match self {
            ReportLayout::Gamepad { buttons, axes, hat } => 1 <= buttons <= MAX_BUTTONS && 1
                <= axes@.len() <= MAX_AXES,
            _ => true,
        }
    }

    /// Unnumbered report length in bytes.
    pub open spec fn spec_report_len(self) -> int {
        match self {
            ReportLayout::Gamepad { buttons, axes, hat } => axes@.len() * 2 + (if hat {
                1int
            } else {
                0
            }) + button_bytes(buttons),
            ReportLayout::Keyboard => 8,
            ReportLayout::Mouse => 4,
        }
    }

    /// A gamepad layout: 1 to 32 buttons and 1 to 5 axes, the buttons being
    /// looked at first.
    pub fn gamepad(buttons: u8, axes: Vec<GamepadAxis>, hat: bool) -> (r: Result<Self, UhidError>)
        ensures
            match r {
                Ok(layout) => layout.valid() && layout == (ReportLayout::Gamepad {
                    buttons,
                    axes,
                    hat,
                }),
                Err(e) => if buttons == 0 || buttons > MAX_BUTTONS {
                    e == UhidError::ButtonCount
                } else {
                    e == UhidError::AxisCount && (axes@.len() == 0 || axes@.len() > MAX_AXES)
                },
            },
    {
        if buttons == 0 || buttons > MAX_BUTTONS {
            return Err(UhidError::ButtonCount);
        }
        if axes.len() == 0 || axes.len() > MAX_AXES {
            return Err(UhidError::AxisCount);
        }
        Ok(ReportLayout::Gamepad { buttons, axes, hat })
    }

    /// Unnumbered report length in bytes.
    pub fn report_len(&self) -> (n: usize)
        requires
            self.spec_report_len() <= usize::MAX,
        ensures
            n == self.spec_report_len(),
    {
        match self {
            ReportLayout::Gamepad { buttons, axes, hat } => {
                let hat_bytes: usize = if *hat {
                    1
                } else {
                    0
                };
                axes.len() * 2 + hat_bytes + (*buttons as usize + 7) / 8
            },
            ReportLayout::Keyboard => 8,
            ReportLayout::Mouse => 4,
        }
    }
}

/// Canonical USB boot-protocol keyboard descriptor (63 bytes).
pub open spec fn keyboard_bytes() -> Seq<u8> {
    seq![
        0x05, 0x01, 0x09, 0x06, 0xA1, 0x01, 0x05, 0x07, 0x19, 0xE0, 0x29, 0xE7, 0x15, 0x00, 0x25,
        0x01, 0x75, 0x01, 0x95, 0x08, 0x81, 0x02, 0x95, 0x01, 0x75, 0x08, 0x81, 0x03, 0x95, 0x05,
        0x75, 0x01, 0x05, 0x08, 0x19, 0x01, 0x29, 0x05, 0x91, 0x02, 0x95, 0x01, 0x75, 0x03, 0x91,
        0x03, 0x95, 0x06, 0x75, 0x08, 0x15, 0x00, 0x25, 0x65, 0x05, 0x07, 0x19, 0x00, 0x29, 0x65,
        0x81, 0x00, 0xC0,
    ]
}

/// Canonical USB boot-protocol mouse descriptor (50 bytes).
pub open spec fn mouse_bytes() -> Seq<u8> {
    seq![
        0x05, 0x01, 0x09, 0x02, 0xA1, 0x01, 0x09, 0x01, 0xA1, 0x00, 0x05, 0x09, 0x19, 0x01, 0x29,
        0x03, 0x15, 0x00, 0x25, 0x01, 0x95, 0x03, 0x75, 0x01, 0x81, 0x02, 0x95, 0x01, 0x75, 0x05,
        0x81, 0x03, 0x05, 0x01, 0x09, 0x30, 0x09, 0x31, 0x15, 0x81, 0x25, 0x7F, 0x75, 0x08, 0x95,
        0x02, 0x81, 0x06, 0xC0, 0xC0,
    ]
}

/// Canonical USB boot-protocol keyboard descriptor (63 bytes).
pub fn keyboard_descriptor() -> (rd: Vec<u8>)
    ensures
        rd@ == keyboard_bytes(),
{
    let rd: Vec<u8> = vec![
        0x05, 0x01, 0x09, 0x06, 0xA1, 0x01, 0x05, 0x07, 0x19, 0xE0, 0x29, 0xE7, 0x15, 0x00, 0x25,
        0x01, 0x75, 0x01, 0x95, 0x08, 0x81, 0x02, 0x95, 0x01, 0x75, 0x08, 0x81, 0x03, 0x95, 0x05,
        0x75, 0x01, 0x05, 0x08, 0x19, 0x01, 0x29, 0x05, 0x91, 0x02, 0x95, 0x01, 0x75, 0x03, 0x91,
        0x03, 0x95, 0x06, 0x75, 0x08, 0x15, 0x00, 0x25, 0x65, 0x05, 0x07, 0x19, 0x00, 0x29, 0x65,
        0x81, 0x00, 0xC0,
    ];
    assert(rd@ =~= keyboard_bytes());
    rd
}

/// Canonical USB boot-protocol mouse descriptor (50 bytes).
pub fn mouse_descriptor() -> (rd: Vec<u8>)
    ensures
        rd@ == mouse_bytes(),
{
    let rd: Vec<u8> = vec![
        0x05, 0x01, 0x09, 0x02, 0xA1, 0x01, 0x09, 0x01, 0xA1, 0x00, 0x05, 0x09, 0x19, 0x01, 0x29,
        0x03, 0x15, 0x00, 0x25, 0x01, 0x95, 0x03, 0x75, 0x01, 0x81, 0x02, 0x95, 0x01, 0x75, 0x05,
        0x81, 0x03, 0x05, 0x01, 0x09, 0x30, 0x09, 0x31, 0x15, 0x81, 0x25, 0x7F, 0x75, 0x08, 0x95,
        0x02, 0x81, 0x06, 0xC0, 0xC0,
    ];
    assert(rd@ =~= mouse_bytes());
    rd
}

/// One usage item for each axis.
pub open spec fn usage_items(axes: Seq<GamepadAxis>) -> Seq<u8>
    decreases axes.len(),
{
    if axes.len() == 0 {
        Seq::empty()
    } else {
        usage_items(axes.drop_last()) + seq![0x09u8, axes.last().spec_usage()]
    }
}

/// Bits that fill the last button byte.
pub open spec fn pad_bits(buttons: u8) -> int {
    (8 - buttons % 8) % 8
}

/// The buttons of a gamepad descriptor, filled up to whole bytes.
pub open spec fn button_items(buttons: u8) -> Seq<u8> {
    seq![
        0x05u8, 0x09, 0x19, 0x01, 0x29, buttons, 0x15, 0x00, 0x25, 0x01, 0x75, 0x01, 0x95, buttons,
        0x81, 0x02,
    ] + if pad_bits(buttons) > 0 {
        seq![0x75u8, pad_bits(buttons) as u8, 0x95, 0x01, 0x81, 0x03]
    } else {
        Seq::empty()
    }
}

/// The axes of a gamepad descriptor: signed, 16 bits each.
pub open spec fn axis_items(axes: Seq<GamepadAxis>) -> Seq<u8> {
    seq![0x05u8, 0x01] + usage_items(axes) + seq![
        0x16u8, 0x01, 0x80, 0x26, 0xFF, 0x7F, 0x75, 0x10, 0x95, (axes.len() % 256) as u8, 0x81,
        0x02,
    ]
}

/// The hat of a gamepad descriptor: four bits and as many to fill the byte.
pub open spec fn hat_items() -> Seq<u8> {
    seq![
        0x09u8, 0x39, 0x15, 0x01, 0x25, 0x08, 0x35, 0x00, 0x46, 0x3B, 0x01, 0x65, 0x14, 0x75, 0x04,
        0x95, 0x01, 0x81, 0x42, 0x75, 0x04, 0x95, 0x01, 0x81, 0x03,
    ]
}

/// A gamepad descriptor: buttons, axes and, where there is one, the hat.
pub open spec fn gamepad_bytes(buttons: u8, axes: Seq<GamepadAxis>, hat: bool) -> Seq<u8> {
    seq![0x05u8, 0x01, 0x09, 0x04, 0xA1, 0x01] + button_items(buttons) + axis_items(axes) + (
    if hat {
        hat_items()
    } else {
        Seq::empty()
    }) + seq![0xC0u8]
}

/// Appends `tail` to `rd`.
fn extend(rd: &mut Vec<u8>, tail: &[u8])
    ensures
        final(rd)@ == old(rd)@ + tail@,
{
    rd.extend_from_slice(tail);
    assert(rd@ =~= old(rd)@ + tail@);
}

/// Builds a gamepad descriptor: N buttons, signed 16-bit axes, optional hat.
pub fn gamepad_descriptor(buttons: u8, axes: &[GamepadAxis], hat: bool) -> (rd: Vec<u8>)
    ensures
        rd@ == gamepad_bytes(buttons, axes@, hat),
{
    let mut rd: Vec<u8> = vec![0x05, 0x01, 0x09, 0x04, 0xA1, 0x01];
    let ghost head = rd@;
    extend(&mut rd, &[0x05, 0x09, 0x19, 0x01, 0x29, buttons, 0x15, 0x00, 0x25, 0x01]);
    extend(&mut rd, &[0x75, 0x01, 0x95, buttons, 0x81, 0x02]);
    let pad = (8 - buttons % 8) % 8;
    if pad > 0 {
        extend(&mut rd, &[0x75, pad, 0x95, 0x01, 0x81, 0x03]);
    }
    assert(rd@ =~= head + button_items(buttons));
    let ghost with_buttons = rd@;
    extend(&mut rd, &[0x05, 0x01]);
    let ghost before_usages = rd@;
    let mut i: usize = 0;
    assert(before_usages + usage_items(axes@.take(0)) =~= rd@);
    while i < axes.len()
        invariant
            i <= axes@.len(),
            rd@ == before_usages + usage_items(axes@.take(i as int)),
        decreases axes@.len() - i,
    {
        extend(&mut rd, &[0x09, axes[i].usage()]);
        assert(axes@.take(i + 1).drop_last() =~= axes@.take(i as int));
        assert(rd@ =~= before_usages + usage_items(axes@.take(i + 1)));
        i += 1;
    }
    assert(axes@.take(i as int) =~= axes@);
    extend(&mut rd, &[0x16, 0x01, 0x80, 0x26, 0xFF, 0x7F, 0x75, 0x10]);
    let n = axes.len();
    let count = (n % 256) as u8;
    extend(&mut rd, &[0x95, count, 0x81, 0x02]);
    assert(rd@ =~= with_buttons + axis_items(axes@));
    if hat {
        extend(
            &mut rd,
            &[
                0x09, 0x39, 0x15, 0x01, 0x25, 0x08, 0x35, 0x00, 0x46, 0x3B, 0x01, 0x65, 0x14, 0x75,
                0x04, 0x95, 0x01, 0x81, 0x42, 0x75, 0x04, 0x95, 0x01, 0x81, 0x03,
            ],
        );
    }
    rd.push(0xC0);
    assert(rd@ =~= gamepad_bytes(buttons, axes@, hat));
    rd
}

} // verus!
