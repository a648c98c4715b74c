//! What a report descriptor declares, read item by item.

use vstd::prelude::*;

use crate::layout;
use crate::layout::{GamepadAxis, ReportLayout};

verus! {

/// Data bytes that follow a short item's prefix.
pub open spec fn item_size(prefix: u8) -> int {
    if prefix % 4 == 3 {
        4
    } else {
        (prefix % 4) as int
    }
}

/// The unsigned number in little-endian `data`.
pub open spec fn item_value(data: Seq<u8>) -> nat
    decreases data.len(),
{
    if data.len() == 0 {
        0
    } else {
        data[0] as nat + 256 * item_value(data.drop_first())
    }
}

/// The bits of the input report that `rd` declares, where `size` and `count`
/// are the report size and report count in force.
pub open spec fn input_bits(rd: Seq<u8>, size: nat, count: nat) -> nat
    decreases rd.len(),
{
    if rd.len() == 0 || rd.len() <= item_size(rd[0]) {
        0
    } else {
        let data = rd.subrange(1, 1 + item_size(rd[0]));
        let rest = rd.skip(1 + item_size(rd[0]));
        let tag = rd[0] / 4;
        if tag == 0x74u8 / 4 {
            input_bits(rest, item_value(data), count)
        } else if tag == 0x94u8 / 4 {
            input_bits(rest, size, item_value(data))
        } else if tag == 0x80u8 / 4 {
            size * count + input_bits(rest, size, count)
        } else {
            input_bits(rest, size, count)
        }
    }
}

proof fn lemma_item(p: u8, v: u8, rest: Seq<u8>, size: nat, count: nat)
    requires
        p % 4 == 1,
    ensures
        input_bits(seq![p, v] + rest, size, count) == if p == 0x75 {
            input_bits(rest, v as nat, count)
        } else if p == 0x95 {
            input_bits(rest, size, v as nat)
        } else if p == 0x81 {
            size * count + input_bits(rest, size, count)
        } else {
            input_bits(rest, size, count)
        },
{
    let rd = seq![p, v] + rest;
    let data = rd.subrange(1, 2);
    assert(rd.skip(2) =~= rest);
    assert(data =~= seq![v]);
    assert(data.drop_first() =~= Seq::<u8>::empty());
    assert(item_value(data) == v) by {
        reveal_with_fuel(item_value, 2);
    }
}

proof fn lemma_wide_item(p: u8, v: u8, w: u8, rest: Seq<u8>, size: nat, count: nat)
    requires
        p == 0x16 || p == 0x26 || p == 0x46,
    ensures
        input_bits(seq![p, v, w] + rest, size, count) == input_bits(rest, size, count),
{
    let rd = seq![p, v, w] + rest;
    assert(rd.skip(3) =~= rest);
}

proof fn lemma_end(size: nat, count: nat)
    ensures
        input_bits(seq![0xC0u8], size, count) == 0,
{
    assert(seq![0xC0u8].skip(1) =~= Seq::<u8>::empty());
    reveal_with_fuel(input_bits, 2);
}

proof fn lemma_usages(axes: Seq<GamepadAxis>, rest: Seq<u8>, size: nat, count: nat)
    ensures
        input_bits(layout::usage_items(axes) + rest, size, count) == input_bits(rest, size, count),
    decreases axes.len(),
{
    if axes.len() == 0 {
        assert(layout::usage_items(axes) + rest =~= rest);
    } else {
        let usage = axes.last().spec_usage();
        lemma_item(0x09, usage, rest, size, count);
        lemma_usages(axes.drop_last(), seq![0x09u8, usage] + rest, size, count);
        assert(layout::usage_items(axes) + rest =~= layout::usage_items(axes.drop_last()) + (seq![
            0x09u8, usage,
        ] + rest));
    }
}

/// Cuts `rd` into its first one-byte item and the rest, and reads the item.
proof fn lemma_step(rd: Seq<u8>, size: nat, count: nat) -> (rest: Seq<u8>)
    requires
        rd.len() >= 2,
        rd[0] % 4 == 1,
    ensures
        rest == rd.skip(2),
        input_bits(rd, size, count) == if rd[0] == 0x75 {
            input_bits(rest, rd[1] as nat, count)
        } else if rd[0] == 0x95 {
            input_bits(rest, size, rd[1] as nat)
        } else if rd[0] == 0x81 {
            size * count + input_bits(rest, size, count)
        } else {
            input_bits(rest, size, count)
        },
{
    let rest = rd.skip(2);
    assert(rd =~= seq![rd[0], rd[1]] + rest);
    lemma_item(rd[0], rd[1], rest, size, count);
    rest
}

proof fn lemma_buttons(buttons: u8, rest: Seq<u8>, size: nat, count: nat)
    ensures
        exists|s: nat, c: nat|
            input_bits(layout::button_items(buttons) + rest, size, count) == 8
                * layout::button_bytes(buttons) + #[trigger] input_bits(rest, s, c),
{
    let pad = layout::pad_bits(buttons);
    let tail = if pad > 0 {
        seq![0x75u8, pad as u8, 0x95, 0x01, 0x81, 0x03]
    } else {
        Seq::empty()
    };
    let r0 = layout::button_items(buttons) + rest;
    let r1 = lemma_step(r0, size, count);
    let r2 = lemma_step(r1, size, count);
    let r3 = lemma_step(r2, size, count);
    let r4 = lemma_step(r3, size, count);
    let r5 = lemma_step(r4, size, count);
    let r6 = lemma_step(r5, size, count);
    let r7 = lemma_step(r6, 1, count);
    let r8 = lemma_step(r7, 1, buttons as nat);
    assert(1 * (buttons as nat) == buttons);
    assert(input_bits(r0, size, count) == buttons + input_bits(r8, 1, buttons as nat));
    assert(r8 =~= tail + rest);
    if pad > 0 {
        let q1 = lemma_step(r8, 1, buttons as nat);
        let q2 = lemma_step(q1, pad as nat, buttons as nat);
        let q3 = lemma_step(q2, pad as nat, 1);
        assert(q3 =~= rest);
        assert((pad as nat) * 1 == pad);
        assert(input_bits(r0, size, count) == 8 * layout::button_bytes(buttons) + input_bits(
            rest,
            pad as nat,
            1,
        ));
    } else {
        assert(r8 =~= rest);
        assert(input_bits(r0, size, count) == 8 * layout::button_bytes(buttons) + input_bits(
            rest,
            1,
            buttons as nat,
        ));
    }
}

proof fn lemma_axes(axes: Seq<GamepadAxis>, rest: Seq<u8>, size: nat, count: nat)
    requires
        axes.len() < 256,
    ensures
        input_bits(layout::axis_items(axes) + rest, size, count) == 16 * axes.len() + input_bits(
            rest,
            16,
            axes.len(),
        ),
{
    let n = axes.len() as u8;
    let last = seq![
        0x16u8, 0x01, 0x80, 0x26, 0xFF, 0x7F, 0x75, 0x10, 0x95, n, 0x81, 0x02,
    ];
    let r0 = layout::axis_items(axes) + rest;
    let r1 = lemma_step(r0, size, count);
    assert(r1 =~= layout::usage_items(axes) + (last + rest));
    lemma_usages(axes, last + rest, size, count);
    let r2 = last.skip(3) + rest;
    assert(last + rest =~= seq![0x16u8, 0x01, 0x80] + r2);
    lemma_wide_item(0x16, 0x01, 0x80, r2, size, count);
    let r3 = last.skip(6) + rest;
    assert(r2 =~= seq![0x26u8, 0xFF, 0x7F] + r3);
    lemma_wide_item(0x26, 0xFF, 0x7F, r3, size, count);
    let r4 = lemma_step(r3, size, count);
    let r5 = lemma_step(r4, 16, count);
    let r6 = lemma_step(r5, 16, n as nat);
    assert(r6 =~= rest);
    assert(16 * (n as nat) == 16 * axes.len());
}

proof fn lemma_hat(rest: Seq<u8>, size: nat, count: nat)
    ensures
        input_bits(layout::hat_items() + rest, size, count) == 8 + input_bits(rest, 4, 1),
{
    let items = layout::hat_items();
    let r0 = items + rest;
    let r1 = lemma_step(r0, size, count);
    let r2 = lemma_step(r1, size, count);
    let r3 = lemma_step(r2, size, count);
    let r4 = lemma_step(r3, size, count);
    let r5 = items.skip(11) + rest;
    assert(r4 =~= seq![0x46u8, 0x3B, 0x01] + r5);
    lemma_wide_item(0x46, 0x3B, 0x01, r5, size, count);
    let r6 = lemma_step(r5, size, count);
    let r7 = lemma_step(r6, size, count);
    let r8 = lemma_step(r7, 4, count);
    let r9 = lemma_step(r8, 4, 1);
    let r10 = lemma_step(r9, 4, 1);
    let r11 = lemma_step(r10, 4, 1);
    let r12 = lemma_step(r11, 4, 1);
    assert(r12 =~= rest);
    assert(4nat * 1nat == 4);
}

/// The descriptor of a gamepad declares exactly the bits of its reports.
pub proof fn law_gamepad_descriptor_matches_reports(buttons: u8, axes: Vec<GamepadAxis>, hat: bool)
    requires
        axes@.len() < 256,
    ensures
        input_bits(layout::gamepad_bytes(buttons, axes@, hat), 0, 0) == 8
            * (ReportLayout::Gamepad { buttons, axes, hat }).spec_report_len(),
{
    let rd = layout::gamepad_bytes(buttons, axes@, hat);
    let end = seq![0xC0u8];
    let hats = (if hat {
        layout::hat_items()
    } else {
        Seq::empty()
    }) + end;
    let tail = layout::axis_items(axes@) + hats;
    let r1 = lemma_step(rd, 0, 0);
    let r2 = lemma_step(r1, 0, 0);
    let r3 = lemma_step(r2, 0, 0);
    assert(r3 =~= layout::button_items(buttons) + tail);
    lemma_buttons(buttons, tail, 0, 0);
    let (s, c) = choose|s: nat, c: nat|
        input_bits(layout::button_items(buttons) + tail, 0, 0) == 8 * layout::button_bytes(buttons)
            + #[trigger] input_bits(tail, s, c);
    lemma_axes(axes@, hats, s, c);
    if hat {
        lemma_hat(end, 16, axes@.len());
        lemma_end(4, 1);
    } else {
        assert(hats =~= end);
        lemma_end(16, axes@.len());
    }
}

/// The keyboard descriptor declares exactly the bits of a keyboard report.
pub proof fn law_keyboard_descriptor_matches_reports()
    ensures
        input_bits(layout::keyboard_bytes(), 0, 0) == 8 * ReportLayout::Keyboard.spec_report_len(),
{
    let r0 = layout::keyboard_bytes();
    let r1 = lemma_step(r0, 0, 0);
    let r2 = lemma_step(r1, 0, 0);
    let r3 = lemma_step(r2, 0, 0);
    let r4 = lemma_step(r3, 0, 0);
    let r5 = lemma_step(r4, 0, 0);
    let r6 = lemma_step(r5, 0, 0);
    let r7 = lemma_step(r6, 0, 0);
    let r8 = lemma_step(r7, 0, 0);
    let r9 = lemma_step(r8, 0, 0);
    let r10 = lemma_step(r9, 1, 0);
    let r11 = lemma_step(r10, 1, 8);
    assert(input_bits(r0, 0, 0) == 8 + input_bits(r11, 1, 8));
    let r12 = lemma_step(r11, 1, 8);
    let r13 = lemma_step(r12, 1, 1);
    let r14 = lemma_step(r13, 8, 1);
    assert(input_bits(r0, 0, 0) == 16 + input_bits(r14, 8, 1));
    let r15 = lemma_step(r14, 8, 1);
    let r16 = lemma_step(r15, 8, 5);
    let r17 = lemma_step(r16, 1, 5);
    let r18 = lemma_step(r17, 1, 5);
    let r19 = lemma_step(r18, 1, 5);
    let r20 = lemma_step(r19, 1, 5);
    let r21 = lemma_step(r20, 1, 5);
    let r22 = lemma_step(r21, 1, 1);
    let r23 = lemma_step(r22, 3, 1);
    let r24 = lemma_step(r23, 3, 1);
    let r25 = lemma_step(r24, 3, 6);
    let r26 = lemma_step(r25, 8, 6);
    let r27 = lemma_step(r26, 8, 6);
    let r28 = lemma_step(r27, 8, 6);
    let r29 = lemma_step(r28, 8, 6);
    let r30 = lemma_step(r29, 8, 6);
    let r31 = lemma_step(r30, 8, 6);
    assert(r31 =~= seq![0xC0u8]);
    lemma_end(8, 6);
    assert(input_bits(r0, 0, 0) == 64);
}

} // verus!
