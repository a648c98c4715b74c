//! The fields that a report descriptor declares: what a host makes of it.

use vstd::prelude::*;

use crate::hid;
use crate::layout;
use crate::layout::GamepadAxis;

verus! {

/// One field of a report. A field is an input or an output of the device; its
/// flags are the data of its main item, where an odd number means that it is
/// constant and only fills the report.
#[verifier::ext_equal]
pub struct ReportField {
    pub output: bool,
    pub flags: nat,
    /// The first bit of the field in its report.
    pub at: nat,
    /// The bits of each of its values.
    pub size: nat,
    /// The number of its values.
    pub count: nat,
    pub page: nat,
    pub usages: Seq<nat>,
    pub usage_min: nat,
    pub usage_max: nat,
    pub logical_min: int,
    pub logical_max: int,
    pub physical_min: int,
    pub physical_max: int,
    pub unit: nat,
    /// The collections that it stands in, outermost first: kind, page, usage.
    pub path: Seq<(nat, nat, nat)>,
}

/// What the items read so far say of the next field.
#[verifier::ext_equal]
pub struct Items {
    pub page: nat,
    pub usages: Seq<nat>,
    pub usage_min: nat,
    pub usage_max: nat,
    pub logical_min: int,
    pub logical_max: int,
    pub physical_min: int,
    pub physical_max: int,
    pub unit: nat,
    pub size: nat,
    pub count: nat,
    pub path: Seq<(nat, nat, nat)>,
    pub input_at: nat,
    pub output_at: nat,
}

/// Before the first item.
pub open spec fn no_items() -> Items {
    Items {
        page: 0,
        usages: Seq::empty(),
        usage_min: 0,
        usage_max: 0,
        logical_min: 0,
        logical_max: 0,
        physical_min: 0,
        physical_max: 0,
        unit: 0,
        size: 0,
        count: 0,
        path: Seq::empty(),
        input_at: 0,
        output_at: 0,
    }
}

/// The number that `v` stands for in two's complement of `size` bytes.
pub open spec fn as_signed(v: nat, size: int) -> int {
    if size == 1 && v >= 0x80 {
        v - 0x100
    } else if size == 2 && v >= 0x8000 {
        v - 0x1_0000
    } else if size == 4 && v >= 0x8000_0000 {
        v - 0x1_0000_0000
    } else {
        v as int
    }
}

/// `st` without what was said of one field alone.
pub open spec fn fresh(st: Items) -> Items {
    Items { usages: Seq::empty(), usage_min: 0, usage_max: 0, ..st }
}

/// `st` after an item with the value `v` in `size` bytes; `tag` is its prefix
/// without the size.
pub open spec fn after_item(st: Items, tag: int, v: nat, size: int) -> Items {
    if tag == 0x04 {
        Items { page: v, ..st }
    } else if tag == 0x08 {
        Items { usages: st.usages.push(v), ..st }
    } else if tag == 0x14 {
        Items { logical_min: as_signed(v, size), ..st }
    } else if tag == 0x18 {
        Items { usage_min: v, ..st }
    } else if tag == 0x24 {
        Items { logical_max: as_signed(v, size), ..st }
    } else if tag == 0x28 {
        Items { usage_max: v, ..st }
    } else if tag == 0x34 {
        Items { physical_min: as_signed(v, size), ..st }
    } else if tag == 0x44 {
        Items { physical_max: as_signed(v, size), ..st }
    } else if tag == 0x64 {
        Items { unit: v, ..st }
    } else if tag == 0x74 {
        Items { size: v, ..st }
    } else if tag == 0x94 {
        Items { count: v, ..st }
    } else if tag == 0x80 {
        Items { input_at: st.input_at + st.size * st.count, ..fresh(st) }
    } else if tag == 0x90 {
        Items { output_at: st.output_at + st.size * st.count, ..fresh(st) }
    } else if tag == 0xA0 {
        Items {
            path: st.path.push(
                (
                    v,
                    st.page,
                    if st.usages.len() > 0 {
                        st.usages[0]
                    } else {
                        0
                    },
                ),
            ),
            ..fresh(st)
        }
    } else if tag == 0xC0 {
        Items { path: st.path.drop_last(), ..fresh(st) }
    } else {
        st
    }
}

/// The field that an input or output item with the flags `v` declares.
pub open spec fn field_of(st: Items, tag: int, v: nat) -> ReportField {
    ReportField {
        output: tag == 0x90,
        flags: v,
        at: if tag == 0x90 {
            st.output_at
        } else {
            st.input_at
        },
        size: st.size,
        count: st.count,
        page: st.page,
        usages: st.usages,
        usage_min: st.usage_min,
        usage_max: st.usage_max,
        logical_min: st.logical_min,
        logical_max: st.logical_max,
        physical_min: st.physical_min,
        physical_max: st.physical_max,
        unit: st.unit,
        path: st.path,
    }
}

/// The fields that `rd` declares where the items before it say `st`.
pub open spec fn fields(rd: Seq<u8>, st: Items) -> Seq<ReportField>
    decreases rd.len(),
{
    if rd.len() == 0 || rd.len() <= hid::item_size(rd[0]) {
        Seq::empty()
    } else {
        let size = hid::item_size(rd[0]);
        let v = hid::item_value(rd.subrange(1, 1 + size));
        let rest = rd.skip(1 + size);
        let tag = rd[0] - rd[0] % 4;
        let more = fields(rest, after_item(st, tag, v, size));
        if tag == 0x80 || tag == 0x90 {
            seq![field_of(st, tag, v)] + more
        } else {
            more
        }
    }
}

/// Reads one item with one byte of data.
proof fn lemma_item(rd: Seq<u8>, st: Items) -> (next: (Seq<u8>, Items))
    requires
        rd.len() >= 2,
        rd[0] % 4 == 1,
    ensures
        next.0 == rd.skip(2),
        next.1 == after_item(st, rd[0] - 1, rd[1] as nat, 1),
        fields(rd, st) == (if rd[0] == 0x81 || rd[0] == 0x91 {
            seq![field_of(st, rd[0] - 1, rd[1] as nat)] + fields(next.0, next.1)
        } else {
            fields(next.0, next.1)
        }),
{
    let data = rd.subrange(1, 2);
    assert(data =~= seq![rd[1]]);
    assert(data.drop_first() =~= Seq::<u8>::empty());
    reveal_with_fuel(hid::item_value, 2);
    assert(hid::item_value(data) == rd[1]);
    (rd.skip(2), after_item(st, rd[0] - 1, rd[1] as nat, 1))
}

/// Reads one item with two bytes of data that declares no field.
proof fn lemma_wide_item(rd: Seq<u8>, st: Items) -> (next: (Seq<u8>, Items))
    requires
        rd.len() >= 3,
        rd[0] % 4 == 2,
        rd[0] != 0x82 && rd[0] != 0x92,
    ensures
        next.0 == rd.skip(3),
        next.1 == after_item(st, rd[0] - 2, (rd[1] + 256 * rd[2]) as nat, 2),
        fields(rd, st) == fields(next.0, next.1),
{
    let data = rd.subrange(1, 3);
    assert(data =~= seq![rd[1], rd[2]]);
    assert(data.drop_first() =~= seq![rd[2]]);
    assert(data.drop_first().drop_first() =~= Seq::<u8>::empty());
    reveal_with_fuel(hid::item_value, 3);
    assert(hid::item_value(data) == rd[1] + 256 * rd[2]);
    (rd.skip(3), after_item(st, rd[0] - 2, (rd[1] + 256 * rd[2]) as nat, 2))
}

/// Reads the end of a collection.
proof fn lemma_end_item(rd: Seq<u8>, st: Items) -> (next: (Seq<u8>, Items))
    requires
        rd.len() >= 1,
        rd[0] == 0xC0,
    ensures
        next.0 == rd.skip(1),
        next.1 == after_item(st, 0xC0, 0, 0),
        fields(rd, st) == fields(next.0, next.1),
{
    let data = rd.subrange(1, 1);
    assert(data =~= Seq::<u8>::empty());
    (rd.skip(1), after_item(st, 0xC0, 0, 0))
}

proof fn lemma_no_more(st: Items)
    ensures
        fields(Seq::<u8>::empty(), st) == Seq::<ReportField>::empty(),
{
}

/// Whether `f` is an input that holds data, with so many values of so many
/// bits each from bit `at` on.
pub open spec fn is_data(f: ReportField, at: int, size: int, count: int) -> bool {
    !f.output && f.flags % 2 == 0 && f.at == at && f.size == size && f.count == count
}

/// Whether `f` is an input that only fills `size` bits from bit `at` on.
pub open spec fn is_fill(f: ReportField, at: int, size: int) -> bool {
    !f.output && f.flags % 2 == 1 && f.at == at && f.size * f.count == size
}

/// The keyboard descriptor declares, in one application collection for a
/// keyboard: eight modifier bits, a fill byte, and six key codes of a byte each
/// in the report to the host; five lamps and three fill bits in the report to
/// the keyboard.
pub proof fn law_keyboard_fields()
    ensures
        ({
            let fs = fields(layout::keyboard_bytes(), no_items());
            &&& fs.len() == 5
            &&& forall|i: int| 0 <= i < 5 ==> (#[trigger] fs[i]).path == seq![(1nat, 1nat, 6nat)]
            &&& is_data(fs[0], 0, 1, 8) && fs[0].flags == 2 && fs[0].page == 7
            &&& fs[0].usage_min == 0xE0 && fs[0].usage_max == 0xE7
            &&& fs[0].logical_min == 0 && fs[0].logical_max == 1
            &&& is_fill(fs[1], 8, 8)
            &&& fs[2].output && fs[2].flags == 2 && fs[2].page == 8 && fs[2].at == 0
            &&& fs[2].size == 1 && fs[2].count == 5
            &&& fs[2].usage_min == 1 && fs[2].usage_max == 5
            &&& fs[2].logical_min == 0 && fs[2].logical_max == 1
            &&& fs[3].output && fs[3].flags == 3 && fs[3].at == 5
            &&& fs[3].size == 3 && fs[3].count == 1
            &&& is_data(fs[4], 16, 8, 6) && fs[4].flags == 0 && fs[4].page == 7
            &&& fs[4].usage_min == 0 && fs[4].usage_max == 101
            &&& fs[4].logical_min == 0 && fs[4].logical_max == 101
        }),
{
    let k = layout::keyboard_bytes();
    let s = no_items();
    let (r, s) = lemma_item(k, s);
    let (r, s) = lemma_item(r, s);
    let (r, s) = lemma_item(r, s);
    let path = s.path;
    assert(path =~= seq![(1nat, 1nat, 6nat)]);
    let (r, s) = lemma_item(r, s);
    let (r, s) = lemma_item(r, s);
    let (r, s) = lemma_item(r, s);
    let (r, s) = lemma_item(r, s);
    let (r, s) = lemma_item(r, s);
    let (r, s) = lemma_item(r, s);
    let (r, s) = lemma_item(r, s);
    assert(s.path == path && s.page == 7 && s.usage_min == 0xE0 && s.usage_max == 0xE7);
    assert(s.logical_min == 0 && s.logical_max == 1 && s.size == 1 && s.count == 8);
    let f0 = field_of(s, 0x80, 2);
    let (r0, s0) = lemma_item(r, s);
    assert(fields(k, no_items()) == seq![f0] + fields(r0, s0));
    assert(1nat * 8nat == 8) by (nonlinear_arith);
    assert(s0.input_at == 8 && s0.output_at == 0);
    let (r, s) = lemma_item(r0, s0);
    let (r, s) = lemma_item(r, s);
    let f1 = field_of(s, 0x80, 3);
    let (r1, s1) = lemma_item(r, s);
    assert(fields(r0, s0) == seq![f1] + fields(r1, s1));
    assert(8nat * 1nat == 8) by (nonlinear_arith);
    assert(s1.input_at == 16 && s1.output_at == 0);
    let (r, s) = lemma_item(r1, s1);
    let (r, s) = lemma_item(r, s);
    let (r, s) = lemma_item(r, s);
    let (r, s) = lemma_item(r, s);
    let (r, s) = lemma_item(r, s);
    let f2 = field_of(s, 0x90, 2);
    let (r2, s2) = lemma_item(r, s);
    assert(fields(r1, s1) == seq![f2] + fields(r2, s2));
    assert(1nat * 5nat == 5) by (nonlinear_arith);
    assert(s2.input_at == 16 && s2.output_at == 5);
    let (r, s) = lemma_item(r2, s2);
    let (r, s) = lemma_item(r, s);
    let f3 = field_of(s, 0x90, 3);
    let (r3, s3) = lemma_item(r, s);
    assert(fields(r2, s2) == seq![f3] + fields(r3, s3));
    assert(s3.input_at == 16);
    let (r, s) = lemma_item(r3, s3);
    let (r, s) = lemma_item(r, s);
    let (r, s) = lemma_item(r, s);
    let (r, s) = lemma_item(r, s);
    let (r, s) = lemma_item(r, s);
    let (r, s) = lemma_item(r, s);
    let (r, s) = lemma_item(r, s);
    let f4 = field_of(s, 0x80, 0);
    let (r4, s4) = lemma_item(r, s);
    assert(fields(r3, s3) == seq![f4] + fields(r4, s4));
    let (r5, s5) = lemma_end_item(r4, s4);
    assert(r5 =~= Seq::<u8>::empty());
    lemma_no_more(s5);
    let fs = fields(k, no_items());
    assert(fs =~= seq![f0, f1, f2, f3, f4]);
    assert(f0.path == path && f1.path == path && f2.path == path && f3.path == path && f4.path
        == path);
}

/// The mouse descriptor declares, in a pointer inside a mouse: three button
/// bits, five fill bits, and two relative moves of a byte each, from -127 to
/// 127.
pub proof fn law_mouse_fields()
    ensures
        ({
            let fs = fields(layout::mouse_bytes(), no_items());
            &&& fs.len() == 3
            &&& forall|i: int|
                0 <= i < 3 ==> (#[trigger] fs[i]).path == seq![
                    (1nat, 1nat, 2nat),
                    (0nat, 1nat, 1nat),
                ]
            &&& is_data(fs[0], 0, 1, 3) && fs[0].flags == 2 && fs[0].page == 9
            &&& fs[0].usage_min == 1 && fs[0].usage_max == 3
            &&& fs[0].logical_min == 0 && fs[0].logical_max == 1
            &&& is_fill(fs[1], 3, 5)
            &&& is_data(fs[2], 8, 8, 2) && fs[2].flags == 6 && fs[2].page == 1
            &&& fs[2].usages == seq![0x30nat, 0x31nat]
            &&& fs[2].logical_min == -127 && fs[2].logical_max == 127
        }),
{
    let k = layout::mouse_bytes();
    let s = no_items();
    let (r, s) = lemma_item(k, s);
    let (r, s) = lemma_item(r, s);
    let (r, s) = lemma_item(r, s);
    let (r, s) = lemma_item(r, s);
    let (r, s) = lemma_item(r, s);
    let path = s.path;
    assert(path =~= seq![(1nat, 1nat, 2nat), (0nat, 1nat, 1nat)]);
    let (r, s) = lemma_item(r, s);
    let (r, s) = lemma_item(r, s);
    let (r, s) = lemma_item(r, s);
    let (r, s) = lemma_item(r, s);
    let (r, s) = lemma_item(r, s);
    let (r, s) = lemma_item(r, s);
    let (r, s) = lemma_item(r, s);
    let f0 = field_of(s, 0x80, 2);
    let (r0, s0) = lemma_item(r, s);
    assert(fields(k, no_items()) == seq![f0] + fields(r0, s0));
    assert(1nat * 3nat == 3) by (nonlinear_arith);
    assert(s0.input_at == 3);
    let (r, s) = lemma_item(r0, s0);
    let (r, s) = lemma_item(r, s);
    let f1 = field_of(s, 0x80, 3);
    let (r1, s1) = lemma_item(r, s);
    assert(fields(r0, s0) == seq![f1] + fields(r1, s1));
    assert(5nat * 1nat == 5) by (nonlinear_arith);
    assert(s1.input_at == 8);
    let (r, s) = lemma_item(r1, s1);
    let (r, s) = lemma_item(r, s);
    let (r, s) = lemma_item(r, s);
    assert(s.usages =~= seq![0x30nat, 0x31nat]);
    let (r, s) = lemma_item(r, s);
    let (r, s) = lemma_item(r, s);
    let (r, s) = lemma_item(r, s);
    let (r, s) = lemma_item(r, s);
    let f2 = field_of(s, 0x80, 6);
    let (r2, s2) = lemma_item(r, s);
    assert(fields(r1, s1) == seq![f2] + fields(r2, s2));
    let (r3, s3) = lemma_end_item(r2, s2);
    let (r4, s4) = lemma_end_item(r3, s3);
    assert(r4 =~= Seq::<u8>::empty());
    lemma_no_more(s4);
    assert(fields(k, no_items()) =~= seq![f0, f1, f2]);
    assert(f0.path == path && f1.path == path && f2.path == path);
}

/// The usage numbers of axes.
spec fn usage_numbers(axes: Seq<GamepadAxis>) -> Seq<nat> {
    axes.map_values(|a: GamepadAxis| a.spec_usage() as nat)
}

proof fn lemma_usages(axes: Seq<GamepadAxis>, rest: Seq<u8>, st: Items)
    ensures
        fields(layout::usage_items(axes) + rest, st) == fields(
            rest,
            Items { usages: st.usages + usage_numbers(axes), ..st },
        ),
    decreases axes.len(),
{
    if axes.len() == 0 {
        assert(layout::usage_items(axes) + rest =~= rest);
        assert(st.usages + usage_numbers(axes) =~= st.usages);
    } else {
        let front = axes.drop_last();
        let usage = axes.last().spec_usage();
        let tail = seq![0x09u8, usage] + rest;
        lemma_usages(front, tail, st);
        assert(layout::usage_items(axes) + rest =~= layout::usage_items(front) + tail);
        let mid = Items { usages: st.usages + usage_numbers(front), ..st };
        let (r, s) = lemma_item(tail, mid);
        assert(r =~= rest);
        assert(s.usages =~= st.usages + usage_numbers(axes));
    }
}

/// The field of the buttons without what fills their last byte.
proof fn lemma_button_field(buttons: u8, rest: Seq<u8>, st: Items) -> (r: (ReportField, Items))
    requires
        st.input_at == 0,
        st.usages.len() == 0,
    ensures
        fields(
            seq![
                0x05u8, 0x09, 0x19, 0x01, 0x29, buttons, 0x15, 0x00, 0x25, 0x01, 0x75, 0x01, 0x95,
                buttons, 0x81, 0x02,
            ] + rest,
            st,
        ) == seq![r.0] + fields(rest, r.1),
        r.1.path == st.path,
        r.1.usages.len() == 0,
        r.1.input_at == buttons,
        is_data(r.0, 0, 1, buttons as int),
        r.0.flags == 2,
        r.0.page == 9,
        r.0.usage_min == 1,
        r.0.usage_max == buttons,
        r.0.logical_min == 0,
        r.0.logical_max == 1,
        r.0.path == st.path,
{
    let rd = seq![
        0x05u8, 0x09, 0x19, 0x01, 0x29, buttons, 0x15, 0x00, 0x25, 0x01, 0x75, 0x01, 0x95, buttons,
        0x81, 0x02,
    ] + rest;
    let (q, s) = lemma_item(rd, st);
    let (q, s) = lemma_item(q, s);
    let (q, s) = lemma_item(q, s);
    let (q, s) = lemma_item(q, s);
    let (q, s) = lemma_item(q, s);
    let (q, s) = lemma_item(q, s);
    let (q, s) = lemma_item(q, s);
    let f = field_of(s, 0x80, 2);
    let (q, s) = lemma_item(q, s);
    assert(1 * (buttons as nat) == buttons) by (nonlinear_arith);
    assert(q =~= rest);
    (f, s)
}

/// A field that fills `pad` bits.
proof fn lemma_fill_field(pad: u8, rest: Seq<u8>, st: Items) -> (r: (ReportField, Items))
    ensures
        fields(seq![0x75u8, pad, 0x95, 0x01, 0x81, 0x03] + rest, st) == seq![r.0] + fields(
            rest,
            r.1,
        ),
        r.1.path == st.path,
        r.1.usages.len() == 0,
        r.1.input_at == st.input_at + pad,
        is_fill(r.0, st.input_at as int, pad as int),
        r.0.path == st.path,
{
    let rd = seq![0x75u8, pad, 0x95, 0x01, 0x81, 0x03] + rest;
    let (q, s) = lemma_item(rd, st);
    let (q, s) = lemma_item(q, s);
    let f = field_of(s, 0x80, 3);
    let (q, s) = lemma_item(q, s);
    assert((pad as nat) * 1 == pad) by (nonlinear_arith);
    assert(q =~= rest);
    (f, s)
}

/// The state behind the buttons, and the fields that they add.
proof fn lemma_button_fields(buttons: u8, rest: Seq<u8>, st: Items) -> (r: (
    Seq<ReportField>,
    Items,
))
    requires
        st.input_at == 0,
        st.usages.len() == 0,
    ensures
        fields(layout::button_items(buttons) + rest, st) == r.0 + fields(rest, r.1),
        r.1.path == st.path,
        r.1.usages.len() == 0,
        r.1.input_at == 8 * ((buttons + 7) / 8),
        r.0.len() == if buttons % 8 == 0 {
            1int
        } else {
            2
        },
        is_data(r.0[0], 0, 1, buttons as int),
        r.0[0].flags == 2,
        r.0[0].page == 9,
        r.0[0].usage_min == 1,
        r.0[0].usage_max == buttons,
        r.0[0].logical_min == 0,
        r.0[0].logical_max == 1,
        r.0[0].path == st.path,
        buttons % 8 != 0 ==> is_fill(r.0[1], buttons as int, 8 - buttons % 8) && r.0[1].path
            == st.path,
{
    let head = seq![
        0x05u8, 0x09, 0x19, 0x01, 0x29, buttons, 0x15, 0x00, 0x25, 0x01, 0x75, 0x01, 0x95, buttons,
        0x81, 0x02,
    ];
    if buttons % 8 == 0 {
        let (f0, s0) = lemma_button_field(buttons, rest, st);
        assert(layout::button_items(buttons) + rest =~= head + rest);
        (seq![f0], s0)
    } else {
        let pad = (8 - buttons % 8) as u8;
        let tail = seq![0x75u8, pad, 0x95, 0x01, 0x81, 0x03] + rest;
        let (f0, s0) = lemma_button_field(buttons, tail, st);
        let (f1, s1) = lemma_fill_field(pad, rest, s0);
        assert(layout::button_items(buttons) + rest =~= head + tail);
        assert(seq![f0] + (seq![f1] + fields(rest, s1)) =~= seq![f0, f1] + fields(rest, s1));
        (seq![f0, f1], s1)
    }
}

/// The field of the axes, and the state behind it.
proof fn lemma_axis_field(axes: Seq<GamepadAxis>, rest: Seq<u8>, st: Items) -> (r: (
    ReportField,
    Items,
))
    requires
        axes.len() < 256,
        st.usages.len() == 0,
    ensures
        fields(layout::axis_items(axes) + rest, st) == seq![r.0] + fields(rest, r.1),
        r.1.path == st.path,
        r.1.usages.len() == 0,
        r.1.page == 1,
        r.1.input_at == st.input_at + 16 * axes.len(),
        is_data(r.0, st.input_at as int, 16, axes.len() as int),
        r.0.flags == 2,
        r.0.page == 1,
        r.0.usages == usage_numbers(axes),
        r.0.logical_min == -32767,
        r.0.logical_max == 32767,
        r.0.path == st.path,
{
    let n = axes.len() as u8;
    let last = seq![0x16u8, 0x01, 0x80, 0x26, 0xFF, 0x7F, 0x75, 0x10, 0x95, n, 0x81, 0x02];
    let rd = layout::axis_items(axes) + rest;
    let (q, s) = lemma_item(rd, st);
    assert(q =~= layout::usage_items(axes) + (last + rest));
    lemma_usages(axes, last + rest, s);
    let s = Items { usages: s.usages + usage_numbers(axes), ..s };
    assert(s.usages =~= usage_numbers(axes));
    let (q, s) = lemma_wide_item(last + rest, s);
    let (q, s) = lemma_wide_item(q, s);
    let (q, s) = lemma_item(q, s);
    let (q, s) = lemma_item(q, s);
    let f = field_of(s, 0x80, 2);
    let (q, s) = lemma_item(q, s);
    assert(q =~= rest);
    assert(16 * (n as nat) == 16 * axes.len());
    (f, s)
}

/// The two fields of the hat, and the state behind them.
proof fn lemma_hat_fields(rest: Seq<u8>, st: Items) -> (r: (ReportField, ReportField, Items))
    requires
        st.usages.len() == 0,
        st.page == 1,
    ensures
        fields(layout::hat_items() + rest, st) == seq![r.0, r.1] + fields(rest, r.2),
        is_data(r.0, st.input_at as int, 4, 1),
        r.0.flags == 0x42,
        r.0.page == 1,
        r.0.usages == seq![0x39nat],
        r.0.logical_min == 1,
        r.0.logical_max == 8,
        r.0.physical_min == 0,
        r.0.physical_max == 315,
        r.0.unit == 0x14,
        r.0.path == st.path,
        is_fill(r.1, st.input_at + 4int, 4),
        r.1.path == st.path,
{
    let rd = layout::hat_items() + rest;
    let (q, s) = lemma_item(rd, st);
    assert(s.usages =~= seq![0x39nat]);
    let (q, s) = lemma_item(q, s);
    let (q, s) = lemma_item(q, s);
    let (q, s) = lemma_item(q, s);
    let (q, s) = lemma_wide_item(q, s);
    let (q, s) = lemma_item(q, s);
    let (q, s) = lemma_item(q, s);
    let (q, s) = lemma_item(q, s);
    let f0 = field_of(s, 0x80, 0x42);
    let (q0, s0) = lemma_item(q, s);
    assert(fields(rd, st) == seq![f0] + fields(q0, s0));
    assert(4nat * 1nat == 4) by (nonlinear_arith);
    assert(s0.input_at == st.input_at + 4);
    let (q, s) = lemma_item(q0, s0);
    let (q, s) = lemma_item(q, s);
    let f1 = field_of(s, 0x80, 3);
    let (q1, s1) = lemma_item(q, s);
    assert(fields(q0, s0) == seq![f1] + fields(q1, s1));
    assert(q1 =~= rest);
    assert(fields(rd, st) =~= seq![f0, f1] + fields(rest, s1));
    (f0, f1, s1)
}

/// The gamepad descriptor declares, in one application collection for a
/// gamepad: a data bit for each button; behind whole bytes of those a signed
/// value of 16 bits for each axis, from -32767 to 32767 and under the axis's
/// own usage, as data; and then, where there is one, the hat as four bits of
/// data. Only the bits that fill the last byte of the buttons and that of the
/// hat are constant.
#[verifier::spinoff_prover]
pub proof fn law_gamepad_fields(buttons: u8, axes: Seq<GamepadAxis>, hat: bool)
    requires
        axes.len() < 256,
    ensures
        ({
            let fs = fields(layout::gamepad_bytes(buttons, axes, hat), no_items());
            let a = if buttons % 8 == 0 {
                1int
            } else {
                2
            };
            let at = 8 * ((buttons + 7) / 8);
            &&& fs.len() == a + 1 + if hat {
                2int
            } else {
                0
            }
            &&& forall|i: int|
                0 <= i < fs.len() ==> (#[trigger] fs[i]).path == seq![(1nat, 1nat, 4nat)]
            &&& is_data(fs[0], 0, 1, buttons as int) && fs[0].flags == 2 && fs[0].page == 9
            &&& fs[0].usage_min == 1 && fs[0].usage_max == buttons
            &&& fs[0].logical_min == 0 && fs[0].logical_max == 1
            &&& buttons % 8 != 0 ==> is_fill(fs[1], buttons as int, at - buttons)
            &&& is_data(fs[a], at, 16, axes.len() as int) && fs[a].flags == 2 && fs[a].page == 1
            &&& fs[a].logical_min == -32767 && fs[a].logical_max == 32767
            &&& fs[a].usages == axes.map_values(
                |axis: GamepadAxis|
                    match axis {
                        GamepadAxis::X => 0x30nat,
                        GamepadAxis::Y => 0x31nat,
                        GamepadAxis::Z => 0x32nat,
                        GamepadAxis::Rx => 0x33nat,
                        GamepadAxis::Ry => 0x34nat,
                    },
            )
            &&& hat ==> {
                &&& is_data(fs[a + 1], at + 16 * axes.len(), 4, 1) && fs[a + 1].flags == 0x42
                &&& fs[a + 1].page == 1 && fs[a + 1].usages == seq![0x39nat]
                &&& fs[a + 1].logical_min == 1 && fs[a + 1].logical_max == 8
                &&& fs[a + 1].physical_min == 0 && fs[a + 1].physical_max == 315
                &&& fs[a + 1].unit == 0x14
                &&& is_fill(fs[a + 2], at + 16 * axes.len() + 4, 4)
            }
        }),
{
    let rd = layout::gamepad_bytes(buttons, axes, hat);
    let end = seq![0xC0u8];
    let hats = (if hat {
        layout::hat_items()
    } else {
        Seq::empty()
    }) + end;
    let tail = layout::axis_items(axes) + hats;
    let (r, s) = lemma_item(rd, no_items());
    let (r, s) = lemma_item(r, s);
    let (r, s) = lemma_item(r, s);
    assert(s.path =~= seq![(1nat, 1nat, 4nat)]);
    assert(r =~= layout::button_items(buttons) + tail);
    let (bs, s1) = lemma_button_fields(buttons, tail, s);
    let (axis, s2) = lemma_axis_field(axes, hats, s1);
    let fs = fields(rd, no_items());
    if hat {
        let (h, fill, s3) = lemma_hat_fields(end, s2);
        let (r4, s4) = lemma_end_item(end, s3);
        assert(r4 =~= Seq::<u8>::empty());
        lemma_no_more(s4);
        assert(fs =~= bs + seq![axis] + seq![h, fill]);
    } else {
        assert(hats =~= end);
        let (r4, s4) = lemma_end_item(end, s2);
        assert(r4 =~= Seq::<u8>::empty());
        lemma_no_more(s4);
        assert(fs =~= bs + seq![axis]);
    }
    let a = bs.len() as int;
    assert(fs[0] == bs[0]);
    assert(fs[a] == axis);
    assert(axis.usages =~= axes.map_values(
        |axis: GamepadAxis|
            match axis {
                GamepadAxis::X => 0x30nat,
                GamepadAxis::Y => 0x31nat,
                GamepadAxis::Z => 0x32nat,
                GamepadAxis::Rx => 0x33nat,
                GamepadAxis::Ry => 0x34nat,
            },
    ));
}

} // verus!
