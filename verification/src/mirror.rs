//! The virtual mirror of a physical controller.

use vstd::prelude::*;

use crate::device::{Transfer, UhidDevice};
use crate::error::UhidError;
use crate::event;
use crate::event::{CreateParams, BUS_USB, UHID_DATA_MAX};
use crate::layout;
use crate::layout::{gamepad_descriptor, GamepadAxis, ReportLayout, MAX_AXES, MAX_BUTTONS};
use crate::report;
use crate::report::{clamp, pack_gamepad, GamepadState};
use crate::strmap::StrMap;

verus! {

pub const ABS_X: u32 = 0;

pub const ABS_Y: u32 = 1;

pub const ABS_Z: u32 = 2;

pub const ABS_RX: u32 = 3;

pub const ABS_RY: u32 = 4;

pub const ABS_RZ: u32 = 5;

/// The gamepad axis that a physical axis is mirrored on, if any.
pub open spec fn axis_for(code: u32) -> Option<GamepadAxis> {
    if code == ABS_X {
        Some(GamepadAxis::X)
    } else if code == ABS_Y {
        Some(GamepadAxis::Y)
    } else if code == ABS_Z {
        Some(GamepadAxis::Z)
    } else if code == ABS_RX {
        Some(GamepadAxis::Rx)
    } else if code == ABS_RY {
        Some(GamepadAxis::Ry)
    } else {
        None
    }
}

/// `out` with `entry` behind the entries whose codes are no greater.
pub open spec fn insert_axis(out: Seq<(u32, GamepadAxis)>, entry: (u32, GamepadAxis)) -> Seq<
    (u32, GamepadAxis),
>
    decreases out.len(),
{
    if out.len() == 0 || out.last().0 <= entry.0 {
        out.push(entry)
    } else {
        insert_axis(out.drop_last(), entry).push(out.last())
    }
}

/// The mirrored axes among `codes`, in increasing code order.
pub open spec fn axes_of(codes: Seq<u32>) -> Seq<(u32, GamepadAxis)>
    decreases codes.len(),
{
    if codes.len() == 0 {
        Seq::empty()
    } else {
        match axis_for(codes.last()) {
            Some(axis) => insert_axis(axes_of(codes.drop_last()), (codes.last(), axis)),
            None => axes_of(codes.drop_last()),
        }
    }
}

/// `out` with `code` behind the codes that are no greater.
pub open spec fn insert_code(out: Seq<u16>, code: u16) -> Seq<u16>
    decreases out.len(),
{
    if out.len() == 0 || out.last() <= code {
        out.push(code)
    } else {
        insert_code(out.drop_last(), code).push(out.last())
    }
}

/// `codes` in increasing order.
pub open spec fn sorted(codes: Seq<u16>) -> Seq<u16>
    decreases codes.len(),
{
    if codes.len() == 0 {
        Seq::empty()
    } else {
        insert_code(sorted(codes.drop_last()), codes.last())
    }
}

/// Whether `codes` never decrease.
pub open spec fn increasing(codes: Seq<u16>) -> bool {
    forall|i: int, j: int| 0 <= i <= j < codes.len() ==> codes[i] <= codes[j]
}

/// The button codes that a mirror keeps: the lowest, as many as it has room for.
pub open spec fn kept_codes(codes: Seq<u16>) -> Seq<u16> {
    if codes.len() > MAX_BUTTONS {
        sorted(codes).take(MAX_BUTTONS as int)
    } else {
        sorted(codes)
    }
}

proof fn lemma_insert_code(out: Seq<u16>, code: u16)
    requires
        increasing(out),
    ensures
        increasing(insert_code(out, code)),
        insert_code(out, code).len() == out.len() + 1,
        insert_code(out, code).to_multiset() == out.to_multiset().insert(code),
        forall|i: int|
            0 <= i <= out.len() ==> #[trigger] insert_code(out, code)[i] <= code
                || (out.len() > 0 && insert_code(out, code)[i] <= out.last()),
    decreases out.len(),
{
    broadcast use vstd::seq_lib::group_to_multiset_ensures;

    if !(out.len() == 0 || out.last() <= code) {
        let front = out.drop_last();
        lemma_insert_code(front, code);
        let inner = insert_code(front, code);
        assert(front.push(out.last()) =~= out);
        assert(out.to_multiset() =~= front.to_multiset().insert(out.last()));
        assert(inner.push(out.last()).to_multiset() =~= inner.to_multiset().insert(out.last()));
        assert(insert_code(out, code).to_multiset() =~= out.to_multiset().insert(code));
        assert forall|i: int, j: int|
            0 <= i <= j < insert_code(out, code).len() implies insert_code(out, code)[i]
            <= insert_code(out, code)[j] by {
            if j == inner.len() && i < inner.len() {
                assert(inner[i] <= code || (front.len() > 0 && inner[i] <= front.last()));
            }
        }
    }
}

/// Sorting keeps every code and puts them in increasing order.
pub proof fn law_sorted(codes: Seq<u16>)
    ensures
        increasing(sorted(codes)),
        sorted(codes).len() == codes.len(),
        sorted(codes).to_multiset() == codes.to_multiset(),
    decreases codes.len(),
{
    broadcast use vstd::seq_lib::group_to_multiset_ensures;

    if codes.len() != 0 {
        law_sorted(codes.drop_last());
        lemma_insert_code(sorted(codes.drop_last()), codes.last());
        assert(codes.drop_last().push(codes.last()) =~= codes);
    } else {
        assert(sorted(codes) =~= codes);
    }
}

proof fn lemma_insert_code_at(out: Seq<u16>, code: u16, p: int)
    requires
        0 <= p <= out.len(),
        p == 0 || out[p - 1] <= code,
        forall|j: int| p <= j < out.len() ==> out[j] > code,
    ensures
        insert_code(out, code) == out.insert(p, code),
    decreases out.len(),
{
    if p < out.len() {
        let front = out.drop_last();
        lemma_insert_code_at(front, code, p);
        assert(out.last() > code);
        assert(front.insert(p, code).push(out.last()) =~= out.insert(p, code));
    } else {
        assert(out.push(code) =~= out.insert(p, code));
    }
}

/// Puts `codes` in increasing order.
fn sort_codes(codes: &Vec<u16>) -> (out: Vec<u16>)
    ensures
        out@ == sorted(codes@),
{
    let mut out: Vec<u16> = Vec::new();
    let mut i: usize = 0;
    assert(codes@.take(0) =~= Seq::empty());
    while i < codes.len()
        invariant
            i <= codes@.len(),
            out@ == sorted(codes@.take(i as int)),
        decreases codes@.len() - i,
    {
        let code = codes[i];
        let mut p: usize = out.len();
        while p > 0 && out[p - 1] > code
            invariant
                p <= out@.len(),
                forall|j: int| p <= j < out@.len() ==> out@[j] > code,
            decreases p,
        {
            p -= 1;
        }
        proof {
            lemma_insert_code_at(out@, code, p as int);
            assert(codes@.take(i + 1).drop_last() =~= codes@.take(i as int));
        }
        out.insert(p, code);
        i += 1;
    }
    assert(codes@.take(i as int) =~= codes@);
    out
}

/// Whether the codes of `axes` never decrease.
pub open spec fn axes_increasing(axes: Seq<(u32, GamepadAxis)>) -> bool {
    forall|i: int, j: int| 0 <= i <= j < axes.len() ==> axes[i].0 <= axes[j].0
}

proof fn lemma_insert_axis_at(out: Seq<(u32, GamepadAxis)>, entry: (u32, GamepadAxis), p: int)
    requires
        0 <= p <= out.len(),
        p == 0 || out[p - 1].0 <= entry.0,
        forall|j: int| p <= j < out.len() ==> (#[trigger] out[j]).0 > entry.0,
    ensures
        insert_axis(out, entry) == out.insert(p, entry),
    decreases out.len(),
{
    if p < out.len() {
        let front = out.drop_last();
        assert forall|j: int| p <= j < front.len() implies (#[trigger] front[j]).0 > entry.0 by {
            assert(front[j] == out[j]);
        }
        lemma_insert_axis_at(front, entry, p);
        assert(out[out.len() - 1].0 > entry.0);
        assert(front.insert(p, entry).push(out.last()) =~= out.insert(p, entry));
    } else {
        assert(out.push(entry) =~= out.insert(p, entry));
    }
}

proof fn lemma_insert_axis(out: Seq<(u32, GamepadAxis)>, entry: (u32, GamepadAxis))
    requires
        axes_increasing(out),
    ensures
        axes_increasing(insert_axis(out, entry)),
        insert_axis(out, entry).len() == out.len() + 1,
        insert_axis(out, entry).to_multiset() == out.to_multiset().insert(entry),
        forall|i: int|
            0 <= i <= out.len() ==> (#[trigger] insert_axis(out, entry)[i]).0 <= entry.0
                || (out.len() > 0 && insert_axis(out, entry)[i].0 <= out.last().0),
    decreases out.len(),
{
    broadcast use vstd::seq_lib::group_to_multiset_ensures;

    if !(out.len() == 0 || out.last().0 <= entry.0) {
        let front = out.drop_last();
        lemma_insert_axis(front, entry);
        let inner = insert_axis(front, entry);
        assert(front.push(out.last()) =~= out);
        assert(out.to_multiset() =~= front.to_multiset().insert(out.last()));
        assert(inner.push(out.last()).to_multiset() =~= inner.to_multiset().insert(out.last()));
        assert(insert_axis(out, entry).to_multiset() =~= out.to_multiset().insert(entry));
        assert forall|i: int, j: int|
            0 <= i <= j < insert_axis(out, entry).len() implies insert_axis(out, entry)[i].0
            <= insert_axis(out, entry)[j].0 by {
            if j == inner.len() && i < inner.len() {
                assert(inner[i].0 <= entry.0 || (front.len() > 0 && inner[i].0 <= front.last().0));
            }
        }
    }
}

/// The mirrored axes come in increasing code order, whatever the order of the codes.
pub proof fn law_axes_in_order(codes: Seq<u32>)
    ensures
        axes_increasing(axes_of(codes)),
    decreases codes.len(),
{
    if codes.len() != 0 {
        law_axes_in_order(codes.drop_last());
        if let Some(axis) = axis_for(codes.last()) {
            lemma_insert_axis(axes_of(codes.drop_last()), (codes.last(), axis));
        }
    }
}

/// Each code that has an axis is mirrored on it as often as it occurs, and
/// nothing else is mirrored.
pub proof fn law_axes_complete(codes: Seq<u32>, code: u32, axis: GamepadAxis)
    ensures
        axes_of(codes).to_multiset().count((code, axis)) == if axis_for(code) == Some(axis) {
            codes.to_multiset().count(code)
        } else {
            0
        },
    decreases codes.len(),
{
    broadcast use vstd::seq_lib::group_to_multiset_ensures;

    if codes.len() != 0 {
        let front = codes.drop_last();
        law_axes_complete(front, code, axis);
        law_axes_in_order(front);
        assert(front.push(codes.last()) =~= codes);
        assert(codes.to_multiset() =~= front.to_multiset().insert(codes.last()));
        if let Some(last) = axis_for(codes.last()) {
            lemma_insert_axis(axes_of(front), (codes.last(), last));
        }
    } else {
        assert(axes_of(codes).to_multiset().count((code, axis)) == 0) by {
            assert(!axes_of(codes).contains((code, axis)));
        }
        assert(!codes.contains(code));
    }
}

fn find_axis(code: u32) -> (r: Option<GamepadAxis>)
    ensures
        r == axis_for(code),
{
    if code == ABS_X {
        Some(GamepadAxis::X)
    } else if code == ABS_Y {
        Some(GamepadAxis::Y)
    } else if code == ABS_Z {
        Some(GamepadAxis::Z)
    } else if code == ABS_RX {
        Some(GamepadAxis::Rx)
    } else if code == ABS_RY {
        Some(GamepadAxis::Ry)
    } else {
        None
    }
}

/// Maps physical ABS codes onto gamepad axes, in increasing code order.
pub fn mirror_axes(abs_codes: &[u32]) -> (out: Vec<(u32, GamepadAxis)>)
    ensures
        out@ == axes_of(abs_codes@),
{
    let mut out: Vec<(u32, GamepadAxis)> = Vec::new();
    let mut i: usize = 0;
    assert(abs_codes@.take(0) =~= Seq::empty());
    while i < abs_codes.len()
        invariant
            i <= abs_codes@.len(),
            out@ == axes_of(abs_codes@.take(i as int)),
        decreases abs_codes@.len() - i,
    {
        let code = abs_codes[i];
        assert(abs_codes@.take(i + 1).drop_last() =~= abs_codes@.take(i as int));
        if let Some(axis) = find_axis(code) {
            let mut p: usize = out.len();
            while p > 0 && out[p - 1].0 > code
                invariant
                    p <= out@.len(),
                    forall|j: int| p <= j < out@.len() ==> (#[trigger] out@[j]).0 > code,
                decreases p,
            {
                p -= 1;
            }
            proof {
                lemma_insert_axis_at(out@, (code, axis), p as int);
            }
            out.insert(p, (code, axis));
        }
        i += 1;
    }
    assert(abs_codes@.take(i as int) =~= abs_codes@);
    out
}

/// The descriptor and the index maps that mirror one physical device.
#[derive(Debug, Clone)]
pub struct MirrorMap {
    pub layout: ReportLayout,
    pub codes: Vec<u16>,
    pub axes: Vec<(u32, GamepadAxis)>,
}

/// The axes alone.
pub open spec fn axis_kinds(axes: Seq<(u32, GamepadAxis)>) -> Seq<GamepadAxis> {
    axes.map_values(|e: (u32, GamepadAxis)| e.1)
}

/// The first place of `code` among `codes`.
pub open spec fn key_index(codes: Seq<u16>, code: u16) -> Option<int>
    decreases codes.len(),
{
    if codes.len() == 0 {
        None
    } else if codes[0] == code {
        Some(0)
    } else {
        match key_index(codes.drop_first(), code) {
            Some(i) => Some(i + 1),
            None => None,
        }
    }
}

/// The axis that the first entry for `abs` names.
pub open spec fn abs_axis(axes: Seq<(u32, GamepadAxis)>, abs: u32) -> Option<GamepadAxis>
    decreases axes.len(),
{
    if axes.len() == 0 {
        None
    } else if axes[0].0 == abs {
        Some(axes[0].1)
    } else {
        abs_axis(axes.drop_first(), abs)
    }
}

/// The buttons after the key `code` went down or up. A key that is not
/// mirrored, or that has no button, changes nothing.
pub open spec fn buttons_after(
    codes: Seq<u16>,
    buttons: Seq<bool>,
    code: u16,
    pressed: bool,
) -> Seq<bool> {
    match key_index(codes, code) {
        Some(i) => if i < buttons.len() {
            buttons.update(i, pressed)
        } else {
            buttons
        },
        None => buttons,
    }
}

/// What an axis map holds for `axis`, where no entry stands for 0.
pub open spec fn held_value(values: Map<Seq<char>, i32>, axis: GamepadAxis) -> i32 {
    if values.contains_key(axis.spec_name()) {
        values[axis.spec_name()]
    } else {
        0
    }
}

/// The axis values after the physical axis `abs` moved to `value`, which is
/// cut to 16 bits. An axis that is not mirrored changes nothing.
pub open spec fn axes_after(
    axes: Seq<(u32, GamepadAxis)>,
    values: Map<Seq<char>, i32>,
    abs: u32,
    value: i32,
) -> Map<Seq<char>, i32> {
    let v = report::clamped(value as int, -32767, 32767) as i32;
    match abs_axis(axes, abs) {
        Some(axis) => if held_value(values, axis) != v {
            values.insert(axis.spec_name(), v)
        } else {
            values
        },
        None => values,
    }
}

impl MirrorMap {
    /// Whether the parts fit together as `mirror_layout` gives them.
    pub open spec fn wf(self) -> bool {
        &&& increasing(self.codes@)
        &&& 1 <= self.codes@.len() <= MAX_BUTTONS
        &&& 1 <= self.axes@.len() <= MAX_AXES
        &&& self.layout matches ReportLayout::Gamepad { buttons, axes, hat } && buttons
            == self.codes@.len() && axes@ == axis_kinds(self.axes@) && !hat
    }

    /// A state with every button up and every axis at rest.
    pub fn blank_state(&self) -> (s: GamepadState)
        ensures
            s.buttons@ == Seq::new(self.codes@.len(), |i: int| false),
            s.axes@ == Map::<Seq<char>, i32>::empty(),
            s.hat == 0,
    {
        let mut buttons: Vec<bool> = Vec::new();
        while buttons.len() < self.codes.len()
            invariant
                buttons@.len() <= self.codes@.len(),
                buttons@ =~= Seq::new(buttons@.len(), |i: int| false),
            decreases self.codes@.len() - buttons@.len(),
        {
            buttons.push(false);
        }
        GamepadState { buttons, axes: StrMap::new(), hat: 0 }
    }

    fn find_code(&self, code: u16) -> (r: Option<usize>)
        requires
            increasing(self.codes@),
        ensures
            match r {
                Some(i) => i < self.codes@.len() && key_index(self.codes@, code) == Some(i as int),
                None => key_index(self.codes@, code) is None,
            },
    {
        let mut low: usize = 0;
        let mut high: usize = self.codes.len();
        while low < high
            invariant
                low <= high <= self.codes@.len(),
                increasing(self.codes@),
                forall|j: int| 0 <= j < low ==> self.codes@[j] < code,
                forall|j: int| high <= j < self.codes@.len() ==> self.codes@[j] >= code,
            decreases high - low,
        {
            let mid = low + (high - low) / 2;
            if self.codes[mid] < code {
                low = mid + 1;
            } else {
                high = mid;
            }
        }
        if low < self.codes.len() && self.codes[low] == code {
            proof {
                lemma_key_index(self.codes@, code, low as int);
            }
            Some(low)
        } else {
            proof {
                lemma_no_key_index(self.codes@, code);
            }
            None
        }
    }

    /// Applies a button event; returns true when the state changed.
    pub fn apply_key(&self, state: &mut GamepadState, code: u16, pressed: bool) -> (changed: bool)
        requires
            increasing(self.codes@),
        ensures
            final(state).buttons@ == buttons_after(
                self.codes@,
                old(state).buttons@,
                code,
                pressed,
            ),
            final(state).axes == old(state).axes,
            final(state).hat == old(state).hat,
            changed == (final(state).buttons@ != old(state).buttons@),
    {
        match self.find_code(code) {
            Some(i) => {
                if i < state.buttons.len() && state.buttons[i] != pressed {
                    state.buttons[i] = pressed;
                    assert(state.buttons@[i as int] != old(state).buttons@[i as int]);
                    true
                } else {
                    assert(i < state.buttons@.len() ==> state.buttons@.update(i as int, pressed)
                        =~= state.buttons@);
                    false
                }
            },
            None => false,
        }
    }

    /// Applies an axis event; returns true when the state changed.
    pub fn apply_abs(&self, state: &mut GamepadState, abs: u32, value: i32) -> (changed: bool)
        ensures
            final(state).axes@ == axes_after(self.axes@, old(state).axes@, abs, value),
            final(state).buttons == old(state).buttons,
            final(state).hat == old(state).hat,
            changed == (final(state).axes@ != old(state).axes@),
    {
        let mut i: usize = 0;
        assert(self.axes@.skip(0) =~= self.axes@);
        while i < self.axes.len() && self.axes[i].0 != abs
            invariant
                i <= self.axes@.len(),
                abs_axis(self.axes@, abs) == abs_axis(self.axes@.skip(i as int), abs),
            decreases self.axes@.len() - i,
        {
            assert(self.axes@.skip(i as int).drop_first() =~= self.axes@.skip(i + 1));
            i += 1;
        }
        if i == self.axes.len() {
            return false;
        }
        let axis = self.axes[i].1;
        assert(abs_axis(self.axes@, abs) == Some(axis));
        let value = clamp(value, -32767, 32767);
        let held: i32 = match state.axes.get(axis.name()) {
            Some(v) => *v,
            None => 0,
        };
        if held != value {
            state.axes.insert(axis.name().to_string(), value);
            assert(state.axes@[axis.spec_name()] == value);
            true
        } else {
            false
        }
    }

    /// Packs `state` into one report.
    pub fn pack(&self, state: &GamepadState) -> (r: Result<Vec<u8>, UhidError>)
        ensures
            match self.layout {
                ReportLayout::Gamepad { buttons, axes, hat } => r matches Ok(report) && report@
                    == report::gamepad_report(buttons, axes@, hat, state@),
                _ => r == Err::<Vec<u8>, UhidError>(UhidError::NotGamepad),
            },
    {
        pack_gamepad(&self.layout, state)
    }
}

proof fn lemma_key_index(codes: Seq<u16>, code: u16, i: int)
    requires
        0 <= i < codes.len(),
        codes[i] == code,
        forall|j: int| 0 <= j < i ==> codes[j] != code,
    ensures
        key_index(codes, code) == Some(i),
    decreases codes.len(),
{
    if i > 0 {
        let rest = codes.drop_first();
        assert(codes[0] != code);
        assert forall|j: int| 0 <= j < i - 1 implies rest[j] != code by {
            assert(rest[j] == codes[j + 1]);
        }
        lemma_key_index(rest, code, i - 1);
    }
}

proof fn lemma_no_key_index(codes: Seq<u16>, code: u16)
    requires
        forall|j: int| 0 <= j < codes.len() ==> codes[j] != code,
    ensures
        key_index(codes, code) is None,
    decreases codes.len(),
{
    if codes.len() != 0 {
        let rest = codes.drop_first();
        assert(codes[0] != code);
        assert forall|j: int| 0 <= j < rest.len() implies rest[j] != code by {
            assert(rest[j] == codes[j + 1]);
        }
        lemma_no_key_index(rest, code);
    }
}

/// The axes of a gamepad layout; other layouts have none.
fn layout_axes(layout: &ReportLayout) -> (r: Vec<GamepadAxis>)
    ensures
        r@ == match layout {
            ReportLayout::Gamepad { buttons, axes, hat } => axes@,
            _ => Seq::empty(),
        },
{
    match layout {
        ReportLayout::Gamepad { buttons, axes, hat } => {
            let r = axes.clone();
            assert(r@ =~= axes@);
            r
        },
        _ => Vec::new(),
    }
}

/// Builds the mirror of a device with these buttons and axes. Button codes are
/// sorted so the mapping is deterministic; more than 32 are cut to the lowest.
pub fn mirror_layout(codes: Vec<u16>, axes: Vec<(u32, GamepadAxis)>) -> (r: Result<
    (Vec<u8>, MirrorMap),
    UhidError,
>)
    ensures
        match r {
            Ok((descriptor, map)) => {
                &&& codes@.len() > 0
                &&& 1 <= axes@.len() <= MAX_AXES
                &&& map.wf()
                &&& map.codes@ == kept_codes(codes@)
                &&& map.axes@ == axes@
                &&& descriptor@ == layout::gamepad_bytes(
                    map.codes@.len() as u8,
                    axis_kinds(axes@),
                    false,
                )
            },
            Err(e) => if codes@.len() == 0 {
                e == UhidError::ButtonCount
            } else {
                e == UhidError::AxisCount && (axes@.len() == 0 || axes@.len() > MAX_AXES)
            },
        },
{
    let mut kept = sort_codes(&codes);
    proof {
        law_sorted(codes@);
    }
    if kept.len() > MAX_BUTTONS as usize {
        kept.truncate(MAX_BUTTONS as usize);
    }
    assert(kept@ =~= kept_codes(codes@));
    let mut kinds: Vec<GamepadAxis> = Vec::new();
    let mut i: usize = 0;
    while i < axes.len()
        invariant
            i <= axes@.len(),
            kinds@ == axis_kinds(axes@.take(i as int)),
        decreases axes@.len() - i,
    {
        kinds.push(axes[i].1);
        assert(kinds@ =~= axis_kinds(axes@.take(i + 1)));
        i += 1;
    }
    assert(axes@.take(i as int) =~= axes@);
    match ReportLayout::gamepad(kept.len() as u8, kinds, false) {
        Ok(layout) => {
            let declared = layout_axes(&layout);
            let descriptor = gamepad_descriptor(kept.len() as u8, declared.as_slice(), false);
            Ok((descriptor, MirrorMap { layout, codes: kept, axes }))
        },
        Err(e) => Err(e),
    }
}

/// What the mirror reports while its buttons and axes stand as in `state`.
pub open spec fn mirror_report(map: MirrorMap, state: report::GamepadView) -> Seq<u8> {
    report::gamepad_report(map.codes@.len() as u8, axis_kinds(map.axes@), false, state)
}

/// The UTF-8 bytes of `keyforge/input0`.
pub open spec fn mirror_phys() -> Seq<u8> {
    seq![
        0x6Bu8, 0x65, 0x79, 0x66, 0x6F, 0x72, 0x67, 0x65, 0x2F, 0x69, 0x6E, 0x70, 0x75, 0x74, 0x30,
    ]
}

/// A virtual mirror: what it maps, what it reports, and whether that changed
/// since the last report.
pub struct Mirror {
    map: MirrorMap,
    state: GamepadState,
    dirty: bool,
}

/// What a `Mirror` holds.
#[verifier::ext_equal]
pub struct MirrorView {
    pub codes: Seq<u16>,
    pub axes: Seq<(u32, GamepadAxis)>,
    pub buttons: Seq<bool>,
    pub values: Map<Seq<char>, i32>,
    pub hat: u8,
    pub dirty: bool,
}

impl View for Mirror {
    type V = MirrorView;

    open spec fn view(&self) -> MirrorView {
        MirrorView {
            codes: self.map().codes@,
            axes: self.map().axes@,
            buttons: self.state().buttons@,
            values: self.state().axes@,
            hat: self.state().hat,
            dirty: self.dirty(),
        }
    }
}

/// `m` after a button event; a change makes a report due.
pub open spec fn after_key(m: MirrorView, code: u16, pressed: bool) -> MirrorView {
    let buttons = buttons_after(m.codes, m.buttons, code, pressed);
    MirrorView { buttons, dirty: m.dirty || buttons != m.buttons, ..m }
}

/// `m` after an axis event; a change makes a report due.
pub open spec fn after_abs(m: MirrorView, abs: u32, value: i32) -> MirrorView {
    let values = axes_after(m.axes, m.values, abs, value);
    MirrorView { values, dirty: m.dirty || values != m.values, ..m }
}

impl Mirror {
    /// What the mirror maps.
    pub closed spec fn map(self) -> MirrorMap {
        self.map
    }

    /// What it reports.
    pub closed spec fn state(self) -> GamepadState {
        self.state
    }

    /// Whether a report is due.
    pub closed spec fn dirty(self) -> bool {
        self.dirty
    }

    /// Whether the parts fit together.
    pub open spec fn wf(self) -> bool {
        self.map().wf() && self.state().buttons@.len() == self.map().codes@.len()
    }

    /// A mirror at rest, and what its device is to be registered with.
    pub fn create(
        name: &str,
        vid: u16,
        product: u16,
        codes: Vec<u16>,
        axes: Vec<(u32, GamepadAxis)>,
    ) -> (r: Result<(Mirror, CreateParams), UhidError>)
        ensures
            match r {
                Ok((mirror, params)) => {
                    &&& codes@.len() > 0
                    &&& 1 <= axes@.len() <= MAX_AXES
                    &&& mirror.wf()
                    &&& mirror.map().codes@ == kept_codes(codes@)
                    &&& mirror.map().axes@ == axes@
                    &&& mirror.state().buttons@ == Seq::new(
                        mirror.map().codes@.len(),
                        |i: int| false,
                    )
                    &&& mirror.state().axes@ == Map::<Seq<char>, i32>::empty()
                    &&& mirror.state().hat == 0
                    &&& !mirror.dirty()
                    &&& params.name@ == vstd::utf8::encode_utf8(name@)
                    &&& params.phys@ == mirror_phys()
                    &&& params.uniq@.len() == 0
                    &&& params.bus == BUS_USB
                    &&& params.vendor == vid
                    &&& params.product == product
                    &&& params.version == 1
                    &&& params.country == 0
                    &&& params.descriptor@ == layout::gamepad_bytes(
                        kept_codes(codes@).len() as u8,
                        axis_kinds(axes@),
                        false,
                    )
                },
                Err(e) => if codes@.len() == 0 {
                    e == UhidError::ButtonCount
                } else {
                    e == UhidError::AxisCount && (axes@.len() == 0 || axes@.len() > MAX_AXES)
                },
            },
    {
        match mirror_layout(codes, axes) {
            Ok((descriptor, map)) => {
                let phys: Vec<u8> = vec![
                    0x6B, 0x65, 0x79, 0x66, 0x6F, 0x72, 0x67, 0x65, 0x2F, 0x69, 0x6E, 0x70, 0x75,
                    0x74, 0x30,
                ];
                assert(phys@ =~= mirror_phys());
                let params = CreateParams {
                    name: bytes_of(name),
                    phys,
                    uniq: Vec::new(),
                    bus: BUS_USB,
                    vendor: vid as u32,
                    product: product as u32,
                    version: 1,
                    country: 0,
                    descriptor,
                };
                let state = map.blank_state();
                Ok((Mirror { map, state, dirty: false }, params))
            },
            Err(e) => Err(e),
        }
    }

    /// Takes a button event into the state; a change makes a report due.
    pub fn key(&mut self, code: u16, pressed: bool)
        requires
            old(self).wf(),
        ensures
            final(self).wf(),
            final(self).map() == old(self).map(),
            final(self)@ == after_key(old(self)@, code, pressed),
    {
        proof {
            lemma_key_index_in(self.map.codes@, code);
        }
        if self.map.apply_key(&mut self.state, code, pressed) {
            self.dirty = true;
        }
    }

    /// Takes an axis event into the state; a change makes a report due.
    pub fn abs(&mut self, abs: u32, value: i32)
        requires
            old(self).wf(),
        ensures
            final(self).wf(),
            final(self).map() == old(self).map(),
            final(self)@ == after_abs(old(self)@, abs, value),
    {
        if self.map.apply_abs(&mut self.state, abs, value) {
            self.dirty = true;
        }
    }

    /// The report to send to the device, when the state changed since the last
    /// one.
    pub fn flush(&self, device: &UhidDevice) -> (r: Option<Transfer>)
        requires
            self.wf(),
        ensures
            match r {
                Some(t) => {
                    &&& self.dirty()
                    &&& t.spec_fd() == device.spec_fd()
                    &&& t.event() == event::input2_frame(
                        mirror_report(self.map(), self.state()@),
                    )
                    &&& t.sent() == 0
                    &&& t.unfinished()
                },
                None => !self.dirty(),
            },
    {
        if !self.dirty {
            return None;
        }
        proof {
            law_mirror_report_fits(self.map, self.state@);
        }
        match self.map.pack(&self.state) {
            Ok(packed) => match device.input(packed.as_slice()) {
                Ok(t) => Some(t),
                Err(_) => {
                    assert(false);
                    None
                },
            },
            Err(_) => {
                assert(false);
                None
            },
        }
    }

    /// Takes note of whether the report that `flush` gave was sent. One that
    /// was not stays due.
    pub fn flushed(&mut self, sent: bool)
        requires
            old(self).wf(),
        ensures
            final(self).wf(),
            final(self).map() == old(self).map(),
            final(self).state() == old(self).state(),
            final(self).dirty() == (old(self).dirty() && !sent),
    {
        if sent {
            self.dirty = false;
        }
    }

    /// Gives the mirror up: the event that unregisters its device.
    pub fn destroy(self, device: &UhidDevice) -> (t: Transfer)
        ensures
            t.spec_fd() == device.spec_fd(),
            t.event() == event::destroy_frame(),
            t.sent() == 0,
            t.unfinished(),
    {
        device.destroy()
    }
}

/// The UTF-8 bytes of `s`.
fn bytes_of(s: &str) -> (v: Vec<u8>)
    ensures
        v@ == vstd::utf8::encode_utf8(s@),
{
    let bytes = s.as_bytes();
    let mut v: Vec<u8> = Vec::new();
    let mut i: usize = 0;
    while i < bytes.len()
        invariant
            i <= bytes@.len(),
            v@ == bytes@.take(i as int),
        decreases bytes@.len() - i,
    {
        v.push(bytes[i]);
        i += 1;
    }
    assert(bytes@.take(i as int) =~= bytes@);
    v
}

/// Every mirror descriptor fits a create event.
pub proof fn law_mirror_descriptor_fits(map: MirrorMap)
    requires
        map.wf(),
    ensures
        layout::gamepad_bytes(map.codes@.len() as u8, axis_kinds(map.axes@), false).len()
            <= UHID_DATA_MAX,
{
    lemma_usage_items_len(axis_kinds(map.axes@));
}

/// Every mirror report fits an input event, and has the length of its layout.
pub proof fn law_mirror_report_fits(map: MirrorMap, state: report::GamepadView)
    requires
        map.wf(),
    ensures
        mirror_report(map, state).len() == map.layout.spec_report_len(),
        mirror_report(map, state).len() <= UHID_DATA_MAX,
{
    if let ReportLayout::Gamepad { buttons, axes, hat } = map.layout {
        report::law_gamepad_report_length(buttons, axes, hat, state);
    }
}

proof fn lemma_usage_items_len(axes: Seq<GamepadAxis>)
    ensures
        layout::usage_items(axes).len() == 2 * axes.len(),
    decreases axes.len(),
{
    if axes.len() != 0 {
        lemma_usage_items_len(axes.drop_last());
    }
}

pub proof fn lemma_key_index_in(codes: Seq<u16>, code: u16)
    ensures
        match key_index(codes, code) {
            Some(i) => 0 <= i < codes.len() && codes[i] == code,
            None => !codes.contains(code),
        },
    decreases codes.len(),
{
    if codes.len() != 0 && codes[0] != code {
        let rest = codes.drop_first();
        lemma_key_index_in(rest, code);
        if key_index(rest, code) is None && codes.contains(code) {
            let j = choose|j: int| 0 <= j < codes.len() && codes[j] == code;
            assert(rest[j - 1] == code);
        }
    }
}

/// Applying a key event again changes nothing more.
pub proof fn law_key_idempotent(codes: Seq<u16>, buttons: Seq<bool>, code: u16, pressed: bool)
    ensures
        buttons_after(codes, buttons_after(codes, buttons, code, pressed), code, pressed)
            == buttons_after(codes, buttons, code, pressed),
{
    lemma_key_index_in(codes, code);
    let once = buttons_after(codes, buttons, code, pressed);
    assert(buttons_after(codes, once, code, pressed) =~= once);
}

/// Letting go of a key undoes pressing it, where it was not held before.
pub proof fn law_release_undoes_press(codes: Seq<u16>, buttons: Seq<bool>, code: u16)
    requires
        key_index(codes, code) matches Some(i) ==> (i < buttons.len() ==> !buttons[i]),
    ensures
        buttons_after(codes, buttons_after(codes, buttons, code, true), code, false) == buttons,
{
    lemma_key_index_in(codes, code);
    let down = buttons_after(codes, buttons, code, true);
    assert(buttons_after(codes, down, code, false) =~= buttons);
}

/// A key event moves no button but its own.
pub proof fn law_other_buttons_unchanged(
    codes: Seq<u16>,
    buttons: Seq<bool>,
    code: u16,
    pressed: bool,
    other: int,
)
    requires
        0 <= other < codes.len(),
        other < buttons.len(),
        codes[other] != code,
    ensures
        buttons_after(codes, buttons, code, pressed).len() == buttons.len(),
        buttons_after(codes, buttons, code, pressed)[other] == buttons[other],
{
    lemma_key_index_in(codes, code);
}

/// A mirrored key shows in the report that follows: its bit is set while the
/// key is down and clear while it is up.
pub proof fn law_key_is_reported(
    map: MirrorMap,
    before: report::GamepadView,
    after: report::GamepadView,
    code: u16,
    pressed: bool,
)
    requires
        map.wf(),
        before.buttons.len() == map.codes@.len(),
        map.codes@.contains(code),
        after.buttons == buttons_after(map.codes@, before.buttons, code, pressed),
    ensures
        key_index(map.codes@, code) matches Some(i) && report::bit_of(
            mirror_report(map, after)[i / 8],
            i % 8,
        ) == pressed,
{
    lemma_key_index_in(map.codes@, code);
    let i = key_index(map.codes@, code)->0;
    report::law_button_bits(
        map.codes@.len() as u8,
        axis_kinds(map.axes@),
        false,
        after,
        i,
    );
}

/// Applying an axis event again changes nothing more.
pub proof fn law_abs_idempotent(
    axes: Seq<(u32, GamepadAxis)>,
    values: Map<Seq<char>, i32>,
    abs: u32,
    value: i32,
)
    ensures
        axes_after(axes, axes_after(axes, values, abs, value), abs, value) == axes_after(
            axes,
            values,
            abs,
            value,
        ),
{
}

/// A mirrored axis is reported at the value it moved to, cut to 16 bits, and
/// an axis of another name as before.
pub proof fn law_abs_is_reported(
    axes: Seq<(u32, GamepadAxis)>,
    values: Map<Seq<char>, i32>,
    abs: u32,
    value: i32,
    other: GamepadAxis,
)
    ensures
        abs_axis(axes, abs) matches Some(axis) ==> report::axis_value(
            axes_after(axes, values, abs, value),
            axis,
        ) == report::clamped(value as int, -32767, 32767),
        abs_axis(axes, abs) != Some(other) ==> report::axis_value(
            axes_after(axes, values, abs, value),
            other,
        ) == report::axis_value(values, other),
{
    if let Some(axis) = abs_axis(axes, abs) {
        if axis != other && axis.spec_name() == other.spec_name() {
            layout::law_axis_names_distinct(axis, other);
        }
    }
}

/// Once a report was sent, saying the same of a key or an axis again makes no
/// other report due.
pub proof fn law_repetition_is_not_reported(
    m: MirrorView,
    code: u16,
    pressed: bool,
    abs: u32,
    value: i32,
)
    ensures
        !after_key(MirrorView { dirty: false, ..after_key(m, code, pressed) }, code, pressed).dirty,
        !after_abs(MirrorView { dirty: false, ..after_abs(m, abs, value) }, abs, value).dirty,
{
    law_key_idempotent(m.codes, m.buttons, code, pressed);
    law_abs_idempotent(m.axes, m.values, abs, value);
}

/// The physical axes 0 to 4 (X, Y, Z, RX and RY) are mirrored on the axes X,
/// Y, Z, Rx and Ry in that order, and no other axis is mirrored.
pub proof fn law_axis_codes(code: u32)
    ensures
        axis_for(code) == (if code == 0 {
            Some(GamepadAxis::X)
        } else if code == 1 {
            Some(GamepadAxis::Y)
        } else if code == 2 {
            Some(GamepadAxis::Z)
        } else if code == 3 {
            Some(GamepadAxis::Rx)
        } else if code == 4 {
            Some(GamepadAxis::Ry)
        } else {
            None
        }),
{
}

/// No two different physical axes share a gamepad axis.
pub proof fn law_axes_are_not_shared(a: u32, b: u32)
    requires
        axis_for(a) is Some,
        axis_for(a) == axis_for(b),
    ensures
        a == b,
{
}

/// Every entry of the mirrored axes is one of the codes with its own axis, and
/// every code up to 4 has an entry.
pub proof fn law_mirrored_axes(codes: Seq<u32>)
    ensures
        forall|i: int|
            0 <= i < axes_of(codes).len() ==> {
                let entry = #[trigger] axes_of(codes)[i];
                codes.contains(entry.0) && match entry.1 {
                    GamepadAxis::X => entry.0 == 0,
                    GamepadAxis::Y => entry.0 == 1,
                    GamepadAxis::Z => entry.0 == 2,
                    GamepadAxis::Rx => entry.0 == 3,
                    GamepadAxis::Ry => entry.0 == 4,
                }
            },
        forall|k: int|
            #![trigger codes[k]]
            0 <= k < codes.len() && codes[k] <= 4 ==> exists|i: int|
                0 <= i < axes_of(codes).len() && (#[trigger] axes_of(codes)[i]).0 == codes[k],
{
    broadcast use vstd::seq_lib::group_to_multiset_ensures;

    let axes = axes_of(codes);
    assert forall|i: int| 0 <= i < axes.len() implies {
        let entry = #[trigger] axes[i];
        codes.contains(entry.0) && match entry.1 {
            GamepadAxis::X => entry.0 == 0,
            GamepadAxis::Y => entry.0 == 1,
            GamepadAxis::Z => entry.0 == 2,
            GamepadAxis::Rx => entry.0 == 3,
            GamepadAxis::Ry => entry.0 == 4,
        }
    } by {
        let entry = axes[i];
        law_axes_complete(codes, entry.0, entry.1);
        assert(axes.contains(entry));
        assert(axes.to_multiset().count(entry) > 0);
        law_axis_codes(entry.0);
    }
    assert forall|k: int|
        #![trigger codes[k]]
        0 <= k < codes.len() && codes[k] <= 4 implies exists|i: int|
        0 <= i < axes.len() && (#[trigger] axes[i]).0 == codes[k] by {
        let code = codes[k];
        law_axis_codes(code);
        let axis = axis_for(code)->0;
        law_axes_complete(codes, code, axis);
        assert(codes.contains(code));
        assert(codes.to_multiset().count(code) > 0);
        assert(axes.contains((code, axis)));
        let i = choose|i: int| 0 <= i < axes.len() && axes[i] == (code, axis);
        assert(axes[i].0 == code);
    }
}

/// The report that the mirror makes of what it holds.
pub open spec fn report_of(m: MirrorView) -> Seq<u8> {
    report::gamepad_report(
        m.codes.len() as u8,
        axis_kinds(m.axes),
        false,
        report::GamepadView { buttons: m.buttons, axes: m.values, hat: m.hat },
    )
}

/// What the report says of the mirrored axis with this number.
pub open spec fn reported_axis(m: MirrorView, j: int) -> int {
    report::signed_at(report_of(m), (m.codes.len() + 7) / 8 + 2 * j)
}

proof fn lemma_reported_axis(m: MirrorView, j: int)
    requires
        m.codes.len() <= 32,
        0 <= j < m.axes.len(),
    ensures
        reported_axis(m, j) == report::axis_value(m.values, m.axes[j].1),
{
    let view = report::GamepadView { buttons: m.buttons, axes: m.values, hat: m.hat };
    let kinds = axis_kinds(m.axes);
    assert(kinds[j] == m.axes[j].1);
    assert(m.codes.len() as u8 == m.codes.len());
    report::law_axis_reads_back(m.codes.len() as u8, kinds, false, view, j);
}

proof fn lemma_abs_axis(axes: Seq<(u32, GamepadAxis)>, abs: u32)
    requires
        forall|i: int|
            0 <= i < axes.len() ==> axis_for((#[trigger] axes[i]).0) == Some(axes[i].1),
    ensures
        abs_axis(axes, abs) matches Some(axis) ==> axis_for(abs) == Some(axis),
        abs_axis(axes, abs) is None ==> forall|i: int|
            0 <= i < axes.len() ==> (#[trigger] axes[i]).0 != abs,
    decreases axes.len(),
{
    if axes.len() != 0 && axes[0].0 != abs {
        let rest = axes.drop_first();
        assert forall|i: int| 0 <= i < rest.len() implies axis_for((#[trigger] rest[i]).0) == Some(
            rest[i].1,
        ) by {
            assert(rest[i] == axes[i + 1]);
        }
        lemma_abs_axis(rest, abs);
        if abs_axis(axes, abs) is None {
            assert forall|i: int| 0 <= i < axes.len() implies (#[trigger] axes[i]).0 != abs by {
                if i > 0 {
                    assert(rest[i - 1] == axes[i]);
                }
            }
        }
    }
}

/// Moving a physical axis shows in the report at each place of that axis, as
/// the value it moved to, cut to what 16 bits hold symmetrically; what the
/// report says of every other physical axis stays as it was.
pub proof fn law_axis_moves_alone(m: MirrorView, codes: Seq<u32>, abs: u32, value: i32, j: int)
    requires
        m.axes == axes_of(codes),
        m.codes.len() <= 32,
        0 <= j < m.axes.len(),
    ensures
        m.axes[j].0 != abs ==> reported_axis(after_abs(m, abs, value), j) == reported_axis(m, j),
        m.axes[j].0 == abs ==> reported_axis(after_abs(m, abs, value), j) == (if value < -32767 {
            -32767
        } else if value > 32767 {
            32767
        } else {
            value as int
        }),
{
    law_mirrored_axes(codes);
    assert forall|i: int| 0 <= i < m.axes.len() implies axis_for((#[trigger] m.axes[i]).0)
        == Some(m.axes[i].1) by {
        law_axis_codes(m.axes[i].0);
        assert(axes_of(codes)[i] == m.axes[i]);
    }
    lemma_abs_axis(m.axes, abs);
    let after = after_abs(m, abs, value);
    lemma_reported_axis(m, j);
    lemma_reported_axis(after, j);
    let own = m.axes[j];
    assert(axis_for(own.0) == Some(own.1));
    law_abs_is_reported(m.axes, m.values, abs, value, own.1);
    if own.0 != abs && abs_axis(m.axes, abs) == Some(own.1) {
        law_axes_are_not_shared(own.0, abs);
    }
}

/// Moving an axis touches no button, and a key touches no axis.
pub proof fn law_keys_and_axes_are_apart(
    m: MirrorView,
    code: u16,
    pressed: bool,
    abs: u32,
    value: i32,
)
    ensures
        after_abs(m, abs, value).buttons == m.buttons,
        after_key(m, code, pressed).values == m.values,
        after_abs(m, abs, value).codes == m.codes && after_abs(m, abs, value).axes == m.axes,
        after_key(m, code, pressed).codes == m.codes && after_key(m, code, pressed).axes == m.axes,
        after_abs(m, abs, value).hat == m.hat && after_key(m, code, pressed).hat == m.hat,
{
}

/// Whatever changes the report makes one due, and one that is due stays due.
pub proof fn law_changed_report_is_due(
    m: MirrorView,
    code: u16,
    pressed: bool,
    abs: u32,
    value: i32,
)
    ensures
        report_of(after_key(m, code, pressed)) != report_of(m) ==> after_key(
            m,
            code,
            pressed,
        ).dirty,
        report_of(after_abs(m, abs, value)) != report_of(m) ==> after_abs(m, abs, value).dirty,
        m.dirty ==> after_key(m, code, pressed).dirty && after_abs(m, abs, value).dirty,
{
}

/// A key goes down and up on its own button: after a press the button is down,
/// after a release it is up, whatever it was before.
pub proof fn law_key_moves_its_button(m: MirrorView, code: u16, i: int)
    requires
        m.buttons.len() == m.codes.len(),
        0 <= i < m.codes.len(),
        m.codes[i] == code,
        forall|j: int| 0 <= j < i ==> m.codes[j] != code,
    ensures
        after_key(m, code, true).buttons[i],
        !after_key(m, code, false).buttons[i],
        !after_key(after_key(m, code, true), code, false).buttons[i],
        forall|j: int, pressed: bool|
            0 <= j < m.codes.len() && j != i ==> #[trigger] after_key(m, code, pressed).buttons[j]
                == m.buttons[j],
{
    lemma_key_index(m.codes, code, i);
}

/// A mirror keeps as many codes as there are, and 32 at most; in increasing
/// order, each of them one of the codes, and none above one that it leaves out.
pub proof fn law_kept_codes(codes: Seq<u16>)
    ensures
        ({
            let kept = kept_codes(codes);
            let all = sorted(codes);
            &&& kept.len() == if codes.len() < 32 {
                codes.len() as int
            } else {
                32
            }
            &&& forall|i: int, j: int| 0 <= i <= j < kept.len() ==> kept[i] <= kept[j]
            &&& forall|i: int| 0 <= i < kept.len() ==> codes.contains(#[trigger] kept[i])
            &&& all.to_multiset() == codes.to_multiset()
            &&& forall|i: int, j: int|
                0 <= i < kept.len() && kept.len() <= j < all.len() ==> #[trigger] kept[i]
                    <= #[trigger] all[j]
            &&& kept == all.take(kept.len() as int)
        }),
{
    broadcast use vstd::seq_lib::group_to_multiset_ensures;

    law_sorted(codes);
    let kept = kept_codes(codes);
    let all = sorted(codes);
    assert(all.len() == all.to_multiset().len());
    assert(codes.len() == codes.to_multiset().len());
    assert(kept =~= all.take(kept.len() as int));
    assert forall|i: int| 0 <= i < kept.len() implies codes.contains(#[trigger] kept[i]) by {
        assert(all.contains(all[i]));
        assert(all.to_multiset().count(kept[i]) > 0);
        assert(codes.to_multiset().count(kept[i]) > 0);
    }
}

/// The report that a mirror sends is the one that its contents make.
pub proof fn law_mirror_sends_its_contents(m: Mirror)
    ensures
        mirror_report(m.map(), m.state()@) == report_of(m@),
{
}

/// A mirror is registered as standing at `keyforge/input0`.
pub proof fn law_place_of_mirrors(i: int)
    ensures
        mirror_phys().len() == "keyforge/input0"@.len(),
        0 <= i < mirror_phys().len() ==> mirror_phys()[i] as int == "keyforge/input0"@[i] as int,
{
    reveal_strlit("keyforge/input0");
    assert(0 <= i < 15 ==> i == 0 || i == 1 || i == 2 || i == 3 || i == 4 || i == 5 || i == 6 || i
        == 7 || i == 8 || i == 9 || i == 10 || i == 11 || i == 12 || i == 13 || i == 14);
}

} // verus!
