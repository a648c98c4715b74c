//! What scripts ask of their devices, on values that were read from them.

use vstd::prelude::*;

use crate::device::{Transfer, UhidDevice};
use crate::error;
use crate::error::UhidError;
use crate::event;
use crate::event::{
    CreateParams, BUS_BLUETOOTH, BUS_USB, BUS_VIRTUAL, UHID_DATA_MAX,
    UHID_DEV_NUMBERED_FEATURE_REPORTS, UHID_DEV_NUMBERED_INPUT_REPORTS,
    UHID_DEV_NUMBERED_OUTPUT_REPORTS, UHID_FEATURE_REPORT, UHID_INPUT_REPORT, UHID_OUTPUT_REPORT,
};
use crate::kernel::{KernelEvent, KernelEventView};
use crate::layout;
use crate::layout::{
    gamepad_descriptor, keyboard_descriptor, mouse_descriptor, GamepadAxis, ReportLayout,
    MAX_AXES, MAX_BUTTONS,
};
use crate::registry;
use crate::registry::{CreatePlan, PlanError, Registry, RegistryEntry};
use crate::report;
use crate::report::{
    pack_gamepad, pack_keyboard, pack_mouse, GamepadState, KeyboardState, MouseState,
};
use crate::strmap::StrMap;
use crate::text;
use crate::text::{from_utf8_lossy, same_text};

verus! {

/// The number of buttons of a gamepad that does not say how many it has.
pub const DEFAULT_BUTTONS: u8 = 16;

/// Why a script's request was refused.
#[derive(Debug)]
pub enum ScriptError {
    /// A gamepad was asked for with an axis that does not exist.
    UnknownAxis(String),
    /// A device was asked for without a report descriptor.
    NeedsDescriptor,
    /// The device does not exist any more.
    UnknownDevice,
    /// The device was destroyed before.
    AlreadyDestroyed,
    /// The request does not fit the device.
    Device(UhidError),
}

/// The words for an error.
pub open spec fn script_error_text(e: ScriptError) -> Seq<char> {
    match e {
        ScriptError::UnknownAxis(name) => "unknown gamepad axis: "@ + name@,
        ScriptError::NeedsDescriptor => "uh.create needs a descriptor"@,
        ScriptError::UnknownDevice => "unknown or destroyed uhid device"@,
        ScriptError::AlreadyDestroyed => "uhid device already destroyed"@,
        ScriptError::Device(e) => error::error_text(e),
    }
}

impl ScriptError {
    /// The words for the error.
    pub fn message(&self) -> (s: String)
        ensures
            s@ == script_error_text(*self),
    {
        match self {
            ScriptError::UnknownAxis(name) => {
                let mut s = "unknown gamepad axis: ".to_owned();
                s.append(name.as_str());
                s
            },
            ScriptError::NeedsDescriptor => "uh.create needs a descriptor".to_owned(),
            ScriptError::UnknownDevice => "unknown or destroyed uhid device".to_owned(),
            ScriptError::AlreadyDestroyed => "uhid device already destroyed".to_owned(),
            ScriptError::Device(e) => e.message(),
        }
    }
}

/// A layout as scripts see it: its kind, its descriptor and, for a gamepad,
/// its parts.
#[derive(Debug)]
pub struct LayoutTable {
    pub kind: &'static str,
    pub descriptor: Vec<u8>,
    pub gamepad: Option<GamepadTable>,
}

/// The parts of a gamepad layout.
#[derive(Debug)]
pub struct GamepadTable {
    pub buttons: u8,
    pub axes: Vec<&'static str>,
    pub hat: bool,
}

/// The axis names that a gamepad is asked for with.
pub open spec fn wanted_names(names: Seq<Seq<char>>) -> Seq<Seq<char>> {
    if names.len() == 0 {
        seq!["x"@, "y"@]
    } else {
        names
    }
}

/// Whether `i` is the first of the names that stands for no axis.
pub open spec fn first_unknown(names: Seq<Seq<char>>, i: int) -> bool {
    &&& 0 <= i < names.len()
    &&& layout::axis_named(names[i]) is None
    &&& forall|j: int| 0 <= j < i ==> layout::axis_named(#[trigger] names[j]) is Some
}

/// Whether every name stands for an axis.
pub open spec fn all_known(names: Seq<Seq<char>>) -> bool {
    forall|j: int| 0 <= j < names.len() ==> layout::axis_named(#[trigger] names[j]) is Some
}

/// The axes that names stand for, those that stand for none left out.
pub open spec fn known_axes(names: Seq<Seq<char>>) -> Seq<GamepadAxis>
    decreases names.len(),
{
    if names.len() == 0 {
        Seq::empty()
    } else {
        let before = known_axes(names.drop_last());
        match layout::axis_named(names.last()) {
            Some(axis) => before.push(axis),
            None => before,
        }
    }
}

/// The value that was given, or the one that stands in for it.
pub open spec fn or_else<T>(v: Option<T>, other: T) -> T {
    match v {
        Some(x) => x,
        None => other,
    }
}

/// Whether a gamepad can have so many buttons and axes.
pub open spec fn counts_fit(buttons: u8, axes: nat) -> bool {
    1 <= buttons <= MAX_BUTTONS && 1 <= axes <= MAX_AXES
}

proof fn lemma_known_axes_len(names: Seq<Seq<char>>)
    requires
        all_known(names),
    ensures
        known_axes(names).len() == names.len(),
    decreases names.len(),
{
    if names.len() != 0 {
        let front = names.drop_last();
        assert forall|j: int| 0 <= j < front.len() implies layout::axis_named(
            #[trigger] front[j],
        ) is Some by {
            assert(front[j] == names[j]);
        }
        lemma_known_axes_len(front);
        assert(names[names.len() - 1] == names.last());
    }
}

/// The axes that the names stand for.
fn read_axes(names: &Vec<String>) -> (r: Vec<GamepadAxis>)
    ensures
        r@ == known_axes(text::string_texts(names@)),
{
    let ghost all = text::string_texts(names@);
    let mut axes: Vec<GamepadAxis> = Vec::new();
    let mut i: usize = 0;
    assert(axes@ =~= known_axes(all.take(0)));
    while i < names.len()
        invariant
            i <= names@.len(),
            all == text::string_texts(names@),
            axes@ == known_axes(all.take(i as int)),
        decreases names@.len() - i,
    {
        assert(all.take(i + 1).drop_last() =~= all.take(i as int));
        match GamepadAxis::from_name(names[i].as_str()) {
            Some(axis) => {
                axes.push(axis);
            },
            None => {},
        }
        i += 1;
    }
    assert(all.take(i as int) =~= all);
    axes
}

/// The first of the names that stands for no axis.
fn find_unknown(names: &Vec<String>) -> (r: Option<usize>)
    ensures
        match r {
            Some(i) => first_unknown(text::string_texts(names@), i as int),
            None => all_known(text::string_texts(names@)),
        },
{
    let ghost all = text::string_texts(names@);
    let mut i: usize = 0;
    while i < names.len()
        invariant
            i <= names@.len(),
            all == text::string_texts(names@),
            forall|j: int| 0 <= j < i ==> layout::axis_named(#[trigger] all[j]) is Some,
        decreases names@.len() - i,
    {
        assert(all[i as int] == names@[i as int]@);
        if GamepadAxis::from_name(names[i].as_str()).is_none() {
            return Some(i);
        }
        i += 1;
    }
    None
}

/// The names of axes.
fn axis_names(axes: &Vec<GamepadAxis>) -> (r: Vec<&'static str>)
    ensures
        r@.len() == axes@.len(),
        forall|i: int| 0 <= i < r@.len() ==> (#[trigger] r@[i])@ == axes@[i].spec_name(),
{
    let mut out: Vec<&'static str> = Vec::new();
    let mut i: usize = 0;
    while i < axes.len()
        invariant
            i <= axes@.len(),
            out@.len() == i,
            forall|j: int| 0 <= j < i ==> (#[trigger] out@[j])@ == axes@[j].spec_name(),
        decreases axes@.len() - i,
    {
        out.push(axes[i].name());
        i += 1;
    }
    out
}

/// The layout of a boot keyboard.
pub fn keyboard_table() -> (t: LayoutTable)
    ensures
        t.kind@ == "keyboard"@,
        t.descriptor@ == layout::keyboard_bytes(),
        t.gamepad is None,
{
    LayoutTable { kind: "keyboard", descriptor: keyboard_descriptor(), gamepad: None }
}

/// The layout of a boot mouse.
pub fn mouse_table() -> (t: LayoutTable)
    ensures
        t.kind@ == "mouse"@,
        t.descriptor@ == layout::mouse_bytes(),
        t.gamepad is None,
{
    LayoutTable { kind: "mouse", descriptor: mouse_descriptor(), gamepad: None }
}

/// The layout of a gamepad: sixteen buttons, the axes x and y and no hat
/// where nothing else was asked for.
pub fn gamepad_table(buttons: Option<u8>, names: Vec<String>, hat: Option<bool>) -> (r: Result<
    LayoutTable,
    ScriptError,
>)
    ensures
        ({
            let wanted = wanted_names(text::string_texts(names@));
            let count = or_else(buttons, DEFAULT_BUTTONS);
            match r {
                Ok(t) => {
                    &&& all_known(wanted)
                    &&& counts_fit(count, wanted.len())
                    &&& t.kind@ == "gamepad"@
                    &&& t.descriptor@ == layout::gamepad_bytes(
                        count,
                        known_axes(wanted),
                        or_else(hat, false),
                    )
                    &&& t.gamepad matches Some(g) && {
                        &&& g.buttons == count
                        &&& g.hat == or_else(hat, false)
                        &&& g.axes@.len() == wanted.len()
                        &&& forall|i: int|
                            0 <= i < g.axes@.len() ==> (#[trigger] g.axes@[i])@ == known_axes(
                                wanted,
                            )[i].spec_name()
                    }
                },
                Err(ScriptError::UnknownAxis(name)) => exists|i: int| #[trigger]
                    first_unknown(wanted, i) && name@ == wanted[i],
                Err(ScriptError::Device(e)) => all_known(wanted) && !counts_fit(
                    count,
                    wanted.len(),
                ) && e == (if count == 0 || count > MAX_BUTTONS {
                    UhidError::ButtonCount
                } else {
                    UhidError::AxisCount
                }),
                Err(_) => false,
            }
        }),
{
    let count: u8 = match buttons {
        Some(n) => n,
        None => DEFAULT_BUTTONS,
    };
    let ghost wanted = wanted_names(text::string_texts(names@));
    let mut names = names;
    if names.len() == 0 {
        names.push("x".to_owned());
        names.push("y".to_owned());
        assert(text::string_texts(names@) =~= seq!["x"@, "y"@]);
    }
    assert(text::string_texts(names@) == wanted);
    if let Some(i) = find_unknown(&names) {
        let name = names[i].as_str().to_owned();
        assert(first_unknown(wanted, i as int) && name@ == wanted[i as int]);
        return Err(ScriptError::UnknownAxis(name));
    }
    proof {
        lemma_known_axes_len(wanted);
    }
    let axes = read_axes(&names);
    let hat = match hat {
        Some(h) => h,
        None => false,
    };
    let shown = axis_names(&axes);
    let descriptor = gamepad_descriptor(count, axes.as_slice(), hat);
    match ReportLayout::gamepad(count, axes, hat) {
        Ok(_) => Ok(
            LayoutTable {
                kind: "gamepad",
                descriptor,
                gamepad: Some(GamepadTable { buttons: count, axes: shown, hat }),
            },
        ),
        Err(e) => Err(ScriptError::Device(e)),
    }
}

/// The axes that a device is given: those that the names stand for, or x and y
/// where none does.
pub open spec fn device_axes(names: Seq<Seq<char>>) -> Seq<GamepadAxis> {
    if known_axes(names).len() == 0 {
        seq![GamepadAxis::X, GamepadAxis::Y]
    } else {
        known_axes(names)
    }
}

/// The layout that a new device gets: that of the kind it names, if it names
/// one. Unlike a layout that is asked for by itself, one of a gamepad leaves
/// out the names that stand for no axis.
pub fn device_layout(
    kind: Option<&str>,
    buttons: Option<u8>,
    names: &Vec<String>,
    hat: Option<bool>,
) -> (r: Result<Option<ReportLayout>, UhidError>)
    ensures
        ({
            let axes = device_axes(text::string_texts(names@));
            let count = or_else(buttons, DEFAULT_BUTTONS);
            let gamepad = kind matches Some(k) && k@ == "gamepad"@;
            let keyboard = kind matches Some(k) && k@ == "keyboard"@;
            let mouse = kind matches Some(k) && k@ == "mouse"@;
            match r {
                Ok(Some(ReportLayout::Gamepad { buttons: b, axes: a, hat: h })) => gamepad
                    && counts_fit(count, axes.len()) && b == count && a@ == axes && h == or_else(
                    hat,
                    false,
                ),
                Ok(Some(ReportLayout::Keyboard)) => !gamepad && keyboard,
                Ok(Some(ReportLayout::Mouse)) => !gamepad && !keyboard && mouse,
                Ok(None) => !gamepad && !keyboard && !mouse,
                Err(e) => gamepad && !counts_fit(count, axes.len()) && e == (if count == 0 || count
                    > MAX_BUTTONS {
                    UhidError::ButtonCount
                } else {
                    UhidError::AxisCount
                }),
            }
        }),
{
    let kind = match kind {
        Some(k) => k,
        None => {
            return Ok(None);
        },
    };
    if same_text(kind, "gamepad") {
        let count: u8 = match buttons {
            Some(n) => n,
            None => DEFAULT_BUTTONS,
        };
        let mut axes = read_axes(names);
        if axes.len() == 0 {
            axes.push(GamepadAxis::X);
            axes.push(GamepadAxis::Y);
            assert(axes@ =~= seq![GamepadAxis::X, GamepadAxis::Y]);
        }
        let hat = match hat {
            Some(h) => h,
            None => false,
        };
        match ReportLayout::gamepad(count, axes, hat) {
            Ok(layout) => Ok(Some(layout)),
            Err(e) => Err(e),
        }
    } else if same_text(kind, "keyboard") {
        Ok(Some(ReportLayout::Keyboard))
    } else if same_text(kind, "mouse") {
        Ok(Some(ReportLayout::Mouse))
    } else {
        Ok(None)
    }
}

/// A gamepad that was built by itself has the layout that a device gets when
/// it is created with the same parts.
pub proof fn law_built_gamepads_can_be_created(names: Seq<Seq<char>>)
    requires
        all_known(wanted_names(names)),
    ensures
        known_axes(wanted_names(names)) == device_axes(names),
{
    if names.len() == 0 {
        let wanted = wanted_names(names);
        reveal_strlit("x");
        reveal_strlit("y");
        assert("x"@ =~= GamepadAxis::X.spec_name());
        assert("y"@ =~= GamepadAxis::Y.spec_name());
        layout::law_axis_found_by_name(GamepadAxis::X);
        layout::law_axis_found_by_name(GamepadAxis::Y);
        assert(wanted.drop_last() =~= seq!["x"@]);
        assert(wanted.drop_last().drop_last() =~= Seq::<Seq<char>>::empty());
        reveal_with_fuel(known_axes, 3);
        assert(known_axes(wanted) =~= seq![GamepadAxis::X, GamepadAxis::Y]);
    } else {
        lemma_known_axes_len(names);
    }
}

/// What a script says of a device that it asks for. Bytes that it leaves out
/// are empty.
#[derive(Debug)]
pub struct CreateRequest {
    pub name: Vec<u8>,
    pub phys: Vec<u8>,
    pub uniq: Vec<u8>,
    pub bus: Option<u16>,
    pub vendor: Option<u32>,
    pub product: Option<u32>,
    pub version: Option<u32>,
    pub country: Option<u32>,
    pub descriptor: Vec<u8>,
}

fn number_or(v: Option<u32>, other: u32) -> (r: u32)
    ensures
        r == or_else(v, other),
{
    match v {
        Some(n) => n,
        None => other,
    }
}

impl CreateRequest {
    /// What the device is registered with: on the USB bus and with zeros
    /// where the script says nothing else.
    pub fn params(self) -> (p: CreateParams)
        ensures
            p.name@ == self.name@,
            p.phys@ == self.phys@,
            p.uniq@ == self.uniq@,
            p.bus == or_else(self.bus, BUS_USB),
            p.vendor == or_else(self.vendor, 0),
            p.product == or_else(self.product, 0),
            p.version == or_else(self.version, 0),
            p.country == or_else(self.country, 0),
            p.descriptor@ == self.descriptor@,
    {
        let bus: u16 = match self.bus {
            Some(n) => n,
            None => BUS_USB,
        };
        CreateParams {
            name: self.name,
            phys: self.phys,
            uniq: self.uniq,
            bus,
            vendor: number_or(self.vendor, 0),
            product: number_or(self.product, 0),
            version: number_or(self.version, 0),
            country: number_or(self.country, 0),
            descriptor: self.descriptor,
        }
    }
}

/// Decides how a request for a device is met, and gives the text of its name.
pub fn plan_request(registry: &mut Registry, request: &CreateRequest) -> (r: (
    String,
    Result<CreatePlan, ScriptError>,
))
    ensures
        r.0@ == text::lossy(request.name@),
        final(registry).next() == old(registry).next(),
        final(registry).pending() == old(registry).pending(),
        old(registry).wf() ==> final(registry).wf(),
        match r.1 {
            Ok(plan) => registry::planned(
                old(registry).devices(),
                text::lossy(request.name@),
                request.descriptor@,
                Ok(plan),
                final(registry).devices(),
            ),
            Err(e) => {
                &&& e is NeedsDescriptor
                &&& request.descriptor@.len() == 0
                &&& final(registry).devices() == old(registry).devices()
            },
        },
{
    let name = from_utf8_lossy(request.name.as_slice());
    let plan = registry.plan_create(name.as_str(), request.descriptor.as_slice());
    match plan {
        Ok(plan) => (name, Ok(plan)),
        Err(PlanError::NeedsDescriptor) => (name, Err(ScriptError::NeedsDescriptor)),
    }
}

/// Ends the creation of a device that was opened. It gets its id only where
/// the event that registers it was written, its layout is sound and an id is
/// left; else it is handed back to be closed, and nothing changes.
pub fn finish_create(
    registry: &mut Registry,
    name: String,
    descriptor: Vec<u8>,
    device: UhidDevice,
    written: bool,
    layout: Result<Option<ReportLayout>, UhidError>,
) -> (r: Result<u32, UhidDevice>)
    requires
        old(registry).wf(),
    ensures
        final(registry).wf(),
        r is Ok == registry::goes_well(old(registry)@, written, layout),
        match r {
            Ok(id) => {
                &&& id == old(registry).next()
                &&& layout matches Ok(l) && {
                    let entry = RegistryEntry { name, descriptor, device, layout: l };
                    &&& final(registry).devices() == old(registry).devices().insert(id, entry)
                    &&& registry::finishes(
                        old(registry)@,
                        entry,
                        written,
                        layout,
                        final(registry)@,
                    )
                }
                &&& final(registry).next() == id + 1
            },
            Err(d) => {
                &&& d == device
                &&& final(registry).devices() == old(registry).devices()
                &&& final(registry).next() == old(registry).next()
            },
        },
        final(registry).pending() == old(registry).pending(),
{
    if !written || !registry.has_room() {
        return Err(device);
    }
    match layout {
        Ok(l) => Ok(registry.insert(name, descriptor, device, l)),
        Err(_) => Err(device),
    }
}

/// What a script says of the state of a device: whatever it did not say, or
/// said in a form that does not fit, is left out.
#[derive(Debug)]
pub struct ScriptInput {
    /// The numbers of the buttons that are down, from one.
    pub button_list: Option<Vec<u32>>,
    /// For each button whether it is down, where there is no list.
    pub held: Vec<Option<bool>>,
    pub x: Option<i32>,
    pub y: Option<i32>,
    pub z: Option<i32>,
    pub rx: Option<i32>,
    pub ry: Option<i32>,
    pub hat: Option<u8>,
    pub modifiers: Option<u8>,
    pub keys: Option<Vec<u8>>,
    /// The buttons of a mouse, one bit each.
    pub button_bits: Option<u8>,
    pub wheel: Option<i32>,
}

/// The buttons of a gamepad that a script says are down.
pub open spec fn said_buttons(input: ScriptInput, count: u8) -> Seq<bool> {
    match input.button_list {
        Some(list) => Seq::new(count as nat, |i: int| list@.contains((i + 1) as u32)),
        None => Seq::new(
            count as nat,
            |i: int| i < input.held@.len() && input.held@[i] == Some(true),
        ),
    }
}

/// `m` with `v` for `axis`, if there is one.
pub open spec fn with_axis(m: Map<Seq<char>, i32>, axis: GamepadAxis, v: Option<i32>) -> Map<
    Seq<char>,
    i32,
> {
    match v {
        Some(n) => m.insert(axis.spec_name(), n),
        None => m,
    }
}

/// The axis values that a script gives.
pub open spec fn said_axes(input: ScriptInput) -> Map<Seq<char>, i32> {
    let x = with_axis(Map::empty(), GamepadAxis::X, input.x);
    let y = with_axis(x, GamepadAxis::Y, input.y);
    let z = with_axis(y, GamepadAxis::Z, input.z);
    let rx = with_axis(z, GamepadAxis::Rx, input.rx);
    with_axis(rx, GamepadAxis::Ry, input.ry)
}

/// The report that a device with this layout makes of what a script says.
pub open spec fn said_report(layout: ReportLayout, input: ScriptInput) -> Seq<u8> {
    match layout {
        ReportLayout::Gamepad { buttons, axes, hat } => report::gamepad_report(
            buttons,
            axes@,
            hat,
            report::GamepadView {
                buttons: said_buttons(input, buttons),
                axes: said_axes(input),
                hat: or_else(input.hat, 0),
            },
        ),
        ReportLayout::Keyboard => report::keyboard_report(
            or_else(input.modifiers, 0),
            match input.keys {
                Some(keys) => keys@,
                None => Seq::empty(),
            },
        ),
        ReportLayout::Mouse => report::mouse_report(
            MouseState {
                buttons: or_else(input.button_bits, 0),
                x: or_else(input.x, 0),
                y: or_else(input.y, 0),
                wheel: or_else(input.wheel, 0),
            },
        ),
    }
}

fn listed_buttons(list: &Vec<u32>, count: u8) -> (r: Vec<bool>)
    ensures
        r@ == Seq::new(count as nat, |i: int| list@.contains((i + 1) as u32)),
{
    let mut out: Vec<bool> = Vec::new();
    let mut n: u8 = 0;
    while n < count
        invariant
            n <= count,
            out@ == Seq::new(n as nat, |i: int| false),
        decreases count - n,
    {
        out.push(false);
        n += 1;
        assert(out@ =~= Seq::new(n as nat, |i: int| false));
    }
    let mut i: usize = 0;
    while i < list.len()
        invariant
            i <= list@.len(),
            out@.len() == count,
            forall|j: int|
                0 <= j < count ==> (#[trigger] out@[j] == list@.take(i as int).contains(
                    (j + 1) as u32,
                )),
        decreases list@.len() - i,
    {
        let b = list[i];
        let ghost before = list@.take(i as int);
        let ghost after = list@.take(i + 1);
        let ghost was = out@;
        if b >= 1 && b <= count as u32 {
            out[b as usize - 1] = true;
        }
        proof {
            assert(after[i as int] == b);
            assert forall|j: int| 0 <= j < count implies (#[trigger] out@[j] == after.contains(
                (j + 1) as u32,
            )) by {
                let v = (j + 1) as u32;
                if before.contains(v) {
                    let k = choose|k: int| 0 <= k < before.len() && before[k] == v;
                    assert(after[k] == v);
                }
                if after.contains(v) && v != b {
                    let k = choose|k: int| 0 <= k < after.len() && after[k] == v;
                    assert(before[k] == v);
                }
                assert(was[j] == before.contains(v));
            }
        }
        i += 1;
    }
    assert(list@.take(i as int) =~= list@);
    assert(out@ =~= Seq::new(count as nat, |i: int| list@.contains((i + 1) as u32)));
    out
}

fn held_buttons(held: &Vec<Option<bool>>, count: u8) -> (r: Vec<bool>)
    ensures
        r@ == Seq::new(count as nat, |i: int| i < held@.len() && held@[i] == Some(true)),
{
    let mut out: Vec<bool> = Vec::new();
    let mut n: u8 = 0;
    while n < count
        invariant
            n <= count,
            out@ == Seq::new(n as nat, |i: int| i < held@.len() && held@[i] == Some(true)),
        decreases count - n,
    {
        let i = n as usize;
        let down = if i < held.len() {
            match held[i] {
                Some(d) => d,
                None => false,
            }
        } else {
            false
        };
        out.push(down);
        n += 1;
        assert(out@ =~= Seq::new(n as nat, |i: int| i < held@.len() && held@[i] == Some(true)));
    }
    out
}

fn put_axis(axes: &mut StrMap<i32>, axis: GamepadAxis, v: Option<i32>)
    ensures
        final(axes)@ == with_axis(old(axes)@, axis, v),
{
    match v {
        Some(n) => {
            axes.insert(axis.name().to_owned(), n);
        },
        None => {},
    }
}

/// The report that a device makes of what a script says, if it has a layout.
pub fn input_report(layout: &Option<ReportLayout>, input: ScriptInput) -> (r: Result<
    Vec<u8>,
    UhidError,
>)
    ensures
        match layout {
            Some(l) => r matches Ok(report) && report@ == said_report(*l, input),
            None => r == Err::<Vec<u8>, UhidError>(UhidError::NoLayout),
        },
{
    let layout = match layout {
        Some(l) => l,
        None => {
            return Err(UhidError::NoLayout);
        },
    };
    let ghost said = input;
    match layout {
        ReportLayout::Gamepad { buttons, axes: _, hat: _ } => {
            let pressed = match &input.button_list {
                Some(list) => listed_buttons(list, *buttons),
                None => held_buttons(&input.held, *buttons),
            };
            let mut axes: StrMap<i32> = StrMap::new();
            put_axis(&mut axes, GamepadAxis::X, input.x);
            put_axis(&mut axes, GamepadAxis::Y, input.y);
            put_axis(&mut axes, GamepadAxis::Z, input.z);
            put_axis(&mut axes, GamepadAxis::Rx, input.rx);
            put_axis(&mut axes, GamepadAxis::Ry, input.ry);
            let hat: u8 = match input.hat {
                Some(h) => h,
                None => 0,
            };
            let state = GamepadState { buttons: pressed, axes, hat };
            assert(state@ == (report::GamepadView {
                buttons: said_buttons(said, *buttons),
                axes: said_axes(said),
                hat: or_else(said.hat, 0),
            }));
            pack_gamepad(layout, &state)
        },
        ReportLayout::Keyboard => {
            let modifiers: u8 = match input.modifiers {
                Some(m) => m,
                None => 0,
            };
            let keys: Vec<u8> = match input.keys {
                Some(k) => k,
                None => Vec::new(),
            };
            Ok(pack_keyboard(&KeyboardState { modifiers, keys }))
        },
        ReportLayout::Mouse => {
            let buttons: u8 = match input.button_bits {
                Some(b) => b,
                None => 0,
            };
            let x: i32 = match input.x {
                Some(v) => v,
                None => 0,
            };
            let y: i32 = match input.y {
                Some(v) => v,
                None => 0,
            };
            let wheel: i32 = match input.wheel {
                Some(v) => v,
                None => 0,
            };
            Ok(pack_mouse(&MouseState { buttons, x, y, wheel }))
        },
    }
}

/// Whether `t` is the whole of `event` on its way to the device with this id.
pub open spec fn sends(registry: Registry, id: u32, event: Seq<u8>, t: Transfer) -> bool {
    &&& registry.devices().contains_key(id)
    &&& t.spec_fd() == registry.devices()[id].device.spec_fd()
    &&& t.event() == event
    &&& t.sent() == 0
    &&& t.unfinished()
}

/// Sends a report as it is to the device with this id.
pub fn device_input_raw(registry: &Registry, id: u32, data: &[u8]) -> (r: Result<
    Transfer,
    ScriptError,
>)
    ensures
        match r {
            Ok(t) => data@.len() <= UHID_DATA_MAX && sends(
                *registry,
                id,
                event::input2_frame(data@),
                t,
            ),
            Err(ScriptError::UnknownDevice) => !registry.devices().contains_key(id),
            Err(ScriptError::Device(e)) => registry.devices().contains_key(id) && data@.len()
                > UHID_DATA_MAX && e == UhidError::InputTooLarge(data@.len() as usize),
            Err(_) => false,
        },
{
    match registry.with(id) {
        Some(entry) => match entry.device.input(data) {
            Ok(t) => Ok(t),
            Err(e) => Err(ScriptError::Device(e)),
        },
        None => Err(ScriptError::UnknownDevice),
    }
}

/// Sends what a script says to the device with this id, in its layout.
pub fn device_input(registry: &Registry, id: u32, input: ScriptInput) -> (r: Result<
    Transfer,
    ScriptError,
>)
    ensures
        if !registry.devices().contains_key(id) {
            r matches Err(e) && e is UnknownDevice
        } else {
            match registry.devices()[id].layout {
                None => r matches Err(e) && e == ScriptError::Device(UhidError::NoLayout),
                Some(layout) => {
                    let report = said_report(layout, input);
                    match r {
                        Ok(t) => report.len() <= UHID_DATA_MAX && sends(
                            *registry,
                            id,
                            event::input2_frame(report),
                            t,
                        ),
                        Err(e) => report.len() > UHID_DATA_MAX && e == ScriptError::Device(
                            UhidError::InputTooLarge(report.len() as usize),
                        ),
                    }
                },
            }
        },
{
    match registry.with(id) {
        Some(entry) => match input_report(&entry.layout, input) {
            Ok(report) => match entry.device.input(report.as_slice()) {
                Ok(t) => Ok(t),
                Err(e) => Err(ScriptError::Device(e)),
            },
            Err(e) => Err(ScriptError::Device(e)),
        },
        None => Err(ScriptError::UnknownDevice),
    }
}

/// Answers a `GetReport` of the device with this id.
pub fn device_get_report_reply(
    registry: &Registry,
    id: u32,
    request: u32,
    err: u16,
    data: &[u8],
) -> (r: Result<Transfer, ScriptError>)
    ensures
        match r {
            Ok(t) => data@.len() <= UHID_DATA_MAX && sends(
                *registry,
                id,
                event::get_report_reply_frame(request, err, data@),
                t,
            ),
            Err(ScriptError::UnknownDevice) => !registry.devices().contains_key(id),
            Err(ScriptError::Device(e)) => registry.devices().contains_key(id) && data@.len()
                > UHID_DATA_MAX && e == UhidError::ReplyTooLarge,
            Err(_) => false,
        },
{
    match registry.with(id) {
        Some(entry) => match entry.device.get_report_reply(request, err, data) {
            Ok(t) => Ok(t),
            Err(e) => Err(ScriptError::Device(e)),
        },
        None => Err(ScriptError::UnknownDevice),
    }
}

/// Answers a `SetReport` of the device with this id.
pub fn device_set_report_reply(registry: &Registry, id: u32, request: u32, err: u16) -> (r: Result<
    Transfer,
    ScriptError,
>)
    ensures
        match r {
            Ok(t) => sends(*registry, id, event::set_report_reply_frame(request, err), t),
            Err(e) => e is UnknownDevice && !registry.devices().contains_key(id),
        },
{
    match registry.with(id) {
        Some(entry) => Ok(entry.device.set_report_reply(request, err)),
        None => Err(ScriptError::UnknownDevice),
    }
}

/// Takes the device with this id out of the registry: the event that
/// unregisters it, and the device, which is to be closed after it.
pub fn device_destroy(registry: &mut Registry, id: u32) -> (r: Result<
    (Transfer, RegistryEntry),
    ScriptError,
>)
    ensures
        match r {
            Ok((t, entry)) => {
                &&& sends(*old(registry), id, event::destroy_frame(), t)
                &&& entry == old(registry).devices()[id]
            },
            Err(e) => e is AlreadyDestroyed && !old(registry).devices().contains_key(id),
        },
        final(registry).devices() == old(registry).devices().remove(id),
        final(registry).next() == old(registry).next(),
        final(registry).pending() == old(registry).pending(),
        old(registry).wf() ==> final(registry).wf(),
{
    match registry.remove(id) {
        Some(entry) => {
            let t = entry.device.destroy();
            Ok((t, entry))
        },
        None => Err(ScriptError::AlreadyDestroyed),
    }
}

/// A value of a table that scripts see.
#[derive(Debug, Clone, PartialEq, Eq)]
pub enum Field {
    Text(&'static str),
    Number(u64),
    Bytes(Vec<u8>),
}

/// What a `Field` holds.
#[verifier::ext_equal]
pub enum FieldView {
    Text(Seq<char>),
    Number(u64),
    Bytes(Seq<u8>),
}

impl View for Field {
    type V = FieldView;

    open spec fn view(&self) -> FieldView {
        match *self {
            Field::Text(s) => FieldView::Text(s@),
            Field::Number(n) => FieldView::Number(n),
            Field::Bytes(b) => FieldView::Bytes(b@),
        }
    }
}

/// The contents of a list of named fields.
pub open spec fn field_views(fields: Seq<(&'static str, Field)>) -> Seq<(Seq<char>, FieldView)> {
    fields.map_values(|f: (&'static str, Field)| (f.0@, f.1@))
}

/// The table that scripts see for a kernel event.
pub open spec fn event_table(event: KernelEventView) -> Seq<(Seq<char>, FieldView)> {
    match event {
        KernelEventView::Start { dev_flags } => seq![
            ("type"@, FieldView::Text("start"@)),
            ("dev_flags"@, FieldView::Number(dev_flags)),
        ],
        KernelEventView::Stop => seq![("type"@, FieldView::Text("stop"@))],
        KernelEventView::Open => seq![("type"@, FieldView::Text("open"@))],
        KernelEventView::Close => seq![("type"@, FieldView::Text("close"@))],
        KernelEventView::Output { rtype, data } => seq![
            ("type"@, FieldView::Text("output"@)),
            ("rtype"@, FieldView::Number(rtype as u64)),
            ("data"@, FieldView::Bytes(data)),
        ],
        KernelEventView::GetReport { id, rnum, rtype } => seq![
            ("type"@, FieldView::Text("get_report"@)),
            ("id"@, FieldView::Number(id as u64)),
            ("rnum"@, FieldView::Number(rnum as u64)),
            ("rtype"@, FieldView::Number(rtype as u64)),
        ],
        KernelEventView::SetReport { id, rnum, rtype, data } => seq![
            ("type"@, FieldView::Text("set_report"@)),
            ("id"@, FieldView::Number(id as u64)),
            ("rnum"@, FieldView::Number(rnum as u64)),
            ("rtype"@, FieldView::Number(rtype as u64)),
            ("data"@, FieldView::Bytes(data)),
        ],
        KernelEventView::Unknown { ty } => seq![
            ("type"@, FieldView::Text("unknown"@)),
            ("code"@, FieldView::Number(ty as u64)),
        ],
    }
}

/// The table that scripts see for a kernel event.
pub fn event_fields(event: &KernelEvent) -> (fields: Vec<(&'static str, Field)>)
    ensures
        field_views(fields@) == event_table(event@),
{
    let mut f: Vec<(&'static str, Field)> = Vec::new();
    match event {
        KernelEvent::Start { dev_flags } => {
            f.push(("type", Field::Text("start")));
            f.push(("dev_flags", Field::Number(*dev_flags)));
        },
        KernelEvent::Stop => {
            f.push(("type", Field::Text("stop")));
        },
        KernelEvent::Open => {
            f.push(("type", Field::Text("open")));
        },
        KernelEvent::Close => {
            f.push(("type", Field::Text("close")));
        },
        KernelEvent::Output { rtype, data } => {
            f.push(("type", Field::Text("output")));
            f.push(("rtype", Field::Number(*rtype as u64)));
            f.push(("data", Field::Bytes(vstd::slice::slice_to_vec(data.as_slice()))));
        },
        KernelEvent::GetReport { id, rnum, rtype } => {
            f.push(("type", Field::Text("get_report")));
            f.push(("id", Field::Number(*id as u64)));
            f.push(("rnum", Field::Number(*rnum as u64)));
            f.push(("rtype", Field::Number(*rtype as u64)));
        },
        KernelEvent::SetReport { id, rnum, rtype, data } => {
            f.push(("type", Field::Text("set_report")));
            f.push(("id", Field::Number(*id as u64)));
            f.push(("rnum", Field::Number(*rnum as u64)));
            f.push(("rtype", Field::Number(*rtype as u64)));
            f.push(("data", Field::Bytes(vstd::slice::slice_to_vec(data.as_slice()))));
        },
        KernelEvent::Unknown { ty } => {
            f.push(("type", Field::Text("unknown")));
            f.push(("code", Field::Number(*ty as u64)));
        },
    }
    assert(field_views(f@) =~= event_table(event@));
    f
}

/// The constants that scripts see.
pub open spec fn constant_table() -> Seq<(Seq<char>, u64)> {
    seq![
        ("BUS_USB"@, BUS_USB as u64),
        ("BUS_BLUETOOTH"@, BUS_BLUETOOTH as u64),
        ("BUS_VIRTUAL"@, BUS_VIRTUAL as u64),
        ("DATA_MAX"@, UHID_DATA_MAX as u64),
        ("FEATURE_REPORT"@, UHID_FEATURE_REPORT as u64),
        ("OUTPUT_REPORT"@, UHID_OUTPUT_REPORT as u64),
        ("INPUT_REPORT"@, UHID_INPUT_REPORT as u64),
        ("DEV_NUMBERED_FEATURE_REPORTS"@, UHID_DEV_NUMBERED_FEATURE_REPORTS),
        ("DEV_NUMBERED_OUTPUT_REPORTS"@, UHID_DEV_NUMBERED_OUTPUT_REPORTS),
        ("DEV_NUMBERED_INPUT_REPORTS"@, UHID_DEV_NUMBERED_INPUT_REPORTS),
    ]
}

/// The constants that scripts see.
pub fn constants() -> (r: Vec<(&'static str, u64)>)
    ensures
        r@.map_values(|c: (&'static str, u64)| (c.0@, c.1)) == constant_table(),
{
    let mut r: Vec<(&'static str, u64)> = Vec::new();
    r.push(("BUS_USB", BUS_USB as u64));
    r.push(("BUS_BLUETOOTH", BUS_BLUETOOTH as u64));
    r.push(("BUS_VIRTUAL", BUS_VIRTUAL as u64));
    r.push(("DATA_MAX", UHID_DATA_MAX as u64));
    r.push(("FEATURE_REPORT", UHID_FEATURE_REPORT as u64));
    r.push(("OUTPUT_REPORT", UHID_OUTPUT_REPORT as u64));
    r.push(("INPUT_REPORT", UHID_INPUT_REPORT as u64));
    r.push(("DEV_NUMBERED_FEATURE_REPORTS", UHID_DEV_NUMBERED_FEATURE_REPORTS));
    r.push(("DEV_NUMBERED_OUTPUT_REPORTS", UHID_DEV_NUMBERED_OUTPUT_REPORTS));
    r.push(("DEV_NUMBERED_INPUT_REPORTS", UHID_DEV_NUMBERED_INPUT_REPORTS));
    assert(r@.map_values(|c: (&'static str, u64)| (c.0@, c.1)) =~= constant_table());
    r
}

/// What a script gave for an axis under the name of that axis.
spec fn given(input: ScriptInput, axis: GamepadAxis) -> Option<i32> {
    match axis {
        GamepadAxis::X => input.x,
        GamepadAxis::Y => input.y,
        GamepadAxis::Z => input.z,
        GamepadAxis::Rx => input.rx,
        GamepadAxis::Ry => input.ry,
    }
}

proof fn lemma_said_axes(input: ScriptInput, axis: GamepadAxis)
    ensures
        given(input, axis) matches Some(v) ==> said_axes(input).contains_key(axis.spec_name())
            && said_axes(input)[axis.spec_name()] == v,
        given(input, axis) is None ==> !said_axes(input).contains_key(axis.spec_name()),
{
    assert forall|a: GamepadAxis, b: GamepadAxis| a.spec_name() == b.spec_name() implies a == b by {
        layout::law_axis_names_distinct(a, b);
    }
}

/// The report of a gamepad says of each of its axes what the script gave under
/// the name of that axis, cut to what 16 bits hold symmetrically, and 0 where
/// it gave nothing.
pub proof fn law_given_axes_are_reported(
    layout: ReportLayout,
    input: ScriptInput,
    buttons: u8,
    axes: Vec<GamepadAxis>,
    hat: bool,
    i: int,
)
    requires
        layout == (ReportLayout::Gamepad { buttons, axes, hat }),
        0 <= i < axes@.len(),
    ensures
        ({
            let number = match axes@[i] {
                GamepadAxis::X => input.x,
                GamepadAxis::Y => input.y,
                GamepadAxis::Z => input.z,
                GamepadAxis::Rx => input.rx,
                GamepadAxis::Ry => input.ry,
            };
            report::signed_at(said_report(layout, input), (buttons + 7) / 8 + 2 * i) == (
            match number {
                Some(v) => if v < -32767 {
                    -32767
                } else if v > 32767 {
                    32767
                } else {
                    v as int
                },
                None => 0,
            })
        }),
{
    lemma_said_axes(input, axes@[i]);
    let state = report::GamepadView {
        buttons: said_buttons(input, buttons),
        axes: said_axes(input),
        hat: or_else(input.hat, 0),
    };
    report::law_axis_reads_back(buttons, axes@, hat, state, i);
}

/// The report of a gamepad has the bit of a button set exactly where the script
/// listed the button's number, counted from one, or where it gave no list and
/// said of the button that it is down.
pub proof fn law_given_buttons_are_reported(
    layout: ReportLayout,
    input: ScriptInput,
    buttons: u8,
    axes: Vec<GamepadAxis>,
    hat: bool,
    i: int,
)
    requires
        layout == (ReportLayout::Gamepad { buttons, axes, hat }),
        0 <= i < buttons,
    ensures
        input.button_list matches Some(list) ==> report::bit_of(
            said_report(layout, input)[i / 8],
            i % 8,
        ) == (exists|k: int| 0 <= k < list@.len() && #[trigger] list@[k] == i + 1),
        input.button_list is None ==> report::bit_of(said_report(layout, input)[i / 8], i % 8) == (i
            < input.held@.len() && input.held@[i] == Some(true)),
{
    let state = report::GamepadView {
        buttons: said_buttons(input, buttons),
        axes: said_axes(input),
        hat: or_else(input.hat, 0),
    };
    report::law_button_bits(buttons, axes@, hat, state, i);
    if let Some(list) = input.button_list {
        let v = (i + 1) as u32;
        if list@.contains(v) {
            let k = choose|k: int| 0 <= k < list@.len() && list@[k] == v;
            assert(list@[k] == i + 1);
        }
        if exists|k: int| 0 <= k < list@.len() && #[trigger] list@[k] == i + 1 {
            let k = choose|k: int| 0 <= k < list@.len() && #[trigger] list@[k] == i + 1;
            assert(list@[k] == v);
        }
    }
}

/// The report of a gamepad with a hat ends with the hat that the script gave,
/// in four bits, and 0 where it gave none.
pub proof fn law_given_hat_is_reported(
    layout: ReportLayout,
    input: ScriptInput,
    buttons: u8,
    axes: Vec<GamepadAxis>,
)
    requires
        layout == (ReportLayout::Gamepad { buttons, axes, hat: true }),
    ensures
        said_report(layout, input).len() == (buttons + 7) / 8 + 2 * axes@.len() + 1,
        input.hat matches Some(h) ==> said_report(layout, input).last() == h % 16,
        input.hat is None ==> said_report(layout, input).last() == 0,
{
    let state = report::GamepadView {
        buttons: said_buttons(input, buttons),
        axes: said_axes(input),
        hat: or_else(input.hat, 0),
    };
    report::law_hat_is_reported(buttons, axes@, true, state);
}

/// The report of a keyboard holds the modifiers and the first six keys that the
/// script gave, and that of a mouse its buttons, moves and wheel, with zeros
/// where it gave nothing.
pub proof fn law_given_keys_and_moves_are_reported(input: ScriptInput)
    ensures
        ({
            let report = said_report(ReportLayout::Keyboard, input);
            &&& report.len() == 8
            &&& report[0] == (if input.modifiers is Some {
                input.modifiers->0
            } else {
                0
            })
            &&& report[1] == 0
            &&& forall|i: int|
                0 <= i < 6 ==> #[trigger] report[2 + i] == (match input.keys {
                    Some(keys) => if i < keys@.len() {
                        keys@[i]
                    } else {
                        0
                    },
                    None => 0,
                })
        }),
        ({
            let report = said_report(ReportLayout::Mouse, input);
            &&& report.len() == 4
            &&& report[0] == (if input.button_bits is Some {
                input.button_bits->0
            } else {
                0
            })
            &&& input.x matches Some(v) ==> (-127 <= v <= 127 ==> report::signed_byte_at(report, 1)
                == v)
            &&& input.y matches Some(v) ==> (-127 <= v <= 127 ==> report::signed_byte_at(report, 2)
                == v)
            &&& input.wheel matches Some(v) ==> (-127 <= v <= 127 ==> report::signed_byte_at(
                report,
                3,
            ) == v)
            &&& input.x is None ==> report[1] == 0
            &&& input.y is None ==> report[2] == 0
            &&& input.wheel is None ==> report[3] == 0
        }),
{
    let keys = match input.keys {
        Some(keys) => keys@,
        None => Seq::empty(),
    };
    let modifiers = or_else(input.modifiers, 0);
    report::law_keys_are_reported(modifiers, keys);
    let k = said_report(ReportLayout::Keyboard, input);
    assert(k == report::keyboard_report(modifiers, keys));
    assert forall|i: int| 0 <= i < 6 implies #[trigger] k[2 + i] == (match input.keys {
        Some(keys) => if i < keys@.len() {
            keys@[i]
        } else {
            0
        },
        None => 0,
    }) by {}
    report::law_moves_are_reported(
        MouseState {
            buttons: or_else(input.button_bits, 0),
            x: or_else(input.x, 0),
            y: or_else(input.y, 0),
            wheel: or_else(input.wheel, 0),
        },
    );
}

/// Each name stands for its own axis in any case of letters, and the axes of a
/// layout come in the order of the names.
pub proof fn law_axes_by_name(names: Seq<Seq<char>>, i: int)
    requires
        all_known(names),
        0 <= i < names.len(),
    ensures
        known_axes(names).len() == names.len(),
        text::ascii_lower(names[i]) == (match known_axes(names)[i] {
            GamepadAxis::X => seq!['x'],
            GamepadAxis::Y => seq!['y'],
            GamepadAxis::Z => seq!['z'],
            GamepadAxis::Rx => seq!['r', 'x'],
            GamepadAxis::Ry => seq!['r', 'y'],
        }),
    decreases names.len(),
{
    lemma_known_axes_len(names);
    let front = names.drop_last();
    assert forall|j: int| 0 <= j < front.len() implies layout::axis_named(#[trigger] front[j])
        is Some by {
        assert(front[j] == names[j]);
    }
    assert(layout::axis_named(names[i]) is Some);
    if i < names.len() - 1 {
        law_axes_by_name(front, i);
        lemma_known_axes_len(front);
        assert(front[i] == names[i]);
    } else {
        lemma_known_axes_len(front);
        assert(names[i] == names.last());
    }
}

/// A gamepad that does not say otherwise has sixteen buttons and the axes X and
/// Y; at most 32 buttons and five axes can be asked for, and one of each at
/// least.
pub proof fn law_gamepad_limits(buttons: u8, axes: nat)
    ensures
        DEFAULT_BUTTONS == 16,
        device_axes(Seq::empty()) == seq![GamepadAxis::X, GamepadAxis::Y],
        known_axes(wanted_names(Seq::empty())) == seq![GamepadAxis::X, GamepadAxis::Y],
        counts_fit(buttons, axes) <==> 1 <= buttons <= 32 && 1 <= axes <= 5,
{
    let none = Seq::<Seq<char>>::empty();
    let wanted = wanted_names(none);
    reveal_strlit("x");
    reveal_strlit("y");
    assert("x"@ =~= GamepadAxis::X.spec_name());
    assert("y"@ =~= GamepadAxis::Y.spec_name());
    layout::law_axis_found_by_name(GamepadAxis::X);
    layout::law_axis_found_by_name(GamepadAxis::Y);
    assert forall|j: int| 0 <= j < wanted.len() implies layout::axis_named(#[trigger] wanted[j])
        is Some by {
        assert(j == 0 || j == 1);
    }
    law_built_gamepads_can_be_created(none);
}

/// The table of an event names its kind and holds each value of the event under
/// its own name, and nothing else.
pub proof fn law_event_tables(event: KernelEventView)
    ensures
        ({
            let t = event_table(event);
            match event {
                KernelEventView::Start { dev_flags } => {
                    &&& t.len() == 2
                    &&& t.contains(("type"@, FieldView::Text("start"@)))
                    &&& t.contains(("dev_flags"@, FieldView::Number(dev_flags)))
                },
                KernelEventView::Stop => t == seq![("type"@, FieldView::Text("stop"@))],
                KernelEventView::Open => t == seq![("type"@, FieldView::Text("open"@))],
                KernelEventView::Close => t == seq![("type"@, FieldView::Text("close"@))],
                KernelEventView::Output { rtype, data } => {
                    &&& t.len() == 3
                    &&& t.contains(("type"@, FieldView::Text("output"@)))
                    &&& t.contains(("rtype"@, FieldView::Number(rtype as u64)))
                    &&& t.contains(("data"@, FieldView::Bytes(data)))
                },
                KernelEventView::GetReport { id, rnum, rtype } => {
                    &&& t.len() == 4
                    &&& t.contains(("type"@, FieldView::Text("get_report"@)))
                    &&& t.contains(("id"@, FieldView::Number(id as u64)))
                    &&& t.contains(("rnum"@, FieldView::Number(rnum as u64)))
                    &&& t.contains(("rtype"@, FieldView::Number(rtype as u64)))
                },
                KernelEventView::SetReport { id, rnum, rtype, data } => {
                    &&& t.len() == 5
                    &&& t.contains(("type"@, FieldView::Text("set_report"@)))
                    &&& t.contains(("id"@, FieldView::Number(id as u64)))
                    &&& t.contains(("rnum"@, FieldView::Number(rnum as u64)))
                    &&& t.contains(("rtype"@, FieldView::Number(rtype as u64)))
                    &&& t.contains(("data"@, FieldView::Bytes(data)))
                },
                KernelEventView::Unknown { ty } => {
                    &&& t.len() == 2
                    &&& t.contains(("type"@, FieldView::Text("unknown"@)))
                    &&& t.contains(("code"@, FieldView::Number(ty as u64)))
                },
            }
        }),
{
    let t = event_table(event);
    if t.len() > 0 {
        assert(t.contains(t[0]));
    }
    if t.len() > 1 {
        assert(t.contains(t[1]));
    }
    if t.len() > 2 {
        assert(t.contains(t[2]));
    }
    if t.len() > 3 {
        assert(t.contains(t[3]));
    }
    if t.len() > 4 {
        assert(t.contains(t[4]));
    }
}

/// The constants that scripts see have the values of the kernel's headers.
pub proof fn law_constants()
    ensures
        ({
            let t = constant_table();
            &&& t.len() == 10
            &&& t.contains(("BUS_USB"@, 3u64))
            &&& t.contains(("BUS_BLUETOOTH"@, 5u64))
            &&& t.contains(("BUS_VIRTUAL"@, 6u64))
            &&& t.contains(("DATA_MAX"@, 4096u64))
            &&& t.contains(("FEATURE_REPORT"@, 0u64))
            &&& t.contains(("OUTPUT_REPORT"@, 1u64))
            &&& t.contains(("INPUT_REPORT"@, 2u64))
            &&& t.contains(("DEV_NUMBERED_FEATURE_REPORTS"@, 1u64))
            &&& t.contains(("DEV_NUMBERED_OUTPUT_REPORTS"@, 2u64))
            &&& t.contains(("DEV_NUMBERED_INPUT_REPORTS"@, 4u64))
        }),
{
    let t = constant_table();
    assert(t.contains(t[0]));
    assert(t.contains(t[1]));
    assert(t.contains(t[2]));
    assert(t.contains(t[3]));
    assert(t.contains(t[4]));
    assert(t.contains(t[5]));
    assert(t.contains(t[6]));
    assert(t.contains(t[7]));
    assert(t.contains(t[8]));
    assert(t.contains(t[9]));
}

/// What a script gives counts, and what stands in for it counts only where it
/// gives nothing; a device is on the USB bus where it does not say.
pub proof fn law_given_values_count<T>(v: T, other: T)
    ensures
        or_else(Some(v), other) == v,
        or_else(None, other) == other,
        BUS_USB == 3,
{
}

/// Of the names that a device is asked for with, those of axes count, in order,
/// and the others are left out.
pub proof fn law_unknown_names_are_left_out(names: Seq<Seq<char>>, name: Seq<char>)
    ensures
        ({
            let small = text::ascii_lower(name);
            let was = known_axes(names);
            let is = known_axes(names.push(name));
            &&& small == seq!['x'] ==> is == was.push(GamepadAxis::X)
            &&& small == seq!['y'] ==> is == was.push(GamepadAxis::Y)
            &&& small == seq!['z'] ==> is == was.push(GamepadAxis::Z)
            &&& small == seq!['r', 'x'] ==> is == was.push(GamepadAxis::Rx)
            &&& small == seq!['r', 'y'] ==> is == was.push(GamepadAxis::Ry)
            &&& small != seq!['x'] && small != seq!['y'] && small != seq!['z'] && small != seq![
                'r',
                'x',
            ] && small != seq!['r', 'y'] ==> is == was
        }),
        known_axes(names).len() > 0 ==> device_axes(names) == known_axes(names),
        known_axes(names).len() == 0 ==> device_axes(names) == seq![GamepadAxis::X, GamepadAxis::Y],
        names.len() > 0 ==> wanted_names(names) == names,
{
    assert(names.push(name).drop_last() =~= names);
    let small = text::ascii_lower(name);
    assert(seq!['x'][0] == 'x' && seq!['y'][0] == 'y' && seq!['z'][0] == 'z');
    assert(seq!['r', 'x'][1] == 'x' && seq!['r', 'y'][1] == 'y');
}

/// A name is pointed out exactly where it is the first that stands for no axis.
pub proof fn law_first_unknown_name(names: Seq<Seq<char>>, i: int, j: int)
    requires
        first_unknown(names, i),
        0 <= j < names.len(),
    ensures
        !all_known(names),
        layout::axis_named(names[j]) is None ==> i <= j,
        first_unknown(names, j) ==> i == j,
{
    assert(layout::axis_named(names[i]) is None);
}

} // verus!
