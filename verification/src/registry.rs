//! The devices that scripts created, and the kernel events queued for them.

use std::collections::HashMap;
use vstd::prelude::*;

use crate::device::{ReadOutcome, UhidDevice};
use crate::error::UhidError;
use crate::kernel::KernelEvent;
use crate::layout::ReportLayout;
use crate::text::same_text;

verus! {

broadcast use vstd::std_specs::hash::group_hash_axioms;

/// One live device.
#[derive(Debug)]
pub struct RegistryEntry {
    pub name: String,
    pub descriptor: Vec<u8>,
    pub device: UhidDevice,
    pub layout: Option<ReportLayout>,
}

/// The live devices by id, and the events read from them.
pub struct Registry {
    next: u32,
    devices: HashMap<u32, RegistryEntry>,
    pending: Vec<(u32, KernelEvent)>,
}

/// Whether `id` is a live device of that name.
pub open spec fn is_named(devices: Map<u32, RegistryEntry>, id: u32, name: Seq<char>) -> bool {
    devices.contains_key(id) && devices[id].name@ == name
}

/// Whether no two live devices share a name, other than the empty one.
pub open spec fn names_unique(devices: Map<u32, RegistryEntry>) -> bool {
    forall|a: u32, b: u32|
        #![trigger devices.contains_key(a), devices.contains_key(b)]
        devices.contains_key(a) && devices.contains_key(b) && devices[a].name@ == devices[b].name@
            && devices[a].name@.len() > 0 ==> a == b
}

/// The live devices of a registry and the id that the next one gets.
#[verifier::ext_equal]
pub struct RegistryView {
    pub devices: Map<u32, RegistryEntry>,
    pub next: u32,
}

impl View for Registry {
    type V = RegistryView;

    open spec fn view(&self) -> RegistryView {
        RegistryView { devices: self.devices(), next: self.next() }
    }
}

/// Whether the ids in use lie below the next one.
pub open spec fn ids_below_next(v: RegistryView) -> bool {
    v.next >= 1 && forall|id: u32| #[trigger] v.devices.contains_key(id) ==> id < v.next
}

/// What asking for a device leads to.
#[derive(Debug)]
pub enum CreatePlan {
    /// The live device with this id serves.
    Reuse(u32),
    /// A new device is to be registered. The entry, if there is one, was taken
    /// out to make room for it and is to be destroyed.
    Fresh(Option<RegistryEntry>),
}

/// Why `plan_create` refuses.
#[derive(Debug, Clone, Copy, PartialEq, Eq, Structural)]
pub enum PlanError {
    /// The request has no descriptor.
    NeedsDescriptor,
}

/// What `plan_create` does: `before` and `after` are the live devices.
pub open spec fn planned(
    before: Map<u32, RegistryEntry>,
    name: Seq<char>,
    descriptor: Seq<u8>,
    r: Result<CreatePlan, PlanError>,
    after: Map<u32, RegistryEntry>,
) -> bool {
    match r {
        Err(e) => e == PlanError::NeedsDescriptor && descriptor.len() == 0 && after == before,
        Ok(CreatePlan::Reuse(id)) => descriptor.len() > 0 && name.len() > 0 && is_named(
            before,
            id,
            name,
        ) && before[id].descriptor@ == descriptor && after == before,
        Ok(CreatePlan::Fresh(Some(entry))) => descriptor.len() > 0 && name.len() > 0 && exists|
            id: u32,
        |
            #[trigger] is_named(before, id, name) && entry == before[id] && entry.descriptor@
                != descriptor && after == before.remove(id),
        Ok(CreatePlan::Fresh(None)) => descriptor.len() > 0 && after == before && (name.len() == 0
            || forall|id: u32| !#[trigger] is_named(before, id, name)),
    }
}

fn same_bytes(a: &[u8], b: &[u8]) -> (r: bool)
    ensures
        r == (a@ == b@),
{
    if a.len() != b.len() {
        return false;
    }
    let mut i: usize = 0;
    while i < a.len()
        invariant
            i <= a@.len(),
            a@.len() == b@.len(),
            forall|j: int| 0 <= j < i ==> a@[j] == b@[j],
        decreases a@.len() - i,
    {
        if a[i] != b[i] {
            return false;
        }
        i += 1;
    }
    assert(a@ =~= b@);
    true
}

impl Registry {
    /// The live devices by id.
    pub closed spec fn devices(self) -> Map<u32, RegistryEntry> {
        self.devices@
    }

    /// The id of the next device.
    pub closed spec fn next(self) -> u32 {
        self.next
    }

    /// The queued events, each with the id of its device.
    pub closed spec fn pending(self) -> Seq<(u32, KernelEvent)> {
        self.pending@
    }

    /// Whether the ids given out so far lie below the next one.
    pub open spec fn wf(self) -> bool {
        ids_below_next(self@)
    }

    /// No devices and no events; ids start at 1.
    pub fn new() -> (r: Self)
        ensures
            r.wf(),
            names_unique(r.devices()),
            r.next() == 1,
            r.devices() == Map::<u32, RegistryEntry>::empty(),
            r.pending() == Seq::<(u32, KernelEvent)>::empty(),
    {
        Registry { next: 1, devices: HashMap::new(), pending: Vec::new() }
    }

    /// Whether an id is left for one more device.
    pub fn has_room(&self) -> (r: bool)
        ensures
            r == (self.next() < u32::MAX),
    {
        self.next < u32::MAX
    }

    /// Adds a live device and gives it an id of its own.
    pub fn insert(
        &mut self,
        name: String,
        descriptor: Vec<u8>,
        device: UhidDevice,
        layout: Option<ReportLayout>,
    ) -> (id: u32)
        requires
            old(self).wf(),
            old(self).next() < u32::MAX,
        ensures
            final(self).wf(),
            id == old(self).next(),
            !old(self).devices().contains_key(id),
            final(self).next() == id + 1,
            final(self).devices() == old(self).devices().insert(
                id,
                (RegistryEntry { name, descriptor, device, layout }),
            ),
            final(self).pending() == old(self).pending(),
    {
        let id = self.next;
        let ghost before = self@;
        self.next = self.next + 1;
        self.devices.insert(id, RegistryEntry { name, descriptor, device, layout });
        proof {
            assert(!before.devices.contains_key(id));
            assert forall|k: u32| #[trigger] self@.devices.contains_key(k) implies k
                < self@.next by {
                assert(k == id || before.devices.contains_key(k));
            }
        }
        id
    }

    /// The live device with this id.
    pub fn with(&self, id: u32) -> (r: Option<&RegistryEntry>)
        ensures
            match r {
                Some(entry) => self.devices().contains_key(id) && *entry == self.devices()[id],
                None => !self.devices().contains_key(id),
            },
    {
        self.devices.get(&id)
    }

    /// Takes the device with this id out.
    pub fn remove(&mut self, id: u32) -> (r: Option<RegistryEntry>)
        ensures
            match r {
                Some(entry) => old(self).devices().contains_key(id) && entry == old(
                    self,
                ).devices()[id],
                None => !old(self).devices().contains_key(id),
            },
            final(self).devices() == old(self).devices().remove(id),
            final(self).next() == old(self).next(),
            final(self).pending() == old(self).pending(),
            old(self).wf() ==> final(self).wf(),
    {
        let ghost before = self@;
        let entry = self.devices.remove(&id);
        proof {
            assert forall|k: u32| #[trigger]
                self@.devices.contains_key(k) implies before.devices.contains_key(k) by {}
        }
        entry
    }

    /// The ids of the live devices, each once, in no particular order.
    pub fn ids(&self) -> (ids: Vec<u32>)
        ensures
            ids@.no_duplicates(),
            forall|id: u32| ids@.contains(id) <==> self.devices().contains_key(id),
    {
        let mut ids: Vec<u32> = Vec::new();
        for id in it: self.devices.keys()
            invariant
                it.seq().unref().to_set() == self.devices@.dom(),
                it.seq().no_duplicates(),
                ids@ == it.seq().take(it.index()).unref(),
                it.index() == it.seq().len() ==> ids@.to_set() == self.devices@.dom()
                    && ids@.no_duplicates(),
        {
            ids.push(*id);
            assert(ids@ =~= it.seq().take(it.index() + 1).unref());
            assert(it.seq().take(it.seq().len() as int) =~= it.seq());
        }
        assert forall|id: u32| ids@.contains(id) <==> self.devices().contains_key(id) by {
            assert(ids@.to_set().contains(id) == ids@.contains(id));
        }
        ids
    }

    /// A live device of this name, with its descriptor.
    pub fn find_by_name(&self, name: &str) -> (r: Option<(u32, Vec<u8>)>)
        ensures
            match r {
                Some((id, descriptor)) => is_named(self.devices(), id, name@) && descriptor@
                    == self.devices()[id].descriptor@,
                None => forall|id: u32| !#[trigger] is_named(self.devices(), id, name@),
            },
    {
        let ids = self.ids();
        let mut i: usize = 0;
        while i < ids.len()
            invariant
                i <= ids@.len(),
                forall|id: u32| ids@.contains(id) <==> self.devices().contains_key(id),
                forall|j: int|
                    0 <= j < i ==> !is_named(self.devices(), #[trigger] ids@[j], name@),
            decreases ids@.len() - i,
        {
            assert(ids@.contains(ids@[i as int]));
            if let Some(entry) = self.with(ids[i]) {
                if same_text(entry.name.as_str(), name) {
                    let descriptor = entry.descriptor.clone();
                    assert(descriptor@ =~= entry.descriptor@);
                    return Some((ids[i], descriptor));
                }
            }
            i += 1;
        }
        assert forall|id: u32| !#[trigger] is_named(self.devices(), id, name@) by {
            if self.devices().contains_key(id) {
                assert(ids@.contains(id));
                let j = choose|j: int| 0 <= j < ids@.len() && ids@[j] == id;
                assert(!is_named(self.devices(), ids@[j], name@));
            }
        }
        None
    }

    /// Decides how a request for a device is met. A live device of the same
    /// non-empty name is reused where the descriptor is the same, and makes
    /// room for the new one where it is not.
    pub fn plan_create(&mut self, name: &str, descriptor: &[u8]) -> (r: Result<
        CreatePlan,
        PlanError,
    >)
        ensures
            planned(old(self).devices(), name@, descriptor@, r, final(self).devices()),
            final(self).next() == old(self).next(),
            final(self).pending() == old(self).pending(),
            old(self).wf() ==> final(self).wf(),
    {
        if descriptor.len() == 0 {
            return Err(PlanError::NeedsDescriptor);
        }
        if !name.is_empty() {
            if let Some((id, live)) = self.find_by_name(name) {
                if same_bytes(live.as_slice(), descriptor) {
                    return Ok(CreatePlan::Reuse(id));
                }
                let old_entry = self.remove(id);
                assert(is_named(old(self).devices(), id, name@));
                return Ok(CreatePlan::Fresh(old_entry));
            }
        }
        Ok(CreatePlan::Fresh(None))
    }

    /// Takes in what a read from device `id` gave; false ends the reading.
    pub fn pump(&mut self, id: u32, outcome: ReadOutcome) -> (more: bool)
        ensures
            match outcome {
                ReadOutcome::Event(event) => more && final(self).pending() == old(
                    self,
                ).pending().push((id, event)),
                _ => !more && final(self).pending() == old(self).pending(),
            },
            final(self).devices() == old(self).devices(),
            final(self).next() == old(self).next(),
            old(self).wf() ==> final(self).wf(),
    {
        match outcome {
            ReadOutcome::Event(event) => {
                self.pending.push((id, event));
                true
            },
            ReadOutcome::Empty => false,
            ReadOutcome::Failed => false,
        }
    }

    /// Takes the queued events, oldest first.
    pub fn take_pending(&mut self) -> (events: Vec<(u32, KernelEvent)>)
        ensures
            events@ == old(self).pending(),
            final(self).pending() == Seq::<(u32, KernelEvent)>::empty(),
            final(self).devices() == old(self).devices(),
            final(self).next() == old(self).next(),
            old(self).wf() ==> final(self).wf(),
    {
        let mut events: Vec<(u32, KernelEvent)> = Vec::new();
        std::mem::swap(&mut events, &mut self.pending);
        events
    }
}

/// Asking again with the same name and descriptor reuses the live device.
pub proof fn law_same_request_reuses(
    before: Map<u32, RegistryEntry>,
    name: Seq<char>,
    descriptor: Seq<u8>,
    id: u32,
    r: Result<CreatePlan, PlanError>,
    after: Map<u32, RegistryEntry>,
)
    requires
        names_unique(before),
        name.len() > 0,
        descriptor.len() > 0,
        is_named(before, id, name),
        before[id].descriptor@ == descriptor,
        planned(before, name, descriptor, r, after),
    ensures
        r == Ok::<CreatePlan, PlanError>(CreatePlan::Reuse(id)),
        after == before,
{
}

/// Asking for another descriptor under a live device's name takes exactly
/// that device out.
pub proof fn law_new_descriptor_replaces(
    before: Map<u32, RegistryEntry>,
    name: Seq<char>,
    descriptor: Seq<u8>,
    id: u32,
    r: Result<CreatePlan, PlanError>,
    after: Map<u32, RegistryEntry>,
)
    requires
        names_unique(before),
        name.len() > 0,
        descriptor.len() > 0,
        is_named(before, id, name),
        before[id].descriptor@ != descriptor,
        planned(before, name, descriptor, r, after),
    ensures
        r == Ok::<CreatePlan, PlanError>(CreatePlan::Fresh(Some(before[id]))),
        after == before.remove(id),
{
}

/// Planning keeps names unique, and where it calls for a new device the name
/// is free, so that adding the device keeps names unique too.
pub proof fn law_names_stay_unique(
    before: Map<u32, RegistryEntry>,
    name: Seq<char>,
    descriptor: Seq<u8>,
    r: Result<CreatePlan, PlanError>,
    after: Map<u32, RegistryEntry>,
    id: u32,
    entry: RegistryEntry,
)
    requires
        names_unique(before),
        planned(before, name, descriptor, r, after),
        !after.contains_key(id),
        entry.name@ == name,
    ensures
        names_unique(after),
        r matches Ok(CreatePlan::Fresh(_)) ==> names_unique(after.insert(id, entry)),
{
    if let Ok(CreatePlan::Fresh(_)) = r {
        let grown = after.insert(id, entry);
        assert forall|a: u32, b: u32|
            #![trigger grown.contains_key(a), grown.contains_key(b)]
            grown.contains_key(a) && grown.contains_key(b) && grown[a].name@ == grown[b].name@
                && grown[a].name@.len() > 0 implies a == b by {
            assert(!is_named(before, a, name) || !after.contains_key(a));
            assert(!is_named(before, b, name) || !after.contains_key(b));
            if a != id {
                assert(after.contains_key(a) && before.contains_key(a));
            }
            if b != id {
                assert(after.contains_key(b) && before.contains_key(b));
            }
        }
    }
}

/// Taking a device out keeps names unique.
pub proof fn law_removal_keeps_names_unique(devices: Map<u32, RegistryEntry>, id: u32)
    requires
        names_unique(devices),
    ensures
        names_unique(devices.remove(id)),
{
    let left = devices.remove(id);
    assert forall|a: u32, b: u32|
        #![trigger left.contains_key(a), left.contains_key(b)]
        left.contains_key(a) && left.contains_key(b) && left[a].name@ == left[b].name@
            && left[a].name@.len() > 0 implies a == b by {
        assert(devices.contains_key(a) && devices.contains_key(b));
    }
}

/// A call of a registry, with what it was given and what it returned.
pub enum RegistryCall {
    /// `plan_create`, with no device added after it.
    Plan { name: Seq<char>, descriptor: Seq<u8>, plan: Result<CreatePlan, PlanError> },
    /// `plan_create` and, the plan being for a fresh device, the end of its
    /// creation: `written` says whether the event that registers it was
    /// written, `layout` what its layout came to.
    Create {
        name: Seq<char>,
        descriptor: Seq<u8>,
        plan: CreatePlan,
        written: bool,
        layout: Result<Option<ReportLayout>, UhidError>,
        entry: RegistryEntry,
    },
    /// `insert` alone.
    Insert { entry: RegistryEntry },
    /// `remove`.
    Remove { id: u32 },
    /// `pump`, `take_pending` and whatever only looks.
    Look,
}

/// Whether adding `entry` leads from `before` to `after`.
pub open spec fn inserts(before: RegistryView, entry: RegistryEntry, after: RegistryView) -> bool {
    &&& before.next < u32::MAX
    &&& after.devices == before.devices.insert(before.next, entry)
    &&& after.next == before.next + 1
}

/// Whether the creation of a device goes well: the event that registers it was
/// written, its layout is sound and an id is left.
pub open spec fn goes_well(
    before: RegistryView,
    written: bool,
    layout: Result<Option<ReportLayout>, UhidError>,
) -> bool {
    written && layout is Ok && before.next < u32::MAX
}

/// Whether the end of a device's creation leads from `before` to `after`: the
/// device is added where all went well, and nothing changes where it did not.
pub open spec fn finishes(
    before: RegistryView,
    entry: RegistryEntry,
    written: bool,
    layout: Result<Option<ReportLayout>, UhidError>,
    after: RegistryView,
) -> bool {
    if goes_well(before, written, layout) {
        Ok::<Option<ReportLayout>, UhidError>(entry.layout) == layout && inserts(
            before,
            entry,
            after,
        )
    } else {
        after == before
    }
}

/// Whether a call leads from `before` to `after`.
pub open spec fn call_leads(before: RegistryView, call: RegistryCall, after: RegistryView) -> bool {
    match call {
        RegistryCall::Plan { name, descriptor, plan } => planned(
            before.devices,
            name,
            descriptor,
            plan,
            after.devices,
        ) && after.next == before.next,
        RegistryCall::Create { name, descriptor, plan, written, layout, entry } => {
            &&& plan is Fresh
            &&& entry.name@ == name
            &&& exists|mid: RegistryView| #[trigger]
                finishes(mid, entry, written, layout, after) && mid.next == before.next && planned(
                    before.devices,
                    name,
                    descriptor,
                    Ok(plan),
                    mid.devices,
                )
        },
        RegistryCall::Insert { entry } => inserts(before, entry, after),
        RegistryCall::Remove { id } => after.devices == before.devices.remove(id) && after.next
            == before.next,
        RegistryCall::Look => after == before,
    }
}

/// Whether the calls lead through the states, one call from each to the next.
pub open spec fn is_run(states: Seq<RegistryView>, calls: Seq<RegistryCall>) -> bool {
    &&& states.len() == calls.len() + 1
    &&& forall|i: int|
        0 <= i < calls.len() ==> call_leads(states[i], #[trigger] calls[i], states[i + 1])
}

proof fn lemma_call_keeps_ids(before: RegistryView, call: RegistryCall, after: RegistryView)
    requires
        ids_below_next(before),
        call_leads(before, call, after),
    ensures
        ids_below_next(after),
        before.next <= after.next,
        forall|id: u32| #[trigger]
            after.devices.contains_key(id) ==> before.devices.contains_key(id) || id
                >= before.next,
{
}

proof fn lemma_run_keeps_ids(states: Seq<RegistryView>, calls: Seq<RegistryCall>, i: int, j: int)
    requires
        is_run(states, calls),
        0 <= i <= j < states.len(),
        ids_below_next(states[i]),
    ensures
        ids_below_next(states[j]),
        states[i].next <= states[j].next,
        forall|id: u32| #[trigger]
            states[j].devices.contains_key(id) ==> states[i].devices.contains_key(id) || id
                >= states[i].next,
    decreases j - i,
{
    if i < j {
        lemma_run_keeps_ids(states, calls, i, j - 1);
        let call = calls[j - 1];
        lemma_call_keeps_ids(states[j - 1], call, states[j]);
    }
}

proof fn lemma_call_keeps_names_unique(
    before: RegistryView,
    call: RegistryCall,
    after: RegistryView,
)
    requires
        ids_below_next(before),
        names_unique(before.devices),
        call_leads(before, call, after),
        !(call is Insert),
    ensures
        names_unique(after.devices),
{
    match call {
        RegistryCall::Plan { name, descriptor, plan } => {
            if let Ok(CreatePlan::Fresh(Some(old_entry))) = plan {
                let id = choose|id: u32|
                    #[trigger] is_named(before.devices, id, name) && old_entry
                        == before.devices[id] && old_entry.descriptor@ != descriptor
                        && after.devices == before.devices.remove(id);
                law_removal_keeps_names_unique(before.devices, id);
            }
        },
        RegistryCall::Create { name, descriptor, plan, written, layout, entry } => {
            let mid = choose|mid: RegistryView| #[trigger]
                finishes(mid, entry, written, layout, after) && mid.next == before.next && planned(
                    before.devices,
                    name,
                    descriptor,
                    Ok(plan),
                    mid.devices,
                );
            law_names_stay_unique(
                before.devices,
                name,
                descriptor,
                Ok(plan),
                mid.devices,
                mid.next,
                entry,
            );
        },
        RegistryCall::Remove { id } => {
            law_removal_keeps_names_unique(before.devices, id);
        },
        _ => {},
    }
}

/// From a new registry on, where devices are added only as planned, no two
/// live devices ever share a name, whatever calls are made.
pub proof fn law_names_unique_in_every_run(
    states: Seq<RegistryView>,
    calls: Seq<RegistryCall>,
    i: int,
)
    requires
        is_run(states, calls),
        states[0] == (RegistryView { devices: Map::empty(), next: 1 }),
        forall|k: int| 0 <= k < calls.len() ==> !(#[trigger] calls[k] is Insert),
        0 <= i < states.len(),
    ensures
        names_unique(states[i].devices),
        ids_below_next(states[i]),
    decreases i,
{
    if i > 0 {
        law_names_unique_in_every_run(states, calls, i - 1);
        let call = calls[i - 1];
        lemma_call_keeps_ids(states[i - 1], call, states[i]);
        lemma_call_keeps_names_unique(states[i - 1], call, states[i]);
    }
}

/// From a new registry on, where devices are added only as planned, asking
/// for a device that is live under the same name and descriptor reuses it.
pub proof fn law_same_request_reuses_in_every_run(
    states: Seq<RegistryView>,
    calls: Seq<RegistryCall>,
    i: int,
    id: u32,
)
    requires
        is_run(states, calls),
        states[0] == (RegistryView { devices: Map::empty(), next: 1 }),
        forall|k: int| 0 <= k < calls.len() ==> !(#[trigger] calls[k] is Insert),
        0 <= i < calls.len(),
    ensures
        calls[i] matches RegistryCall::Plan { name, descriptor, plan } ==> (name.len() > 0
            && descriptor.len() > 0 && is_named(states[i].devices, id, name)
            && states[i].devices[id].descriptor@ == descriptor ==> plan == Ok::<
            CreatePlan,
            PlanError,
        >(CreatePlan::Reuse(id)) && states[i + 1] == states[i]),
{
    law_names_unique_in_every_run(states, calls, i);
    let call = calls[i];
    assert(call_leads(states[i], call, states[i + 1]));
    if let RegistryCall::Plan { name, descriptor, plan } = call {
        if name.len() > 0 && descriptor.len() > 0 && is_named(states[i].devices, id, name)
            && states[i].devices[id].descriptor@ == descriptor {
            law_same_request_reuses(
                states[i].devices,
                name,
                descriptor,
                id,
                plan,
                states[i + 1].devices,
            );
        }
    }
}

/// Whether a call adds a device after the event that registers it was written.
pub open spec fn adds_registered(call: RegistryCall) -> bool {
    match call {
        RegistryCall::Create { written, layout, .. } => written && layout is Ok,
        _ => false,
    }
}

/// From a new registry on, where devices are added only as planned, every live
/// device got its id from a call before which the event that registers it was
/// written: nothing can be sent to a device by its id ahead of that event.
pub proof fn law_live_devices_were_registered(
    states: Seq<RegistryView>,
    calls: Seq<RegistryCall>,
    i: int,
    id: u32,
)
    requires
        is_run(states, calls),
        states[0] == (RegistryView { devices: Map::empty(), next: 1 }),
        forall|k: int| 0 <= k < calls.len() ==> !(#[trigger] calls[k] is Insert),
        0 <= i < states.len(),
        states[i].devices.contains_key(id),
    ensures
        exists|k: int|
            0 <= k < i && adds_registered(#[trigger] calls[k]) && states[k].next == id
                && states[k + 1].devices.contains_key(id),
    decreases i,
{
    let call = calls[i - 1];
    assert(call_leads(states[i - 1], call, states[i]));
    if states[i - 1].devices.contains_key(id) {
        law_live_devices_were_registered(states, calls, i - 1, id);
    } else {
        assert(adds_registered(calls[i - 1]) && states[i - 1].next == id);
    }
}

/// A device that was taken out stays out: after any later calls no device has
/// its id.
pub proof fn law_removed_device_stays_out(
    states: Seq<RegistryView>,
    calls: Seq<RegistryCall>,
    removal: int,
    later: int,
    id: u32,
)
    requires
        is_run(states, calls),
        ids_below_next(states[0]),
        0 <= removal < later < states.len(),
        states[removal].devices.contains_key(id),
        calls[removal] == (RegistryCall::Remove { id }),
    ensures
        !states[later].devices.contains_key(id),
{
    lemma_run_keeps_ids(states, calls, 0, removal);
    assert(call_leads(states[removal], calls[removal], states[removal + 1]));
    lemma_run_keeps_ids(states, calls, 0, removal + 1);
    lemma_run_keeps_ids(states, calls, removal + 1, later);
}

/// A request without a descriptor is refused; one under no name, or under a
/// name that no live device has, is for a fresh device and takes none out.
pub proof fn law_new_names_are_fresh(
    before: Map<u32, RegistryEntry>,
    name: Seq<char>,
    descriptor: Seq<u8>,
    r: Result<CreatePlan, PlanError>,
    after: Map<u32, RegistryEntry>,
)
    requires
        planned(before, name, descriptor, r, after),
    ensures
        descriptor.len() == 0 <==> r is Err,
        descriptor.len() > 0 && (name.len() == 0 || forall|id: u32| #[trigger]
            before.contains_key(id) ==> before[id].name@ != name) ==> r == Ok::<
            CreatePlan,
            PlanError,
        >(CreatePlan::Fresh(None)) && after == before,
        r is Err ==> after == before,
{
}

/// A device whose creation went well is live under the next id, with its own
/// layout, beside all others; one whose creation did not changes nothing.
pub proof fn law_finished_devices(
    before: RegistryView,
    entry: RegistryEntry,
    written: bool,
    layout: Result<Option<ReportLayout>, UhidError>,
    after: RegistryView,
    id: u32,
)
    requires
        finishes(before, entry, written, layout, after),
    ensures
        !written || layout is Err || before.next == u32::MAX ==> after == before,
        written && layout is Ok && before.next < u32::MAX ==> {
            &&& after.devices.contains_key(before.next)
            &&& after.devices[before.next] == entry
            &&& layout == Ok::<Option<ReportLayout>, UhidError>(entry.layout)
            &&& after.next == before.next + 1
            &&& id != before.next ==> after.devices.contains_key(id)
                == before.devices.contains_key(id)
            &&& id != before.next && before.devices.contains_key(id) ==> after.devices[id]
                == before.devices[id]
        },
{
}

} // verus!
