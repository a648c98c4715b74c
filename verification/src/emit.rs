//! What scripts emit, and what becomes of it on the mirror.

use vstd::prelude::*;

use crate::mirror;
use crate::mirror::{Mirror, MirrorView, ABS_RX, ABS_RY, ABS_RZ, ABS_X, ABS_Y, ABS_Z};

verus! {

/// The type of a synchronisation event.
pub const EV_SYN: i32 = 0;

/// The type of a key event.
pub const EV_KEY: i32 = 1;

/// The type of an axis event.
pub const EV_ABS: i32 = 3;

/// The code of the event that ends a report.
pub const SYN_REPORT: u32 = 0;

/// The latest time that can be told, in nanoseconds since the start: what a
/// `Duration` can hold.
pub const LAST_TIME: u128 = 18446744073709551615999999999;

/// The side of a controller.
#[derive(Debug, Clone, Copy, PartialEq, Eq, Structural)]
pub enum Side {
    Left,
    Right,
}

/// An input event on its way through the scripts.
#[derive(Debug, Clone, Copy, PartialEq, Eq, Structural)]
pub enum Event {
    Button { code: u16, pressed: bool },
    Trigger { value: i32, side: Side },
    Stick { x: i32, y: i32, side: Side },
}

/// An event that a script emits, held for some time where `hold_ms` says so.
#[derive(Debug, Clone, Copy, PartialEq, Eq, Structural)]
pub struct EmitEvent {
    pub ev_type: u16,
    pub code: u16,
    pub value: i32,
    pub hold_ms: Option<u64>,
}

/// A key that is to go up at `at`, in nanoseconds since the start.
#[derive(Debug, Clone, Copy, PartialEq, Eq, Structural)]
pub struct Release {
    pub at: u128,
    pub code: u16,
}

/// `m` after one emitted event.
pub open spec fn after_emit(m: MirrorView, emit: EmitEvent) -> MirrorView {
    if emit.ev_type == EV_KEY {
        mirror::after_key(m, emit.code, emit.value != 0)
    } else if emit.ev_type == EV_ABS {
        mirror::after_abs(m, emit.code as u32, emit.value)
    } else {
        m
    }
}

/// `m` after the emitted events, one after the other.
pub open spec fn after_emits(m: MirrorView, emits: Seq<EmitEvent>) -> MirrorView
    decreases emits.len(),
{
    if emits.len() == 0 {
        m
    } else {
        after_emit(after_emits(m, emits.drop_last()), emits.last())
    }
}

/// The release that an emitted key press calls for when it is held.
pub open spec fn hold(emit: EmitEvent, now: u128) -> Option<Release> {
    match emit.hold_ms {
        Some(ms) => if emit.value == 1 && emit.ev_type == EV_KEY {
            Some(Release { at: (now + ms * 1_000_000) as u128, code: emit.code })
        } else {
            None
        },
        None => None,
    }
}

/// Whether `times` holds a time that can be told for each of the emits.
pub open spec fn timed(emits: Seq<EmitEvent>, times: Seq<u128>) -> bool {
    &&& times.len() == emits.len()
    &&& forall|i: int| 0 <= i < times.len() ==> #[trigger] times[i] <= LAST_TIME
}

/// The releases that emitted events call for, each counted from the time at
/// which its event is taken.
pub open spec fn holds(emits: Seq<EmitEvent>, times: Seq<u128>) -> Seq<Release>
    decreases emits.len(),
{
    if emits.len() == 0 {
        Seq::empty()
    } else {
        let before = holds(emits.drop_last(), times);
        match hold(emits.last(), times[emits.len() - 1]) {
            Some(r) => before.push(r),
            None => before,
        }
    }
}

/// Whether one of the releases that are due at `now` is that of button `i`.
pub open spec fn released(codes: Seq<u16>, pending: Seq<Release>, now: u128, i: int) -> bool {
    exists|j: int|
        0 <= j < pending.len() && (#[trigger] pending[j]).at <= now && mirror::key_index(
            codes,
            pending[j].code,
        ) == Some(i)
}

/// `m` after the releases that are due at `now`.
pub open spec fn after_releases(m: MirrorView, pending: Seq<Release>, now: u128) -> MirrorView {
    let buttons = Seq::new(
        m.buttons.len(),
        |i: int| m.buttons[i] && !released(m.codes, pending, now, i),
    );
    MirrorView { buttons, dirty: m.dirty || buttons != m.buttons, ..m }
}

/// Applies one emitted event to the mirror.
pub fn apply_emit(out: &mut Mirror, emit: &EmitEvent)
    requires
        old(out).wf(),
    ensures
        final(out).wf(),
        final(out).map() == old(out).map(),
        final(out)@ == after_emit(old(out)@, *emit),
{
    let kind = emit.ev_type as i32;
    if kind == EV_KEY {
        out.key(emit.code, emit.value != 0);
    } else if kind == EV_ABS {
        out.abs(emit.code as u32, emit.value);
    }
}

/// Applies emitted events to the mirror, and schedules the end of holds:
/// `times` tells for each event when it is taken.
pub fn flush_emits(
    out: &mut Mirror,
    pending: &mut Vec<Release>,
    emits: &[EmitEvent],
    times: &[u128],
)
    requires
        old(out).wf(),
        timed(emits@, times@),
    ensures
        final(out).wf(),
        final(out).map() == old(out).map(),
        final(out)@ == after_emits(old(out)@, emits@),
        final(pending)@ == old(pending)@ + holds(emits@, times@),
{
    let ghost start = out@;
    let ghost queued = pending@;
    let ghost map = out.map();
    let mut i: usize = 0;
    assert(queued + holds(emits@.take(0), times@) =~= queued);
    while i < emits.len()
        invariant
            i <= emits@.len(),
            timed(emits@, times@),
            out.wf(),
            out.map() == map,
            out@ == after_emits(start, emits@.take(i as int)),
            pending@ == queued + holds(emits@.take(i as int), times@),
        decreases emits@.len() - i,
    {
        let emit = emits[i];
        let now = times[i];
        assert(emits@.take(i + 1).drop_last() =~= emits@.take(i as int));
        apply_emit(out, &emit);
        match emit.hold_ms {
            Some(ms) => {
                if emit.value == 1 && emit.ev_type as i32 == EV_KEY {
                    pending.push(Release { at: now + ms as u128 * 1_000_000, code: emit.code });
                }
            },
            None => {},
        }
        assert(pending@ =~= queued + holds(emits@.take(i + 1), times@));
        i += 1;
    }
    assert(emits@.take(i as int) =~= emits@);
}

/// Takes the trigger event that the scripts made of a trigger's move to the
/// mirror: first what they emitted, then the trigger unless they dropped it.
pub fn process_trigger(
    value: i32,
    side: Side,
    emits: &[EmitEvent],
    times: &[u128],
    dropped: bool,
    pending: &mut Vec<Release>,
    out: &mut Mirror,
)
    requires
        old(out).wf(),
        timed(emits@, times@),
    ensures
        final(out).wf(),
        final(out).map() == old(out).map(),
        final(out)@ == (if dropped {
            after_emits(old(out)@, emits@)
        } else {
            mirror::after_abs(
                after_emits(old(out)@, emits@),
                match side {
                    Side::Left => ABS_Z,
                    Side::Right => ABS_RZ,
                },
                value,
            )
        }),
        final(pending)@ == old(pending)@ + holds(emits@, times@),
{
    flush_emits(out, pending, emits, times);
    if dropped {
        return;
    }
    let code = match side {
        Side::Left => ABS_Z,
        Side::Right => ABS_RZ,
    };
    out.abs(code, value);
}

/// Takes the stick event that the scripts made of a stick's move to the
/// mirror: first the stick unless they dropped it, then what they emitted.
pub fn process_stick(
    side: Side,
    x: i32,
    y: i32,
    emits: &[EmitEvent],
    times: &[u128],
    dropped: bool,
    pending: &mut Vec<Release>,
    out: &mut Mirror,
)
    requires
        old(out).wf(),
        timed(emits@, times@),
    ensures
        final(out).wf(),
        final(out).map() == old(out).map(),
        final(out)@ == after_emits(
            if dropped {
                old(out)@
            } else {
                match side {
                    Side::Left => mirror::after_abs(
                        mirror::after_abs(old(out)@, ABS_X, x),
                        ABS_Y,
                        y,
                    ),
                    Side::Right => mirror::after_abs(
                        mirror::after_abs(old(out)@, ABS_RX, x),
                        ABS_RY,
                        y,
                    ),
                }
            },
            emits@,
        ),
        final(pending)@ == old(pending)@ + holds(emits@, times@),
{
    if !dropped {
        match side {
            Side::Left => {
                out.abs(ABS_X, x);
                out.abs(ABS_Y, y);
            },
            Side::Right => {
                out.abs(ABS_RX, x);
                out.abs(ABS_RY, y);
            },
        }
    }
    flush_emits(out, pending, emits, times);
}

/// Takes the button event that the scripts made of a button's move to the
/// mirror: first what they emitted, then the button unless they dropped it.
pub fn process_button(
    code: u16,
    pressed: bool,
    emits: &[EmitEvent],
    times: &[u128],
    dropped: bool,
    pending: &mut Vec<Release>,
    out: &mut Mirror,
)
    requires
        old(out).wf(),
        timed(emits@, times@),
    ensures
        final(out).wf(),
        final(out).map() == old(out).map(),
        final(out)@ == (if dropped {
            after_emits(old(out)@, emits@)
        } else {
            mirror::after_key(after_emits(old(out)@, emits@), code, pressed)
        }),
        final(pending)@ == old(pending)@ + holds(emits@, times@),
{
    flush_emits(out, pending, emits, times);
    if !dropped {
        out.key(code, pressed);
    }
}

proof fn lemma_swap_remove(s: Seq<Release>, i: int)
    requires
        0 <= i < s.len(),
    ensures
        s.update(i, s.last()).drop_last().to_multiset().insert(s[i]) == s.to_multiset(),
{
    broadcast use vstd::seq_lib::group_to_multiset_ensures;

    let t = s.update(i, s.last()).drop_last();
    assert(s.contains(s[i]));
    assert(s.to_multiset().remove(s[i]).insert(s[i]) =~= s.to_multiset());
    if i == s.len() - 1 {
        assert(t =~= s.remove(i));
    } else {
        let both = t.remove(i);
        assert(t[i] == s.last());
        assert(s.remove(i) =~= both.push(s.last()));
        assert(t.contains(s.last()));
        assert(t.to_multiset().remove(s.last()).insert(s.last()) =~= t.to_multiset());
        assert(t.to_multiset() =~= s.remove(i).to_multiset());
    }
}

proof fn lemma_one_more_release(m: MirrorView, done: Seq<Release>, next: Release, now: u128)
    requires
        next.at <= now,
    ensures
        mirror::after_key(after_releases(m, done, now), next.code, false) == after_releases(
            m,
            done.push(next),
            now,
        ),
{
    let more = done.push(next);
    let a = after_releases(m, done, now);
    let b = after_releases(m, more, now);
    let c = mirror::after_key(a, next.code, false);
    mirror::lemma_key_index_in(m.codes, next.code);
    assert forall|i: int| 0 <= i < m.buttons.len() implies c.buttons[i] == b.buttons[i] by {
        if released(m.codes, done, now, i) {
            let j = choose|j: int|
                0 <= j < done.len() && (#[trigger] done[j]).at <= now && mirror::key_index(
                    m.codes,
                    done[j].code,
                ) == Some(i);
            assert(more[j] == done[j]);
            assert(released(m.codes, more, now, i));
        }
        if mirror::key_index(m.codes, next.code) == Some(i) {
            assert(more[done.len() as int] == next);
            assert(released(m.codes, more, now, i));
        }
        if released(m.codes, more, now, i) {
            let j = choose|j: int|
                0 <= j < more.len() && (#[trigger] more[j]).at <= now && mirror::key_index(
                    m.codes,
                    more[j].code,
                ) == Some(i);
            if j < done.len() {
                assert(done[j] == more[j]);
            }
        }
    }
    assert(c.buttons =~= b.buttons);
    if a.buttons != m.buttons {
        assert(b.buttons != m.buttons) by {
            if b.buttons == m.buttons {
                assert forall|i: int| 0 <= i < m.buttons.len() implies a.buttons[i]
                    == m.buttons[i] by {
                    assert(b.buttons[i] == m.buttons[i]);
                    assert(c.buttons[i] == b.buttons[i]);
                }
                assert(a.buttons =~= m.buttons);
            }
        }
    }
    assert(c =~= b);
}

proof fn lemma_same_releases(m: MirrorView, a: Seq<Release>, b: Seq<Release>, now: u128)
    requires
        forall|r: Release| r.at <= now ==> (#[trigger] a.contains(r) <==> b.contains(r)),
    ensures
        after_releases(m, a, now) == after_releases(m, b, now),
{
    assert forall|i: int| released(m.codes, a, now, i) == released(m.codes, b, now, i) by {
        if released(m.codes, a, now, i) {
            let j = choose|j: int|
                0 <= j < a.len() && (#[trigger] a[j]).at <= now && mirror::key_index(
                    m.codes,
                    a[j].code,
                ) == Some(i);
            assert(a.contains(a[j]));
            let k = choose|k: int| 0 <= k < b.len() && b[k] == a[j];
            assert(b[k].at <= now);
        }
        if released(m.codes, b, now, i) {
            let j = choose|j: int|
                0 <= j < b.len() && (#[trigger] b[j]).at <= now && mirror::key_index(
                    m.codes,
                    b[j].code,
                ) == Some(i);
            assert(a.contains(b[j]));
            let k = choose|k: int| 0 <= k < a.len() && a[k] == b[j];
            assert(a[k].at <= now);
        }
    }
    assert(after_releases(m, a, now).buttons =~= after_releases(m, b, now).buttons);
}

/// Lets the keys go up whose time has come. Returns whether the mirror is to
/// be flushed: only where nothing was pending it is not.
pub fn flush_pending_releases(pending: &mut Vec<Release>, out: &mut Mirror, now: u128) -> (due: bool)
    requires
        old(out).wf(),
    ensures
        final(out).wf(),
        final(out).map() == old(out).map(),
        final(out)@ == after_releases(old(out)@, old(pending)@, now),
        final(pending)@.to_multiset() == old(pending)@.to_multiset().filter(
            |r: Release| r.at > now,
        ),
        due == (old(pending)@.len() > 0),
{
    broadcast use vstd::seq_lib::group_to_multiset_ensures;

    let ghost start = out@;
    let ghost all = pending@;
    let ghost map = out.map();
    let ghost mut done: Seq<Release> = Seq::empty();
    let due = pending.len() > 0;
    let mut i: usize = 0;
    assert(after_releases(start, done, now) =~= start) by {
        assert(after_releases(start, done, now).buttons =~= start.buttons);
    }
    assert(pending@.to_multiset().add(done.to_multiset()) =~= all.to_multiset());
    while i < pending.len()
        invariant
            i <= pending@.len(),
            out.wf(),
            out.map() == map,
            out@ == after_releases(start, done, now),
            pending@.to_multiset().add(done.to_multiset()) == all.to_multiset(),
            forall|j: int| 0 <= j < i ==> (#[trigger] pending@[j]).at > now,
            forall|j: int| 0 <= j < done.len() ==> (#[trigger] done[j]).at <= now,
        decreases pending@.len() - i,
    {
        if pending[i].at <= now {
            let ghost before = pending@;
            let release = pending.swap_remove(i);
            out.key(release.code, false);
            proof {
                broadcast use vstd::seq_lib::group_to_multiset_ensures;

                lemma_swap_remove(before, i as int);
                lemma_one_more_release(start, done, release, now);
                let more = done.push(release);
                assert(pending@.to_multiset().add(more.to_multiset()) =~= all.to_multiset());
                done = more;
            }
        } else {
            i += 1;
        }
    }
    proof {
        lemma_left_over(all, pending@, done, now);
        lemma_same_releases(start, done, all, now);
    }
    due
}

proof fn lemma_left_over(all: Seq<Release>, left: Seq<Release>, done: Seq<Release>, now: u128)
    requires
        left.to_multiset().add(done.to_multiset()) == all.to_multiset(),
        forall|j: int| 0 <= j < left.len() ==> (#[trigger] left[j]).at > now,
        forall|j: int| 0 <= j < done.len() ==> (#[trigger] done[j]).at <= now,
    ensures
        left.to_multiset() == all.to_multiset().filter(|r: Release| r.at > now),
        forall|r: Release| r.at <= now ==> (#[trigger] done.contains(r) <==> all.contains(r)),
{
    broadcast use vstd::seq_lib::group_to_multiset_ensures;

    let later = |r: Release| r.at > now;
    assert forall|r: Release| #[trigger] left.to_multiset().count(r) == all.to_multiset().filter(
        later,
    ).count(r) by {
        if r.at > now {
            assert(!done.contains(r));
            assert(done.to_multiset().count(r) == 0);
        } else {
            assert(!left.contains(r));
            assert(left.to_multiset().count(r) == 0);
        }
    }
    assert(left.to_multiset() =~= all.to_multiset().filter(later));
    assert forall|r: Release| r.at <= now implies (#[trigger] done.contains(r) <==> all.contains(
        r,
    )) by {
        assert(!left.contains(r));
        assert(left.to_multiset().count(r) == 0);
        assert(done.to_multiset().count(r) == all.to_multiset().count(r));
    }
}

/// A held press is down from the moment it is emitted, stays down for the
/// time it is held, and is up after it; no other button is touched.
pub proof fn law_hold_ends_in_time(m: MirrorView, emit: EmitEvent, now: u128, later: u128, i: int)
    requires
        hold(emit, now) is Some,
        mirror::key_index(m.codes, emit.code) == Some(i),
        m.buttons.len() == m.codes.len(),
        now <= LAST_TIME,
    ensures
        ({
            let down = after_emit(m, emit);
            let release = hold(emit, now)->0;
            let after = after_releases(down, seq![release], later);
            &&& release.at == now + emit.hold_ms->0 * 1_000_000
            &&& down.buttons[i]
            &&& later < release.at ==> after == down
            &&& later >= release.at ==> !after.buttons[i]
            &&& forall|j: int|
                0 <= j < m.buttons.len() && j != i ==> #[trigger] after.buttons[j] == m.buttons[j]
        }),
{
    mirror::lemma_key_index_in(m.codes, emit.code);
    let down = after_emit(m, emit);
    let release = hold(emit, now)->0;
    let one = seq![release];
    let after = after_releases(down, one, later);
    assert(one[0] == release);
    if later < release.at {
        assert(after.buttons =~= down.buttons);
    } else {
        assert(released(down.codes, one, later, i));
    }
    assert forall|j: int| 0 <= j < m.buttons.len() && j != i implies #[trigger] after.buttons[j]
        == m.buttons[j] by {
        assert(!released(down.codes, one, later, j));
    }
}

/// An emitted key event (type 1) leaves its button down exactly where its value
/// is not zero; an emitted axis event (type 3) moves that axis to its value;
/// nothing else moves anything.
pub proof fn law_emitted_events(m: MirrorView, emit: EmitEvent, i: int)
    requires
        m.buttons.len() == m.codes.len(),
        0 <= i < m.codes.len(),
        forall|a: int, b: int| 0 <= a < b < m.codes.len() ==> m.codes[a] != m.codes[b],
    ensures
        emit.ev_type == 1 ==> after_emit(m, emit).buttons[i] == (if m.codes[i] == emit.code {
            emit.value != 0
        } else {
            m.buttons[i]
        }),
        emit.ev_type == 1 ==> after_emit(m, emit).values == m.values,
        emit.ev_type == 3 ==> after_emit(m, emit) == mirror::after_abs(
            m,
            emit.code as u32,
            emit.value,
        ),
        emit.ev_type != 1 && emit.ev_type != 3 ==> after_emit(m, emit) == m,
{
    mirror::lemma_key_index_in(m.codes, emit.code);
}

/// Emitted events act in order: a list acts as its front and then its back.
pub proof fn law_emits_act_in_order(m: MirrorView, front: Seq<EmitEvent>, back: Seq<EmitEvent>)
    ensures
        after_emits(m, front + back) == after_emits(after_emits(m, front), back),
        after_emits(m, Seq::empty()) == m,
    decreases back.len(),
{
    if back.len() == 0 {
        assert(front + back =~= front);
    } else {
        law_emits_act_in_order(m, front, back.drop_last());
        assert((front + back).drop_last() =~= front + back.drop_last());
    }
}

/// One emitted event acts as it does in a list by itself.
pub proof fn law_single_emit(m: MirrorView, emit: EmitEvent)
    ensures
        after_emits(m, seq![emit]) == after_emit(m, emit),
{
    let one = seq![emit];
    assert(one.drop_last() =~= Seq::<EmitEvent>::empty());
    assert(one.last() == emit);
    assert(after_emits(m, one.drop_last()) == m);
}

/// Exactly the key events (type 1) with the value 1 and a time to hold are
/// held: their key is let go that many milliseconds later.
pub proof fn law_what_is_held(emit: EmitEvent, now: u128)
    requires
        now <= LAST_TIME,
    ensures
        hold(emit, now) is Some <==> emit.ev_type == 1 && emit.value == 1 && emit.hold_ms is Some,
        hold(emit, now) matches Some(r) ==> r.code == emit.code && r.at == now + emit.hold_ms->0
            * 1000000,
{
}

/// Each held event has its release, counted from its own time, and there is no
/// other release.
pub proof fn law_every_hold_is_scheduled(emits: Seq<EmitEvent>, times: Seq<u128>)
    requires
        times.len() >= emits.len(),
    ensures
        forall|i: int|
            #![trigger emits[i]]
            0 <= i < emits.len() && hold(emits[i], times[i]) is Some ==> holds(
                emits,
                times,
            ).contains(hold(emits[i], times[i])->0),
        forall|r: Release|
            holds(emits, times).contains(r) ==> exists|i: int|
                #![trigger emits[i]]
                0 <= i < emits.len() && hold(emits[i], times[i]) == Some(r),
        holds(emits, times).len() <= emits.len(),
    decreases emits.len(),
{
    if emits.len() != 0 {
        let front = emits.drop_last();
        let n = emits.len() - 1;
        law_every_hold_is_scheduled(front, times);
        let before = holds(front, times);
        let all = holds(emits, times);
        assert forall|i: int|
            #![trigger emits[i]]
            0 <= i < emits.len() && hold(emits[i], times[i]) is Some implies all.contains(
            hold(emits[i], times[i])->0,
        ) by {
            let r = hold(emits[i], times[i])->0;
            if i < n {
                assert(front[i] == emits[i]);
                let k = choose|k: int| 0 <= k < before.len() && before[k] == r;
                assert(all[k] == r);
            } else {
                assert(all[before.len() as int] == r);
            }
        }
        assert forall|r: Release| all.contains(r) implies exists|i: int|
            #![trigger emits[i]]
            0 <= i < emits.len() && hold(emits[i], times[i]) == Some(r) by {
            let k = choose|k: int| 0 <= k < all.len() && all[k] == r;
            if k < before.len() {
                assert(before[k] == r);
                assert(before.contains(r));
                let i = choose|i: int|
                    #![trigger front[i]]
                    0 <= i < front.len() && hold(front[i], times[i]) == Some(r);
                assert(emits[i] == front[i]);
            } else {
                assert(hold(emits[n], times[n]) == Some(r));
            }
        }
    }
}

/// Releases let go exactly the keys whose time has come, the last moment of it
/// included, and move nothing else.
pub proof fn law_due_keys_go_up(m: MirrorView, pending: Seq<Release>, now: u128, i: int)
    requires
        m.buttons.len() == m.codes.len(),
        0 <= i < m.codes.len(),
        forall|a: int, b: int| 0 <= a < b < m.codes.len() ==> m.codes[a] != m.codes[b],
    ensures
        (exists|k: int|
            0 <= k < pending.len() && (#[trigger] pending[k]).code == m.codes[i] && pending[k].at
                <= now) ==> !after_releases(m, pending, now).buttons[i],
        (forall|k: int|
            0 <= k < pending.len() && (#[trigger] pending[k]).code == m.codes[i] ==> pending[k].at
                > now) ==> after_releases(m, pending, now).buttons[i] == m.buttons[i],
        after_releases(m, pending, now).values == m.values,
        after_releases(m, pending, now).hat == m.hat,
{
    assert forall|k: int| 0 <= k < pending.len() implies mirror::key_index(
        m.codes,
        (#[trigger] pending[k]).code,
    ) == Some(i) <==> pending[k].code == m.codes[i] by {
        mirror::lemma_key_index_in(m.codes, pending[k].code);
        if pending[k].code == m.codes[i] {
            assert(m.codes.contains(pending[k].code));
        }
    }
    if exists|k: int|
        0 <= k < pending.len() && (#[trigger] pending[k]).code == m.codes[i] && pending[k].at
            <= now {
        assert(released(m.codes, pending, now, i));
    }
}

/// Where keys that go up change the report, the report is due; where they change
/// nothing, it is due only if it was before. Axes stay as they were.
pub proof fn law_due_releases_are_reported(m: MirrorView, pending: Seq<Release>, now: u128)
    ensures
        ({
            let after = after_releases(m, pending, now);
            &&& mirror::report_of(after) != mirror::report_of(m) ==> after.dirty
            &&& m.dirty ==> after.dirty
            &&& after.buttons == m.buttons ==> after == m
            &&& after.values == m.values && after.codes == m.codes && after.axes == m.axes
        }),
{
    let after = after_releases(m, pending, now);
    if after.buttons == m.buttons {
        assert(after == m);
    }
}

} // verus!
