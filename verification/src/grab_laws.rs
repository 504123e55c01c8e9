//! What the released grabs mean to whoever hears of them.
use crate::grab_release;
use crate::grab_release::{PointerGrab, Released};
use crate::grab_state;
use crate::grab_state::{GrabModel, BUTTON_STATE_PRESSED};
use crate::kinds;
use crate::relay;
use crate::schema;
use crate::schema::Direction;
use crate::session::SessionModel;
use crate::shadow_table::TableModel;
use crate::wire;
use vstd::prelude::*;

verus! {

/// The connection after its tracker heard of an event, as it hears of an event
/// of the host under the client's number for the sender.
pub open spec fn heard<F>(s: SessionModel<F>, event: Seq<u8>) -> SessionModel<F> {
    match wire::header_of(event) {
        None => s,
        Some(header) => match s.objects.interface(header.sender_id) {
            None => s,
            Some(interface) => match interface.message(Direction::HostToClient, header.opcode) {
                None => s,
                Some(desc) => relay::grabs_after(
                    s,
                    kinds::kind_of(Direction::HostToClient, interface.name, desc.name),
                    header.sender_id,
                    event.skip(8),
                ),
            },
        },
    }
}

/// The connection after its tracker heard of several events, in order.
pub open spec fn heard_all<F>(s: SessionModel<F>, events: Seq<Seq<u8>>) -> SessionModel<F>
    decreases events.len(),
{
    if events.len() == 0 {
        s
    } else {
        heard(heard_all(s, events.drop_last()), events.last())
    }
}

/// Whether object `id` is of the interface `name`, which has an event of this
/// name and no more events than opcodes can tell apart.
pub open spec fn has_event(t: TableModel, id: u32, name: Seq<char>, event: Seq<char>) -> bool {
    &&& t.interface(id) is Some
    &&& t.interface(id)->0.name == name
    &&& t.interface(id)->0.events.len() <= 0x1_0000
    &&& schema::opcode_named(t.interface(id)->0.events, event) is Some
}

/// Whether every device that holds something is of the interface that it was
/// heard of as.
pub open spec fn devices_are_known(t: TableModel, grabs: GrabModel) -> bool {
    &&& forall|id: u32| #[trigger]
        grabs.pointers.contains_key(id) && grabs.pointers[id].is_active() ==> has_event(
            t,
            id,
            "wl_pointer"@,
            "leave"@,
        ) && has_event(t, id, "wl_pointer"@, "button"@)
    &&& forall|id: u32| #[trigger]
        grabs.keyboards.contains_key(id) && grabs.keyboards[id] is Some ==> has_event(
            t,
            id,
            "wl_keyboard"@,
            "leave"@,
        )
}

/// Which kinds of event the releases are.
proof fn lemma_release_kinds()
    ensures
        kinds::kind_of(Direction::HostToClient, "wl_pointer"@, "leave"@) is PointerLeave,
        kinds::kind_of(Direction::HostToClient, "wl_pointer"@, "button"@) is PointerButton,
        kinds::kind_of(Direction::HostToClient, "wl_keyboard"@, "leave"@) is KeyboardLeave,
{
    reveal_strlit("wl_display");
    reveal_strlit("wl_pointer");
    reveal_strlit("wl_keyboard");
    reveal_strlit("leave");
    reveal_strlit("enter");
    reveal_strlit("button");
    assert("wl_pointer"@[3] != "wl_display"@[3]);
    assert("leave"@[0] != "enter"@[0]);
    assert("wl_keyboard"@.len() != "wl_display"@.len());
    assert("wl_keyboard"@.len() != "wl_pointer"@.len());
    assert("button"@.len() != "enter"@.len());
}

/// Hearing one more event is hearing it last.
proof fn lemma_heard_push<F>(s: SessionModel<F>, events: Seq<Seq<u8>>, event: Seq<u8>)
    ensures
        heard_all(s, events.push(event)) == heard(heard_all(s, events), event),
{
    assert(events.push(event).drop_last() =~= events);
}

/// A `leave` is heard as one.
proof fn lemma_leave_is_heard<F>(s: SessionModel<F>, id: u32, serial: u32, surface: u32)
    ensures
        has_event(s.objects, id, "wl_pointer"@, "leave"@) ==> heard(
            s,
            grab_release::leave_message(
                id,
                schema::opcode_named(s.objects.interface(id)->0.events, "leave"@)->0,
                serial,
                surface,
            ),
        ) == (SessionModel { grabs: s.grabs.pointer_leave(id), ..s }),
        has_event(s.objects, id, "wl_keyboard"@, "leave"@) ==> heard(
            s,
            grab_release::leave_message(
                id,
                schema::opcode_named(s.objects.interface(id)->0.events, "leave"@)->0,
                serial,
                surface,
            ),
        ) == (SessionModel { grabs: s.grabs.keyboard_leave(id), ..s }),
{
    if has_event(s.objects, id, "wl_pointer"@, "leave"@) || has_event(
        s.objects,
        id,
        "wl_keyboard"@,
        "leave"@,
    ) {
        let events = s.objects.interface(id)->0.events;
        schema::lemma_opcode_named(events, "leave"@);
        lemma_release_kinds();
        wire::lemma_words_read(serial, surface, 0, 0);
        wire::lemma_built_message_reads(
            id,
            schema::opcode_named(events, "leave"@)->0,
            wire::word_bytes(serial) + wire::word_bytes(surface),
        );
    }
}

/// A button that comes up is heard as one: it is among the held buttons no
/// longer, and nothing else changes.
proof fn lemma_button_is_heard<F>(s: SessionModel<F>, id: u32, serial: u32, button: u32)
    requires
        has_event(s.objects, id, "wl_pointer"@, "button"@),
    ensures
        ({
            let opcode = schema::opcode_named(s.objects.interface(id)->0.events, "button"@)->0;
            let after = heard(s, grab_release::button_up_message(id, opcode, serial, button));
            &&& after.objects == s.objects
            &&& after.grabs.keyboards == s.grabs.keyboards
            &&& forall|other: u32|
                other != id ==> #[trigger] after.grabs.pointer(other) == s.grabs.pointer(other)
            &&& after.grabs.pointer(id).entered == s.grabs.pointer(id).entered
            &&& forall|b: u32| #[trigger]
                after.grabs.pointer(id).pressed.contains(b) ==> b != button && s.grabs.pointer(
                    id,
                ).pressed.contains(b)
        }),
{
    let events = s.objects.interface(id)->0.events;
    let opcode = schema::opcode_named(events, "button"@)->0;
    schema::lemma_opcode_named(events, "button"@);
    lemma_release_kinds();
    wire::lemma_words_read(serial, 0, button, 0);
    let payload = wire::word_bytes(serial) + wire::word_bytes(0) + wire::word_bytes(button)
        + wire::word_bytes(0);
    wire::lemma_built_message_reads(id, opcode, payload);
    let after = heard(s, grab_release::button_up_message(id, opcode, serial, button));
    assert(after.grabs == s.grabs.pointer_button(id, button, 0));
    assert forall|b: u32| #[trigger] after.grabs.pointer(id).pressed.contains(b) implies b
        != button && s.grabs.pointer(id).pressed.contains(b) by {
        lemma_except(s.grabs.pointer(id).pressed, button, b);
    }
}

/// What is left without a button was there before and is not that button.
pub(crate) proof fn lemma_except(held: Seq<u32>, button: u32, b: u32)
    ensures
        grab_state::except(held, button).contains(b) <==> held.contains(b) && b != button,
    decreases held.len(),
{
    reveal(Seq::filter);
    if held.len() > 0 {
        let shorter = held.drop_last();
        lemma_except(shorter, button, b);
        let kept = grab_state::except(shorter, button);
        assert(held =~= shorter.push(held.last()));
        if held.contains(b) {
            let i = choose|i: int| 0 <= i < held.len() && held[i] == b;
            if i < shorter.len() {
                assert(shorter[i] == b);
            }
        }
        if shorter.contains(b) {
            let i = choose|i: int| 0 <= i < shorter.len() && shorter[i] == b;
            assert(held[i] == b);
        }
        assert(held[held.len() - 1] == held.last());
        if held.last() != button {
            let all = kept.push(held.last());
            assert(grab_state::except(held, button) == all);
            assert(all[kept.len() as int] == held.last());
            if kept.contains(b) {
                let i = choose|i: int| 0 <= i < kept.len() && kept[i] == b;
                assert(all[i] == b);
            }
            if all.contains(b) {
                let i = choose|i: int| 0 <= i < all.len() && all[i] == b;
                if i < kept.len() {
                    assert(kept[i] == b);
                }
            }
        } else {
            assert(grab_state::except(held, button) == kept);
        }
    }
}

/// After some buttons came up, none of them is held.
proof fn lemma_buttons_are_heard<F>(
    s: SessionModel<F>,
    so_far: Released,
    id: u32,
    pressed: Seq<u32>,
    n: int,
)
    requires
        0 <= n <= pressed.len(),
        has_event(heard_all(s, so_far.messages).objects, id, "wl_pointer"@, "button"@),
    ensures
        ({
            let before = heard_all(s, so_far.messages);
            let opcode = schema::opcode_named(before.objects.interface(id)->0.events, "button"@)->0;
            let r = grab_release::buttons_released(so_far, id, opcode, pressed, n);
            let after = heard_all(s, r.messages);
            &&& after.objects == before.objects
            &&& after.grabs.keyboards == before.grabs.keyboards
            &&& forall|other: u32|
                other != id ==> #[trigger] after.grabs.pointer(other) == before.grabs.pointer(other)
            &&& after.grabs.pointer(id).entered == before.grabs.pointer(id).entered
            &&& forall|b: u32| #[trigger]
                after.grabs.pointer(id).pressed.contains(b) ==> before.grabs.pointer(
                    id,
                ).pressed.contains(b) && forall|j: int| 0 <= j < n ==> #[trigger] pressed[j] != b
        }),
    decreases n,
{
    if n > 0 {
        lemma_buttons_are_heard(s, so_far, id, pressed, n - 1);
        let before = heard_all(s, so_far.messages);
        let opcode = schema::opcode_named(before.objects.interface(id)->0.events, "button"@)->0;
        let r = grab_release::buttons_released(so_far, id, opcode, pressed, n - 1);
        let middle = heard_all(s, r.messages);
        lemma_button_is_heard(middle, id, r.serial, pressed[n - 1]);
        lemma_heard_push(
            s,
            r.messages,
            grab_release::button_up_message(id, opcode, r.serial, pressed[n - 1]),
        );
    }
}

/// After a pointer was released it holds nothing, and the others hold what
/// they held.
proof fn lemma_pointer_is_heard<F>(s: SessionModel<F>, so_far: Released, grab: PointerGrab)
    requires
        ({
            let before = heard_all(s, so_far.messages);
            &&& has_event(before.objects, grab.id, "wl_pointer"@, "leave"@)
            &&& has_event(before.objects, grab.id, "wl_pointer"@, "button"@)
            &&& before.grabs.pointer(grab.id).entered == grab.entered
            &&& before.grabs.pointer(grab.id).pressed == grab.pressed
        }),
    ensures
        ({
            let before = heard_all(s, so_far.messages);
            let after = heard_all(
                s,
                grab_release::pointer_released(so_far, before.objects, grab).messages,
            );
            &&& after.objects == before.objects
            &&& after.grabs.keyboards == before.grabs.keyboards
            &&& forall|other: u32|
                other != grab.id ==> #[trigger] after.grabs.pointer(other) == before.grabs.pointer(
                    other,
                )
            &&& !after.grabs.pointer(grab.id).is_active()
        }),
{
    let before = heard_all(s, so_far.messages);
    let t = before.objects;
    let id = grab.id;
    let r = grab_release::left(so_far, t, id, grab.entered);
    let middle = heard_all(s, r.messages);
    if let Some(surface) = grab.entered {
        lemma_leave_is_heard(before, id, so_far.serial, surface);
        let opcode = schema::opcode_named(t.interface(id)->0.events, "leave"@)->0;
        lemma_heard_push(
            s,
            so_far.messages,
            grab_release::leave_message(id, opcode, so_far.serial, surface),
        );
        assert(middle.grabs == before.grabs.pointer_leave(id));
    }
    assert(middle.grabs.pointer(id).entered is None);
    assert(middle.grabs.pointer(id).pressed == grab.pressed);
    lemma_buttons_are_heard(s, r, id, grab.pressed, grab.pressed.len() as int);
    let after = heard_all(s, grab_release::pointer_released(so_far, t, grab).messages);
    let held = after.grabs.pointer(id).pressed;
    if held.len() > 0 {
        assert(held.contains(held[0]));
        let j = choose|j: int| 0 <= j < grab.pressed.len() && grab.pressed[j] == held[0];
        assert(grab.pressed[j] == held[0]);
    }
}

/// After some pointers were released they hold nothing, and the others hold
/// what they held.
proof fn lemma_pointers_are_heard<F>(s: SessionModel<F>, list: Seq<PointerGrab>, n: int)
    requires
        0 <= n <= list.len(),
        devices_are_known(s.objects, s.grabs),
        grab_release::lists_pointers(list, s.grabs),
    ensures
        ({
            let start = Released { messages: Seq::empty(), serial: 1 };
            let r = grab_release::pointers_released(start, s.objects, list, n);
            let after = heard_all(s, r.messages);
            &&& after.objects == s.objects
            &&& after.grabs.keyboards == s.grabs.keyboards
            &&& forall|i: int|
                0 <= i < n ==> !after.grabs.pointer((#[trigger] list[i]).id).is_active()
            &&& forall|id: u32|
                (forall|i: int| 0 <= i < n ==> (#[trigger] list[i]).id != id)
                    ==> #[trigger] after.grabs.pointer(id) == s.grabs.pointer(id)
        }),
    decreases n,
{
    if n > 0 {
        lemma_pointers_are_heard(s, list, n - 1);
        let start = Released { messages: Seq::empty(), serial: 1 };
        let r = grab_release::pointers_released(start, s.objects, list, n - 1);
        let grab = list[n - 1];
        assert(s.grabs.pointers.contains_key(grab.id));
        lemma_pointer_is_heard(s, r, grab);
        let last = grab_release::pointers_released(start, s.objects, list, n);
        let after = heard_all(s, last.messages);
        assert forall|id: u32|
            (forall|i: int| 0 <= i < n ==> (#[trigger] list[i]).id != id) implies #[trigger] after.grabs.pointer(
        id) == s.grabs.pointer(id) by {
            assert(list[n - 1].id != id);
        }
    }
}

/// After some keyboards were released they have no focus, and pointers hold
/// what they held.
proof fn lemma_keyboards_are_heard<F>(
    s: SessionModel<F>,
    so_far: Released,
    grabs: GrabModel,
    list: Seq<(u32, u32)>,
    n: int,
)
    requires
        0 <= n <= list.len(),
        grab_release::lists_keyboards(list, grabs),
        devices_are_known(heard_all(s, so_far.messages).objects, grabs),
        heard_all(s, so_far.messages).grabs.keyboards == grabs.keyboards,
    ensures
        ({
            let before = heard_all(s, so_far.messages);
            let r = grab_release::keyboards_released(so_far, before.objects, list, n);
            let after = heard_all(s, r.messages);
            &&& after.objects == before.objects
            &&& after.grabs.pointers == before.grabs.pointers
            &&& after.grabs.keyboards.dom() == grabs.keyboards.dom()
            &&& forall|i: int|
                0 <= i < n ==> after.grabs.keyboards[(#[trigger] list[i]).0] is None
            &&& forall|id: u32| #[trigger]
                grabs.keyboards.contains_key(id) && grabs.keyboards[id] is None
                    ==> after.grabs.keyboards[id] is None
        }),
    decreases n,
{
    if n > 0 {
        lemma_keyboards_are_heard(s, so_far, grabs, list, n - 1);
        let before = heard_all(s, so_far.messages);
        let r = grab_release::keyboards_released(so_far, before.objects, list, n - 1);
        let middle = heard_all(s, r.messages);
        let (id, surface) = list[n - 1];
        assert(grabs.keyboards.contains_key(list[n - 1].0));
        assert(has_event(middle.objects, id, "wl_keyboard"@, "leave"@));
        lemma_leave_is_heard(middle, id, r.serial, surface);
        let opcode = schema::opcode_named(middle.objects.interface(id)->0.events, "leave"@)->0;
        lemma_heard_push(
            s,
            r.messages,
            grab_release::leave_message(id, opcode, r.serial, surface),
        );
        assert(middle.grabs.keyboards.contains_key(id));
        let after = heard_all(
            s,
            grab_release::keyboards_released(so_far, before.objects, list, n).messages,
        );
        assert(after.grabs == middle.grabs.keyboard_leave(id));
        assert(after.grabs.keyboards.dom() =~= grabs.keyboards.dom());
    }
}

/// A tracker that hears of the releases, as it hears of the host's own events,
/// is left with no focused or pressed pointer and no focused keyboard: they
/// undo everything that was held.
pub proof fn lemma_releases_undo_every_grab<F>(s: SessionModel<F>, messages: Seq<Seq<u8>>)
    requires
        devices_are_known(s.objects, s.grabs),
        grab_release::releases_everything(s.objects, s.grabs, messages),
    ensures
        forall|id: u32| !(#[trigger] heard_all(s, messages).grabs.pointer(id)).is_active(),
        forall|id: u32| #[trigger]
            heard_all(s, messages).grabs.keyboards.contains_key(id) ==> heard_all(
                s,
                messages,
            ).grabs.keyboards[id] is None,
{
    let (pointers, keyboards) = choose|pointers: Seq<PointerGrab>, keyboards: Seq<(u32, u32)>|
     #[trigger]
        grab_release::lists_pointers(pointers, s.grabs) && #[trigger] grab_release::lists_keyboards(
            keyboards,
            s.grabs,
        ) && messages == grab_release::all_released(s.objects, pointers, keyboards).messages;
    let start = Released { messages: Seq::empty(), serial: 1 };
    let np = pointers.len() as int;
    let middle = grab_release::pointers_released(start, s.objects, pointers, np);
    lemma_pointers_are_heard(s, pointers, np);
    lemma_keyboards_are_heard(s, middle, s.grabs, keyboards, keyboards.len() as int);
    let after = heard_all(s, messages);
    let between = heard_all(s, middle.messages);
    assert forall|id: u32| !(#[trigger] after.grabs.pointer(id)).is_active() by {
        assert(after.grabs.pointer(id) == between.grabs.pointer(id));
        if s.grabs.pointer(id).is_active() {
            assert(s.grabs.pointers.contains_key(id));
            let i = choose|i: int| 0 <= i < np && (#[trigger] pointers[i]).id == id;
            assert(!between.grabs.pointer(pointers[i].id).is_active());
        } else if exists|i: int| 0 <= i < np && (#[trigger] pointers[i]).id == id {
            let i = choose|i: int| 0 <= i < np && (#[trigger] pointers[i]).id == id;
            assert(!between.grabs.pointer(pointers[i].id).is_active());
        }
    }
    assert forall|id: u32| #[trigger] after.grabs.keyboards.contains_key(id) implies after.grabs.keyboards[id] is None by {
        assert(s.grabs.keyboards.contains_key(id));
        if s.grabs.keyboards[id] is Some {
            let i = choose|i: int| 0 <= i < keyboards.len() && (#[trigger] keyboards[i]).0 == id;
            assert(after.grabs.keyboards[keyboards[i].0] is None);
        }
    }
}

/// Whether `event` tells the client of something that was held and no longer
/// is: that a focused device left the surface it had entered, or that a held
/// button came up, at no particular time.
pub open spec fn releases(t: TableModel, grabs: GrabModel, event: Seq<u8>) -> bool {
    let id = wire::word_at(event, 0);
    let events = t.interface(id)->0.events;
    ||| ({
        &&& schema::opcode_named(events, "leave"@) is Some
        &&& wire::is_message(event, id, schema::opcode_named(events, "leave"@)->0)
        &&& event.len() == 16
        &&& ({
            ||| grabs.pointer(id).entered == Some(wire::word_at(event, 12))
            ||| grabs.keyboards.contains_key(id) && grabs.keyboards[id] == Some(
                wire::word_at(event, 12),
            )
        })
    })
    ||| ({
        &&& schema::opcode_named(events, "button"@) is Some
        &&& wire::is_message(event, id, schema::opcode_named(events, "button"@)->0)
        &&& event.len() == 24
        &&& grabs.pointer(id).pressed.contains(wire::word_at(event, 16))
        &&& wire::word_at(event, 20) != BUTTON_STATE_PRESSED
        &&& wire::word_at(event, 20) == 0
        &&& wire::word_at(event, 12) == 0
    })
}

/// Whether all of these release something, with serials that count up from 1.
pub open spec fn all_release(t: TableModel, grabs: GrabModel, r: Released) -> bool {
    &&& forall|i: int| 0 <= i < r.messages.len() ==> releases(t, grabs, #[trigger] r.messages[i])
    &&& r.messages.len() < u32::MAX ==> r.serial == r.messages.len() + 1 && forall|i: int|
        0 <= i < r.messages.len() ==> wire::word_at(#[trigger] r.messages[i], 8) == i + 1
}

proof fn lemma_left_releases(
    t: TableModel,
    grabs: GrabModel,
    so_far: Released,
    id: u32,
    surface: Option<u32>,
)
    requires
        all_release(t, grabs, so_far),
        surface is Some ==> grabs.pointer(id).entered == surface || grabs.keyboards.contains_key(id)
            && grabs.keyboards[id] == surface,
    ensures
        all_release(t, grabs, grab_release::left(so_far, t, id, surface)),
{
    if let (Some(interface), Some(surface)) = (t.interface(id), surface) {
        if let Some(opcode) = schema::opcode_named(interface.events, "leave"@) {
            wire::lemma_words_read(so_far.serial, surface, 0, 0);
            let payload = wire::word_bytes(so_far.serial) + wire::word_bytes(surface);
            wire::lemma_built_message_reads(id, opcode, payload);
            let event = grab_release::leave_message(id, opcode, so_far.serial, surface);
            assert(wire::word_at(payload, 0) == so_far.serial);
            assert(wire::word_at(payload, 4) == surface);
            assert(releases(t, grabs, event));
        }
    }
}

proof fn lemma_buttons_release(
    t: TableModel,
    grabs: GrabModel,
    so_far: Released,
    id: u32,
    n: int,
)
    requires
        all_release(t, grabs, so_far),
        t.interface(id) is Some,
        schema::opcode_named(t.interface(id)->0.events, "button"@) is Some,
        0 <= n <= grabs.pointer(id).pressed.len(),
    ensures
        all_release(
            t,
            grabs,
            grab_release::buttons_released(
                so_far,
                id,
                schema::opcode_named(t.interface(id)->0.events, "button"@)->0,
                grabs.pointer(id).pressed,
                n,
            ),
        ),
    decreases n,
{
    if n > 0 {
        lemma_buttons_release(t, grabs, so_far, id, n - 1);
        let opcode = schema::opcode_named(t.interface(id)->0.events, "button"@)->0;
        let pressed = grabs.pointer(id).pressed;
        let r = grab_release::buttons_released(so_far, id, opcode, pressed, n - 1);
        let button = pressed[n - 1];
        wire::lemma_words_read(r.serial, 0, button, 0);
        let payload = wire::word_bytes(r.serial) + wire::word_bytes(0) + wire::word_bytes(button)
            + wire::word_bytes(0);
        wire::lemma_built_message_reads(id, opcode, payload);
        assert(wire::word_at(payload, 0) == r.serial);
        assert(wire::word_at(payload, 8) == button);
        assert(wire::word_at(payload, 4) == 0);
        assert(wire::word_at(payload, 12) == 0);
        assert(releases(t, grabs, grab_release::button_up_message(id, opcode, r.serial, button)));
    }
}

proof fn lemma_pointers_release(
    t: TableModel,
    grabs: GrabModel,
    list: Seq<PointerGrab>,
    n: int,
)
    requires
        grab_release::lists_pointers(list, grabs),
        0 <= n <= list.len(),
    ensures
        all_release(
            t,
            grabs,
            grab_release::pointers_released(
                (Released { messages: Seq::empty(), serial: 1 }),
                t,
                list,
                n,
            ),
        ),
    decreases n,
{
    if n > 0 {
        lemma_pointers_release(t, grabs, list, n - 1);
        let start = Released { messages: Seq::empty(), serial: 1 };
        let r = grab_release::pointers_released(start, t, list, n - 1);
        let grab = list[n - 1];
        assert(grabs.pointers.contains_key(grab.id));
        lemma_left_releases(t, grabs, r, grab.id, grab.entered);
        let middle = grab_release::left(r, t, grab.id, grab.entered);
        if t.interface(grab.id) is Some && schema::opcode_named(
            t.interface(grab.id)->0.events,
            "button"@,
        ) is Some {
            lemma_buttons_release(t, grabs, middle, grab.id, grab.pressed.len() as int);
        }
    }
}

proof fn lemma_keyboards_release(
    t: TableModel,
    grabs: GrabModel,
    so_far: Released,
    list: Seq<(u32, u32)>,
    n: int,
)
    requires
        all_release(t, grabs, so_far),
        grab_release::lists_keyboards(list, grabs),
        0 <= n <= list.len(),
    ensures
        all_release(t, grabs, grab_release::keyboards_released(so_far, t, list, n)),
    decreases n,
{
    if n > 0 {
        lemma_keyboards_release(t, grabs, so_far, list, n - 1);
        let r = grab_release::keyboards_released(so_far, t, list, n - 1);
        assert(grabs.keyboards.contains_key(list[n - 1].0));
        lemma_left_releases(t, grabs, r, list[n - 1].0, Some(list[n - 1].1));
    }
}

/// Nothing is released that was not held: every event is a `leave` of the
/// surface that the device had entered, or says that a button is up which the
/// pointer held down.  Their serials count up from 1.
pub proof fn lemma_only_what_is_held_is_released(
    t: TableModel,
    grabs: GrabModel,
    messages: Seq<Seq<u8>>,
)
    requires
        grab_release::releases_everything(t, grabs, messages),
    ensures
        forall|i: int| 0 <= i < messages.len() ==> releases(t, grabs, #[trigger] messages[i]),
        messages.len() < u32::MAX ==> forall|i: int|
            0 <= i < messages.len() ==> wire::word_at(#[trigger] messages[i], 8) == i + 1,
{
    let (pointers, keyboards) = choose|pointers: Seq<PointerGrab>, keyboards: Seq<(u32, u32)>|
     #[trigger]
        grab_release::lists_pointers(pointers, grabs) && #[trigger] grab_release::lists_keyboards(
            keyboards,
            grabs,
        ) && messages == grab_release::all_released(t, pointers, keyboards).messages;
    let start = Released { messages: Seq::empty(), serial: 1 };
    let np = pointers.len() as int;
    lemma_pointers_release(t, grabs, pointers, np);
    let middle = grab_release::pointers_released(start, t, pointers, np);
    lemma_keyboards_release(t, grabs, middle, keyboards, keyboards.len() as int);
}

} // verus!
