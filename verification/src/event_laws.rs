//! What the compositor's events come to, by name and by the words they carry.
use crate::clipboard;
use crate::grab_laws;
use crate::grab_state::BUTTON_STATE_PRESSED;
use crate::kind_laws;
use crate::kinds;
use crate::recreation;
use crate::relay;
use crate::relay::Outcome;
use crate::relay_laws;
use crate::schema::{ArgumentType, Direction};
use crate::session::SessionModel;
use crate::shadow_table;
use crate::signature;
use crate::signature::WalkModel;
use crate::wire;
use crate::wire::HEADER_LEN;
use std::sync::Arc;
use vstd::prelude::*;

verus! {

/// Whether `msg` is the message `method` of `interface`, sent by the object
/// that the client calls `guest`, and declared with this signature.  An event
/// of the proxy's own clipboard source is nothing of the client's.
pub open spec fn says<F>(
    s: SessionModel<F>,
    direction: Direction,
    msg: Seq<u8>,
    guest: u32,
    interface: Seq<char>,
    method: Seq<char>,
    signature: Seq<ArgumentType>,
) -> bool {
    &&& HEADER_LEN <= msg.len()
    &&& match direction {
        Direction::ClientToHost => wire::word_at(msg, 0) == guest,
        Direction::HostToClient => s.objects.guest_id(wire::word_at(msg, 0)) == Some(guest)
            && s.reclaim.active_source_host_id != Some(wire::word_at(msg, 0)),
    }
    &&& s.objects.interface(guest) is Some
    &&& s.objects.interface(guest)->0.name == interface
    &&& ({
        let messages = s.objects.interface(guest)->0.messages(direction);
        let opcode = wire::header_of(msg)->0.opcode;
        &&& opcode < messages.len()
        &&& messages[opcode as int].name == method
        &&& messages[opcode as int].signature == signature
    })
}

/// What becomes of a message that there is nothing against.
pub open spec fn sent_on(frozen: bool) -> Outcome {
    if frozen {
        Outcome::DroppedFrozen
    } else {
        Outcome::Relayed
    }
}

/// What a walk finds where there is nothing to find.
pub(crate) open spec fn no_ids() -> WalkModel {
    WalkModel {
        new_id_offset: None,
        object_offsets: Seq::empty(),
        fd_count: 0,
        dynamic_interface_name: None,
    }
}

/// A message is addressed the way it says.
pub(crate) proof fn lemma_says<F>(
    s: SessionModel<F>,
    direction: Direction,
    msg: Seq<u8>,
    guest: u32,
    interface: Seq<char>,
    method: Seq<char>,
    signature: Seq<ArgumentType>,
)
    requires
        says(s, direction, msg, guest, interface, method, signature),
        signature::walked(msg.skip(8), signature) is Ok,
    ensures
        relay_laws::addressed(s, direction, msg) matches Some(a) && ({
            &&& a.sender == guest
            &&& a.interface.name == interface
            &&& a.desc.name == method
            &&& a.desc.signature == signature
            &&& signature::walked(msg.skip(8), signature) == Ok::<WalkModel, Seq<char>>(a.walk)
            &&& a.kind(direction) == kinds::kind_of(direction, interface, method)
        }),
{
}

/// Plain words hold no ids, and a payload of them is walked whole.
pub(crate) proof fn lemma_walk_words(payload: Seq<u8>, signature: Seq<ArgumentType>, n: int)
    requires
        0 <= n <= signature.len() < 16,
        forall|i: int|
            0 <= i < signature.len() ==> (#[trigger] signature[i] is Int || signature[i] is Uint
                || signature[i] is Fixed),
        payload.len() >= 4 * n,
    ensures
        signature::walk_prefix(payload, signature, n) == Ok::<signature::WalkState, Seq<char>>(
            (signature::WalkState { offset: 4 * n, found: no_ids() }),
        ),
    decreases n,
{
    if n > 0 {
        lemma_walk_words(payload, signature, n - 1);
    }
}

/// Writing the sender changes nothing behind it.
pub(crate) proof fn lemma_readdressed(msg: Seq<u8>, id: u32)
    requires
        HEADER_LEN <= msg.len(),
    ensures
        ({
            let bytes = wire::with_word(msg, 0, id);
            &&& bytes.len() == msg.len()
            &&& wire::word_at(bytes, 0) == id
            &&& bytes.skip(4) == msg.skip(4)
        }),
{
    wire::lemma_with_word(msg, 0, id);
    wire::lemma_sender_rewrite(msg, id);
}

/// A released buffer is no longer in flight, and the client hears of it under
/// its own number for the buffer, unless there is nobody to hear.  Nothing else
/// changes.  A release that belongs to an earlier connection changes nothing
/// and is not passed on.
pub proof fn lemma_release_goes_through<F>(
    s: SessionModel<F>,
    fds: Seq<Arc<F>>,
    entries: Seq<(Seq<char>, Seq<u8>)>,
    frozen: bool,
    msg: Seq<u8>,
    buffer: u32,
)
    requires
        says(s, Direction::HostToClient, msg, buffer, "wl_buffer"@, "release"@, seq![]),
    ensures
        ({
            let r = relay::relay(s, fds, entries, Direction::HostToClient, frozen, msg);
            if s.objects.is_current(buffer) {
                &&& r.step.outcome == sent_on(frozen)
                &&& wire::word_at(r.step.bytes, 0) == buffer
                &&& r.step.bytes.skip(4) == msg.skip(4)
                &&& r.session.flow.in_flight == s.flow.in_flight.remove(buffer)
                &&& r.session.flow.attached == s.flow.attached
                &&& r.session == (SessionModel { flow: r.session.flow, ..s })
                &&& r.fds == fds
            } else {
                &&& r.step.outcome is DroppedStaleGeneration
                &&& r.session == s
                &&& r.fds == fds
            }
        }),
{
    let direction = Direction::HostToClient;
    lemma_walk_words(msg.skip(8), seq![], 0);
    lemma_says(s, direction, msg, buffer, "wl_buffer"@, "release"@, seq![]);
    kind_laws::lemma_event_names("wl_buffer"@, "release"@);
    assert(relay::translated(s.objects, direction, msg, Seq::empty()) == (msg, true));
    lemma_readdressed(msg, buffer);
    assert(fds.skip(0) =~= fds);
}

/// A callback that was answered is owed no answer any more, and the client
/// hears of it under its own number.
pub proof fn lemma_done_settles_a_callback<F>(
    s: SessionModel<F>,
    fds: Seq<Arc<F>>,
    entries: Seq<(Seq<char>, Seq<u8>)>,
    frozen: bool,
    msg: Seq<u8>,
    callback: u32,
)
    requires
        says(
            s,
            Direction::HostToClient,
            msg,
            callback,
            "wl_callback"@,
            "done"@,
            seq![ArgumentType::Uint],
        ),
        msg.len() == 12,
    ensures
        ({
            let r = relay::relay(s, fds, entries, Direction::HostToClient, frozen, msg);
            &&& r.step.outcome == sent_on(frozen)
            &&& wire::word_at(r.step.bytes, 0) == callback
            &&& r.step.bytes.skip(4) == msg.skip(4)
            &&& r.session == (SessionModel { frames: s.frames.remove(callback), ..s })
        }),
{
    let direction = Direction::HostToClient;
    lemma_walk_words(msg.skip(8), seq![ArgumentType::Uint], 1);
    lemma_says(
        s,
        direction,
        msg,
        callback,
        "wl_callback"@,
        "done"@,
        seq![ArgumentType::Uint],
    );
    kind_laws::lemma_event_names("wl_callback"@, "done"@);
    assert(relay::translated(s.objects, direction, msg, Seq::empty()) == (msg, true));
    lemma_readdressed(msg, callback);
}

/// An id that the compositor frees is freed for the client under the client's
/// own number, and the object is forgotten; one that stands for nothing of the
/// client's is none of its business.
pub proof fn lemma_freed_id_is_forgotten<F>(
    s: SessionModel<F>,
    fds: Seq<Arc<F>>,
    entries: Seq<(Seq<char>, Seq<u8>)>,
    frozen: bool,
    msg: Seq<u8>,
    display: u32,
)
    requires
        says(
            s,
            Direction::HostToClient,
            msg,
            display,
            "wl_display"@,
            "delete_id"@,
            seq![ArgumentType::Uint],
        ),
        msg.len() == 12,
        s.objects.wf(),
    ensures
        ({
            let freed = wire::word_at(msg, 8);
            let r = relay::relay(s, fds, entries, Direction::HostToClient, frozen, msg);
            match s.objects.guest_id(freed) {
                None => r.step.outcome is DroppedUntrackedDeleteId && r.session == s,
                Some(guest) => {
                    &&& r.step.outcome == sent_on(frozen)
                    &&& wire::word_at(r.step.bytes, 0) == display
                    &&& wire::word_at(r.step.bytes, 8) == guest
                    &&& r.session.objects.interface(guest) is None
                    &&& guest != 0 ==> r.session.objects.host_id(guest) is None
                    &&& guest != 0 ==> r.session.objects.guest_id(freed) is None
                    &&& recreation::recipe_of(r.session.graph, guest) is None
                },
            }
        }),
{
    let direction = Direction::HostToClient;
    let freed = wire::word_at(msg, 8);
    lemma_walk_words(msg.skip(8), seq![ArgumentType::Uint], 1);
    lemma_says(
        s,
        direction,
        msg,
        display,
        "wl_display"@,
        "delete_id"@,
        seq![ArgumentType::Uint],
    );
    kind_laws::lemma_event_names("wl_display"@, "delete_id"@);
    assert(relay::translated(s.objects, direction, msg, Seq::empty()) == (msg, true));
    assert(wire::word_at(msg.skip(8), 0) == freed);
    if let Some(guest) = s.objects.guest_id(freed) {
        wire::lemma_with_word(msg, 8, guest);
        wire::lemma_with_word(wire::with_word(msg, 8, guest), 0, display);
        recreation::lemma_removed_is_not_found(s.graph, guest, guest);
        if guest != 0 {
            shadow_table::lemma_removed_is_forgotten(s.objects, guest, freed);
            shadow_table::lemma_translation_is_mutual(s.objects, guest, freed);
        }
    }
}

/// The step that an input event with one object argument in second place
/// makes, up to what it says of focus.
proof fn lemma_focus_event<F>(
    s: SessionModel<F>,
    fds: Seq<Arc<F>>,
    entries: Seq<(Seq<char>, Seq<u8>)>,
    frozen: bool,
    msg: Seq<u8>,
    device: u32,
    interface: Seq<char>,
    event: Seq<char>,
    signature: Seq<ArgumentType>,
    surface: u32,
)
    requires
        says(s, Direction::HostToClient, msg, device, interface, event, signature),
        signature::walked(msg.skip(8), signature) == Ok::<WalkModel, Seq<char>>(
            (WalkModel { object_offsets: seq![4usize], ..no_ids() }),
        ),
        msg.len() >= 16,
        s.objects.guest_id(wire::word_at(msg, 12)) == Some(surface),
        kind_laws::lends_serial(interface, event),
    ensures
        ({
            let r = relay::relay(s, fds, entries, Direction::HostToClient, frozen, msg);
            let kind = kinds::kind_of(Direction::HostToClient, interface, event);
            let p = r.step.bytes.skip(8);
            &&& r.step.outcome == sent_on(frozen)
            &&& r.step.bytes.len() == msg.len()
            &&& wire::word_at(r.step.bytes, 0) == device
            &&& wire::word_at(r.step.bytes, 8) == wire::word_at(msg, 8)
            &&& wire::word_at(r.step.bytes, 12) == surface
            &&& wire::word_opt(p, 4) == Some(surface)
            &&& r.session.grabs == relay::grabs_after(s, kind, device, p).grabs
            &&& r.session.graph == s.graph
            &&& r.session.flow == s.flow
            &&& r.session.frames == s.frames
            &&& r.session.acks == s.acks
        }),
{
    let direction = Direction::HostToClient;
    lemma_says(s, direction, msg, device, interface, event, signature);
    kind_laws::lemma_event_names(interface, event);
    kind_laws::lemma_input_serial_names(direction, interface, event);
    let offsets = seq![4usize];
    let kind = kinds::kind_of(direction, interface, event);
    reveal_with_fuel(relay::translated_prefix, 2);
    let m = wire::with_word(msg, 12, surface);
    assert(relay::translated(s.objects, direction, msg, offsets) == (m, true));
    wire::lemma_with_word(msg, 12, surface);
    wire::lemma_with_word(m, 0, device);
    let bytes = wire::with_word(m, 0, device);
    assert(bytes.skip(8) =~= m.skip(8));
    let r = relay::relay(s, fds, entries, direction, frozen, msg);
    assert(r.step.bytes == bytes);
    assert(wire::word_at(bytes.skip(8), 4) == wire::word_at(bytes, 12));
}

/// Where a pointer's focus is follows from what the compositor says: `enter`
/// moves it to the surface that the event names, in the client's numbering,
/// `leave` takes it away, and neither touches the held buttons or another
/// device.
pub proof fn lemma_pointer_focus_follows<F>(
    s: SessionModel<F>,
    fds: Seq<Arc<F>>,
    entries: Seq<(Seq<char>, Seq<u8>)>,
    frozen: bool,
    msg: Seq<u8>,
    device: u32,
    surface: u32,
    other: u32,
)
    requires
        msg.len() >= 16,
        s.objects.guest_id(wire::word_at(msg, 12)) == Some(surface),
        other != device,
    ensures
        ({
            let r = relay::relay(s, fds, entries, Direction::HostToClient, frozen, msg);
            let entering = says(
                s,
                Direction::HostToClient,
                msg,
                device,
                "wl_pointer"@,
                "enter"@,
                seq![
                    ArgumentType::Uint,
                    ArgumentType::Object,
                    ArgumentType::Fixed,
                    ArgumentType::Fixed,
                ],
            ) && msg.len() == 24;
            let leaving = says(
                s,
                Direction::HostToClient,
                msg,
                device,
                "wl_pointer"@,
                "leave"@,
                seq![ArgumentType::Uint, ArgumentType::Object],
            ) && msg.len() == 16;
            &&& entering || leaving ==> {
                &&& r.step.outcome == sent_on(frozen)
                &&& wire::word_at(r.step.bytes, 0) == device
                &&& wire::word_at(r.step.bytes, 12) == surface
                &&& r.session.grabs.pointer(device).pressed == s.grabs.pointer(device).pressed
                &&& r.session.grabs.pointer(other) == s.grabs.pointer(other)
                &&& r.session.grabs.keyboards == s.grabs.keyboards
            }
            &&& entering ==> r.session.grabs.pointer(device).entered == Some(surface)
            &&& leaving ==> r.session.grabs.pointer(device).entered is None
        }),
{
    let direction = Direction::HostToClient;
    let enter_args = seq![
        ArgumentType::Uint,
        ArgumentType::Object,
        ArgumentType::Fixed,
        ArgumentType::Fixed,
    ];
    let leave_args = seq![ArgumentType::Uint, ArgumentType::Object];
    kind_laws::lemma_event_names("wl_pointer"@, "enter"@);
    kind_laws::lemma_event_names("wl_pointer"@, "leave"@);
    reveal_with_fuel(signature::walk_prefix, 5);
    assert(Seq::<usize>::empty().push(4usize) =~= seq![4usize]);
    if says(s, direction, msg, device, "wl_pointer"@, "enter"@, enter_args) && msg.len() == 24 {
        lemma_focus_event(
            s,
            fds,
            entries,
            frozen,
            msg,
            device,
            "wl_pointer"@,
            "enter"@,
            enter_args,
            surface,
        );
    }
    if says(s, direction, msg, device, "wl_pointer"@, "leave"@, leave_args) && msg.len() == 16 {
        lemma_focus_event(
            s,
            fds,
            entries,
            frozen,
            msg,
            device,
            "wl_pointer"@,
            "leave"@,
            leave_args,
            surface,
        );
    }
}

/// Where a keyboard's focus is follows from what the compositor says: `enter`
/// moves it to the surface that the event names, in the client's numbering,
/// and `leave` takes it away.  Neither touches another device.
pub proof fn lemma_keyboard_focus_follows<F>(
    s: SessionModel<F>,
    fds: Seq<Arc<F>>,
    entries: Seq<(Seq<char>, Seq<u8>)>,
    frozen: bool,
    msg: Seq<u8>,
    device: u32,
    surface: u32,
    other: u32,
)
    requires
        msg.len() >= 16,
        s.objects.guest_id(wire::word_at(msg, 12)) == Some(surface),
        other != device,
    ensures
        ({
            let r = relay::relay(s, fds, entries, Direction::HostToClient, frozen, msg);
            let entering = says(
                s,
                Direction::HostToClient,
                msg,
                device,
                "wl_keyboard"@,
                "enter"@,
                seq![ArgumentType::Uint, ArgumentType::Object, ArgumentType::Array],
            ) && 20 <= msg.len() < usize::MAX && 20 + wire::padded(
                wire::word_at(msg, 16) as int,
            ) <= msg.len();
            let leaving = says(
                s,
                Direction::HostToClient,
                msg,
                device,
                "wl_keyboard"@,
                "leave"@,
                seq![ArgumentType::Uint, ArgumentType::Object],
            ) && msg.len() == 16;
            &&& entering || leaving ==> {
                &&& r.step.outcome == sent_on(frozen)
                &&& wire::word_at(r.step.bytes, 0) == device
                &&& wire::word_at(r.step.bytes, 12) == surface
                &&& r.session.grabs.pointers == s.grabs.pointers
                &&& relay::at_key(r.session.grabs.keyboards, other) == relay::at_key(
                    s.grabs.keyboards,
                    other,
                )
            }
            &&& entering ==> r.session.grabs.keyboards.contains_key(device)
                && r.session.grabs.keyboards[device] == Some(surface)
            &&& leaving ==> r.session.grabs.keyboards.contains_key(device)
                ==> r.session.grabs.keyboards[device] is None
        }),
{
    let direction = Direction::HostToClient;
    let enter_args = seq![ArgumentType::Uint, ArgumentType::Object, ArgumentType::Array];
    let leave_args = seq![ArgumentType::Uint, ArgumentType::Object];
    kind_laws::lemma_event_names("wl_keyboard"@, "enter"@);
    kind_laws::lemma_event_names("wl_keyboard"@, "leave"@);
    reveal_with_fuel(signature::walk_prefix, 4);
    assert(Seq::<usize>::empty().push(4usize) =~= seq![4usize]);
    if says(s, direction, msg, device, "wl_keyboard"@, "enter"@, enter_args) && 20 <= msg.len()
        < usize::MAX && 20 + wire::padded(wire::word_at(msg, 16) as int) <= msg.len() {
        assert(wire::word_at(msg.skip(8), 8) == wire::word_at(msg, 16));
        lemma_focus_event(
            s,
            fds,
            entries,
            frozen,
            msg,
            device,
            "wl_keyboard"@,
            "enter"@,
            enter_args,
            surface,
        );
    }
    if says(s, direction, msg, device, "wl_keyboard"@, "leave"@, leave_args) && msg.len() == 16 {
        lemma_focus_event(
            s,
            fds,
            entries,
            frozen,
            msg,
            device,
            "wl_keyboard"@,
            "leave"@,
            leave_args,
            surface,
        );
    }
}

/// Which buttons a pointer holds follows from what the compositor says: the
/// third word of `button` names one, and the fourth says whether it is down.
/// Its focus, its other buttons and the other devices stay as they are.
pub proof fn lemma_buttons_follow<F>(
    s: SessionModel<F>,
    fds: Seq<Arc<F>>,
    entries: Seq<(Seq<char>, Seq<u8>)>,
    frozen: bool,
    msg: Seq<u8>,
    device: u32,
    other: u32,
    b: u32,
)
    requires
        says(
            s,
            Direction::HostToClient,
            msg,
            device,
            "wl_pointer"@,
            "button"@,
            seq![ArgumentType::Uint, ArgumentType::Uint, ArgumentType::Uint, ArgumentType::Uint],
        ),
        msg.len() == 24,
        other != device,
    ensures
        ({
            let r = relay::relay(s, fds, entries, Direction::HostToClient, frozen, msg);
            let button = wire::word_at(msg, 16);
            let down = wire::word_at(msg, 20) == 1;
            let held = r.session.grabs.pointer(device).pressed;
            &&& r.step.outcome == sent_on(frozen)
            &&& wire::word_at(r.step.bytes, 0) == device
            &&& r.step.bytes.skip(4) == msg.skip(4)
            &&& held.contains(b) <==> if b == button {
                down
            } else {
                s.grabs.pointer(device).pressed.contains(b)
            }
            &&& r.session.grabs.pointer(device).entered == s.grabs.pointer(device).entered
            &&& r.session.grabs.pointer(other) == s.grabs.pointer(other)
            &&& r.session.grabs.keyboards == s.grabs.keyboards
        }),
{
    let direction = Direction::HostToClient;
    let args = seq![
        ArgumentType::Uint,
        ArgumentType::Uint,
        ArgumentType::Uint,
        ArgumentType::Uint,
    ];
    lemma_walk_words(msg.skip(8), args, 4);
    lemma_says(s, direction, msg, device, "wl_pointer"@, "button"@, args);
    kind_laws::lemma_event_names("wl_pointer"@, "button"@);
    kind_laws::lemma_input_serial_names(direction, "wl_pointer"@, "button"@);
    assert(relay::translated(s.objects, direction, msg, Seq::empty()) == (msg, true));
    lemma_readdressed(msg, device);
    let button = wire::word_at(msg, 16);
    let state = wire::word_at(msg, 20);
    assert(wire::word_at(msg.skip(8), 8) == button);
    assert(wire::word_at(msg.skip(8), 12) == state);
    let r = relay::relay(s, fds, entries, direction, frozen, msg);
    assert(r.session.grabs == s.grabs.pointer_button(device, button, state));
    let before = s.grabs.pointer(device).pressed;
    if state == BUTTON_STATE_PRESSED {
        if !before.contains(button) {
            let held = before.push(button);
            assert(held[before.len() as int] == button);
            if before.contains(b) {
                let i = choose|i: int| 0 <= i < before.len() && before[i] == b;
                assert(held[i] == b);
            }
            if held.contains(b) && b != button {
                let i = choose|i: int| 0 <= i < held.len() && held[i] == b;
                assert(before[i] == b);
            }
        }
    } else {
        grab_laws::lemma_except(before, button, b);
    }
}

/// What the client hands over when the compositor asks for clipboard content is
/// kept under the type that was asked for, if it is one of those that are kept
/// and there is somewhere for it to go; the request itself goes on unchanged.
pub proof fn lemma_transfer_is_kept<F>(
    s: SessionModel<F>,
    fds: Seq<Arc<F>>,
    entries: Seq<(Seq<char>, Seq<u8>)>,
    frozen: bool,
    msg: Seq<u8>,
    source: u32,
)
    requires
        says(
            s,
            Direction::HostToClient,
            msg,
            source,
            "wl_data_source"@,
            "send"@,
            seq![ArgumentType::Str, ArgumentType::Fd],
        ),
        12 <= msg.len() < usize::MAX,
        12 + wire::padded(wire::word_at(msg, 8) as int) <= msg.len(),
    ensures
        ({
            let r = relay::relay(s, fds, entries, Direction::HostToClient, frozen, msg);
            let asked = wire::str_opt(msg.skip(8), 0);
            &&& r.step.outcome == sent_on(frozen)
            &&& wire::word_at(r.step.bytes, 0) == source
            &&& r.step.bytes.skip(4) == msg.skip(4)
            &&& fds.len() > 0 ==> r.step.fds == seq![fds[0]] && r.fds == fds.skip(1)
            &&& r.step.tee == if fds.len() > 0 && asked is Some && clipboard::cacheable(
                (asked->0).0,
            ) {
                Some((asked->0).0)
            } else {
                None
            }
            &&& r.session == s
        }),
{
    let direction = Direction::HostToClient;
    let args = seq![ArgumentType::Str, ArgumentType::Fd];
    reveal_with_fuel(signature::walk_prefix, 3);
    assert(wire::word_at(msg.skip(8), 0) == wire::word_at(msg, 8));
    lemma_says(s, direction, msg, source, "wl_data_source"@, "send"@, args);
    kind_laws::lemma_event_names("wl_data_source"@, "send"@);
    assert(relay::translated(s.objects, direction, msg, Seq::empty()) == (msg, true));
    lemma_readdressed(msg, source);
    let bytes = wire::with_word(msg, 0, source);
    assert(bytes.skip(8) =~= bytes.skip(4).skip(4));
    assert(msg.skip(8) =~= msg.skip(4).skip(4));
    if fds.len() > 0 {
        assert(fds.take(1) =~= seq![fds[0]]);
    }
}

/// Nothing else that goes by is kept.
pub proof fn lemma_only_transfers_are_kept<F>(
    s: SessionModel<F>,
    fds: Seq<Arc<F>>,
    entries: Seq<(Seq<char>, Seq<u8>)>,
    direction: Direction,
    frozen: bool,
    msg: Seq<u8>,
)
    requires
        relay::relay(s, fds, entries, direction, frozen, msg).step.tee is Some,
    ensures
        direction is HostToClient,
        relay_laws::addressed(s, direction, msg) matches Some(a) && a.interface.name
            == "wl_data_source"@ && a.desc.name == "send"@,
{
    if let Some(a) = relay_laws::addressed(s, direction, msg) {
        kind_laws::lemma_event_names(a.interface.name, a.desc.name);
        kind_laws::lemma_request_names(a.interface.name, a.desc.name);
    }
}

} // verus!
