//! What becomes of a message, and what it is that is passed on.
use crate::clipboard;
use crate::event_laws;
use crate::interfaces;
use crate::kind_laws;
use crate::recreation;
use crate::relay;
use crate::relay::Outcome;
use crate::relay_laws;
use crate::schema;
use crate::schema::{ArgumentType, Direction, InterfaceModel};
use crate::session::SessionModel;
use crate::shadow_table;
use crate::shadow_table::TableModel;
use crate::signature;
use crate::wire;
use crate::wire::HEADER_LEN;
use std::sync::Arc;
use vstd::prelude::*;

verus! {

/// The number under which the receiver of a message knows the object that the
/// sender calls `id`.
pub open spec fn known_there(t: TableModel, direction: Direction, id: u32) -> Option<u32> {
    match direction {
        Direction::ClientToHost => t.host_id(id),
        Direction::HostToClient => t.guest_id(id),
    }
}

/// Whether the receiver knows every object that a message refers to.
pub open spec fn all_known_there(
    t: TableModel,
    direction: Direction,
    msg: Seq<u8>,
    offsets: Seq<usize>,
) -> bool {
    forall|i: int|
        0 <= i < offsets.len() ==> known_there(
            t,
            direction,
            wire::word_at(msg, HEADER_LEN + #[trigger] offsets[i]),
        ) is Some
}

/// The message with its objects translated, and the connection with the object
/// it creates, if it creates one.
spec fn ready<F>(s: SessionModel<F>, direction: Direction, msg: Seq<u8>) -> relay::Created<F> {
    let a = relay_laws::addressed(s, direction, msg)->0;
    let m = relay::translated(s.objects, direction, msg, a.walk.object_offsets).0;
    match a.walk.new_id_offset {
        None => relay::Created { session: s, msg: m, new_guest: None },
        Some(at) => relay::created(
            s,
            direction,
            a.kind(direction),
            signature::child_interface(a.desc, a.walk.dynamic_interface_name)->0,
            m,
            HEADER_LEN + at,
            a.sender,
            relay::object_values(msg, a.walk.object_offsets),
        ),
    }
}

/// Where translation puts every word.
proof fn lemma_ready<F>(s: SessionModel<F>, direction: Direction, msg: Seq<u8>)
    requires
        HEADER_LEN <= msg.len(),
        relay_laws::addressed(s, direction, msg) is Some,
    ensures
        ({
            let a = relay_laws::addressed(s, direction, msg)->0;
            let offsets = a.walk.object_offsets;
            let c = ready(s, direction, msg);
            let ok = relay::translated(s.objects, direction, msg, offsets).1;
            &&& ok <==> all_known_there(s.objects, direction, msg, offsets)
            &&& c.msg.len() == msg.len()
            &&& a.walk.new_id_offset matches Some(at) ==> HEADER_LEN + at + 4 <= msg.len()
                && wire::word_at(
                relay::translated(s.objects, direction, msg, offsets).0,
                HEADER_LEN + at,
            ) == wire::word_at(msg, HEADER_LEN + at)
            &&& a.walk.new_id_offset matches Some(at) ==> wire::word_at(c.msg, HEADER_LEN + at)
                == match direction {
                Direction::ClientToHost => s.objects.next_host_id,
                Direction::HostToClient => s.objects.next_guest_server_id,
            }
            &&& ok ==> forall|i: int|
                0 <= i < offsets.len() ==> HEADER_LEN + #[trigger] offsets[i] + 4 <= msg.len()
                    && known_there(
                    s.objects,
                    direction,
                    wire::word_at(msg, HEADER_LEN + offsets[i]),
                ) == Some(wire::word_at(c.msg, HEADER_LEN + offsets[i]))
            &&& forall|at: int|
                apart(a, msg, at) ==> #[trigger] wire::word_at(c.msg, at) == wire::word_at(msg, at)
        }),
{
    let a = relay_laws::addressed(s, direction, msg)->0;
    let offsets = a.walk.object_offsets;
    relay_laws::lemma_walk_fits(msg, a.desc, a.walk);
    relay_laws::lemma_translation_is_pointwise(
        s.objects,
        direction,
        msg,
        offsets,
        offsets.len() as int,
    );
    let m = relay::translated(s.objects, direction, msg, offsets).0;
    let c = ready(s, direction, msg);
    if let Some(off) = a.walk.new_id_offset {
        let at = HEADER_LEN + off;
        wire::lemma_with_word(m, at, s.objects.next_host_id);
        wire::lemma_with_word(m, at, s.objects.next_guest_server_id);
        assert forall|i: int| 0 <= i < offsets.len() implies at + 4 <= HEADER_LEN
            + #[trigger] offsets[i] || HEADER_LEN + offsets[i] + 4 <= at by {
            assert(offsets[i] + 4 <= off || off + 4 <= offsets[i]);
        }
        assert(wire::word_at(m, at) == wire::word_at(msg, at));
    }
    assert forall|at: int| apart(a, msg, at) implies #[trigger] wire::word_at(c.msg, at)
        == wire::word_at(msg, at) by {
        assert(wire::word_at(m, at) == wire::word_at(msg, at));
    }
}

/// Whether the word at `at` is no id that a message has in its arguments.
pub open spec fn apart(a: relay_laws::Addressed, msg: Seq<u8>, at: int) -> bool {
    &&& 0 <= at && at + 4 <= msg.len()
    &&& forall|i: int|
        0 <= i < a.walk.object_offsets.len() ==> at + 4 <= HEADER_LEN
            + #[trigger] a.walk.object_offsets[i] || HEADER_LEN + a.walk.object_offsets[i] + 4 <= at
    &&& a.walk.new_id_offset matches Some(off) ==> at + 4 <= HEADER_LEN + off || HEADER_LEN + off
        + 4 <= at
}

/// A message that is understood is dropped for these reasons only: it refers to
/// an object that the receiver does not know; it would create an object of an
/// unknown interface; it releases a buffer of an earlier connection; it frees
/// an id that stands for nothing of the client's; it acknowledges what the
/// proxy itself had asked for; the host does not know the client's object that
/// it is sent on; or there is nobody to send it to.
pub proof fn lemma_dropped_for_a_reason<F>(
    s: SessionModel<F>,
    fds: Seq<Arc<F>>,
    entries: Seq<(Seq<char>, Seq<u8>)>,
    direction: Direction,
    frozen: bool,
    msg: Seq<u8>,
)
    requires
        HEADER_LEN <= msg.len(),
        relay_laws::addressed(s, direction, msg) is Some,
        s.objects.host_id(relay_laws::addressed(s, direction, msg)->0.sender) != Some(
            s.objects.next_host_id,
        ),
    ensures
        ({
            let a = relay_laws::addressed(s, direction, msg)->0;
            let name = a.interface.name;
            let method = a.desc.name;
            let offsets = a.walk.object_offsets;
            let known = all_known_there(s.objects, direction, msg, offsets);
            let o = relay::relay(s, fds, entries, direction, frozen, msg).step.outcome;
            &&& o is DroppedUntranslatable <==> !known
            &&& o is DroppedUnresolvableChild <==> known && a.walk.new_id_offset is Some
                && signature::child_interface(a.desc, a.walk.dynamic_interface_name) is None
            &&& o is DroppedStaleGeneration ==> direction is HostToClient && name == "wl_buffer"@
                && method == "release"@ && !s.objects.is_current(a.sender)
            &&& o is DroppedUntrackedDeleteId ==> name == "wl_display"@ && method == "delete_id"@
            &&& o is AckSwallowed ==> direction is ClientToHost && name == "xdg_surface"@ && method
                == "ack_configure"@ && s.acks.contains_key(a.sender)
            &&& o is DroppedSenderless && !(name == "wl_display"@ && method == "delete_id"@)
                ==> direction is ClientToHost && s.objects.host_id(a.sender) is None
            &&& o is DroppedFrozen ==> frozen
            &&& o is Relayed ==> !frozen
            &&& !(o is DroppedUnknown) && !(o is DroppedParseError) && !(o is ClipboardEvent)
        }),
{
    let a = relay_laws::addressed(s, direction, msg)->0;
    kind_laws::lemma_request_names(a.interface.name, a.desc.name);
    kind_laws::lemma_event_names(a.interface.name, a.desc.name);
    kind_laws::lemma_input_serial_names(direction, a.interface.name, a.desc.name);
    lemma_ready(s, direction, msg);
    let c = ready(s, direction, msg);
    let kind = a.kind(direction);
    let objects = relay::object_values(msg, a.walk.object_offsets);
    let o = relay::observed(c.session, kind, a.sender, c.msg, c.new_guest, objects, entries);
    if o.stop is None && !(kind is DeleteId) && direction is ClientToHost {
        assert(o.session.objects == c.session.objects);
        assert(s.objects.host_id(a.sender) is Some ==> c.session.objects.host_id(a.sender) is Some);
    }
}

/// A message that is not understood is dropped for what is wrong with it: its
/// sender or opcode is not known, or it is too short for its arguments.  An
/// event of the proxy's own clipboard source is kept from the client.
pub proof fn lemma_not_understood<F>(
    s: SessionModel<F>,
    fds: Seq<Arc<F>>,
    entries: Seq<(Seq<char>, Seq<u8>)>,
    direction: Direction,
    frozen: bool,
    msg: Seq<u8>,
)
    requires
        HEADER_LEN <= msg.len(),
    ensures
        ({
            let sender_id = wire::word_at(msg, 0);
            let opcode = wire::header_of(msg)->0.opcode;
            let o = relay::relay(s, fds, entries, direction, frozen, msg).step.outcome;
            let own = direction is HostToClient && s.reclaim.active_source_host_id == Some(
                sender_id,
            );
            let guest = match direction {
                Direction::ClientToHost => Some(sender_id),
                Direction::HostToClient => s.objects.guest_id(sender_id),
            };
            let interface = if guest is Some {
                s.objects.interface(guest->0)
            } else {
                None
            };
            let messages = interface->0.messages(direction);
            &&& o is ClipboardEvent <==> own
            &&& o is DroppedUnknown <==> !own && (interface is None || opcode >= messages.len())
            &&& o is DroppedParseError <==> !own && interface is Some && opcode < messages.len()
                && signature::walked(msg.skip(8), messages[opcode as int].signature) is Err
        }),
{
    if let Some(a) = relay_laws::addressed(s, direction, msg) {
        let c = ready(s, direction, msg);
    }
}

/// Nothing but ids changes on the way: what is passed on is as long as what
/// arrived, its sender, the objects it refers to and the object it creates are
/// named by the receiver's numbers, and every other word is the sender's own.
/// (`delete_id` is apart: the word that it frees is an id, too.)
pub proof fn lemma_nothing_but_ids_changes<F>(
    s: SessionModel<F>,
    fds: Seq<Arc<F>>,
    entries: Seq<(Seq<char>, Seq<u8>)>,
    direction: Direction,
    frozen: bool,
    msg: Seq<u8>,
)
    requires
        HEADER_LEN <= msg.len(),
        relay_laws::addressed(s, direction, msg) matches Some(a) && !(a.interface.name
            == "wl_display"@ && a.desc.name == "delete_id"@),
        relay_laws::is_through(
            relay::relay(s, fds, entries, direction, frozen, msg).step.outcome,
        ),
    ensures
        ({
            let a = relay_laws::addressed(s, direction, msg)->0;
            let bytes = relay::relay(s, fds, entries, direction, frozen, msg).step.bytes;
            &&& bytes.len() == msg.len()
            &&& direction is HostToClient ==> wire::word_at(bytes, 0) == a.sender
            &&& direction is ClientToHost && a.walk.new_id_offset is None ==> Some(
                wire::word_at(bytes, 0),
            ) == s.objects.host_id(wire::word_at(msg, 0))
            &&& forall|i: int|
                0 <= i < a.walk.object_offsets.len() ==> Some(
                    wire::word_at(bytes, HEADER_LEN + #[trigger] a.walk.object_offsets[i]),
                ) == known_there(
                    s.objects,
                    direction,
                    wire::word_at(msg, HEADER_LEN + a.walk.object_offsets[i]),
                )
            &&& forall|at: int|
                at >= 4 && apart(a, msg, at) ==> #[trigger] wire::word_at(bytes, at)
                    == wire::word_at(msg, at)
        }),
{
    let a = relay_laws::addressed(s, direction, msg)->0;
    kind_laws::lemma_request_names(a.interface.name, a.desc.name);
    kind_laws::lemma_event_names(a.interface.name, a.desc.name);
    kind_laws::lemma_input_serial_names(direction, a.interface.name, a.desc.name);
    lemma_ready(s, direction, msg);
    let r = relay::relay(s, fds, entries, direction, frozen, msg);
    let c = ready(s, direction, msg);
    let kind = a.kind(direction);
    let objects = relay::object_values(msg, a.walk.object_offsets);
    let o = relay::observed(c.session, kind, a.sender, c.msg, c.new_guest, objects, entries);
    assert(o.msg == c.msg);
    if direction is ClientToHost {
        assert(o.session.objects == c.session.objects);
    }
    wire::lemma_with_word(c.msg, 0, r.step.sender_id);
    assert(r.step.bytes == wire::with_word(c.msg, 0, r.step.sender_id));
}

/// Descriptors stay in order and none is lost: a message that goes through
/// takes as many from the front as its signature declares, or all there are,
/// and the rest waits for the next one.  A dropped message takes none, save the
/// pipe of a clipboard request that the proxy answers itself.
pub proof fn lemma_descriptors_stay_in_order<F>(
    s: SessionModel<F>,
    fds: Seq<Arc<F>>,
    entries: Seq<(Seq<char>, Seq<u8>)>,
    direction: Direction,
    frozen: bool,
    msg: Seq<u8>,
)
    ensures
        ({
            let r = relay::relay(s, fds, entries, direction, frozen, msg);
            &&& relay_laws::is_through(r.step.outcome) ==> ({
                let declared = relay_laws::addressed(s, direction, msg)->0.walk.fd_count;
                &&& r.step.fds + r.fds == fds
                &&& r.step.fds.len() == if declared <= fds.len() {
                    declared
                } else {
                    fds.len()
                }
            })
            &&& !relay_laws::is_through(r.step.outcome) && !(r.step.outcome is ClipboardEvent)
                ==> r.fds == fds && r.step.fds.len() == 0
        }),
{
    let r = relay::relay(s, fds, entries, direction, frozen, msg);
    if relay_laws::is_through(r.step.outcome) {
        let n = r.step.fds.len() as int;
        assert(fds.take(n) + fds.skip(n) =~= fds);
    }
}

/// A request that creates an object and goes through makes one object of the
/// client's number and the next number of the host's, of the interface that
/// the request declares or names; it is of the present connection.
pub proof fn lemma_new_object_translates<F>(
    s: SessionModel<F>,
    fds: Seq<Arc<F>>,
    entries: Seq<(Seq<char>, Seq<u8>)>,
    frozen: bool,
    msg: Seq<u8>,
)
    requires
        HEADER_LEN <= msg.len(),
        s.objects.wf(),
        s.has_room(),
        s.objects.next_host_id != 0,
        relay_laws::addressed(s, Direction::ClientToHost, msg) matches Some(a)
            && a.walk.new_id_offset is Some && !(a.interface.name == "wl_display"@ && a.desc.name
            == "delete_id"@) && wire::word_at(msg, HEADER_LEN + a.walk.new_id_offset->0) != 0,
        relay_laws::is_through(
            relay::relay(s, fds, entries, Direction::ClientToHost, frozen, msg).step.outcome,
        ),
    ensures
        ({
            let a = relay_laws::addressed(s, Direction::ClientToHost, msg)->0;
            let at = HEADER_LEN + a.walk.new_id_offset->0;
            let chosen = wire::word_at(msg, at);
            let host = s.objects.next_host_id;
            let r = relay::relay(s, fds, entries, Direction::ClientToHost, frozen, msg);
            &&& wire::word_at(r.step.bytes, at) == host
            &&& r.session.objects.host_id(chosen) == Some(host)
            &&& r.session.objects.guest_id(host) == Some(chosen)
            &&& r.session.objects.is_current(chosen)
            &&& r.session.objects.interface(chosen) == signature::child_interface(
                a.desc,
                a.walk.dynamic_interface_name,
            )
            &&& r.session.objects.next_host_id == host + 1
        }),
{
    let direction = Direction::ClientToHost;
    let a = relay_laws::addressed(s, direction, msg)->0;
    kind_laws::lemma_request_names(a.interface.name, a.desc.name);
    kind_laws::lemma_input_serial_names(direction, a.interface.name, a.desc.name);
    lemma_ready(s, direction, msg);
    let r = relay::relay(s, fds, entries, direction, frozen, msg);
    let c = ready(s, direction, msg);
    let kind = a.kind(direction);
    let objects = relay::object_values(msg, a.walk.object_offsets);
    let o = relay::observed(c.session, kind, a.sender, c.msg, c.new_guest, objects, entries);
    assert(o.session.objects == c.session.objects && o.msg == c.msg);
    let at = HEADER_LEN + a.walk.new_id_offset->0;
    let child = signature::child_interface(a.desc, a.walk.dynamic_interface_name)->0;
    wire::lemma_with_word(c.msg, 0, r.step.sender_id);
    shadow_table::lemma_mapped_translates(
        s.objects.allocate_host_ids(1),
        wire::word_at(msg, at),
        s.objects.next_host_id,
        child,
        0,
    );
}

/// An event that creates an object and goes through makes one object of the
/// host's number and the next number that the proxy has for the client, which
/// is the number that the client is told.
pub proof fn lemma_offered_object_translates<F>(
    s: SessionModel<F>,
    fds: Seq<Arc<F>>,
    entries: Seq<(Seq<char>, Seq<u8>)>,
    frozen: bool,
    msg: Seq<u8>,
)
    requires
        HEADER_LEN <= msg.len(),
        s.objects.wf(),
        s.has_room(),
        s.objects.next_guest_server_id != 0,
        relay_laws::addressed(s, Direction::HostToClient, msg) matches Some(a)
            && a.walk.new_id_offset is Some && !(a.interface.name == "wl_display"@ && a.desc.name
            == "delete_id"@) && wire::word_at(msg, HEADER_LEN + a.walk.new_id_offset->0) != 0,
        relay_laws::is_through(
            relay::relay(s, fds, entries, Direction::HostToClient, frozen, msg).step.outcome,
        ),
    ensures
        ({
            let a = relay_laws::addressed(s, Direction::HostToClient, msg)->0;
            let at = HEADER_LEN + a.walk.new_id_offset->0;
            let chosen = wire::word_at(msg, at);
            let guest = s.objects.next_guest_server_id;
            let r = relay::relay(s, fds, entries, Direction::HostToClient, frozen, msg);
            &&& wire::word_at(r.step.bytes, at) == guest
            &&& r.session.objects.guest_id(chosen) == Some(guest)
            &&& r.session.objects.host_id(guest) == Some(chosen)
            &&& r.session.objects.interface(guest) == signature::child_interface(
                a.desc,
                a.walk.dynamic_interface_name,
            )
            &&& r.session.objects.next_guest_server_id == guest + 1
            &&& r.session.graph == s.graph
        }),
{
    let direction = Direction::HostToClient;
    let a = relay_laws::addressed(s, direction, msg)->0;
    kind_laws::lemma_event_names(a.interface.name, a.desc.name);
    lemma_ready(s, direction, msg);
    let r = relay::relay(s, fds, entries, direction, frozen, msg);
    let c = ready(s, direction, msg);
    let kind = a.kind(direction);
    let objects = relay::object_values(msg, a.walk.object_offsets);
    let o = relay::observed(c.session, kind, a.sender, c.msg, c.new_guest, objects, entries);
    assert(o.msg == c.msg);
    assert(o.session.objects.pairs == c.session.objects.pairs);
    assert(o.session.objects.mapped_in == c.session.objects.mapped_in);
    let at = HEADER_LEN + a.walk.new_id_offset->0;
    let chosen = wire::word_at(msg, at);
    let child = signature::child_interface(a.desc, a.walk.dynamic_interface_name)->0;
    wire::lemma_with_word(c.msg, 0, a.sender);
    let before = s.objects.allocate_guest_server_id();
    let guest = s.objects.next_guest_server_id;
    shadow_table::lemma_mapped_translates(before, guest, chosen, child, 0);
    let mapped = before.map(guest, chosen, child);
    assert(o.session.objects.wf());
    shadow_table::lemma_translation_is_mutual(o.session.objects, guest, chosen);
}

/// An interface that has an event of this name, among no more than opcodes can
/// tell apart.
pub open spec fn has_event(interface: Option<InterfaceModel>, name: Seq<char>) -> bool {
    interface is Some && interface->0.events.len() <= 0x1_0000 && schema::opcode_named(
        interface->0.events,
        name,
    ) is Some
}

/// Whether `msg` tells the client that its number `id` is free again.
pub open spec fn frees(t: TableModel, msg: Seq<u8>, id: u32) -> bool {
    &&& wire::is_message(
        msg,
        1,
        schema::opcode_named(t.interface(1)->0.events, "delete_id"@)->0,
    )
    &&& msg.len() == 12
    &&& wire::word_at(msg, 8) == id
}

/// The message that frees an id reads back as that.
pub(crate) proof fn lemma_freeing(t: TableModel, id: u32)
    requires
        has_event(t.interface(1), "delete_id"@),
    ensures
        relay::delete_id_messages(t, id).len() == 1,
        frees(t, relay::delete_id_messages(t, id)[0], id),
{
    let opcode = schema::opcode_named(t.interface(1)->0.events, "delete_id"@)->0;
    wire::lemma_words_read(id, 0, 0, 0);
    wire::lemma_built_message_reads(1, opcode, wire::word_bytes(id));
    assert(wire::word_at(wire::word_bytes(id), 0) == id);
}

/// A client that destroys an object which the host does not know is told at
/// once that the number is free, in one message, and the object is forgotten.
pub proof fn lemma_lost_object_is_buried<F>(
    s: SessionModel<F>,
    fds: Seq<Arc<F>>,
    entries: Seq<(Seq<char>, Seq<u8>)>,
    frozen: bool,
    msg: Seq<u8>,
)
    requires
        HEADER_LEN <= msg.len(),
        s.objects.wf(),
        has_event(s.objects.interface(1), "delete_id"@),
        relay_laws::addressed(s, Direction::ClientToHost, msg) matches Some(a)
            && a.walk.new_id_offset is None && a.desc.is_destructor && a.sender != 0,
        relay::relay(
            s,
            fds,
            entries,
            Direction::ClientToHost,
            frozen,
            msg,
        ).step.outcome is DroppedSenderless,
        !(relay_laws::addressed(s, Direction::ClientToHost, msg)->0.interface.name
            == "wl_display"@),
    ensures
        ({
            let id = wire::word_at(msg, 0);
            let r = relay::relay(s, fds, entries, Direction::ClientToHost, frozen, msg);
            &&& r.step.replies.len() == 1
            &&& frees(s.objects, r.step.replies[0], id)
            &&& r.session.objects.interface(id) is None
            &&& recreation::recipe_of(r.session.graph, id) is None
            &&& r.session.objects.next_host_id == s.objects.next_host_id
        }),
{
    let direction = Direction::ClientToHost;
    let a = relay_laws::addressed(s, direction, msg)->0;
    kind_laws::lemma_request_names(a.interface.name, a.desc.name);
    kind_laws::lemma_input_serial_names(direction, a.interface.name, a.desc.name);
    lemma_ready(s, direction, msg);
    let c = ready(s, direction, msg);
    let kind = a.kind(direction);
    let objects = relay::object_values(msg, a.walk.object_offsets);
    let o = relay::observed(c.session, kind, a.sender, c.msg, c.new_guest, objects, entries);
    assert(o.session.objects == s.objects);
    lemma_freeing(s.objects, a.sender);
    shadow_table::lemma_removed_is_forgotten(s.objects, a.sender, 0);
    recreation::lemma_removed_is_not_found(o.session.graph, a.sender, a.sender);
}

/// The content that was stored last under a type is what a compositor gets that
/// asks the proxy's own clipboard source for that type, down the pipe that came
/// with the question; the client hears nothing of it.
pub proof fn lemma_stored_content_is_handed_out<F>(
    s: SessionModel<F>,
    fds: Seq<Arc<F>>,
    entries: Seq<(Seq<char>, Seq<u8>)>,
    frozen: bool,
    msg: Seq<u8>,
    mime_type: Seq<char>,
    bytes: Seq<u8>,
    end: int,
)
    requires
        HEADER_LEN <= msg.len(),
        clipboard::cache_wf(entries),
        clipboard::fits_argument(mime_type),
        s.reclaim.active_source_host_id == Some(wire::word_at(msg, 0)),
        wire::header_of(msg)->0.opcode == 1,
        wire::str_opt(msg.skip(8), 0) == Some((mime_type, end)),
        fds.len() > 0,
    ensures
        ({
            let r = relay::relay(
                s,
                fds,
                clipboard::stored(entries, mime_type, bytes),
                Direction::HostToClient,
                frozen,
                msg,
            );
            &&& r.step.outcome is ClipboardEvent
            &&& r.step.clipboard is Some
            &&& r.step.clipboard->0.bytes == bytes
            &&& r.step.clipboard->0.mime_type == mime_type
            &&& r.step.clipboard->0.fd == fds[0]
            &&& r.fds == fds.skip(1)
            &&& r.session == s
        }),
{
    clipboard::lemma_stored_is_cached(entries, mime_type, bytes, mime_type);
}

/// A clipboard source of the proxy's own that the compositor has cancelled is
/// done with, and no other event ends it.
pub proof fn lemma_cancelled_source_is_dropped<F>(
    s: SessionModel<F>,
    fds: Seq<Arc<F>>,
    entries: Seq<(Seq<char>, Seq<u8>)>,
    frozen: bool,
    msg: Seq<u8>,
)
    requires
        HEADER_LEN <= msg.len(),
        s.reclaim.active_source_host_id == Some(wire::word_at(msg, 0)),
    ensures
        ({
            let r = relay::relay(s, fds, entries, Direction::HostToClient, frozen, msg);
            &&& r.session.reclaim.active_source_host_id is None <==> wire::header_of(msg)->0.opcode
                == 2
            &&& r.session.reclaim.pending == s.reclaim.pending
            &&& r.session.objects == s.objects
            &&& r.session.graph == s.graph
        }),
{
}

/// What is said of a message beside its bytes: who sent it, in the receiver's
/// numbering where it went through and as it arrived otherwise, by which opcode,
/// on which interface, and with how many descriptors: those that went along, or
/// where there is nobody to send them to, those it was declared with.
pub proof fn lemma_step_says_what_it_was<F>(
    s: SessionModel<F>,
    fds: Seq<Arc<F>>,
    entries: Seq<(Seq<char>, Seq<u8>)>,
    direction: Direction,
    frozen: bool,
    msg: Seq<u8>,
)
    requires
        HEADER_LEN <= msg.len(),
    ensures
        ({
            let a = relay_laws::addressed(s, direction, msg);
            let r = relay::relay(s, fds, entries, direction, frozen, msg);
            &&& r.step.opcode == wire::header_of(msg)->0.opcode
            &&& relay_laws::is_through(r.step.outcome) ==> r.step.sender_id == wire::word_at(
                r.step.bytes,
                0,
            )
            &&& !relay_laws::is_through(r.step.outcome) ==> r.step.sender_id == wire::word_at(
                msg,
                0,
            ) && r.step.fd_count == 0
            &&& a is Some ==> r.step.interface == Some(a->0.interface)
            &&& r.step.outcome is Relayed ==> r.step.fd_count == r.step.fds.len()
            &&& r.step.outcome is DroppedFrozen ==> r.step.fd_count == a->0.walk.fd_count
            &&& r.step.outcome is DroppedUnknown || r.step.outcome is DroppedParseError
                || r.step.outcome is ClipboardEvent ==> r.step.bytes == msg
        }),
{
    let r = relay::relay(s, fds, entries, direction, frozen, msg);
    if relay_laws::is_through(r.step.outcome) {
        let a = relay_laws::addressed(s, direction, msg)->0;
        lemma_ready(s, direction, msg);
        let c = ready(s, direction, msg);
        let kind = a.kind(direction);
        let objects = relay::object_values(msg, a.walk.object_offsets);
        let o = relay::observed(c.session, kind, a.sender, c.msg, c.new_guest, objects, entries);
        assert(o.msg.len() == msg.len());
        wire::lemma_with_word(o.msg, 0, r.step.sender_id);
    }
}

/// The first input event behind a reconnect lends its serial to the cached
/// clipboard, whatever objects it names besides: the serial is its first word,
/// the numbers for the three new objects are spent if an offer is made, and the
/// chance is gone either way.
pub proof fn lemma_input_lends_its_serial<F>(
    s: SessionModel<F>,
    fds: Seq<Arc<F>>,
    entries: Seq<(Seq<char>, Seq<u8>)>,
    direction: Direction,
    frozen: bool,
    msg: Seq<u8>,
)
    requires
        12 <= msg.len(),
        s.has_room(),
        relay_laws::addressed(s, direction, msg) matches Some(a) && a.walk.new_id_offset is None
            && apart(a, msg, 8) && all_known_there(
            s.objects,
            direction,
            msg,
            a.walk.object_offsets,
        ),
    ensures
        ({
            let a = relay_laws::addressed(s, direction, msg)->0;
            let r = relay::relay(s, fds, entries, direction, frozen, msg);
            let spent = r.session.objects.next_host_id - s.objects.next_host_id;
            if s.reclaim.pending && direction is HostToClient && kind_laws::lends_serial(
                a.interface.name,
                a.desc.name,
            ) {
                &&& r.step.splice == clipboard::splice_plan(
                    s.objects,
                    s.reclaim.data_device_manager_global,
                    clipboard::mime_types(entries),
                    wire::word_at(msg, 8),
                )
                &&& r.step.outcome == event_laws::sent_on(frozen)
                &&& !r.session.reclaim.pending
                &&& spent == if r.step.splice is Some {
                    3int
                } else {
                    0
                }
            } else {
                &&& r.step.splice is None
                &&& r.session.reclaim == s.reclaim
                &&& spent == 0
            }
        }),
{
    let a = relay_laws::addressed(s, direction, msg)->0;
    kind_laws::lemma_event_names(a.interface.name, a.desc.name);
    kind_laws::lemma_request_names(a.interface.name, a.desc.name);
    kind_laws::lemma_input_serial_names(direction, a.interface.name, a.desc.name);
    lemma_ready(s, direction, msg);
    let c = ready(s, direction, msg);
    assert(wire::word_at(c.msg, 8) == wire::word_at(msg, 8));
    assert(wire::word_at(c.msg.skip(8), 0) == wire::word_at(c.msg, 8));
}

/// A client that asks for a frame callback on a surface which the host does not
/// know is answered at once: the callback is done, and its number is free again.
/// Nothing stays owed and nothing stays mapped for it.
pub proof fn lemma_lost_frame_is_answered<F>(
    s: SessionModel<F>,
    fds: Seq<Arc<F>>,
    entries: Seq<(Seq<char>, Seq<u8>)>,
    frozen: bool,
    msg: Seq<u8>,
    surface: u32,
)
    requires
        event_laws::says(
            s,
            Direction::ClientToHost,
            msg,
            surface,
            "wl_surface"@,
            "frame"@,
            seq![ArgumentType::NewId],
        ),
        msg.len() == 12,
        s.objects.wf(),
        s.has_room(),
        s.objects.host_id(surface) is None,
        wire::word_at(msg, 8) != 0,
        wire::word_at(msg, 8) != 1,
        wire::word_at(msg, 8) != surface,
        ({
            let desc = s.objects.interface(surface)->0.requests[wire::header_of(
                msg,
            )->0.opcode as int];
            &&& desc.child_interface is Some
            &&& !desc.is_destructor
            &&& has_event(
                Some(interfaces::described(*(desc.child_interface->0))),
                "done"@,
            )
        }),
        has_event(s.objects.interface(1), "delete_id"@),
    ensures
        ({
            let callback = wire::word_at(msg, 8);
            let desc = s.objects.interface(surface)->0.requests[wire::header_of(
                msg,
            )->0.opcode as int];
            let child = interfaces::described(*(desc.child_interface->0));
            let r = relay::relay(s, fds, entries, Direction::ClientToHost, frozen, msg);
            &&& r.step.outcome is DroppedSenderless
            &&& r.step.replies.len() == 2
            &&& wire::is_message(
                r.step.replies[0],
                callback,
                schema::opcode_named(child.events, "done"@)->0,
            )
            &&& r.step.replies[0].len() == 12
            &&& frees(s.objects, r.step.replies[1], callback)
            &&& r.session.frames == s.frames
            &&& r.session.objects.host_id(callback) is None
            &&& r.session.objects.interface(callback) is None
            &&& r.session.objects.next_host_id == s.objects.next_host_id
        }),
{
    let direction = Direction::ClientToHost;
    let sig = seq![ArgumentType::NewId];
    reveal_with_fuel(signature::walk_prefix, 2);
    event_laws::lemma_says(s, direction, msg, surface, "wl_surface"@, "frame"@, sig);
    kind_laws::lemma_request_names("wl_surface"@, "frame"@);
    assert(relay::translated(s.objects, direction, msg, Seq::empty()) == (msg, true));
    let callback = wire::word_at(msg, 8);
    let desc = s.objects.interface(surface)->0.requests[wire::header_of(msg)->0.opcode as int];
    let child = interfaces::described(*(desc.child_interface->0));
    let host = s.objects.next_host_id;
    let mapped = s.objects.allocate_host_ids(1).map(callback, host, child);
    assert(mapped.interface(callback) == Some(child));
    assert(mapped.interface(1) == s.objects.interface(1));
    assert(mapped.host_id(surface) is None);
    let opcode = schema::opcode_named(child.events, "done"@)->0;
    wire::lemma_words_read(0, 0, 0, 0);
    wire::lemma_built_message_reads(callback, opcode, wire::word_bytes(0));
    lemma_freeing(mapped, callback);
}

/// The name of an interface that nothing is known of is noted for the number
/// that the client chose, and nothing else changes.
pub proof fn lemma_unknown_interface_is_noted<F>(
    s: SessionModel<F>,
    fds: Seq<Arc<F>>,
    entries: Seq<(Seq<char>, Seq<u8>)>,
    frozen: bool,
    msg: Seq<u8>,
)
    requires
        HEADER_LEN <= msg.len(),
        relay::relay(
            s,
            fds,
            entries,
            Direction::ClientToHost,
            frozen,
            msg,
        ).step.outcome is DroppedUnresolvableChild,
    ensures
        ({
            let a = relay_laws::addressed(s, Direction::ClientToHost, msg)->0;
            let chosen = wire::word_at(msg, HEADER_LEN + a.walk.new_id_offset->0);
            let r = relay::relay(s, fds, entries, Direction::ClientToHost, frozen, msg);
            &&& r.session.objects.unresolvable == if a.walk.dynamic_interface_name is Some {
                s.objects.unresolvable.insert(chosen, a.walk.dynamic_interface_name->0)
            } else {
                s.objects.unresolvable
            }
            &&& r.session.objects.pairs == s.objects.pairs
            &&& r.session.objects.interfaces == s.objects.interfaces
            &&& r.session.objects.next_host_id == s.objects.next_host_id
            &&& r.session == (SessionModel { objects: r.session.objects, ..s })
        }),
{
    let a = relay_laws::addressed(s, Direction::ClientToHost, msg)->0;
    lemma_ready(s, Direction::ClientToHost, msg);
    let c = ready(s, Direction::ClientToHost, msg);
    let kind = a.kind(Direction::ClientToHost);
    let objects = relay::object_values(msg, a.walk.object_offsets);
    let o = relay::observed(c.session, kind, a.sender, c.msg, c.new_guest, objects, entries);
    assert(!(o.stop matches Some(outcome) && outcome is DroppedUnresolvableChild));
}

/// An object of an unknown interface that the host offers leaves no trace at
/// all.
pub proof fn lemma_unknown_offer_leaves_no_trace<F>(
    s: SessionModel<F>,
    fds: Seq<Arc<F>>,
    entries: Seq<(Seq<char>, Seq<u8>)>,
    frozen: bool,
    msg: Seq<u8>,
)
    ensures
        ({
            let r = relay::relay(s, fds, entries, Direction::HostToClient, frozen, msg);
            r.step.outcome is DroppedUnresolvableChild ==> r.session == s && r.fds == fds
                && r.step.replies.len() == 0
        }),
{
}

/// A recording tells outcomes apart by their names: what was passed on is
/// `RELAYED`, and every other name that is shown starts with `DROPPED_` and
/// belongs to one outcome alone.  What the proxy settles on its own account is
/// not shown.
pub proof fn lemma_recorded_names(a: Outcome, b: Outcome)
    ensures
        a.recorded_as() is None <==> a is AckSwallowed || a is DroppedSenderless || a
            is ClipboardEvent,
        a is Relayed <==> a.recorded_as() == Some("RELAYED"@),
        a is DroppedFrozen <==> a.recorded_as() == Some("DROPPED_FROZEN"@),
        a is DroppedUnknown <==> a.recorded_as() == Some("DROPPED_UNKNOWN"@),
        a is DroppedParseError <==> a.recorded_as() == Some("DROPPED_PARSE_ERROR"@),
        a is DroppedUntranslatable <==> a.recorded_as() == Some("DROPPED_UNTRANSLATABLE"@),
        a is DroppedUnresolvableChild <==> a.recorded_as() == Some("DROPPED_UNRESOLVABLE_CHILD"@),
        a is DroppedUntrackedDeleteId <==> a.recorded_as() == Some("DROPPED_UNTRACKED_DELETE_ID"@),
        a is DroppedStaleGeneration <==> a.recorded_as() == Some("DROPPED_STALE_GENERATION"@),
        a.recorded_as() is Some && a.recorded_as() == b.recorded_as() ==> a == b,
{
    reveal_strlit("RELAYED");
    reveal_strlit("DROPPED_FROZEN");
    reveal_strlit("DROPPED_UNKNOWN");
    reveal_strlit("DROPPED_PARSE_ERROR");
    reveal_strlit("DROPPED_UNTRANSLATABLE");
    reveal_strlit("DROPPED_UNRESOLVABLE_CHILD");
    reveal_strlit("DROPPED_UNTRACKED_DELETE_ID");
    reveal_strlit("DROPPED_STALE_GENERATION");
    assert("RELAYED"@.len() == 7);
    assert("DROPPED_FROZEN"@.len() == 14);
    assert("DROPPED_UNKNOWN"@.len() == 15);
    assert("DROPPED_PARSE_ERROR"@.len() == 19);
    assert("DROPPED_UNTRANSLATABLE"@.len() == 22);
    assert("DROPPED_UNRESOLVABLE_CHILD"@.len() == 26);
    assert("DROPPED_UNTRACKED_DELETE_ID"@.len() == 27);
    assert("DROPPED_STALE_GENERATION"@.len() == 24);
}

} // verus!
