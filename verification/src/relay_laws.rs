//! What the relay promises, whatever arrives.
use crate::desktop_apps::IdentityModel;
use crate::kinds;
use crate::kinds::Kind;
use crate::recreation;
use crate::relay;
use crate::relay::Outcome;
use crate::schema::{Direction, InterfaceModel, MessageModel};
use crate::session::SessionModel;
use crate::shadow_table;
use crate::shadow_table::TableModel;
use crate::signature;
use crate::signature::WalkModel;
use crate::wire;
use crate::wire::HEADER_LEN;
use std::sync::Arc;
use vstd::prelude::*;

verus! {

/// Who sent a message and what it is, where both are known.
pub struct Addressed {
    pub sender: u32,
    pub interface: InterfaceModel,
    pub desc: MessageModel,
    pub walk: WalkModel,
}

/// Sender, description and walk of a message, if the message is understood.
pub open spec fn addressed<F>(s: SessionModel<F>, direction: Direction, msg: Seq<u8>) -> Option<
    Addressed,
> {
    let header = wire::header_of(msg)->0;
    if direction is HostToClient && s.reclaim.active_source_host_id == Some(header.sender_id) {
        None
    } else {
        match relay::sender_guest(s.objects, direction, header.sender_id) {
            None => None,
            Some(sender) => match s.objects.interface(sender) {
                None => None,
                Some(interface) => match interface.message(direction, header.opcode) {
                    None => None,
                    Some(desc) => match signature::walked(
                        relay::payload_of(msg),
                        desc.signature,
                    ) {
                        Err(_) => None,
                        Ok(walk) => Some(Addressed { sender, interface, desc, walk }),
                    },
                },
            },
        }
    }
}

impl Addressed {
    /// What kind of message it is.
    pub open spec fn kind(self, direction: Direction) -> Kind {
        kinds::kind_of(direction, self.interface.name, self.desc.name)
    }
}

/// The places a walk reports are words of the message, and none overlap.
pub(crate) proof fn lemma_walk_fits(msg: Seq<u8>, desc: MessageModel, walk: WalkModel)
    requires
        msg.len() >= HEADER_LEN,
        signature::walked(relay::payload_of(msg), desc.signature) == Ok::<WalkModel, Seq<char>>(
            walk,
        ),
    ensures
        relay::offsets_fit(msg, walk.object_offsets),
        forall|i: int, j: int|
            0 <= i < j < walk.object_offsets.len() ==> #[trigger] walk.object_offsets[i] + 4
                <= #[trigger] walk.object_offsets[j],
        walk.new_id_offset matches Some(at) ==> HEADER_LEN + at + 4 <= msg.len() && forall|i: int|
            0 <= i < walk.object_offsets.len() ==> #[trigger] walk.object_offsets[i] + 4 <= at || at
                + 4 <= walk.object_offsets[i],
{
    signature::lemma_walk_in_bounds(
        relay::payload_of(msg),
        desc.signature,
        desc.signature.len() as int,
    );
}

/// Translation works on each argument alone: what was translated so far is the
/// other side's id, and every word outside the arguments is untouched.
pub proof fn lemma_translation_is_pointwise(
    objects: TableModel,
    direction: Direction,
    msg: Seq<u8>,
    offsets: Seq<usize>,
    n: int,
)
    requires
        0 <= n <= offsets.len(),
        relay::offsets_fit(msg, offsets),
        forall|i: int, j: int|
            0 <= i < j < offsets.len() ==> #[trigger] offsets[i] + 4 <= #[trigger] offsets[j],
    ensures
        ({
            let (m, ok) = relay::translated_prefix(objects, direction, msg, offsets, n);
            &&& m.len() == msg.len()
            &&& ok <==> forall|i: int|
                0 <= i < n ==> relay::translate(
                    objects,
                    direction,
                    wire::word_at(msg, HEADER_LEN + #[trigger] offsets[i]),
                ) is Some
            &&& ok ==> forall|i: int|
                0 <= i < n ==> relay::translate(
                    objects,
                    direction,
                    wire::word_at(msg, HEADER_LEN + #[trigger] offsets[i]),
                ) == Some(wire::word_at(m, HEADER_LEN + offsets[i]))
            &&& forall|at: int|
                0 <= at && at + 4 <= msg.len() && (forall|i: int|
                    0 <= i < n ==> at + 4 <= HEADER_LEN + #[trigger] offsets[i] || HEADER_LEN
                        + offsets[i] + 4 <= at) ==> #[trigger] wire::word_at(m, at)
                    == wire::word_at(msg, at)
        }),
    decreases n,
{
    if n > 0 {
        lemma_translation_is_pointwise(objects, direction, msg, offsets, n - 1);
        let (m, ok) = relay::translated_prefix(objects, direction, msg, offsets, n - 1);
        let at = HEADER_LEN + offsets[n - 1];
        assert(wire::word_at(m, at) == wire::word_at(msg, at));
        if ok {
            if let Some(id) = relay::translate(objects, direction, wire::word_at(m, at)) {
                wire::lemma_with_word(m, at, id);
                assert forall|i: int| 0 <= i < n implies relay::translate(
                    objects,
                    direction,
                    wire::word_at(msg, HEADER_LEN + #[trigger] offsets[i]),
                ) == Some(wire::word_at(wire::with_word(m, at, id), HEADER_LEN + offsets[i])) by {
                    if i < n - 1 {
                        assert(offsets[i] + 4 <= offsets[n - 1]);
                    }
                }
            }
        }
    }
}

/// A message that is not understood, or refers to an object the other side
/// does not know, changes nothing and reaches nobody.
pub proof fn lemma_refused_changes_nothing<F>(
    s: SessionModel<F>,
    fds: Seq<Arc<F>>,
    entries: Seq<(Seq<char>, Seq<u8>)>,
    direction: Direction,
    frozen: bool,
    msg: Seq<u8>,
)
    ensures
        ({
            let r = relay::relay(s, fds, entries, direction, frozen, msg);
            r.step.outcome is DroppedUnknown || r.step.outcome is DroppedParseError
                || r.step.outcome is DroppedUntranslatable ==> r.session == s && r.fds == fds
                && r.step.fds.len() == 0 && r.step.replies.len() == 0 && r.step.splice is None
                && r.step.clipboard is None
        }),
{
}

/// While there is nobody on the other side nothing is relayed, and otherwise
/// nothing is dropped for that reason.
pub proof fn lemma_frozen_relays_nothing<F>(
    s: SessionModel<F>,
    fds: Seq<Arc<F>>,
    entries: Seq<(Seq<char>, Seq<u8>)>,
    direction: Direction,
    msg: Seq<u8>,
)
    ensures
        !(relay::relay(s, fds, entries, direction, true, msg).step.outcome is Relayed),
        !(relay::relay(s, fds, entries, direction, false, msg).step.outcome is DroppedFrozen),
        relay::relay(s, fds, entries, direction, true, msg).session == relay::relay(
            s,
            fds,
            entries,
            direction,
            false,
            msg,
        ).session,
{
}

/// Whether a message ended up fully translated.
pub open spec fn is_through(outcome: Outcome) -> bool {
    outcome is Relayed || outcome is DroppedFrozen
}

/// What is relayed speaks the receiver's language: every object it refers to
/// is named by the receiver's id for it, and the header names the sender by
/// the id the step reports.  (`delete_id` is apart: the word it frees is
/// translated as an id to forget.)
pub proof fn lemma_relayed_is_translated<F>(
    s: SessionModel<F>,
    fds: Seq<Arc<F>>,
    entries: Seq<(Seq<char>, Seq<u8>)>,
    direction: Direction,
    frozen: bool,
    msg: Seq<u8>,
    i: int,
)
    requires
        HEADER_LEN <= msg.len(),
        addressed(s, direction, msg) matches Some(a) && !(a.kind(direction) is DeleteId) && 0 <= i
            < a.walk.object_offsets.len(),
    ensures
        ({
            let a = addressed(s, direction, msg)->0;
            let r = relay::relay(s, fds, entries, direction, frozen, msg);
            let at = HEADER_LEN + a.walk.object_offsets[i];
            is_through(r.step.outcome) ==> r.step.bytes.len() == msg.len() && wire::word_at(
                r.step.bytes,
                0,
            ) == r.step.sender_id && relay::translate(
                s.objects,
                direction,
                wire::word_at(msg, at),
            ) == Some(wire::word_at(r.step.bytes, at))
        }),
{
    let a = addressed(s, direction, msg)->0;
    let r = relay::relay(s, fds, entries, direction, frozen, msg);
    let offsets = a.walk.object_offsets;
    lemma_walk_fits(msg, a.desc, a.walk);
    lemma_translation_is_pointwise(s.objects, direction, msg, offsets, offsets.len() as int);
    let (m, ok) = relay::translated(s.objects, direction, msg, offsets);
    let at = HEADER_LEN + offsets[i];
    assert(HEADER_LEN + offsets[i] + 4 <= msg.len());
    if is_through(r.step.outcome) {
        assert(ok);
        let objects = relay::object_values(msg, offsets);
        let kind = a.kind(direction);
        let c = match a.walk.new_id_offset {
            None => relay::Created { session: s, msg: m, new_guest: None },
            Some(off) => relay::created(
                s,
                direction,
                kind,
                signature::child_interface(a.desc, a.walk.dynamic_interface_name)->0,
                m,
                HEADER_LEN + off,
                a.sender,
                objects,
            ),
        };
        if let Some(off) = a.walk.new_id_offset {
            assert(offsets[i] + 4 <= off || off + 4 <= offsets[i]);
            wire::lemma_with_word(m, HEADER_LEN + off, s.objects.next_host_id);
            wire::lemma_with_word(m, HEADER_LEN + off, s.objects.next_guest_server_id);
        }
        assert(c.msg.len() == msg.len() && wire::word_at(c.msg, at) == wire::word_at(m, at));
        let o = relay::observed(
            c.session,
            kind,
            a.sender,
            c.msg,
            c.new_guest,
            objects,
            entries,
        );
        assert(o.msg == c.msg);
        wire::lemma_with_word(c.msg, 0, r.step.sender_id);
    }
}

/// Whether a request is one a client may send: the id it chooses for a new
/// object is not the null object, and it creates one only where that can be.
pub open spec fn creates_properly<F>(s: SessionModel<F>, msg: Seq<u8>) -> bool {
    match addressed(s, Direction::ClientToHost, msg) {
        Some(a) => a.walk.new_id_offset matches Some(at) ==> wire::word_at(msg, HEADER_LEN + at)
            != 0 && !(a.kind(Direction::ClientToHost) is DeleteId) && !(a.kind(
            Direction::ClientToHost,
        ) is AckConfigure),
        None => true,
    }
}

/// A request is no input event and releases no buffer.
proof fn lemma_request_kind(interface: Seq<char>, method: Seq<char>)
    ensures
        ({
            let kind = kinds::kind_of(Direction::ClientToHost, interface, method);
            !kind.carries_input_serial() && !(kind is BufferRelease)
        }),
{
}

/// Observing a request leaves objects and message alone, and only an
/// acknowledgement can end there.
proof fn lemma_request_observed<F>(
    s: SessionModel<F>,
    kind: Kind,
    sender: u32,
    msg: Seq<u8>,
    new_guest: Option<u32>,
    objects: Seq<u32>,
    entries: Seq<(Seq<char>, Seq<u8>)>,
)
    requires
        !kind.carries_input_serial(),
        !(kind is BufferRelease),
        !(kind is DeleteId),
    ensures
        ({
            let o = relay::observed(s, kind, sender, msg, new_guest, objects, entries);
            &&& o.session.objects == s.objects
            &&& o.msg == msg
            &&& o.stop is Some ==> kind is AckConfigure && !is_through(o.stop->0)
        }),
{
}

/// A translated request keeps the host id of the object it creates if it goes
/// through, and gives it back otherwise.
proof fn lemma_request_delivered<F>(
    c: relay::Created<F>,
    fds: Seq<Arc<F>>,
    entries: Seq<(Seq<char>, Seq<u8>)>,
    frozen: bool,
    header: wire::MessageHeader,
    sender: u32,
    interface: InterfaceModel,
    desc: MessageModel,
    walk: WalkModel,
    objects: Seq<u32>,
)
    requires
        ({
            let kind = kinds::kind_of(Direction::ClientToHost, interface.name, desc.name);
            c.new_guest matches Some(chosen) ==> chosen != 0 && !(kind is DeleteId) && !(
            kind is AckConfigure) && c.session.objects.next_host_id > 0
                && c.session.objects.host_id(chosen) == Some(
                (c.session.objects.next_host_id - 1) as u32,
            )
        }),
    ensures
        ({
            let r = relay::relay_created(
                c,
                fds,
                entries,
                Direction::ClientToHost,
                frozen,
                header,
                sender,
                interface,
                desc,
                walk,
                objects,
            );
            let kind = kinds::kind_of(Direction::ClientToHost, interface.name, desc.name);
            let given = c.session.objects.next_host_id;
            let after = r.session.objects.next_host_id;
            &&& is_through(r.step.outcome) ==> after == given
            &&& is_through(r.step.outcome) && !(kind is DeleteId) ==> r.step.bytes
                == wire::with_word(c.msg, 0, r.step.sender_id)
            &&& !is_through(r.step.outcome) ==> after == (if c.new_guest is Some {
                given - 1
            } else {
                given as int
            })
        }),
{
    let kind = kinds::kind_of(Direction::ClientToHost, interface.name, desc.name);
    lemma_request_kind(interface.name, desc.name);
    if !(kind is DeleteId) {
        lemma_request_observed(c.session, kind, sender, c.msg, c.new_guest, objects, entries);
    }
}

/// Host ids stay gapless: a host id is spent on a request exactly if the
/// request goes through and creates an object, and then it is the next one,
/// put where the client's own choice stood.  A dropped request gives its id
/// back.
pub proof fn lemma_host_ids_stay_gapless<F>(
    s: SessionModel<F>,
    fds: Seq<Arc<F>>,
    entries: Seq<(Seq<char>, Seq<u8>)>,
    frozen: bool,
    msg: Seq<u8>,
)
    requires
        s.objects.wf(),
        s.has_room(),
        HEADER_LEN <= msg.len(),
        creates_properly(s, msg),
    ensures
        ({
            let a = addressed(s, Direction::ClientToHost, msg);
            let r = relay::relay(s, fds, entries, Direction::ClientToHost, frozen, msg);
            let before = s.objects.next_host_id;
            let after = r.session.objects.next_host_id;
            &&& !is_through(r.step.outcome) ==> after == before
            &&& is_through(r.step.outcome) ==> a is Some && match a->0.walk.new_id_offset {
                Some(at) => after == before + 1 && wire::word_at(r.step.bytes, HEADER_LEN + at)
                    == before,
                None => after == before,
            }
        }),
{
    let direction = Direction::ClientToHost;
    let r = relay::relay(s, fds, entries, direction, frozen, msg);
    if let Some(a) = addressed(s, direction, msg) {
        let offsets = a.walk.object_offsets;
        lemma_walk_fits(msg, a.desc, a.walk);
        lemma_translation_is_pointwise(s.objects, direction, msg, offsets, offsets.len() as int);
        let (m, ok) = relay::translated(s.objects, direction, msg, offsets);
        let kind = a.kind(direction);
        let header = wire::header_of(msg)->0;
        let objects = relay::object_values(msg, offsets);
        if ok {
            if let Some(off) = a.walk.new_id_offset {
                let at = HEADER_LEN + off;
                assert forall|i: int| 0 <= i < offsets.len() implies at + 4 <= HEADER_LEN
                    + #[trigger] offsets[i] || HEADER_LEN + offsets[i] + 4 <= at by {
                    assert(offsets[i] + 4 <= off || off + 4 <= offsets[i]);
                }
                assert(wire::word_at(m, at) == wire::word_at(msg, at));
                let chosen = wire::word_at(m, at);
                let host = s.objects.next_host_id;
                wire::lemma_with_word(m, at, host);
                wire::lemma_with_word(wire::with_word(m, at, host), 0, r.step.sender_id);
                if let Some(child) = signature::child_interface(
                    a.desc,
                    a.walk.dynamic_interface_name,
                ) {
                    let c = relay::created(s, direction, kind, child, m, at, a.sender, objects);
                    assert(c.session.objects.host_id(chosen) == Some(host));
                    lemma_request_delivered(
                        c,
                        fds,
                        entries,
                        frozen,
                        header,
                        a.sender,
                        a.interface,
                        a.desc,
                        a.walk,
                        objects,
                    );
                }
            } else {
                lemma_request_delivered(
                    relay::Created { session: s, msg: m, new_guest: None },
                    fds,
                    entries,
                    frozen,
                    header,
                    a.sender,
                    a.interface,
                    a.desc,
                    a.walk,
                    objects,
                );
            }
        }
    }
}

/// The cached clipboard is offered again once per reconnect: an offer uses the
/// chance up, and no message gives another.
pub proof fn lemma_one_offer_per_reconnect<F>(
    s: SessionModel<F>,
    fds: Seq<Arc<F>>,
    entries: Seq<(Seq<char>, Seq<u8>)>,
    direction: Direction,
    frozen: bool,
    msg: Seq<u8>,
)
    ensures
        ({
            let r = relay::relay(s, fds, entries, direction, frozen, msg);
            &&& r.step.splice is Some ==> s.reclaim.pending && !r.session.reclaim.pending
            &&& r.session.reclaim.pending ==> s.reclaim.pending
        }),
{
}

/// An invented configure serial is swallowed once: the acknowledgement that
/// carries it reaches nobody and uses it up, and anything else on that surface
/// is not swallowed.
pub proof fn lemma_invented_ack_is_swallowed_once<F>(
    s: SessionModel<F>,
    fds: Seq<Arc<F>>,
    entries: Seq<(Seq<char>, Seq<u8>)>,
    frozen: bool,
    msg: Seq<u8>,
)
    requires
        HEADER_LEN <= msg.len(),
        addressed(s, Direction::ClientToHost, msg) matches Some(a) && a.kind(
            Direction::ClientToHost,
        ) is AckConfigure && a.walk.new_id_offset is None && a.walk.object_offsets.len() == 0,
    ensures
        ({
            let a = addressed(s, Direction::ClientToHost, msg)->0;
            let serial = wire::word_opt(relay::payload_of(msg), 0);
            let r = relay::relay(s, fds, entries, Direction::ClientToHost, frozen, msg);
            let again = relay::relay(
                r.session,
                r.fds,
                entries,
                Direction::ClientToHost,
                frozen,
                msg,
            );
            &&& r.step.outcome is AckSwallowed <==> serial is Some && relay::at_key(
                s.acks,
                a.sender,
            ) == serial
            &&& r.step.outcome is AckSwallowed ==> r.session == (SessionModel {
                acks: s.acks.remove(a.sender),
                ..s
            })
            &&& r.step.outcome is AckSwallowed ==> !(again.step.outcome is AckSwallowed)
        }),
{
    let a = addressed(s, Direction::ClientToHost, msg)->0;
    let r = relay::relay(s, fds, entries, Direction::ClientToHost, frozen, msg);
    assert(relay::translated(s.objects, Direction::ClientToHost, msg, a.walk.object_offsets) == (
        msg,
        true,
    ));
    if r.step.outcome is AckSwallowed {
        assert(relay::translated(
            r.session.objects,
            Direction::ClientToHost,
            msg,
            a.walk.object_offsets,
        ) == (msg, true));
    }
}

/// A callback that goes through is remembered until it is answered, and one
/// whose surface the host does not know is answered on the spot and never
/// remembered.
pub proof fn lemma_callbacks_are_answered<F>(
    s: SessionModel<F>,
    fds: Seq<Arc<F>>,
    entries: Seq<(Seq<char>, Seq<u8>)>,
    frozen: bool,
    msg: Seq<u8>,
)
    requires
        s.objects.wf(),
        s.has_room(),
        HEADER_LEN <= msg.len(),
        addressed(s, Direction::ClientToHost, msg) matches Some(a) && a.kind(
            Direction::ClientToHost,
        ) is Frame && a.walk.new_id_offset is Some && !a.desc.is_destructor,
    ensures
        ({
            let a = addressed(s, Direction::ClientToHost, msg)->0;
            let callback = wire::word_at(msg, HEADER_LEN + a.walk.new_id_offset->0);
            let child = signature::child_interface(a.desc, a.walk.dynamic_interface_name);
            let r = relay::relay(s, fds, entries, Direction::ClientToHost, frozen, msg);
            &&& is_through(r.step.outcome) ==> r.session.frames == s.frames.insert(callback)
            &&& r.step.outcome is DroppedSenderless ==> r.session.frames == s.frames
                && r.step.replies == relay::frame_done_messages(
                s.objects.allocate_host_ids(1).map(callback, s.objects.next_host_id, child->0),
                callback,
            )
        }),
{
    let direction = Direction::ClientToHost;
    let a = addressed(s, direction, msg)->0;
    let offsets = a.walk.object_offsets;
    let off = a.walk.new_id_offset->0;
    let at = HEADER_LEN + off;
    lemma_walk_fits(msg, a.desc, a.walk);
    lemma_translation_is_pointwise(s.objects, direction, msg, offsets, offsets.len() as int);
    let (m, ok) = relay::translated(s.objects, direction, msg, offsets);
    assert forall|i: int| 0 <= i < offsets.len() implies at + 4 <= HEADER_LEN + #[trigger] offsets[i]
        || HEADER_LEN + offsets[i] + 4 <= at by {
        assert(offsets[i] + 4 <= off || off + 4 <= offsets[i]);
    }
    assert(wire::word_at(m, at) == wire::word_at(msg, at));
}

/// A request on an object the host never heard of leaves no phantom behind:
/// the object it would have created is unknown again on both sides, its recipe
/// is gone, and every other object translates as before.  That holds of a
/// request that also ends the life of its sender, too.
pub proof fn lemma_no_phantom_object<F>(
    s: SessionModel<F>,
    fds: Seq<Arc<F>>,
    entries: Seq<(Seq<char>, Seq<u8>)>,
    frozen: bool,
    msg: Seq<u8>,
    other: u32,
)
    requires
        s.objects.wf(),
        s.has_room(),
        s.objects.next_host_id > 0,
        s.objects.guest_id(s.objects.next_host_id) is None,
        HEADER_LEN <= msg.len(),
        creates_properly(s, msg),
        addressed(s, Direction::ClientToHost, msg) matches Some(a) && a.walk.new_id_offset is Some
            && other != wire::word_at(msg, HEADER_LEN + a.walk.new_id_offset->0) && s.objects.guest_id(other) != Some(
            wire::word_at(msg, HEADER_LEN + a.walk.new_id_offset->0),
        ),
    ensures
        ({
            let a = addressed(s, Direction::ClientToHost, msg)->0;
            let chosen = wire::word_at(msg, HEADER_LEN + a.walk.new_id_offset->0);
            let r = relay::relay(s, fds, entries, Direction::ClientToHost, frozen, msg);
            r.step.outcome is DroppedSenderless ==> {
                &&& r.session.objects.host_id(chosen) is None
                &&& r.session.objects.guest_id(s.objects.next_host_id) is None
                &&& r.session.objects.interface(chosen) is None
                &&& recreation::recipe_of(r.session.graph, chosen) is None
                &&& r.session.objects.host_id(other) == s.objects.host_id(other)
                &&& r.session.objects.guest_id(other) == s.objects.guest_id(other)
                &&& r.session.objects.next_host_id == s.objects.next_host_id
            }
        }),
{
    let direction = Direction::ClientToHost;
    let a = addressed(s, direction, msg)->0;
    let offsets = a.walk.object_offsets;
    let off = a.walk.new_id_offset->0;
    let at = HEADER_LEN + off;
    lemma_walk_fits(msg, a.desc, a.walk);
    lemma_translation_is_pointwise(s.objects, direction, msg, offsets, offsets.len() as int);
    let (m, ok) = relay::translated(s.objects, direction, msg, offsets);
    assert forall|i: int| 0 <= i < offsets.len() implies at + 4 <= HEADER_LEN + #[trigger] offsets[i]
        || HEADER_LEN + offsets[i] + 4 <= at by {
        assert(offsets[i] + 4 <= off || off + 4 <= offsets[i]);
    }
    assert(wire::word_at(m, at) == wire::word_at(msg, at));
    if ok {
        if let Some(child) = signature::child_interface(a.desc, a.walk.dynamic_interface_name) {
            let chosen = wire::word_at(msg, at);
            let host = s.objects.next_host_id;
            let kind = a.kind(direction);
            let objects = relay::object_values(msg, offsets);
            let c = relay::created(s, direction, kind, child, m, at, a.sender, objects);
            let o = relay::observed(
                c.session,
                kind,
                a.sender,
                c.msg,
                c.new_guest,
                objects,
                entries,
            );
            lemma_request_kind(a.interface.name, a.desc.name);
            lemma_request_observed(
                c.session,
                kind,
                a.sender,
                c.msg,
                c.new_guest,
                objects,
                entries,
            );
            shadow_table::lemma_rollback_leaves_no_trace(s.objects, chosen, child, other);
            let mapped = c.session.objects;
            if mapped.host_id(a.sender) is None {
                let s1 = relay::after_senderless(o.session, a.desc.is_destructor, a.sender, None);
                recreation::lemma_removed_is_not_found(s1.graph, chosen, chosen);
                let back = mapped.unallocate_host_id(host).remove_guest(chosen);
                if a.desc.is_destructor {
                    let after = relay::after_senderless(
                        o.session,
                        true,
                        a.sender,
                        Some(chosen),
                    ).objects;
                    assert(s1.objects == mapped.remove_guest(a.sender));
                    assert(s1.objects.host_id(chosen) == Some(host));
                    assert(after =~= back.remove_guest(a.sender));
                    assert(back.host_id(a.sender) is None);
                    lemma_untranslated_is_not_missed(back, a.sender, other);
                    lemma_untranslated_is_not_missed(back, a.sender, host);
                    assert(after.host_id(chosen) is None);
                }
            }
        }
    }
}

/// Forgetting an object that does not translate changes no translation.
proof fn lemma_untranslated_is_not_missed(t: TableModel, guest: u32, other: u32)
    requires
        t.wf(),
        t.host_id(guest) is None,
    ensures
        t.remove_guest(guest).host_id(other) == t.host_id(other),
        t.remove_guest(guest).guest_id(other) == t.guest_id(other),
{
    shadow_table::lemma_removed_is_forgotten(t, guest, other);
    if other != 0 {
        shadow_table::lemma_translation_is_mutual(t, guest, other);
    }
}

/// A corrected message is still the client's own request: the same sender asks
/// for the same thing, and the id it now sets is the replacement.
pub proof fn lemma_correction_changes_the_id_alone<F>(
    s: SessionModel<F>,
    identity: IdentityModel,
    direction: Direction,
    msg: Seq<u8>,
)
    requires
        HEADER_LEN <= msg.len(),
    ensures
        ({
            let header = wire::header_of(msg)->0;
            let new = relay::corrected(s, identity, direction, msg);
            new == msg || {
                &&& direction is ClientToHost
                &&& wire::header_of(new) matches Some(h) && h.sender_id == header.sender_id
                    && h.opcode == header.opcode && h.length == new.len()
                &&& wire::str_opt(relay::payload_of(msg), 0) matches Some((app_id, _))
                    && wire::str_opt(relay::payload_of(new), 0) matches Some((id, _))
                    && identity.index.replacement(app_id, identity.binary_name) == Some(id)
            }
        }),
{
    let header = wire::header_of(msg)->0;
    let new = relay::corrected(s, identity, direction, msg);
    if new != msg {
        let (app_id, _) = wire::str_opt(relay::payload_of(msg), 0)->0;
        let id = identity.index.replacement(app_id, identity.binary_name)->0;
        let none = Seq::<u8>::empty();
        wire::lemma_str_bytes_len(id);
        wire::lemma_message_len(header.sender_id, header.opcode, wire::str_bytes(id));
        wire::lemma_built_message_splits_off(
            header.sender_id,
            header.opcode,
            wire::str_bytes(id),
            none,
        );
        assert(new + none =~= new);
        wire::lemma_str_appended(none, id, none);
        assert(none + wire::str_bytes(id) + none =~= wire::str_bytes(id));
    }
}

/// A freed id that is not tracked is not reported to the client, which may
/// well use that number for something else; one that is tracked is forgotten
/// and reported under the client's own number.
pub proof fn lemma_freed_ids<F>(
    s: SessionModel<F>,
    fds: Seq<Arc<F>>,
    entries: Seq<(Seq<char>, Seq<u8>)>,
    frozen: bool,
    msg: Seq<u8>,
    freed: u32,
)
    requires
        HEADER_LEN <= msg.len(),
        wire::word_opt(relay::payload_of(msg), 0) == Some(freed),
        addressed(s, Direction::HostToClient, msg) matches Some(a) && a.kind(
            Direction::HostToClient,
        ) is DeleteId && a.walk.new_id_offset is None && a.walk.object_offsets.len() == 0,
    ensures
        ({
            let r = relay::relay(s, fds, entries, Direction::HostToClient, frozen, msg);
            match s.objects.guest_id(freed) {
                None => r.step.outcome is DroppedUntrackedDeleteId && r.session == s,
                Some(guest) => is_through(r.step.outcome) && r.session.objects
                    == s.objects.remove_guest(guest) && r.session.graph
                    == crate::recreation::without(s.graph, guest) && wire::word_at(
                    r.step.bytes,
                    HEADER_LEN as int,
                ) == guest,
            }
        }),
{
    let a = addressed(s, Direction::HostToClient, msg)->0;
    assert(relay::translated(s.objects, Direction::HostToClient, msg, a.walk.object_offsets) == (
        msg,
        true,
    ));
    if let Some(guest) = s.objects.guest_id(freed) {
        wire::lemma_with_word(msg, HEADER_LEN as int, guest);
        wire::lemma_with_word(wire::with_word(msg, HEADER_LEN as int, guest), 0, a.sender);
    }
}

} // verus!
