//! Replaying repeats the client's own requests.
use crate::arguments;
use crate::arguments::ValueModel;
use crate::event_laws;
use crate::interfaces;
use crate::kind_laws;
use crate::kinds;
use crate::recovery;
use crate::recovery::{FetchModel, NextModel, Staged};
use crate::recreation;
use crate::recreation::Recipe;
use crate::relay;
use crate::relay_laws;
use crate::schema;
use crate::schema::{ArgumentType, Direction, MessageModel};
use crate::session::SessionModel;
use crate::shadow_table::TableModel;
use crate::signature;
use crate::signature::WalkModel;
use crate::wire;
use crate::wire::HEADER_LEN;
use std::sync::Arc;
use vstd::prelude::*;

verus! {

/// Whether `msg` is one whole request `method` on the client's object `parent`
/// of `interface`, declared with this signature and with what it creates; no
/// earlier request of that interface has the same name.
pub open spec fn requests<F>(
    s: SessionModel<F>,
    msg: Seq<u8>,
    parent: u32,
    interface: Seq<char>,
    method: Seq<char>,
    signature: Seq<ArgumentType>,
) -> bool {
    &&& event_laws::says(s, Direction::ClientToHost, msg, parent, interface, method, signature)
    &&& wire::header_of(msg)->0.length == msg.len()
    &&& schema::opcode_named(s.objects.interface(parent)->0.requests, method) == Some(
        wire::header_of(msg)->0.opcode,
    )
    &&& s.objects.interface(parent)->0.requests.len() <= 0x1_0000
    &&& desc_of(s.objects, parent, msg).child_interface is Some
}

/// How the request is declared.
pub open spec fn desc_of(t: TableModel, parent: u32, msg: Seq<u8>) -> MessageModel {
    t.interface(parent)->0.requests[wire::header_of(msg)->0.opcode as int]
}

/// Whether `parent` is alive in `later`, as the object of the interface that it
/// is in `earlier`.
pub open spec fn lives_on(earlier: TableModel, later: TableModel, parent: u32) -> bool {
    later.interface(parent) == earlier.interface(parent) && later.host_id(parent) is Some
}

/// The client's request as it is put to the compositor behind `t`: its sender
/// is the compositor's number for it, the object to be created gets the next
/// number, and everything else is as the client sent it.
pub open spec fn put_again(t: TableModel, parent: u32, msg: Seq<u8>) -> Seq<u8> {
    wire::with_word(wire::with_word(msg, 8, t.next_host_id), 0, t.host_id(parent)->0)
}

/// Whether what is staged is `msg` once more: one request, those bytes and
/// descriptors, and then an object of the same interface as before.
pub open spec fn asks_again<F>(
    staged: Staged<F>,
    t: TableModel,
    parent: u32,
    msg: Seq<u8>,
    fds: Seq<Arc<F>>,
) -> bool {
    &&& staged.stage.requests.len() == 1
    &&& staged.stage.requests[0].bytes == put_again(t, parent, msg)
    &&& staged.stage.requests[0].fds == fds
    &&& staged.stage.next == (NextModel::Adopt {
        host_id: t.next_host_id,
        interface: interfaces::described(*(desc_of(t, parent, msg).child_interface->0)),
    })
    &&& staged.objects == t.allocate_host_ids(1)
}

/// A word read as a signed number is the same word again.
pub(crate) proof fn lemma_signed_word(w: u32)
    ensures
        (w as i32) as u32 == w,
{
    assert((w as i32) as u32 == w) by (bit_vector);
}

/// A message built from the parts of another is that message with the parts
/// that differ written over.
pub(crate) proof fn lemma_same_message(msg: Seq<u8>, sender: u32, opcode: u16, payload: Seq<u8>)
    requires
        HEADER_LEN <= msg.len(),
        wire::header_of(msg)->0.opcode == opcode,
        wire::header_of(msg)->0.length == msg.len(),
        payload == msg.skip(8),
    ensures
        wire::message_bytes(sender, opcode, payload) == wire::with_word(msg, 0, sender),
{
    reveal(wire::message_bytes);
    let w = wire::word_at(msg, 4);
    let n = msg.len() as int;
    assert(w / 0x1_0000 < 0x1_0000);
    assert(w == n * 0x1_0000 + opcode);
    assert(n % 0x1_0000 == n);
    wire::lemma_bytes_round_trip(msg, 4);
    wire::lemma_word_round_trip(sender);
    assert(wire::message_bytes(sender, opcode, payload) == wire::word_bytes(sender)
        + wire::word_bytes(w) + payload);
    assert(wire::message_bytes(sender, opcode, payload) =~= wire::with_word(msg, 0, sender));
}

/// A request whose arguments behind the new id are those of `msg` is `msg`
/// once more.
proof fn lemma_asked_again<F>(
    t: TableModel,
    parent: u32,
    name: Seq<char>,
    rest: Seq<ValueModel<F>>,
    msg: Seq<u8>,
)
    requires
        12 <= msg.len(),
        t.interface(parent) is Some,
        t.host_id(parent) is Some,
        schema::opcode_named(t.interface(parent)->0.requests, name) == Some(
            wire::header_of(msg)->0.opcode,
        ),
        wire::header_of(msg)->0.length == msg.len(),
        desc_of(t, parent, msg).child_interface is Some,
        arguments::encoded(
            desc_of(t, parent, msg).signature,
            seq![ValueModel::NewId(t.next_host_id)] + rest,
        ) == Ok::<Seq<u8>, arguments::EncodeError>(
            wire::word_bytes(t.next_host_id) + msg.skip(12),
        ),
    ensures
        asks_again(
            recovery::staged_request(t, parent, name, rest),
            t,
            parent,
            msg,
            arguments::fds_of(seq![ValueModel::NewId(t.next_host_id)] + rest),
        ),
{
    let host = t.next_host_id;
    let opcode = wire::header_of(msg)->0.opcode;
    let m = wire::with_word(msg, 8, host);
    wire::lemma_with_word(msg, 8, host);
    wire::lemma_word_round_trip(host);
    assert(wire::word_at(m, 4) == wire::word_at(msg, 4));
    assert(m.skip(8) =~= wire::word_bytes(host) + msg.skip(12));
    lemma_same_message(m, t.host_id(parent)->0, opcode, m.skip(8));
}

/// What is recorded of a request that creates an object, where it goes through:
/// the recipe stands last, under the client's number.
#[verifier::rlimit(40)]
pub(crate) proof fn lemma_recorded<F>(
    s: SessionModel<F>,
    fds: Seq<Arc<F>>,
    entries: Seq<(Seq<char>, Seq<u8>)>,
    frozen: bool,
    msg: Seq<u8>,
    parent: u32,
    interface: Seq<char>,
    method: Seq<char>,
    signature: Seq<ArgumentType>,
    walk: WalkModel,
)
    requires
        requests(s, msg, parent, interface, method, signature),
        signature::walked(msg.skip(8), signature) == Ok::<WalkModel, Seq<char>>(walk),
        walk.new_id_offset == Some(0usize),
        walk.object_offsets.len() == 0 || walk.object_offsets == seq![4usize],
        12 <= msg.len(),
        walk.object_offsets.len() > 0 ==> 16 <= msg.len(),
        relay_laws::is_through(
            relay::relay(s, fds, entries, Direction::ClientToHost, frozen, msg).step.outcome,
        ),
        ({
            let k = kinds::kind_of(Direction::ClientToHost, interface, method);
            !(k is DeleteId) && !(k is PoolResize) && !(k is SetTitle) && !(k is SetAppId) && !(
            k is SetDestination)
        }),
    ensures
        ({
            let kind = kinds::kind_of(Direction::ClientToHost, interface, method);
            let chosen = wire::word_at(msg, 8);
            let child = interfaces::described(*(desc_of(s.objects, parent, msg).child_interface->0));
            let objects = if walk.object_offsets.len() > 0 {
                seq![wire::word_at(msg, 12)]
            } else {
                seq![]
            };
            let r = relay::relay(s, fds, entries, Direction::ClientToHost, frozen, msg);
            let recipe = relay::recipe_from(
                kind,
                child,
                relay::translated(
                    s.objects,
                    Direction::ClientToHost,
                    msg,
                    walk.object_offsets,
                ).0,
                8,
                parent,
                objects,
                relay::at_key(s.planes, parent),
            );
            let taken = if walk.fd_count <= fds.len() {
                walk.fd_count
            } else {
                fds.len()
            };
            &&& recipe is Some ==> recreation::recipe_of(r.session.graph, chosen) == recipe
            &&& kind is CreatePool && taken > 0 && msg.len() >= 16 && walk.object_offsets.len() == 0
                ==> recreation::recipe_of(r.session.graph, chosen) == Some(
                Recipe::ShmPool {
                    wl_shm_guest_id: parent,
                    fd: fds.take(taken as int).last(),
                    size: wire::word_at(msg, 12) as i32,
                },
            )
            &&& kind is CreateParams ==> r.session.planes == s.planes.insert(
                chosen,
                (parent, Seq::empty()),
            )
        }),
{
    let direction = Direction::ClientToHost;
    let kind = kinds::kind_of(direction, interface, method);
    kind_laws::lemma_request_names(interface, method);
    kind_laws::lemma_input_serial_names(direction, interface, method);
    event_laws::lemma_says(s, direction, msg, parent, interface, method, signature);
    let offsets = walk.object_offsets;
    reveal_with_fuel(relay::translated_prefix, 2);
    let m = relay::translated(s.objects, direction, msg, offsets).0;
    let chosen = wire::word_at(msg, 8);
    if offsets.len() > 0 {
        wire::lemma_with_word(msg, 12, s.objects.host_id(wire::word_at(msg, 12))->0);
    }
    assert(m.len() == msg.len() && wire::word_at(m, 8) == chosen);
    let objects = relay::object_values(msg, offsets);
    if offsets.len() > 0 {
        assert(objects =~= seq![wire::word_at(msg, 12)]);
    } else {
        assert(objects =~= seq![]);
    }
    let child = interfaces::described(*(desc_of(s.objects, parent, msg).child_interface->0));
    let recipe = relay::recipe_from(
        kind,
        child,
        m,
        8,
        parent,
        objects,
        relay::at_key(s.planes, parent),
    );
    let r = relay::relay(s, fds, entries, direction, frozen, msg);
    if recipe is Some {
        recreation::lemma_recorded_is_found(s.graph, chosen, recipe->0, chosen);
    }
    let host = s.objects.next_host_id;
    let c = wire::with_word(m, 8, host);
    wire::lemma_with_word(m, 8, host);
    wire::lemma_with_word(c, 0, r.step.sender_id);
    if kind is CreatePool && msg.len() >= 16 {
        let bytes = wire::with_word(c, 0, r.step.sender_id);
        if offsets.len() == 0 {
            assert(wire::word_at(bytes.skip(8), 4) == wire::word_at(msg, 12));
        }
        let taken = if walk.fd_count <= fds.len() {
            walk.fd_count
        } else {
            fds.len()
        };
        if taken > 0 && offsets.len() == 0 {
            recreation::lemma_recorded_is_found(
                s.graph,
                chosen,
                Recipe::ShmPool {
                    wl_shm_guest_id: parent,
                    fd: fds.take(taken as int).last(),
                    size: wire::word_at(msg, 12) as i32,
                },
                chosen,
            );
        }
    }
}

/// A new id and plain words behind it: that is all that a walk finds.
pub(crate) proof fn lemma_walk_new_id(payload: Seq<u8>, signature: Seq<ArgumentType>, n: int)
    requires
        1 <= n <= signature.len() < 16,
        signature[0] is NewId,
        forall|i: int|
            1 <= i < signature.len() ==> (#[trigger] signature[i] is Int || signature[i] is Uint),
        payload.len() >= 4 * n,
    ensures
        signature::walk_prefix(payload, signature, n) == Ok::<signature::WalkState, Seq<char>>(
            (signature::WalkState {
                offset: 4 * n,
                found: WalkModel { new_id_offset: Some(0usize), ..event_laws::no_ids() },
            }),
        ),
    decreases n,
{
    reveal_with_fuel(signature::walk_prefix, 2);
    if n > 1 {
        lemma_walk_new_id(payload, signature, n - 1);
    }
}

/// A new id and an object behind it.
proof fn lemma_walk_new_id_and_object(payload: Seq<u8>)
    requires
        payload.len() == 8,
    ensures
        signature::walked(
            payload,
            seq![ArgumentType::NewId, ArgumentType::Object],
        ) == Ok::<WalkModel, Seq<char>>(
            (WalkModel {
                new_id_offset: Some(0usize),
                object_offsets: seq![4usize],
                ..event_laws::no_ids()
            }),
        ),
{
    reveal_with_fuel(signature::walk_prefix, 3);
    assert(Seq::<usize>::empty().push(4usize) =~= seq![4usize]);
}

/// A new id and the words of a message that stand behind it.
pub(crate) open spec fn id_and_words(host: u32, msg: Seq<u8>, n: int) -> Seq<u8> {
    wire::word_bytes(host) + msg.subrange(12, 12 + 4 * n)
}

/// Appending the next word of a message.
pub(crate) proof fn lemma_next_word(host: u32, msg: Seq<u8>, n: int)
    requires
        0 <= n,
        16 + 4 * n <= msg.len(),
    ensures
        id_and_words(host, msg, n) + wire::word_bytes(wire::word_at(msg, 12 + 4 * n))
            == id_and_words(host, msg, n + 1),
{
    wire::lemma_bytes_round_trip(msg, 12 + 4 * n);
    assert(id_and_words(host, msg, n) + wire::word_bytes(wire::word_at(msg, 12 + 4 * n))
        =~= id_and_words(host, msg, n + 1));
}

/// The arguments of a buffer, as they stand in a message behind the new id.
spec fn buffer_values<F>(msg: Seq<u8>) -> Seq<ValueModel<F>> {
    seq![
        ValueModel::Int(wire::word_at(msg, 12) as i32),
        ValueModel::Int(wire::word_at(msg, 16) as i32),
        ValueModel::Int(wire::word_at(msg, 20) as i32),
        ValueModel::Int(wire::word_at(msg, 24) as i32),
        ValueModel::Uint(wire::word_at(msg, 28)),
    ]
}

/// They encode to the bytes they were read from.
proof fn lemma_buffer_values<F>(host: u32, msg: Seq<u8>, signature: Seq<ArgumentType>)
    requires
        msg.len() == 32,
        signature == seq![
            ArgumentType::NewId,
            ArgumentType::Int,
            ArgumentType::Int,
            ArgumentType::Int,
            ArgumentType::Int,
            ArgumentType::Uint,
        ],
    ensures
        arguments::encoded(
            signature,
            seq![ValueModel::<F>::NewId(host)] + buffer_values(msg),
        ) == Ok::<Seq<u8>, arguments::EncodeError>(wire::word_bytes(host) + msg.skip(12)),
        arguments::fds_of(seq![ValueModel::<F>::NewId(host)] + buffer_values(msg)).len() == 0,
{
    let values = seq![ValueModel::<F>::NewId(host)] + buffer_values(msg);
    lemma_signed_word(wire::word_at(msg, 12));
    lemma_signed_word(wire::word_at(msg, 16));
    lemma_signed_word(wire::word_at(msg, 20));
    lemma_signed_word(wire::word_at(msg, 24));
    lemma_next_word(host, msg, 0);
    lemma_next_word(host, msg, 1);
    lemma_next_word(host, msg, 2);
    lemma_next_word(host, msg, 3);
    lemma_next_word(host, msg, 4);
    assert(Seq::<u8>::empty() + wire::word_bytes(host) =~= id_and_words(host, msg, 0));
    assert(id_and_words(host, msg, 5) =~= wire::word_bytes(host) + msg.skip(12));
    assert(arguments::encoded_prefix(signature, values, 0) == Ok::<
        Seq<u8>,
        arguments::EncodeError,
    >(Seq::empty()));
    assert(arguments::encoded_prefix(signature, values, 1) == Ok::<
        Seq<u8>,
        arguments::EncodeError,
    >(id_and_words(host, msg, 0)));
    assert(arguments::encoded_prefix(signature, values, 2) == Ok::<
        Seq<u8>,
        arguments::EncodeError,
    >(id_and_words(host, msg, 1)));
    assert(arguments::encoded_prefix(signature, values, 3) == Ok::<
        Seq<u8>,
        arguments::EncodeError,
    >(id_and_words(host, msg, 2)));
    assert(arguments::encoded_prefix(signature, values, 4) == Ok::<
        Seq<u8>,
        arguments::EncodeError,
    >(id_and_words(host, msg, 3)));
    assert(arguments::encoded_prefix(signature, values, 5) == Ok::<
        Seq<u8>,
        arguments::EncodeError,
    >(id_and_words(host, msg, 4)));
    reveal_with_fuel(arguments::fds_prefix, 7);
}

/// Objects that a request creates without further arguments are asked for again
/// by the same request: a surface, a toplevel, and each of a seat's devices.
#[verifier::rlimit(40)]
pub proof fn lemma_plain_object_is_asked_for_again<F>(
    s: SessionModel<F>,
    fds: Seq<Arc<F>>,
    entries: Seq<(Seq<char>, Seq<u8>)>,
    frozen: bool,
    msg: Seq<u8>,
    parent: u32,
    interface: Seq<char>,
    method: Seq<char>,
    t: TableModel,
    fetch: FetchModel,
)
    requires
        ({
            ||| interface == "wl_compositor"@ && method == "create_surface"@
            ||| interface == "xdg_surface"@ && method == "get_toplevel"@
            ||| interface == "wl_seat"@ && method == "get_pointer"@
            ||| interface == "wl_seat"@ && method == "get_keyboard"@
            ||| interface == "wl_seat"@ && method == "get_touch"@
        }),
        requests(s, msg, parent, interface, method, seq![ArgumentType::NewId]),
        msg.len() == 12,
        relay_laws::is_through(
            relay::relay(s, fds, entries, Direction::ClientToHost, frozen, msg).step.outcome,
        ),
        lives_on(s.objects, t, parent),
    ensures
        ({
            let chosen = wire::word_at(msg, 8);
            let r = relay::relay(s, fds, entries, Direction::ClientToHost, frozen, msg);
            &&& recreation::recipe_of(r.session.graph, chosen) is Some
            &&& asks_again(
                recovery::staged(
                    t,
                    fetch,
                    recreation::recipe_of(r.session.graph, chosen)->0,
                ),
                t,
                parent,
                msg,
                seq![],
            )
        }),
{
    let sig = seq![ArgumentType::NewId];
    reveal_with_fuel(signature::walk_prefix, 2);
    let walk = WalkModel { new_id_offset: Some(0usize), ..event_laws::no_ids() };
    assert(signature::walked(msg.skip(8), sig) == Ok::<WalkModel, Seq<char>>(walk));
    kind_laws::lemma_request_names(interface, method);
    lemma_recorded(s, fds, entries, frozen, msg, parent, interface, method, sig, walk);
    let host = t.next_host_id;
    let values = seq![ValueModel::<F>::NewId(host)] + Seq::empty();
    reveal_with_fuel(arguments::encoded_prefix, 2);
    reveal_with_fuel(arguments::fds_prefix, 2);
    assert(Seq::<u8>::empty() + wire::word_bytes(host) =~= wire::word_bytes(host) + msg.skip(12));
    assert(arguments::fds_of(values) =~= seq![]);
    lemma_asked_again::<F>(t, parent, method, Seq::empty(), msg);
}

/// Objects that belong to a surface are asked for again by the same request, on
/// the compositor's new number for the same surface: an `xdg_surface`, a
/// viewport, and a fractional scale object.
#[verifier::rlimit(40)]
pub proof fn lemma_surface_object_is_asked_for_again<F>(
    s: SessionModel<F>,
    fds: Seq<Arc<F>>,
    entries: Seq<(Seq<char>, Seq<u8>)>,
    frozen: bool,
    msg: Seq<u8>,
    parent: u32,
    interface: Seq<char>,
    method: Seq<char>,
    t: TableModel,
    fetch: FetchModel,
    surface_host: u32,
)
    requires
        ({
            ||| interface == "xdg_wm_base"@ && method == "get_xdg_surface"@
            ||| interface == "wp_viewporter"@ && method == "get_viewport"@
            ||| interface == "wp_fractional_scale_manager_v1"@ && method == "get_fractional_scale"@
        }),
        requests(
            s,
            msg,
            parent,
            interface,
            method,
            seq![ArgumentType::NewId, ArgumentType::Object],
        ),
        msg.len() == 16,
        relay_laws::is_through(
            relay::relay(s, fds, entries, Direction::ClientToHost, frozen, msg).step.outcome,
        ),
        lives_on(s.objects, t, parent),
        t.host_id(wire::word_at(msg, 12)) == Some(surface_host),
    ensures
        ({
            let chosen = wire::word_at(msg, 8);
            let r = relay::relay(s, fds, entries, Direction::ClientToHost, frozen, msg);
            &&& recreation::recipe_of(r.session.graph, chosen) is Some
            &&& asks_again(
                recovery::staged(
                    t,
                    fetch,
                    recreation::recipe_of(r.session.graph, chosen)->0,
                ),
                t,
                parent,
                wire::with_word(msg, 12, surface_host),
                seq![],
            )
        }),
{
    let sig = seq![ArgumentType::NewId, ArgumentType::Object];
    lemma_walk_new_id_and_object(msg.skip(8));
    let walk = WalkModel {
        new_id_offset: Some(0usize),
        object_offsets: seq![4usize],
        ..event_laws::no_ids()
    };
    assert(signature::walked(msg.skip(8), sig) == Ok::<WalkModel, Seq<char>>(walk));
    kind_laws::lemma_request_names(interface, method);
    lemma_recorded(s, fds, entries, frozen, msg, parent, interface, method, sig, walk);
    let host = t.next_host_id;
    let m = wire::with_word(msg, 12, surface_host);
    wire::lemma_with_word(msg, 12, surface_host);
    assert(wire::word_at(m, 4) == wire::word_at(msg, 4));
    let rest = seq![ValueModel::<F>::Object(surface_host)];
    let values = seq![ValueModel::<F>::NewId(host)] + rest;
    reveal_with_fuel(arguments::encoded_prefix, 3);
    reveal_with_fuel(arguments::fds_prefix, 3);
    wire::lemma_word_round_trip(surface_host);
    assert(m.skip(12) =~= wire::word_bytes(surface_host));
    assert(Seq::<u8>::empty() + wire::word_bytes(host) + wire::word_bytes(surface_host)
        =~= wire::word_bytes(host) + m.skip(12));
    assert(arguments::fds_of(values) =~= seq![]);
    lemma_asked_again::<F>(t, parent, method, rest, m);
}

/// A shared memory pool is asked for again by the same request, with the
/// descriptor that came with it.
#[verifier::rlimit(40)]
pub proof fn lemma_pool_is_asked_for_again<F>(
    s: SessionModel<F>,
    fds: Seq<Arc<F>>,
    entries: Seq<(Seq<char>, Seq<u8>)>,
    frozen: bool,
    msg: Seq<u8>,
    shm: u32,
    t: TableModel,
    fetch: FetchModel,
)
    requires
        requests(
            s,
            msg,
            shm,
            "wl_shm"@,
            "create_pool"@,
            seq![ArgumentType::NewId, ArgumentType::Fd, ArgumentType::Int],
        ),
        msg.len() == 16,
        fds.len() > 0,
        relay_laws::is_through(
            relay::relay(s, fds, entries, Direction::ClientToHost, frozen, msg).step.outcome,
        ),
        lives_on(s.objects, t, shm),
    ensures
        ({
            let chosen = wire::word_at(msg, 8);
            let r = relay::relay(s, fds, entries, Direction::ClientToHost, frozen, msg);
            &&& recreation::recipe_of(r.session.graph, chosen) is Some
            &&& asks_again(
                recovery::staged(
                    t,
                    fetch,
                    recreation::recipe_of(r.session.graph, chosen)->0,
                ),
                t,
                shm,
                msg,
                seq![fds[0]],
            )
        }),
{
    let sig = seq![ArgumentType::NewId, ArgumentType::Fd, ArgumentType::Int];
    reveal_with_fuel(signature::walk_prefix, 4);
    let walk = WalkModel { new_id_offset: Some(0usize), fd_count: 1, ..event_laws::no_ids() };
    assert(signature::walked(msg.skip(8), sig) == Ok::<WalkModel, Seq<char>>(walk));
    kind_laws::lemma_request_names("wl_shm"@, "create_pool"@);
    lemma_recorded(
        s,
        fds,
        entries,
        frozen,
        msg,
        shm,
        "wl_shm"@,
        "create_pool"@,
        sig,
        walk,
    );
    assert(fds.take(1).last() == fds[0]);
    let host = t.next_host_id;
    let size = wire::word_at(msg, 12);
    lemma_signed_word(size);
    let rest = seq![ValueModel::Fd(fds[0]), ValueModel::Int(size as i32)];
    let values = seq![ValueModel::<F>::NewId(host)] + rest;
    reveal_with_fuel(arguments::encoded_prefix, 4);
    reveal_with_fuel(arguments::fds_prefix, 4);
    wire::lemma_bytes_round_trip(msg, 12);
    assert(msg.skip(12) =~= wire::word_bytes(size));
    assert(Seq::<u8>::empty() + wire::word_bytes(host) + Seq::<u8>::empty() + wire::word_bytes(
        size,
    ) =~= wire::word_bytes(host) + msg.skip(12));
    assert(arguments::fds_of(values) =~= seq![fds[0]]);
    lemma_asked_again::<F>(t, shm, "create_pool"@, rest, msg);
}

/// A shared memory buffer is asked for again by the same request: behind the
/// new id, byte for byte what the client sent.
pub proof fn lemma_buffer_is_asked_for_again<F>(
    s: SessionModel<F>,
    fds: Seq<Arc<F>>,
    entries: Seq<(Seq<char>, Seq<u8>)>,
    frozen: bool,
    msg: Seq<u8>,
    pool: u32,
    t: TableModel,
    fetch: FetchModel,
)
    requires
        requests(
            s,
            msg,
            pool,
            "wl_shm_pool"@,
            "create_buffer"@,
            seq![
                ArgumentType::NewId,
                ArgumentType::Int,
                ArgumentType::Int,
                ArgumentType::Int,
                ArgumentType::Int,
                ArgumentType::Uint,
            ],
        ),
        msg.len() == 32,
        relay_laws::is_through(
            relay::relay(s, fds, entries, Direction::ClientToHost, frozen, msg).step.outcome,
        ),
        lives_on(s.objects, t, pool),
    ensures
        ({
            let chosen = wire::word_at(msg, 8);
            let r = relay::relay(s, fds, entries, Direction::ClientToHost, frozen, msg);
            let again = recovery::staged(
                t,
                fetch,
                recreation::recipe_of(r.session.graph, chosen)->0,
            );
            &&& recreation::recipe_of(r.session.graph, chosen) is Some
            &&& asks_again(again, t, pool, msg, seq![])
            &&& again.stage.requests[0].bytes.skip(12) == msg.skip(12)
        }),
{
    let sig = seq![
        ArgumentType::NewId,
        ArgumentType::Int,
        ArgumentType::Int,
        ArgumentType::Int,
        ArgumentType::Int,
        ArgumentType::Uint,
    ];
    lemma_walk_new_id(msg.skip(8), sig, 6);
    let walk = WalkModel { new_id_offset: Some(0usize), ..event_laws::no_ids() };
    assert(signature::walked(msg.skip(8), sig) == Ok::<WalkModel, Seq<char>>(walk));
    kind_laws::lemma_request_names("wl_shm_pool"@, "create_buffer"@);
    lemma_recorded(
        s,
        fds,
        entries,
        frozen,
        msg,
        pool,
        "wl_shm_pool"@,
        "create_buffer"@,
        sig,
        walk,
    );
    let host = t.next_host_id;
    lemma_buffer_values::<F>(host, msg, sig);
    assert(relay::translated(s.objects, Direction::ClientToHost, msg, Seq::empty()).0 == msg);
    lemma_asked_again::<F>(t, pool, "create_buffer"@, buffer_values(msg), msg);
    assert(arguments::fds_of(seq![ValueModel::<F>::NewId(host)] + buffer_values(msg)) =~= seq![]);
    let put = put_again(t, pool, msg);
    wire::lemma_word_round_trip(host);
    wire::lemma_word_round_trip(t.host_id(pool)->0);
    assert(put.skip(12) =~= msg.skip(12));
}

/// A toplevel that was just made has no title and no application id to be told
/// again, whatever surface it belongs to.
pub proof fn lemma_new_toplevel_has_no_names<F>(
    s: SessionModel<F>,
    fds: Seq<Arc<F>>,
    entries: Seq<(Seq<char>, Seq<u8>)>,
    frozen: bool,
    msg: Seq<u8>,
    parent: u32,
)
    requires
        requests(
            s,
            msg,
            parent,
            "xdg_surface"@,
            "get_toplevel"@,
            seq![ArgumentType::NewId],
        ),
        msg.len() == 12,
        relay_laws::is_through(
            relay::relay(s, fds, entries, Direction::ClientToHost, frozen, msg).step.outcome,
        ),
    ensures
        ({
            let r = relay::relay(s, fds, entries, Direction::ClientToHost, frozen, msg);
            recreation::recipe_of(r.session.graph, wire::word_at(msg, 8)) == Some(
                Recipe::<F>::XdgToplevel { parent_guest_id: parent, title: None, app_id: None },
            )
        }),
{
    let sig = seq![ArgumentType::NewId];
    lemma_walk_new_id(msg.skip(8), sig, 1);
    let walk = WalkModel { new_id_offset: Some(0usize), ..event_laws::no_ids() };
    kind_laws::lemma_request_names("xdg_surface"@, "get_toplevel"@);
    lemma_recorded(
        s,
        fds,
        entries,
        frozen,
        msg,
        parent,
        "xdg_surface"@,
        "get_toplevel"@,
        sig,
        walk,
    );
}

/// A viewport that was just made has no destination to be told again.
pub proof fn lemma_new_viewport_has_no_destination<F>(
    s: SessionModel<F>,
    fds: Seq<Arc<F>>,
    entries: Seq<(Seq<char>, Seq<u8>)>,
    frozen: bool,
    msg: Seq<u8>,
    parent: u32,
)
    requires
        requests(
            s,
            msg,
            parent,
            "wp_viewporter"@,
            "get_viewport"@,
            seq![ArgumentType::NewId, ArgumentType::Object],
        ),
        msg.len() == 16,
        relay_laws::is_through(
            relay::relay(s, fds, entries, Direction::ClientToHost, frozen, msg).step.outcome,
        ),
    ensures
        ({
            let r = relay::relay(s, fds, entries, Direction::ClientToHost, frozen, msg);
            recreation::recipe_of(r.session.graph, wire::word_at(msg, 8)) == Some(
                Recipe::<F>::Viewport {
                    viewporter_guest_id: parent,
                    surface_guest_id: wire::word_at(msg, 12),
                    destination: None,
                },
            )
        }),
{
    let sig = seq![ArgumentType::NewId, ArgumentType::Object];
    lemma_walk_new_id_and_object(msg.skip(8));
    let walk = WalkModel {
        new_id_offset: Some(0usize),
        object_offsets: seq![4usize],
        ..event_laws::no_ids()
    };
    kind_laws::lemma_request_names("wp_viewporter"@, "get_viewport"@);
    lemma_recorded(
        s,
        fds,
        entries,
        frozen,
        msg,
        parent,
        "wp_viewporter"@,
        "get_viewport"@,
        sig,
        walk,
    );
}

} // verus!
