//! Dmabuf buffers and globals: replaying repeats what the client asked for.
use crate::arguments;
use crate::arguments::ValueModel;
use crate::clipboard_laws;
use crate::event_laws;
use crate::interfaces;
use crate::kind_laws;
use crate::recovery;
use crate::recovery::{FetchModel, NextModel, OutgoingModel};
use crate::recreation;
use crate::recreation::{DmabufPlane, Recipe};
use crate::relay;
use crate::relay_laws;
use crate::replay_laws;
use crate::schema;
use crate::schema::{ArgumentType, Direction, MessageModel};
use crate::session::SessionModel;
use crate::settle_laws;
use crate::shadow_table::TableModel;
use crate::signature;
use crate::signature::WalkModel;
use crate::wire;
use std::sync::Arc;
use vstd::prelude::*;

verus! {

/// The arguments of `zwp_linux_buffer_params_v1.add`.
pub open spec fn add_signature() -> Seq<ArgumentType> {
    seq![
        ArgumentType::Fd,
        ArgumentType::Uint,
        ArgumentType::Uint,
        ArgumentType::Uint,
        ArgumentType::Uint,
        ArgumentType::Uint,
    ]
}

/// The arguments of `zwp_linux_buffer_params_v1.create_immed`.
pub open spec fn immed_signature() -> Seq<ArgumentType> {
    seq![
        ArgumentType::NewId,
        ArgumentType::Int,
        ArgumentType::Int,
        ArgumentType::Uint,
        ArgumentType::Uint,
    ]
}

/// Two words make a number and are its halves again.
proof fn lemma_halves(high: u32, low: u32)
    ensures
        recovery::high_word(relay::combined(high, low)) == high,
        recovery::low_word(relay::combined(high, low)) == low,
{
    let v = high * 0x1_0000_0000 + low;
    assert(0 <= v <= u64::MAX);
    assert(v / 0x1_0000_0000 == high);
    assert(v % 0x1_0000_0000 == low);
}

/// What one plane says in the arguments of `add`, in five words and a
/// descriptor.
proof fn lemma_plane_encoded<F>(plane: DmabufPlane<F>)
    ensures
        ({
            let e = arguments::encoded(add_signature(), recovery::plane_values(plane));
            let p = e->Ok_0;
            &&& e is Ok
            &&& p.len() == 20
            &&& wire::word_at(p, 0) == plane.plane_idx
            &&& wire::word_at(p, 4) == plane.offset
            &&& wire::word_at(p, 8) == plane.stride
            &&& wire::word_at(p, 12) == recovery::high_word(plane.modifier)
            &&& wire::word_at(p, 16) == recovery::low_word(plane.modifier)
            &&& arguments::fds_of(recovery::plane_values(plane)) == seq![plane.fd]
        }),
{
    let values = recovery::plane_values(plane);
    let sig = add_signature();
    let a = plane.plane_idx;
    let b = plane.offset;
    let c = plane.stride;
    let d = recovery::high_word(plane.modifier);
    let e = recovery::low_word(plane.modifier);
    wire::lemma_words_read(a, b, c, d);
    wire::lemma_words_read(e, e, e, e);
    let none = Seq::<u8>::empty();
    let four = wire::word_bytes(a) + wire::word_bytes(b) + wire::word_bytes(c) + wire::word_bytes(
        d,
    );
    let p = four + wire::word_bytes(e);
    assert(none + none + wire::word_bytes(a) =~= wire::word_bytes(a));
    reveal_with_fuel(arguments::encoded_prefix, 3);
    assert(arguments::encoded_prefix(sig, values, 2) == Ok::<Seq<u8>, arguments::EncodeError>(
        wire::word_bytes(a),
    ));
    assert(arguments::encoded_prefix(sig, values, 4) == Ok::<Seq<u8>, arguments::EncodeError>(
        wire::word_bytes(a) + wire::word_bytes(b) + wire::word_bytes(c),
    ));
    assert(arguments::encoded_prefix(sig, values, 6) == Ok::<Seq<u8>, arguments::EncodeError>(p));
    wire::lemma_word_appended(four, e, none);
    assert(p + none =~= p);
    assert forall|at: int| 0 <= at <= 12 implies #[trigger] wire::word_at(p, at) == wire::word_at(
        four,
        at,
    ) by {}
    assert(wire::word_at(p, 0) == a && wire::word_at(p, 4) == b && wire::word_at(p, 8) == c
        && wire::word_at(p, 12) == d);
    reveal_with_fuel(arguments::fds_prefix, 7);
    assert(arguments::fds_of(values) =~= seq![plane.fd]);
}

/// Five words are told apart by what they read as.
proof fn lemma_same_words(a: Seq<u8>, b: Seq<u8>)
    requires
        a.len() == 20,
        b.len() == 20,
        wire::word_at(a, 0) == wire::word_at(b, 0),
        wire::word_at(a, 4) == wire::word_at(b, 4),
        wire::word_at(a, 8) == wire::word_at(b, 8),
        wire::word_at(a, 12) == wire::word_at(b, 12),
        wire::word_at(a, 16) == wire::word_at(b, 16),
    ensures
        a == b,
{
    wire::lemma_bytes_round_trip(a, 0);
    wire::lemma_bytes_round_trip(b, 0);
    wire::lemma_bytes_round_trip(a, 4);
    wire::lemma_bytes_round_trip(b, 4);
    wire::lemma_bytes_round_trip(a, 8);
    wire::lemma_bytes_round_trip(b, 8);
    wire::lemma_bytes_round_trip(a, 12);
    wire::lemma_bytes_round_trip(b, 12);
    wire::lemma_bytes_round_trip(a, 16);
    wire::lemma_bytes_round_trip(b, 16);
    assert(a =~= a.subrange(0, 4) + a.subrange(4, 8) + a.subrange(8, 12) + a.subrange(12, 16)
        + a.subrange(16, 20));
    assert(b =~= b.subrange(0, 4) + b.subrange(4, 8) + b.subrange(8, 12) + b.subrange(12, 16)
        + b.subrange(16, 20));
}

/// A new dmabuf params object starts without planes, and belongs to the dmabuf
/// object that it was asked of.
pub proof fn lemma_params_start_empty<F>(
    s: SessionModel<F>,
    fds: Seq<Arc<F>>,
    entries: Seq<(Seq<char>, Seq<u8>)>,
    frozen: bool,
    msg: Seq<u8>,
    dmabuf: u32,
)
    requires
        replay_laws::requests(
            s,
            msg,
            dmabuf,
            "zwp_linux_dmabuf_v1"@,
            "create_params"@,
            seq![ArgumentType::NewId],
        ),
        msg.len() == 12,
        relay_laws::is_through(
            relay::relay(s, fds, entries, Direction::ClientToHost, frozen, msg).step.outcome,
        ),
    ensures
        ({
            let params = wire::word_at(msg, 8);
            let r = relay::relay(s, fds, entries, Direction::ClientToHost, frozen, msg);
            &&& r.session.planes.contains_key(params)
            &&& r.session.planes[params].0 == dmabuf
            &&& r.session.planes[params].1.len() == 0
        }),
{
    let sig = seq![ArgumentType::NewId];
    replay_laws::lemma_walk_new_id(msg.skip(8), sig, 1);
    let walk = WalkModel { new_id_offset: Some(0usize), ..event_laws::no_ids() };
    assert(signature::walked(msg.skip(8), sig) == Ok::<WalkModel, Seq<char>>(walk));
    kind_laws::lemma_request_names("zwp_linux_dmabuf_v1"@, "create_params"@);
    replay_laws::lemma_recorded(
        s,
        fds,
        entries,
        frozen,
        msg,
        dmabuf,
        "zwp_linux_dmabuf_v1"@,
        "create_params"@,
        sig,
        walk,
    );
}

/// A walk over the arguments of `add`.
proof fn lemma_walk_add(payload: Seq<u8>)
    requires
        payload.len() == 20,
    ensures
        signature::walked(payload, add_signature()) == Ok::<WalkModel, Seq<char>>(
            (WalkModel { fd_count: 1, ..event_laws::no_ids() }),
        ),
{
    let sig = add_signature();
    let found = WalkModel { fd_count: 1, ..event_laws::no_ids() };
    reveal_with_fuel(signature::walk_prefix, 3);
    assert(signature::walk_prefix(payload, sig, 2) == Ok::<signature::WalkState, Seq<char>>(
        (signature::WalkState { offset: 4, found }),
    ));
    assert(signature::walk_prefix(payload, sig, 4) == Ok::<signature::WalkState, Seq<char>>(
        (signature::WalkState { offset: 12, found }),
    ));
    assert(signature::walk_prefix(payload, sig, 6) == Ok::<signature::WalkState, Seq<char>>(
        (signature::WalkState { offset: 20, found }),
    ));
}

/// A plane that the client adds is kept behind those it added before, and the
/// request that adds it again is the client's own, on whatever params object,
/// with the descriptor that came with it.
pub proof fn lemma_plane_is_added_again<F>(
    s: SessionModel<F>,
    fds: Seq<Arc<F>>,
    entries: Seq<(Seq<char>, Seq<u8>)>,
    frozen: bool,
    msg: Seq<u8>,
    params: u32,
    params_host: u32,
)
    requires
        event_laws::says(
            s,
            Direction::ClientToHost,
            msg,
            params,
            "zwp_linux_buffer_params_v1"@,
            "add"@,
            add_signature(),
        ),
        wire::header_of(msg)->0.length == msg.len(),
        msg.len() == 28,
        fds.len() > 0,
        s.planes.contains_key(params),
        s.objects.host_id(params) is Some,
    ensures
        ({
            let opcode = wire::header_of(msg)->0.opcode;
            let desc = replay_laws::desc_of(s.objects, params, msg);
            let r = relay::relay(s, fds, entries, Direction::ClientToHost, frozen, msg);
            let planes = r.session.planes[params].1;
            let again = recovery::message_of(
                params_host,
                opcode,
                desc,
                recovery::plane_values(planes.last()),
            );
            &&& r.step.outcome == event_laws::sent_on(frozen)
            &&& r.session.planes.contains_key(params)
            &&& r.session.planes[params].0 == s.planes[params].0
            &&& planes.len() == s.planes[params].1.len() + 1
            &&& planes.drop_last() == s.planes[params].1
            &&& again is Some
            &&& again->0.bytes == wire::with_word(msg, 0, params_host)
            &&& again->0.fds == seq![fds[0]]
        }),
{
    let direction = Direction::ClientToHost;
    let sig = add_signature();
    let p = msg.skip(8);
    lemma_walk_add(p);
    event_laws::lemma_says(
        s,
        direction,
        msg,
        params,
        "zwp_linux_buffer_params_v1"@,
        "add"@,
        sig,
    );
    kind_laws::lemma_request_names("zwp_linux_buffer_params_v1"@, "add"@);
    kind_laws::lemma_input_serial_names(direction, "zwp_linux_buffer_params_v1"@, "add"@);
    assert(relay::translated(s.objects, direction, msg, Seq::empty()) == (msg, true));
    let host = s.objects.host_id(params)->0;
    event_laws::lemma_readdressed(msg, host);
    let bytes = wire::with_word(msg, 0, host);
    assert(bytes.skip(8) =~= bytes.skip(4).skip(4));
    assert(p =~= msg.skip(4).skip(4));
    let plane = DmabufPlane {
        fd: fds[0],
        plane_idx: wire::word_at(p, 0),
        offset: wire::word_at(p, 4),
        stride: wire::word_at(p, 8),
        modifier: relay::combined(wire::word_at(p, 12), wire::word_at(p, 16)),
    };
    assert(fds.take(1).last() == fds[0]);
    let r = relay::relay(s, fds, entries, direction, frozen, msg);
    let planes = s.planes[params].1;
    assert(r.session.planes == s.planes.insert(params, (s.planes[params].0, planes.push(plane))));
    assert(planes.push(plane).drop_last() =~= planes);
    lemma_halves(wire::word_at(p, 12), wire::word_at(p, 16));
    lemma_plane_encoded(plane);
    let payload = arguments::encoded(sig, recovery::plane_values(plane))->Ok_0;
    lemma_same_words(payload, p);
    replay_laws::lemma_same_message(msg, params_host, wire::header_of(msg)->0.opcode, payload);
}

/// The arguments of a dmabuf buffer, as they stand in a message behind the new
/// id, encode to the bytes they were read from.
proof fn lemma_immed_values<F>(host: u32, msg: Seq<u8>)
    requires
        msg.len() == 28,
    ensures
        ({
            let values = seq![
                ValueModel::<F>::NewId(host),
                ValueModel::Int(wire::word_at(msg, 12) as i32),
                ValueModel::Int(wire::word_at(msg, 16) as i32),
                ValueModel::Uint(wire::word_at(msg, 20)),
                ValueModel::Uint(wire::word_at(msg, 24)),
            ];
            &&& arguments::encoded(immed_signature(), values) == Ok::<
                Seq<u8>,
                arguments::EncodeError,
            >(wire::word_bytes(host) + msg.skip(12))
            &&& arguments::fds_of(values).len() == 0
        }),
{
    let values = seq![
        ValueModel::<F>::NewId(host),
        ValueModel::Int(wire::word_at(msg, 12) as i32),
        ValueModel::Int(wire::word_at(msg, 16) as i32),
        ValueModel::Uint(wire::word_at(msg, 20)),
        ValueModel::Uint(wire::word_at(msg, 24)),
    ];
    let sig = immed_signature();
    replay_laws::lemma_signed_word(wire::word_at(msg, 12));
    replay_laws::lemma_signed_word(wire::word_at(msg, 16));
    replay_laws::lemma_next_word(host, msg, 0);
    replay_laws::lemma_next_word(host, msg, 1);
    replay_laws::lemma_next_word(host, msg, 2);
    replay_laws::lemma_next_word(host, msg, 3);
    let none = Seq::<u8>::empty();
    assert(none + wire::word_bytes(host) =~= replay_laws::id_and_words(host, msg, 0));
    assert(replay_laws::id_and_words(host, msg, 4) =~= wire::word_bytes(host) + msg.skip(12));
    reveal_with_fuel(arguments::encoded_prefix, 2);
    assert(arguments::encoded_prefix(sig, values, 1) == Ok::<Seq<u8>, arguments::EncodeError>(
        replay_laws::id_and_words(host, msg, 0),
    ));
    assert(arguments::encoded_prefix(sig, values, 2) == Ok::<Seq<u8>, arguments::EncodeError>(
        replay_laws::id_and_words(host, msg, 1),
    ));
    assert(arguments::encoded_prefix(sig, values, 3) == Ok::<Seq<u8>, arguments::EncodeError>(
        replay_laws::id_and_words(host, msg, 2),
    ));
    assert(arguments::encoded_prefix(sig, values, 4) == Ok::<Seq<u8>, arguments::EncodeError>(
        replay_laws::id_and_words(host, msg, 3),
    ));
    reveal_with_fuel(arguments::fds_prefix, 6);
}

/// A dmabuf buffer is remembered with the planes that its params had collected,
/// in order, which are used up; once its params exist again, it is asked for by
/// the client's own request.
pub proof fn lemma_dmabuf_buffer_is_asked_for_again<F>(
    s: SessionModel<F>,
    fds: Seq<Arc<F>>,
    entries: Seq<(Seq<char>, Seq<u8>)>,
    frozen: bool,
    msg: Seq<u8>,
    params: u32,
    t: TableModel,
    params_host: u32,
)
    requires
        replay_laws::requests(
            s,
            msg,
            params,
            "zwp_linux_buffer_params_v1"@,
            "create_immed"@,
            immed_signature(),
        ),
        msg.len() == 28,
        s.planes.contains_key(params),
        relay_laws::is_through(
            relay::relay(s, fds, entries, Direction::ClientToHost, frozen, msg).step.outcome,
        ),
    ensures
        ({
            let chosen = wire::word_at(msg, 8);
            let r = relay::relay(s, fds, entries, Direction::ClientToHost, frozen, msg);
            let recipe = recreation::recipe_of(r.session.graph, chosen);
            let again = recovery::staged_immed(
                t,
                params_host,
                s.objects.interface(params)->0,
                recipe->0,
            );
            &&& recipe is Some
            &&& recipe->0 is DmabufBuffer
            &&& recipe->0->dmabuf_guest_id == s.planes[params].0
            &&& recipe->0->planes == s.planes[params].1
            &&& !r.session.planes.contains_key(params)
            &&& again.stage.requests.len() == 1
            &&& again.stage.requests[0].bytes == wire::with_word(
                wire::with_word(msg, 8, t.next_host_id),
                0,
                params_host,
            )
            &&& again.stage.requests[0].fds.len() == 0
            &&& again.stage.next == (NextModel::Adopt {
                host_id: t.next_host_id,
                interface: interfaces::described(
                    *(replay_laws::desc_of(s.objects, params, msg).child_interface->0),
                ),
            })
        }),
{
    let direction = Direction::ClientToHost;
    let sig = immed_signature();
    let name = "zwp_linux_buffer_params_v1"@;
    replay_laws::lemma_walk_new_id(msg.skip(8), sig, 5);
    let walk = WalkModel { new_id_offset: Some(0usize), ..event_laws::no_ids() };
    assert(signature::walked(msg.skip(8), sig) == Ok::<WalkModel, Seq<char>>(walk));
    kind_laws::lemma_request_names(name, "create_immed"@);
    kind_laws::lemma_input_serial_names(direction, name, "create_immed"@);
    replay_laws::lemma_recorded(
        s,
        fds,
        entries,
        frozen,
        msg,
        params,
        name,
        "create_immed"@,
        sig,
        walk,
    );
    assert(relay::translated(s.objects, direction, msg, Seq::empty()).0 == msg);
    event_laws::lemma_says(s, direction, msg, params, name, "create_immed"@, sig);
    let r = relay::relay(s, fds, entries, direction, frozen, msg);
    assert(r.session.planes == s.planes.remove(params));
    let host = t.next_host_id;
    lemma_immed_values::<F>(host, msg);
    let m = wire::with_word(msg, 8, host);
    wire::lemma_with_word(msg, 8, host);
    wire::lemma_word_round_trip(host);
    assert(wire::word_at(m, 4) == wire::word_at(msg, 4));
    assert(m.skip(8) =~= wire::word_bytes(host) + msg.skip(12));
    replay_laws::lemma_same_message(m, params_host, wire::header_of(msg)->0.opcode, m.skip(8));
}

/// Whether `request` adds this plane to host object `params`: its words are the
/// plane's, the modifier in two halves, and its descriptor goes with it.
pub open spec fn adds_plane<F>(
    request: OutgoingModel<F>,
    params: u32,
    opcode: u16,
    plane: DmabufPlane<F>,
) -> bool {
    &&& wire::is_message(request.bytes, params, opcode)
    &&& request.bytes.len() == 28
    &&& wire::word_at(request.bytes, 8) == plane.plane_idx
    &&& wire::word_at(request.bytes, 12) == plane.offset
    &&& wire::word_at(request.bytes, 16) == plane.stride
    &&& wire::word_at(request.bytes, 20) * 0x1_0000_0000 + wire::word_at(request.bytes, 24)
        == plane.modifier
    &&& request.fds == seq![plane.fd]
}

proof fn lemma_planes_are_added<F>(
    params: u32,
    opcode: u16,
    desc: MessageModel,
    planes: Seq<DmabufPlane<F>>,
    n: int,
)
    requires
        0 <= n <= planes.len(),
        desc.signature == add_signature(),
    ensures
        ({
            let (requests, ok) = recovery::add_requests(params, opcode, desc, planes, n);
            &&& ok
            &&& requests.len() == n
            &&& forall|k: int|
                0 <= k < n ==> adds_plane(#[trigger] requests[k], params, opcode, planes[k])
        }),
    decreases n,
{
    if n > 0 {
        lemma_planes_are_added(params, opcode, desc, planes, n - 1);
        let plane = planes[n - 1];
        lemma_plane_encoded(plane);
        let payload = arguments::encoded(add_signature(), recovery::plane_values(plane))->Ok_0;
        wire::lemma_built_message_reads(params, opcode, payload);
        assert(wire::word_at(payload, 0) == plane.plane_idx);
        assert(wire::word_at(payload, 4) == plane.offset);
        assert(wire::word_at(payload, 8) == plane.stride);
        assert(wire::word_at(payload, 12) == recovery::high_word(plane.modifier));
        assert(wire::word_at(payload, 16) == recovery::low_word(plane.modifier));
    }
}

/// Before a dmabuf buffer is asked for again, fresh params are asked of the
/// dmabuf object, under the next number, and every plane is added to them in
/// order.
pub proof fn lemma_params_are_filled_again<F>(
    t: TableModel,
    fetch: FetchModel,
    recipe: Recipe<F>,
)
    requires
        recipe is DmabufBuffer,
        t.interface(recipe->dmabuf_guest_id) is Some,
        t.host_id(recipe->dmabuf_guest_id) is Some,
        ({
            let requests = t.interface(recipe->dmabuf_guest_id)->0.requests;
            let opcode = schema::opcode_named(requests, "create_params"@);
            let child = requests[opcode->0 as int].child_interface;
            let params = interfaces::described(*(child->0));
            let add_opcode = schema::opcode_named(params.requests, "add"@);
            &&& opcode is Some
            &&& requests[opcode->0 as int].signature == seq![ArgumentType::NewId]
            &&& child is Some
            &&& add_opcode is Some
            &&& params.requests[add_opcode->0 as int].signature == add_signature()
        }),
    ensures
        ({
            let interface = t.interface(recipe->dmabuf_guest_id)->0;
            let opcode = schema::opcode_named(interface.requests, "create_params"@)->0;
            let child = interface.requests[opcode as int].child_interface->0;
            let params = interfaces::described(*child);
            let add_opcode = schema::opcode_named(params.requests, "add"@)->0;
            let r = recovery::staged(t, fetch, recipe);
            let q = r.stage.requests;
            &&& q.len() == recipe->planes.len() + 1
            &&& wire::is_message(q[0].bytes, t.host_id(recipe->dmabuf_guest_id)->0, opcode)
            &&& q[0].bytes.len() == 12
            &&& wire::word_at(q[0].bytes, 8) == t.next_host_id
            &&& q[0].fds.len() == 0
            &&& forall|k: int|
                0 <= k < recipe->planes.len() ==> adds_plane(
                    #[trigger] q[k + 1],
                    t.next_host_id,
                    add_opcode,
                    recipe->planes[k],
                )
            &&& r.stage.next == (NextModel::CreateImmed {
                params_host_id: t.next_host_id,
                params_interface: params,
            })
            &&& r.objects == t.allocate_host_ids(1)
        }),
{
    let dmabuf = recipe->dmabuf_guest_id;
    let planes = recipe->planes;
    let interface = t.interface(dmabuf)->0;
    let opcode = schema::opcode_named(interface.requests, "create_params"@)->0;
    let desc = interface.requests[opcode as int];
    let params = interfaces::described(*(desc.child_interface->0));
    let add_opcode = schema::opcode_named(params.requests, "add"@)->0;
    let host = t.next_host_id;
    let values = seq![ValueModel::<F>::NewId(host)] + Seq::empty();
    reveal_with_fuel(arguments::encoded_prefix, 2);
    reveal_with_fuel(arguments::fds_prefix, 2);
    assert(Seq::<u8>::empty() + wire::word_bytes(host) =~= wire::word_bytes(host));
    assert(arguments::encoded(desc.signature, values) == Ok::<Seq<u8>, arguments::EncodeError>(
        wire::word_bytes(host),
    ));
    wire::lemma_words_read(host, 0, 0, 0);
    wire::lemma_built_message_reads(t.host_id(dmabuf)->0, opcode, wire::word_bytes(host));
    assert(wire::word_at(wire::word_bytes(host), 0) == host);
    lemma_planes_are_added(
        host,
        add_opcode,
        params.requests[add_opcode as int],
        planes,
        planes.len() as int,
    );
    let adds = recovery::add_requests(
        host,
        add_opcode,
        params.requests[add_opcode as int],
        planes,
        planes.len() as int,
    ).0;
    let q = recovery::staged(t, fetch, recipe).stage.requests;
    assert forall|k: int| 0 <= k < planes.len() implies adds_plane(
        #[trigger] q[k + 1],
        host,
        add_opcode,
        planes[k],
    ) by {
        assert(q[k + 1] == adds[k]);
    }
}

/// The arguments of `wl_registry.bind`.
pub open spec fn bind_signature() -> Seq<ArgumentType> {
    seq![ArgumentType::Uint, ArgumentType::Str, ArgumentType::Uint, ArgumentType::NewId]
}

/// A global that the client bound is bound again on the new compositor: the
/// same interface, under the name that the new compositor has for it, in the
/// version that the client had asked for, or the newest offered where that is
/// less.
pub proof fn lemma_global_is_asked_for_again<F>(
    s: SessionModel<F>,
    fds: Seq<Arc<F>>,
    entries: Seq<(Seq<char>, Seq<u8>)>,
    frozen: bool,
    msg: Seq<u8>,
    registry: u32,
    name: Seq<char>,
    end: int,
    t: TableModel,
    fetch: FetchModel,
)
    requires
        event_laws::says(
            s,
            Direction::ClientToHost,
            msg,
            registry,
            "wl_registry"@,
            "bind"@,
            bind_signature(),
        ),
        replay_laws::desc_of(s.objects, registry, msg).child_interface is None,
        wire::str_opt(msg.skip(8), 4) == Some((name, end)),
        msg.len() == end + 16,
        msg.len() < usize::MAX,
        interfaces::interface_table(name).name == name,
        settle_laws::is_bound_again(name),
        clipboard_laws::fits_message(name),
        relay_laws::is_through(
            relay::relay(s, fds, entries, Direction::ClientToHost, frozen, msg).step.outcome,
        ),
        fetch.globals.root(name) is Some,
        fetch.registry_interface.requests.len() > 0,
        fetch.registry_interface.requests[0].signature == bind_signature(),
    ensures
        ({
            let chosen = wire::word_at(msg, end + 12);
            let wanted = wire::word_at(msg, end + 8);
            let (new_name, offered) = fetch.globals.root(name)->0;
            let r = relay::relay(s, fds, entries, Direction::ClientToHost, frozen, msg);
            let recipe = recreation::recipe_of(r.session.graph, chosen);
            let again = recovery::staged(t, fetch, recipe->0);
            let bytes = again.stage.requests[0].bytes;
            &&& recipe is Some
            &&& again.stage.requests.len() == 1
            &&& wire::is_message(bytes, fetch.registry_host_id, 0)
            &&& wire::word_at(bytes, 8) == new_name
            &&& wire::str_opt(bytes.skip(8), 4) == Some((name, bytes.len() - 16))
            &&& wire::word_at(bytes, bytes.len() - 8) == if wanted <= offered {
                wanted
            } else {
                offered
            }
            &&& wire::word_at(bytes, bytes.len() - 4) == t.next_host_id
            &&& again.stage.requests[0].fds.len() == 0
            &&& again.stage.next == (NextModel::Adopt {
                host_id: t.next_host_id,
                interface: interfaces::interface_table(name),
            })
        }),
{
    let direction = Direction::ClientToHost;
    let sig = bind_signature();
    let p = msg.skip(8);
    lemma_walk_bind(p, name, end);
    event_laws::lemma_says(s, direction, msg, registry, "wl_registry"@, "bind"@, sig);
    kind_laws::lemma_request_names("wl_registry"@, "bind"@);
    kind_laws::lemma_input_serial_names(direction, "wl_registry"@, "bind"@);
    assert(relay::translated(s.objects, direction, msg, Seq::empty()) == (msg, true));
    let child = interfaces::interface_table(name);
    let chosen = wire::word_at(msg, end + 12);
    let wanted = wire::word_at(msg, end + 8);
    let recipe = Recipe::<F>::Global { interface: child, version: wanted };
    let r = relay::relay(s, fds, entries, direction, frozen, msg);
    recreation::lemma_recorded_is_found(s.graph, chosen, recipe, chosen);
    assert(recreation::recipe_of(r.session.graph, chosen) == Some(recipe));
    let (new_name, offered) = fetch.globals.root(name)->0;
    let version = if wanted <= offered {
        wanted
    } else {
        offered
    };
    lemma_bind_values::<F>(new_name, name, version, t.next_host_id);
    clipboard_laws::lemma_bind_message(
        fetch.registry_host_id,
        new_name,
        name,
        version,
        t.next_host_id,
    );
}

/// A global that the new compositor does not have is passed over: nothing is
/// asked for it, and no number is spent.
pub proof fn lemma_missing_global_is_passed_over<F>(
    t: TableModel,
    fetch: FetchModel,
    recipe: Recipe<F>,
)
    requires
        recipe is Global,
        fetch.globals.root(recipe->Global_interface.name) is None,
    ensures
        recovery::staged(t, fetch, recipe).stage.requests.len() == 0,
        recovery::staged(t, fetch, recipe).stage.next is Abandon,
        recovery::staged(t, fetch, recipe).objects == t,
{
}

/// A walk over the arguments of a bind.
proof fn lemma_walk_bind(p: Seq<u8>, name: Seq<char>, end: int)
    requires
        wire::str_opt(p, 4) == Some((name, end)),
        p.len() == end + 8,
        p.len() < usize::MAX,
    ensures
        signature::walked(p, bind_signature()) == Ok::<WalkModel, Seq<char>>(
            (WalkModel {
                new_id_offset: Some((end + 4) as usize),
                dynamic_interface_name: Some(name),
                ..event_laws::no_ids()
            }),
        ),
        8 <= end,
{
    let sig = bind_signature();
    reveal_with_fuel(signature::walk_prefix, 3);
    assert(signature::walk_prefix(p, sig, 2) == Ok::<signature::WalkState, Seq<char>>(
        (signature::WalkState {
            offset: end,
            found: WalkModel { dynamic_interface_name: Some(name), ..event_laws::no_ids() },
        }),
    ));
}

/// The arguments of a bind, one behind the other.
proof fn lemma_bind_values<F>(global: u32, name: Seq<char>, version: u32, id: u32)
    requires
        clipboard_laws::fits_message(name),
    ensures
        ({
            let values = seq![
                ValueModel::<F>::Uint(global),
                ValueModel::String(name),
                ValueModel::Uint(version),
                ValueModel::NewId(id),
            ];
            &&& arguments::encoded(bind_signature(), values) == Ok::<
                Seq<u8>,
                arguments::EncodeError,
            >(
                wire::word_bytes(global) + wire::str_bytes(name) + wire::word_bytes(version)
                    + wire::word_bytes(id),
            )
            &&& arguments::fds_of(values).len() == 0
        }),
{
    let values = seq![
        ValueModel::<F>::Uint(global),
        ValueModel::String(name),
        ValueModel::Uint(version),
        ValueModel::NewId(id),
    ];
    let sig = bind_signature();
    reveal_with_fuel(arguments::encoded_prefix, 3);
    reveal_with_fuel(arguments::fds_prefix, 5);
    assert(Seq::<u8>::empty() + wire::word_bytes(global) =~= wire::word_bytes(global));
    assert(arguments::encoded_prefix(sig, values, 2) == Ok::<Seq<u8>, arguments::EncodeError>(
        wire::word_bytes(global) + wire::str_bytes(name),
    ));
}

} // verus!
