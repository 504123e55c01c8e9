//! What holds of a whole recovery, from the first recipe to the last.
use crate::arguments;
use crate::arguments::ValueModel;
use crate::recovery;
use crate::recovery::{Adopted, FetchModel, NextModel, StageModel, Staged};
use crate::recreation::Recipe;
use crate::schema;
use crate::schema::InterfaceModel;
use crate::session::SessionModel;
use crate::shadow_table;
use crate::shadow_table::TableModel;
use crate::wire;
use crate::wire::HEADER_LEN;
use vstd::prelude::*;

verus! {

/// What comes of a stage that ends in `next`, when everything could be sent.
pub open spec fn concluded<F>(
    s: SessionModel<F>,
    serial: u32,
    guest: u32,
    recipe: Recipe<F>,
    next: NextModel,
) -> Adopted<F> {
    match next {
        NextModel::Adopt { host_id, interface } => recovery::adopted(
            s,
            guest,
            recipe,
            host_id,
            interface,
            serial,
        ),
        _ => Adopted { session: s, serial, follow_ups: Seq::empty() },
    }
}

/// The stages of recreating one object, up to the one that decides about it.
pub open spec fn last_stage<F>(t: TableModel, fetch: FetchModel, recipe: Recipe<F>) -> Staged<F> {
    let first = recovery::staged(t, fetch, recipe);
    match first.stage.next {
        NextModel::CreateImmed { params_host_id, params_interface } => recovery::staged_immed(
            first.objects,
            params_host_id,
            params_interface,
            recipe,
        ),
        _ => first,
    }
}

/// The connection, and the next invented serial, after the first `n` recipes
/// were replayed and everything could be sent.
pub open spec fn replayed<F>(s: SessionModel<F>, serial: u32, fetch: FetchModel, n: int) -> (
    SessionModel<F>,
    u32,
)
    decreases n,
{
    if n <= 0 {
        (s, serial)
    } else {
        let (before, serial) = replayed(s, serial, fetch, n - 1);
        let (guest, recipe) = s.graph[n - 1];
        let st = last_stage(before.objects, fetch, recipe);
        let after = concluded(
            SessionModel { objects: st.objects, ..before },
            serial,
            guest,
            recipe,
            st.stage.next,
        );
        (after.session, after.serial)
    }
}

/// Whether the object of the recipe at `i` could be created again.
pub open spec fn is_recreated<F>(
    s: SessionModel<F>,
    serial: u32,
    fetch: FetchModel,
    i: int,
) -> bool {
    last_stage(replayed(s, serial, fetch, i).0.objects, fetch, s.graph[i].1).stage.next is Adopt
}

/// Whether no object stands for a host id that was not handed out yet.
pub open spec fn ids_are_handed_out(t: TableModel) -> bool {
    forall|guest: u32| #[trigger]
        t.host_id(guest) matches Some(host) ==> host < t.next_host_id
}

/// Staging one recipe spends at most two host ids, disturbs no object, and
/// recreates the object under an id that it has just handed out.
proof fn lemma_last_stage<F>(t: TableModel, fetch: FetchModel, recipe: Recipe<F>)
    requires
        t.wf(),
        t.next_host_id <= u32::MAX - 2,
    ensures
        ({
            let st = last_stage(t, fetch, recipe);
            &&& t.next_host_id <= st.objects.next_host_id <= t.next_host_id + 2
            &&& st.objects == (TableModel { next_host_id: st.objects.next_host_id, ..t })
            &&& st.stage.next matches NextModel::Adopt { host_id, .. } ==> t.next_host_id
                <= host_id < st.objects.next_host_id
        }),
{
}

/// The table after one recipe was replayed is still well-formed, every object
/// that was alive still is, and the recipe's own object is alive if it could
/// be created.
proof fn lemma_one_replayed<F>(
    s: SessionModel<F>,
    serial: u32,
    fetch: FetchModel,
    guest: u32,
    recipe: Recipe<F>,
)
    requires
        s.objects.wf(),
        ids_are_handed_out(s.objects),
        1 <= s.objects.next_host_id <= u32::MAX - 2,
        guest != 0,
    ensures
        ({
            let st = last_stage(s.objects, fetch, recipe);
            let t = concluded(
                SessionModel { objects: st.objects, ..s },
                serial,
                guest,
                recipe,
                st.stage.next,
            ).session.objects;
            &&& t.wf()
            &&& ids_are_handed_out(t)
            &&& s.objects.next_host_id <= t.next_host_id <= s.objects.next_host_id + 2
            &&& st.stage.next is Adopt ==> t.host_id(guest) is Some
            &&& forall|other: u32| #[trigger]
                s.objects.host_id(other) is Some ==> t.host_id(other) is Some
        }),
{
    let st = last_stage(s.objects, fetch, recipe);
    lemma_last_stage(s.objects, fetch, recipe);
    let mid = st.objects;
    let t = concluded(
        SessionModel { objects: mid, ..s },
        serial,
        guest,
        recipe,
        st.stage.next,
    ).session.objects;
    assert forall|other: u32| #[trigger] mid.host_id(other) == s.objects.host_id(other) by {}
    if let NextModel::Adopt { host_id, interface } = st.stage.next {
        assert(t == mid.map(guest, host_id, interface));
        assert forall|other: u32| #[trigger]
            t.host_id(other) is Some implies t.host_id(other)->0 < t.next_host_id by {
            assert(mid.host_id(other) == s.objects.host_id(other));
            shadow_table::lemma_mapped_translates(mid, guest, host_id, interface, other);
        }
        assert forall|other: u32| #[trigger] s.objects.host_id(other) is Some implies t.host_id(
            other,
        ) is Some by {
            assert(mid.host_id(other) == s.objects.host_id(other));
            shadow_table::lemma_mapped_translates(mid, guest, host_id, interface, other);
        }
        shadow_table::lemma_mapped_translates(mid, guest, host_id, interface, guest);
    } else {
        assert(t == mid);
    }
}

/// On a fresh host connection, once the registry is there, only host ids that
/// were handed out are in use: the state that replaying starts from.
pub proof fn lemma_replay_can_start(t: TableModel, registry: u32, interface: InterfaceModel)
    requires
        t.wf(),
        t.generation < u64::MAX,
        registry != 0,
    ensures
        ({
            let ready = t.bump_generation().allocate_host_ids(2).map(
                registry,
                shadow_table::FIRST_HOST_ID,
                interface,
            );
            &&& ready.wf()
            &&& ids_are_handed_out(ready)
            &&& ready.next_host_id == shadow_table::FIRST_HOST_ID + 2
            &&& ready.host_id(registry) == Some(shadow_table::FIRST_HOST_ID)
        }),
{
    let fresh = t.bump_generation().allocate_host_ids(2);
    let ready = fresh.map(registry, shadow_table::FIRST_HOST_ID, interface);
    shadow_table::lemma_bump_makes_stale(t, registry);
    shadow_table::lemma_mapped_translates(
        fresh,
        registry,
        shadow_table::FIRST_HOST_ID,
        interface,
        registry,
    );
    assert forall|guest: u32| #[trigger]
        ready.host_id(guest) is Some implies ready.host_id(guest)->0 < ready.next_host_id by {
        shadow_table::lemma_bump_makes_stale(t, guest);
        assert(fresh.host_id(guest) == t.bump_generation().host_id(guest));
        shadow_table::lemma_mapped_translates(
            fresh,
            registry,
            shadow_table::FIRST_HOST_ID,
            interface,
            guest,
        );
    }
}

/// A recovery brings back all it can: whatever object could be created again
/// is alive once the whole graph was replayed, and nothing that was alive
/// before is lost.  Replaying leaves the recipes themselves as they are.
pub proof fn lemma_recreated_is_alive<F>(
    s: SessionModel<F>,
    serial: u32,
    fetch: FetchModel,
    n: int,
)
    requires
        s.objects.wf(),
        ids_are_handed_out(s.objects),
        1 <= s.objects.next_host_id,
        s.objects.next_host_id + 2 * s.graph.len() <= u32::MAX,
        forall|i: int| 0 <= i < s.graph.len() ==> (#[trigger] s.graph[i]).0 != 0,
        0 <= n <= s.graph.len(),
    ensures
        ({
            let after = replayed(s, serial, fetch, n).0;
            &&& after.graph == s.graph
            &&& after.objects.wf()
            &&& ids_are_handed_out(after.objects)
            &&& s.objects.next_host_id <= after.objects.next_host_id <= s.objects.next_host_id + 2
                * n
            &&& forall|i: int|
                0 <= i < n && #[trigger] is_recreated(s, serial, fetch, i)
                    ==> after.objects.host_id(s.graph[i].0) is Some
            &&& forall|other: u32| #[trigger]
                s.objects.host_id(other) is Some ==> after.objects.host_id(other) is Some
        }),
    decreases n,
{
    if n > 0 {
        lemma_recreated_is_alive(s, serial, fetch, n - 1);
        let (before, serial_before) = replayed(s, serial, fetch, n - 1);
        let (guest, recipe) = s.graph[n - 1];
        lemma_one_replayed(before, serial_before, fetch, guest, recipe);
        let after = replayed(s, serial, fetch, n).0;
        assert forall|i: int|
            0 <= i < n && #[trigger] is_recreated(s, serial, fetch, i) implies after.objects.host_id(
            s.graph[i].0,
        ) is Some by {
            if i < n - 1 {
                assert(before.objects.host_id(s.graph[i].0) is Some);
            }
        }
        assert forall|other: u32| #[trigger]
            s.objects.host_id(other) is Some implies after.objects.host_id(other) is Some by {
            assert(before.objects.host_id(other) is Some);
        }
    }
}

/// The new id that a request carries which recreates an object: the last word
/// of a bind, and the first argument of any other.
pub open spec fn new_id_in<F>(recipe: Recipe<F>, request: Seq<u8>) -> u32 {
    if recipe is Global {
        wire::word_at(request, request.len() - 4)
    } else {
        wire::word_at(request, HEADER_LEN as int)
    }
}

/// The new id that a stage asks for, if it asks for one.  Only the first request
/// of a stage creates an object: those behind it describe planes.
pub open spec fn stage_ids<F>(recipe: Recipe<F>, stage: StageModel<F>) -> Seq<u32> {
    if stage.requests.len() > 0 {
        seq![new_id_in(recipe, stage.requests[0].bytes)]
    } else {
        Seq::empty()
    }
}

/// The new ids in the requests that recreate one object, in order.
pub open spec fn asked_ids<F>(t: TableModel, fetch: FetchModel, recipe: Recipe<F>) -> Seq<u32> {
    let first = recovery::staged(t, fetch, recipe);
    let ids = stage_ids(recipe, first.stage);
    match first.stage.next {
        NextModel::CreateImmed { params_host_id, params_interface } => ids + stage_ids(
            recipe,
            recovery::staged_immed(first.objects, params_host_id, params_interface, recipe).stage,
        ),
        _ => ids,
    }
}

/// The new ids in the requests that replay the first `n` recipes, in order,
/// when everything could be sent.
pub open spec fn asked_upto<F>(
    s: SessionModel<F>,
    serial: u32,
    fetch: FetchModel,
    n: int,
) -> Seq<u32>
    decreases n,
{
    if n <= 0 {
        Seq::empty()
    } else {
        asked_upto(s, serial, fetch, n - 1) + asked_ids(
            replayed(s, serial, fetch, n - 1).0.objects,
            fetch,
            s.graph[n - 1].1,
        )
    }
}

/// Whether the request `name` of `parent` can be encoded, if it is made at all:
/// if the parent is there and its interface has the request.
pub open spec fn request_fits<F>(
    t: TableModel,
    parent: u32,
    name: Seq<char>,
    rest: Seq<ValueModel<F>>,
) -> bool {
    match (t.interface(parent), t.host_id(parent)) {
        (Some(interface), Some(_)) => match schema::opcode_named(interface.requests, name) {
            Some(opcode) => interface.requests[opcode as int].child_interface is Some
                ==> arguments::encoded(
                interface.requests[opcode as int].signature,
                seq![ValueModel::NewId(t.next_host_id)] + rest,
            ) is Ok,
            None => true,
        },
        _ => true,
    }
}

/// Whether a bind can be encoded, if it is made at all: if the new compositor
/// offers the global.
pub open spec fn bind_fits<F>(
    t: TableModel,
    fetch: FetchModel,
    interface: InterfaceModel,
    requested: u32,
) -> bool {
    match fetch.globals.root(interface.name) {
        Some((name, offered)) => fetch.registry_interface.requests.len() > 0 ==> arguments::encoded(
            fetch.registry_interface.requests[0].signature,
            seq![
                ValueModel::<F>::Uint(name),
                ValueModel::String(interface.name),
                ValueModel::Uint(recovery::bind_version(requested, offered)),
                ValueModel::NewId(t.next_host_id),
            ],
        ) is Ok,
        None => true,
    }
}

/// Whether the request that makes a buffer from dmabuf params can be encoded,
/// if the params' interface has it.
pub open spec fn immed_fits<F>(t: TableModel, params: InterfaceModel, recipe: Recipe<F>) -> bool {
    match (recipe, schema::opcode_named(params.requests, "create_immed"@)) {
        (Recipe::DmabufBuffer { width, height, format, flags, .. }, Some(opcode)) =>
            params.requests[opcode as int].child_interface is Some ==> arguments::encoded(
            params.requests[opcode as int].signature,
            seq![
                ValueModel::<F>::NewId(t.next_host_id),
                ValueModel::Int(width),
                ValueModel::Int(height),
                ValueModel::Uint(format),
                ValueModel::Uint(flags),
            ],
        ) is Ok,
        _ => true,
    }
}

/// Parent, name and further arguments of the request that recreates an object
/// from another, as far as the objects it refers to are there.
pub open spec fn creating_request<F>(t: TableModel, recipe: Recipe<F>) -> Option<
    (u32, Seq<char>, Seq<ValueModel<F>>),
> {
    let on_surface = |parent: u32, name: Seq<char>, surface: u32|
        match t.host_id(surface) {
            Some(host) => Some((parent, name, seq![ValueModel::<F>::Object(host)])),
            None => None,
        };
    match recipe {
        Recipe::Global { .. } => None,
        Recipe::Surface { parent_guest_id } => Some(
            (parent_guest_id, "create_surface"@, Seq::empty()),
        ),
        Recipe::XdgSurface { parent_guest_id, surface_guest_id } => on_surface(
            parent_guest_id,
            "get_xdg_surface"@,
            surface_guest_id,
        ),
        Recipe::XdgToplevel { parent_guest_id, .. } => Some(
            (parent_guest_id, "get_toplevel"@, Seq::empty()),
        ),
        Recipe::ShmPool { wl_shm_guest_id, fd, size } => Some(
            (wl_shm_guest_id, "create_pool"@, seq![ValueModel::Fd(fd), ValueModel::Int(size)]),
        ),
        Recipe::ShmBuffer { pool_guest_id, offset, width, height, stride, format } => Some(
            (
                pool_guest_id,
                "create_buffer"@,
                seq![
                    ValueModel::Int(offset),
                    ValueModel::Int(width),
                    ValueModel::Int(height),
                    ValueModel::Int(stride),
                    ValueModel::Uint(format),
                ],
            ),
        ),
        Recipe::DmabufBuffer { dmabuf_guest_id, .. } => Some(
            (dmabuf_guest_id, "create_params"@, Seq::empty()),
        ),
        Recipe::SeatDevice { seat_guest_id, kind } => Some(
            (seat_guest_id, kind.request(), Seq::empty()),
        ),
        Recipe::Viewport { viewporter_guest_id, surface_guest_id, .. } => on_surface(
            viewporter_guest_id,
            "get_viewport"@,
            surface_guest_id,
        ),
        Recipe::FractionalScale { manager_guest_id, surface_guest_id } => on_surface(
            manager_guest_id,
            "get_fractional_scale"@,
            surface_guest_id,
        ),
    }
}

/// Whether every request that creates something for a recipe can be encoded.
pub open spec fn creations_fit<F>(t: TableModel, fetch: FetchModel, recipe: Recipe<F>) -> bool {
    &&& recipe matches Recipe::Global { interface, version } ==> bind_fits::<F>(
        t,
        fetch,
        interface,
        version,
    )
    &&& creating_request(t, recipe) matches Some((parent, name, rest)) ==> request_fits(
        t,
        parent,
        name,
        rest,
    )
    &&& recovery::staged(t, fetch, recipe).stage.next matches NextModel::CreateImmed {
        params_interface,
        ..
    } ==> immed_fits(recovery::staged(t, fetch, recipe).objects, params_interface, recipe)
}

/// A request that asks for an object asks for the next host id, and spends no
/// other.
proof fn lemma_request_asks<F>(
    t: TableModel,
    parent: u32,
    name: Seq<char>,
    rest: Seq<ValueModel<F>>,
)
    requires
        t.next_host_id < u32::MAX,
        request_fits(t, parent, name, rest),
    ensures
        ({
            let st = recovery::staged_request(t, parent, name, rest);
            if st.stage.requests.len() > 0 {
                &&& st.stage.requests.len() == 1
                &&& wire::word_at(st.stage.requests[0].bytes, HEADER_LEN as int) == t.next_host_id
                &&& st.objects.next_host_id == t.next_host_id + 1
            } else {
                st.objects == t && st.stage.next is Abandon
            }
        }),
{
    let st = recovery::staged_request(t, parent, name, rest);
    if st.stage.requests.len() > 0 {
        let interface = t.interface(parent)->0;
        let opcode = schema::opcode_named(interface.requests, name)->0;
        let values = seq![ValueModel::NewId(t.next_host_id)] + rest;
        let signature = interface.requests[opcode as int].signature;
        let payload = arguments::encoded(signature, values)->Ok_0;
        arguments::lemma_new_id_first(
            signature,
            values,
            t.next_host_id,
            values.len() as int,
        );
        wire::lemma_payload_word(t.host_id(parent)->0, opcode, payload, 0);
    }
}

/// A bind asks for the next host id, and spends no other.
proof fn lemma_bind_asks<F>(
    t: TableModel,
    fetch: FetchModel,
    interface: InterfaceModel,
    requested: u32,
)
    requires
        t.next_host_id < u32::MAX,
        bind_fits::<F>(t, fetch, interface, requested),
    ensures
        ({
            let st = recovery::staged_global::<F>(t, fetch, interface, requested);
            &&& !(st.stage.next is CreateImmed)
            &&& if st.stage.requests.len() > 0 {
                let bytes = st.stage.requests[0].bytes;
                &&& wire::word_at(bytes, bytes.len() - 4) == t.next_host_id
                &&& st.objects.next_host_id == t.next_host_id + 1
            } else {
                st.objects == t
            }
        }),
{
    let st = recovery::staged_global::<F>(t, fetch, interface, requested);
    if st.stage.requests.len() > 0 {
        let (name, offered) = fetch.globals.root(interface.name)->0;
        let values = seq![
            ValueModel::<F>::Uint(name),
            ValueModel::String(interface.name),
            ValueModel::Uint(recovery::bind_version(requested, offered)),
            ValueModel::NewId(t.next_host_id),
        ];
        let signature = fetch.registry_interface.requests[0].signature;
        let payload = arguments::encoded(signature, values)->Ok_0;
        arguments::lemma_new_id_last(signature, values, t.next_host_id);
        wire::lemma_message_len(fetch.registry_host_id, 0, payload);
        wire::lemma_payload_word(fetch.registry_host_id, 0, payload, payload.len() - 4);
    }
}

/// The request that makes a buffer from dmabuf params asks for the next host
/// id, and spends no other.
proof fn lemma_immed_asks<F>(
    t: TableModel,
    params_host: u32,
    params: InterfaceModel,
    recipe: Recipe<F>,
)
    requires
        t.next_host_id < u32::MAX,
        immed_fits(t, params, recipe),
    ensures
        ({
            let st = recovery::staged_immed(t, params_host, params, recipe);
            if st.stage.requests.len() > 0 {
                &&& wire::word_at(st.stage.requests[0].bytes, HEADER_LEN as int) == t.next_host_id
                &&& st.objects.next_host_id == t.next_host_id + 1
            } else {
                st.objects == t
            }
        }),
{
    let st = recovery::staged_immed(t, params_host, params, recipe);
    if st.stage.requests.len() > 0 {
        if let Recipe::DmabufBuffer { width, height, format, flags, .. } = recipe {
            let opcode = schema::opcode_named(params.requests, "create_immed"@)->0;
            let values = seq![
                ValueModel::<F>::NewId(t.next_host_id),
                ValueModel::Int(width),
                ValueModel::Int(height),
                ValueModel::Uint(format),
                ValueModel::Uint(flags),
            ];
            let signature = params.requests[opcode as int].signature;
            let payload = arguments::encoded(signature, values)->Ok_0;
            arguments::lemma_new_id_first(signature, values, t.next_host_id, 5);
            wire::lemma_payload_word(params_host, opcode, payload, 0);
        }
    }
}

/// One recipe asks for the next host ids in order, and spends no other.
proof fn lemma_recipe_asks<F>(t: TableModel, fetch: FetchModel, recipe: Recipe<F>)
    requires
        t.next_host_id <= u32::MAX - 2,
        creations_fit(t, fetch, recipe),
    ensures
        ({
            let ids = asked_ids(t, fetch, recipe);
            &&& ids.len() <= 2
            &&& last_stage(t, fetch, recipe).objects.next_host_id == t.next_host_id + ids.len()
            &&& forall|k: int| 0 <= k < ids.len() ==> #[trigger] ids[k] == t.next_host_id + k
        }),
{
    let first = recovery::staged(t, fetch, recipe);
    if let Recipe::Global { interface, version } = recipe {
        lemma_bind_asks::<F>(t, fetch, interface, version);
    } else if let Some((parent, name, rest)) = creating_request(t, recipe) {
        lemma_request_asks(t, parent, name, rest);
        if recipe is DmabufBuffer {
            if let NextModel::CreateImmed { params_host_id, params_interface } = first.stage.next {
                lemma_immed_asks(first.objects, params_host_id, params_interface, recipe);
            }
        } else {
            assert(first == recovery::staged_request(t, parent, name, rest));
        }
    } else {
        assert(first.objects == t);
    }
}

/// Host ids stay gapless through a replay: as long as every request that
/// creates an object can be encoded and sent, the new ids in the requests are,
/// in order, the next host id and those behind it, and the next host id
/// afterwards is the one behind the last of them.
pub proof fn lemma_replay_ids_stay_gapless<F>(
    s: SessionModel<F>,
    serial: u32,
    fetch: FetchModel,
    n: int,
)
    requires
        s.objects.next_host_id + 2 * s.graph.len() <= u32::MAX,
        0 <= n <= s.graph.len(),
        forall|i: int|
            0 <= i < n ==> creations_fit(
                (#[trigger] replayed(s, serial, fetch, i)).0.objects,
                fetch,
                s.graph[i].1,
            ),
    ensures
        ({
            let ids = asked_upto(s, serial, fetch, n);
            &&& ids.len() <= 2 * n
            &&& forall|k: int|
                0 <= k < ids.len() ==> #[trigger] ids[k] == s.objects.next_host_id + k
            &&& replayed(s, serial, fetch, n).0.objects.next_host_id == s.objects.next_host_id
                + ids.len()
        }),
    decreases n,
{
    if n > 0 {
        lemma_replay_ids_stay_gapless(s, serial, fetch, n - 1);
        let before = replayed(s, serial, fetch, n - 1).0;
        lemma_recipe_asks(before.objects, fetch, s.graph[n - 1].1);
    }
}

/// Host ids are gapless from the first request on a fresh connection: those
/// that fetch the registry ask for the first two, and replaying the recipes
/// asks for the ids behind them, in order.  `fetch` is what came of fetching
/// the registry, which brings globals and nothing else.
pub proof fn lemma_recovery_ids_are_gapless<F>(
    s: SessionModel<F>,
    fetch: FetchModel,
    serial: u32,
    n: int,
)
    requires
        ({
            let bumped = SessionModel { objects: s.objects.bump_generation(), ..s };
            let ready = SessionModel {
                objects: bumped.objects.allocate_host_ids(2).map(
                    fetch.registry_guest_id,
                    fetch.registry_host_id,
                    fetch.registry_interface,
                ),
                ..bumped
            };
            &&& recovery::recovery_start(bumped) matches Some(start) && fetch == (FetchModel {
                globals: fetch.globals,
                ..start
            })
            &&& forall|i: int|
                0 <= i < n ==> creations_fit(
                    (#[trigger] replayed(ready, serial, fetch, i)).0.objects,
                    fetch,
                    s.graph[i].1,
                )
        }),
        shadow_table::FIRST_HOST_ID + 2 + 2 * s.graph.len() <= u32::MAX,
        0 <= n <= s.graph.len(),
    ensures
        ({
            let bumped = SessionModel { objects: s.objects.bump_generation(), ..s };
            let ready = SessionModel {
                objects: bumped.objects.allocate_host_ids(2).map(
                    fetch.registry_guest_id,
                    fetch.registry_host_id,
                    fetch.registry_interface,
                ),
                ..bumped
            };
            let opening = recovery::opening(fetch);
            let ids = seq![
                wire::word_at(opening[0], HEADER_LEN as int),
                wire::word_at(opening[1], HEADER_LEN as int),
            ] + asked_upto(ready, serial, fetch, n);
            &&& forall|k: int|
                0 <= k < ids.len() ==> #[trigger] ids[k] == shadow_table::FIRST_HOST_ID + k
            &&& replayed(ready, serial, fetch, n).0.objects.next_host_id
                == shadow_table::FIRST_HOST_ID + ids.len()
        }),
{
    let bumped = SessionModel { objects: s.objects.bump_generation(), ..s };
    let ready = SessionModel {
        objects: bumped.objects.allocate_host_ids(2).map(
            fetch.registry_guest_id,
            fetch.registry_host_id,
            fetch.registry_interface,
        ),
        ..bumped
    };
    lemma_replay_ids_stay_gapless(ready, serial, fetch, n);
    let registry = wire::word_bytes(fetch.registry_host_id);
    let sync = wire::word_bytes(fetch.sync_host_id);
    wire::lemma_word_round_trip(fetch.registry_host_id);
    wire::lemma_word_round_trip(fetch.sync_host_id);
    wire::lemma_payload_word(1, 1, registry, 0);
    wire::lemma_payload_word(1, 0, sync, 0);
}

} // verus!
