//! What the client's requests come to, by name and by the words they carry.
use crate::event_laws;
use crate::kind_laws;
use crate::recreation;
use crate::relay;
use crate::relay_laws;
use crate::replay_laws;
use crate::schema::{ArgumentType, Direction};
use crate::session::SessionModel;
use crate::signature;
use crate::signature::WalkModel;
use crate::wire;
use std::sync::Arc;
use vstd::prelude::*;

verus! {

/// The buffer that a client attaches to a surface is the one that the surface
/// will show, in the client's numbering, and it is not in flight for that.
pub proof fn lemma_attached_buffer_is_noted<F>(
    s: SessionModel<F>,
    fds: Seq<Arc<F>>,
    entries: Seq<(Seq<char>, Seq<u8>)>,
    frozen: bool,
    msg: Seq<u8>,
    surface: u32,
)
    requires
        event_laws::says(
            s,
            Direction::ClientToHost,
            msg,
            surface,
            "wl_surface"@,
            "attach"@,
            seq![ArgumentType::Object, ArgumentType::Int, ArgumentType::Int],
        ),
        msg.len() == 20,
        s.objects.host_id(surface) is Some,
        s.objects.host_id(wire::word_at(msg, 8)) is Some,
    ensures
        ({
            let r = relay::relay(s, fds, entries, Direction::ClientToHost, frozen, msg);
            &&& r.step.outcome == event_laws::sent_on(frozen)
            &&& Some(wire::word_at(r.step.bytes, 0)) == s.objects.host_id(surface)
            &&& Some(wire::word_at(r.step.bytes, 8)) == s.objects.host_id(wire::word_at(msg, 8))
            &&& wire::word_at(r.step.bytes, 12) == wire::word_at(msg, 12)
            &&& wire::word_at(r.step.bytes, 16) == wire::word_at(msg, 16)
            &&& r.session.flow.attached == s.flow.attached.insert(surface, wire::word_at(msg, 8))
            &&& r.session.flow.in_flight == s.flow.in_flight
            &&& r.session == (SessionModel { flow: r.session.flow, ..s })
        }),
{
    let direction = Direction::ClientToHost;
    let sig = seq![ArgumentType::Object, ArgumentType::Int, ArgumentType::Int];
    reveal_with_fuel(signature::walk_prefix, 4);
    assert(Seq::<usize>::empty().push(0usize) =~= seq![0usize]);
    let walk = WalkModel { object_offsets: seq![0usize], ..event_laws::no_ids() };
    assert(signature::walked(msg.skip(8), sig) == Ok::<WalkModel, Seq<char>>(walk));
    event_laws::lemma_says(s, direction, msg, surface, "wl_surface"@, "attach"@, sig);
    kind_laws::lemma_request_names("wl_surface"@, "attach"@);
    let offsets = seq![0usize];
    reveal_with_fuel(relay::translated_prefix, 2);
    let buffer_host = s.objects.host_id(wire::word_at(msg, 8))->0;
    let m = wire::with_word(msg, 8, buffer_host);
    assert(relay::translated(s.objects, direction, msg, offsets) == (m, true));
    assert(relay::object_values(msg, offsets) =~= seq![wire::word_at(msg, 8)]);
    wire::lemma_with_word(msg, 8, buffer_host);
    wire::lemma_with_word(m, 0, s.objects.host_id(surface)->0);
}

/// Committing a surface puts the buffer that is attached to it in flight, and
/// no other; where none is attached, nothing.
pub proof fn lemma_commit_puts_in_flight<F>(
    s: SessionModel<F>,
    fds: Seq<Arc<F>>,
    entries: Seq<(Seq<char>, Seq<u8>)>,
    frozen: bool,
    msg: Seq<u8>,
    surface: u32,
    b: u32,
)
    requires
        event_laws::says(
            s,
            Direction::ClientToHost,
            msg,
            surface,
            "wl_surface"@,
            "commit"@,
            seq![],
        ),
        s.objects.host_id(surface) is Some,
    ensures
        ({
            let r = relay::relay(s, fds, entries, Direction::ClientToHost, frozen, msg);
            &&& r.step.outcome == event_laws::sent_on(frozen)
            &&& Some(wire::word_at(r.step.bytes, 0)) == s.objects.host_id(surface)
            &&& r.step.bytes.skip(4) == msg.skip(4)
            &&& r.session.flow.in_flight.contains(b) <==> s.flow.in_flight.contains(b) || b != 0
                && relay::at_key(s.flow.attached, surface) == Some(b)
            &&& r.session.flow.attached == s.flow.attached
            &&& r.session == (SessionModel { flow: r.session.flow, ..s })
        }),
{
    let direction = Direction::ClientToHost;
    event_laws::lemma_walk_words(msg.skip(8), seq![], 0);
    event_laws::lemma_says(s, direction, msg, surface, "wl_surface"@, "commit"@, seq![]);
    kind_laws::lemma_request_names("wl_surface"@, "commit"@);
    assert(relay::translated(s.objects, direction, msg, Seq::empty()) == (msg, true));
    event_laws::lemma_readdressed(msg, s.objects.host_id(surface)->0);
}

/// A callback that a client asks for and that goes through is owed an answer,
/// under the client's number for it.
pub proof fn lemma_callback_is_owed<F>(
    s: SessionModel<F>,
    fds: Seq<Arc<F>>,
    entries: Seq<(Seq<char>, Seq<u8>)>,
    frozen: bool,
    msg: Seq<u8>,
    parent: u32,
    interface: Seq<char>,
    method: Seq<char>,
)
    requires
        ({
            ||| interface == "wl_surface"@ && method == "frame"@
            ||| interface == "wl_display"@ && method == "sync"@
        }),
        event_laws::says(
            s,
            Direction::ClientToHost,
            msg,
            parent,
            interface,
            method,
            seq![ArgumentType::NewId],
        ),
        replay_laws::desc_of(s.objects, parent, msg).child_interface is Some,
        msg.len() == 12,
        s.objects.host_id(parent) is Some,
        s.objects.host_id(parent) != Some(s.objects.next_host_id),
    ensures
        ({
            let callback = wire::word_at(msg, 8);
            let r = relay::relay(s, fds, entries, Direction::ClientToHost, frozen, msg);
            &&& r.step.outcome == event_laws::sent_on(frozen)
            &&& r.session.frames == s.frames.insert(callback)
            &&& r.session.graph == s.graph
            &&& r.session.flow == s.flow
        }),
{
    let direction = Direction::ClientToHost;
    let sig = seq![ArgumentType::NewId];
    replay_laws::lemma_walk_new_id(msg.skip(8), sig, 1);
    event_laws::lemma_says(s, direction, msg, parent, interface, method, sig);
    reveal_strlit("sync");
    reveal_strlit("delete_id");
    assert("sync"@.len() != "delete_id"@.len());
    kind_laws::lemma_request_names(interface, method);
    assert(relay::translated(s.objects, direction, msg, Seq::empty()) == (msg, true));
}

/// The title that a client gives a toplevel last is the title it gets again,
/// and its application id likewise; the other of the two stays what it was.
pub proof fn lemma_names_are_remembered<F>(
    s: SessionModel<F>,
    fds: Seq<Arc<F>>,
    entries: Seq<(Seq<char>, Seq<u8>)>,
    frozen: bool,
    msg: Seq<u8>,
    toplevel: u32,
    method: Seq<char>,
    text: Seq<char>,
    other: u32,
)
    requires
        method == "set_title"@ || method == "set_app_id"@,
        event_laws::says(
            s,
            Direction::ClientToHost,
            msg,
            toplevel,
            "xdg_toplevel"@,
            method,
            seq![ArgumentType::Str],
        ),
        msg.len() < usize::MAX,
        wire::str_opt(msg.skip(8), 0) == Some((text, msg.len() - 8)),
        s.objects.host_id(toplevel) is Some,
        recreation::recipe_of(s.graph, toplevel) is Some,
        recreation::recipe_of(s.graph, toplevel)->0 is XdgToplevel,
        other != toplevel,
    ensures
        ({
            let r = relay::relay(s, fds, entries, Direction::ClientToHost, frozen, msg);
            let before = recreation::recipe_of(s.graph, toplevel)->0;
            let after = recreation::recipe_of(r.session.graph, toplevel)->0;
            &&& r.step.outcome == event_laws::sent_on(frozen)
            &&& Some(wire::word_at(r.step.bytes, 0)) == s.objects.host_id(toplevel)
            &&& r.step.bytes.skip(4) == msg.skip(4)
            &&& recreation::recipe_of(r.session.graph, toplevel) is Some
            &&& after is XdgToplevel
            &&& after->XdgToplevel_parent_guest_id == before->XdgToplevel_parent_guest_id
            &&& after->title == if method == "set_title"@ {
                Some(text)
            } else {
                before->title
            }
            &&& after->app_id == if method == "set_app_id"@ {
                Some(text)
            } else {
                before->app_id
            }
            &&& recreation::recipe_of(r.session.graph, other) == recreation::recipe_of(
                s.graph,
                other,
            )
        }),
{
    let direction = Direction::ClientToHost;
    let sig = seq![ArgumentType::Str];
    let p = msg.skip(8);
    reveal_with_fuel(signature::walk_prefix, 2);
    event_laws::lemma_says(s, direction, msg, toplevel, "xdg_toplevel"@, method, sig);
    reveal_strlit("set_title");
    reveal_strlit("set_app_id");
    assert("set_title"@.len() != "set_app_id"@.len());
    kind_laws::lemma_request_names("xdg_toplevel"@, method);
    assert(relay::translated(s.objects, direction, msg, Seq::empty()) == (msg, true));
    event_laws::lemma_readdressed(msg, s.objects.host_id(toplevel)->0);
    recreation::lemma_title_is_replayed(s.graph, toplevel, text, other);
    recreation::lemma_app_id_is_replayed(s.graph, toplevel, text, other);
}

/// The destination that a client gives a viewport last is the one it gets
/// again: first the width, then the height.
pub proof fn lemma_destination_is_remembered<F>(
    s: SessionModel<F>,
    fds: Seq<Arc<F>>,
    entries: Seq<(Seq<char>, Seq<u8>)>,
    frozen: bool,
    msg: Seq<u8>,
    viewport: u32,
    other: u32,
)
    requires
        event_laws::says(
            s,
            Direction::ClientToHost,
            msg,
            viewport,
            "wp_viewport"@,
            "set_destination"@,
            seq![ArgumentType::Int, ArgumentType::Int],
        ),
        msg.len() == 16,
        s.objects.host_id(viewport) is Some,
        recreation::recipe_of(s.graph, viewport) is Some,
        recreation::recipe_of(s.graph, viewport)->0 is Viewport,
        other != viewport,
    ensures
        ({
            let r = relay::relay(s, fds, entries, Direction::ClientToHost, frozen, msg);
            let before = recreation::recipe_of(s.graph, viewport)->0;
            let after = recreation::recipe_of(r.session.graph, viewport)->0;
            &&& r.step.outcome == event_laws::sent_on(frozen)
            &&& r.step.bytes.skip(4) == msg.skip(4)
            &&& recreation::recipe_of(r.session.graph, viewport) is Some
            &&& after is Viewport
            &&& after->viewporter_guest_id == before->viewporter_guest_id
            &&& after->Viewport_surface_guest_id == before->Viewport_surface_guest_id
            &&& after->destination is Some
            &&& (after->destination->0).0 as u32 == wire::word_at(msg, 8)
            &&& (after->destination->0).1 as u32 == wire::word_at(msg, 12)
            &&& recreation::recipe_of(r.session.graph, other) == recreation::recipe_of(
                s.graph,
                other,
            )
        }),
{
    let direction = Direction::ClientToHost;
    let sig = seq![ArgumentType::Int, ArgumentType::Int];
    event_laws::lemma_walk_words(msg.skip(8), sig, 2);
    event_laws::lemma_says(
        s,
        direction,
        msg,
        viewport,
        "wp_viewport"@,
        "set_destination"@,
        sig,
    );
    kind_laws::lemma_request_names("wp_viewport"@, "set_destination"@);
    assert(relay::translated(s.objects, direction, msg, Seq::empty()) == (msg, true));
    event_laws::lemma_readdressed(msg, s.objects.host_id(viewport)->0);
    let w = wire::word_at(msg, 8);
    let h = wire::word_at(msg, 12);
    assert(wire::word_at(msg.skip(8), 0) == w && wire::word_at(msg.skip(8), 4) == h);
    replay_laws::lemma_signed_word(w);
    replay_laws::lemma_signed_word(h);
    recreation::lemma_destination_is_replayed(s.graph, viewport, w as i32, h as i32, other);
}

/// The size to which a client grows a pool last is the size it gets again, on
/// the same descriptor.
pub proof fn lemma_pool_size_is_remembered<F>(
    s: SessionModel<F>,
    fds: Seq<Arc<F>>,
    entries: Seq<(Seq<char>, Seq<u8>)>,
    frozen: bool,
    msg: Seq<u8>,
    pool: u32,
    other: u32,
)
    requires
        event_laws::says(
            s,
            Direction::ClientToHost,
            msg,
            pool,
            "wl_shm_pool"@,
            "resize"@,
            seq![ArgumentType::Int],
        ),
        msg.len() == 12,
        s.objects.host_id(pool) is Some,
        recreation::recipe_of(s.graph, pool) is Some,
        recreation::recipe_of(s.graph, pool)->0 is ShmPool,
        other != pool,
    ensures
        ({
            let r = relay::relay(s, fds, entries, Direction::ClientToHost, frozen, msg);
            let before = recreation::recipe_of(s.graph, pool)->0;
            let after = recreation::recipe_of(r.session.graph, pool)->0;
            &&& r.step.outcome == event_laws::sent_on(frozen)
            &&& r.step.bytes.skip(4) == msg.skip(4)
            &&& recreation::recipe_of(r.session.graph, pool) is Some
            &&& after is ShmPool
            &&& after->wl_shm_guest_id == before->wl_shm_guest_id
            &&& after->fd == before->fd
            &&& after->size as u32 == wire::word_at(msg, 8)
            &&& recreation::recipe_of(r.session.graph, other) == recreation::recipe_of(
                s.graph,
                other,
            )
        }),
{
    let direction = Direction::ClientToHost;
    let sig = seq![ArgumentType::Int];
    event_laws::lemma_walk_words(msg.skip(8), sig, 1);
    event_laws::lemma_says(s, direction, msg, pool, "wl_shm_pool"@, "resize"@, sig);
    kind_laws::lemma_request_names("wl_shm_pool"@, "resize"@);
    assert(relay::translated(s.objects, direction, msg, Seq::empty()) == (msg, true));
    event_laws::lemma_readdressed(msg, s.objects.host_id(pool)->0);
    let size = wire::word_at(msg, 8);
    assert(wire::word_at(msg.skip(8), 0) == size);
    replay_laws::lemma_signed_word(size);
    recreation::lemma_resize_is_replayed(s.graph, pool, size as i32, other);
}

/// An acknowledgement of what the proxy had asked for goes nowhere and is then
/// done with; any other acknowledgement goes on to the compositor.
pub proof fn lemma_acknowledgements<F>(
    s: SessionModel<F>,
    fds: Seq<Arc<F>>,
    entries: Seq<(Seq<char>, Seq<u8>)>,
    frozen: bool,
    msg: Seq<u8>,
    surface: u32,
)
    requires
        event_laws::says(
            s,
            Direction::ClientToHost,
            msg,
            surface,
            "xdg_surface"@,
            "ack_configure"@,
            seq![ArgumentType::Uint],
        ),
        msg.len() == 12,
        s.objects.host_id(surface) is Some,
    ensures
        ({
            let r = relay::relay(s, fds, entries, Direction::ClientToHost, frozen, msg);
            if s.acks.contains_key(surface) && s.acks[surface] == wire::word_at(msg, 8) {
                &&& r.step.outcome is AckSwallowed
                &&& r.session == (SessionModel { acks: s.acks.remove(surface), ..s })
            } else {
                &&& r.step.outcome == event_laws::sent_on(frozen)
                &&& Some(wire::word_at(r.step.bytes, 0)) == s.objects.host_id(surface)
                &&& r.step.bytes.skip(4) == msg.skip(4)
                &&& r.session == s
            }
        }),
{
    let direction = Direction::ClientToHost;
    let sig = seq![ArgumentType::Uint];
    event_laws::lemma_walk_words(msg.skip(8), sig, 1);
    event_laws::lemma_says(
        s,
        direction,
        msg,
        surface,
        "xdg_surface"@,
        "ack_configure"@,
        sig,
    );
    kind_laws::lemma_request_names("xdg_surface"@, "ack_configure"@);
    assert(relay::translated(s.objects, direction, msg, Seq::empty()) == (msg, true));
    event_laws::lemma_readdressed(msg, s.objects.host_id(surface)->0);
    assert(wire::word_at(msg.skip(8), 0) == wire::word_at(msg, 8));
}

/// Whether a request leaves a recipe behind, or changes one.
pub open spec fn is_recorded(interface: Seq<char>, method: Seq<char>) -> bool {
    ||| interface == "wl_registry"@ && method == "bind"@
    ||| interface == "wl_compositor"@ && method == "create_surface"@
    ||| interface == "xdg_wm_base"@ && method == "get_xdg_surface"@
    ||| interface == "xdg_surface"@ && method == "get_toplevel"@
    ||| interface == "wl_shm"@ && method == "create_pool"@
    ||| interface == "wl_shm_pool"@ && (method == "create_buffer"@ || method == "resize"@)
    ||| interface == "zwp_linux_buffer_params_v1"@ && method == "create_immed"@
    ||| interface == "wl_seat"@ && (method == "get_pointer"@ || method == "get_keyboard"@ || method
        == "get_touch"@)
    ||| interface == "wp_viewporter"@ && method == "get_viewport"@
    ||| interface == "wp_viewport"@ && method == "set_destination"@
    ||| interface == "wp_fractional_scale_manager_v1"@ && method == "get_fractional_scale"@
    ||| interface == "xdg_toplevel"@ && (method == "set_title"@ || method == "set_app_id"@)
}

/// Each tracker heeds the messages that concern it, and no others.
pub proof fn lemma_trackers_heed_their_own<F>(
    s: SessionModel<F>,
    fds: Seq<Arc<F>>,
    entries: Seq<(Seq<char>, Seq<u8>)>,
    direction: Direction,
    frozen: bool,
    msg: Seq<u8>,
)
    requires
        relay_laws::addressed(s, direction, msg) is Some,
    ensures
        ({
            let a = relay_laws::addressed(s, direction, msg)->0;
            let i = a.interface.name;
            let m = a.desc.name;
            let r = relay::relay(s, fds, entries, direction, frozen, msg);
            let o = r.step.outcome;
            &&& r.session.flow != s.flow ==> match direction {
                Direction::ClientToHost => i == "wl_surface"@ && (m == "attach"@ || m == "commit"@),
                Direction::HostToClient => i == "wl_buffer"@ && m == "release"@,
            }
            &&& r.session.frames != s.frames ==> match direction {
                Direction::ClientToHost => i == "wl_surface"@ && m == "frame"@ || i
                    == "wl_display"@ && m == "sync"@,
                Direction::HostToClient => i == "wl_callback"@ && m == "done"@,
            }
            &&& r.session.grabs != s.grabs ==> direction is HostToClient && (i == "wl_pointer"@ && (
            m == "enter"@ || m == "leave"@ || m == "button"@) || i == "wl_keyboard"@ && (m
                == "enter"@ || m == "leave"@))
            &&& r.session.acks != s.acks ==> o is AckSwallowed
            &&& r.session.planes != s.planes ==> direction is ClientToHost && (i
                == "zwp_linux_dmabuf_v1"@ && m == "create_params"@ || i
                == "zwp_linux_buffer_params_v1"@ && (m == "create_immed"@ || m == "add"@))
            &&& r.session.graph != s.graph && !(o is DroppedSenderless) && !(i == "wl_display"@ && m
                == "delete_id"@) ==> direction is ClientToHost && is_recorded(i, m)
            &&& r.session.reclaim != s.reclaim ==> direction is HostToClient
                && kind_laws::lends_serial(i, m)
        }),
{
    let a = relay_laws::addressed(s, direction, msg)->0;
    kind_laws::lemma_request_names(a.interface.name, a.desc.name);
    kind_laws::lemma_event_names(a.interface.name, a.desc.name);
    kind_laws::lemma_input_serial_names(direction, a.interface.name, a.desc.name);
}

} // verus!
