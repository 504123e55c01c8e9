//! How a recovery begins and ends: what is asked first, what is noted of the
//! answer, and what the client is told of what the dead compositor owed it.
use crate::clipboard_laws;
use crate::interfaces;
use crate::kinds;
use crate::outcome_laws;
use crate::recovery;
use crate::recovery::{FetchModel, Globals};
use crate::relay;
use crate::schema;
use crate::session::SessionModel;
use crate::shadow_table;
use crate::shadow_table::TableModel;
use crate::wire;
use crate::wire::HEADER_LEN;
use vstd::prelude::*;

verus! {

/// The names of the globals are told apart.
proof fn lemma_global_names()
    ensures
        "wl_compositor"@ != "wp_viewporter"@,
        "wl_compositor"@.len() == 13,
        "xdg_wm_base"@.len() == 11,
        "wl_shm"@.len() == 6,
        "zwp_linux_dmabuf_v1"@.len() == 19,
        "wl_seat"@.len() == 7,
        "wp_viewporter"@.len() == 13,
        "wp_fractional_scale_manager_v1"@.len() == 30,
        "wl_data_device_manager"@.len() == 22,
{
    reveal_strlit("wl_compositor");
    reveal_strlit("xdg_wm_base");
    reveal_strlit("wl_shm");
    reveal_strlit("zwp_linux_dmabuf_v1");
    reveal_strlit("wl_seat");
    reveal_strlit("wp_viewporter");
    reveal_strlit("wp_fractional_scale_manager_v1");
    reveal_strlit("wl_data_device_manager");
    assert("wl_compositor"@[1] != "wp_viewporter"@[1]);
}

/// Whether globals of this interface are bound again for the client.
pub open spec fn is_bound_again(interface: Seq<char>) -> bool {
    ||| interface == "wl_compositor"@
    ||| interface == "wl_shm"@
    ||| interface == "wl_seat"@
    ||| interface == "xdg_wm_base"@
    ||| interface == "zwp_linux_dmabuf_v1"@
    ||| interface == "wp_viewporter"@
    ||| interface == "wp_fractional_scale_manager_v1"@
}

/// The global that was advertised last for an interface is the one that objects
/// of that interface are recreated from, and what is known of the others stays.
/// That goes for exactly the interfaces whose globals are recreated, and the
/// clipboard's manager is kept for the clipboard.
pub proof fn lemma_advertised_global_is_found(
    globals: Globals,
    interface: Seq<char>,
    global: (u32, u32),
    other: Seq<char>,
)
    ensures
        is_bound_again(interface) ==> globals.with(interface, global).root(interface) == Some(
            global,
        ),
        !is_bound_again(interface) ==> globals.root(interface) is None,
        other != interface ==> globals.with(interface, global).root(other) == globals.root(other),
        globals.with(interface, global).wl_data_device_manager == if interface
            == "wl_data_device_manager"@ {
            Some(global)
        } else {
            globals.wl_data_device_manager
        },
        Globals::none().root(interface) is None,
        Globals::none().wl_data_device_manager is None,
        kinds::is_root_name(interface) <==> is_bound_again(interface),
{
    lemma_global_names();
}

/// Whatever is bound again is known by name, and so are the display, the
/// registry and the clipboard's manager: a client can have bound it in the first
/// place.
pub proof fn lemma_bound_again_is_bindable(interface: Seq<char>)
    requires
        is_bound_again(interface) || interface == "wl_display"@ || interface == "wl_registry"@
            || interface == "wl_data_device_manager"@,
    ensures
        interfaces::bindable_names().contains(interface),
{
    let core = interfaces::core_names();
    let desktop = interfaces::desktop_names();
    let all = interfaces::bindable_names();
    assert(forall|i: int| 0 <= i < core.len() ==> all[i] == #[trigger] core[i]);
    assert(forall|i: int|
        0 <= i < desktop.len() ==> all[core.len() + i] == #[trigger] desktop[i]);
    assert(core[0] == "wl_display"@);
    assert(core[1] == "wl_registry"@);
    assert(core[3] == "wl_compositor"@);
    assert(core[5] == "wl_shm"@);
    assert(core[10] == "wl_data_device_manager"@);
    assert(core[14] == "wl_seat"@);
    assert(core[23] == "xdg_wm_base"@);
    assert(desktop[0] == "zwp_linux_dmabuf_v1"@);
    assert(desktop[2] == "wp_viewporter"@);
    assert(desktop[4] == "wp_fractional_scale_manager_v1"@);
}

/// An advertisement reads as what the compositor wrote: the name, the interface
/// and the version, in this order.
pub proof fn lemma_advertisement_is_read(
    globals: Globals,
    name: u32,
    interface: Seq<char>,
    version: u32,
)
    requires
        clipboard_laws::fits_message(interface),
        is_bound_again(interface),
    ensures
        recovery::globals_after(
            globals,
            wire::word_bytes(name) + wire::str_bytes(interface) + wire::word_bytes(version),
        ).root(interface) == Some((name, version)),
{
    let a = wire::word_bytes(name);
    let b = wire::str_bytes(interface);
    let c = wire::word_bytes(version);
    let p = a + b + c;
    wire::lemma_words_read(name, version, 0, 0);
    wire::lemma_words_read(version, 0, 0, 0);
    wire::lemma_word_appended(Seq::empty(), name, b + c);
    assert(p =~= Seq::<u8>::empty() + a + (b + c));
    wire::lemma_str_appended(a, interface, c);
    wire::lemma_word_appended(a + b, version, Seq::empty());
    assert(p =~= a + b + c + Seq::<u8>::empty());
    lemma_advertised_global_is_found(globals, interface, (name, version), interface);
}

/// Reading the registry heeds the registry and the callback behind it.  An
/// advertisement counts and reading goes on; the callback's `done` ends it with
/// the bytes behind it unread; what others send is passed over.
pub proof fn lemma_registry_is_read(
    fetch: FetchModel,
    sender: u32,
    opcode: u16,
    payload: Seq<u8>,
    rest: Seq<u8>,
)
    requires
        HEADER_LEN + payload.len() < 0x1_0000,
        fetch.registry_host_id != fetch.sync_host_id,
    ensures
        ({
            let buf = wire::message_bytes(sender, opcode, payload) + rest;
            let r = recovery::fetched(fetch, buf);
            &&& sender == fetch.registry_host_id && opcode == 0 ==> r == recovery::fetched(
                (FetchModel {
                    globals: recovery::globals_after(fetch.globals, payload),
                    ..fetch
                }),
                rest,
            )
            &&& sender == fetch.sync_host_id && opcode == 0 ==> r == (fetch, rest, true)
            &&& sender != fetch.registry_host_id && sender != fetch.sync_host_id ==> r
                == recovery::fetched(fetch, rest)
            &&& opcode != 0 ==> r == recovery::fetched(fetch, rest)
        }),
{
    wire::lemma_built_message_splits_off(sender, opcode, payload, rest);
    wire::lemma_built_message_reads(sender, opcode, payload);
    wire::lemma_message_len(sender, opcode, payload);
}

/// A recovery begins where the client has a registry: the display is asked for
/// a registry and then for a callback, under the next two numbers, which are
/// spent; a clipboard source of the connection before is forgotten.
pub proof fn lemma_recovery_opens<F>(s: SessionModel<F>)
    requires
        s.has_room(),
    ensures
        recovery::recovery_start(s) is Some <==> exists|id: u32| s.objects.is_a(id, "wl_registry"@),
        recovery::recovery_start(s) matches Some(fetch) ==> ({
            let m = recovery::opening(fetch);
            let next = s.objects.next_host_id;
            &&& m.len() == 2
            &&& wire::is_message(m[0], 1, 1) && m[0].len() == 12
            &&& wire::word_at(m[0], 8) == next
            &&& wire::is_message(m[1], 1, 0) && m[1].len() == 12
            &&& wire::word_at(m[1], 8) == next + 1
            &&& fetch.registry_host_id == next
            &&& fetch.sync_host_id == next + 1
            &&& recovery::begun(s).objects.next_host_id == next + 2
            &&& fetch.registry_interface.name == "wl_registry"@
            &&& s.objects.interface(fetch.registry_guest_id) == Some(fetch.registry_interface)
            &&& fetch.globals == Globals::none()
        }),
        recovery::begun(s).reclaim.active_source_host_id is None,
        recovery::begun(s).graph == s.graph,
        recovery::begun(s).flow == s.flow,
        recovery::begun(s).frames == s.frames,
{
    recovery::lemma_first_named(s.objects, "wl_registry"@);
    if let Some(fetch) = recovery::recovery_start(s) {
        let a = fetch.registry_host_id;
        let b = fetch.sync_host_id;
        wire::lemma_words_read(a, 0, 0, 0);
        wire::lemma_words_read(b, 0, 0, 0);
        wire::lemma_built_message_reads(1, 1, wire::word_bytes(a));
        wire::lemma_built_message_reads(1, 0, wire::word_bytes(b));
        assert(wire::word_at(wire::word_bytes(a), 0) == a);
        assert(wire::word_at(wire::word_bytes(b), 0) == b);
    }
}

/// The fresh registry stands for the client's own, and nothing else changes.
pub proof fn lemma_registry_is_adopted<F>(s: SessionModel<F>, fetch: FetchModel)
    requires
        s.objects.wf(),
        fetch.registry_guest_id != 0,
        fetch.registry_host_id != 0,
    ensures
        ({
            let r = recovery::with_registry(s, fetch);
            &&& r.objects.host_id(fetch.registry_guest_id) == Some(fetch.registry_host_id)
            &&& r.objects.guest_id(fetch.registry_host_id) == Some(fetch.registry_guest_id)
            &&& r.objects.interface(fetch.registry_guest_id) == Some(fetch.registry_interface)
            &&& r.objects.next_host_id == s.objects.next_host_id
            &&& r == (SessionModel { objects: r.objects, ..s })
        }),
{
    shadow_table::lemma_mapped_translates(
        s.objects,
        fetch.registry_guest_id,
        fetch.registry_host_id,
        fetch.registry_interface,
        0,
    );
}

/// Behind a recovery nothing is in flight and nothing is owed; the clipboard
/// waits for its one chance, on the manager that the new compositor has; what
/// is attached, recorded and mapped is as it was.
pub proof fn lemma_recovery_ends<F>(s: SessionModel<F>, fetch: FetchModel)
    ensures
        ({
            let r = recovery::finished(s, fetch);
            &&& forall|b: u32| !(#[trigger] r.flow.in_flight.contains(b))
            &&& r.flow.attached == s.flow.attached
            &&& forall|c: u32| !(#[trigger] r.frames.contains(c))
            &&& r.reclaim.pending
            &&& r.reclaim.data_device_manager_global == fetch.globals.wl_data_device_manager
            &&& r.reclaim.active_source_host_id == s.reclaim.active_source_host_id
            &&& r.objects == s.objects
            &&& r.graph == s.graph
            &&& r.grabs == s.grabs
            &&& r.acks == s.acks
            &&& r.planes == s.planes
        }),
{
}

/// Whether `msg` tells the client that `buffer` is its own again.
pub open spec fn gives_back(t: TableModel, msg: Seq<u8>, buffer: u32) -> bool {
    &&& wire::is_message(
        msg,
        buffer,
        schema::opcode_named(t.interface(buffer)->0.events, "release"@)->0,
    )
    &&& msg.len() == 8
}

/// Whether `msg` answers the callback `callback`.
pub open spec fn answers(t: TableModel, msg: Seq<u8>, callback: u32) -> bool {
    &&& wire::is_message(
        msg,
        callback,
        schema::opcode_named(t.interface(callback)->0.events, "done"@)->0,
    )
    &&& msg.len() == 12
    &&& wire::word_at(msg, 8) == 0
}

/// Whether `buffer` exists again and can be given back.
pub open spec fn can_give_back(t: TableModel, buffer: u32) -> bool {
    t.host_id(buffer) is Some && outcome_laws::has_event(t.interface(buffer), "release"@)
}

/// The first `n` of a list of buffers, without those that cannot be given back.
spec fn returnable(t: TableModel, buffers: Seq<u32>, n: int) -> Seq<u32>
    decreases n,
{
    if n <= 0 {
        Seq::empty()
    } else if can_give_back(t, buffers[n - 1]) {
        returnable(t, buffers, n - 1).push(buffers[n - 1])
    } else {
        returnable(t, buffers, n - 1)
    }
}

/// Each that can be given back is in there, once, and nothing else is.
proof fn lemma_returnable(t: TableModel, buffers: Seq<u32>, n: int)
    requires
        0 <= n <= buffers.len(),
    ensures
        ({
            let r = returnable(t, buffers, n);
            &&& forall|i: int|
                0 <= i < r.len() ==> can_give_back(t, #[trigger] r[i]) && buffers.take(n).contains(
                    r[i],
                )
            &&& forall|k: int|
                0 <= k < n && can_give_back(t, #[trigger] buffers[k]) ==> r.contains(buffers[k])
            &&& buffers.no_duplicates() ==> r.no_duplicates()
        }),
    decreases n,
{
    if n > 0 {
        lemma_returnable(t, buffers, n - 1);
        let before = returnable(t, buffers, n - 1);
        let r = returnable(t, buffers, n);
        let shorter = buffers.take(n - 1);
        let longer = buffers.take(n);
        assert(longer[n - 1] == buffers[n - 1]);
        assert forall|i: int| 0 <= i < r.len() implies can_give_back(t, #[trigger] r[i])
            && longer.contains(r[i]) by {
            if i < before.len() {
                assert(r[i] == before[i]);
                let k = choose|k: int| 0 <= k < shorter.len() && shorter[k] == before[i];
                assert(longer[k] == before[i]);
            }
        }
        assert forall|k: int| 0 <= k < n && can_give_back(t, #[trigger] buffers[k]) implies r.contains(
        buffers[k]) by {
            if k < n - 1 {
                let i = choose|i: int| 0 <= i < before.len() && before[i] == buffers[k];
                assert(r[i] == buffers[k]);
            } else {
                assert(r[r.len() - 1] == buffers[k]);
            }
        }
        if buffers.no_duplicates() && can_give_back(t, buffers[n - 1]) {
            assert forall|i: int| 0 <= i < before.len() implies before[i] != buffers[n - 1] by {
                assert(shorter.contains(before[i]));
                let k = choose|k: int| 0 <= k < shorter.len() && shorter[k] == before[i];
                assert(buffers[k] == before[i]);
            }
        }
    }
}

/// What the first `n` of a list of buffers come to: one message for each that
/// can be given back.
proof fn lemma_given_back(t: TableModel, buffers: Seq<u32>, n: int)
    requires
        0 <= n <= buffers.len(),
        forall|k: int|
            0 <= k < buffers.len() && t.interface(#[trigger] buffers[k]) is Some ==> t.interface(
                buffers[k],
            )->0.events.len() <= 0x1_0000,
    ensures
        ({
            let m = recovery::release_messages(t, buffers, n);
            let r = returnable(t, buffers, n);
            &&& m.len() == r.len()
            &&& forall|i: int| 0 <= i < r.len() ==> gives_back(t, #[trigger] m[i], r[i])
        }),
    decreases n,
{
    if n > 0 {
        lemma_given_back(t, buffers, n - 1);
        let buffer = buffers[n - 1];
        if can_give_back(t, buffer) {
            let opcode = schema::opcode_named(t.interface(buffer)->0.events, "release"@)->0;
            wire::lemma_built_message_reads(buffer, opcode, Seq::empty());
        }
    }
}

/// What the first `n` of a list of callbacks come to: two messages each.
proof fn lemma_answered(t: TableModel, callbacks: Seq<u32>, n: int)
    requires
        0 <= n <= callbacks.len(),
        outcome_laws::has_event(t.interface(1), "delete_id"@),
        forall|k: int|
            0 <= k < callbacks.len() ==> outcome_laws::has_event(
                t.interface(#[trigger] callbacks[k]),
                "done"@,
            ),
    ensures
        ({
            let m = recovery::done_messages(t, callbacks, n);
            &&& m.len() == 2 * n
            &&& forall|k: int|
                0 <= k < n ==> answers(t, m[2 * k], #[trigger] callbacks[k])
                    && outcome_laws::frees(t, m[2 * k + 1], callbacks[k])
        }),
    decreases n,
{
    if n > 0 {
        lemma_answered(t, callbacks, n - 1);
        let callback = callbacks[n - 1];
        let before = recovery::done_messages(t, callbacks, n - 1);
        let more = relay::frame_done_messages(t, callback);
        let m = recovery::done_messages(t, callbacks, n);
        lemma_callback_answer(t, callback);
        assert forall|k: int| 0 <= k < n implies answers(t, m[2 * k], #[trigger] callbacks[k])
            && outcome_laws::frees(t, m[2 * k + 1], callbacks[k]) by {
            if k < n - 1 {
                assert(m[2 * k] == before[2 * k] && m[2 * k + 1] == before[2 * k + 1]);
            } else {
                assert(m[2 * k] == more[0] && m[2 * k + 1] == more[1]);
            }
        }
    }
}

/// A callback that nobody else will answer is answered in two messages: `done`,
/// and then its number is free.
pub proof fn lemma_callback_answer(t: TableModel, callback: u32)
    requires
        outcome_laws::has_event(t.interface(1), "delete_id"@),
        outcome_laws::has_event(t.interface(callback), "done"@),
    ensures
        ({
            let m = relay::frame_done_messages(t, callback);
            &&& m.len() == 2
            &&& answers(t, m[0], callback)
            &&& outcome_laws::frees(t, m[1], callback)
        }),
{
    let opcode = schema::opcode_named(t.interface(callback)->0.events, "done"@)->0;
    wire::lemma_words_read(0, 0, 0, 0);
    wire::lemma_built_message_reads(callback, opcode, wire::word_bytes(0));
    assert(wire::word_at(wire::word_bytes(0), 0) == 0);
    outcome_laws::lemma_freeing(t, callback);
}

/// What the dead compositor owed is settled once and for all.  The first
/// messages give back buffers: each that is in flight and exists again gets
/// exactly one release, and nothing else does.  Behind them every callback that
/// is owed an answer gets it, followed by word that its number is free, and no
/// callback gets two.
pub proof fn lemma_debts_are_settled(
    t: TableModel,
    in_flight: Set<u32>,
    frames: Set<u32>,
    messages: Seq<Seq<u8>>,
)
    requires
        recovery::settles(t, in_flight, frames, messages),
        outcome_laws::has_event(t.interface(1), "delete_id"@),
        forall|c: u32| #[trigger]
            frames.contains(c) ==> outcome_laws::has_event(t.interface(c), "done"@),
        forall|b: u32| #[trigger]
            in_flight.contains(b) && t.interface(b) is Some ==> t.interface(b)->0.events.len()
                <= 0x1_0000,
    ensures
        exists|m: int| #[trigger] settled_at(t, in_flight, frames, messages, m),
{
    let (buffers, callbacks) = choose|buffers: Seq<u32>, callbacks: Seq<u32>| #[trigger]
        recovery::enumerates(buffers, in_flight) && #[trigger] recovery::enumerates(
            callbacks,
            frames,
        ) && messages == recovery::release_messages(t, buffers, buffers.len() as int)
            + recovery::done_messages(t, callbacks, callbacks.len() as int);
    let a = recovery::release_messages(t, buffers, buffers.len() as int);
    let b = recovery::done_messages(t, callbacks, callbacks.len() as int);
    let m = a.len() as int;
    assert forall|k: int|
        0 <= k < buffers.len() && t.interface(#[trigger] buffers[k]) is Some implies t.interface(
        buffers[k],
    )->0.events.len() <= 0x1_0000 by {
        assert(buffers.to_set().contains(buffers[k]));
        assert(in_flight.contains(buffers[k]));
    }
    assert forall|k: int| 0 <= k < callbacks.len() implies outcome_laws::has_event(
        t.interface(#[trigger] callbacks[k]),
        "done"@,
    ) by {
        assert(callbacks.to_set().contains(callbacks[k]));
        assert(frames.contains(callbacks[k]));
    }
    lemma_given_back(t, buffers, buffers.len() as int);
    lemma_answered(t, callbacks, callbacks.len() as int);
    let r = returnable(t, buffers, buffers.len() as int);
    lemma_returnable(t, buffers, buffers.len() as int);
    assert(buffers.take(buffers.len() as int) =~= buffers);
    assert forall|i: int| 0 <= i < m implies in_flight.contains(
        wire::word_at(#[trigger] messages[i], 0),
    ) && can_give_back(t, wire::word_at(messages[i], 0)) && gives_back(
        t,
        messages[i],
        wire::word_at(messages[i], 0),
    ) by {
        assert(messages[i] == a[i]);
        assert(gives_back(t, a[i], r[i]));
        assert(buffers.contains(r[i]));
        assert(buffers.to_set().contains(r[i]));
    }
    assert forall|i: int, j: int| 0 <= i < j < m implies wire::word_at(#[trigger] messages[i], 0)
        != wire::word_at(#[trigger] messages[j], 0) by {
        assert(messages[i] == a[i] && messages[j] == a[j]);
        assert(gives_back(t, a[i], r[i]) && gives_back(t, a[j], r[j]));
        assert(r[i] != r[j]);
    }
    assert forall|buffer: u32| #[trigger]
        in_flight.contains(buffer) && can_give_back(t, buffer) implies exists|i: int|
        0 <= i < m && gives_back(t, #[trigger] messages[i], buffer) by {
        assert(buffers.to_set().contains(buffer));
        let k = choose|k: int| 0 <= k < buffers.len() && buffers[k] == buffer;
        assert(can_give_back(t, buffers[k]));
        let i = choose|i: int| 0 <= i < r.len() && r[i] == buffer;
        assert(gives_back(t, a[i], r[i]));
        assert(messages[i] == a[i]);
    }
    assert(recovery::enumerates(callbacks, frames));
    assert forall|k: int| 0 <= k < callbacks.len() implies answers(
        t,
        messages[m + 2 * k],
        #[trigger] callbacks[k],
    ) && outcome_laws::frees(t, messages[m + 2 * k + 1], callbacks[k]) by {
        assert(messages[m + 2 * k] == b[2 * k]);
        assert(messages[m + 2 * k + 1] == b[2 * k + 1]);
    }
    assert forall|c: u32| frames.contains(c) <==> #[trigger] callbacks.contains(c) by {
        assert(callbacks.to_set().contains(c) <==> callbacks.contains(c));
    }
    assert(answered_behind(t, frames, messages, m, callbacks));
    assert(settled_at(t, in_flight, frames, messages, m));
}

/// Whether the first `m` messages give back the buffers, and the rest answers
/// the callbacks.
pub open spec fn settled_at(
    t: TableModel,
    in_flight: Set<u32>,
    frames: Set<u32>,
    messages: Seq<Seq<u8>>,
    m: int,
) -> bool {
    &&& 0 <= m <= messages.len()
    &&& forall|i: int|
        0 <= i < m ==> in_flight.contains(wire::word_at(#[trigger] messages[i], 0))
            && can_give_back(t, wire::word_at(messages[i], 0)) && gives_back(
            t,
            messages[i],
            wire::word_at(messages[i], 0),
        )
    &&& forall|i: int, j: int|
        0 <= i < j < m ==> wire::word_at(#[trigger] messages[i], 0) != wire::word_at(
            #[trigger] messages[j],
            0,
        )
    &&& forall|buffer: u32| #[trigger]
        in_flight.contains(buffer) && can_give_back(t, buffer) ==> exists|i: int|
            0 <= i < m && gives_back(t, #[trigger] messages[i], buffer)
    &&& exists|callbacks: Seq<u32>| #[trigger]
        answered_behind(t, frames, messages, m, callbacks)
}

/// Whether the messages from `m` on answer these callbacks, which are those
/// that are owed an answer, each once.
pub open spec fn answered_behind(
    t: TableModel,
    frames: Set<u32>,
    messages: Seq<Seq<u8>>,
    m: int,
    callbacks: Seq<u32>,
) -> bool {
    &&& callbacks.no_duplicates()
    &&& forall|c: u32| frames.contains(c) <==> #[trigger] callbacks.contains(c)
    &&& messages.len() == m + 2 * callbacks.len()
    &&& forall|k: int|
        0 <= k < callbacks.len() ==> answers(t, messages[m + 2 * k], #[trigger] callbacks[k])
            && outcome_laws::frees(t, messages[m + 2 * k + 1], callbacks[k])
}

} // verus!
