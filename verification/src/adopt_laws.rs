//! What an object that exists again is told, and what its client is told.
use crate::arguments;
use crate::arguments::ValueModel;
use crate::clipboard_laws;
use crate::recovery;
use crate::recovery::FollowUpModel;
use crate::recreation::Recipe;
use crate::schema;
use crate::schema::{ArgumentType, InterfaceModel, MessageModel};
use crate::session::SessionModel;
use crate::shadow_table;
use crate::wire;
use vstd::prelude::*;

verus! {

/// Whether one of `messages` has this name, with this signature, and there are
/// no more of them than opcodes can tell apart.
pub open spec fn lists(
    messages: Seq<MessageModel>,
    name: Seq<char>,
    signature: Seq<ArgumentType>,
) -> bool {
    &&& messages.len() <= 0x1_0000
    &&& schema::opcode_named(messages, name) is Some
    &&& messages[schema::opcode_named(messages, name)->0 as int].signature == signature
}

/// Whether a follow-up is a request on host object `host`, called `name` in its
/// interface.
pub open spec fn is_request<F>(
    f: FollowUpModel<F>,
    interface: InterfaceModel,
    host: u32,
    name: Seq<char>,
) -> bool {
    &&& !f.to_client
    &&& wire::is_message(
        f.message.bytes,
        host,
        schema::opcode_named(interface.requests, name)->0,
    )
    &&& f.message.fds.len() == 0
}

/// Whether a follow-up is an event on the client's object `guest`, called
/// `name` in its interface.
pub open spec fn is_event<F>(
    f: FollowUpModel<F>,
    interface: InterfaceModel,
    guest: u32,
    name: Seq<char>,
) -> bool {
    &&& f.to_client
    &&& wire::is_message(
        f.message.bytes,
        guest,
        schema::opcode_named(interface.events, name)->0,
    )
    &&& f.message.fds.len() == 0
}

/// The text that a message of one string argument carries.
pub open spec fn text_carried<F>(f: FollowUpModel<F>) -> Option<(Seq<char>, int)> {
    wire::str_opt(f.message.bytes.skip(8), 0)
}

/// Two messages of different names have different opcodes.
proof fn lemma_opcodes_differ(messages: Seq<MessageModel>, a: Seq<char>, b: Seq<char>)
    requires
        messages.len() <= 0x1_0000,
        schema::opcode_named(messages, a) is Some,
        schema::opcode_named(messages, b) is Some,
        a != b,
    ensures
        schema::opcode_named(messages, a)->0 != schema::opcode_named(messages, b)->0,
{
    schema::lemma_opcode_named(messages, a);
    schema::lemma_opcode_named(messages, b);
}

/// A text that is there is asked for in one request that carries it; one that
/// is not there is not asked for.
proof fn lemma_text_is_asked_for<F>(
    interface: InterfaceModel,
    host: u32,
    name: Seq<char>,
    text: Option<Seq<char>>,
)
    requires
        lists(interface.requests, name, seq![ArgumentType::Str]),
        text is Some ==> clipboard_laws::fits_message(text->0),
    ensures
        ({
            let f = recovery::follow_text::<F>(interface, host, name, text);
            &&& f.len() == (if text is Some { 1nat } else { 0 })
            &&& text is Some ==> is_request(f[0], interface, host, name) && text_carried(f[0])
                == Some((text->0, f[0].message.bytes.len() - 8))
        }),
{
    if let Some(text) = text {
        let values = seq![ValueModel::<F>::String(text)];
        let opcode = schema::opcode_named(interface.requests, name)->0;
        let signature = interface.requests[opcode as int].signature;
        reveal_with_fuel(arguments::encoded_prefix, 2);
        reveal_with_fuel(arguments::fds_prefix, 2);
        assert(Seq::<u8>::empty() + wire::str_bytes(text) =~= wire::str_bytes(text));
        assert(arguments::encoded(signature, values) == Ok::<Seq<u8>, arguments::EncodeError>(
            wire::str_bytes(text),
        ));
        clipboard_laws::lemma_text_message(host, opcode, text);
    }
}

/// A toplevel that exists again is told its title under `set_title` and its
/// application id under `set_app_id`, each exactly once and in this order,
/// where the client had given them, and nothing else is asked of the
/// compositor.
pub proof fn lemma_toplevel_is_told_its_names<F>(
    s: SessionModel<F>,
    guest: u32,
    recipe: Recipe<F>,
    host: u32,
    interface: InterfaceModel,
    serial: u32,
)
    requires
        recipe is XdgToplevel,
        lists(interface.requests, "set_title"@, seq![ArgumentType::Str]),
        lists(interface.requests, "set_app_id"@, seq![ArgumentType::Str]),
        recipe->title is Some ==> clipboard_laws::fits_message(recipe->title->0),
        recipe->app_id is Some ==> clipboard_laws::fits_message(recipe->app_id->0),
    ensures
        ({
            let f = recovery::adopted(s, guest, recipe, host, interface, serial).follow_ups;
            let behind_title = if recipe->title is Some { 1int } else { 0 };
            &&& forall|i: int|
                0 <= i < f.len() ==> (is_request(#[trigger] f[i], interface, host, "set_title"@)
                    <==> recipe->title is Some && i == 0)
            &&& forall|i: int|
                0 <= i < f.len() ==> (is_request(#[trigger] f[i], interface, host, "set_app_id"@)
                    <==> recipe->app_id is Some && i == behind_title)
            &&& recipe->title is Some ==> f.len() > 0 && text_carried(f[0]) == Some(
                (recipe->title->0, f[0].message.bytes.len() - 8),
            )
            &&& recipe->app_id is Some ==> f.len() > behind_title && text_carried(f[behind_title])
                == Some((recipe->app_id->0, f[behind_title].message.bytes.len() - 8))
            &&& forall|i: int|
                0 <= i < f.len() && !(#[trigger] f[i]).to_client ==> is_request(
                    f[i],
                    interface,
                    host,
                    "set_title"@,
                ) || is_request(f[i], interface, host, "set_app_id"@)
        }),
{
    reveal_strlit("set_title");
    reveal_strlit("set_app_id");
    assert("set_title"@.len() != "set_app_id"@.len());
    lemma_opcodes_differ(interface.requests, "set_title"@, "set_app_id"@);
    lemma_text_is_asked_for::<F>(interface, host, "set_title"@, recipe->title);
    lemma_text_is_asked_for::<F>(interface, host, "set_app_id"@, recipe->app_id);
    let f = recovery::adopted(s, guest, recipe, host, interface, serial).follow_ups;
    let a = recovery::follow_text::<F>(interface, host, "set_title"@, recipe->title);
    let b = recovery::follow_text::<F>(interface, host, "set_app_id"@, recipe->app_id);
    assert forall|i: int| a.len() + b.len() <= i < f.len() implies (#[trigger] f[i]).to_client by {}
    if recipe->title is Some {
        assert(f[0] == a[0]);
    }
    if recipe->app_id is Some {
        assert(f[a.len() as int] == b[0]);
    }
}

/// The client of a toplevel that exists again is told to draw: last of all
/// comes `configure` of the surface that the toplevel belongs to, with a serial
/// that is remembered for that surface and not used again, and right before it
/// `configure` of the toplevel itself, which leaves the size open and names no
/// state.  Nothing else goes to the client.
pub proof fn lemma_client_is_told_to_draw<F>(
    s: SessionModel<F>,
    guest: u32,
    recipe: Recipe<F>,
    host: u32,
    interface: InterfaceModel,
    serial: u32,
)
    requires
        recipe is XdgToplevel,
        lists(
            interface.events,
            "configure"@,
            seq![ArgumentType::Int, ArgumentType::Int, ArgumentType::Array],
        ),
        s.objects.interface(recipe->XdgToplevel_parent_guest_id) is Some,
        lists(
            s.objects.interface(recipe->XdgToplevel_parent_guest_id)->0.events,
            "configure"@,
            seq![ArgumentType::Uint],
        ),
    ensures
        ({
            let r = recovery::adopted(s, guest, recipe, host, interface, serial);
            let f = r.follow_ups;
            let n = f.len() as int;
            let parent = recipe->XdgToplevel_parent_guest_id;
            let parent_interface = s.objects.interface(parent)->0;
            &&& n >= 2
            &&& is_event(f[n - 1], parent_interface, parent, "configure"@)
            &&& f[n - 1].message.bytes.len() == 12
            &&& wire::word_at(f[n - 1].message.bytes, 8) == serial
            &&& r.session.acks == s.acks.insert(parent, serial)
            &&& r.serial != serial
            &&& serial < u32::MAX ==> r.serial == serial + 1
            &&& is_event(f[n - 2], interface, guest, "configure"@)
            &&& f[n - 2].message.bytes.len() == 20
            &&& wire::word_at(f[n - 2].message.bytes, 8) == 0
            &&& wire::word_at(f[n - 2].message.bytes, 12) == 0
            &&& wire::word_at(f[n - 2].message.bytes, 16) == 0
            &&& forall|i: int| 0 <= i < n - 2 ==> !(#[trigger] f[i]).to_client
        }),
{
    let parent = recipe->XdgToplevel_parent_guest_id;
    let parent_interface = s.objects.interface(parent)->0;
    reveal_with_fuel(arguments::encoded_prefix, 4);
    reveal_with_fuel(arguments::fds_prefix, 4);
    let own = seq![
        ValueModel::<F>::Int(0),
        ValueModel::Int(0),
        ValueModel::Array(Seq::empty()),
    ];
    let own_opcode = schema::opcode_named(interface.events, "configure"@)->0;
    let own_signature = interface.events[own_opcode as int].signature;
    wire::lemma_words_read(0, 0, 0, 0);
    let three = wire::word_bytes(0) + wire::word_bytes(0) + wire::word_bytes(0);
    assert(0i32 as u32 == 0u32) by (bit_vector);
    assert(wire::block_bytes(Seq::empty()) =~= wire::word_bytes(0)) by {
        assert(wire::padding(0) =~= Seq::<u8>::empty());
    }
    assert(Seq::<u8>::empty() + wire::word_bytes(0) + wire::word_bytes(0) + wire::block_bytes(
        Seq::empty(),
    ) =~= three);
    assert(arguments::encoded(own_signature, own) == Ok::<Seq<u8>, arguments::EncodeError>(three));
    wire::lemma_word_appended(Seq::empty(), 0, wire::word_bytes(0) + wire::word_bytes(0));
    assert(three =~= Seq::<u8>::empty() + wire::word_bytes(0) + (wire::word_bytes(0)
        + wire::word_bytes(0)));
    wire::lemma_word_appended(wire::word_bytes(0), 0, wire::word_bytes(0));
    wire::lemma_word_appended(wire::word_bytes(0) + wire::word_bytes(0), 0, Seq::empty());
    assert(three + Seq::<u8>::empty() =~= three);
    wire::lemma_built_message_reads(guest, own_opcode, three);
    assert(wire::word_at(three, 0) == 0 && wire::word_at(three, 4) == 0 && wire::word_at(three, 8)
        == 0);
    let values = seq![ValueModel::<F>::Uint(serial)];
    let opcode = schema::opcode_named(parent_interface.events, "configure"@)->0;
    let signature = parent_interface.events[opcode as int].signature;
    wire::lemma_words_read(serial, 0, 0, 0);
    assert(Seq::<u8>::empty() + wire::word_bytes(serial) =~= wire::word_bytes(serial));
    assert(arguments::encoded(signature, values) == Ok::<Seq<u8>, arguments::EncodeError>(
        wire::word_bytes(serial),
    ));
    wire::lemma_built_message_reads(parent, opcode, wire::word_bytes(serial));
    assert(wire::word_at(wire::word_bytes(serial), 0) == serial);
    let f = recovery::adopted(s, guest, recipe, host, interface, serial).follow_ups;
    let a = recovery::follow_text::<F>(interface, host, "set_title"@, recipe->title);
    let b = recovery::follow_text::<F>(interface, host, "set_app_id"@, recipe->app_id);
    let c = recovery::follow_event::<F>(interface, guest, "configure"@, own);
    let d = recovery::follow_configure::<F>(Some(parent_interface), parent, serial);
    assert(c.len() == 1 && d.len() == 1);
    assert(f == a + b + c + d);
    assert(f[f.len() - 1] == d[0]);
    assert(f[f.len() - 2] == c[0]);
}

/// A viewport that exists again is told the destination that the client had
/// given it, and nothing where it had given none.
pub proof fn lemma_viewport_is_told_its_destination<F>(
    s: SessionModel<F>,
    guest: u32,
    recipe: Recipe<F>,
    host: u32,
    interface: InterfaceModel,
    serial: u32,
)
    requires
        recipe is Viewport,
        lists(
            interface.requests,
            "set_destination"@,
            seq![ArgumentType::Int, ArgumentType::Int],
        ),
    ensures
        ({
            let r = recovery::adopted(s, guest, recipe, host, interface, serial);
            let f = r.follow_ups;
            &&& f.len() == (if recipe->destination is Some { 1nat } else { 0 })
            &&& recipe->destination matches Some((width, height)) ==> ({
                &&& is_request(f[0], interface, host, "set_destination"@)
                &&& f[0].message.bytes.len() == 16
                &&& wire::word_at(f[0].message.bytes, 8) == width as u32
                &&& wire::word_at(f[0].message.bytes, 12) == height as u32
            })
        }),
{
    if let Some((width, height)) = recipe->destination {
        reveal_with_fuel(arguments::encoded_prefix, 3);
        reveal_with_fuel(arguments::fds_prefix, 3);
        let values = seq![ValueModel::<F>::Int(width), ValueModel::Int(height)];
        let opcode = schema::opcode_named(interface.requests, "set_destination"@)->0;
        let signature = interface.requests[opcode as int].signature;
        let payload = wire::word_bytes(width as u32) + wire::word_bytes(height as u32);
        assert(Seq::<u8>::empty() + wire::word_bytes(width as u32) + wire::word_bytes(height as u32)
            =~= payload);
        assert(arguments::encoded(signature, values) == Ok::<Seq<u8>, arguments::EncodeError>(
            payload,
        ));
        wire::lemma_words_read(width as u32, height as u32, 0, 0);
        wire::lemma_built_message_reads(host, opcode, payload);
        assert(wire::word_at(payload, 0) == width as u32 && wire::word_at(payload, 4)
            == height as u32);
    }
}

/// An object that exists again stands for the client's object of this
/// connection, and adopting it leaves everything else as it was; objects other
/// than toplevels and viewports have nothing to be told.
pub proof fn lemma_adopting_touches_nothing_else<F>(
    s: SessionModel<F>,
    guest: u32,
    recipe: Recipe<F>,
    host: u32,
    interface: InterfaceModel,
    serial: u32,
)
    requires
        s.objects.wf(),
        guest != 0,
        host != 0,
    ensures
        ({
            let r = recovery::adopted(s, guest, recipe, host, interface, serial);
            &&& r.session.objects.host_id(guest) == Some(host)
            &&& r.session.objects.guest_id(host) == Some(guest)
            &&& r.session.objects.interface(guest) == Some(interface)
            &&& r.session.objects.is_current(guest)
            &&& r.session.objects.next_host_id == s.objects.next_host_id
            &&& r.session.graph == s.graph
            &&& r.session.flow == s.flow
            &&& r.session.frames == s.frames
            &&& r.session.grabs == s.grabs
            &&& r.session.reclaim == s.reclaim
            &&& r.session.planes == s.planes
            &&& !(recipe is XdgToplevel) ==> r.session.acks == s.acks && r.serial == serial
            &&& !(recipe is XdgToplevel) && !(recipe is Viewport) ==> r.follow_ups.len() == 0
        }),
{
    shadow_table::lemma_mapped_translates(s.objects, guest, host, interface, guest);
}

} // verus!
