//! What offering the cached clipboard content again comes to, message by
//! message.
use crate::clipboard;
use crate::relay;
use crate::schema::Direction;
use crate::session::SessionModel;
use crate::shadow_table::TableModel;
use crate::wire;
use std::sync::Arc;
use vstd::prelude::*;
use vstd::utf8::encode_utf8;

verus! {

/// Whether a string fits a message of its own.
pub open spec fn fits_message(text: Seq<char>) -> bool {
    encode_utf8(text).len() < 0x1_0000 - 32
}

/// The id that a message of the plan gives to a new object: the last word of
/// the bind, the first argument of everything else.
pub open spec fn made_by(messages: Seq<Seq<u8>>, i: int) -> u32 {
    if i == 0 {
        wire::word_at(messages[0], messages[0].len() - 4)
    } else {
        wire::word_at(messages[i], 8)
    }
}

/// A message that carries one string reads back as that string.
pub(crate) proof fn lemma_text_message(sender: u32, opcode: u16, text: Seq<char>)
    requires
        fits_message(text),
    ensures
        ({
            let msg = wire::message_bytes(sender, opcode, wire::str_bytes(text));
            &&& wire::is_message(msg, sender, opcode)
            &&& wire::str_opt(msg.skip(8), 0) == Some((text, msg.len() - 8))
        }),
{
    let payload = wire::str_bytes(text);
    wire::lemma_str_bytes_len(text);
    wire::lemma_str_appended(Seq::empty(), text, Seq::empty());
    assert(Seq::<u8>::empty() + payload + Seq::<u8>::empty() =~= payload);
    assert(Seq::<u8>::empty() + payload =~= payload);
    wire::lemma_built_message_reads(sender, opcode, payload);
}

/// The bind of a global reads back as its name, its interface, its version and
/// the new object's id.
pub(crate) proof fn lemma_bind_message(
    registry: u32,
    name: u32,
    interface: Seq<char>,
    version: u32,
    id: u32,
)
    requires
        fits_message(interface),
    ensures
        ({
            let msg = wire::message_bytes(
                registry,
                0,
                wire::word_bytes(name) + wire::str_bytes(interface) + wire::word_bytes(version)
                    + wire::word_bytes(id),
            );
            &&& wire::is_message(msg, registry, 0)
            &&& wire::word_at(msg, 8) == name
            &&& wire::str_opt(msg.skip(8), 4) == Some((interface, msg.len() - 16))
            &&& wire::word_at(msg, msg.len() - 8) == version
            &&& wire::word_at(msg, msg.len() - 4) == id
        }),
{
    let a = wire::word_bytes(name);
    let b = wire::str_bytes(interface);
    let c = wire::word_bytes(version);
    let d = wire::word_bytes(id);
    let payload = a + b + c + d;
    wire::lemma_words_read(name, version, id, id);
    wire::lemma_words_read(version, id, id, id);
    wire::lemma_words_read(id, id, id, id);
    wire::lemma_str_bytes_len(interface);
    wire::lemma_built_message_reads(registry, 0, payload);
    wire::lemma_word_appended(Seq::empty(), name, b + c + d);
    assert(payload =~= Seq::<u8>::empty() + a + (b + c + d));
    wire::lemma_str_appended(a, interface, c + d);
    assert(payload =~= a + b + (c + d));
    wire::lemma_word_appended(a + b, version, d);
    wire::lemma_word_appended(a + b + c, id, Seq::empty());
    assert(payload =~= a + b + c + d + Seq::<u8>::empty());
    let n = payload.len() as int;
    assert(wire::word_at(payload, 0) == name);
    assert(wire::word_at(payload, n - 8) == version);
    assert(wire::word_at(payload, n - 4) == id);
}

/// Something is offered again exactly where something is cached, the
/// compositor has a data device manager, and the client's registry and seat
/// translate.  The messages then build on each other.  The bind goes to the
/// registry and names the compositor's global in its version; its new object
/// makes the source, and every cached type is offered on that source, in
/// order; the manager then makes a device for the seat, and on that device the
/// same source becomes the selection, with the borrowed serial.  The three new
/// ids are fresh and follow each other without a gap.
pub proof fn lemma_splice_builds_on_itself(
    objects: TableModel,
    global: Option<(u32, u32)>,
    mimes: Seq<Seq<char>>,
    serial: u32,
)
    requires
        objects.next_host_id <= u32::MAX - 3,
        forall|k: int| 0 <= k < mimes.len() ==> fits_message(#[trigger] mimes[k]),
    ensures
        clipboard::splice_plan(objects, global, mimes, serial) is Some <==> ({
            &&& mimes.len() > 0
            &&& global is Some
            &&& objects.first_named("wl_registry"@) is Some
            &&& objects.first_named("wl_seat"@) is Some
            &&& objects.host_id(objects.first_named("wl_registry"@)->0) is Some
            &&& objects.host_id(objects.first_named("wl_seat"@)->0) is Some
        }),
        clipboard::splice_plan(objects, global, mimes, serial) matches Some(plan) ==> ({
            let m = plan.messages;
            let n = m.len() as int;
            let registry_host = objects.host_id(objects.first_named("wl_registry"@)->0)->0;
            let seat_host = objects.host_id(objects.first_named("wl_seat"@)->0)->0;
            let manager = made_by(m, 0);
            let source = made_by(m, 1);
            let device = made_by(m, n - 2);
            &&& n == mimes.len() + 4
            &&& wire::is_message(m[0], registry_host, 0)
            &&& wire::word_at(m[0], 8) == (global->0).0
            &&& wire::str_opt(m[0].skip(8), 4) == Some(
                ("wl_data_device_manager"@, m[0].len() - 16),
            )
            &&& wire::word_at(m[0], m[0].len() - 8) == (global->0).1
            &&& wire::is_message(m[1], manager, 0) && m[1].len() == 12
            &&& source == plan.source_host_id
            &&& forall|k: int|
                0 <= k < mimes.len() ==> wire::is_message(#[trigger] m[2 + k], source, 0)
                    && wire::str_opt(m[2 + k].skip(8), 0) == Some((mimes[k], m[2 + k].len() - 8))
            &&& wire::is_message(m[n - 2], manager, 1) && m[n - 2].len() == 16
            &&& wire::word_at(m[n - 2], 12) == seat_host
            &&& wire::is_message(m[n - 1], device, 1) && m[n - 1].len() == 16
            &&& wire::word_at(m[n - 1], 8) == source
            &&& wire::word_at(m[n - 1], 12) == serial
            &&& manager == objects.next_host_id
            &&& source == objects.next_host_id + 1
            &&& device == objects.next_host_id + 2
            &&& clipboard::spliced(objects, Some(plan)).next_host_id == objects.next_host_id + 3
        }),
        clipboard::spliced(objects, None) == objects,
{
    if let Some(plan) = clipboard::splice_plan(objects, global, mimes, serial) {
        let registry_host = objects.host_id(objects.first_named("wl_registry"@)->0)->0;
        let seat_host = objects.host_id(objects.first_named("wl_seat"@)->0)->0;
        let first = objects.next_host_id;
        let source = (first + 1) as u32;
        let device = (first + 2) as u32;
        let m = plan.messages;
        let n = m.len() as int;
        reveal_strlit("wl_data_device_manager");
        vstd::utf8::is_ascii_chars_encode_utf8("wl_data_device_manager"@);
        lemma_bind_message(
            registry_host,
            (global->0).0,
            "wl_data_device_manager"@,
            (global->0).1,
            first,
        );
        wire::lemma_words_read(source, source, source, source);
        wire::lemma_built_message_reads(first, 0, wire::word_bytes(source));
        wire::lemma_words_read(device, seat_host, 0, 0);
        wire::lemma_built_message_reads(
            first,
            1,
            wire::word_bytes(device) + wire::word_bytes(seat_host),
        );
        wire::lemma_words_read(source, serial, 0, 0);
        wire::lemma_built_message_reads(
            device,
            1,
            wire::word_bytes(source) + wire::word_bytes(serial),
        );
        assert forall|k: int| 0 <= k < mimes.len() implies wire::is_message(
            #[trigger] m[2 + k],
            source,
            0,
        ) && wire::str_opt(m[2 + k].skip(8), 0) == Some((mimes[k], m[2 + k].len() - 8)) by {
            lemma_text_message(source, 0, mimes[k]);
            assert(m[2 + k] == clipboard::offers(source, mimes)[k]);
        }
    }
}

/// Every message of the plan is addressed to the registry or to an object that
/// an earlier message of the plan made.
pub proof fn lemma_splice_addresses_what_exists(
    objects: TableModel,
    global: Option<(u32, u32)>,
    mimes: Seq<Seq<char>>,
    serial: u32,
    i: int,
)
    requires
        objects.next_host_id <= u32::MAX - 3,
        forall|k: int| 0 <= k < mimes.len() ==> fits_message(#[trigger] mimes[k]),
        clipboard::splice_plan(objects, global, mimes, serial) is Some,
        0 <= i < clipboard::splice_plan(objects, global, mimes, serial)->0.messages.len(),
    ensures
        ({
            let m = clipboard::splice_plan(objects, global, mimes, serial)->0.messages;
            let sender = wire::word_at(m[i], 0);
            ||| Some(sender) == objects.host_id(objects.first_named("wl_registry"@)->0)
            ||| i > 0 && sender == made_by(m, 0)
            ||| i > 1 && sender == made_by(m, 1)
            ||| i == m.len() - 1 && sender == made_by(m, i - 1)
        }),
{
    lemma_splice_builds_on_itself(objects, global, mimes, serial);
    let m = clipboard::splice_plan(objects, global, mimes, serial)->0.messages;
    if 2 <= i < m.len() - 2 {
        assert(wire::is_message(m[2 + (i - 2)], made_by(m, 1), 0));
    }
}

/// A transfer that goes by is what is cached under its type from then on, whole,
/// if it is anything and no larger than five mebibytes, however it was cut into
/// chunks; otherwise the cache stays as it is.
pub proof fn lemma_transfer_lands_in_the_cache(
    entries: Seq<(Seq<char>, Seq<u8>)>,
    mime_type: Seq<char>,
    chunks: Seq<Seq<u8>>,
    other: Seq<char>,
)
    ensures
        ({
            let n = chunks.len() as int;
            let whole = clipboard::joined(chunks, n);
            let after = clipboard::after_transfer(
                entries,
                mime_type,
                clipboard::collected_from(chunks, n),
            );
            &&& clipboard::cached(after, mime_type) == if 0 < whole.len() <= 5 * 1024 * 1024 {
                Some(whole)
            } else {
                clipboard::cached(entries, mime_type)
            }
            &&& other != mime_type ==> clipboard::cached(after, other) == clipboard::cached(
                entries,
                other,
            )
        }),
{
    let n = chunks.len() as int;
    clipboard::lemma_collected_whole_or_not_at_all(chunks, n);
    clipboard::lemma_stored_is_cached(
        entries,
        mime_type,
        clipboard::joined(chunks, n),
        other,
    );
}

/// Once the proxy has offered a source of its own, whatever the compositor sends
/// on it is the proxy's business and never reaches the client.
pub proof fn lemma_own_source_is_kept_from_the_client<F>(
    s: SessionModel<F>,
    fds: Seq<Arc<F>>,
    entries: Seq<(Seq<char>, Seq<u8>)>,
    frozen: bool,
    msg: Seq<u8>,
    source: u32,
)
    requires
        8 <= msg.len(),
        wire::word_at(msg, 0) == source,
    ensures
        ({
            let offered = SessionModel {
                reclaim: clipboard::with_source(s.reclaim, source),
                ..s
            };
            let r = relay::relay(
                offered,
                fds,
                entries,
                Direction::HostToClient,
                frozen,
                msg,
            );
            &&& r.step.outcome is ClipboardEvent
            &&& offered.reclaim.pending == s.reclaim.pending
            &&& r.session.objects == s.objects
            &&& r.session.graph == s.graph
        }),
{
}

} // verus!
