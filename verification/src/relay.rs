//! The relay: what happens to each message that arrives from either side.
//!
//! Every object id in a message is translated into the other side's numbering:
//! the sender, the objects it refers to, the object it creates.  A message that
//! cannot be translated as a whole is dropped as a whole.  On the way the
//! trackers take note of what a reconnect will need.
use crate::clipboard;
use crate::clipboard::{
    attempt_clipboard_splice, handle_synthetic_clipboard_event, is_cacheable_mime, ClipboardCache,
    ClipboardReply, ReclaimState, ReplyModel, SpliceModel, SplicePlan,
};
use crate::desktop_apps::{ClientIdentity, IdentityModel};
use crate::kinds;
use crate::kinds::{classify, is_root, Kind};
use crate::recreation;
use crate::recreation::{DmabufPlane, Recipe, Recreatable};
use crate::schema;
use crate::schema::{
    event_opcode, share, Direction, InterfaceDesc, InterfaceModel, MessageDesc, MessageModel,
};
use crate::session::{Inbound, Session, SessionModel};
use crate::shadow_table::{ShadowTable, TableModel};
use crate::signature;
use crate::signature::{resolve_child_interface, walk_signature, SignatureWalk, WalkModel};
use crate::text;
use crate::wire;
use crate::wire::{
    build_message, decode_text, put_str, put_u32, read_str, read_u32, set_word, word, MessageHeader,
    HEADER_LEN,
};
use std::collections::VecDeque;
use std::sync::Arc;
use vstd::prelude::*;
use vstd::slice::slice_subrange;

verus! {

broadcast use vstd::std_specs::hash::group_hash_axioms;

/// What became of a message.
#[derive(Debug, Clone, Copy, PartialEq, Eq, Structural)]
pub enum Outcome {
    /// Translated, and to be sent on.
    Relayed,
    /// Translated, but there is nobody to send it to.
    DroppedFrozen,
    /// Its sender or opcode is not known.
    DroppedUnknown,
    /// It is shorter than its signature declares.
    DroppedParseError,
    /// It refers to an object the other side does not know.
    DroppedUntranslatable,
    /// It would create an object of an unknown interface.
    DroppedUnresolvableChild,
    /// It frees an id that is not tracked.
    DroppedUntrackedDeleteId,
    /// It releases a buffer of an earlier host connection.
    DroppedStaleGeneration,
    /// It acknowledges a configure event that the proxy invented.
    AckSwallowed,
    /// Its sender does not exist on the host.
    DroppedSenderless,
    /// It is an event of the proxy's own clipboard source.
    ClipboardEvent,
}

impl Outcome {
    /// The name under which a traffic recording shows it, if it does.
    pub open spec fn recorded_as(self) -> Option<Seq<char>> {
        match self {
            Outcome::Relayed => Some("RELAYED"@),
            Outcome::DroppedFrozen => Some("DROPPED_FROZEN"@),
            Outcome::DroppedUnknown => Some("DROPPED_UNKNOWN"@),
            Outcome::DroppedParseError => Some("DROPPED_PARSE_ERROR"@),
            Outcome::DroppedUntranslatable => Some("DROPPED_UNTRANSLATABLE"@),
            Outcome::DroppedUnresolvableChild => Some("DROPPED_UNRESOLVABLE_CHILD"@),
            Outcome::DroppedUntrackedDeleteId => Some("DROPPED_UNTRACKED_DELETE_ID"@),
            Outcome::DroppedStaleGeneration => Some("DROPPED_STALE_GENERATION"@),
            Outcome::AckSwallowed => None,
            Outcome::DroppedSenderless => None,
            Outcome::ClipboardEvent => None,
        }
    }

    /// The name under which a traffic recording shows it, if it does.
    pub fn label(self) -> (r: Option<&'static str>)
        ensures
            match r {
                Some(label) => self.recorded_as() == Some(label@),
                None => self.recorded_as() is None,
            },
    {
        match self {
            Outcome::Relayed => Some("RELAYED"),
            Outcome::DroppedFrozen => Some("DROPPED_FROZEN"),
            Outcome::DroppedUnknown => Some("DROPPED_UNKNOWN"),
            Outcome::DroppedParseError => Some("DROPPED_PARSE_ERROR"),
            Outcome::DroppedUntranslatable => Some("DROPPED_UNTRANSLATABLE"),
            Outcome::DroppedUnresolvableChild => Some("DROPPED_UNRESOLVABLE_CHILD"),
            Outcome::DroppedUntrackedDeleteId => Some("DROPPED_UNTRACKED_DELETE_ID"),
            Outcome::DroppedStaleGeneration => Some("DROPPED_STALE_GENERATION"),
            Outcome::AckSwallowed | Outcome::DroppedSenderless | Outcome::ClipboardEvent => None,
        }
    }
}

/// What is to be done about one message.
pub struct Step<F> {
    pub outcome: Outcome,
    /// The sender's interface; `None` where sender or opcode is not known.
    pub interface: Option<Arc<InterfaceDesc>>,
    pub kind: Kind,
    /// The sender: in the receiver's numbering where the message was fully
    /// translated, as received otherwise.
    pub sender_id: u32,
    pub opcode: u16,
    /// The message as far as it was translated.  To be sent on where the
    /// outcome is [`Outcome::Relayed`].
    pub bytes: Vec<u8>,
    /// How many descriptors a recording shows.
    pub fd_count: usize,
    /// The descriptors that belong to the message.
    pub fds: Vec<Arc<F>>,
    /// The content type to cache while the last descriptor's transfer goes by.
    pub tee: Option<String>,
    /// Messages to be written back to where this one came from.
    pub replies: Vec<Vec<u8>>,
    /// An offer of cached clipboard content, to be written to the host.
    pub splice: Option<SplicePlan>,
    /// Cached content the host asked for.
    pub clipboard: Option<ClipboardReply<F>>,
}

/// What a [`Step`] says.
#[verifier::ext_equal]
pub struct StepModel<F> {
    pub outcome: Outcome,
    pub interface: Option<InterfaceModel>,
    pub kind: Kind,
    pub sender_id: u32,
    pub opcode: u16,
    pub bytes: Seq<u8>,
    pub fd_count: nat,
    pub fds: Seq<Arc<F>>,
    pub tee: Option<Seq<char>>,
    pub replies: Seq<Seq<u8>>,
    pub splice: Option<SpliceModel>,
    pub clipboard: Option<ReplyModel<F>>,
}

impl<F> View for Step<F> {
    type V = StepModel<F>;

    open spec fn view(&self) -> StepModel<F> {
        StepModel {
            outcome: self.outcome,
            interface: match self.interface {
                Some(i) => Some(i@),
                None => None,
            },
            kind: self.kind,
            sender_id: self.sender_id,
            opcode: self.opcode,
            bytes: self.bytes@,
            fd_count: self.fd_count as nat,
            fds: self.fds@,
            tee: text::text_opt(self.tee),
            replies: clipboard::message_list(self.replies@),
            splice: match self.splice {
                Some(p) => Some(p@),
                None => None,
            },
            clipboard: match self.clipboard {
                Some(c) => Some(c@),
                None => None,
            },
        }
    }
}

impl<F> StepModel<F> {
    /// A message that is dropped without further ado.
    pub open spec fn dropped(
        outcome: Outcome,
        interface: Option<InterfaceModel>,
        kind: Kind,
        header: MessageHeader,
        bytes: Seq<u8>,
    ) -> StepModel<F> {
        StepModel {
            outcome,
            interface,
            kind,
            sender_id: header.sender_id,
            opcode: header.opcode,
            bytes,
            fd_count: 0,
            fds: Seq::empty(),
            tee: None,
            replies: Seq::empty(),
            splice: None,
            clipboard: None,
        }
    }
}

/// The connection after a message, the descriptors left over, and what is to
/// be done.
#[verifier::ext_equal]
pub struct Relay<F> {
    pub session: SessionModel<F>,
    pub fds: Seq<Arc<F>>,
    pub step: StepModel<F>,
}

/// The arguments of a message.
pub open spec fn payload_of(msg: Seq<u8>) -> Seq<u8> {
    msg.skip(HEADER_LEN as int)
}

/// The other side's id for an object that one side names.
pub open spec fn translate(objects: TableModel, direction: Direction, id: u32) -> Option<u32> {
    match direction {
        Direction::ClientToHost => objects.host_id(id),
        Direction::HostToClient => objects.guest_id(id),
    }
}

/// A message with the first `n` of its object arguments translated, and
/// whether they all could be.  Stops at the first that cannot.
pub open spec fn translated_prefix(
    objects: TableModel,
    direction: Direction,
    msg: Seq<u8>,
    offsets: Seq<usize>,
    n: int,
) -> (Seq<u8>, bool)
    decreases n,
{
    if n <= 0 {
        (msg, true)
    } else {
        let (m, ok) = translated_prefix(objects, direction, msg, offsets, n - 1);
        let at = HEADER_LEN + offsets[n - 1];
        if !ok {
            (m, false)
        } else {
            match translate(objects, direction, wire::word_at(m, at)) {
                Some(id) => (wire::with_word(m, at, id), true),
                None => (m, false),
            }
        }
    }
}

/// A message with its object arguments translated.
pub open spec fn translated(
    objects: TableModel,
    direction: Direction,
    msg: Seq<u8>,
    offsets: Seq<usize>,
) -> (Seq<u8>, bool) {
    translated_prefix(objects, direction, msg, offsets, offsets.len() as int)
}

/// The object arguments of a message as they arrived.
pub open spec fn object_values(msg: Seq<u8>, offsets: Seq<usize>) -> Seq<u32> {
    offsets.map_values(|at: usize| wire::word_at(msg, HEADER_LEN + at))
}

/// The recipe for the object that a request creates, where it is one of those
/// that are created again.  `at` is where the new id stands in the message,
/// `objects` are the guest ids it refers to, and `planes` is what the sender
/// has collected if it is a dmabuf params object.
pub open spec fn recipe_from<F>(
    kind: Kind,
    child: InterfaceModel,
    msg: Seq<u8>,
    at: int,
    sender: u32,
    objects: Seq<u32>,
    planes: Option<(u32, Seq<DmabufPlane<F>>)>,
) -> Option<Recipe<F>> {
    match kind {
        Kind::Bind => if kinds::is_root_name(child.name) {
            Some(Recipe::Global { interface: child, version: wire::word_at(msg, at - 4) })
        } else {
            None
        },
        Kind::CreateSurface => Some(Recipe::Surface { parent_guest_id: sender }),
        Kind::GetXdgSurface => if objects.len() > 0 {
            Some(Recipe::XdgSurface { parent_guest_id: sender, surface_guest_id: objects[0] })
        } else {
            None
        },
        Kind::GetToplevel => Some(
            Recipe::XdgToplevel { parent_guest_id: sender, title: None, app_id: None },
        ),
        Kind::CreateBuffer => if at + 24 <= msg.len() {
            Some(
                Recipe::ShmBuffer {
                    pool_guest_id: sender,
                    offset: wire::word_at(msg, at + 4) as i32,
                    width: wire::word_at(msg, at + 8) as i32,
                    height: wire::word_at(msg, at + 12) as i32,
                    stride: wire::word_at(msg, at + 16) as i32,
                    format: wire::word_at(msg, at + 20),
                },
            )
        } else {
            None
        },
        Kind::CreateImmed => match planes {
            Some((dmabuf_guest_id, planes)) if at + 20 <= msg.len() => Some(
                Recipe::DmabufBuffer {
                    dmabuf_guest_id,
                    width: wire::word_at(msg, at + 4) as i32,
                    height: wire::word_at(msg, at + 8) as i32,
                    format: wire::word_at(msg, at + 12),
                    flags: wire::word_at(msg, at + 16),
                    planes,
                },
            ),
            _ => None,
        },
        Kind::GetSeatDevice(kind) => Some(Recipe::SeatDevice { seat_guest_id: sender, kind }),
        Kind::GetViewport => if objects.len() > 0 {
            Some(
                Recipe::Viewport {
                    viewporter_guest_id: sender,
                    surface_guest_id: objects[0],
                    destination: None,
                },
            )
        } else {
            None
        },
        Kind::GetFractionalScale => if objects.len() > 0 {
            Some(
                Recipe::FractionalScale { manager_guest_id: sender, surface_guest_id: objects[0] },
            )
        } else {
            None
        },
        _ => None,
    }
}

/// The pending dmabuf planes after an object was created: a new params object
/// starts without planes, and `create_immed` uses its own up.
pub open spec fn planes_after<F>(
    planes: Map<u32, (u32, Seq<DmabufPlane<F>>)>,
    kind: Kind,
    sender: u32,
    new_guest: u32,
) -> Map<u32, (u32, Seq<DmabufPlane<F>>)> {
    match kind {
        Kind::CreateParams => planes.insert(new_guest, (sender, Seq::empty())),
        Kind::CreateImmed => planes.remove(sender),
        _ => planes,
    }
}

/// The value of a map at a key, if it has one.
pub open spec fn at_key<V>(m: Map<u32, V>, k: u32) -> Option<V> {
    if m.contains_key(k) {
        Some(m[k])
    } else {
        None
    }
}

/// A connection and a message after the object it creates was given an id on
/// the other side.
#[verifier::ext_equal]
pub struct Created<F> {
    pub session: SessionModel<F>,
    pub msg: Seq<u8>,
    pub new_guest: Option<u32>,
}

/// Creates the object whose id, as its maker chose it, stands at `at`: it gets
/// the next free id on the other side, and a recipe if it is to be created
/// again after a reconnect.
pub open spec fn created<F>(
    s: SessionModel<F>,
    direction: Direction,
    kind: Kind,
    child: InterfaceModel,
    msg: Seq<u8>,
    at: int,
    sender: u32,
    objects: Seq<u32>,
) -> Created<F> {
    let chosen = wire::word_at(msg, at);
    match direction {
        Direction::ClientToHost => {
            let host = s.objects.next_host_id;
            let recipe = recipe_from(kind, child, msg, at, sender, objects, at_key(s.planes, sender));
            Created {
                session: SessionModel {
                    objects: s.objects.allocate_host_ids(1).map(chosen, host, child),
                    graph: match recipe {
                        Some(recipe) => s.graph.push((chosen, recipe)),
                        None => s.graph,
                    },
                    planes: planes_after(s.planes, kind, sender, chosen),
                    ..s
                },
                msg: wire::with_word(msg, at, host),
                new_guest: Some(chosen),
            }
        },
        Direction::HostToClient => {
            let guest = s.objects.next_guest_server_id;
            Created {
                session: SessionModel {
                    objects: s.objects.allocate_guest_server_id().map(guest, chosen, child),
                    ..s
                },
                msg: wire::with_word(msg, at, guest),
                new_guest: Some(guest),
            }
        },
    }
}

/// The connection after the creation of an object of an unknown interface was
/// refused: the name is kept for diagnostics, under the client's own id.
pub open spec fn unresolved<F>(
    s: SessionModel<F>,
    direction: Direction,
    chosen: u32,
    name: Option<Seq<char>>,
) -> SessionModel<F> {
    match name {
        Some(name) if direction is ClientToHost => SessionModel {
            objects: s.objects.remember_unresolvable(chosen, name),
            ..s
        },
        _ => s,
    }
}

/// What observing a message left behind: the connection, the message, a
/// clipboard offer, and the outcome if the message ends here.
#[verifier::ext_equal]
pub struct Observed<F> {
    pub session: SessionModel<F>,
    pub msg: Seq<u8>,
    pub splice: Option<SpliceModel>,
    pub stop: Option<Outcome>,
}

/// Focus and buttons after an input event of device `sender`.
pub open spec fn grabs_after<F>(s: SessionModel<F>, kind: Kind, sender: u32, p: Seq<u8>) -> SessionModel<
    F,
> {
    let grabs = match kind {
        Kind::PointerEnter => match wire::word_opt(p, 4) {
            Some(surface) => s.grabs.pointer_enter(sender, surface),
            None => s.grabs,
        },
        Kind::PointerLeave => s.grabs.pointer_leave(sender),
        Kind::PointerButton => match (wire::word_opt(p, 8), wire::word_opt(p, 12)) {
            (Some(button), Some(state)) => s.grabs.pointer_button(sender, button, state),
            _ => s.grabs,
        },
        Kind::KeyboardEnter => match wire::word_opt(p, 4) {
            Some(surface) => s.grabs.keyboard_enter(sender, surface),
            None => s.grabs,
        },
        Kind::KeyboardLeave => s.grabs.keyboard_leave(sender),
        _ => s.grabs,
    };
    SessionModel { grabs, ..s }
}

/// The clipboard offer that an input event sets off: the first one after a
/// reconnect lends its serial.
pub open spec fn splice_for<F>(
    s: SessionModel<F>,
    kind: Kind,
    p: Seq<u8>,
    entries: Seq<(Seq<char>, Seq<u8>)>,
) -> Option<SpliceModel> {
    match wire::word_opt(p, 0) {
        Some(serial) if s.reclaim.pending && kind.carries_input_serial() => clipboard::splice_plan(
            s.objects,
            s.reclaim.data_device_manager_global,
            clipboard::mime_types(entries),
            serial,
        ),
        _ => None,
    }
}

/// The connection after an input event may have set off a clipboard offer.
pub open spec fn after_splice<F>(
    s: SessionModel<F>,
    kind: Kind,
    p: Seq<u8>,
    entries: Seq<(Seq<char>, Seq<u8>)>,
) -> SessionModel<F> {
    if s.reclaim.pending && kind.carries_input_serial() && wire::word_opt(p, 0) is Some {
        SessionModel {
            objects: clipboard::spliced(s.objects, splice_for(s, kind, p, entries)),
            reclaim: ReclaimState { pending: false, ..s.reclaim },
            ..s
        }
    } else {
        s
    }
}

/// The recipes after a request that changes a tracked object.
pub open spec fn graph_after<F>(
    graph: Seq<(u32, Recipe<F>)>,
    kind: Kind,
    sender: u32,
    p: Seq<u8>,
) -> Seq<(u32, Recipe<F>)> {
    match kind {
        Kind::PoolResize => match wire::word_opt(p, 0) {
            Some(size) => recreation::with_pool_size(graph, sender, size as i32),
            None => graph,
        },
        Kind::SetTitle => match wire::str_opt(p, 0) {
            Some((title, _)) => recreation::with_title(graph, sender, title),
            None => graph,
        },
        Kind::SetAppId => match wire::str_opt(p, 0) {
            Some((app_id, _)) => recreation::with_app_id(graph, sender, app_id),
            None => graph,
        },
        Kind::SetDestination => match (wire::word_opt(p, 0), wire::word_opt(p, 4)) {
            (Some(w), Some(h)) => recreation::with_destination(graph, sender, w as i32, h as i32),
            _ => graph,
        },
        _ => graph,
    }
}

/// What the trackers make of a message whose objects are translated.  `sender`
/// is its guest id, `new_guest` the guest id of the object it creates, and
/// `objects` are the objects it refers to, as they arrived.
pub open spec fn observed<F>(
    s: SessionModel<F>,
    kind: Kind,
    sender: u32,
    msg: Seq<u8>,
    new_guest: Option<u32>,
    objects: Seq<u32>,
    entries: Seq<(Seq<char>, Seq<u8>)>,
) -> Observed<F> {
    let p = payload_of(msg);
    let same = Observed { session: s, msg, splice: None, stop: None };
    match kind {
        Kind::DeleteId => match wire::word_opt(p, 0) {
            Some(host) => match s.objects.guest_id(host) {
                Some(guest) => Observed {
                    session: SessionModel {
                        objects: s.objects.remove_guest(guest),
                        graph: recreation::without(s.graph, guest),
                        ..s
                    },
                    msg: wire::with_word(msg, HEADER_LEN as int, guest),
                    ..same
                },
                None => Observed { stop: Some(Outcome::DroppedUntrackedDeleteId), ..same },
            },
            None => same,
        },
        Kind::BufferRelease => if s.objects.is_current(sender) {
            Observed { session: SessionModel { flow: s.flow.release(sender), ..s }, ..same }
        } else {
            Observed { stop: Some(Outcome::DroppedStaleGeneration), ..same }
        },
        Kind::Attach => {
            let buffer = if objects.len() > 0 {
                objects[0]
            } else {
                0
            };
            Observed { session: SessionModel { flow: s.flow.attach(sender, buffer), ..s }, ..same }
        },
        Kind::Commit => Observed {
            session: SessionModel { flow: s.flow.commit(sender), ..s },
            ..same
        },
        Kind::Frame | Kind::Sync => match new_guest {
            Some(callback) if s.objects.host_id(sender) is Some => Observed {
                session: SessionModel { frames: s.frames.insert(callback), ..s },
                ..same
            },
            _ => same,
        },
        Kind::CallbackDone => Observed {
            session: SessionModel { frames: s.frames.remove(sender), ..s },
            ..same
        },
        Kind::AckConfigure => if wire::word_opt(p, 0) is Some && at_key(s.acks, sender)
            == wire::word_opt(p, 0) {
            Observed {
                session: SessionModel { acks: s.acks.remove(sender), ..s },
                stop: Some(Outcome::AckSwallowed),
                ..same
            }
        } else {
            same
        },
        Kind::PoolResize | Kind::SetTitle | Kind::SetAppId | Kind::SetDestination => Observed {
            session: SessionModel { graph: graph_after(s.graph, kind, sender, p), ..s },
            ..same
        },
        _ => {
            let seen = grabs_after(s, kind, sender, p);
            Observed {
                session: after_splice(seen, kind, p, entries),
                splice: splice_for(seen, kind, p, entries),
                ..same
            }
        },
    }
}

/// `wl_display.delete_id`, as the compositor would send it, if the display's
/// description has it.
pub open spec fn delete_id_messages(objects: TableModel, id: u32) -> Seq<Seq<u8>> {
    match objects.interface(1) {
        Some(display) => match schema::opcode_named(display.events, "delete_id"@) {
            Some(opcode) => seq![wire::message_bytes(1, opcode, wire::word_bytes(id))],
            None => Seq::empty(),
        },
        None => Seq::empty(),
    }
}

/// The answer to a callback that no compositor will give: `done`, and then
/// `delete_id`, which a one-shot object is owed before its id may be reused.
pub open spec fn frame_done_messages(objects: TableModel, callback: u32) -> Seq<Seq<u8>> {
    match objects.interface(callback) {
        Some(interface) => {
            let done = match schema::opcode_named(interface.events, "done"@) {
                Some(opcode) => seq![wire::message_bytes(callback, opcode, wire::word_bytes(0))],
                None => Seq::empty(),
            };
            done + delete_id_messages(objects, callback)
        },
        None => Seq::empty(),
    }
}

/// What the client is told about a request on an object the host never heard
/// of: a destroyed object's id is free, and a frame callback is answered.
pub open spec fn senderless_replies(
    objects: TableModel,
    kind: Kind,
    is_destructor: bool,
    sender: u32,
    new_guest: Option<u32>,
) -> Seq<Seq<u8>> {
    if is_destructor {
        delete_id_messages(objects, sender)
    } else {
        match new_guest {
            Some(callback) if kind is Frame => frame_done_messages(objects, callback),
            _ => Seq::empty(),
        }
    }
}

/// The connection after such a request: a destroyed object is forgotten, and
/// an object the request would have created is rolled back, host id and all.
pub open spec fn after_senderless<F>(
    s: SessionModel<F>,
    is_destructor: bool,
    sender: u32,
    new_guest: Option<u32>,
) -> SessionModel<F> {
    let s1 = if is_destructor {
        SessionModel {
            objects: s.objects.remove_guest(sender),
            graph: recreation::without(s.graph, sender),
            ..s
        }
    } else {
        s
    };
    match new_guest {
        Some(phantom) => {
            let given_back = match s1.objects.host_id(phantom) {
                Some(host) => s1.objects.unallocate_host_id(host),
                None => s1.objects,
            };
            SessionModel {
                objects: given_back.remove_guest(phantom),
                graph: recreation::without(s1.graph, phantom),
                ..s1
            }
        },
        None => s1,
    }
}

/// The connection after a translated message's descriptors were looked at: the
/// proxy keeps its own handle to those that back a buffer.
pub open spec fn after_retaining<F>(
    s: SessionModel<F>,
    kind: Kind,
    sender: u32,
    new_guest: Option<u32>,
    new_id_offset: Option<usize>,
    p: Seq<u8>,
    fds: Seq<Arc<F>>,
) -> SessionModel<F> {
    match kind {
        Kind::CreatePool => match new_guest {
            Some(pool) if fds.len() > 0 => {
                let size = match new_id_offset {
                    Some(at) => match wire::word_opt(p, at + 4) {
                        Some(size) => size as i32,
                        None => 0,
                    },
                    None => 0,
                };
                let recipe = Recipe::ShmPool { wl_shm_guest_id: sender, fd: fds.last(), size };
                SessionModel { graph: s.graph.push((pool, recipe)), ..s }
            },
            _ => s,
        },
        Kind::ParamsAdd => if fds.len() > 0 && p.len() >= 20 && s.planes.contains_key(sender) {
            let plane = DmabufPlane {
                fd: fds.last(),
                plane_idx: wire::word_at(p, 0),
                offset: wire::word_at(p, 4),
                stride: wire::word_at(p, 8),
                modifier: combined(wire::word_at(p, 12), wire::word_at(p, 16)),
            };
            let (dmabuf, planes) = s.planes[sender];
            SessionModel { planes: s.planes.insert(sender, (dmabuf, planes.push(plane))), ..s }
        } else {
            s
        },
        _ => s,
    }
}

/// A 64-bit number that travels as two words.
pub open spec fn combined(high: u32, low: u32) -> u64 {
    (high * 0x1_0000_0000 + low) as u64
}

/// The content type to cache while a transfer goes by.
pub open spec fn tee_for(kind: Kind, p: Seq<u8>, fd_count: int) -> Option<Seq<char>> {
    match wire::str_opt(p, 0) {
        Some((mime_type, _)) if kind is SourceSend && fd_count > 0 && clipboard::cacheable(
            mime_type,
        ) => Some(mime_type),
        _ => None,
    }
}

/// The end of a message's way: addressed to the receiver and sent, or given up
/// because its sender does not exist there.
pub open spec fn delivered<F>(
    s: SessionModel<F>,
    fds: Seq<Arc<F>>,
    direction: Direction,
    frozen: bool,
    header: MessageHeader,
    interface: InterfaceModel,
    desc: MessageModel,
    kind: Kind,
    sender: u32,
    walk: WalkModel,
    new_guest: Option<u32>,
    msg: Seq<u8>,
    splice: Option<SpliceModel>,
) -> Relay<F> {
    let receiver_id = match direction {
        Direction::ClientToHost => s.objects.host_id(sender),
        Direction::HostToClient => Some(sender),
    };
    match receiver_id {
        None => Relay {
            session: after_senderless(s, desc.is_destructor, sender, new_guest),
            fds,
            step: StepModel {
                replies: senderless_replies(
                    s.objects,
                    kind,
                    desc.is_destructor,
                    sender,
                    new_guest,
                ),
                splice,
                ..StepModel::dropped(Outcome::DroppedSenderless, Some(interface), kind, header, msg)
            },
        },
        Some(id) => {
            let bytes = wire::with_word(msg, 0, id);
            let n = if walk.fd_count <= fds.len() {
                walk.fd_count as int
            } else {
                fds.len() as int
            };
            let own = fds.take(n);
            let p = payload_of(bytes);
            Relay {
                session: after_retaining(s, kind, sender, new_guest, walk.new_id_offset, p, own),
                fds: fds.skip(n),
                step: StepModel {
                    outcome: if frozen {
                        Outcome::DroppedFrozen
                    } else {
                        Outcome::Relayed
                    },
                    interface: Some(interface),
                    kind,
                    sender_id: id,
                    opcode: header.opcode,
                    bytes,
                    fd_count: if frozen {
                        walk.fd_count
                    } else {
                        n as nat
                    },
                    fds: own,
                    tee: tee_for(kind, p, n),
                    replies: Seq::empty(),
                    splice,
                    clipboard: None,
                },
            }
        },
    }
}

/// What happens to a message whose sender, interface and description are known.
pub open spec fn relay_known<F>(
    s: SessionModel<F>,
    fds: Seq<Arc<F>>,
    entries: Seq<(Seq<char>, Seq<u8>)>,
    direction: Direction,
    frozen: bool,
    msg: Seq<u8>,
    header: MessageHeader,
    sender: u32,
    interface: InterfaceModel,
    desc: MessageModel,
) -> Relay<F> {
    let kind = kinds::kind_of(direction, interface.name, desc.name);
    match signature::walked(payload_of(msg), desc.signature) {
        Err(_) => Relay {
            session: s,
            fds,
            step: StepModel::dropped(
                Outcome::DroppedParseError,
                Some(interface),
                kind,
                header,
                msg,
            ),
        },
        Ok(walk) => {
            let objects = object_values(msg, walk.object_offsets);
            let (m, ok) = translated(s.objects, direction, msg, walk.object_offsets);
            if !ok {
                Relay {
                    session: s,
                    fds,
                    step: StepModel::dropped(
                        Outcome::DroppedUntranslatable,
                        Some(interface),
                        kind,
                        header,
                        m,
                    ),
                }
            } else {
                match walk.new_id_offset {
                    None => relay_created(
                        Created { session: s, msg: m, new_guest: None },
                        fds,
                        entries,
                        direction,
                        frozen,
                        header,
                        sender,
                        interface,
                        desc,
                        walk,
                        objects,
                    ),
                    Some(at) => match signature::child_interface(
                        desc,
                        walk.dynamic_interface_name,
                    ) {
                        None => Relay {
                            session: unresolved(
                                s,
                                direction,
                                wire::word_at(m, HEADER_LEN + at),
                                walk.dynamic_interface_name,
                            ),
                            fds,
                            step: StepModel::dropped(
                                Outcome::DroppedUnresolvableChild,
                                Some(interface),
                                kind,
                                header,
                                m,
                            ),
                        },
                        Some(child) => relay_created(
                            created(
                                s,
                                direction,
                                kind,
                                child,
                                m,
                                HEADER_LEN + at,
                                sender,
                                objects,
                            ),
                            fds,
                            entries,
                            direction,
                            frozen,
                            header,
                            sender,
                            interface,
                            desc,
                            walk,
                            objects,
                        ),
                    },
                }
            }
        },
    }
}

/// What happens to a message once every id in it is translated.
pub open spec fn relay_created<F>(
    c: Created<F>,
    fds: Seq<Arc<F>>,
    entries: Seq<(Seq<char>, Seq<u8>)>,
    direction: Direction,
    frozen: bool,
    header: MessageHeader,
    sender: u32,
    interface: InterfaceModel,
    desc: MessageModel,
    walk: WalkModel,
    objects: Seq<u32>,
) -> Relay<F> {
    let kind = kinds::kind_of(direction, interface.name, desc.name);
    let o = observed(c.session, kind, sender, c.msg, c.new_guest, objects, entries);
    match o.stop {
        Some(outcome) => Relay {
            session: o.session,
            fds,
            step: StepModel {
                splice: o.splice,
                ..StepModel::dropped(outcome, Some(interface), kind, header, o.msg)
            },
        },
        None => delivered(
            o.session,
            fds,
            direction,
            frozen,
            header,
            interface,
            desc,
            kind,
            sender,
            walk,
            c.new_guest,
            o.msg,
            o.splice,
        ),
    }
}

/// The guest id of a message's sender.
pub open spec fn sender_guest(objects: TableModel, direction: Direction, sender_id: u32) -> Option<
    u32,
> {
    match direction {
        Direction::ClientToHost => Some(sender_id),
        Direction::HostToClient => objects.guest_id(sender_id),
    }
}

/// What happens to one complete message.
pub open spec fn relay<F>(
    s: SessionModel<F>,
    fds: Seq<Arc<F>>,
    entries: Seq<(Seq<char>, Seq<u8>)>,
    direction: Direction,
    frozen: bool,
    msg: Seq<u8>,
) -> Relay<F> {
    let header = wire::header_of(msg)->0;
    let unknown = Relay {
        session: s,
        fds,
        step: StepModel::dropped(Outcome::DroppedUnknown, None, Kind::Other, header, msg),
    };
    if direction is HostToClient && s.reclaim.active_source_host_id == Some(header.sender_id) {
        Relay {
            session: SessionModel {
                reclaim: clipboard::reclaim_after_clipboard_event(s.reclaim, header.opcode),
                ..s
            },
            fds: clipboard::fds_after_clipboard_event(fds, header.opcode),
            step: StepModel {
                clipboard: clipboard::clipboard_reply(fds, msg, header.opcode, entries),
                ..StepModel::dropped(Outcome::ClipboardEvent, None, Kind::Other, header, msg)
            },
        }
    } else {
        match sender_guest(s.objects, direction, header.sender_id) {
            None => unknown,
            Some(sender) => match s.objects.interface(sender) {
                None => unknown,
                Some(interface) => match interface.message(direction, header.opcode) {
                    None => unknown,
                    Some(desc) => relay_known(
                        s,
                        fds,
                        entries,
                        direction,
                        frozen,
                        msg,
                        header,
                        sender,
                        interface,
                        desc,
                    ),
                },
            },
        }
    }
}

/// The arguments of a message.
fn payload(msg: &Vec<u8>) -> (r: &[u8])
    requires
        msg@.len() >= HEADER_LEN,
    ensures
        r@ == payload_of(msg@),
{
    let p = slice_subrange(msg.as_slice(), HEADER_LEN, msg.len());
    assert(p@ =~= payload_of(msg@));
    p
}

/// The words of a payload are words of its message.
proof fn lemma_payload_words(msg: Seq<u8>, at: int)
    requires
        msg.len() >= HEADER_LEN,
        0 <= at,
    ensures
        wire::word_opt(payload_of(msg), at) == wire::word_opt(msg, HEADER_LEN + at),
        HEADER_LEN + at + 4 <= msg.len() ==> wire::word_at(payload_of(msg), at) == wire::word_at(
            msg,
            HEADER_LEN + at,
        ),
{
}

/// Whether every offset is that of a word of the payload.
pub open spec fn offsets_fit(msg: Seq<u8>, offsets: Seq<usize>) -> bool {
    forall|i: int|
        0 <= i < offsets.len() ==> HEADER_LEN + (#[trigger] offsets[i]) + 4 <= msg.len()
}

/// Translating arguments does not change the length of a message.
proof fn lemma_translated_len(
    objects: TableModel,
    direction: Direction,
    msg: Seq<u8>,
    offsets: Seq<usize>,
    n: int,
)
    requires
        0 <= n <= offsets.len(),
        offsets_fit(msg, offsets),
    ensures
        translated_prefix(objects, direction, msg, offsets, n).0.len() == msg.len(),
    decreases n,
{
    if n > 0 {
        lemma_translated_len(objects, direction, msg, offsets, n - 1);
    }
}

/// An argument that cannot be translated ends the translation for good.
proof fn lemma_failure_sticks(
    objects: TableModel,
    direction: Direction,
    msg: Seq<u8>,
    offsets: Seq<usize>,
    n: int,
    m: int,
)
    requires
        0 <= n <= m,
        !translated_prefix(objects, direction, msg, offsets, n).1,
    ensures
        translated_prefix(objects, direction, msg, offsets, m) == translated_prefix(
            objects,
            direction,
            msg,
            offsets,
            n,
        ),
    decreases m,
{
    if n < m {
        lemma_failure_sticks(objects, direction, msg, offsets, n, m - 1);
    }
}

/// Translates every object argument in place.  Says whether all could be.
fn translate_objects(
    objects: &ShadowTable,
    direction: Direction,
    msg: &mut Vec<u8>,
    offsets: &Vec<usize>,
) -> (r: bool)
    requires
        objects@.wf(),
        offsets_fit(old(msg)@, offsets@),
        old(msg)@.len() <= u16::MAX,
    ensures
        (final(msg)@, r) == translated(objects@, direction, old(msg)@, offsets@),
        final(msg)@.len() == old(msg)@.len(),
{
    let ghost given = msg@;
    let mut i: usize = 0;
    while i < offsets.len()
        invariant
            i <= offsets@.len(),
            given == old(msg)@,
            objects@.wf(),
            offsets_fit(given, offsets@),
            given.len() <= u16::MAX,
            msg@.len() == given.len(),
            (msg@, true) == translated_prefix(objects@, direction, given, offsets@, i as int),
        decreases offsets.len() - i,
    {
        assert(HEADER_LEN + offsets@[i as int] + 4 <= given.len());
        let at: usize = HEADER_LEN + offsets[i];
        let id: u32 = word(msg.as_slice(), at);
        let other = match direction {
            Direction::ClientToHost => objects.host_id(id),
            Direction::HostToClient => objects.guest_id(id),
        };
        match other {
            Some(id) => set_word(msg, at, id),
            None => {
                proof {
                    lemma_failure_sticks(
                        objects@,
                        direction,
                        given,
                        offsets@,
                        i + 1,
                        offsets@.len() as int,
                    );
                }
                return false;
            },
        }
        i += 1;
    }
    true
}

/// The object arguments of a message.
fn read_objects(msg: &Vec<u8>, offsets: &Vec<usize>) -> (r: Vec<u32>)
    requires
        offsets_fit(msg@, offsets@),
        msg@.len() <= u16::MAX,
    ensures
        r@ == object_values(msg@, offsets@),
{
    let mut out: Vec<u32> = Vec::new();
    let mut i: usize = 0;
    while i < offsets.len()
        invariant
            i <= offsets@.len(),
            offsets_fit(msg@, offsets@),
            msg@.len() <= u16::MAX,
            out@ == object_values(msg@, offsets@).take(i as int),
        decreases offsets.len() - i,
    {
        assert(HEADER_LEN + offsets@[i as int] + 4 <= msg@.len());
        out.push(word(msg.as_slice(), HEADER_LEN + offsets[i]));
        i += 1;
        assert(out@ =~= object_values(msg@, offsets@).take(i as int));
    }
    assert(out@ =~= object_values(msg@, offsets@));
    out
}

/// What an optional recipe says.
pub open spec fn recipe_opt<F>(recipe: Option<Recreatable<F>>) -> Option<Recipe<F>> {
    match recipe {
        Some(recipe) => Some(recipe@),
        None => None,
    }
}

/// The recipe for the object that a request creates; see [`recipe_from`].
fn capture_recipe<F>(
    kind: Kind,
    child: &Arc<InterfaceDesc>,
    msg: &Vec<u8>,
    at: usize,
    sender: u32,
    objects: &Vec<u32>,
    planes: Option<(u32, Vec<DmabufPlane<F>>)>,
) -> (r: Option<Recreatable<F>>)
    requires
        HEADER_LEN <= at,
        at + 4 <= msg@.len() <= u16::MAX,
    ensures
        recipe_opt(r) == recipe_from(
            kind,
            child@,
            msg@,
            at as int,
            sender,
            objects@,
            plane_key(planes),
        ),
{
    match kind {
        Kind::Bind => {
            if is_root(child.name.as_str()) {
                Some(
                    Recreatable::Global {
                        interface: share(child),
                        version: word(msg.as_slice(), at - 4),
                    },
                )
            } else {
                None
            }
        },
        Kind::CreateSurface => Some(Recreatable::Surface { parent_guest_id: sender }),
        Kind::GetXdgSurface => {
            if objects.len() > 0 {
                Some(
                    Recreatable::XdgSurface {
                        parent_guest_id: sender,
                        surface_guest_id: objects[0],
                    },
                )
            } else {
                None
            }
        },
        Kind::GetToplevel => Some(
            Recreatable::XdgToplevel { parent_guest_id: sender, title: None, app_id: None },
        ),
        Kind::CreateBuffer => {
            if at + 24 <= msg.len() {
                let m = msg.as_slice();
                Some(
                    Recreatable::ShmBuffer {
                        pool_guest_id: sender,
                        offset: word(m, at + 4) as i32,
                        width: word(m, at + 8) as i32,
                        height: word(m, at + 12) as i32,
                        stride: word(m, at + 16) as i32,
                        format: word(m, at + 20),
                    },
                )
            } else {
                None
            }
        },
        Kind::CreateImmed => match planes {
            Some((dmabuf_guest_id, planes)) => {
                if at + 20 <= msg.len() {
                    let m = msg.as_slice();
                    Some(
                        Recreatable::DmabufBuffer {
                            dmabuf_guest_id,
                            width: word(m, at + 4) as i32,
                            height: word(m, at + 8) as i32,
                            format: word(m, at + 12),
                            flags: word(m, at + 16),
                            planes,
                        },
                    )
                } else {
                    None
                }
            },
            None => None,
        },
        Kind::GetSeatDevice(kind) => Some(Recreatable::SeatDevice { seat_guest_id: sender, kind }),
        Kind::GetViewport => {
            if objects.len() > 0 {
                Some(
                    Recreatable::Viewport {
                        viewporter_guest_id: sender,
                        surface_guest_id: objects[0],
                        destination: None,
                    },
                )
            } else {
                None
            }
        },
        Kind::GetFractionalScale => {
            if objects.len() > 0 {
                Some(
                    Recreatable::FractionalScale {
                        manager_guest_id: sender,
                        surface_guest_id: objects[0],
                    },
                )
            } else {
                None
            }
        },
        _ => None,
    }
}

/// Creates the object whose id stands at `at`; see [`created`].
fn create_object<F>(
    session: &mut Session<F>,
    direction: Direction,
    kind: Kind,
    child: InterfaceDesc,
    msg: &mut Vec<u8>,
    at: usize,
    sender: u32,
    objects: &Vec<u32>,
) -> (r: u32)
    requires
        old(session)@.objects.wf(),
        old(session)@.has_room(),
        HEADER_LEN <= at,
        at + 4 <= old(msg)@.len() <= u16::MAX,
    ensures
        ({
            let c = created(
                old(session)@,
                direction,
                kind,
                child@,
                old(msg)@,
                at as int,
                sender,
                objects@,
            );
            final(session)@ == c.session && final(msg)@ == c.msg && c.new_guest == Some(r)
        }),
        final(session)@.objects.wf(),
        final(msg)@.len() == old(msg)@.len(),
{
    let chosen: u32 = word(msg.as_slice(), at);
    let child = Arc::new(child);
    match direction {
        Direction::ClientToHost => {
            let host: u32 = session.objects.allocate_host_id();
            session.objects.map(chosen, host, share(&child));
            let planes = match kind {
                Kind::CreateImmed => session.pending_dmabuf_planes.remove(&sender),
                _ => None,
            };
            proof {
                assert(plane_key(planes) == at_key(old(session)@.planes, sender) || !(kind is CreateImmed));
            }
            let recipe = capture_recipe(kind, &child, msg, at, sender, objects, planes);
            if let Some(recipe) = recipe {
                session.graph.record(chosen, recipe);
            }
            if matches!(kind, Kind::CreateParams) {
                let none: Vec<DmabufPlane<F>> = Vec::new();
                session.pending_dmabuf_planes.insert(chosen, (sender, none));
                assert(none@ =~= Seq::empty());
            }
            set_word(msg, at, host);
            assert(session@.planes =~= planes_after(old(session)@.planes, kind, sender, chosen));
            chosen
        },
        Direction::HostToClient => {
            let guest: u32 = session.objects.allocate_guest_server_id();
            session.objects.map(guest, chosen, child);
            set_word(msg, at, guest);
            guest
        },
    }
}

/// What an optional entry of the pending planes is.
pub open spec fn plane_key<F>(planes: Option<(u32, Vec<DmabufPlane<F>>)>) -> Option<
    (u32, Seq<DmabufPlane<F>>),
> {
    match planes {
        Some(p) => Some((p.0, p.1@)),
        None => None,
    }
}

/// What an optional clipboard offer says.
pub open spec fn splice_opt(splice: Option<SplicePlan>) -> Option<SpliceModel> {
    match splice {
        Some(p) => Some(p@),
        None => None,
    }
}

/// Takes note of focus and buttons; see [`grabs_after`].
fn observe_grabs<F>(session: &mut Session<F>, kind: Kind, sender: u32, p: &[u8])
    ensures
        final(session)@ == grabs_after(old(session)@, kind, sender, p@),
{
    match kind {
        Kind::PointerEnter => {
            if let Some(surface) = read_u32(p, 4) {
                session.grabs.on_pointer_enter(sender, surface);
            }
        },
        Kind::PointerLeave => session.grabs.on_pointer_leave(sender),
        Kind::PointerButton => {
            if let (Some(button), Some(state)) = (read_u32(p, 8), read_u32(p, 12)) {
                session.grabs.on_pointer_button(sender, button, state);
            }
        },
        Kind::KeyboardEnter => {
            if let Some(surface) = read_u32(p, 4) {
                session.grabs.on_keyboard_enter(sender, surface);
            }
        },
        Kind::KeyboardLeave => session.grabs.on_keyboard_leave(sender),
        _ => {},
    }
}

/// Spends an input serial on a clipboard offer if one is due; see
/// [`splice_for`] and [`after_splice`].
fn observe_serial<F>(
    session: &mut Session<F>,
    kind: Kind,
    p: &[u8],
    cache: &ClipboardCache,
) -> (r: Option<SplicePlan>)
    requires
        old(session)@.objects.wf(),
        kind.carries_input_serial() ==> old(session)@.objects.next_host_id <= u32::MAX - 3,
        clipboard::cache_wf(cache@),
    ensures
        splice_opt(r) == splice_for(old(session)@, kind, p@, cache@),
        final(session)@ == after_splice(old(session)@, kind, p@, cache@),
        final(session)@.objects.wf(),
{
    if session.reclaim.pending && kind.has_input_serial() {
        if let Some(serial) = read_u32(p, 0) {
            return attempt_clipboard_splice(
                &mut session.objects,
                &mut session.reclaim,
                cache,
                serial,
            );
        }
    }
    None
}

/// Keeps the recipe of a tracked object up to date; see [`graph_after`].
fn observe_change<F>(session: &mut Session<F>, kind: Kind, sender: u32, p: &[u8])
    ensures
        final(session)@ == (SessionModel {
            graph: graph_after(old(session)@.graph, kind, sender, p@),
            ..old(session)@
        }),
{
    match kind {
        Kind::PoolResize => {
            if let Some(size) = read_u32(p, 0) {
                session.graph.update_shm_pool_size(sender, size as i32);
            }
        },
        Kind::SetTitle => {
            if let Some((title, _)) = read_str(p, 0) {
                session.graph.update_toplevel_title(sender, title);
            }
        },
        Kind::SetAppId => {
            if let Some((app_id, _)) = read_str(p, 0) {
                session.graph.update_toplevel_app_id(sender, app_id);
            }
        },
        Kind::SetDestination => {
            if let (Some(width), Some(height)) = (read_u32(p, 0), read_u32(p, 4)) {
                session.graph.update_viewport_destination(sender, width as i32, height as i32);
            }
        },
        _ => {},
    }
}

/// Lets the trackers see a message; see [`observed`].
fn observe<F>(
    session: &mut Session<F>,
    kind: Kind,
    sender: u32,
    msg: &mut Vec<u8>,
    new_guest: Option<u32>,
    objects: &Vec<u32>,
    cache: &ClipboardCache,
) -> (r: (Option<SplicePlan>, Option<Outcome>))
    requires
        old(session)@.objects.wf(),
        kind.carries_input_serial() ==> old(session)@.objects.next_host_id <= u32::MAX - 3,
        clipboard::cache_wf(cache@),
        HEADER_LEN <= old(msg)@.len() <= u16::MAX,
    ensures
        ({
            let o = observed(
                old(session)@,
                kind,
                sender,
                old(msg)@,
                new_guest,
                objects@,
                cache@,
            );
            &&& final(session)@ == o.session
            &&& final(msg)@ == o.msg
            &&& splice_opt(r.0) == o.splice
            &&& r.1 == o.stop
        }),
        final(session)@.objects.wf(),
        final(msg)@.len() == old(msg)@.len(),
{
    match kind {
        Kind::DeleteId => {
            if let Some(host) = read_u32(payload(msg), 0) {
                proof {
                    lemma_payload_words(msg@, 0);
                }
                match session.objects.guest_id(host) {
                    Some(guest) => {
                        session.objects.remove_guest(guest);
                        session.graph.remove(guest);
                        set_word(msg, HEADER_LEN, guest);
                    },
                    None => return (None, Some(Outcome::DroppedUntrackedDeleteId)),
                }
            }
            (None, None)
        },
        Kind::BufferRelease => {
            if !session.objects.is_current_generation(sender) {
                return (None, Some(Outcome::DroppedStaleGeneration));
            }
            session.buffer_flow.on_release(sender);
            (None, None)
        },
        Kind::Attach => {
            let buffer: u32 = if objects.len() > 0 {
                objects[0]
            } else {
                0
            };
            session.buffer_flow.on_attach(sender, buffer);
            (None, None)
        },
        Kind::Commit => {
            session.buffer_flow.on_commit(sender);
            (None, None)
        },
        Kind::Frame => {
            if let Some(callback) = new_guest {
                if session.objects.host_id(sender).is_some() {
                    session.pending_frames.on_frame_requested(callback);
                }
            }
            (None, None)
        },
        Kind::Sync => {
            if let Some(callback) = new_guest {
                if session.objects.host_id(sender).is_some() {
                    session.pending_frames.on_sync_requested(callback);
                }
            }
            (None, None)
        },
        Kind::CallbackDone => {
            session.pending_frames.on_done_received(sender);
            (None, None)
        },
        Kind::AckConfigure => {
            if let Some(serial) = read_u32(payload(msg), 0) {
                let invented = match session.pending_configure_acks.get(&sender) {
                    Some(pending) => *pending == serial,
                    None => false,
                };
                if invented {
                    session.pending_configure_acks.remove(&sender);
                    return (None, Some(Outcome::AckSwallowed));
                }
            }
            (None, None)
        },
        Kind::PoolResize | Kind::SetTitle | Kind::SetAppId | Kind::SetDestination => {
            observe_change(session, kind, sender, payload(msg));
            (None, None)
        },
        _ => {
            observe_grabs(session, kind, sender, payload(msg));
            let splice = observe_serial(session, kind, payload(msg), cache);
            (splice, None)
        },
    }
}

/// Appends `wl_display.delete_id`; see [`delete_id_messages`].
pub(crate) fn put_delete_id(out: &mut Vec<Vec<u8>>, objects: &ShadowTable, id: u32)
    ensures
        clipboard::message_list(final(out)@) == clipboard::message_list(old(out)@)
            + delete_id_messages(objects@, id),
{
    let ghost before = clipboard::message_list(out@);
    if let Some(display) = objects.interface(1) {
        if let Some(opcode) = event_opcode(&display, "delete_id") {
            let mut p: Vec<u8> = Vec::new();
            put_u32(&mut p, id);
            assert(p@ =~= wire::word_bytes(id));
            out.push(build_message(1, opcode, p.as_slice()));
            assert(clipboard::message_list(out@) =~= before.push(
                wire::message_bytes(1, opcode, wire::word_bytes(id)),
            ));
        }
    }
    assert(clipboard::message_list(out@) =~= before + delete_id_messages(objects@, id));
}

/// Appends the answer to a callback that no compositor will give; see
/// [`frame_done_messages`].
pub fn synthesize_frame_done(out: &mut Vec<Vec<u8>>, objects: &ShadowTable, callback_guest_id: u32)
    ensures
        clipboard::message_list(final(out)@) == clipboard::message_list(old(out)@)
            + frame_done_messages(objects@, callback_guest_id),
{
    let ghost before = clipboard::message_list(out@);
    let callback = match objects.interface(callback_guest_id) {
        Some(callback) => callback,
        None => {
            assert(before =~= before + frame_done_messages(objects@, callback_guest_id));
            return ;
        },
    };
    if let Some(opcode) = event_opcode(&callback, "done") {
        let mut p: Vec<u8> = Vec::new();
        put_u32(&mut p, 0);
        assert(p@ =~= wire::word_bytes(0));
        out.push(build_message(callback_guest_id, opcode, p.as_slice()));
        assert(clipboard::message_list(out@) =~= before.push(
            wire::message_bytes(callback_guest_id, opcode, wire::word_bytes(0)),
        ));
    }
    put_delete_id(out, objects, callback_guest_id);
    assert(clipboard::message_list(out@) =~= before + frame_done_messages(
        objects@,
        callback_guest_id,
    ));
}

/// Gives up a request on an object the host never heard of; see
/// [`senderless_replies`] and [`after_senderless`].
fn give_up<F>(
    session: &mut Session<F>,
    kind: Kind,
    is_destructor: bool,
    sender: u32,
    new_guest: Option<u32>,
) -> (r: Vec<Vec<u8>>)
    requires
        old(session)@.objects.wf(),
        new_guest is Some ==> old(session)@.objects.next_host_id > 0,
    ensures
        clipboard::message_list(r@) == senderless_replies(
            old(session)@.objects,
            kind,
            is_destructor,
            sender,
            new_guest,
        ),
        final(session)@ == after_senderless(old(session)@, is_destructor, sender, new_guest),
        final(session)@.objects.wf(),
{
    let mut replies: Vec<Vec<u8>> = Vec::new();
    assert(clipboard::message_list(replies@) =~= Seq::empty());
    if is_destructor {
        put_delete_id(&mut replies, &session.objects, sender);
        session.objects.remove_guest(sender);
        session.graph.remove(sender);
    } else if let Some(callback) = new_guest {
        if matches!(kind, Kind::Frame) {
            synthesize_frame_done(&mut replies, &session.objects, callback);
        }
    }
    assert(clipboard::message_list(replies@) =~= senderless_replies(
        old(session)@.objects,
        kind,
        is_destructor,
        sender,
        new_guest,
    ));
    if let Some(phantom) = new_guest {
        if let Some(host) = session.objects.host_id(phantom) {
            session.objects.unallocate_host_id(host);
        }
        session.objects.remove_guest(phantom);
        session.graph.remove(phantom);
    }
    replies
}

/// Takes up to `n` descriptors from the front of the queue.
fn take_fds<F>(fds: &mut VecDeque<Arc<F>>, n: usize) -> (r: Vec<Arc<F>>)
    ensures
        ({
            let k = if n <= old(fds)@.len() {
                n as int
            } else {
                old(fds)@.len() as int
            };
            r@ == old(fds)@.take(k) && final(fds)@ == old(fds)@.skip(k)
        }),
{
    let ghost given = fds@;
    let mut own: Vec<Arc<F>> = Vec::new();
    let mut i: usize = 0;
    while i < n && fds.len() > 0
        invariant
            i <= n,
            i <= given.len(),
            own@ == given.take(i as int),
            fds@ == given.skip(i as int),
        decreases n - i,
    {
        if let Some(fd) = fds.pop_front() {
            own.push(fd);
        }
        i += 1;
        assert(own@ =~= given.take(i as int));
        assert(fds@ =~= given.skip(i as int));
    }
    own
}

/// Keeps a handle to a descriptor that backs a buffer; see
/// [`after_retaining`].
fn retain<F>(
    session: &mut Session<F>,
    kind: Kind,
    sender: u32,
    new_guest: Option<u32>,
    new_id_offset: Option<usize>,
    p: &[u8],
    fds: &Vec<Arc<F>>,
)
    requires
        p@.len() <= u16::MAX,
        new_id_offset matches Some(at) ==> at <= u16::MAX,
    ensures
        final(session)@ == after_retaining(
            old(session)@,
            kind,
            sender,
            new_guest,
            new_id_offset,
            p@,
            fds@,
        ),
{
    if fds.len() == 0 {
        return ;
    }
    let fd = &fds[fds.len() - 1];
    match kind {
        Kind::CreatePool => {
            if let Some(pool) = new_guest {
                let size: i32 = match new_id_offset {
                    Some(at) => match read_u32(p, at + 4) {
                        Some(size) => size as i32,
                        None => 0,
                    },
                    None => 0,
                };
                session.graph.record(
                    pool,
                    Recreatable::ShmPool { wl_shm_guest_id: sender, fd: share(fd), size },
                );
            }
        },
        Kind::ParamsAdd => {
            if p.len() >= 20 {
                if let Some((dmabuf, planes)) = session.pending_dmabuf_planes.remove(&sender) {
                    let mut planes = planes;
                    let ghost before = planes@;
                    let high: u64 = word(p, 12) as u64;
                    let low: u64 = word(p, 16) as u64;
                    planes.push(
                        DmabufPlane {
                            fd: share(fd),
                            plane_idx: word(p, 0),
                            offset: word(p, 4),
                            stride: word(p, 8),
                            modifier: high * 0x1_0000_0000 + low,
                        },
                    );
                    session.pending_dmabuf_planes.insert(sender, (dmabuf, planes));
                    assert(session@.planes =~= old(session)@.planes.insert(
                        sender,
                        (dmabuf, planes@),
                    ));
                }
            }
            assert(session@ =~= after_retaining(
                old(session)@,
                kind,
                sender,
                new_guest,
                new_id_offset,
                p@,
                fds@,
            ));
        },
        _ => {},
    }
}

/// The content type to cache while a transfer goes by; see [`tee_for`].
fn choose_tee(kind: Kind, p: &[u8], fd_count: usize) -> (r: Option<String>)
    ensures
        text::text_opt(r) == tee_for(kind, p@, fd_count as int),
{
    if !matches!(kind, Kind::SourceSend) || fd_count == 0 {
        return None;
    }
    match read_str(p, 0) {
        Some((mime_type, _)) => {
            if is_cacheable_mime(mime_type.as_str()) {
                Some(mime_type)
            } else {
                None
            }
        },
        None => None,
    }
}

/// A step that drops a message without further ado.
fn drop_step<F>(
    outcome: Outcome,
    interface: Option<Arc<InterfaceDesc>>,
    kind: Kind,
    header: MessageHeader,
    bytes: Vec<u8>,
) -> (r: Step<F>)
    ensures
        r@ == StepModel::<F>::dropped(
            outcome,
            match interface {
                Some(i) => Some(i@),
                None => None,
            },
            kind,
            header,
            bytes@,
        ),
{
    let step = Step {
        outcome,
        interface,
        kind,
        sender_id: header.sender_id,
        opcode: header.opcode,
        bytes,
        fd_count: 0,
        fds: Vec::new(),
        tee: None,
        replies: Vec::new(),
        splice: None,
        clipboard: None,
    };
    assert(step@.replies =~= Seq::empty());
    step
}

/// Addresses a translated message to its receiver, or gives it up; see
/// [`delivered`].
fn deliver<F>(
    session: &mut Session<F>,
    fds: &mut VecDeque<Arc<F>>,
    direction: Direction,
    frozen: bool,
    header: MessageHeader,
    interface: Arc<InterfaceDesc>,
    is_destructor: bool,
    kind: Kind,
    sender: u32,
    walk: SignatureWalk,
    new_guest: Option<u32>,
    msg: Vec<u8>,
    splice: Option<SplicePlan>,
) -> (r: Step<F>)
    requires
        old(session)@.objects.wf(),
        direction is ClientToHost && new_guest is Some ==> old(session)@.objects.next_host_id > 0,
        HEADER_LEN <= msg@.len() <= u16::MAX,
        walk.new_id_offset matches Some(at) ==> at <= u16::MAX,
    ensures
        forall|desc: MessageModel|
            desc.is_destructor == is_destructor ==> (Relay {
                session: final(session)@,
                fds: final(fds)@,
                step: r@,
            }) == #[trigger] delivered(
                old(session)@,
                old(fds)@,
                direction,
                frozen,
                header,
                interface@,
                desc,
                kind,
                sender,
                walk@,
                new_guest,
                msg@,
                splice_opt(splice),
            ),
        final(session)@.objects.wf(),
{
    let receiver_id = match direction {
        Direction::ClientToHost => session.objects.host_id(sender),
        Direction::HostToClient => Some(sender),
    };
    match receiver_id {
        None => {
            let replies = give_up(session, kind, is_destructor, sender, new_guest);
            let mut step = drop_step(
                Outcome::DroppedSenderless,
                Some(interface),
                kind,
                header,
                msg,
            );
            step.replies = replies;
            step.splice = splice;
            step
        },
        Some(id) => {
            let mut bytes = msg;
            set_word(&mut bytes, 0, id);
            let own = take_fds(fds, walk.fd_count);
            retain(session, kind, sender, new_guest, walk.new_id_offset, payload(&bytes), &own);
            let tee = choose_tee(kind, payload(&bytes), own.len());
            let step = Step {
                outcome: if frozen {
                    Outcome::DroppedFrozen
                } else {
                    Outcome::Relayed
                },
                interface: Some(interface),
                kind,
                sender_id: id,
                opcode: header.opcode,
                bytes,
                fd_count: if frozen {
                    walk.fd_count
                } else {
                    own.len()
                },
                fds: own,
                tee,
                replies: Vec::new(),
                splice,
                clipboard: None,
            };
            assert(step@.replies =~= Seq::empty());
            step
        },
    }
}

/// The message description that `opcode` stands for.
fn find_message(interface: &InterfaceDesc, direction: Direction, opcode: u16) -> (r: Option<
    &MessageDesc,
>)
    ensures
        match r {
            Some(desc) => interface@.message(direction, opcode) == Some(desc@),
            None => interface@.message(direction, opcode) is None,
        },
{
    let table = match direction {
        Direction::ClientToHost => &interface.requests,
        Direction::HostToClient => &interface.events,
    };
    if (opcode as usize) < table.len() {
        Some(&table[opcode as usize])
    } else {
        None
    }
}

/// Gives the object that a message creates an id on the other side; see
/// [`created`].  Returns the guest id of that object, if the message creates
/// one, or `None` where its interface is not known; see [`unresolved`].
fn admit_new_object<F>(
    session: &mut Session<F>,
    direction: Direction,
    kind: Kind,
    desc: &MessageDesc,
    walk: &SignatureWalk,
    msg: &mut Vec<u8>,
    sender: u32,
    objects: &Vec<u32>,
) -> (r: Option<Option<u32>>)
    requires
        old(session)@.objects.wf(),
        old(session)@.has_room(),
        old(msg)@.len() <= u16::MAX,
        walk.new_id_offset matches Some(at) ==> HEADER_LEN + at + 4 <= old(msg)@.len(),
    ensures
        match walk@.new_id_offset {
            None => r == Some(None::<u32>) && final(session)@ == old(session)@ && final(msg)@
                == old(msg)@,
            Some(at) => match signature::child_interface(desc@, walk@.dynamic_interface_name) {
                None => r is None && final(msg)@ == old(msg)@ && final(session)@ == unresolved(
                    old(session)@,
                    direction,
                    wire::word_at(old(msg)@, HEADER_LEN + at),
                    walk@.dynamic_interface_name,
                ),
                Some(child) => {
                    let c = created(
                        old(session)@,
                        direction,
                        kind,
                        child,
                        old(msg)@,
                        HEADER_LEN + at,
                        sender,
                        objects@,
                    );
                    r == Some(c.new_guest) && final(session)@ == c.session && final(msg)@ == c.msg
                },
            },
        },
        final(session)@.objects.wf(),
        final(msg)@.len() == old(msg)@.len(),
        r matches Some(new_guest) ==> final(session)@.objects.next_host_id == old(
            session,
        )@.objects.next_host_id + if direction is ClientToHost && new_guest is Some {
            1int
        } else {
            0
        },
{
    let at: usize = match walk.new_id_offset {
        None => return Some(None),
        Some(offset) => HEADER_LEN + offset,
    };
    let name = match &walk.dynamic_interface_name {
        Some(name) => Some(name.as_str()),
        None => None,
    };
    match resolve_child_interface(desc, name) {
        Some((child, _)) => Some(
            Some(create_object(session, direction, kind, child, msg, at, sender, objects)),
        ),
        None => {
            let chosen: u32 = word(msg.as_slice(), at);
            if let Direction::ClientToHost = direction {
                if let Some(name) = name {
                    session.objects.remember_unresolvable_interface(chosen, name.to_owned());
                }
            }
            None
        },
    }
}

/// Relays a message once every id in it is translated; see [`relay_created`].
fn relay_translated<F>(
    session: &mut Session<F>,
    fds: &mut VecDeque<Arc<F>>,
    cache: &ClipboardCache,
    direction: Direction,
    frozen: bool,
    msg: Vec<u8>,
    header: MessageHeader,
    sender: u32,
    interface: Arc<InterfaceDesc>,
    desc: &MessageDesc,
    kind: Kind,
    walk: SignatureWalk,
    objects: Vec<u32>,
    new_guest: Option<u32>,
) -> (r: Step<F>)
    requires
        old(session)@.objects.wf(),
        kind == kinds::kind_of(direction, interface@.name, desc@.name),
        direction is HostToClient ==> old(session)@.objects.next_host_id <= u32::MAX - 3,
        direction is ClientToHost && new_guest is Some ==> old(session)@.objects.next_host_id > 0,
        clipboard::cache_wf(cache@),
        HEADER_LEN <= msg@.len() <= u16::MAX,
        walk.new_id_offset matches Some(at) ==> at <= u16::MAX,
    ensures
        (Relay { session: final(session)@, fds: final(fds)@, step: r@ }) == relay_created(
            Created { session: old(session)@, msg: msg@, new_guest },
            old(fds)@,
            cache@,
            direction,
            frozen,
            header,
            sender,
            interface@,
            desc@,
            walk@,
            objects@,
        ),
        final(session)@.objects.wf(),
{
    let mut msg = msg;
    let (splice, stop) = observe(session, kind, sender, &mut msg, new_guest, &objects, cache);
    if let Some(outcome) = stop {
        let mut step = drop_step(outcome, Some(interface), kind, header, msg);
        step.splice = splice;
        return step;
    }
    deliver(
        session,
        fds,
        direction,
        frozen,
        header,
        interface,
        desc.is_destructor,
        kind,
        sender,
        walk,
        new_guest,
        msg,
        splice,
    )
}

/// Relays a message whose sender and description are known; see
/// [`relay_known`].
fn relay_described<F>(
    session: &mut Session<F>,
    fds: &mut VecDeque<Arc<F>>,
    cache: &ClipboardCache,
    direction: Direction,
    frozen: bool,
    msg: Vec<u8>,
    header: MessageHeader,
    sender: u32,
    interface: Arc<InterfaceDesc>,
    desc: &MessageDesc,
) -> (r: Step<F>)
    requires
        old(session)@.objects.wf(),
        old(session)@.has_room(),
        clipboard::cache_wf(cache@),
        HEADER_LEN <= msg@.len() <= u16::MAX,
    ensures
        (Relay { session: final(session)@, fds: final(fds)@, step: r@ }) == relay_known(
            old(session)@,
            old(fds)@,
            cache@,
            direction,
            frozen,
            msg@,
            header,
            sender,
            interface@,
            desc@,
        ),
        final(session)@.objects.wf(),
{
    let kind = classify(direction, interface.name.as_str(), desc.name.as_str());
    let walk = match walk_signature(payload(&msg), desc.signature.as_slice()) {
        Ok(walk) => walk,
        Err(_) => {
            return drop_step(Outcome::DroppedParseError, Some(interface), kind, header, msg);
        },
    };
    proof {
        signature::lemma_walk_in_bounds(
            payload_of(msg@),
            desc.signature@,
            desc.signature@.len() as int,
        );
        assert(offsets_fit(msg@, walk.object_offsets@));
    }
    let objects = read_objects(&msg, &walk.object_offsets);
    let mut msg = msg;
    if !translate_objects(&session.objects, direction, &mut msg, &walk.object_offsets) {
        return drop_step(Outcome::DroppedUntranslatable, Some(interface), kind, header, msg);
    }
    let new_guest: Option<u32> = match admit_new_object(
        session,
        direction,
        kind,
        desc,
        &walk,
        &mut msg,
        sender,
        &objects,
    ) {
        Some(new_guest) => new_guest,
        None => {
            return drop_step(
                Outcome::DroppedUnresolvableChild,
                Some(interface),
                kind,
                header,
                msg,
            );
        },
    };
    relay_translated(
        session,
        fds,
        cache,
        direction,
        frozen,
        msg,
        header,
        sender,
        interface,
        desc,
        kind,
        walk,
        objects,
        new_guest,
    )
}

/// Relays one complete message; see [`relay`].  `frozen` says that there is
/// nobody on the other side.
pub fn relay_message<F>(
    session: &mut Session<F>,
    fds: &mut VecDeque<Arc<F>>,
    cache: &ClipboardCache,
    direction: Direction,
    frozen: bool,
    msg: Vec<u8>,
) -> (r: Step<F>)
    requires
        old(session)@.objects.wf(),
        old(session)@.has_room(),
        clipboard::cache_wf(cache@),
        HEADER_LEN <= msg@.len() <= u16::MAX,
    ensures
        (Relay { session: final(session)@, fds: final(fds)@, step: r@ }) == relay(
            old(session)@,
            old(fds)@,
            cache@,
            direction,
            frozen,
            msg@,
        ),
        final(session)@.objects.wf(),
{
    let header = MessageHeader::parse(msg.as_slice()).unwrap();
    let own_source = match session.reclaim.active_source_host_id {
        Some(id) => id == header.sender_id,
        None => false,
    };
    if matches!(direction, Direction::HostToClient) && own_source {
        let reply = handle_synthetic_clipboard_event(
            fds,
            msg.as_slice(),
            header.opcode,
            cache,
            &mut session.reclaim,
        );
        let mut step = drop_step(Outcome::ClipboardEvent, None, Kind::Other, header, msg);
        step.clipboard = reply;
        return step;
    }
    let sender: u32 = match direction {
        Direction::ClientToHost => header.sender_id,
        Direction::HostToClient => match session.objects.guest_id(header.sender_id) {
            Some(sender) => sender,
            None => return drop_step(Outcome::DroppedUnknown, None, Kind::Other, header, msg),
        },
    };
    let interface = match session.objects.interface(sender) {
        Some(interface) => interface,
        None => return drop_step(Outcome::DroppedUnknown, None, Kind::Other, header, msg),
    };
    let description = share(&interface);
    match find_message(&description, direction, header.opcode) {
        Some(desc) => relay_described(
            session,
            fds,
            cache,
            direction,
            frozen,
            msg,
            header,
            sender,
            interface,
            desc,
        ),
        None => drop_step(Outcome::DroppedUnknown, None, Kind::Other, header, msg),
    }
}

/// Whether a string fits a message of its own.
pub open spec fn fits_message(s: Seq<char>) -> bool {
    HEADER_LEN + wire::str_bytes(s).len() <= u16::MAX
}

/// A client's message with the application id it sets put right: where the id
/// is not that of an installed application and the client's program is known,
/// the id of that program's application stands in its place.
pub open spec fn corrected<F>(
    s: SessionModel<F>,
    identity: IdentityModel,
    direction: Direction,
    msg: Seq<u8>,
) -> Seq<u8> {
    let header = wire::header_of(msg)->0;
    match (direction, s.objects.interface(header.sender_id)) {
        (Direction::ClientToHost, Some(interface)) => match interface.message(
            direction,
            header.opcode,
        ) {
            Some(desc) if kinds::kind_of(direction, interface.name, desc.name) is SetAppId =>
                match wire::str_opt(payload_of(msg), 0) {
                Some((app_id, _)) => match identity.index.replacement(
                    app_id,
                    identity.binary_name,
                ) {
                    Some(id) if fits_message(id) => wire::message_bytes(
                        header.sender_id,
                        header.opcode,
                        wire::str_bytes(id),
                    ),
                    _ => msg,
                },
                None => msg,
            },
            _ => msg,
        },
        _ => msg,
    }
}

/// Puts an application id right; see [`corrected`].
fn correct_app_id<F>(
    session: &Session<F>,
    identity: &ClientIdentity,
    direction: Direction,
    msg: Vec<u8>,
) -> (r: Vec<u8>)
    requires
        HEADER_LEN <= msg@.len() <= u16::MAX,
    ensures
        r@ == corrected(session@, identity@, direction, msg@),
        HEADER_LEN <= r@.len() <= u16::MAX,
{
    if let Direction::HostToClient = direction {
        return msg;
    }
    let header = MessageHeader::parse(msg.as_slice()).unwrap();
    let interface = match session.objects.interface(header.sender_id) {
        Some(interface) => interface,
        None => return msg,
    };
    let kind = match find_message(&interface, direction, header.opcode) {
        Some(desc) => classify(direction, interface.name.as_str(), desc.name.as_str()),
        None => return msg,
    };
    if !matches!(kind, Kind::SetAppId) {
        return msg;
    }
    let app_id = match read_str(payload(&msg), 0) {
        Some((app_id, _)) => app_id,
        None => return msg,
    };
    let id = match identity.replacement(app_id.as_str()) {
        Some(id) => id,
        None => return msg,
    };
    proof {
        wire::lemma_str_bytes_len(id@);
    }
    if id.as_str().as_bytes().len() > u16::MAX as usize {
        return msg;
    }
    let mut p: Vec<u8> = Vec::new();
    put_str(&mut p, id.as_str());
    assert(p@ =~= wire::str_bytes(id@));
    if p.len() > u16::MAX as usize - HEADER_LEN {
        return msg;
    }
    proof {
        wire::lemma_message_len(header.sender_id, header.opcode, p@);
    }
    build_message(header.sender_id, header.opcode, p.as_slice())
}

/// Relays the first complete message that has arrived, if there is one.
pub fn relay_next<F>(
    session: &mut Session<F>,
    inbound: &mut Inbound<F>,
    cache: &ClipboardCache,
    identity: &ClientIdentity,
    direction: Direction,
    frozen: bool,
) -> (r: Option<Step<F>>)
    requires
        old(session)@.objects.wf(),
        old(session)@.has_room(),
        clipboard::cache_wf(cache@),
    ensures
        match wire::front_message_len(old(inbound).read_buf@) {
            Some(n) => {
                let msg = corrected(
                    old(session)@,
                    identity@,
                    direction,
                    old(inbound).read_buf@.take(n),
                );
                &&& r is Some
                &&& (Relay { session: final(session)@, fds: final(inbound).read_fds@, step: r->0@ })
                    == relay(
                    old(session)@,
                    old(inbound).read_fds@,
                    cache@,
                    direction,
                    frozen,
                    msg,
                )
                &&& final(inbound).read_buf@ == old(inbound).read_buf@.skip(n)
            },
            None => r is None && final(session)@ == old(session)@ && final(inbound).read_buf@ == old(
                inbound,
            ).read_buf@ && final(inbound).read_fds@ == old(inbound).read_fds@,
        },
        final(session)@.objects.wf(),
{
    match inbound.take() {
        Some(msg) => {
            let msg = correct_app_id(session, identity, direction, msg);
            Some(relay_message(session, &mut inbound.read_fds, cache, direction, frozen, msg))
        },
        None => None,
    }
}

/// A protocol error that the compositor reported.
pub struct DisplayError {
    pub object: u32,
    pub code: u32,
    pub message: String,
}

/// The text of a reported error: what a diagnostic shows for it.
pub open spec fn error_text(p: Seq<u8>) -> Seq<char> {
    let len = wire::word_at(p, 8) as int;
    if len > 0 && p.len() >= 12 + len - 1 {
        match wire::text_of(p.subrange(12, 12 + len - 1)) {
            Some(text) => text,
            None => "<invalid utf8>"@,
        }
    } else {
        "<empty>"@
    }
}

/// Decodes the arguments of `wl_display.error`, if they are all there.
pub fn decode_display_error(p: &[u8]) -> (r: Option<DisplayError>)
    ensures
        r is Some <==> p@.len() >= 12,
        r matches Some(e) ==> e.object == wire::word_at(p@, 0) && e.code == wire::word_at(p@, 4)
            && e.message@ == error_text(p@),
{
    if p.len() < 12 {
        return None;
    }
    let len: u32 = word(p, 8);
    let message = if len > 0 && p.len() as u128 >= 12 + (len as u128 - 1) {
        let stop: usize = 12 + (len as usize - 1);
        match decode_text(slice_subrange(p, 12, stop)) {
            Some(text) => text,
            None => "<invalid utf8>".to_owned(),
        }
    } else {
        "<empty>".to_owned()
    };
    Some(DisplayError { object: word(p, 0), code: word(p, 4), message })
}

} // verus!
