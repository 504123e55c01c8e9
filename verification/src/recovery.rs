//! Brings a connection back to life on a fresh compositor.
//!
//! The proxy acts as a client of its own: it fetches the registry again, then
//! creates every tracked object again, parents first, and maps it onto the id
//! the client already holds.  Each step hands out messages; the next step is
//! taken once they were sent.  What cannot be recreated is skipped.
use crate::arguments;
use crate::arguments::{encode_arguments, ValueModel, WaylandValue};
use crate::clipboard;
use crate::clipboard::ReclaimState;
use crate::interfaces;
use crate::interfaces::describe;
use crate::recreation::{DmabufPlane, Recipe, Recreatable};
use crate::relay;
use crate::relay::synthesize_frame_done;
use crate::schema;
use crate::schema::{
    event_opcode, request_opcode, same_text, share, InterfaceDesc, InterfaceModel, MessageModel,
};
use crate::session::{Inbound, Session, SessionModel};
use crate::shadow_table::{ShadowTable, TableModel};
use crate::text;
use crate::wire;
use crate::wire::{build_message, put_u32, read_str, read_u32, MessageHeader, HEADER_LEN};
use std::sync::Arc;
use vstd::prelude::*;
use vstd::slice::slice_subrange;

verus! {

broadcast use vstd::std_specs::hash::group_hash_axioms;

/// Name and version of each global that recovery asks for, as far as the new
/// compositor advertised it.
#[derive(Debug, Clone, Copy)]
pub struct Globals {
    pub wl_compositor: Option<(u32, u32)>,
    pub xdg_wm_base: Option<(u32, u32)>,
    pub wl_shm: Option<(u32, u32)>,
    pub zwp_linux_dmabuf_v1: Option<(u32, u32)>,
    pub wl_seat: Option<(u32, u32)>,
    pub wp_viewporter: Option<(u32, u32)>,
    pub wp_fractional_scale_manager_v1: Option<(u32, u32)>,
    pub wl_data_device_manager: Option<(u32, u32)>,
}

impl Globals {
    /// None advertised yet.
    pub open spec fn none() -> Globals {
        Globals {
            wl_compositor: None,
            xdg_wm_base: None,
            wl_shm: None,
            zwp_linux_dmabuf_v1: None,
            wl_seat: None,
            wp_viewporter: None,
            wp_fractional_scale_manager_v1: None,
            wl_data_device_manager: None,
        }
    }

    /// After a global was advertised: the last of each interface counts, and
    /// the others do not.
    pub open spec fn with(self, interface: Seq<char>, global: (u32, u32)) -> Globals {
        if interface == "wl_compositor"@ {
            Globals { wl_compositor: Some(global), ..self }
        } else if interface == "xdg_wm_base"@ {
            Globals { xdg_wm_base: Some(global), ..self }
        } else if interface == "wl_shm"@ {
            Globals { wl_shm: Some(global), ..self }
        } else if interface == "zwp_linux_dmabuf_v1"@ {
            Globals { zwp_linux_dmabuf_v1: Some(global), ..self }
        } else if interface == "wl_seat"@ {
            Globals { wl_seat: Some(global), ..self }
        } else if interface == "wp_viewporter"@ {
            Globals { wp_viewporter: Some(global), ..self }
        } else if interface == "wp_fractional_scale_manager_v1"@ {
            Globals { wp_fractional_scale_manager_v1: Some(global), ..self }
        } else if interface == "wl_data_device_manager"@ {
            Globals { wl_data_device_manager: Some(global), ..self }
        } else {
            self
        }
    }

    /// The global to recreate an object of the interface from.
    pub open spec fn root(self, interface: Seq<char>) -> Option<(u32, u32)> {
        if interface == "wl_compositor"@ {
            self.wl_compositor
        } else if interface == "xdg_wm_base"@ {
            self.xdg_wm_base
        } else if interface == "wl_shm"@ {
            self.wl_shm
        } else if interface == "zwp_linux_dmabuf_v1"@ {
            self.zwp_linux_dmabuf_v1
        } else if interface == "wl_seat"@ {
            self.wl_seat
        } else if interface == "wp_viewporter"@ {
            self.wp_viewporter
        } else if interface == "wp_fractional_scale_manager_v1"@ {
            self.wp_fractional_scale_manager_v1
        } else {
            None
        }
    }

    fn new() -> (r: Globals)
        ensures
            r == Globals::none(),
    {
        Globals {
            wl_compositor: None,
            xdg_wm_base: None,
            wl_shm: None,
            zwp_linux_dmabuf_v1: None,
            wl_seat: None,
            wp_viewporter: None,
            wp_fractional_scale_manager_v1: None,
            wl_data_device_manager: None,
        }
    }

    fn note(&mut self, interface: &str, global: (u32, u32))
        ensures
            *final(self) == old(self).with(interface@, global),
    {
        if same_text(interface, "wl_compositor") {
            self.wl_compositor = Some(global);
        } else if same_text(interface, "xdg_wm_base") {
            self.xdg_wm_base = Some(global);
        } else if same_text(interface, "wl_shm") {
            self.wl_shm = Some(global);
        } else if same_text(interface, "zwp_linux_dmabuf_v1") {
            self.zwp_linux_dmabuf_v1 = Some(global);
        } else if same_text(interface, "wl_seat") {
            self.wl_seat = Some(global);
        } else if same_text(interface, "wp_viewporter") {
            self.wp_viewporter = Some(global);
        } else if same_text(interface, "wp_fractional_scale_manager_v1") {
            self.wp_fractional_scale_manager_v1 = Some(global);
        } else if same_text(interface, "wl_data_device_manager") {
            self.wl_data_device_manager = Some(global);
        }
    }

    fn find_root(&self, interface: &str) -> (r: Option<(u32, u32)>)
        ensures
            r == self.root(interface@),
    {
        if same_text(interface, "wl_compositor") {
            self.wl_compositor
        } else if same_text(interface, "xdg_wm_base") {
            self.xdg_wm_base
        } else if same_text(interface, "wl_shm") {
            self.wl_shm
        } else if same_text(interface, "zwp_linux_dmabuf_v1") {
            self.zwp_linux_dmabuf_v1
        } else if same_text(interface, "wl_seat") {
            self.wl_seat
        } else if same_text(interface, "wp_viewporter") {
            self.wp_viewporter
        } else if same_text(interface, "wp_fractional_scale_manager_v1") {
            self.wp_fractional_scale_manager_v1
        } else {
            None
        }
    }
}

/// A registry that is being fetched again.
pub struct RegistryFetch {
    /// The client's own `wl_registry`.
    pub registry_guest_id: u32,
    pub registry_interface: Arc<InterfaceDesc>,
    pub registry_host_id: u32,
    /// The callback whose `done` says that every global was advertised.
    pub sync_host_id: u32,
    pub globals: Globals,
}

/// What a [`RegistryFetch`] says.
#[verifier::ext_equal]
pub struct FetchModel {
    pub registry_guest_id: u32,
    pub registry_interface: InterfaceModel,
    pub registry_host_id: u32,
    pub sync_host_id: u32,
    pub globals: Globals,
}

impl View for RegistryFetch {
    type V = FetchModel;

    open spec fn view(&self) -> FetchModel {
        FetchModel {
            registry_guest_id: self.registry_guest_id,
            registry_interface: self.registry_interface@,
            registry_host_id: self.registry_host_id,
            sync_host_id: self.sync_host_id,
            globals: self.globals,
        }
    }
}

/// The start of a recovery: what to send, in order, and what to wait for.
pub struct RecoveryStart {
    pub requests: Vec<Vec<u8>>,
    pub fetch: RegistryFetch,
}

/// How a recovery starts, if the client ever asked for a registry.
pub open spec fn recovery_start<F>(s: SessionModel<F>) -> Option<FetchModel> {
    match s.objects.first_named("wl_registry"@) {
        Some(registry) => Some(
            FetchModel {
                registry_guest_id: registry,
                registry_interface: s.objects.interfaces[registry],
                registry_host_id: s.objects.next_host_id,
                sync_host_id: (s.objects.next_host_id + 1) as u32,
                globals: Globals::none(),
            },
        ),
        None => None,
    }
}

/// A message with one word as its payload.
fn one_word(sender_id: u32, opcode: u16, v: u32) -> (r: Vec<u8>)
    ensures
        r@ == wire::message_bytes(sender_id, opcode, wire::word_bytes(v)),
{
    let mut p: Vec<u8> = Vec::new();
    put_u32(&mut p, v);
    assert(p@ =~= wire::word_bytes(v));
    build_message(sender_id, opcode, p.as_slice())
}

/// [`TableModel::first_named`] names an object of that interface.
pub(crate) proof fn lemma_first_named(t: TableModel, name: Seq<char>)
    ensures
        t.first_named(name) matches Some(guest) ==> t.is_a(guest, name),
{
    if exists|guest: u32| t.is_a(guest, name) {
        let any = choose|guest: u32| t.is_a(guest, name);
        lemma_least(t, name, any);
    }
}

/// Among the ids up to `bound` of objects of an interface there is a lowest.
proof fn lemma_least(t: TableModel, name: Seq<char>, bound: u32)
    requires
        t.is_a(bound, name),
    ensures
        exists|guest: u32| t.is_first(guest, name),
    decreases bound,
{
    if !t.is_first(bound, name) {
        let lower = choose|other: u32| #[trigger] t.is_a(other, name) && other < bound;
        lemma_least(t, name, lower);
    }
}

/// The requests that start a recovery: for the registry, and for a callback
/// behind it.
pub open spec fn opening(fetch: FetchModel) -> Seq<Seq<u8>> {
    seq![
        wire::message_bytes(1, 1, wire::word_bytes(fetch.registry_host_id)),
        wire::message_bytes(1, 0, wire::word_bytes(fetch.sync_host_id)),
    ]
}

/// The connection after a recovery was started: two host ids are spent if there
/// is anything to recover, and a clipboard source of the connection before is
/// no longer the proxy's.
pub open spec fn begun<F>(s: SessionModel<F>) -> SessionModel<F> {
    SessionModel {
        objects: if recovery_start(s) is Some {
            s.objects.allocate_host_ids(2)
        } else {
            s.objects
        },
        reclaim: ReclaimState { active_source_host_id: None, ..s.reclaim },
        ..s
    }
}

/// Starts a recovery on a fresh host connection: asks for the registry, and
/// for a callback behind it.  `None` where there is nothing to recover.
pub fn begin_recovery<F>(session: &mut Session<F>) -> (r: Option<RecoveryStart>)
    requires
        old(session)@.objects.wf(),
        old(session)@.has_room(),
    ensures
        match r {
            Some(start) => recovery_start(old(session)@) == Some(start.fetch@)
                && clipboard::message_list(start.requests@) == opening(start.fetch@),
            None => recovery_start(old(session)@) is None,
        },
        final(session)@ == begun(old(session)@),
        final(session)@.objects.wf(),
{
    session.reclaim.active_source_host_id = None;
    let registry_guest_id: u32 = match session.objects.find_guest_id_by_interface_name(
        "wl_registry",
    ) {
        Some(id) => id,
        None => return None,
    };
    proof {
        lemma_first_named(session.objects@, "wl_registry"@);
    }
    let registry_interface = session.objects.interface(registry_guest_id).unwrap();
    let registry_host_id: u32 = session.objects.allocate_host_id();
    let sync_host_id: u32 = session.objects.allocate_host_id();
    let mut requests: Vec<Vec<u8>> = Vec::new();
    requests.push(one_word(1, 1, registry_host_id));
    requests.push(one_word(1, 0, sync_host_id));
    assert(clipboard::message_list(requests@) =~= seq![
        wire::message_bytes(1, 1, wire::word_bytes(registry_host_id)),
        wire::message_bytes(1, 0, wire::word_bytes(sync_host_id)),
    ]);
    assert(session@.objects =~= old(session)@.objects.allocate_host_ids(2));
    Some(
        RecoveryStart {
            requests,
            fetch: RegistryFetch {
                registry_guest_id,
                registry_interface,
                registry_host_id,
                sync_host_id,
                globals: Globals::new(),
            },
        },
    )
}

/// The globals known after a `wl_registry.global` event.
pub open spec fn globals_after(globals: Globals, p: Seq<u8>) -> Globals {
    match (wire::word_opt(p, 0), wire::str_opt(p, 4)) {
        (Some(name), Some((interface, next))) => match wire::word_opt(p, next) {
            Some(version) => globals.with(interface, (name, version)),
            None => globals,
        },
        _ => globals,
    }
}

/// What reading the registry from `buf` comes to: the fetch, the bytes left
/// over, and whether every global was advertised.
pub open spec fn fetched(fetch: FetchModel, buf: Seq<u8>) -> (FetchModel, Seq<u8>, bool)
    decreases buf.len(),
{
    match wire::front_message_len(buf) {
        None => (fetch, buf, false),
        Some(n) => {
            let msg = buf.take(n);
            let rest = buf.skip(n);
            let header = wire::header_of(msg)->0;
            if header.sender_id == fetch.registry_host_id && header.opcode == 0 {
                let globals = globals_after(fetch.globals, msg.skip(HEADER_LEN as int));
                fetched(FetchModel { globals, ..fetch }, rest)
            } else if header.sender_id == fetch.sync_host_id && header.opcode == 0 {
                (fetch, rest, true)
            } else {
                fetched(fetch, rest)
            }
        },
    }
}

/// Reads what has arrived of the registry.  `true` once every global was
/// advertised; otherwise more has to arrive.
pub fn fetch_globals<F>(fetch: &mut RegistryFetch, inbound: &mut Inbound<F>) -> (r: bool)
    ensures
        (final(fetch)@, final(inbound).read_buf@, r) == fetched(
            old(fetch)@,
            old(inbound).read_buf@,
        ),
        final(inbound).read_fds@ == old(inbound).read_fds@,
{
    let ghost start = (fetch@, inbound.read_buf@);
    loop
        invariant
            start == (old(fetch)@, old(inbound).read_buf@),
            fetched(start.0, start.1) == fetched(fetch@, inbound.read_buf@),
            inbound.read_fds@ == old(inbound).read_fds@,
        decreases inbound.read_buf@.len(),
    {
        let msg = match inbound.take() {
            Some(msg) => msg,
            None => return false,
        };
        let header = MessageHeader::parse(msg.as_slice()).unwrap();
        if header.sender_id == fetch.registry_host_id && header.opcode == 0 {
            let p = slice_subrange(msg.as_slice(), HEADER_LEN, msg.len());
            assert(p@ =~= msg@.skip(HEADER_LEN as int));
            if let (Some(name), Some((interface, next))) = (read_u32(p, 0), read_str(p, 4)) {
                if let Some(version) = read_u32(p, next) {
                    fetch.globals.note(interface.as_str(), (name, version));
                }
            }
        } else if header.sender_id == fetch.sync_host_id && header.opcode == 0 {
            return true;
        }
    }
}

/// The connection after the fresh registry became the client's own.
pub open spec fn with_registry<F>(s: SessionModel<F>, fetch: FetchModel) -> SessionModel<F> {
    SessionModel {
        objects: s.objects.map(
            fetch.registry_guest_id,
            fetch.registry_host_id,
            fetch.registry_interface,
        ),
        ..s
    }
}

/// Maps the fresh registry onto the client's own.
pub fn adopt_registry<F>(session: &mut Session<F>, fetch: &RegistryFetch)
    requires
        old(session)@.objects.wf(),
    ensures
        final(session)@ == with_registry(old(session)@, fetch@),
        final(session)@.objects.wf(),
{
    session.objects.map(
        fetch.registry_guest_id,
        fetch.registry_host_id,
        share(&fetch.registry_interface),
    );
}

/// A message with the descriptors that travel beside it.
pub struct Outgoing<F> {
    pub bytes: Vec<u8>,
    pub fds: Vec<Arc<F>>,
}

/// What an [`Outgoing`] is.
#[verifier::ext_equal]
pub struct OutgoingModel<F> {
    pub bytes: Seq<u8>,
    pub fds: Seq<Arc<F>>,
}

impl<F> View for Outgoing<F> {
    type V = OutgoingModel<F>;

    open spec fn view(&self) -> OutgoingModel<F> {
        OutgoingModel { bytes: self.bytes@, fds: self.fds@ }
    }
}

/// What a list of messages is.
pub open spec fn outgoing_list<F>(list: Seq<Outgoing<F>>) -> Seq<OutgoingModel<F>> {
    list.map_values(|o: Outgoing<F>| o@)
}

/// The message that a list of values makes, or `None` where they do not fit
/// the signature.
pub open spec fn message_of<F>(
    sender: u32,
    opcode: u16,
    desc: MessageModel,
    values: Seq<ValueModel<F>>,
) -> Option<OutgoingModel<F>> {
    match arguments::encoded(desc.signature, values) {
        Ok(payload) => Some(
            OutgoingModel {
                bytes: wire::message_bytes(sender, opcode, payload),
                fds: arguments::fds_of(values),
            },
        ),
        Err(_) => None,
    }
}

/// Makes a message; see [`message_of`].
fn encode_message<F>(
    sender: u32,
    opcode: u16,
    desc: &crate::schema::MessageDesc,
    values: Vec<WaylandValue<F>>,
) -> (r: Option<Outgoing<F>>)
    ensures
        match r {
            Some(o) => message_of(sender, opcode, desc@, arguments::models(values@)) == Some(o@),
            None => message_of(sender, opcode, desc@, arguments::models(values@)) is None,
        },
{
    match encode_arguments(desc.signature.as_slice(), values) {
        Ok((payload, fds)) => Some(
            Outgoing { bytes: build_message(sender, opcode, payload.as_slice()), fds },
        ),
        Err(_) => None,
    }
}

/// What to do once the messages of a stage were sent.
pub enum Next {
    /// Nothing: the object cannot be recreated.
    Abandon,
    /// The object exists again: map it.
    Adopt { host_id: u32, interface: Arc<InterfaceDesc> },
    /// The dmabuf params are complete: make the buffer from them.
    CreateImmed { params_host_id: u32, params_interface: Arc<InterfaceDesc> },
}

/// What a [`Next`] says.
#[verifier::ext_equal]
pub enum NextModel {
    Abandon,
    Adopt { host_id: u32, interface: InterfaceModel },
    CreateImmed { params_host_id: u32, params_interface: InterfaceModel },
}

impl View for Next {
    type V = NextModel;

    open spec fn view(&self) -> NextModel {
        match *self {
            Next::Abandon => NextModel::Abandon,
            Next::Adopt { host_id, interface } => NextModel::Adopt { host_id, interface: interface@ },
            Next::CreateImmed { params_host_id, params_interface } => NextModel::CreateImmed {
                params_host_id,
                params_interface: params_interface@,
            },
        }
    }
}

/// Messages to be sent to the host in order.  Where all were sent, `next` says
/// how to go on; where one fails, the object is given up.
pub struct Stage<F> {
    pub requests: Vec<Outgoing<F>>,
    pub next: Next,
}

/// What a [`Stage`] says.
#[verifier::ext_equal]
pub struct StageModel<F> {
    pub requests: Seq<OutgoingModel<F>>,
    pub next: NextModel,
}

impl<F> View for Stage<F> {
    type V = StageModel<F>;

    open spec fn view(&self) -> StageModel<F> {
        StageModel { requests: outgoing_list(self.requests@), next: self.next@ }
    }
}

impl<F> StageModel<F> {
    /// Nothing can be done.
    pub open spec fn nothing() -> StageModel<F> {
        StageModel { requests: Seq::empty(), next: NextModel::Abandon }
    }
}

/// A table and what to send, given the state of the table.
#[verifier::ext_equal]
pub struct Staged<F> {
    pub objects: TableModel,
    pub stage: StageModel<F>,
}

/// Creates an object by the request `name` of `parent`: it gets the next host
/// id, which stands first among the arguments, before `rest`.
pub open spec fn staged_request<F>(
    t: TableModel,
    parent: u32,
    name: Seq<char>,
    rest: Seq<ValueModel<F>>,
) -> Staged<F> {
    let skip = Staged { objects: t, stage: StageModel::nothing() };
    match (t.interface(parent), t.host_id(parent)) {
        (Some(interface), Some(parent_host)) => match schema::opcode_named(
            interface.requests,
            name,
        ) {
            None => skip,
            Some(opcode) => {
                let desc = interface.requests[opcode as int];
                match desc.child_interface {
                    None => skip,
                    Some(table) => {
                        let host = t.next_host_id;
                        let objects = t.allocate_host_ids(1);
                        let values = seq![ValueModel::NewId(host)] + rest;
                        match message_of(parent_host, opcode, desc, values) {
                            None => Staged { objects, ..skip },
                            Some(request) => Staged {
                                objects,
                                stage: StageModel {
                                    requests: seq![request],
                                    next: NextModel::Adopt {
                                        host_id: host,
                                        interface: interfaces::described(*table),
                                    },
                                },
                            },
                        }
                    },
                }
            },
        },
        _ => skip,
    }
}

/// The version to bind a global at: what the client asked for, unless the new
/// compositor offers less.
pub open spec fn bind_version(requested: u32, offered: u32) -> u32 {
    if requested <= offered {
        requested
    } else {
        offered
    }
}

/// Binds a global again, under whatever name the new compositor gave it.
pub open spec fn staged_global<F>(
    t: TableModel,
    fetch: FetchModel,
    interface: InterfaceModel,
    requested: u32,
) -> Staged<F> {
    let skip = Staged { objects: t, stage: StageModel::nothing() };
    match fetch.globals.root(interface.name) {
        Some((name, offered)) if fetch.registry_interface.requests.len() > 0 => {
            let host = t.next_host_id;
            let objects = t.allocate_host_ids(1);
            let values = seq![
                ValueModel::Uint(name),
                ValueModel::String(interface.name),
                ValueModel::Uint(bind_version(requested, offered)),
                ValueModel::NewId(host),
            ];
            match message_of(
                fetch.registry_host_id,
                0,
                fetch.registry_interface.requests[0],
                values,
            ) {
                None => Staged { objects, ..skip },
                Some(request) => Staged {
                    objects,
                    stage: StageModel {
                        requests: seq![request],
                        next: NextModel::Adopt { host_id: host, interface },
                    },
                },
            }
        },
        _ => skip,
    }
}

/// The high word of a format modifier.
pub open spec fn high_word(modifier: u64) -> u32 {
    (modifier / 0x1_0000_0000) as u32
}

/// The low word of a format modifier.
pub open spec fn low_word(modifier: u64) -> u32 {
    (modifier % 0x1_0000_0000) as u32
}

/// A modifier survives travelling as two words.
pub proof fn lemma_modifier_round_trip(modifier: u64)
    ensures
        relay::combined(high_word(modifier), low_word(modifier)) == modifier,
{
}

/// The arguments of `zwp_linux_buffer_params_v1.add` for one plane.
pub open spec fn plane_values<F>(plane: DmabufPlane<F>) -> Seq<ValueModel<F>> {
    seq![
        ValueModel::Fd(plane.fd),
        ValueModel::Uint(plane.plane_idx),
        ValueModel::Uint(plane.offset),
        ValueModel::Uint(plane.stride),
        ValueModel::Uint(high_word(plane.modifier)),
        ValueModel::Uint(low_word(plane.modifier)),
    ]
}

/// The `add` requests for the first `n` planes, and whether all could be made.
/// Stops at the first that cannot.
pub open spec fn add_requests<F>(
    params_host: u32,
    opcode: u16,
    desc: MessageModel,
    planes: Seq<DmabufPlane<F>>,
    n: int,
) -> (Seq<OutgoingModel<F>>, bool)
    decreases n,
{
    if n <= 0 {
        (Seq::empty(), true)
    } else {
        let (requests, ok) = add_requests(params_host, opcode, desc, planes, n - 1);
        if !ok {
            (requests, false)
        } else {
            match message_of(params_host, opcode, desc, plane_values(planes[n - 1])) {
                Some(request) => (requests.push(request), true),
                None => (requests, false),
            }
        }
    }
}

/// Makes a fresh dmabuf params object, under a throwaway host id, and adds
/// every plane to it.
pub open spec fn staged_params<F>(
    t: TableModel,
    dmabuf: u32,
    planes: Seq<DmabufPlane<F>>,
) -> Staged<F> {
    let first = staged_request::<F>(t, dmabuf, "create_params"@, Seq::empty());
    match first.stage.next {
        NextModel::Adopt { host_id, interface } => {
            let given_up = Staged {
                stage: StageModel { next: NextModel::Abandon, ..first.stage },
                ..first
            };
            match schema::opcode_named(interface.requests, "add"@) {
                None => given_up,
                Some(opcode) => {
                    let (adds, ok) = add_requests(
                        host_id,
                        opcode,
                        interface.requests[opcode as int],
                        planes,
                        planes.len() as int,
                    );
                    Staged {
                        stage: StageModel {
                            requests: first.stage.requests + adds,
                            next: if ok {
                                NextModel::CreateImmed {
                                    params_host_id: host_id,
                                    params_interface: interface,
                                }
                            } else {
                                NextModel::Abandon
                            },
                        },
                        ..first
                    }
                },
            }
        },
        _ => first,
    }
}

/// Makes the buffer from complete dmabuf params.
pub open spec fn staged_immed<F>(
    t: TableModel,
    params_host: u32,
    interface: InterfaceModel,
    recipe: Recipe<F>,
) -> Staged<F> {
    let skip = Staged { objects: t, stage: StageModel::nothing() };
    match (recipe, schema::opcode_named(interface.requests, "create_immed"@)) {
        (Recipe::DmabufBuffer { width, height, format, flags, .. }, Some(opcode)) => {
            let desc = interface.requests[opcode as int];
            match desc.child_interface {
                None => skip,
                Some(table) => {
                    let host = t.next_host_id;
                    let objects = t.allocate_host_ids(1);
                    let values = seq![
                        ValueModel::NewId(host),
                        ValueModel::Int(width),
                        ValueModel::Int(height),
                        ValueModel::Uint(format),
                        ValueModel::Uint(flags),
                    ];
                    match message_of(params_host, opcode, desc, values) {
                        None => Staged { objects, ..skip },
                        Some(request) => Staged {
                            objects,
                            stage: StageModel {
                                requests: seq![request],
                                next: NextModel::Adopt {
                                    host_id: host,
                                    interface: interfaces::described(*table),
                                },
                            },
                        },
                    }
                },
            }
        },
        _ => skip,
    }
}

/// The first stage of recreating an object from its recipe.
pub open spec fn staged<F>(t: TableModel, fetch: FetchModel, recipe: Recipe<F>) -> Staged<F> {
    let skip = Staged { objects: t, stage: StageModel::nothing() };
    match recipe {
        Recipe::Global { interface, version } => staged_global(t, fetch, interface, version),
        Recipe::Surface { parent_guest_id } => staged_request(
            t,
            parent_guest_id,
            "create_surface"@,
            Seq::empty(),
        ),
        Recipe::XdgSurface { parent_guest_id, surface_guest_id } => match t.host_id(
            surface_guest_id,
        ) {
            Some(surface) => staged_request(
                t,
                parent_guest_id,
                "get_xdg_surface"@,
                seq![ValueModel::Object(surface)],
            ),
            None => skip,
        },
        Recipe::XdgToplevel { parent_guest_id, .. } => staged_request(
            t,
            parent_guest_id,
            "get_toplevel"@,
            Seq::empty(),
        ),
        Recipe::ShmPool { wl_shm_guest_id, fd, size } => staged_request(
            t,
            wl_shm_guest_id,
            "create_pool"@,
            seq![ValueModel::Fd(fd), ValueModel::Int(size)],
        ),
        Recipe::ShmBuffer { pool_guest_id, offset, width, height, stride, format } =>
            staged_request(
            t,
            pool_guest_id,
            "create_buffer"@,
            seq![
                ValueModel::Int(offset),
                ValueModel::Int(width),
                ValueModel::Int(height),
                ValueModel::Int(stride),
                ValueModel::Uint(format),
            ],
        ),
        Recipe::DmabufBuffer { dmabuf_guest_id, planes, .. } => staged_params(
            t,
            dmabuf_guest_id,
            planes,
        ),
        Recipe::SeatDevice { seat_guest_id, kind } => staged_request(
            t,
            seat_guest_id,
            kind.request(),
            Seq::empty(),
        ),
        Recipe::Viewport { viewporter_guest_id, surface_guest_id, .. } => match t.host_id(
            surface_guest_id,
        ) {
            Some(surface) => staged_request(
                t,
                viewporter_guest_id,
                "get_viewport"@,
                seq![ValueModel::Object(surface)],
            ),
            None => skip,
        },
        Recipe::FractionalScale { manager_guest_id, surface_guest_id } => match t.host_id(
            surface_guest_id,
        ) {
            Some(surface) => staged_request(
                t,
                manager_guest_id,
                "get_fractional_scale"@,
                seq![ValueModel::Object(surface)],
            ),
            None => skip,
        },
    }
}

/// Creates an object by a request of its parent; see [`staged_request`].
fn stage_request<F>(
    objects: &mut ShadowTable,
    parent: u32,
    name: &str,
    rest: Vec<WaylandValue<F>>,
) -> (r: Stage<F>)
    requires
        old(objects)@.wf(),
        old(objects)@.next_host_id < u32::MAX,
    ensures
        (Staged { objects: final(objects)@, stage: r@ }) == staged_request(
            old(objects)@,
            parent,
            name@,
            arguments::models(rest@),
        ),
        final(objects)@.wf(),
{
    let interface = match objects.interface(parent) {
        Some(interface) => interface,
        None => return no_stage(),
    };
    let parent_host: u32 = match objects.host_id(parent) {
        Some(host) => host,
        None => return no_stage(),
    };
    let opcode: u16 = match request_opcode(&interface, name) {
        Some(opcode) => opcode,
        None => return no_stage(),
    };
    let desc = &interface.requests[opcode as usize];
    let table = match desc.child_interface {
        Some(table) => table,
        None => return no_stage(),
    };
    let host: u32 = objects.allocate_host_id();
    let ghost rest_models = arguments::models(rest@);
    let mut values: Vec<WaylandValue<F>> = Vec::new();
    values.push(WaylandValue::NewId(host));
    let mut rest = rest;
    values.append(&mut rest);
    assert(arguments::models(values@) =~= seq![ValueModel::NewId(host)] + rest_models);
    match encode_message(parent_host, opcode, desc, values) {
        None => no_stage(),
        Some(request) => Stage {
            requests: single(request),
            next: Next::Adopt { host_id: host, interface: Arc::new(describe(table)) },
        },
    }
}

/// A list of one message.
fn single<F>(request: Outgoing<F>) -> (r: Vec<Outgoing<F>>)
    ensures
        outgoing_list(r@) == seq![request@],
{
    let mut requests: Vec<Outgoing<F>> = Vec::new();
    requests.push(request);
    assert(outgoing_list(requests@) =~= seq![request@]);
    requests
}

/// A stage that does nothing.
fn no_stage<F>() -> (r: Stage<F>)
    ensures
        r@ == StageModel::<F>::nothing(),
{
    let stage = Stage { requests: Vec::new(), next: Next::Abandon };
    assert(stage@ =~= StageModel::nothing());
    stage
}

/// Binds a global again; see [`staged_global`].
fn stage_global<F>(
    objects: &mut ShadowTable,
    fetch: &RegistryFetch,
    interface: &Arc<InterfaceDesc>,
    requested: u32,
) -> (r: Stage<F>)
    requires
        old(objects)@.wf(),
        old(objects)@.next_host_id < u32::MAX,
    ensures
        (Staged { objects: final(objects)@, stage: r@ }) == staged_global::<F>(
            old(objects)@,
            fetch@,
            interface@,
            requested,
        ),
        final(objects)@.wf(),
{
    let (name, offered): (u32, u32) = match fetch.globals.find_root(interface.name.as_str()) {
        Some(global) => global,
        None => return no_stage(),
    };
    if fetch.registry_interface.requests.len() == 0 {
        return no_stage();
    }
    let version: u32 = if requested <= offered {
        requested
    } else {
        offered
    };
    let host: u32 = objects.allocate_host_id();
    let mut values: Vec<WaylandValue<F>> = Vec::new();
    values.push(WaylandValue::Uint(name));
    values.push(WaylandValue::String(interface.name.clone()));
    values.push(WaylandValue::Uint(version));
    values.push(WaylandValue::NewId(host));
    assert(arguments::models(values@) =~= seq![
        ValueModel::Uint(name),
        ValueModel::String(interface@.name),
        ValueModel::Uint(bind_version(requested, offered)),
        ValueModel::NewId(host),
    ]);
    match encode_message(
        fetch.registry_host_id,
        0,
        &fetch.registry_interface.requests[0],
        values,
    ) {
        None => no_stage(),
        Some(request) => Stage {
            requests: single(request),
            next: Next::Adopt { host_id: host, interface: share(interface) },
        },
    }
}

/// A plane whose request cannot be made ends the list for good.
proof fn lemma_adds_stop<F>(
    params_host: u32,
    opcode: u16,
    desc: MessageModel,
    planes: Seq<DmabufPlane<F>>,
    n: int,
    m: int,
)
    requires
        0 <= n <= m,
        !add_requests(params_host, opcode, desc, planes, n).1,
    ensures
        add_requests(params_host, opcode, desc, planes, m) == add_requests(
            params_host,
            opcode,
            desc,
            planes,
            n,
        ),
    decreases m,
{
    if n < m {
        lemma_adds_stop(params_host, opcode, desc, planes, n, m - 1);
    }
}

/// The arguments of `add` for one plane; see [`plane_values`].
fn plane_arguments<F>(plane: &DmabufPlane<F>) -> (r: Vec<WaylandValue<F>>)
    ensures
        arguments::models(r@) == plane_values(*plane),
{
    let mut values: Vec<WaylandValue<F>> = Vec::new();
    values.push(WaylandValue::Fd(share(&plane.fd)));
    values.push(WaylandValue::Uint(plane.plane_idx));
    values.push(WaylandValue::Uint(plane.offset));
    values.push(WaylandValue::Uint(plane.stride));
    values.push(WaylandValue::Uint((plane.modifier / 0x1_0000_0000) as u32));
    values.push(WaylandValue::Uint((plane.modifier % 0x1_0000_0000) as u32));
    assert(arguments::models(values@) =~= plane_values(*plane));
    values
}

/// Appends the `add` requests; see [`add_requests`].
fn put_adds<F>(
    requests: &mut Vec<Outgoing<F>>,
    params_host: u32,
    opcode: u16,
    desc: &crate::schema::MessageDesc,
    planes: &Vec<DmabufPlane<F>>,
) -> (r: bool)
    ensures
        ({
            let (adds, ok) = add_requests(
                params_host,
                opcode,
                desc@,
                planes@,
                planes@.len() as int,
            );
            outgoing_list(final(requests)@) == outgoing_list(old(requests)@) + adds && r == ok
        }),
{
    let ghost head = outgoing_list(requests@);
    let mut i: usize = 0;
    assert(head =~= head + add_requests(params_host, opcode, desc@, planes@, 0).0);
    while i < planes.len()
        invariant
            i <= planes@.len(),
            head == outgoing_list(old(requests)@),
            ({
                let (adds, ok) = add_requests(params_host, opcode, desc@, planes@, i as int);
                outgoing_list(requests@) == head + adds && ok
            }),
        decreases planes.len() - i,
    {
        let ghost before = outgoing_list(requests@);
        let ghost adds = add_requests(params_host, opcode, desc@, planes@, i as int).0;
        match encode_message(params_host, opcode, desc, plane_arguments(&planes[i])) {
            Some(request) => {
                requests.push(request);
                assert(outgoing_list(requests@) =~= before.push(request@));
                assert((head + adds).push(request@) =~= head + adds.push(request@));
            },
            None => {
                proof {
                    lemma_adds_stop(
                        params_host,
                        opcode,
                        desc@,
                        planes@,
                        i + 1,
                        planes@.len() as int,
                    );
                }
                return false;
            },
        }
        i += 1;
    }
    true
}

/// Makes a fresh dmabuf params object; see [`staged_params`].
fn stage_params<F>(objects: &mut ShadowTable, dmabuf: u32, planes: &Vec<DmabufPlane<F>>) -> (r:
    Stage<F>)
    requires
        old(objects)@.wf(),
        old(objects)@.next_host_id < u32::MAX,
    ensures
        (Staged { objects: final(objects)@, stage: r@ }) == staged_params(
            old(objects)@,
            dmabuf,
            planes@,
        ),
        final(objects)@.wf(),
{
    let first = stage_request(objects, dmabuf, "create_params", no_values());
    match first.next {
        Next::Adopt { host_id, interface } => {
            let mut requests = first.requests;
            let opcode: u16 = match request_opcode(&interface, "add") {
                Some(opcode) => opcode,
                None => return Stage { requests, next: Next::Abandon },
            };
            let ok = put_adds(
                &mut requests,
                host_id,
                opcode,
                &interface.requests[opcode as usize],
                planes,
            );
            if ok {
                Stage {
                    requests,
                    next: Next::CreateImmed { params_host_id: host_id, params_interface: interface },
                }
            } else {
                Stage { requests, next: Next::Abandon }
            }
        },
        _ => first,
    }
}

/// Makes the buffer from complete dmabuf params; see [`staged_immed`].
fn stage_immed<F>(
    objects: &mut ShadowTable,
    params_host: u32,
    interface: &InterfaceDesc,
    recipe: &Recreatable<F>,
) -> (r: Stage<F>)
    requires
        old(objects)@.wf(),
        old(objects)@.next_host_id < u32::MAX,
    ensures
        (Staged { objects: final(objects)@, stage: r@ }) == staged_immed(
            old(objects)@,
            params_host,
            interface@,
            recipe@,
        ),
        final(objects)@.wf(),
{
    let (width, height, format, flags): (i32, i32, u32, u32) = match recipe {
        Recreatable::DmabufBuffer { width, height, format, flags, .. } => (
            *width,
            *height,
            *format,
            *flags,
        ),
        _ => return no_stage(),
    };
    let opcode: u16 = match request_opcode(interface, "create_immed") {
        Some(opcode) => opcode,
        None => return no_stage(),
    };
    let desc = &interface.requests[opcode as usize];
    let table = match desc.child_interface {
        Some(table) => table,
        None => return no_stage(),
    };
    let host: u32 = objects.allocate_host_id();
    let mut values: Vec<WaylandValue<F>> = Vec::new();
    values.push(WaylandValue::NewId(host));
    values.push(WaylandValue::Int(width));
    values.push(WaylandValue::Int(height));
    values.push(WaylandValue::Uint(format));
    values.push(WaylandValue::Uint(flags));
    assert(arguments::models(values@) =~= seq![
        ValueModel::NewId(host),
        ValueModel::Int(width),
        ValueModel::Int(height),
        ValueModel::Uint(format),
        ValueModel::Uint(flags),
    ]);
    match encode_message(params_host, opcode, desc, values) {
        None => no_stage(),
        Some(request) => Stage {
            requests: single(request),
            next: Next::Adopt { host_id: host, interface: Arc::new(describe(table)) },
        },
    }
}

/// No arguments but the new id.
fn no_values<F>() -> (r: Vec<WaylandValue<F>>)
    ensures
        arguments::models(r@) == Seq::<ValueModel<F>>::empty(),
{
    let none: Vec<WaylandValue<F>> = Vec::new();
    assert(arguments::models(none@) =~= Seq::<ValueModel<F>>::empty());
    none
}

/// One object as the argument behind the new id.
fn object_value<F>(id: u32) -> (r: Vec<WaylandValue<F>>)
    ensures
        arguments::models(r@) == seq![ValueModel::<F>::Object(id)],
{
    let mut values: Vec<WaylandValue<F>> = Vec::new();
    values.push(WaylandValue::Object(id));
    assert(arguments::models(values@) =~= seq![ValueModel::<F>::Object(id)]);
    values
}

/// Starts recreating the object with the recipe at `index`; see [`staged`].
/// Where the stage's requests were all sent, go on with [`replay_sent`].
pub fn replay_start<F>(session: &mut Session<F>, fetch: &RegistryFetch, index: usize) -> (r: Stage<
    F,
>)
    requires
        old(session)@.objects.wf(),
        old(session)@.has_room(),
        index < old(session)@.graph.len(),
    ensures
        ({
            let st = staged(old(session)@.objects, fetch@, old(session)@.graph[index as int].1);
            final(session)@ == (SessionModel { objects: st.objects, ..old(session)@ }) && r@
                == st.stage
        }),
        final(session)@.objects.wf(),
{
    let (_, recipe) = session.graph.get(index);
    match recipe {
        Recreatable::Global { interface, version } => stage_global(
            &mut session.objects,
            fetch,
            interface,
            *version,
        ),
        Recreatable::Surface { parent_guest_id } => stage_request(
            &mut session.objects,
            *parent_guest_id,
            "create_surface",
            no_values(),
        ),
        Recreatable::XdgSurface { parent_guest_id, surface_guest_id } => {
            match session.objects.host_id(*surface_guest_id) {
                Some(surface) => stage_request(
                    &mut session.objects,
                    *parent_guest_id,
                    "get_xdg_surface",
                    object_value(surface),
                ),
                None => no_stage(),
            }
        },
        Recreatable::XdgToplevel { parent_guest_id, .. } => stage_request(
            &mut session.objects,
            *parent_guest_id,
            "get_toplevel",
            no_values(),
        ),
        Recreatable::ShmPool { wl_shm_guest_id, fd, size } => {
            let mut values: Vec<WaylandValue<F>> = Vec::new();
            values.push(WaylandValue::Fd(share(fd)));
            values.push(WaylandValue::Int(*size));
            assert(arguments::models(values@) =~= seq![
                ValueModel::Fd(*fd),
                ValueModel::Int(*size),
            ]);
            stage_request(&mut session.objects, *wl_shm_guest_id, "create_pool", values)
        },
        Recreatable::ShmBuffer { pool_guest_id, offset, width, height, stride, format } => {
            let mut values: Vec<WaylandValue<F>> = Vec::new();
            values.push(WaylandValue::Int(*offset));
            values.push(WaylandValue::Int(*width));
            values.push(WaylandValue::Int(*height));
            values.push(WaylandValue::Int(*stride));
            values.push(WaylandValue::Uint(*format));
            assert(arguments::models(values@) =~= seq![
                ValueModel::Int(*offset),
                ValueModel::Int(*width),
                ValueModel::Int(*height),
                ValueModel::Int(*stride),
                ValueModel::Uint(*format),
            ]);
            stage_request(&mut session.objects, *pool_guest_id, "create_buffer", values)
        },
        Recreatable::DmabufBuffer { dmabuf_guest_id, planes, .. } => stage_params(
            &mut session.objects,
            *dmabuf_guest_id,
            planes,
        ),
        Recreatable::SeatDevice { seat_guest_id, kind } => stage_request(
            &mut session.objects,
            *seat_guest_id,
            kind.request_name(),
            no_values(),
        ),
        Recreatable::Viewport { viewporter_guest_id, surface_guest_id, .. } => {
            match session.objects.host_id(*surface_guest_id) {
                Some(surface) => stage_request(
                    &mut session.objects,
                    *viewporter_guest_id,
                    "get_viewport",
                    object_value(surface),
                ),
                None => no_stage(),
            }
        },
        Recreatable::FractionalScale { manager_guest_id, surface_guest_id } => {
            match session.objects.host_id(*surface_guest_id) {
                Some(surface) => stage_request(
                    &mut session.objects,
                    *manager_guest_id,
                    "get_fractional_scale",
                    object_value(surface),
                ),
                None => no_stage(),
            }
        },
    }
}

/// A message that is sent if it can be: nothing depends on it.
pub struct FollowUp<F> {
    pub to_client: bool,
    pub message: Outgoing<F>,
}

/// What a [`FollowUp`] is.
#[verifier::ext_equal]
pub struct FollowUpModel<F> {
    pub to_client: bool,
    pub message: OutgoingModel<F>,
}

impl<F> View for FollowUp<F> {
    type V = FollowUpModel<F>;

    open spec fn view(&self) -> FollowUpModel<F> {
        FollowUpModel { to_client: self.to_client, message: self.message@ }
    }
}

/// What a list of follow-ups is.
pub open spec fn follow_list<F>(list: Seq<FollowUp<F>>) -> Seq<FollowUpModel<F>> {
    list.map_values(|f: FollowUp<F>| f@)
}

/// A request on a fresh host object, if its interface has it and the values
/// fit.
pub open spec fn follow_request<F>(
    interface: InterfaceModel,
    host: u32,
    name: Seq<char>,
    values: Seq<ValueModel<F>>,
) -> Seq<FollowUpModel<F>> {
    match schema::opcode_named(interface.requests, name) {
        Some(opcode) => match message_of(
            host,
            opcode,
            interface.requests[opcode as int],
            values,
        ) {
            Some(message) => seq![FollowUpModel { to_client: false, message }],
            None => Seq::empty(),
        },
        None => Seq::empty(),
    }
}

/// An event on a client's object, if its interface has it and the values fit.
pub open spec fn follow_event<F>(
    interface: InterfaceModel,
    guest: u32,
    name: Seq<char>,
    values: Seq<ValueModel<F>>,
) -> Seq<FollowUpModel<F>> {
    match schema::opcode_named(interface.events, name) {
        Some(opcode) => match message_of(guest, opcode, interface.events[opcode as int], values) {
            Some(message) => seq![FollowUpModel { to_client: true, message }],
            None => Seq::empty(),
        },
        None => Seq::empty(),
    }
}

/// The serial behind `serial`.
pub open spec fn serial_after(serial: u32) -> u32 {
    if serial == u32::MAX {
        0
    } else {
        (serial + 1) as u32
    }
}

/// What an optional text asks for, once a toplevel exists again.
pub open spec fn follow_text<F>(
    interface: InterfaceModel,
    host: u32,
    name: Seq<char>,
    text: Option<Seq<char>>,
) -> Seq<FollowUpModel<F>> {
    match text {
        Some(text) => follow_request(interface, host, name, seq![ValueModel::String(text)]),
        None => Seq::empty(),
    }
}

/// The invented `xdg_surface.configure` that makes the client draw again.
pub open spec fn follow_configure<F>(
    parent_interface: Option<InterfaceModel>,
    parent: u32,
    serial: u32,
) -> Seq<FollowUpModel<F>> {
    match parent_interface {
        Some(interface) => follow_event(
            interface,
            parent,
            "configure"@,
            seq![ValueModel::Uint(serial)],
        ),
        None => Seq::empty(),
    }
}

/// A connection after an object exists again, with what follows from it.
#[verifier::ext_equal]
pub struct Adopted<F> {
    pub session: SessionModel<F>,
    pub serial: u32,
    pub follow_ups: Seq<FollowUpModel<F>>,
}

/// An object exists again under `host`: it is mapped onto the client's id.  A
/// toplevel is told its title and application id, and the client is made to
/// draw again by a configure event with an invented serial, which is
/// remembered so that its acknowledgement can be swallowed.  A viewport is told
/// its destination.
pub open spec fn adopted<F>(
    s: SessionModel<F>,
    guest: u32,
    recipe: Recipe<F>,
    host: u32,
    interface: InterfaceModel,
    serial: u32,
) -> Adopted<F> {
    let mapped = SessionModel { objects: s.objects.map(guest, host, interface), ..s };
    match recipe {
        Recipe::XdgToplevel { parent_guest_id, title, app_id } => {
            let configure = follow_configure::<F>(
                s.objects.interface(parent_guest_id),
                parent_guest_id,
                serial,
            );
            Adopted {
                session: SessionModel {
                    acks: if configure.len() > 0 {
                        s.acks.insert(parent_guest_id, serial)
                    } else {
                        s.acks
                    },
                    ..mapped
                },
                serial: if configure.len() > 0 {
                    serial_after(serial)
                } else {
                    serial
                },
                follow_ups: follow_text(interface, host, "set_title"@, title) + follow_text(
                    interface,
                    host,
                    "set_app_id"@,
                    app_id,
                ) + follow_event(
                    interface,
                    guest,
                    "configure"@,
                    seq![
                        ValueModel::Int(0),
                        ValueModel::Int(0),
                        ValueModel::Array(Seq::empty()),
                    ],
                ) + configure,
            }
        },
        Recipe::Viewport { destination: Some((width, height)), .. } => Adopted {
            session: mapped,
            serial,
            follow_ups: follow_request(
                interface,
                host,
                "set_destination"@,
                seq![ValueModel::Int(width), ValueModel::Int(height)],
            ),
        },
        _ => Adopted { session: mapped, serial, follow_ups: Seq::empty() },
    }
}

/// What comes of a stage whose requests were all sent.
pub struct Sent<F> {
    /// More to be sent before the object exists again.
    pub stage: Option<Stage<F>>,
    /// To be sent in order, each on its own.
    pub follow_ups: Vec<FollowUp<F>>,
}

/// Appends a request on a fresh host object; see [`follow_request`].
fn put_request<F>(
    out: &mut Vec<FollowUp<F>>,
    interface: &InterfaceDesc,
    host: u32,
    name: &str,
    values: Vec<WaylandValue<F>>,
)
    ensures
        follow_list(final(out)@) == follow_list(old(out)@) + follow_request(
            interface@,
            host,
            name@,
            arguments::models(values@),
        ),
{
    let ghost before = follow_list(out@);
    let ghost more = follow_request(interface@, host, name@, arguments::models(values@));
    if let Some(opcode) = request_opcode(interface, name) {
        if let Some(message) = encode_message(
            host,
            opcode,
            &interface.requests[opcode as usize],
            values,
        ) {
            out.push(FollowUp { to_client: false, message });
        }
    }
    assert(follow_list(out@) =~= before + more);
}

/// Appends an event on a client's object; see [`follow_event`].
fn put_event<F>(
    out: &mut Vec<FollowUp<F>>,
    interface: &InterfaceDesc,
    guest: u32,
    name: &str,
    values: Vec<WaylandValue<F>>,
) -> (r: bool)
    ensures
        ({
            let more = follow_event(interface@, guest, name@, arguments::models(values@));
            follow_list(final(out)@) == follow_list(old(out)@) + more && r == (more.len() > 0)
        }),
{
    let ghost before = follow_list(out@);
    let ghost more = follow_event(interface@, guest, name@, arguments::models(values@));
    let mut made = false;
    if let Some(opcode) = event_opcode(interface, name) {
        if let Some(message) = encode_message(
            guest,
            opcode,
            &interface.events[opcode as usize],
            values,
        ) {
            out.push(FollowUp { to_client: true, message });
            made = true;
        }
    }
    assert(follow_list(out@) =~= before + more);
    made
}

/// Appends a request with an optional text; see [`follow_text`].
fn put_text<F>(
    out: &mut Vec<FollowUp<F>>,
    interface: &InterfaceDesc,
    host: u32,
    name: &str,
    text: &Option<String>,
)
    ensures
        follow_list(final(out)@) == follow_list(old(out)@) + follow_text(
            interface@,
            host,
            name@,
            text::text_opt(*text),
        ),
{
    let ghost before = follow_list(out@);
    if let Some(text) = text {
        let mut values: Vec<WaylandValue<F>> = Vec::new();
        values.push(WaylandValue::String(text.clone()));
        assert(arguments::models(values@) =~= seq![ValueModel::<F>::String(text@)]);
        put_request(out, interface, host, name, values);
    } else {
        assert(before =~= before + Seq::<FollowUpModel<F>>::empty());
    }
}

/// Maps an object that exists again; see [`adopted`].
fn adopt<F>(
    session: &mut Session<F>,
    index: usize,
    host: u32,
    interface: Arc<InterfaceDesc>,
    serial: &mut u32,
) -> (r: Vec<FollowUp<F>>)
    requires
        old(session)@.objects.wf(),
        index < old(session)@.graph.len(),
    ensures
        ({
            let (guest, recipe) = old(session)@.graph[index as int];
            (Adopted {
                session: final(session)@,
                serial: *final(serial),
                follow_ups: follow_list(r@),
            }) == adopted(old(session)@, guest, recipe, host, interface@, *old(serial))
        }),
        final(session)@.objects.wf(),
{
    let mut out: Vec<FollowUp<F>> = Vec::new();
    let ghost none = follow_list(out@);
    assert(none =~= Seq::empty());
    let (guest, recipe) = session.graph.get(index);
    match recipe {
        Recreatable::XdgToplevel { parent_guest_id, title, app_id } => {
            let parent = session.objects.interface(*parent_guest_id);
            session.objects.map(guest, host, share(&interface));
            put_text(&mut out, &interface, host, "set_title", title);
            put_text(&mut out, &interface, host, "set_app_id", app_id);
            let mut size: Vec<WaylandValue<F>> = Vec::new();
            size.push(WaylandValue::Int(0));
            size.push(WaylandValue::Int(0));
            let states: Vec<u8> = Vec::new();
            size.push(WaylandValue::Array(states));
            assert(states@ =~= Seq::empty());
            assert(arguments::models(size@) =~= seq![
                ValueModel::<F>::Int(0),
                ValueModel::<F>::Int(0),
                ValueModel::<F>::Array(Seq::empty()),
            ]);
            put_event(&mut out, &interface, guest, "configure", size);
            let ghost so_far = follow_list(out@);
            if let Some(parent) = parent {
                let mut values: Vec<WaylandValue<F>> = Vec::new();
                values.push(WaylandValue::Uint(*serial));
                assert(arguments::models(values@) =~= seq![ValueModel::<F>::Uint(*serial)]);
                if put_event(&mut out, &parent, *parent_guest_id, "configure", values) {
                    session.pending_configure_acks.insert(*parent_guest_id, *serial);
                    *serial =
                    if *serial == u32::MAX {
                        0
                    } else {
                        *serial + 1
                    };
                }
            } else {
                assert(so_far =~= so_far + Seq::<FollowUpModel<F>>::empty());
            }
            assert(follow_list(out@) =~= adopted(
                old(session)@,
                guest,
                recipe@,
                host,
                interface@,
                *old(serial),
            ).follow_ups);
        },
        Recreatable::Viewport { destination, .. } => {
            session.objects.map(guest, host, share(&interface));
            if let Some((width, height)) = destination {
                let mut values: Vec<WaylandValue<F>> = Vec::new();
                values.push(WaylandValue::Int(*width));
                values.push(WaylandValue::Int(*height));
                assert(arguments::models(values@) =~= seq![
                    ValueModel::<F>::Int(*width),
                    ValueModel::<F>::Int(*height),
                ]);
                put_request(&mut out, &interface, host, "set_destination", values);
                assert(follow_list(out@) =~= adopted(
                    old(session)@,
                    guest,
                    recipe@,
                    host,
                    interface@,
                    *old(serial),
                ).follow_ups);
            }
        },
        _ => {
            session.objects.map(guest, host, interface);
        },
    }
    out
}

/// Goes on once every request of a stage of the recipe at `index` was sent.
pub fn replay_sent<F>(session: &mut Session<F>, index: usize, next: Next, serial: &mut u32) -> (r:
    Sent<F>)
    requires
        old(session)@.objects.wf(),
        old(session)@.has_room(),
        index < old(session)@.graph.len(),
    ensures
        ({
            let (guest, recipe) = old(session)@.graph[index as int];
            match next@ {
                NextModel::Abandon => r.stage is None && r.follow_ups@.len() == 0 && final(session)@
                    == old(session)@ && *final(serial) == *old(serial),
                NextModel::Adopt { host_id, interface } => r.stage is None && (Adopted {
                    session: final(session)@,
                    serial: *final(serial),
                    follow_ups: follow_list(r.follow_ups@),
                }) == adopted(old(session)@, guest, recipe, host_id, interface, *old(serial)),
                NextModel::CreateImmed { params_host_id, params_interface } => {
                    let st = staged_immed(
                        old(session)@.objects,
                        params_host_id,
                        params_interface,
                        recipe,
                    );
                    &&& r.stage matches Some(stage) && stage@ == st.stage
                    &&& r.follow_ups@.len() == 0
                    &&& final(session)@ == (SessionModel { objects: st.objects, ..old(session)@ })
                    &&& *final(serial) == *old(serial)
                },
            }
        }),
        final(session)@.objects.wf(),
{
    match next {
        Next::Abandon => Sent { stage: None, follow_ups: Vec::new() },
        Next::Adopt { host_id, interface } => Sent {
            stage: None,
            follow_ups: adopt(session, index, host_id, interface, serial),
        },
        Next::CreateImmed { params_host_id, params_interface } => {
            let (_, recipe) = session.graph.get(index);
            let stage = stage_immed(
                &mut session.objects,
                params_host_id,
                &params_interface,
                recipe,
            );
            Sent { stage: Some(stage), follow_ups: Vec::new() }
        },
    }
}

/// The `wl_buffer.release` events for the first `n` of `buffers`: each that
/// exists again on the host.
pub open spec fn release_messages(t: TableModel, buffers: Seq<u32>, n: int) -> Seq<Seq<u8>>
    decreases n,
{
    if n <= 0 {
        Seq::empty()
    } else {
        let buffer = buffers[n - 1];
        let so_far = release_messages(t, buffers, n - 1);
        match (t.interface(buffer), t.host_id(buffer)) {
            (Some(interface), Some(_)) => match schema::opcode_named(
                interface.events,
                "release"@,
            ) {
                Some(opcode) => so_far.push(wire::message_bytes(buffer, opcode, Seq::empty())),
                None => so_far,
            },
            _ => so_far,
        }
    }
}

/// The answers to the first `n` of `callbacks`.
pub open spec fn done_messages(t: TableModel, callbacks: Seq<u32>, n: int) -> Seq<Seq<u8>>
    decreases n,
{
    if n <= 0 {
        Seq::empty()
    } else {
        done_messages(t, callbacks, n - 1) + relay::frame_done_messages(t, callbacks[n - 1])
    }
}

/// Whether `list` holds each member of `set` once.
pub open spec fn enumerates(list: Seq<u32>, set: Set<u32>) -> bool {
    list.to_set() == set && list.no_duplicates()
}

/// Whether `messages` settle what the dead compositor owed: a release for each
/// buffer in flight, then an answer for each callback.
pub open spec fn settles(
    t: TableModel,
    in_flight: Set<u32>,
    frames: Set<u32>,
    messages: Seq<Seq<u8>>,
) -> bool {
    exists|buffers: Seq<u32>, callbacks: Seq<u32>| #[trigger]
        enumerates(buffers, in_flight) && #[trigger] enumerates(callbacks, frames) && messages
            == release_messages(t, buffers, buffers.len() as int) + done_messages(
            t,
            callbacks,
            callbacks.len() as int,
        )
}

/// The connection after a recovery has ended: nothing is in flight or owed any
/// more, and the clipboard waits for an input serial.
pub open spec fn finished<F>(s: SessionModel<F>, fetch: FetchModel) -> SessionModel<F> {
    SessionModel {
        flow: s.flow.drained(),
        frames: Set::empty(),
        reclaim: ReclaimState {
            pending: true,
            data_device_manager_global: fetch.globals.wl_data_device_manager,
            ..s.reclaim
        },
        ..s
    }
}

/// Ends a recovery: the client is sent, each on its own, what the dead
/// compositor owed it, and the next input serial is spent on the clipboard.
pub fn finish_recovery<F>(session: &mut Session<F>, fetch: &RegistryFetch) -> (r: Vec<Vec<u8>>)
    requires
        old(session)@.objects.wf(),
    ensures
        settles(
            old(session)@.objects,
            old(session)@.flow.in_flight,
            old(session)@.frames,
            clipboard::message_list(r@),
        ),
        final(session)@ == finished(old(session)@, fetch@),
        final(session)@.objects.wf(),
{
    let ghost t = session.objects@;
    let mut out: Vec<Vec<u8>> = Vec::new();
    let buffers = session.buffer_flow.drain_in_flight();
    assert(clipboard::message_list(out@) =~= release_messages(t, buffers@, 0));
    let mut i: usize = 0;
    while i < buffers.len()
        invariant
            i <= buffers@.len(),
            t == session.objects@,
            clipboard::message_list(out@) == release_messages(t, buffers@, i as int),
        decreases buffers.len() - i,
    {
        let buffer: u32 = buffers[i];
        let ghost before = clipboard::message_list(out@);
        if let (Some(interface), Some(_)) = (
            session.objects.interface(buffer),
            session.objects.host_id(buffer),
        ) {
            if let Some(opcode) = event_opcode(&interface, "release") {
                let none: Vec<u8> = Vec::new();
                assert(none@ =~= Seq::empty());
                out.push(build_message(buffer, opcode, none.as_slice()));
                assert(clipboard::message_list(out@) =~= before.push(
                    wire::message_bytes(buffer, opcode, Seq::empty()),
                ));
            }
        }
        i += 1;
    }
    let ghost released = clipboard::message_list(out@);
    let callbacks = session.pending_frames.drain_awaiting_done();
    assert(released =~= released + done_messages(t, callbacks@, 0));
    let mut j: usize = 0;
    while j < callbacks.len()
        invariant
            j <= callbacks@.len(),
            t == session.objects@,
            clipboard::message_list(out@) == released + done_messages(t, callbacks@, j as int),
        decreases callbacks.len() - j,
    {
        let ghost so_far = done_messages(t, callbacks@, j as int);
        let ghost more = relay::frame_done_messages(t, callbacks@[j as int]);
        synthesize_frame_done(&mut out, &session.objects, callbacks[j]);
        assert(released + so_far + more =~= released + (so_far + more));
        j += 1;
    }
    proof {
        assert(enumerates(buffers@, old(session)@.flow.in_flight));
        assert(enumerates(callbacks@, old(session)@.frames));
    }
    session.reclaim.data_device_manager_global = fetch.globals.wl_data_device_manager;
    session.reclaim.pending = true;
    out
}

/// It does not matter how the registry's events are cut into reads: going on
/// with what was left over comes to the same as having had it all at once.
pub proof fn lemma_fetch_in_pieces(fetch: FetchModel, first: Seq<u8>, second: Seq<u8>)
    requires
        !fetched(fetch, first).2,
    ensures
        fetched(fetch, first + second) == fetched(
            fetched(fetch, first).0,
            fetched(fetch, first).1 + second,
        ),
    decreases first.len(),
{
    if let Some(n) = wire::front_message_len(first) {
        wire::lemma_front_message_is_stable(first, second);
        let msg = first.take(n);
        let rest = first.skip(n);
        let header = wire::header_of(msg)->0;
        if header.sender_id == fetch.registry_host_id && header.opcode == 0 {
            let globals = globals_after(fetch.globals, msg.skip(HEADER_LEN as int));
            lemma_fetch_in_pieces(FetchModel { globals, ..fetch }, rest, second);
        } else if !(header.sender_id == fetch.sync_host_id && header.opcode == 0) {
            lemma_fetch_in_pieces(fetch, rest, second);
        }
    }
}

/// On a fresh connection the proxy's own registry and callback are always host
/// objects 2 and 3, whatever was allocated on the connection before.
pub proof fn lemma_recovery_starts_over<F>(s: SessionModel<F>)
    requires
        s.objects.generation < u64::MAX,
    ensures
        ({
            let bumped = SessionModel { objects: s.objects.bump_generation(), ..s };
            recovery_start(bumped) matches Some(fetch) ==> fetch.registry_host_id == 2
                && fetch.sync_host_id == 3
        }),
{
}

/// A recreated object is alive again: it translates both ways, under the id
/// the client always had, and every object that shares neither id translates
/// as before.
pub proof fn lemma_adopted_is_alive<F>(
    s: SessionModel<F>,
    guest: u32,
    recipe: Recipe<F>,
    host: u32,
    interface: InterfaceModel,
    serial: u32,
    other: u32,
)
    requires
        s.objects.wf(),
        guest != 0,
        host != 0,
    ensures
        ({
            let t = adopted(s, guest, recipe, host, interface, serial).session.objects;
            &&& t.wf()
            &&& t.is_current(guest)
            &&& t.host_id(guest) == Some(host)
            &&& t.guest_id(host) == Some(guest)
            &&& t.interface(guest) == Some(interface)
            &&& other != guest && s.objects.host_id(other) != Some(host) ==> t.host_id(other)
                == s.objects.host_id(other)
        }),
{
    crate::shadow_table::lemma_mapped_translates(s.objects, guest, host, interface, other);
}

/// Nothing is asked of the host on behalf of an object whose parent was not
/// recreated, and no host id is spent on it.
pub proof fn lemma_no_child_without_parent<F>(
    t: TableModel,
    parent: u32,
    name: Seq<char>,
    rest: Seq<ValueModel<F>>,
)
    requires
        t.host_id(parent) is None,
    ensures
        staged_request(t, parent, name, rest) == (Staged::<F> {
            objects: t,
            stage: StageModel::nothing(),
        }),
{
}

/// An object is asked for again exactly if its parent is there, its parent's
/// interface still has the request, and the arguments fit it.
pub proof fn lemma_child_is_asked_for<F>(
    t: TableModel,
    parent: u32,
    name: Seq<char>,
    rest: Seq<ValueModel<F>>,
)
    ensures
        staged_request(t, parent, name, rest).stage.next is Adopt <==> ({
            &&& t.host_id(parent) is Some
            &&& t.interface(parent) matches Some(interface)
            &&& schema::opcode_named(interface.requests, name) matches Some(opcode)
            &&& interface.requests[opcode as int].child_interface is Some
            &&& arguments::encoded(
                interface.requests[opcode as int].signature,
                seq![ValueModel::NewId(t.next_host_id)] + rest,
            ) is Ok
        }),
{
}

/// A global is bound again exactly if the new compositor offers it and the
/// arguments fit the registry's own request.
pub proof fn lemma_global_is_bound_again<F>(
    t: TableModel,
    fetch: FetchModel,
    interface: InterfaceModel,
    requested: u32,
)
    ensures
        staged_global::<F>(t, fetch, interface, requested).stage.next is Adopt <==> ({
            &&& fetch.globals.root(interface.name) matches Some((name, offered))
            &&& fetch.registry_interface.requests.len() > 0
            &&& arguments::encoded(
                fetch.registry_interface.requests[0].signature,
                seq![
                    ValueModel::<F>::Uint(name),
                    ValueModel::String(interface.name),
                    ValueModel::Uint(bind_version(requested, offered)),
                    ValueModel::NewId(t.next_host_id),
                ],
            ) is Ok
        }),
{
}

/// A request that recreates an object carries the next host id as its new id,
/// is addressed to the parent's host id, and spends exactly that id.
pub proof fn lemma_staged_request_is_addressed<F>(
    t: TableModel,
    parent: u32,
    name: Seq<char>,
    rest: Seq<ValueModel<F>>,
)
    requires
        t.next_host_id < u32::MAX,
        staged_request(t, parent, name, rest).stage.requests.len() > 0,
    ensures
        ({
            let st = staged_request(t, parent, name, rest);
            let interface = t.interface(parent)->0;
            let opcode = schema::opcode_named(interface.requests, name)->0;
            let values = seq![ValueModel::NewId(t.next_host_id)] + rest;
            &&& st.objects == t.allocate_host_ids(1)
            &&& st.stage.requests.len() == 1
            &&& st.stage.next matches NextModel::Adopt { host_id, .. } && host_id == t.next_host_id
            &&& t.host_id(parent) matches Some(parent_host) && arguments::encoded(
                interface.requests[opcode as int].signature,
                values,
            ) matches Ok(payload) && st.stage.requests[0].bytes == wire::message_bytes(
                parent_host,
                opcode,
                payload,
            )
        }),
{
}

/// A global is never bound at a higher version than the client asked for or
/// the new compositor offers.
pub proof fn lemma_bind_version(requested: u32, offered: u32)
    ensures
        bind_version(requested, offered) <= requested,
        bind_version(requested, offered) <= offered,
        bind_version(requested, offered) == requested || bind_version(requested, offered)
            == offered,
{
}

/// An invented configure event is remembered under the surface it was sent to,
/// with its own serial, and is the last thing the client hears; the next one
/// gets another serial.
pub proof fn lemma_invented_configure_is_remembered<F>(
    s: SessionModel<F>,
    guest: u32,
    parent: u32,
    title: Option<Seq<char>>,
    app_id: Option<Seq<char>>,
    host: u32,
    interface: InterfaceModel,
    serial: u32,
)
    ensures
        ({
            let recipe = Recipe::<F>::XdgToplevel { parent_guest_id: parent, title, app_id };
            let a = adopted(s, guest, recipe, host, interface, serial);
            let configure = follow_configure::<F>(s.objects.interface(parent), parent, serial);
            configure.len() > 0 ==> {
                &&& a.session.acks.contains_key(parent)
                &&& a.session.acks[parent] == serial
                &&& a.serial != serial
                &&& a.follow_ups.last() == configure.last()
                &&& a.follow_ups.last().to_client
            }
        }),
{
}

/// Where nothing was in flight and no callback was waiting, the client is sent
/// nothing.
pub proof fn lemma_nothing_owed_nothing_sent(t: TableModel, messages: Seq<Seq<u8>>)
    requires
        settles(t, Set::empty(), Set::empty(), messages),
    ensures
        messages.len() == 0,
{
    let (buffers, callbacks) = choose|buffers: Seq<u32>, callbacks: Seq<u32>| #[trigger]
        enumerates(buffers, Set::empty()) && #[trigger] enumerates(callbacks, Set::empty())
            && messages == release_messages(t, buffers, buffers.len() as int) + done_messages(
            t,
            callbacks,
            callbacks.len() as int,
        );
    if buffers.len() > 0 {
        assert(buffers.to_set().contains(buffers[0]));
    }
    if callbacks.len() > 0 {
        assert(callbacks.to_set().contains(callbacks[0]));
    }
}

} // verus!
