use std::collections::VecDeque;
use std::sync::Arc;
use wayland_proxy::clipboard::ClipboardCache;
use wayland_proxy::desktop_apps::{ClientIdentity, DesktopAppIndex, DesktopFile};
use wayland_proxy::grab_release::synthesize_grab_releases;
use wayland_proxy::interfaces::lookup_interface;
use wayland_proxy::recreation::Recreatable;
use wayland_proxy::relay::{
    decode_display_error, relay_message, relay_next, synthesize_frame_done, Outcome, Step,
};
use wayland_proxy::schema::{event_opcode, request_opcode, Direction};
use wayland_proxy::session::{Inbound, Session};
use wayland_proxy::shadow_table::ShadowTable;
use wayland_proxy::wire::{build_message, put_str, put_u32, read_u32, MessageHeader, HEADER_LEN};

fn words(list: &[u32]) -> Vec<u8> {
    let mut out = Vec::new();
    for w in list {
        put_u32(&mut out, *w);
    }
    out
}

fn request(sender: u32, interface: &str, name: &str, payload: &[u8]) -> Vec<u8> {
    let opcode = request_opcode(&lookup_interface(interface).unwrap(), name).unwrap();
    build_message(sender, opcode, payload)
}

fn event(sender: u32, interface: &str, name: &str, payload: &[u8]) -> Vec<u8> {
    let opcode = event_opcode(&lookup_interface(interface).unwrap(), name).unwrap();
    build_message(sender, opcode, payload)
}

fn bind(registry: u32, name: u32, interface: &str, version: u32, id: u32) -> Vec<u8> {
    let mut payload = words(&[name]);
    put_str(&mut payload, interface);
    payload.extend(words(&[version, id]));
    request(registry, "wl_registry", "bind", &payload)
}

fn send(session: &mut Session<u32>, msg: Vec<u8>) -> Step<u32> {
    relay_message(
        session,
        &mut VecDeque::new(),
        &ClipboardCache::new(),
        Direction::ClientToHost,
        false,
        msg,
    )
}

fn receive(session: &mut Session<u32>, msg: Vec<u8>) -> Step<u32> {
    relay_message(
        session,
        &mut VecDeque::new(),
        &ClipboardCache::new(),
        Direction::HostToClient,
        false,
        msg,
    )
}

/// A connection with the registry as object 2, a compositor as 3 and a surface
/// as 4; the host ids happen to be the same.
fn with_surface() -> Session<u32> {
    let mut session = Session::new();
    assert_eq!(
        send(&mut session, request(1, "wl_display", "get_registry", &words(&[2]))).outcome,
        Outcome::Relayed
    );
    assert_eq!(send(&mut session, bind(2, 9, "wl_compositor", 4, 3)).outcome, Outcome::Relayed);
    assert_eq!(
        send(&mut session, request(3, "wl_compositor", "create_surface", &words(&[4]))).outcome,
        Outcome::Relayed
    );
    session
}

#[test]
fn a_new_object_gets_the_next_host_id() {
    let mut session = Session::new();
    let step = send(&mut session, request(1, "wl_display", "sync", &words(&[10])));
    assert_eq!(step.outcome, Outcome::Relayed);
    assert_eq!(step.bytes, request(1, "wl_display", "sync", &words(&[2])));
    assert_eq!(session.objects.host_id(10), Some(2));
    let step = send(&mut session, request(1, "wl_display", "sync", &words(&[77])));
    assert_eq!(step.bytes, request(1, "wl_display", "sync", &words(&[3])));
}

#[test]
fn an_event_reaches_the_client_under_its_own_id() {
    let mut session = Session::new();
    send(&mut session, request(1, "wl_display", "sync", &words(&[10])));
    let step = receive(&mut session, event(2, "wl_callback", "done", &words(&[5])));
    assert_eq!(step.outcome, Outcome::Relayed);
    assert_eq!(step.sender_id, 10);
    assert_eq!(step.bytes, event(10, "wl_callback", "done", &words(&[5])));
    let step = receive(&mut session, event(1, "wl_display", "delete_id", &words(&[2])));
    assert_eq!(step.bytes, event(1, "wl_display", "delete_id", &words(&[10])));
    assert_eq!(session.objects.host_id(10), None);
}

#[test]
fn object_arguments_are_translated() {
    let mut session = with_surface();
    send(&mut session, bind(2, 4, "wl_shm", 1, 20));
    let mut fds: VecDeque<Arc<u32>> = VecDeque::new();
    fds.push_back(Arc::new(5));
    fds.push_back(Arc::new(6));
    let step = relay_message(
        &mut session,
        &mut fds,
        &ClipboardCache::new(),
        Direction::ClientToHost,
        false,
        request(20, "wl_shm", "create_pool", &words(&[21, 4096])),
    );
    assert_eq!(step.outcome, Outcome::Relayed);
    assert_eq!(step.fds.len(), 1);
    assert_eq!(*step.fds[0], 5);
    assert_eq!(fds.len(), 1);
    assert_eq!(step.bytes, request(5, "wl_shm", "create_pool", &words(&[6, 4096])));
    match session.graph.recipe_for(21) {
        Some(Recreatable::ShmPool { wl_shm_guest_id, fd, size }) => {
            assert_eq!((*wl_shm_guest_id, **fd, *size), (20, 5, 4096));
        }
        _ => panic!("expected a ShmPool recipe"),
    }
    send(
        &mut session,
        request(21, "wl_shm_pool", "create_buffer", &words(&[30, 0, 16, 16, 64, 1])),
    );
    let step = send(&mut session, request(4, "wl_surface", "attach", &words(&[30, 0, 0])));
    assert_eq!(step.bytes, request(4, "wl_surface", "attach", &words(&[7, 0, 0])));
    send(&mut session, request(4, "wl_surface", "commit", &[]));
    assert_eq!(session.buffer_flow.drain_in_flight(), vec![30]);
}

#[test]
fn unknown_senders_and_opcodes_are_dropped() {
    let mut session = Session::new();
    let step = send(&mut session, build_message(99, 0, &[]));
    assert_eq!(step.outcome, Outcome::DroppedUnknown);
    assert_eq!(step.outcome.label(), Some("DROPPED_UNKNOWN"));
    assert_eq!(step.bytes, build_message(99, 0, &[]));
    assert!(step.interface.is_none());
    assert_eq!(send(&mut session, build_message(1, 50, &[])).outcome, Outcome::DroppedUnknown);
}

#[test]
fn a_message_shorter_than_its_signature_is_dropped() {
    let mut session = Session::new();
    let step = send(&mut session, request(1, "wl_display", "sync", &[]));
    assert_eq!(step.outcome, Outcome::DroppedParseError);
    assert_eq!(session.objects.next_ids().0, 2);
}

#[test]
fn a_reference_to_an_unknown_object_drops_the_message() {
    let mut session = with_surface();
    let step = send(&mut session, request(4, "wl_surface", "attach", &words(&[30, 0, 0])));
    assert_eq!(step.outcome, Outcome::DroppedUntranslatable);
    assert!(step.interface.is_some());
}

#[test]
fn an_object_of_an_unknown_interface_is_not_created() {
    let mut session = with_surface();
    let step = send(&mut session, bind(2, 12, "not_a_real_interface", 1, 40));
    assert_eq!(step.outcome, Outcome::DroppedUnresolvableChild);
    assert_eq!(session.objects.unresolvable_interface_name(40), Some("not_a_real_interface"));
    assert_eq!(session.objects.next_ids().0, 5);
}

#[test]
fn freeing_an_untracked_id_is_not_passed_on() {
    let mut session: Session<u32> = Session::new();
    let step = receive(&mut session, event(1, "wl_display", "delete_id", &words(&[44])));
    assert_eq!(step.outcome, Outcome::DroppedUntrackedDeleteId);
    assert_eq!(step.outcome.label(), Some("DROPPED_UNTRACKED_DELETE_ID"));
}

#[test]
fn nothing_goes_out_while_frozen() {
    let mut session = with_surface();
    let step = relay_message(
        &mut session,
        &mut VecDeque::new(),
        &ClipboardCache::new(),
        Direction::ClientToHost,
        true,
        request(4, "wl_surface", "commit", &[]),
    );
    assert_eq!(step.outcome, Outcome::DroppedFrozen);
    assert_eq!(step.outcome.label(), Some("DROPPED_FROZEN"));
}

#[test]
fn an_object_the_host_never_heard_of_is_answered_for() {
    let mut session = with_surface();
    session.objects.bump_generation();
    let before = session.objects.next_ids();
    let step = send(&mut session, request(4, "wl_surface", "frame", &words(&[8])));
    assert_eq!(step.outcome, Outcome::DroppedSenderless);
    assert_eq!(step.outcome.label(), None);
    assert_eq!(
        step.replies,
        vec![
            event(8, "wl_callback", "done", &words(&[0])),
            event(1, "wl_display", "delete_id", &words(&[8])),
        ]
    );
    assert_eq!(session.objects.next_ids(), before);
    assert!(session.pending_frames.drain_awaiting_done().is_empty());
    let step = send(&mut session, request(4, "wl_surface", "destroy", &[]));
    assert_eq!(step.replies, vec![event(1, "wl_display", "delete_id", &words(&[4]))]);
    assert!(session.graph.recipe_for(4).is_none());
}

#[test]
fn a_rolled_back_object_has_no_recipe() {
    let mut session = with_surface();
    session.objects.bump_generation();
    let before = session.objects.next_ids();
    let step = send(&mut session, request(3, "wl_compositor", "create_surface", &words(&[9])));
    assert_eq!(step.outcome, Outcome::DroppedSenderless);
    assert!(session.graph.recipe_for(9).is_none());
    assert!(session.graph.recipe_for(4).is_some());
    assert_eq!(session.objects.host_id(9), None);
    assert!(session.objects.interface(9).is_none());
    assert_eq!(session.objects.guest_id(before.0), None);
    assert_eq!(session.objects.next_ids(), before);
}

#[test]
fn a_frame_callback_waits_until_it_is_done() {
    let mut session = with_surface();
    send(&mut session, request(4, "wl_surface", "frame", &words(&[8])));
    send(&mut session, request(4, "wl_surface", "frame", &words(&[9])));
    receive(&mut session, event(5, "wl_callback", "done", &words(&[1])));
    assert_eq!(session.pending_frames.drain_awaiting_done(), vec![9]);
}

#[test]
fn an_invented_configure_is_acknowledged_once() {
    let mut session = with_surface();
    send(&mut session, bind(2, 3, "xdg_wm_base", 1, 5));
    send(&mut session, request(5, "xdg_wm_base", "get_xdg_surface", &words(&[6, 4])));
    session.pending_configure_acks.insert(6, 1);
    let ack = request(6, "xdg_surface", "ack_configure", &words(&[1]));
    assert_eq!(send(&mut session, ack.clone()).outcome, Outcome::AckSwallowed);
    assert_eq!(send(&mut session, ack).outcome, Outcome::Relayed);
}

#[test]
fn titles_and_ids_go_into_the_recipe() {
    let mut session = with_surface();
    send(&mut session, bind(2, 3, "xdg_wm_base", 1, 5));
    send(&mut session, request(5, "xdg_wm_base", "get_xdg_surface", &words(&[6, 4])));
    send(&mut session, request(6, "xdg_surface", "get_toplevel", &words(&[7])));
    let mut title = Vec::new();
    put_str(&mut title, "hello");
    send(&mut session, request(7, "xdg_toplevel", "set_title", &title));
    match session.graph.recipe_for(7) {
        Some(Recreatable::XdgToplevel { title, app_id, .. }) => {
            assert_eq!(title.as_deref(), Some("hello"));
            assert!(app_id.is_none());
        }
        _ => panic!("expected an XdgToplevel recipe"),
    }
}

#[test]
fn an_unknown_application_id_is_corrected() {
    let mut session = with_surface();
    send(&mut session, bind(2, 3, "xdg_wm_base", 1, 5));
    send(&mut session, request(5, "xdg_wm_base", "get_xdg_surface", &words(&[6, 4])));
    send(&mut session, request(6, "xdg_surface", "get_toplevel", &words(&[7])));
    let index = DesktopAppIndex::build_from_dirs(&vec![vec![DesktopFile {
        file_name: "com.gexperts.Tilix.desktop".to_string(),
        content: Some("[Desktop Entry]\nExec=tilix\n".to_string()),
    }]]);
    let identity =
        ClientIdentity { index: Arc::new(index), binary_name: Some("tilix".to_string()) };
    let mut given = Vec::new();
    put_str(&mut given, "tilix");
    let mut wanted = Vec::new();
    put_str(&mut wanted, "com.gexperts.Tilix");
    let mut inbound = Inbound::new();
    inbound.extend(&request(7, "xdg_toplevel", "set_app_id", &given), vec![]);
    let step = relay_next(
        &mut session,
        &mut inbound,
        &ClipboardCache::new(),
        &identity,
        Direction::ClientToHost,
        false,
    )
    .unwrap();
    assert_eq!(step.bytes, request(7, "xdg_toplevel", "set_app_id", &wanted));
    match session.graph.recipe_for(7) {
        Some(Recreatable::XdgToplevel { app_id, .. }) => {
            assert_eq!(app_id.as_deref(), Some("com.gexperts.Tilix"));
        }
        _ => panic!("expected an XdgToplevel recipe"),
    }
}

#[test]
fn a_message_in_two_reads_is_relayed_once_it_is_whole() {
    let mut session: Session<u32> = Session::new();
    let identity = ClientIdentity {
        index: Arc::new(DesktopAppIndex::build_from_dirs(&vec![])),
        binary_name: None,
    };
    let msg = request(1, "wl_display", "sync", &words(&[2]));
    let mut inbound = Inbound::new();
    let cache = ClipboardCache::new();
    inbound.extend(&msg[..5], vec![]);
    assert!(relay_next(
        &mut session,
        &mut inbound,
        &cache,
        &identity,
        Direction::ClientToHost,
        false
    )
    .is_none());
    inbound.extend(&msg[5..], vec![]);
    let step = relay_next(
        &mut session,
        &mut inbound,
        &cache,
        &identity,
        Direction::ClientToHost,
        false,
    )
    .unwrap();
    assert_eq!(step.outcome, Outcome::Relayed);
    assert!(inbound.read_buf.is_empty());
}

#[test]
fn an_object_the_host_creates_gets_a_server_side_id() {
    let mut session = with_surface();
    send(&mut session, bind(2, 3, "wl_seat", 5, 5));
    send(&mut session, bind(2, 4, "wl_data_device_manager", 3, 6));
    let step =
        send(&mut session, request(6, "wl_data_device_manager", "get_data_device", &words(&[7, 5])));
    assert_eq!(step.outcome, Outcome::Relayed);
    let step = receive(
        &mut session,
        event(7, "wl_data_device", "data_offer", &words(&[0xff00_0005])),
    );
    assert_eq!(step.outcome, Outcome::Relayed);
    assert_eq!(step.bytes, event(7, "wl_data_device", "data_offer", &words(&[0xff00_0000])));
    assert_eq!(session.objects.guest_id(0xff00_0005), Some(0xff00_0000));
}

#[test]
fn grabs_are_released_and_forgotten() {
    let mut session = with_surface();
    send(&mut session, bind(2, 3, "wl_seat", 5, 5));
    send(&mut session, request(5, "wl_seat", "get_pointer", &words(&[6])));
    send(&mut session, request(5, "wl_seat", "get_keyboard", &words(&[7])));
    receive(&mut session, event(6, "wl_pointer", "enter", &words(&[1, 4, 0, 0])));
    receive(&mut session, event(6, "wl_pointer", "button", &words(&[2, 10, 272, 1])));
    let mut entered = words(&[3, 4]);
    entered.extend(words(&[0]));
    receive(&mut session, event(7, "wl_keyboard", "enter", &entered));
    let messages = synthesize_grab_releases(&mut session);
    let senders: Vec<u32> =
        messages.iter().map(|m| MessageHeader::parse(m).unwrap().sender_id).collect();
    assert!(senders.contains(&6));
    assert!(senders.contains(&7));
    let leave = event_opcode(&lookup_interface("wl_pointer").unwrap(), "leave").unwrap();
    let left = messages
        .iter()
        .find(|m| {
            let h = MessageHeader::parse(m).unwrap();
            h.sender_id == 6 && h.opcode == leave
        })
        .unwrap();
    assert_eq!(read_u32(&left[HEADER_LEN..], 4), Some(4));
    assert!(synthesize_grab_releases(&mut session).is_empty());
}

#[test]
fn a_callback_is_answered_with_done_and_delete_id() {
    let mut session = with_surface();
    send(&mut session, request(4, "wl_surface", "frame", &words(&[8])));
    let mut out = Vec::new();
    synthesize_frame_done(&mut out, &session.objects, 8);
    assert_eq!(
        out,
        vec![
            event(8, "wl_callback", "done", &words(&[0])),
            event(1, "wl_display", "delete_id", &words(&[8])),
        ]
    );
    let mut none = Vec::new();
    synthesize_frame_done(&mut none, &ShadowTable::new(), 8);
    assert!(none.is_empty());
}

#[test]
fn cacheable_transfers_are_watched() {
    let mut session = with_surface();
    send(&mut session, bind(2, 4, "wl_data_device_manager", 3, 6));
    send(
        &mut session,
        request(6, "wl_data_device_manager", "create_data_source", &words(&[7])),
    );
    let mut mime = Vec::new();
    put_str(&mut mime, "text/plain");
    let mut fds: VecDeque<Arc<u32>> = VecDeque::new();
    fds.push_back(Arc::new(3));
    let step = relay_message(
        &mut session,
        &mut fds,
        &ClipboardCache::new(),
        Direction::HostToClient,
        false,
        event(6, "wl_data_source", "send", &mime),
    );
    assert_eq!(step.outcome, Outcome::Relayed);
    assert_eq!(step.tee.as_deref(), Some("text/plain"));
    assert_eq!(step.fds.len(), 1);
}

#[test]
fn the_first_input_serial_after_a_reconnect_offers_the_clipboard_again() {
    let mut session = with_surface();
    send(&mut session, bind(2, 3, "wl_seat", 5, 5));
    send(&mut session, request(5, "wl_seat", "get_pointer", &words(&[6])));
    session.reclaim.pending = true;
    session.reclaim.data_device_manager_global = Some((31, 3));
    let mut cache = ClipboardCache::new();
    cache.store("text/plain".to_string(), b"kept".to_vec());
    let step = relay_message(
        &mut session,
        &mut VecDeque::new(),
        &cache,
        Direction::HostToClient,
        false,
        event(6, "wl_pointer", "enter", &words(&[123, 4, 0, 0])),
    );
    let plan = step.splice.unwrap();
    assert_eq!(plan.source_host_id, 8);
    assert_eq!(plan.messages.len(), 5);
    let mut bound = words(&[31]);
    put_str(&mut bound, "wl_data_device_manager");
    bound.extend(words(&[3, 7]));
    assert_eq!(plan.messages[0], build_message(2, 0, &bound));
    assert_eq!(plan.messages[4], build_message(9, 1, &words(&[8, 123])));
    assert!(!session.reclaim.pending);

    wayland_proxy::clipboard::splice_sent(&mut session.reclaim, plan.source_host_id);
    let mut mime = Vec::new();
    put_str(&mut mime, "text/plain");
    let mut fds: VecDeque<Arc<u32>> = VecDeque::new();
    fds.push_back(Arc::new(40));
    let step = relay_message(
        &mut session,
        &mut fds,
        &cache,
        Direction::HostToClient,
        false,
        event(8, "wl_data_source", "send", &mime),
    );
    assert_eq!(step.outcome, Outcome::ClipboardEvent);
    let reply = step.clipboard.unwrap();
    assert_eq!(reply.bytes, b"kept".to_vec());
    assert_eq!(*reply.fd, 40);
    assert!(fds.is_empty());
    let step = relay_message(
        &mut session,
        &mut fds,
        &cache,
        Direction::HostToClient,
        false,
        event(8, "wl_data_source", "cancelled", &[]),
    );
    assert_eq!(step.outcome, Outcome::ClipboardEvent);
    assert_eq!(session.reclaim.active_source_host_id, None);
}

#[test]
fn protocol_errors_are_decoded() {
    let mut payload = words(&[4, 2]);
    put_str(&mut payload, "bad");
    let error = decode_display_error(&payload).unwrap();
    assert_eq!((error.object, error.code, error.message.as_str()), (4, 2, "bad"));
    assert_eq!(decode_display_error(&words(&[4, 2, 0])).unwrap().message, "<empty>");
    let mut broken = words(&[4, 2, 3]);
    broken.extend([0xff, 0xfe, 0, 0]);
    assert_eq!(decode_display_error(&broken).unwrap().message, "<invalid utf8>");
    assert!(decode_display_error(&words(&[4, 2])).is_none());
}

#[test]
fn a_session_with_no_ids_left_says_so() {
    let mut session: Session<u32> = Session::new();
    assert!(session.has_room());
    assert!(session.objects.can_bump());
    while session.objects.next_ids().1 < u32::MAX {
        session.objects.allocate_guest_server_id();
    }
    assert!(!session.has_room());
}
