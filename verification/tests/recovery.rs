use std::collections::VecDeque;
use std::sync::Arc;
use wayland_proxy::clipboard::ClipboardCache;
use wayland_proxy::interfaces::lookup_interface;
use wayland_proxy::recovery::{
    adopt_registry, begin_recovery, fetch_globals, finish_recovery, replay_sent, replay_start,
    FollowUp,
};
use wayland_proxy::recovery_run::{RecoveryRun, RunEvent, Work};
use wayland_proxy::relay::{relay_message, Outcome};
use wayland_proxy::schema::{event_opcode, request_opcode, Direction};
use wayland_proxy::session::{Inbound, Session};
use wayland_proxy::wire::{build_message, put_str, put_u32, read_sender_id, read_u32, HEADER_LEN};

/// Opcodes of interfaces that no global has.
const PARAMS_ADD: u16 = 1;
const PARAMS_CREATE_IMMED: u16 = 3;
const VIEWPORT_SET_DESTINATION: u16 = 2;

fn words(list: &[u32]) -> Vec<u8> {
    let mut out = Vec::new();
    for w in list {
        put_u32(&mut out, *w);
    }
    out
}

fn text(s: &str) -> Vec<u8> {
    let mut out = Vec::new();
    put_str(&mut out, s);
    out
}

fn request(sender: u32, interface: &str, name: &str, payload: &[u8]) -> Vec<u8> {
    let opcode = request_opcode(&lookup_interface(interface).unwrap(), name).unwrap();
    build_message(sender, opcode, payload)
}

fn event(sender: u32, interface: &str, name: &str, payload: &[u8]) -> Vec<u8> {
    let opcode = event_opcode(&lookup_interface(interface).unwrap(), name).unwrap();
    build_message(sender, opcode, payload)
}

fn bind_payload(name: u32, interface: &str, version: u32, id: u32) -> Vec<u8> {
    let mut payload = words(&[name]);
    put_str(&mut payload, interface);
    payload.extend(words(&[version, id]));
    payload
}

fn bind(registry: u32, name: u32, interface: &str, version: u32, id: u32) -> Vec<u8> {
    request(registry, "wl_registry", "bind", &bind_payload(name, interface, version, id))
}

fn global(registry: u32, name: u32, interface: &str, version: u32) -> Vec<u8> {
    let mut payload = words(&[name]);
    put_str(&mut payload, interface);
    payload.extend(words(&[version]));
    event(registry, "wl_registry", "global", &payload)
}

fn send(session: &mut Session<u32>, msg: Vec<u8>, fds: &[u32]) {
    let mut queue: VecDeque<Arc<u32>> = fds.iter().map(|fd| Arc::new(*fd)).collect();
    let step = relay_message(
        session,
        &mut queue,
        &ClipboardCache::new(),
        Direction::ClientToHost,
        false,
        msg,
    );
    assert_eq!(step.outcome, Outcome::Relayed);
}

struct Replayed {
    requests: Vec<(Vec<u8>, usize)>,
    follow_ups: Vec<FollowUp<u32>>,
    settled: Vec<Vec<u8>>,
}

/// Runs a whole recovery against a compositor that offers `globals`, with every
/// write succeeding.
fn recover(session: &mut Session<u32>, globals: &[(u32, &str, u32)]) -> Replayed {
    session.objects.bump_generation();
    let start = begin_recovery(session).unwrap();
    assert_eq!(
        start.requests,
        vec![
            request(1, "wl_display", "get_registry", &words(&[2])),
            request(1, "wl_display", "sync", &words(&[3])),
        ]
    );
    let mut fetch = start.fetch;
    let mut inbound: Inbound<u32> = Inbound::new();
    for (name, interface, version) in globals {
        inbound.extend(&global(2, *name, interface, *version), vec![]);
        assert!(!fetch_globals(&mut fetch, &mut inbound));
    }
    inbound.extend(&event(3, "wl_callback", "done", &words(&[0])), vec![]);
    assert!(fetch_globals(&mut fetch, &mut inbound));
    adopt_registry(session, &fetch);

    let mut out = Replayed { requests: Vec::new(), follow_ups: Vec::new(), settled: Vec::new() };
    let mut serial = 1;
    for index in 0..session.graph.len() {
        let mut stage = Some(replay_start(session, &fetch, index));
        while let Some(now) = stage {
            for outgoing in now.requests {
                out.requests.push((outgoing.bytes, outgoing.fds.len()));
            }
            let sent = replay_sent(session, index, now.next, &mut serial);
            out.follow_ups.extend(sent.follow_ups);
            stage = sent.stage;
        }
    }
    out.settled = finish_recovery(session, &fetch);
    out
}

fn with_toplevel() -> Session<u32> {
    let mut session = Session::new();
    send(&mut session, request(1, "wl_display", "get_registry", &words(&[2])), &[]);
    send(&mut session, bind(2, 9, "wl_compositor", 4, 3), &[]);
    send(&mut session, request(3, "wl_compositor", "create_surface", &words(&[4])), &[]);
    send(&mut session, bind(2, 8, "xdg_wm_base", 2, 5), &[]);
    send(&mut session, request(5, "xdg_wm_base", "get_xdg_surface", &words(&[6, 4])), &[]);
    send(&mut session, request(6, "xdg_surface", "get_toplevel", &words(&[7])), &[]);
    send(&mut session, request(7, "xdg_toplevel", "set_title", &text("hello")), &[]);
    session
}

#[test]
fn a_window_comes_back_under_new_host_ids() {
    let mut session = with_toplevel();
    let back = recover(&mut session, &[(20, "wl_compositor", 3), (21, "xdg_wm_base", 7)]);
    let bytes: Vec<Vec<u8>> = back.requests.iter().map(|r| r.0.clone()).collect();
    assert_eq!(
        bytes,
        vec![
            // Offered at version 3 only, though the client asked for 4.
            bind(2, 20, "wl_compositor", 3, 4),
            request(4, "wl_compositor", "create_surface", &words(&[5])),
            bind(2, 21, "xdg_wm_base", 2, 6),
            request(6, "xdg_wm_base", "get_xdg_surface", &words(&[7, 5])),
            request(7, "xdg_surface", "get_toplevel", &words(&[8])),
        ]
    );
    let told: Vec<(bool, Vec<u8>)> =
        back.follow_ups.iter().map(|f| (f.to_client, f.message.bytes.clone())).collect();
    assert_eq!(
        told,
        vec![
            (false, request(8, "xdg_toplevel", "set_title", &text("hello"))),
            (true, event(7, "xdg_toplevel", "configure", &words(&[0, 0, 0]))),
            (true, event(6, "xdg_surface", "configure", &words(&[1]))),
        ]
    );
    assert_eq!(session.pending_configure_acks.get(&6), Some(&1));
    for guest in [1, 2, 3, 4, 5, 6, 7] {
        assert!(session.objects.host_id(guest).is_some());
    }
    assert!(session.reclaim.pending);
    assert!(back.settled.is_empty());
}

#[test]
fn a_recovery_asks_for_consecutive_host_ids() {
    let mut session = with_toplevel();
    send(&mut session, bind(2, 9, "zwp_linux_dmabuf_v1", 3, 20), &[]);
    send(&mut session, request(20, "zwp_linux_dmabuf_v1", "create_params", &words(&[21])), &[]);
    let plane = words(&[0, 0, 256, 0, 0]);
    send(&mut session, build_message(21, PARAMS_ADD, &plane), &[71]);
    let immed = words(&[22, 64, 64, 7, 0]);
    send(&mut session, build_message(21, PARAMS_CREATE_IMMED, &immed), &[]);
    let back = recover(
        &mut session,
        &[(20, "wl_compositor", 4), (21, "xdg_wm_base", 2), (22, "zwp_linux_dmabuf_v1", 3)],
    );
    let mut ids = Vec::new();
    for (bytes, fds) in &back.requests {
        let is_bind = read_sender_id(bytes) == Some(2);
        let at = if is_bind { bytes.len() - 4 } else { HEADER_LEN };
        // The one request with a descriptor describes a plane.
        if *fds == 0 {
            ids.push(read_u32(bytes, at).unwrap());
        }
    }
    assert_eq!(ids, vec![4, 5, 6, 7, 8, 9, 10, 11]);
    assert_eq!(session.objects.next_ids().0, 12);
}

#[test]
fn what_the_new_compositor_lacks_stays_away_with_its_children() {
    let mut session = with_toplevel();
    let back = recover(&mut session, &[(20, "wl_compositor", 4)]);
    let bytes: Vec<Vec<u8>> = back.requests.iter().map(|r| r.0.clone()).collect();
    assert_eq!(
        bytes,
        vec![
            bind(2, 20, "wl_compositor", 4, 4),
            request(4, "wl_compositor", "create_surface", &words(&[5])),
        ]
    );
    assert!(back.follow_ups.is_empty());
    assert_eq!(session.objects.host_id(5), None);
    assert_eq!(session.objects.host_id(7), None);
}

#[test]
fn pools_and_buffers_come_back_with_their_descriptors() {
    let mut session = Session::new();
    send(&mut session, request(1, "wl_display", "get_registry", &words(&[2])), &[]);
    send(&mut session, bind(2, 9, "wl_shm", 1, 3), &[]);
    send(&mut session, request(3, "wl_shm", "create_pool", &words(&[4, 4096])), &[70]);
    send(&mut session, request(4, "wl_shm_pool", "resize", &words(&[8192])), &[]);
    send(
        &mut session,
        request(4, "wl_shm_pool", "create_buffer", &words(&[5, 0, 16, 16, 64, 1])),
        &[],
    );
    let back = recover(&mut session, &[(20, "wl_shm", 1)]);
    assert_eq!(
        back.requests,
        vec![
            (bind(2, 20, "wl_shm", 1, 4), 0),
            (request(4, "wl_shm", "create_pool", &words(&[5, 8192])), 1),
            (request(5, "wl_shm_pool", "create_buffer", &words(&[6, 0, 16, 16, 64, 1])), 0),
        ]
    );
}

#[test]
fn a_dmabuf_buffer_comes_back_through_fresh_params() {
    let mut session = Session::new();
    send(&mut session, request(1, "wl_display", "get_registry", &words(&[2])), &[]);
    send(&mut session, bind(2, 9, "zwp_linux_dmabuf_v1", 3, 3), &[]);
    send(&mut session, request(3, "zwp_linux_dmabuf_v1", "create_params", &words(&[4])), &[]);
    let plane = words(&[0, 0, 256, 0xAABB_CCDD, 0xEEFF_0011]);
    send(&mut session, build_message(4, PARAMS_ADD, &plane), &[71]);
    let immed = words(&[5, 64, 64, 7, 0]);
    send(&mut session, build_message(4, PARAMS_CREATE_IMMED, &immed), &[]);
    let back = recover(&mut session, &[(20, "zwp_linux_dmabuf_v1", 3)]);
    assert_eq!(
        back.requests,
        vec![
            (bind(2, 20, "zwp_linux_dmabuf_v1", 3, 4), 0),
            (request(4, "zwp_linux_dmabuf_v1", "create_params", &words(&[5])), 0),
            (build_message(5, PARAMS_ADD, &plane), 1),
            (build_message(5, PARAMS_CREATE_IMMED, &words(&[6, 64, 64, 7, 0])), 0),
        ]
    );
    assert_eq!(session.objects.host_id(5), Some(6));
}

#[test]
fn a_viewport_is_told_its_destination_again() {
    let mut session = with_toplevel();
    send(&mut session, bind(2, 11, "wp_viewporter", 1, 10), &[]);
    send(&mut session, request(10, "wp_viewporter", "get_viewport", &words(&[11, 4])), &[]);
    send(&mut session, build_message(11, VIEWPORT_SET_DESTINATION, &words(&[348, 269])), &[]);
    let back =
        recover(&mut session, &[(20, "wl_compositor", 4), (22, "wp_viewporter", 1)]);
    assert_eq!(back.follow_ups.len(), 1);
    assert!(!back.follow_ups[0].to_client);
    assert_eq!(
        back.follow_ups[0].message.bytes,
        build_message(7, VIEWPORT_SET_DESTINATION, &words(&[348, 269]))
    );
}

#[test]
fn what_is_owed_to_the_client_is_settled() {
    let mut session = with_toplevel();
    send(&mut session, bind(2, 9, "wl_shm", 1, 20), &[]);
    send(&mut session, request(20, "wl_shm", "create_pool", &words(&[21, 4096])), &[70]);
    send(
        &mut session,
        request(21, "wl_shm_pool", "create_buffer", &words(&[22, 0, 16, 16, 64, 1])),
        &[],
    );
    send(&mut session, request(4, "wl_surface", "attach", &words(&[22, 0, 0])), &[]);
    send(&mut session, request(4, "wl_surface", "frame", &words(&[23])), &[]);
    send(&mut session, request(4, "wl_surface", "commit", &[]), &[]);
    let mut lost = with_toplevel();
    std::mem::swap(&mut lost.buffer_flow, &mut session.buffer_flow);
    assert!(recover(&mut lost, &[(20, "wl_compositor", 4)]).settled.is_empty());
    session.buffer_flow.on_attach(4, 22);
    session.buffer_flow.on_commit(4);
    let back = recover(&mut session, &[(20, "wl_compositor", 4), (21, "wl_shm", 1)]);
    assert_eq!(
        back.settled,
        vec![
            event(22, "wl_buffer", "release", &[]),
            event(23, "wl_callback", "done", &words(&[0])),
            event(1, "wl_display", "delete_id", &words(&[23])),
        ]
    );
}

#[test]
fn the_registrys_events_may_be_cut_anywhere() {
    let mut session = with_toplevel();
    session.objects.bump_generation();
    let mut whole = begin_recovery(&mut session).unwrap().fetch;
    session.objects.bump_generation();
    let mut pieces = begin_recovery(&mut session).unwrap().fetch;
    let mut bytes = global(2, 20, "wl_compositor", 4);
    bytes.extend(global(2, 21, "wl_data_device_manager", 3));
    bytes.extend(event(3, "wl_callback", "done", &words(&[0])));
    let mut all: Inbound<u32> = Inbound::new();
    all.extend(&bytes, vec![]);
    assert!(fetch_globals(&mut whole, &mut all));
    let mut piecemeal: Inbound<u32> = Inbound::new();
    let mut done = false;
    for byte in &bytes {
        assert!(!done);
        piecemeal.extend(&[*byte], vec![]);
        done = fetch_globals(&mut pieces, &mut piecemeal);
    }
    assert!(done);
    assert_eq!(whole.globals.wl_compositor, Some((20, 4)));
    assert_eq!(pieces.globals.wl_compositor, Some((20, 4)));
    assert_eq!(pieces.globals.wl_data_device_manager, Some((21, 3)));
}

#[test]
fn there_is_nothing_to_recover_without_a_registry() {
    let mut session: Session<u32> = Session::new();
    session.objects.bump_generation();
    assert!(begin_recovery(&mut session).is_none());
}

/// Drives a run to its end, with every write to the host from the `broken`th
/// stage on failing.
fn drive(
    session: &mut Session<u32>,
    globals: &[(u32, &str, u32)],
    broken: usize,
) -> (Vec<Vec<u8>>, bool) {
    session.objects.bump_generation();
    let mut run = RecoveryRun::new();
    let mut inbound: Inbound<u32> = Inbound::new();
    let mut requests = Vec::new();
    let mut stages = 0;
    let mut event = RunEvent::Begin;
    loop {
        event = match run.advance(session, &mut inbound, event) {
            Work::Open(messages) => {
                assert_eq!(messages.len(), 2);
                RunEvent::Written { all: true }
            }
            Work::Read => {
                for (name, interface, version) in globals {
                    inbound.extend(&global(2, *name, interface, *version), vec![]);
                }
                inbound.extend(&event_done(), vec![]);
                RunEvent::Arrived
            }
            Work::Stage(messages) => {
                let all = stages < broken;
                stages += 1;
                if all {
                    requests.extend(messages.into_iter().map(|m| m.bytes));
                }
                RunEvent::Written { all }
            }
            Work::Follow(_) => RunEvent::Written { all: false },
            Work::Settle(_) => RunEvent::Written { all: false },
            Work::Done => return (requests, true),
            Work::Failed => return (requests, false),
        };
    }
}

fn event_done() -> Vec<u8> {
    event(3, "wl_callback", "done", &words(&[0]))
}

#[test]
fn a_run_replays_the_recipes_one_after_the_other() {
    let globals = [(20, "wl_compositor", 3), (21, "xdg_wm_base", 7)];
    let mut stepwise = with_toplevel();
    let expected: Vec<Vec<u8>> =
        recover(&mut stepwise, &globals).requests.into_iter().map(|r| r.0).collect();
    let mut session = with_toplevel();
    let (requests, done) = drive(&mut session, &globals, usize::MAX);
    assert!(done);
    assert_eq!(requests, expected);
    for guest in [1, 2, 3, 4, 5, 6, 7] {
        assert_eq!(session.objects.host_id(guest), stepwise.objects.host_id(guest));
    }
    assert!(session.reclaim.pending);
}

#[test]
fn an_object_that_cannot_be_asked_for_is_passed_over() {
    let globals = [(20, "wl_compositor", 3), (21, "xdg_wm_base", 7)];
    let mut session = with_toplevel();
    let (requests, done) = drive(&mut session, &globals, 1);
    assert!(done);
    assert_eq!(requests.len(), 1);
    assert!(session.objects.host_id(3).is_some());
    assert_eq!(session.objects.host_id(4), None);
}

#[test]
fn a_run_fails_with_its_connection() {
    let mut session = with_toplevel();
    session.objects.bump_generation();
    let mut inbound: Inbound<u32> = Inbound::new();
    let mut run = RecoveryRun::new();
    assert!(matches!(run.advance(&mut session, &mut inbound, RunEvent::Begin), Work::Open(_)));
    let lost = RunEvent::Written { all: false };
    assert!(matches!(run.advance(&mut session, &mut inbound, lost), Work::Failed));

    session.objects.bump_generation();
    let mut run = RecoveryRun::new();
    run.advance(&mut session, &mut inbound, RunEvent::Begin);
    let sent = RunEvent::Written { all: true };
    assert!(matches!(run.advance(&mut session, &mut inbound, sent), Work::Read));
    assert!(matches!(run.advance(&mut session, &mut inbound, RunEvent::Closed), Work::Failed));

    let mut empty: Session<u32> = Session::new();
    empty.objects.bump_generation();
    let mut run = RecoveryRun::new();
    assert!(matches!(run.advance(&mut empty, &mut inbound, RunEvent::Begin), Work::Done));
}
