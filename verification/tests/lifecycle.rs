use wayland_proxy::connection::{ConnectionAction, ConnectionEvent, Lifecycle, MessageWrite};
use wayland_proxy::handoff::{
    is_zombie, target_is_alive, trace, watch, HandoffFailure, TraceAction, TraceEvent, TraceState,
    WatchAction, WatchEvent, WatchState, SIGSTOP, SIGTRAP,
};

#[test]
fn a_connection_freezes_and_recovers() {
    let mut life = Lifecycle::new();
    assert!(life.wants_host() && !life.wants_reconnect());
    assert_eq!(
        life.react(ConnectionEvent::ClientData),
        ConnectionAction::RelayFromClient { frozen: false }
    );
    assert_eq!(life.react(ConnectionEvent::HostData), ConnectionAction::RelayFromHost);
    assert_eq!(life.react(ConnectionEvent::HostGone), ConnectionAction::Wait);
    assert!(!life.wants_host() && life.wants_reconnect());
    assert_eq!(
        life.react(ConnectionEvent::ClientData),
        ConnectionAction::RelayFromClient { frozen: true }
    );
    assert_eq!(life.react(ConnectionEvent::Reconnected), ConnectionAction::Recover);
    assert_eq!(life.react(ConnectionEvent::RecoveryFailed), ConnectionAction::RetryLater);
    assert!(life.wants_reconnect());
    assert_eq!(life.react(ConnectionEvent::Reconnected), ConnectionAction::Recover);
    assert_eq!(life.react(ConnectionEvent::Recovered), ConnectionAction::Resume);
    assert!(life.wants_host());
    assert_eq!(life.react(ConnectionEvent::ClientGone), ConnectionAction::Finish);
}

#[test]
fn descriptors_ride_with_the_first_byte() {
    let mut write = MessageWrite::new(10);
    assert_eq!(write.next_piece(), Some((0, true)));
    write.wrote(0);
    assert_eq!(write.next_piece(), Some((0, true)));
    write.wrote(4);
    assert_eq!(write.next_piece(), Some((4, false)));
    write.wrote(6);
    assert_eq!(write.next_piece(), None);
    assert_eq!(MessageWrite::new(0).next_piece(), None);
}

#[test]
fn an_unreaped_process_is_not_alive() {
    let zombie = "Name:\tlabwc\nState:\tZ (zombie)\nTgid:\t1\n";
    let sleeping = "Name:\tZed\nState:\tS (sleeping)\nTgid:\t1\n";
    assert!(is_zombie(zombie));
    assert!(!is_zombie(sleeping));
    assert!(!is_zombie(""));
    assert!(is_zombie("State: Z"));
    assert!(!is_zombie(" State: Z"));
    assert!(target_is_alive(true, Some(sleeping)));
    assert!(!target_is_alive(true, Some(zombie)));
    assert!(!target_is_alive(true, None));
    assert!(!target_is_alive(false, Some(sleeping)));
}

#[test]
fn a_stopped_process_goes_on_even_if_the_renaming_fails() {
    let mut state = WatchState::Watching;
    let round = WatchEvent::Round { timed_out: false, alive: true };
    assert_eq!(watch(&mut state, round), WatchAction::Poll);
    assert_eq!(watch(&mut state, WatchEvent::Appeared { wanted: false }), WatchAction::LookOn);
    assert_eq!(watch(&mut state, WatchEvent::Appeared { wanted: true }), WatchAction::Stop);
    assert_eq!(watch(&mut state, WatchEvent::Stopped { ok: true }), WatchAction::Rename);
    assert_eq!(watch(&mut state, WatchEvent::Renamed { ok: false }), WatchAction::Resume);
    assert_eq!(
        watch(&mut state, WatchEvent::Resumed),
        WatchAction::Fail(HandoffFailure::CannotRename)
    );
    let mut state = WatchState::Resuming { renamed: true };
    assert_eq!(watch(&mut state, WatchEvent::Resumed), WatchAction::Finish);
    let mut state = WatchState::Watching;
    assert_eq!(
        watch(&mut state, WatchEvent::Round { timed_out: true, alive: true }),
        WatchAction::Fail(HandoffFailure::TimedOut)
    );
    let mut state = WatchState::Watching;
    assert_eq!(
        watch(&mut state, WatchEvent::Round { timed_out: false, alive: false }),
        WatchAction::Fail(HandoffFailure::TargetGone)
    );
    let mut state = WatchState::Stopping;
    assert_eq!(
        watch(&mut state, WatchEvent::Stopped { ok: false }),
        WatchAction::Fail(HandoffFailure::CannotStop)
    );
}

#[test]
fn a_traced_process_is_caught_at_the_end_of_its_bind() {
    let bind = 49;
    let mut state = TraceState::new();
    let go_on = TraceAction::Resume { signal: None };
    assert_eq!(trace(&mut state, bind, TraceEvent::EventStop), go_on);
    assert_eq!(trace(&mut state, bind, TraceEvent::StillRunning), TraceAction::Pause);
    assert_eq!(trace(&mut state, bind, TraceEvent::SyscallStop), go_on);
    assert_eq!(trace(&mut state, bind, TraceEvent::SyscallStop), TraceAction::Inspect);
    let failed = TraceEvent::Inspected { syscall: 49, result: u64::MAX, exists: true };
    assert_eq!(trace(&mut state, bind, failed), go_on);
    let absent = TraceEvent::Inspected { syscall: 49, result: 0, exists: false };
    assert_eq!(trace(&mut state, bind, absent), go_on);
    let other = TraceEvent::Inspected { syscall: 1, result: 0, exists: true };
    assert_eq!(trace(&mut state, bind, other), go_on);
    for (signal, passed) in [(SIGTRAP, None), (SIGSTOP, None), (15, Some(15))] {
        assert_eq!(
            trace(&mut state, bind, TraceEvent::SignalStop { signal }),
            TraceAction::Resume { signal: passed }
        );
    }
    let bound = TraceEvent::Inspected { syscall: 49, result: 0, exists: true };
    assert_eq!(trace(&mut state, bind, bound), TraceAction::HandOver);
    assert_eq!(
        trace(&mut state, bind, TraceEvent::HandedOver { renamed: true, detached: true }),
        TraceAction::Finish
    );
}

#[test]
fn a_traced_process_is_let_go_on_failure() {
    let fail = |failure, detach| TraceAction::Fail { failure, detach };
    for (event, expected) in [
        (TraceEvent::Deadline, fail(HandoffFailure::TimedOut, true)),
        (TraceEvent::Unexpected, fail(HandoffFailure::CannotWait, true)),
        (TraceEvent::Gone, fail(HandoffFailure::TargetGone, false)),
        (
            TraceEvent::HandedOver { renamed: false, detached: true },
            fail(HandoffFailure::CannotRename, false),
        ),
        (
            TraceEvent::HandedOver { renamed: true, detached: false },
            fail(HandoffFailure::CannotDetach, false),
        ),
    ] {
        let mut state = TraceState::new();
        assert_eq!(trace(&mut state, 49, event), expected);
        assert!(!state.attached);
    }
}
