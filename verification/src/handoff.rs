//! Takes a freshly bound socket away from the process that bound it, before
//! that process can do anything else: the decisions of the `socket-handoff`
//! helper.
//!
//! There are two ways.  One watches the directory and stops the process by a
//! signal as soon as the socket appears.  The other traces the process and
//! catches it at the very end of its `bind` call.
use crate::text;
use crate::text::{chars_of, stands_at};
use vstd::prelude::*;

verus! {

/// Whether the line from `from` up to `to` says that the process is a zombie.
pub open spec fn is_zombie_line(s: Seq<char>, from: int, to: int) -> bool {
    from + 6 <= to && s.subrange(from, from + 6) == "State:"@ && exists|i: int|
        from <= i < to && #[trigger] s[i] == 'Z'
}

/// Whether a line from `from` on says that the process is a zombie.
pub open spec fn zombie_from(s: Seq<char>, from: int) -> bool
    decreases s.len() - from + 1,
    when 0 <= from
    via zombie_from_decreases
{
    if from >= s.len() {
        false
    } else {
        let to = text::line_end(s, from);
        is_zombie_line(s, from, to) || zombie_from(s, to + 1)
    }
}

#[via_fn]
proof fn zombie_from_decreases(s: Seq<char>, from: int) {
    text::lemma_line_end(s, from);
}

/// Whether the kernel's status text of a process says that it has exited and
/// only waits to be reaped.
pub fn is_zombie(status: &str) -> (r: bool)
    ensures
        r == zombie_from(status@, 0),
{
    let s = chars_of(status);
    let key = chars_of("State:");
    proof {
        reveal_strlit("State:");
    }
    let mut from: usize = 0;
    while from < s.len()
        invariant
            s@ == status@,
            key@ == "State:"@,
            key@.len() == 6,
            zombie_from(s@, 0) == zombie_from(s@, from as int),
        decreases s.len() - from,
    {
        let mut to: usize = from;
        let mut has_z = false;
        while to < s.len() && s[to] != '\n'
            invariant
                from <= to <= s@.len(),
                text::line_end(s@, from as int) == text::line_end(s@, to as int),
                has_z == exists|i: int| from <= i < to && #[trigger] s@[i] == 'Z',
            decreases s.len() - to,
        {
            if s[to] == 'Z' {
                has_z = true;
                assert(s@[to as int] == 'Z');
            }
            to += 1;
        }
        let named = to - from >= 6 && stands_at(&s, from, &key);
        if named && has_z {
            return true;
        }
        if to >= s.len() {
            assert(!zombie_from(s@, to + 1));
            return false;
        }
        from = to + 1;
    }
    false
}

/// Whether a process still lives, given whether it can be signalled and what
/// its status says, if that can be read.  One that has exited but was not
/// reaped yet does not.
pub fn target_is_alive(can_signal: bool, status: Option<&str>) -> (r: bool)
    ensures
        r == (can_signal && match status {
            Some(s) => !zombie_from(s@, 0),
            None => false,
        }),
{
    if !can_signal {
        return false;
    }
    match status {
        Some(s) => !is_zombie(s),
        None => false,
    }
}

/// Why a handoff failed.
#[derive(Debug, Clone, Copy, PartialEq, Eq, Structural)]
pub enum HandoffFailure {
    /// The socket did not appear in time.
    TimedOut,
    /// The process went away first.
    TargetGone,
    /// The process could not be stopped.
    CannotStop,
    /// The socket could not be renamed.
    CannotRename,
    /// The process could not be let go.
    CannotDetach,
    /// Waiting for the process failed, or brought something unexpected.
    CannotWait,
}

/// Where the watching helper stands.
#[derive(Debug, Clone, Copy, PartialEq, Eq, Structural)]
pub enum WatchState {
    /// Waiting for the socket to appear.
    Watching,
    /// The process is being stopped.
    Stopping,
    /// The process is stopped, and the socket is being renamed.
    Renaming,
    /// The process is being let go; `renamed` says whether the renaming worked.
    Resuming { renamed: bool },
    /// Nothing left to do.
    Done,
}

/// What the watching helper learned.
#[derive(Debug, Clone, Copy, PartialEq, Eq, Structural)]
pub enum WatchEvent {
    /// A round of waiting begins.
    Round { timed_out: bool, alive: bool },
    /// A file appeared; `wanted` says whether it is the socket.
    Appeared { wanted: bool },
    /// The attempt to stop the process is over.
    Stopped { ok: bool },
    /// The attempt to rename the socket is over.
    Renamed { ok: bool },
    /// The process was let go.
    Resumed,
}

/// What the watching helper does next.
#[derive(Debug, Clone, Copy, PartialEq, Eq, Structural)]
pub enum WatchAction {
    /// Wait for files to appear.
    Poll,
    /// Look at the next file that appeared.
    LookOn,
    /// Stop the process.
    Stop,
    /// Rename the socket.
    Rename,
    /// Let the process go on.
    Resume,
    /// Everything worked.
    Finish,
    /// Give up.
    Fail(HandoffFailure),
}

/// The watching helper's next state, and what to do.
pub open spec fn watch_reaction(state: WatchState, event: WatchEvent) -> (WatchState, WatchAction) {
    match (state, event) {
        (WatchState::Watching, WatchEvent::Round { timed_out, alive }) => if timed_out {
            (WatchState::Done, WatchAction::Fail(HandoffFailure::TimedOut))
        } else if !alive {
            (WatchState::Done, WatchAction::Fail(HandoffFailure::TargetGone))
        } else {
            (WatchState::Watching, WatchAction::Poll)
        },
        (WatchState::Watching, WatchEvent::Appeared { wanted }) => if wanted {
            (WatchState::Stopping, WatchAction::Stop)
        } else {
            (WatchState::Watching, WatchAction::LookOn)
        },
        (WatchState::Stopping, WatchEvent::Stopped { ok }) => if ok {
            (WatchState::Renaming, WatchAction::Rename)
        } else {
            (WatchState::Done, WatchAction::Fail(HandoffFailure::CannotStop))
        },
        (WatchState::Renaming, WatchEvent::Renamed { ok }) => (
            WatchState::Resuming { renamed: ok },
            WatchAction::Resume,
        ),
        (WatchState::Resuming { renamed }, WatchEvent::Resumed) => if renamed {
            (WatchState::Done, WatchAction::Finish)
        } else {
            (WatchState::Done, WatchAction::Fail(HandoffFailure::CannotRename))
        },
        _ => (state, WatchAction::LookOn),
    }
}

/// The watching helper's decisions.
pub fn watch(state: &mut WatchState, event: WatchEvent) -> (r: WatchAction)
    ensures
        (*final(state), r) == watch_reaction(*old(state), event),
{
    let (next, action) = match (*state, event) {
        (WatchState::Watching, WatchEvent::Round { timed_out, alive }) => {
            if timed_out {
                (WatchState::Done, WatchAction::Fail(HandoffFailure::TimedOut))
            } else if !alive {
                (WatchState::Done, WatchAction::Fail(HandoffFailure::TargetGone))
            } else {
                (WatchState::Watching, WatchAction::Poll)
            }
        },
        (WatchState::Watching, WatchEvent::Appeared { wanted }) => {
            if wanted {
                (WatchState::Stopping, WatchAction::Stop)
            } else {
                (WatchState::Watching, WatchAction::LookOn)
            }
        },
        (WatchState::Stopping, WatchEvent::Stopped { ok }) => {
            if ok {
                (WatchState::Renaming, WatchAction::Rename)
            } else {
                (WatchState::Done, WatchAction::Fail(HandoffFailure::CannotStop))
            }
        },
        (WatchState::Renaming, WatchEvent::Renamed { ok }) => (
            WatchState::Resuming { renamed: ok },
            WatchAction::Resume,
        ),
        (WatchState::Resuming { renamed }, WatchEvent::Resumed) => {
            if renamed {
                (WatchState::Done, WatchAction::Finish)
            } else {
                (WatchState::Done, WatchAction::Fail(HandoffFailure::CannotRename))
            }
        },
        (unchanged, _) => (unchanged, WatchAction::LookOn),
    };
    *state = next;
    action
}

/// A stopped process is always let go, whether or not the renaming worked, and
/// nothing ends while it is stopped.
pub proof fn lemma_stopped_process_is_resumed(state: WatchState, event: WatchEvent)
    ensures
        state is Renaming && event is Renamed ==> watch_reaction(state, event).1 is Resume,
        state is Renaming ==> !(watch_reaction(state, event).0 is Done),
        watch_reaction(state, event).1 is Rename ==> watch_reaction(state, event).0 is Renaming,
{
}

/// Where the tracing helper stands.
#[derive(Debug, Clone, Copy, PartialEq, Eq, Structural)]
pub struct TraceState {
    /// Whether the process is inside a system call.
    pub in_syscall: bool,
    /// Whether the process has to be let go when the helper gives up.
    pub attached: bool,
}

/// What the tracing helper learned about the process.
#[derive(Debug, Clone, Copy, PartialEq, Eq, Structural)]
pub enum TraceEvent {
    /// The time is up.
    Deadline,
    /// Nothing happened.
    StillRunning,
    /// It exited, was killed, or is no child any more.
    Gone,
    /// It stopped because tracing began.
    EventStop,
    /// It stopped at the start or the end of a system call.
    SyscallStop,
    /// What its registers say at the end of a system call, and whether the
    /// socket is there.
    Inspected { syscall: u64, result: u64, exists: bool },
    /// It stopped because it received a signal.
    SignalStop { signal: i32 },
    /// Something else, or waiting failed.
    Unexpected,
    /// The socket was renamed and the process let go, each as far as it worked.
    HandedOver { renamed: bool, detached: bool },
}

/// What the tracing helper does next.
#[derive(Debug, Clone, Copy, PartialEq, Eq, Structural)]
pub enum TraceAction {
    /// Look again in a moment.
    Pause,
    /// Let the process run to its next stop, with a signal or without.
    Resume { signal: Option<i32> },
    /// Read the registers of the process.
    Inspect,
    /// Rename the socket, then let the process go.
    HandOver,
    /// Everything worked.
    Finish,
    /// Give up; `detach` says that the process has to be let go.
    Fail { failure: HandoffFailure, detach: bool },
}

/// The number of the signal that a traced process stops with.
pub const SIGTRAP: i32 = 5;

/// The number of the signal that stops a process.
pub const SIGSTOP: i32 = 19;

/// Whether a register holds a number that is not negative.
pub open spec fn is_success(result: u64) -> bool {
    result < 0x8000_0000_0000_0000
}

/// The tracing helper's next state, and what to do.  `bind` is the number of
/// the system call to wait for.
pub open spec fn trace_reaction(state: TraceState, bind: u64, event: TraceEvent) -> (
    TraceState,
    TraceAction,
) {
    let gone = TraceState { attached: false, ..state };
    match event {
        TraceEvent::Deadline => (
            gone,
            TraceAction::Fail { failure: HandoffFailure::TimedOut, detach: state.attached },
        ),
        TraceEvent::StillRunning => (state, TraceAction::Pause),
        TraceEvent::Gone => (
            gone,
            TraceAction::Fail { failure: HandoffFailure::TargetGone, detach: false },
        ),
        TraceEvent::EventStop => (state, TraceAction::Resume { signal: None }),
        TraceEvent::SyscallStop => if state.in_syscall {
            (TraceState { in_syscall: false, ..state }, TraceAction::Inspect)
        } else {
            (TraceState { in_syscall: true, ..state }, TraceAction::Resume { signal: None })
        },
        TraceEvent::Inspected { syscall, result, exists } => if syscall == bind && is_success(
            result,
        ) && exists {
            (gone, TraceAction::HandOver)
        } else {
            (state, TraceAction::Resume { signal: None })
        },
        TraceEvent::SignalStop { signal } => (
            state,
            TraceAction::Resume {
                signal: if signal == SIGTRAP || signal == SIGSTOP {
                    None
                } else {
                    Some(signal)
                },
            },
        ),
        TraceEvent::Unexpected => (
            gone,
            TraceAction::Fail { failure: HandoffFailure::CannotWait, detach: state.attached },
        ),
        TraceEvent::HandedOver { renamed, detached } => (
            gone,
            if !renamed {
                TraceAction::Fail { failure: HandoffFailure::CannotRename, detach: false }
            } else if !detached {
                TraceAction::Fail { failure: HandoffFailure::CannotDetach, detach: false }
            } else {
                TraceAction::Finish
            },
        ),
    }
}

impl TraceState {
    /// A process that tracing just began for.
    pub fn new() -> (r: TraceState)
        ensures
            r == (TraceState { in_syscall: false, attached: true }),
    {
        TraceState { in_syscall: false, attached: true }
    }
}

/// The tracing helper's decisions.
pub fn trace(state: &mut TraceState, bind: u64, event: TraceEvent) -> (r: TraceAction)
    ensures
        (*final(state), r) == trace_reaction(*old(state), bind, event),
{
    let attached = state.attached;
    match event {
        TraceEvent::Deadline => {
            state.attached = false;
            TraceAction::Fail { failure: HandoffFailure::TimedOut, detach: attached }
        },
        TraceEvent::StillRunning => TraceAction::Pause,
        TraceEvent::Gone => {
            state.attached = false;
            TraceAction::Fail { failure: HandoffFailure::TargetGone, detach: false }
        },
        TraceEvent::EventStop => TraceAction::Resume { signal: None },
        TraceEvent::SyscallStop => {
            state.in_syscall = !state.in_syscall;
            if state.in_syscall {
                TraceAction::Resume { signal: None }
            } else {
                TraceAction::Inspect
            }
        },
        TraceEvent::Inspected { syscall, result, exists } => {
            if syscall == bind && result < 0x8000_0000_0000_0000 && exists {
                state.attached = false;
                TraceAction::HandOver
            } else {
                TraceAction::Resume { signal: None }
            }
        },
        TraceEvent::SignalStop { signal } => TraceAction::Resume {
            signal: if signal == SIGTRAP || signal == SIGSTOP {
                None
            } else {
                Some(signal)
            },
        },
        TraceEvent::Unexpected => {
            state.attached = false;
            TraceAction::Fail { failure: HandoffFailure::CannotWait, detach: attached }
        },
        TraceEvent::HandedOver { renamed, detached } => {
            state.attached = false;
            if !renamed {
                TraceAction::Fail { failure: HandoffFailure::CannotRename, detach: false }
            } else if !detached {
                TraceAction::Fail { failure: HandoffFailure::CannotDetach, detach: false }
            } else {
                TraceAction::Finish
            }
        },
    }
}

/// A traced process is never left behind stopped: wherever the helper gives up
/// on a process that is still there and not handed over yet, it lets it go.
pub proof fn lemma_traced_process_is_released(state: TraceState, bind: u64, event: TraceEvent)
    ensures
        state.attached && !(event is Gone) && !(event is HandedOver) ==> (trace_reaction(
            state,
            bind,
            event,
        ).1 matches TraceAction::Fail { detach, .. } ==> detach),
        trace_reaction(state, bind, event).0.attached ==> !(trace_reaction(
            state,
            bind,
            event,
        ).1 is Fail),
{
}

/// The socket is taken only at the end of a `bind` that succeeded and while
/// the socket is there.
pub proof fn lemma_taken_at_a_successful_bind(state: TraceState, bind: u64, event: TraceEvent)
    ensures
        trace_reaction(state, bind, event).1 is HandOver <==> (event matches TraceEvent::Inspected {
            syscall,
            result,
            exists,
        } && syscall == bind && is_success(result) && exists),
{
}

/// The stops of a system call come in pairs, and only the second is looked at.
pub proof fn lemma_stops_come_in_pairs(state: TraceState, bind: u64)
    requires
        !state.in_syscall,
    ensures
        ({
            let (entry, first) = trace_reaction(state, bind, TraceEvent::SyscallStop);
            let (exit, second) = trace_reaction(entry, bind, TraceEvent::SyscallStop);
            first is Resume && second is Inspect && exit == state
        }),
{
}

} // verus!
