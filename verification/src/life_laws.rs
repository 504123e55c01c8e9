//! What a connection, a recovery and a handoff come to, step by step.
use crate::connection;
use crate::connection::{ConnectionAction, ConnectionEvent, Phase};
use crate::handoff;
use crate::handoff::{
    HandoffFailure, TraceAction, TraceEvent, TraceState, WatchAction, WatchEvent, WatchState,
};
use crate::recovery;
use crate::recovery_run;
use crate::recovery_run::{Advanced, RunEvent, RunModel, WorkModel};
use crate::session::SessionModel;
use crate::shadow_table;
use crate::text;
use vstd::prelude::*;

verus! {

/// What both sides send is relayed while both are there; what the client sends
/// while there is no host is still looked at.  The host's leaving freezes the
/// connection, and nothing more.
pub proof fn lemma_traffic_by_phase(phase: Phase)
    ensures
        connection::reaction(phase, ConnectionEvent::ClientData).1 == match phase {
            Phase::Relaying => ConnectionAction::RelayFromClient { frozen: false },
            Phase::Frozen => ConnectionAction::RelayFromClient { frozen: true },
            Phase::Recovering => ConnectionAction::Wait,
        },
        connection::reaction(phase, ConnectionEvent::ClientData).0 == phase,
        connection::reaction(phase, ConnectionEvent::HostData).1 is RelayFromHost <==> phase
            is Relaying,
        connection::reaction(phase, ConnectionEvent::HostData).0 == phase,
        phase is Relaying ==> connection::reaction(phase, ConnectionEvent::HostGone) == (
            Phase::Frozen,
            ConnectionAction::Wait,
        ),
{
}

/// A frozen connection comes back in two steps, through a recovery, however
/// often the recovery fails before; a quarter of a second lies between tries.
pub proof fn lemma_way_back()
    ensures
        ({
            let (recovering, first) = connection::reaction(
                Phase::Frozen,
                ConnectionEvent::Reconnected,
            );
            let (relaying, second) = connection::reaction(recovering, ConnectionEvent::Recovered);
            let (frozen, again) = connection::reaction(
                recovering,
                ConnectionEvent::RecoveryFailed,
            );
            &&& first is Recover
            &&& relaying is Relaying
            &&& second is Resume
            &&& frozen is Frozen
            &&& again is RetryLater
        }),
        forall|phase: Phase, event: ConnectionEvent|
            (#[trigger] connection::reaction(phase, event)).1 is Recover ==> phase is Frozen && event
                is Reconnected,
        connection::RETRY_MILLIS * 4 == 1000,
        forall|phase: Phase, event: ConnectionEvent|
            (#[trigger] connection::reaction(phase, event)).1 is RetryLater ==> phase is Recovering
                && event is RecoveryFailed,
{
}

/// The watching helper stops the process for the awaited socket alone, renames
/// it only while the process is stopped, and reports success exactly if the
/// renaming worked.  Time comes before the process's own end among the reasons
/// to give up.
pub proof fn lemma_watch_decides(state: WatchState, event: WatchEvent)
    ensures
        ({
            let (next, action) = handoff::watch_reaction(state, event);
            &&& action is Stop <==> state is Watching && event == (WatchEvent::Appeared {
                wanted: true,
            })
            &&& action is Stop ==> next is Stopping
            &&& action is Rename <==> state is Stopping && event == (WatchEvent::Stopped {
                ok: true,
            })
            &&& action is Resume <==> state is Renaming && event is Renamed
            &&& action is Resume ==> next == (WatchState::Resuming { renamed: event->Renamed_ok })
            &&& action is Finish <==> state == (WatchState::Resuming { renamed: true }) && event
                is Resumed
            &&& action == WatchAction::Fail(HandoffFailure::CannotRename) <==> state == (
            WatchState::Resuming { renamed: false }) && event is Resumed
            &&& action == WatchAction::Fail(HandoffFailure::CannotStop) <==> state is Stopping
                && event == (WatchEvent::Stopped { ok: false })
            &&& action == WatchAction::Fail(HandoffFailure::TimedOut) <==> state is Watching
                && event is Round && event->timed_out
            &&& action == WatchAction::Fail(HandoffFailure::TargetGone) <==> state is Watching
                && event is Round && !event->timed_out && !event->alive
            &&& action is Poll <==> state is Watching && event == (WatchEvent::Round {
                timed_out: false,
                alive: true,
            })
            &&& action is Fail || action is Finish ==> next is Done
        }),
{
}

/// A traced process gets the signals that are meant for it, and none of those
/// that tracing itself causes.
pub proof fn lemma_signals_reach_the_process(state: TraceState, bind: u64, signal: i32)
    ensures
        ({
            let (next, action) = handoff::trace_reaction(
                state,
                bind,
                TraceEvent::SignalStop { signal },
            );
            &&& next == state
            &&& action == (TraceAction::Resume {
                signal: if signal == 5 || signal == 19 {
                    None
                } else {
                    Some(signal)
                },
            })
        }),
{
}

/// A register holds success exactly if it is no negative number.
pub proof fn lemma_success_is_not_negative(result: u64)
    ensures
        handoff::is_success(result) <==> (result as i64) >= 0,
{
    assert((result < 0x8000_0000_0000_0000u64) <==> ((result as i64) >= 0)) by (bit_vector);
}

/// The tracing helper reports success exactly if the socket was renamed and the
/// process let go, and otherwise says which of the two failed first; time, the
/// process's end and the unexpected each have their own reason.
pub proof fn lemma_trace_decides(state: TraceState, bind: u64, event: TraceEvent)
    ensures
        ({
            let (next, action) = handoff::trace_reaction(state, bind, event);
            &&& action is Finish <==> event == (TraceEvent::HandedOver {
                renamed: true,
                detached: true,
            })
            &&& action is Fail && action->failure is CannotRename <==> event is HandedOver
                && !event->renamed
            &&& action is Fail && action->failure is CannotDetach <==> event is HandedOver
                && event->renamed && !event->detached
            &&& action is Fail && action->failure is TimedOut <==> event is Deadline
            &&& action is Fail && action->failure is TargetGone <==> event is Gone
            &&& action is Fail && action->failure is CannotWait <==> event is Unexpected
            &&& action is Pause <==> event is StillRunning
            &&& action is Inspect <==> event is SyscallStop && state.in_syscall
            &&& event is EventStop ==> action == (TraceAction::Resume { signal: None }) && next
                == state
            &&& event is Gone ==> !action->detach
        }),
{
}

/// Whether a run has turned to the recipe at `index`: its first requests are to
/// be sent, or, behind the last recipe, what is owed.
pub open spec fn turned_to<F>(
    run: RunModel,
    s: SessionModel<F>,
    index: nat,
    after: Advanced<F>,
) -> bool {
    if index < s.graph.len() {
        let st = recovery::staged(s.objects, run.fetch->0, s.graph[index as int].1);
        &&& after.run.phase is Staging
        &&& after.run.index == index
        &&& after.run.next == st.stage.next
        &&& after.work == WorkModel::<F>::Stage(st.stage.requests)
        &&& after.session == (SessionModel { objects: st.objects, ..s })
    } else {
        &&& after.run.phase is Settling
        &&& after.work is Settle
        &&& recovery::settles(s.objects, s.flow.in_flight, s.frames, after.work->Settle_0)
        &&& after.session.reclaim.pending
        &&& after.session.objects == s.objects
        &&& after.session.graph == s.graph
    }
}

/// A run takes the recipes one after the other and leaves none out: it starts
/// with the first once the registry was read, under the registry's new number;
/// it turns to the next when an object exists again and was told what it has to
/// be told, when an object cannot be asked for, and when a request could not be
/// sent.
pub proof fn lemma_run_leaves_no_recipe_out<F>(
    run: RunModel,
    s: SessionModel<F>,
    read_buf: Seq<u8>,
    event: RunEvent,
    after: Advanced<F>,
)
    requires
        s.has_room(),
        run.fetch is Some,
        recovery_run::advances(run, s, read_buf, event, after),
    ensures
        run.phase is Fetching && event is Arrived ==> ({
            let (fetch, rest, complete) = recovery::fetched(run.fetch->0, read_buf);
            &&& after.read_buf == rest
            &&& after.run.fetch == Some(fetch)
            &&& !complete ==> after.work is Read && after.session == s && after.run.phase is Fetching
            &&& complete ==> turned_to(
                (RunModel { fetch: Some(fetch), ..run }),
                recovery::with_registry(s, fetch),
                0,
                after,
            )
        }),
        run.phase is Staging && run.index < s.graph.len() && event == (RunEvent::Written {
            all: false,
        }) ==> turned_to(run, s, run.index + 1, after),
        run.phase is Staging && run.index < s.graph.len() && run.next is Abandon && event == (
        RunEvent::Written { all: true }) ==> turned_to(run, s, run.index + 1, after),
        run.phase is Following && run.index < s.graph.len() && event is Written ==> turned_to(
            run,
            s,
            run.index + 1,
            after,
        ),
        run.phase is Settling && event is Written ==> after.work is Done && after.session == s,
{
}

/// A run starts by asking for the registry and then waits for the answer; where
/// there is nothing to recover it is done at once.
pub proof fn lemma_run_starts_with_the_registry<F>(
    run: RunModel,
    s: SessionModel<F>,
    read_buf: Seq<u8>,
    after: Advanced<F>,
)
    requires
        s.has_room(),
    ensures
        run.phase is Idle && recovery_run::advances(run, s, read_buf, RunEvent::Begin, after)
            ==> match recovery::recovery_start(s) {
            None => after.work is Done && after.run.phase is Over,
            Some(fetch) => {
                &&& after.work == WorkModel::<F>::Open(recovery::opening(fetch))
                &&& after.run.phase is Opening
                &&& after.run.fetch == Some(fetch)
                &&& after.session == recovery::begun(s)
            },
        },
        run.phase is Opening && recovery_run::advances(
            run,
            s,
            read_buf,
            RunEvent::Written { all: true },
            after,
        ) ==> after.work is Read && after.run.phase is Fetching && after.session == s,
{
}

/// Whether the line at `at` names a state with a `Z` in it.
pub open spec fn says_zombie(s: Seq<char>, at: int) -> bool {
    &&& text::starts_line(s, at)
    &&& at + 6 <= s.len()
    &&& s.subrange(at, at + 6) == "State:"@
    &&& exists|i: int|
        at <= i < s.len() && #[trigger] s[i] == 'Z' && forall|j: int|
            at <= j < i ==> #[trigger] s[j] != '\n'
}

/// A process waits to be reaped exactly if one of the lines of its status, and
/// not just any text in it, names such a state.
pub proof fn lemma_state_line_decides(s: Seq<char>, from: int)
    requires
        text::starts_line(s, from),
    ensures
        handoff::zombie_from(s, from) <==> exists|at: int| from <= at && #[trigger] says_zombie(s, at),
    decreases s.len() - from,
{
    reveal_strlit("State:");
    assert("State:"@.len() == 6);
    assert("State:"@[0] == 'S' && "State:"@[1] == 't' && "State:"@[2] == 'a' && "State:"@[3] == 't'
        && "State:"@[4] == 'e' && "State:"@[5] == ':');
    if from < s.len() {
        let to = text::line_end(s, from);
        text::lemma_line_reaches(s, from);
        if to < s.len() {
            assert(text::starts_line(s, to + 1));
            lemma_state_line_decides(s, to + 1);
        }
        if handoff::is_zombie_line(s, from, to) {
            let i = choose|i: int| from <= i < to && #[trigger] s[i] == 'Z';
            assert(s[i] == 'Z');
            assert(says_zombie(s, from));
        }
        if exists|at: int| from <= at && #[trigger] says_zombie(s, at) {
            let at = choose|at: int| from <= at && #[trigger] says_zombie(s, at);
            if at == from {
                let i = choose|i: int|
                    at <= i < s.len() && #[trigger] s[i] == 'Z' && forall|j: int|
                        at <= j < i ==> #[trigger] s[j] != '\n';
                assert(i < to);
                if to < from + 6 {
                    assert(s[to] == s.subrange(from, from + 6)[to - from]);
                }
                assert(handoff::is_zombie_line(s, from, to));
            } else {
                assert(at > to);
            }
        }
    }
}

/// A connection on which nothing has happened knows the display, which is the
/// first object on both sides, and holds nothing else: nothing to recreate, to
/// release, to answer or to swallow, and no clipboard to offer.
pub proof fn lemma_fresh_connection_holds_nothing<F>(id: u32)
    ensures
        ({
            let s = SessionModel::<F>::fresh();
            &&& s.objects.host_id(1) == Some(1u32)
            &&& s.objects.guest_id(1) == Some(1u32)
            &&& id > 1 ==> s.objects.host_id(id) is None && s.objects.guest_id(id) is None
                && s.objects.interface(id) is None
            &&& s.graph.len() == 0
            &&& !s.grabs.pointer(id).is_active()
            &&& !s.grabs.keyboards.contains_key(id)
            &&& !s.acks.contains_key(id)
            &&& !s.flow.in_flight.contains(id)
            &&& !s.flow.attached.contains_key(id)
            &&& !s.frames.contains(id)
            &&& !s.planes.contains_key(id)
            &&& !s.reclaim.pending
            &&& s.reclaim.active_source_host_id is None
            &&& s.reclaim.data_device_manager_global is None
            &&& s.has_room()
        }),
{
    let s = SessionModel::<F>::fresh();
    assert(s.objects.pairs.contains_key(1) && s.objects.pairs[1] == 1);
    assert(s.objects.wf());
    shadow_table::lemma_translation_is_mutual(s.objects, 1, 1);
    if id > 1 {
        assert forall|g: u32| !s.objects.stands_for(g, id) by {}
    }
}

} // verus!
