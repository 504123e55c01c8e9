//! A recovery from its first request to its last: which part of it comes next,
//! given how the part before went.
//!
//! Whoever drives it writes and reads, and reports what came of that.  Only the
//! requests that fetch the registry must go out: an object whose requests
//! cannot be sent is passed over, and nothing depends on what is sent on top.
use crate::clipboard;
use crate::clipboard::ReclaimState;
use crate::recovery;
use crate::recovery::{
    adopt_registry, begin_recovery, fetch_globals, finish_recovery, replay_sent, replay_start,
    FetchModel, FollowUp, FollowUpModel, Next, NextModel, Outgoing, OutgoingModel,
    RegistryFetch,
};
use crate::recovery_laws;
use crate::session::{Inbound, Session, SessionModel};
use vstd::prelude::*;

verus! {

/// Where a recovery stands.
#[derive(Debug, Clone, Copy, PartialEq, Eq, Structural)]
pub enum RunPhase {
    /// Nothing was sent yet.
    Idle,
    /// The registry is being asked for.
    Opening,
    /// The registry's events are awaited.
    Fetching,
    /// An object's requests are being sent.
    Staging,
    /// What restores the state of a recreated object is being sent.
    Following,
    /// What the dead compositor owed the client is being sent.
    Settling,
    /// Nothing left to do.
    Over,
}

/// What came of the last part.
#[derive(Debug, Clone, Copy, PartialEq, Eq, Structural)]
pub enum RunEvent {
    /// The fresh connection is there.
    Begin,
    /// The messages were written; `all` says whether each of them was.
    Written { all: bool },
    /// More bytes arrived from the host.
    Arrived,
    /// The host is gone.
    Closed,
}

/// The next part.
pub enum Work<F> {
    /// Write these to the host, in order, up to the first that fails.
    Open(Vec<Vec<u8>>),
    /// Read from the host.
    Read,
    /// Write these to the host, in order, up to the first that fails.
    Stage(Vec<Outgoing<F>>),
    /// Write these in order, each whether or not the one before failed.
    Follow(Vec<FollowUp<F>>),
    /// Write these to the client, each whether or not the one before failed.
    Settle(Vec<Vec<u8>>),
    /// The recovery is complete.
    Done,
    /// The connection is of no use: there has to be another.
    Failed,
}

/// What a [`Work`] says.
#[verifier::ext_equal]
pub enum WorkModel<F> {
    Open(Seq<Seq<u8>>),
    Read,
    Stage(Seq<OutgoingModel<F>>),
    Follow(Seq<FollowUpModel<F>>),
    Settle(Seq<Seq<u8>>),
    Done,
    Failed,
}

impl<F> View for Work<F> {
    type V = WorkModel<F>;

    open spec fn view(&self) -> WorkModel<F> {
        match *self {
            Work::Open(messages) => WorkModel::Open(clipboard::message_list(messages@)),
            Work::Read => WorkModel::Read,
            Work::Stage(requests) => WorkModel::Stage(recovery::outgoing_list(requests@)),
            Work::Follow(follow_ups) => WorkModel::Follow(recovery::follow_list(follow_ups@)),
            Work::Settle(messages) => WorkModel::Settle(clipboard::message_list(messages@)),
            Work::Done => WorkModel::Done,
            Work::Failed => WorkModel::Failed,
        }
    }
}

/// A recovery on its way.
pub struct RecoveryRun {
    phase: RunPhase,
    fetch: Option<RegistryFetch>,
    index: usize,
    next: Next,
    serial: u32,
}

/// What a [`RecoveryRun`] holds.
#[verifier::ext_equal]
pub struct RunModel {
    pub phase: RunPhase,
    /// The registry, once it was asked for.
    pub fetch: Option<FetchModel>,
    /// The recipe that is being replayed.
    pub index: nat,
    /// How to go on once its requests were sent.
    pub next: NextModel,
    /// The next serial to invent.
    pub serial: u32,
}

impl View for RecoveryRun {
    type V = RunModel;

    closed spec fn view(&self) -> RunModel {
        RunModel {
            phase: self.phase,
            fetch: match self.fetch {
                Some(fetch) => Some(fetch@),
                None => None,
            },
            index: self.index as nat,
            next: self.next@,
            serial: self.serial,
        }
    }
}

/// The run, the connection and the bytes left over after a part, and the next
/// part.
#[verifier::ext_equal]
pub struct Advanced<F> {
    pub run: RunModel,
    pub session: SessionModel<F>,
    pub read_buf: Seq<u8>,
    pub work: WorkModel<F>,
}

/// The connection after all recipes were replayed.
pub open spec fn finished<F>(s: SessionModel<F>, fetch: FetchModel) -> SessionModel<F> {
    recovery::finished(s, fetch)
}

/// Whether `after` is how a run goes on with the recipe at `index`, or ends if
/// there is none.  The order in which debts are settled is left open.
pub open spec fn replays<F>(
    run: RunModel,
    s: SessionModel<F>,
    read_buf: Seq<u8>,
    index: nat,
    after: Advanced<F>,
) -> bool {
    &&& after.read_buf == read_buf
    &&& if index < s.graph.len() {
        if s.has_room() {
            let st = recovery::staged(s.objects, run.fetch->0, s.graph[index as int].1);
            &&& after.run == (RunModel {
                phase: RunPhase::Staging,
                index,
                next: st.stage.next,
                ..run
            })
            &&& after.session == (SessionModel { objects: st.objects, ..s })
            &&& after.work == WorkModel::<F>::Stage(st.stage.requests)
        } else {
            &&& after.run == (RunModel { phase: RunPhase::Over, ..run })
            &&& after.session == s
            &&& after.work is Failed
        }
    } else {
        &&& after.run == (RunModel { phase: RunPhase::Settling, ..run })
        &&& after.session == finished(s, run.fetch->0)
        &&& after.work matches WorkModel::Settle(messages) && recovery::settles(
            s.objects,
            s.flow.in_flight,
            s.frames,
            messages,
        )
    }
}

/// Whether `after` is how a run goes on when the requests of the recipe at hand
/// were all sent.
pub open spec fn proceeds<F>(
    run: RunModel,
    s: SessionModel<F>,
    read_buf: Seq<u8>,
    after: Advanced<F>,
) -> bool {
    let (guest, recipe) = s.graph[run.index as int];
    match run.next {
        NextModel::Abandon => replays(run, s, read_buf, run.index + 1, after),
        NextModel::Adopt { host_id, interface } => {
            let a = recovery::adopted(s, guest, recipe, host_id, interface, run.serial);
            after == (Advanced {
                run: RunModel {
                    phase: RunPhase::Following,
                    next: NextModel::Abandon,
                    serial: a.serial,
                    ..run
                },
                session: a.session,
                read_buf,
                work: WorkModel::Follow(a.follow_ups),
            })
        },
        NextModel::CreateImmed { params_host_id, params_interface } => {
            let st = recovery::staged_immed(s.objects, params_host_id, params_interface, recipe);
            after == (Advanced {
                run: RunModel { next: st.stage.next, ..run },
                session: SessionModel { objects: st.objects, ..s },
                read_buf,
                work: WorkModel::Stage(st.stage.requests),
            })
        },
    }
}

/// Whether `after` is how a run goes on upon an event.
pub open spec fn advances<F>(
    run: RunModel,
    s: SessionModel<F>,
    read_buf: Seq<u8>,
    event: RunEvent,
    after: Advanced<F>,
) -> bool {
    let failed = Advanced {
        run: RunModel { phase: RunPhase::Over, ..run },
        session: s,
        read_buf,
        work: WorkModel::Failed,
    };
    match (run.phase, event) {
        (RunPhase::Idle, RunEvent::Begin) => if !s.has_room() {
            after == failed
        } else {
            let kept = SessionModel {
                reclaim: ReclaimState { active_source_host_id: None, ..s.reclaim },
                ..s
            };
            match recovery::recovery_start(s) {
                None => after == (Advanced {
                    run: RunModel { phase: RunPhase::Over, ..run },
                    session: kept,
                    read_buf,
                    work: WorkModel::Done,
                }),
                Some(fetch) => after == (Advanced {
                    run: RunModel { phase: RunPhase::Opening, fetch: Some(fetch), ..run },
                    session: SessionModel { objects: s.objects.allocate_host_ids(2), ..kept },
                    read_buf,
                    work: WorkModel::Open(recovery::opening(fetch)),
                }),
            }
        },
        (RunPhase::Opening, RunEvent::Written { all: true }) => after == (Advanced {
            run: RunModel { phase: RunPhase::Fetching, ..run },
            session: s,
            read_buf,
            work: WorkModel::Read,
        }),
        (RunPhase::Fetching, RunEvent::Arrived) => {
            let (fetch, rest, complete) = recovery::fetched(run.fetch->0, read_buf);
            let fetching = RunModel { fetch: Some(fetch), ..run };
            if complete {
                let known = SessionModel {
                    objects: s.objects.map(
                        fetch.registry_guest_id,
                        fetch.registry_host_id,
                        fetch.registry_interface,
                    ),
                    ..s
                };
                replays(fetching, known, rest, 0, after)
            } else {
                after == (Advanced {
                    run: fetching,
                    session: s,
                    read_buf: rest,
                    work: WorkModel::Read,
                })
            }
        },
        (RunPhase::Staging, RunEvent::Written { all }) => if run.index >= s.graph.len()
            || !s.has_room() {
            after == failed
        } else if all {
            proceeds(run, s, read_buf, after)
        } else {
            replays(run, s, read_buf, run.index + 1, after)
        },
        (RunPhase::Following, RunEvent::Written { .. }) => if run.index >= s.graph.len() {
            after == failed
        } else {
            replays(run, s, read_buf, run.index + 1, after)
        },
        (RunPhase::Settling, RunEvent::Written { .. }) => after == (Advanced {
            work: WorkModel::Done,
            ..failed
        }),
        _ => after == failed,
    }
}

impl RunModel {
    /// The registry is known from the moment it was asked for until the end.
    pub open spec fn wf(self) -> bool {
        self.phase is Idle || self.phase is Over || self.fetch is Some
    }
}

impl RecoveryRun {
    /// A recovery that has not begun.
    pub fn new() -> (r: RecoveryRun)
        ensures
            r@ == (RunModel {
                phase: RunPhase::Idle,
                fetch: None,
                index: 0,
                next: NextModel::Abandon,
                serial: 1,
            }),
            r@.wf(),
    {
        RecoveryRun {
            phase: RunPhase::Idle,
            fetch: None,
            index: 0,
            next: Next::Abandon,
            serial: 1,
        }
    }

    /// Goes on with the recipe at `index`; see [`replays`].
    fn replay<F>(&mut self, session: &mut Session<F>, index: usize, Ghost(buf): Ghost<Seq<u8>>) -> (r:
        Work<F>)
        requires
            old(session)@.objects.wf(),
            old(self)@.fetch is Some,
        ensures
            replays(
                old(self)@,
                old(session)@,
                buf,
                index as nat,
                (Advanced { run: final(self)@, session: final(session)@, read_buf: buf, work: r@ }),
            ),
            final(session)@.objects.wf(),
            final(self)@.wf(),
    {
        if index < session.graph.len() {
            if !session.has_room() {
                self.phase = RunPhase::Over;
                return Work::Failed;
            }
            let stage = replay_start(session, self.fetch.as_ref().unwrap(), index);
            self.phase = RunPhase::Staging;
            self.index = index;
            self.next = stage.next;
            Work::Stage(stage.requests)
        } else {
            let messages = finish_recovery(session, self.fetch.as_ref().unwrap());
            self.phase = RunPhase::Settling;
            Work::Settle(messages)
        }
    }

    /// Goes on when the requests at hand were all sent; see [`proceeds`].
    fn proceed<F>(&mut self, session: &mut Session<F>, Ghost(buf): Ghost<Seq<u8>>) -> (r: Work<F>)
        requires
            old(session)@.objects.wf(),
            old(session)@.has_room(),
            old(self)@.fetch is Some,
            old(self)@.phase is Staging,
            old(self)@.index < old(session)@.graph.len(),
        ensures
            proceeds(
                old(self)@,
                old(session)@,
                buf,
                (Advanced { run: final(self)@, session: final(session)@, read_buf: buf, work: r@ }),
            ),
            final(session)@.objects.wf(),
            final(self)@.wf(),
    {
        let index: usize = self.index;
        let count: usize = session.graph.len();
        assert(index < count);
        if let Next::Abandon = self.next {
            return self.replay(session, index + 1, Ghost(buf));
        }
        let mut next = Next::Abandon;
        std::mem::swap(&mut next, &mut self.next);
        let sent = replay_sent(session, index, next, &mut self.serial);
        match sent.stage {
            Some(stage) => {
                self.next = stage.next;
                Work::Stage(stage.requests)
            },
            None => {
                self.phase = RunPhase::Following;
                Work::Follow(sent.follow_ups)
            },
        }
    }

    /// Goes on upon an event; see [`advances`].  An event that does not belong
    /// to the part at hand ends the recovery.
    pub fn advance<F>(
        &mut self,
        session: &mut Session<F>,
        inbound: &mut Inbound<F>,
        event: RunEvent,
    ) -> (r: Work<F>)
        requires
            old(session)@.objects.wf(),
            old(self)@.wf(),
        ensures
            advances(
                old(self)@,
                old(session)@,
                old(inbound).read_buf@,
                event,
                (Advanced {
                    run: final(self)@,
                    session: final(session)@,
                    read_buf: final(inbound).read_buf@,
                    work: r@,
                }),
            ),
            final(inbound).read_fds@ == old(inbound).read_fds@,
            final(session)@.objects.wf(),
            final(self)@.wf(),
    {
        match (self.phase, event) {
            (RunPhase::Idle, RunEvent::Begin) => {
                if !session.has_room() {
                    self.phase = RunPhase::Over;
                    return Work::Failed;
                }
                match begin_recovery(session) {
                    None => {
                        self.phase = RunPhase::Over;
                        Work::Done
                    },
                    Some(start) => {
                        self.phase = RunPhase::Opening;
                        self.fetch = Some(start.fetch);
                        Work::Open(start.requests)
                    },
                }
            },
            (RunPhase::Opening, RunEvent::Written { all: true }) => {
                self.phase = RunPhase::Fetching;
                Work::Read
            },
            (RunPhase::Fetching, RunEvent::Arrived) => {
                let mut fetch = self.fetch.take().unwrap();
                let complete = fetch_globals(&mut fetch, inbound);
                if complete {
                    adopt_registry(session, &fetch);
                }
                self.fetch = Some(fetch);
                if complete {
                    self.replay(session, 0, Ghost(inbound.read_buf@))
                } else {
                    Work::Read
                }
            },
            (RunPhase::Staging, RunEvent::Written { all }) => {
                if self.index >= session.graph.len() || !session.has_room() {
                    self.phase = RunPhase::Over;
                    Work::Failed
                } else if all {
                    self.proceed(session, Ghost(inbound.read_buf@))
                } else {
                    self.replay(session, self.index + 1, Ghost(inbound.read_buf@))
                }
            },
            (RunPhase::Following, RunEvent::Written { .. }) => {
                if self.index >= session.graph.len() {
                    self.phase = RunPhase::Over;
                    Work::Failed
                } else {
                    self.replay(session, self.index + 1, Ghost(inbound.read_buf@))
                }
            },
            (RunPhase::Settling, RunEvent::Written { .. }) => {
                self.phase = RunPhase::Over;
                Work::Done
            },
            _ => {
                self.phase = RunPhase::Over;
                Work::Failed
            },
        }
    }
}

/// Whether an event belongs to the part at hand.
pub open spec fn fits(phase: RunPhase, event: RunEvent) -> bool {
    match phase {
        RunPhase::Idle => event is Begin,
        RunPhase::Fetching => event is Arrived || event is Closed,
        RunPhase::Over => false,
        _ => event is Written,
    }
}

/// A recovery fails only with its connection: where the registry cannot be
/// asked for, or the host goes away before it answered.  Whatever fails later
/// on costs no more than the object it was for.
pub proof fn lemma_only_the_registry_is_needed<F>(
    run: RunModel,
    s: SessionModel<F>,
    read_buf: Seq<u8>,
    event: RunEvent,
    after: Advanced<F>,
)
    requires
        fits(run.phase, event),
        s.has_room(),
        run.phase is Staging || run.phase is Following ==> run.index < s.graph.len(),
        advances(run, s, read_buf, event, after),
    ensures
        after.work is Failed <==> (run.phase is Opening && event == (RunEvent::Written {
            all: false,
        })) || (run.phase is Fetching && event is Closed),
{
}

/// An object that needs two stages comes to its second when all of the first
/// was sent.
pub proof fn lemma_second_stage_is_reached<F>(
    before: SessionModel<F>,
    run: RunModel,
    s: SessionModel<F>,
    read_buf: Seq<u8>,
    after: Advanced<F>,
)
    requires
        run.phase is Staging,
        run.fetch is Some,
        run.index < s.graph.len(),
        s.has_room(),
        ({
            let first = recovery::staged(
                before.objects,
                run.fetch->0,
                before.graph[run.index as int].1,
            );
            s == (SessionModel { objects: first.objects, ..before }) && run.next
                == first.stage.next && run.next is CreateImmed
        }),
        advances(run, s, read_buf, RunEvent::Written { all: true }, after),
    ensures
        ({
            let last = recovery_laws::last_stage(
                before.objects,
                run.fetch->0,
                before.graph[run.index as int].1,
            );
            &&& after.session == (SessionModel { objects: last.objects, ..before })
            &&& after.run == (RunModel { next: last.stage.next, ..run })
            &&& after.work == WorkModel::<F>::Stage(last.stage.requests)
        }),
{
}

/// As long as everything can be sent, a run replays the recipes one after the
/// other: once the last stage of a recipe was sent, the connection is what
/// replaying it comes to, and the run goes on from there with the next.
pub proof fn lemma_run_replays<F>(
    start: SessionModel<F>,
    first_serial: u32,
    run: RunModel,
    s: SessionModel<F>,
    read_buf: Seq<u8>,
    after: Advanced<F>,
)
    requires
        run.phase is Staging,
        run.fetch is Some,
        run.index < start.graph.len(),
        s.has_room(),
        ({
            let (before, serial) = recovery_laws::replayed(
                start,
                first_serial,
                run.fetch->0,
                run.index as int,
            );
            let last = recovery_laws::last_stage(
                before.objects,
                run.fetch->0,
                start.graph[run.index as int].1,
            );
            &&& before.graph == start.graph
            &&& s == (SessionModel { objects: last.objects, ..before })
            &&& run.next == last.stage.next
            &&& !(run.next is CreateImmed)
            &&& run.serial == serial
        }),
        advances(run, s, read_buf, RunEvent::Written { all: true }, after),
    ensures
        ({
            let (then_session, then_serial) = recovery_laws::replayed(
                start,
                first_serial,
                run.fetch->0,
                run.index as int + 1,
            );
            if run.next is Adopt {
                &&& after.session == then_session
                &&& after.run.serial == then_serial
                &&& after.run.phase is Following
                &&& after.work is Follow
            } else {
                &&& s == then_session
                &&& run.serial == then_serial
                &&& replays(run, then_session, read_buf, run.index + 1, after)
            }
        }),
{
}

} // verus!
