//! The state of one proxied connection, and what arrives on it.
use crate::buffer_flow::{BufferFlowTracker, FlowModel};
use crate::clipboard::ReclaimState;
use crate::grab_state::{GrabModel, GrabTracker};
use crate::pending_frames::PendingFrameTracker;
use crate::recreation::{DmabufPlane, Recipe, RecreationGraph};
use crate::shadow_table::{ShadowTable, TableModel};
use crate::wire;
use crate::wire::take_message;
use std::collections::{HashMap, VecDeque};
use std::sync::Arc;
use vstd::prelude::*;

verus! {

broadcast use vstd::std_specs::hash::group_hash_axioms;

/// Everything the proxy keeps about one client's connection.  `F` is a handle
/// to a file descriptor.
pub struct Session<F> {
    pub objects: ShadowTable,
    pub graph: RecreationGraph<F>,
    pub grabs: GrabTracker,
    /// The invented configure serial each `xdg_surface` was sent and has not
    /// acknowledged yet.
    pub pending_configure_acks: HashMap<u32, u32>,
    pub buffer_flow: BufferFlowTracker,
    pub pending_frames: PendingFrameTracker,
    /// For each dmabuf params object: the dmabuf global it came from and the
    /// planes added so far.
    pub pending_dmabuf_planes: HashMap<u32, (u32, Vec<DmabufPlane<F>>)>,
    pub reclaim: ReclaimState,
}

/// What a [`Session`] holds.
#[verifier::ext_equal]
pub struct SessionModel<F> {
    pub objects: TableModel,
    pub graph: Seq<(u32, Recipe<F>)>,
    pub grabs: GrabModel,
    pub acks: Map<u32, u32>,
    pub flow: FlowModel,
    pub frames: Set<u32>,
    pub planes: Map<u32, (u32, Seq<DmabufPlane<F>>)>,
    pub reclaim: ReclaimState,
}

/// What the pending dmabuf planes are.
pub open spec fn plane_models<F>(planes: Map<u32, (u32, Vec<DmabufPlane<F>>)>) -> Map<
    u32,
    (u32, Seq<DmabufPlane<F>>),
> {
    planes.map_values(|p: (u32, Vec<DmabufPlane<F>>)| (p.0, p.1@))
}

impl<F> View for Session<F> {
    type V = SessionModel<F>;

    open spec fn view(&self) -> SessionModel<F> {
        SessionModel {
            objects: self.objects@,
            graph: self.graph@,
            grabs: self.grabs@,
            acks: self.pending_configure_acks@,
            flow: self.buffer_flow@,
            frames: self.pending_frames@,
            planes: plane_models(self.pending_dmabuf_planes@),
            reclaim: self.reclaim,
        }
    }
}

impl<F> SessionModel<F> {
    /// A connection on which nothing has happened yet.
    pub open spec fn fresh() -> SessionModel<F> {
        SessionModel {
            objects: TableModel::fresh(),
            graph: Seq::empty(),
            grabs: GrabModel::empty(),
            acks: Map::empty(),
            flow: FlowModel::empty(),
            frames: Set::empty(),
            planes: Map::empty(),
            reclaim: ReclaimState::idle(),
        }
    }

    /// Whether there are object ids left for whatever one message may create.
    pub open spec fn has_room(self) -> bool {
        self.objects.next_host_id <= u32::MAX - 3 && self.objects.next_guest_server_id < u32::MAX
    }
}

impl<F> Session<F> {
    /// A connection on which nothing has happened yet.
    pub fn new() -> (r: Session<F>)
        ensures
            r@ == SessionModel::<F>::fresh(),
            r@.objects.wf(),
    {
        let session = Session {
            objects: ShadowTable::new(),
            graph: RecreationGraph::new(),
            grabs: GrabTracker::new(),
            pending_configure_acks: HashMap::new(),
            buffer_flow: BufferFlowTracker::new(),
            pending_frames: PendingFrameTracker::new(),
            pending_dmabuf_planes: HashMap::new(),
            reclaim: ReclaimState::default(),
        };
        assert(session@ =~= SessionModel::fresh());
        session
    }

    /// Whether there are object ids left for whatever one message may create.
    pub fn has_room(&self) -> (r: bool)
        ensures
            r == self@.has_room(),
    {
        let (host_id, guest_server_id) = self.objects.next_ids();
        host_id <= u32::MAX - 3 && guest_server_id < u32::MAX
    }
}

/// Bytes and descriptors that have arrived and are not consumed yet.
pub struct Inbound<F> {
    pub read_buf: Vec<u8>,
    pub read_fds: VecDeque<Arc<F>>,
}

impl<F> Inbound<F> {
    /// Nothing arrived yet.
    pub fn new() -> (r: Inbound<F>)
        ensures
            r.read_buf@ == Seq::<u8>::empty(),
            r.read_fds@ == Seq::<Arc<F>>::empty(),
    {
        Inbound { read_buf: Vec::new(), read_fds: VecDeque::new() }
    }

    /// Takes in what one read brought.
    pub fn extend(&mut self, bytes: &[u8], fds: Vec<F>)
        ensures
            final(self).read_buf@ == old(self).read_buf@ + bytes@,
            final(self).read_fds@ == old(self).read_fds@ + fds@.map_values(|fd: F| Arc::new(fd)),
    {
        self.read_buf.extend_from_slice(bytes);
        assert(self.read_buf@ =~= old(self).read_buf@ + bytes@);
        let ghost given = fds@;
        let ghost before = self.read_fds@;
        let ghost shared = given.map_values(|fd: F| Arc::new(fd));
        assert(before =~= before + shared.take(0));
        for fd in it: fds.into_iter()
            invariant
                it.seq() == given,
                shared == given.map_values(|fd: F| Arc::new(fd)),
                self.read_buf@ == old(self).read_buf@ + bytes@,
                self.read_fds@ == before + shared.take(it.index()),
        {
            self.read_fds.push_back(Arc::new(fd));
            assert(before + shared.take(it.index() + 1) =~= (before + shared.take(it.index())).push(
                shared[it.index()],
            ));
        }
        assert(shared.take(given.len() as int) =~= shared);
    }

    /// Takes the first complete message out of the buffer, if one is there.
    pub fn take(&mut self) -> (r: Option<Vec<u8>>)
        ensures
            match r {
                Some(msg) => wire::front_message_len(old(self).read_buf@) == Some(
                    msg@.len() as int,
                ) && msg@ == old(self).read_buf@.take(msg@.len() as int) && final(self).read_buf@
                    == old(self).read_buf@.skip(msg@.len() as int) && 8 <= msg@.len() <= u16::MAX,
                None => wire::front_message_len(old(self).read_buf@) is None
                    && final(self).read_buf@ == old(self).read_buf@,
            },
            final(self).read_fds@ == old(self).read_fds@,
    {
        let consumed: usize = match take_message(self.read_buf.as_slice()) {
            Some((_, consumed)) => consumed,
            None => return None,
        };
        let mut msg = self.read_buf.split_off(consumed);
        std::mem::swap(&mut msg, &mut self.read_buf);
        assert(msg@ =~= old(self).read_buf@.take(consumed as int));
        assert(self.read_buf@ =~= old(self).read_buf@.skip(consumed as int));
        Some(msg)
    }
}

} // verus!
