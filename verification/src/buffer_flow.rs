//! Tracks which buffers are in flight: attached and committed, with the client
//! still waiting for the release that a dead compositor will never send.
use crate::collections::members_of;
use std::collections::{HashMap, HashSet};
use vstd::prelude::*;

verus! {

broadcast use vstd::std_specs::hash::group_hash_axioms;

/// Attached and in-flight buffers, by guest id.
pub struct BufferFlowTracker {
    pending_attach: HashMap<u32, u32>,
    in_flight: HashSet<u32>,
}

/// What a [`BufferFlowTracker`] knows.
#[verifier::ext_equal]
pub struct FlowModel {
    /// The buffer attached last to each surface; 0 for none.
    pub attached: Map<u32, u32>,
    /// The buffers committed and not released since.
    pub in_flight: Set<u32>,
}

impl FlowModel {
    /// Nothing attached, nothing in flight.
    pub open spec fn empty() -> FlowModel {
        FlowModel { attached: Map::empty(), in_flight: Set::empty() }
    }

    /// After `buffer` was attached to `surface`.
    pub open spec fn attach(self, surface: u32, buffer: u32) -> FlowModel {
        FlowModel { attached: self.attached.insert(surface, buffer), ..self }
    }

    /// After `surface` was committed: what is attached to it, if anything, is
    /// in flight, and stays attached.
    pub open spec fn commit(self, surface: u32) -> FlowModel {
        if self.attached.contains_key(surface) && self.attached[surface] != 0 {
            FlowModel { in_flight: self.in_flight.insert(self.attached[surface]), ..self }
        } else {
            self
        }
    }

    /// After `buffer` was released.
    pub open spec fn release(self, buffer: u32) -> FlowModel {
        FlowModel { in_flight: self.in_flight.remove(buffer), ..self }
    }

    /// After everything in flight was given up.
    pub open spec fn drained(self) -> FlowModel {
        FlowModel { in_flight: Set::empty(), ..self }
    }
}

impl View for BufferFlowTracker {
    type V = FlowModel;

    closed spec fn view(&self) -> FlowModel {
        FlowModel { attached: self.pending_attach@, in_flight: self.in_flight@ }
    }
}

impl BufferFlowTracker {
    /// A tracker with nothing attached or in flight.
    pub fn new() -> (r: BufferFlowTracker)
        ensures
            r@ == FlowModel::empty(),
    {
        BufferFlowTracker { pending_attach: HashMap::new(), in_flight: HashSet::new() }
    }

    /// `wl_surface.attach`; `buffer_guest_id` is 0 where the surface is left
    /// without a buffer.
    pub fn on_attach(&mut self, surface_guest_id: u32, buffer_guest_id: u32)
        ensures
            final(self)@ == old(self)@.attach(surface_guest_id, buffer_guest_id),
    {
        self.pending_attach.insert(surface_guest_id, buffer_guest_id);
    }

    /// `wl_surface.commit`.
    pub fn on_commit(&mut self, surface_guest_id: u32)
        ensures
            final(self)@ == old(self)@.commit(surface_guest_id),
    {
        if let Some(buffer_guest_id) = self.pending_attach.get(&surface_guest_id) {
            if *buffer_guest_id != 0 {
                self.in_flight.insert(*buffer_guest_id);
            }
        }
    }

    /// `wl_buffer.release`.
    pub fn on_release(&mut self, buffer_guest_id: u32)
        ensures
            final(self)@ == old(self)@.release(buffer_guest_id),
    {
        self.in_flight.remove(&buffer_guest_id);
    }

    /// Hands out every buffer in flight, each once and in no particular order,
    /// and stops tracking them.
    pub fn drain_in_flight(&mut self) -> (r: Vec<u32>)
        ensures
            r@.to_set() == old(self)@.in_flight,
            r@.no_duplicates(),
            final(self)@ == old(self)@.drained(),
    {
        let buffers = members_of(&self.in_flight);
        self.in_flight.clear();
        buffers
    }
}

impl Default for BufferFlowTracker {
    fn default() -> (r: BufferFlowTracker)
        ensures
            r@ == FlowModel::empty(),
    {
        BufferFlowTracker::new()
    }
}

/// A buffer is in flight from the commit after its attach until its release;
/// attaching alone, or attaching nothing, puts nothing in flight.
pub proof fn lemma_in_flight_until_release(t: FlowModel, surface: u32, buffer: u32)
    requires
        buffer != 0,
    ensures
        t.attach(surface, buffer).in_flight == t.in_flight,
        t.attach(surface, buffer).commit(surface).in_flight.contains(buffer),
        t.attach(surface, buffer).commit(surface).commit(surface) == t.attach(
            surface,
            buffer,
        ).commit(surface),
        !t.attach(surface, buffer).commit(surface).release(buffer).in_flight.contains(buffer),
        t.attach(surface, 0).commit(surface).in_flight == t.in_flight,
{
    let f = t.attach(surface, buffer).commit(surface);
    assert(f.in_flight.insert(buffer) =~= f.in_flight);
}

/// What was drained is not reported again.
pub proof fn lemma_drained_stays_drained(t: FlowModel)
    ensures
        t.drained().in_flight.is_empty(),
        t.drained().drained() == t.drained(),
{
}

} // verus!
