//! Tracks callbacks still waiting for their `done`, which a client may block
//! on forever if the compositor died before sending it: those of
//! `wl_surface.frame` and of `wl_display.sync`.
use crate::collections::members_of;
use std::collections::HashSet;
use vstd::prelude::*;

verus! {

broadcast use vstd::std_specs::hash::group_hash_axioms;

/// The guest ids of callbacks without a `done` so far.
pub struct PendingFrameTracker {
    awaiting_done: HashSet<u32>,
}

impl View for PendingFrameTracker {
    type V = Set<u32>;

    closed spec fn view(&self) -> Set<u32> {
        self.awaiting_done@
    }
}

impl PendingFrameTracker {
    /// A tracker without callbacks.
    pub fn new() -> (r: PendingFrameTracker)
        ensures
            r@ == Set::<u32>::empty(),
    {
        PendingFrameTracker { awaiting_done: HashSet::new() }
    }

    /// `wl_surface.frame` made this callback.
    pub fn on_frame_requested(&mut self, callback_guest_id: u32)
        ensures
            final(self)@ == old(self)@.insert(callback_guest_id),
    {
        self.awaiting_done.insert(callback_guest_id);
    }

    /// `wl_display.sync` made this callback.
    pub fn on_sync_requested(&mut self, callback_guest_id: u32)
        ensures
            final(self)@ == old(self)@.insert(callback_guest_id),
    {
        self.awaiting_done.insert(callback_guest_id);
    }

    /// The host sent this callback's `done`.
    pub fn on_done_received(&mut self, callback_guest_id: u32)
        ensures
            final(self)@ == old(self)@.remove(callback_guest_id),
    {
        self.awaiting_done.remove(&callback_guest_id);
    }

    /// Hands out every callback that still waits, each once and in no
    /// particular order, and stops tracking them.
    pub fn drain_awaiting_done(&mut self) -> (r: Vec<u32>)
        ensures
            r@.to_set() == old(self)@,
            r@.no_duplicates(),
            final(self)@ == Set::<u32>::empty(),
    {
        let callbacks = members_of(&self.awaiting_done);
        self.awaiting_done.clear();
        callbacks
    }
}

impl Default for PendingFrameTracker {
    fn default() -> (r: PendingFrameTracker)
        ensures
            r@ == Set::<u32>::empty(),
    {
        PendingFrameTracker::new()
    }
}

} // verus!
