//! Tracks pointer and keyboard focus and held buttons, so that a reconnect can
//! release them: the new compositor never will, and a stuck grab is worse than
//! a dropped click.
use crate::collections::keys_of;
use std::collections::HashMap;
use vstd::prelude::*;

verus! {

broadcast use vstd::std_specs::hash::group_hash_axioms;

/// The value of `wl_pointer.button`'s state argument for a press.
pub const BUTTON_STATE_PRESSED: u32 = 1;

struct PointerState {
    entered_surface: Option<u32>,
    pressed_buttons: Vec<u32>,
}

struct KeyboardState {
    entered_surface: Option<u32>,
}

/// Focus and held buttons, by the guest id of the device.
pub struct GrabTracker {
    pointers: HashMap<u32, PointerState>,
    keyboards: HashMap<u32, KeyboardState>,
}

/// What is known of a pointer.
#[verifier::ext_equal]
pub struct PointerModel {
    /// The surface it entered and has not left.
    pub entered: Option<u32>,
    /// The buttons held down, in the order in which they were pressed.
    pub pressed: Seq<u32>,
}

/// The buttons of `held` other than `button`, in order.
pub open spec fn except(held: Seq<u32>, button: u32) -> Seq<u32> {
    held.filter(|b: u32| b != button)
}

impl PointerModel {
    /// A pointer without focus or held buttons.
    pub open spec fn idle() -> PointerModel {
        PointerModel { entered: None, pressed: Seq::empty() }
    }

    /// Whether there is anything to release.
    pub open spec fn is_active(self) -> bool {
        self.entered is Some || self.pressed.len() > 0
    }

    /// The pointer after a button event.
    pub open spec fn button(self, button: u32, state: u32) -> PointerModel {
        if state == BUTTON_STATE_PRESSED {
            if self.pressed.contains(button) {
                self
            } else {
                PointerModel { pressed: self.pressed.push(button), ..self }
            }
        } else {
            PointerModel { pressed: except(self.pressed, button), ..self }
        }
    }
}

/// What a [`GrabTracker`] knows: pointers, and the surface each keyboard has
/// entered and not left.
#[verifier::ext_equal]
pub struct GrabModel {
    pub pointers: Map<u32, PointerModel>,
    pub keyboards: Map<u32, Option<u32>>,
}

impl GrabModel {
    /// Nothing known yet.
    pub open spec fn empty() -> GrabModel {
        GrabModel { pointers: Map::empty(), keyboards: Map::empty() }
    }

    /// The pointer `id`, idle if it was never heard of.
    pub open spec fn pointer(self, id: u32) -> PointerModel {
        if self.pointers.contains_key(id) {
            self.pointers[id]
        } else {
            PointerModel::idle()
        }
    }

    /// After pointer `id` entered a surface.
    pub open spec fn pointer_enter(self, id: u32, surface: u32) -> GrabModel {
        let p = PointerModel { entered: Some(surface), ..self.pointer(id) };
        GrabModel { pointers: self.pointers.insert(id, p), ..self }
    }

    /// After pointer `id` left its surface.
    pub open spec fn pointer_leave(self, id: u32) -> GrabModel {
        if self.pointers.contains_key(id) {
            let p = PointerModel { entered: None, ..self.pointers[id] };
            GrabModel { pointers: self.pointers.insert(id, p), ..self }
        } else {
            self
        }
    }

    /// After a button event on pointer `id`.
    pub open spec fn pointer_button(self, id: u32, button: u32, state: u32) -> GrabModel {
        GrabModel {
            pointers: self.pointers.insert(id, self.pointer(id).button(button, state)),
            ..self
        }
    }

    /// After keyboard `id` entered a surface.
    pub open spec fn keyboard_enter(self, id: u32, surface: u32) -> GrabModel {
        GrabModel { keyboards: self.keyboards.insert(id, Some(surface)), ..self }
    }

    /// After keyboard `id` left its surface.
    pub open spec fn keyboard_leave(self, id: u32) -> GrabModel {
        if self.keyboards.contains_key(id) {
            GrabModel { keyboards: self.keyboards.insert(id, None), ..self }
        } else {
            self
        }
    }
}

impl View for PointerState {
    type V = PointerModel;

    closed spec fn view(&self) -> PointerModel {
        PointerModel { entered: self.entered_surface, pressed: self.pressed_buttons@ }
    }
}

impl View for GrabTracker {
    type V = GrabModel;

    closed spec fn view(&self) -> GrabModel {
        GrabModel {
            pointers: self.pointers@.map_values(|p: PointerState| p@),
            keyboards: self.keyboards@.map_values(|k: KeyboardState| k.entered_surface),
        }
    }
}

/// The buttons of `held` other than `button`.
fn released(held: Vec<u32>, button: u32) -> (r: Vec<u32>)
    ensures
        r@ == except(held@, button),
{
    let mut kept: Vec<u32> = Vec::new();
    let mut i: usize = 0;
    proof {
        reveal(Seq::filter);
        assert(except(held@.take(0), button) =~= Seq::empty());
    }
    while i < held.len()
        invariant
            i <= held@.len(),
            kept@ == except(held@.take(i as int), button),
        decreases held.len() - i,
    {
        proof {
            reveal(Seq::filter);
            assert(held@.take(i + 1).drop_last() =~= held@.take(i as int));
        }
        if held[i] != button {
            kept.push(held[i]);
        }
        i += 1;
    }
    assert(held@.take(held@.len() as int) =~= held@);
    kept
}

/// Whether `held` has `button` in it.
fn holds(held: &Vec<u32>, button: u32) -> (r: bool)
    ensures
        r == held@.contains(button),
{
    let mut i: usize = 0;
    while i < held.len()
        invariant
            i <= held@.len(),
            forall|j: int| 0 <= j < i ==> held@[j] != button,
        decreases held.len() - i,
    {
        if held[i] == button {
            return true;
        }
        i += 1;
    }
    false
}

impl GrabTracker {
    /// A tracker that knows nothing yet.
    pub fn new() -> (r: GrabTracker)
        ensures
            r@ == GrabModel::empty(),
    {
        let tracker = GrabTracker { pointers: HashMap::new(), keyboards: HashMap::new() };
        assert(tracker@ =~= GrabModel::empty());
        tracker
    }

    /// Takes a pointer's state out of the map.
    fn take_pointer(&mut self, id: u32) -> (r: PointerState)
        ensures
            r@ == old(self)@.pointer(id),
            final(self)@ == (GrabModel {
                pointers: old(self)@.pointers.remove(id),
                ..old(self)@
            }),
    {
        let state = match self.pointers.remove(&id) {
            Some(state) => state,
            None => PointerState { entered_surface: None, pressed_buttons: Vec::new() },
        };
        assert(state@ =~= old(self)@.pointer(id));
        assert(self@ =~= GrabModel { pointers: old(self)@.pointers.remove(id), ..old(self)@ });
        state
    }

    /// Puts a pointer's state into the map.
    fn put_pointer(&mut self, id: u32, state: PointerState)
        ensures
            final(self)@ == (GrabModel {
                pointers: old(self)@.pointers.insert(id, state@),
                ..old(self)@
            }),
    {
        self.pointers.insert(id, state);
        assert(self@ =~= GrabModel {
            pointers: old(self)@.pointers.insert(id, state@),
            ..old(self)@
        });
    }

    /// The pointer's focus entered a surface.
    pub fn on_pointer_enter(&mut self, pointer_guest_id: u32, surface_guest_id: u32)
        ensures
            final(self)@ == old(self)@.pointer_enter(pointer_guest_id, surface_guest_id),
    {
        let mut state = self.take_pointer(pointer_guest_id);
        state.entered_surface = Some(surface_guest_id);
        self.put_pointer(pointer_guest_id, state);
        assert(self@ =~= old(self)@.pointer_enter(pointer_guest_id, surface_guest_id));
    }

    /// The pointer's focus left its surface.
    pub fn on_pointer_leave(&mut self, pointer_guest_id: u32)
        ensures
            final(self)@ == old(self)@.pointer_leave(pointer_guest_id),
    {
        if self.pointers.contains_key(&pointer_guest_id) {
            let mut state = self.take_pointer(pointer_guest_id);
            state.entered_surface = None;
            self.put_pointer(pointer_guest_id, state);
            assert(self@ =~= old(self)@.pointer_leave(pointer_guest_id));
        }
    }

    /// A pointer button was pressed (`state` 1) or released.
    pub fn on_pointer_button(&mut self, pointer_guest_id: u32, button: u32, state: u32)
        ensures
            final(self)@ == old(self)@.pointer_button(pointer_guest_id, button, state),
    {
        let mut pointer = self.take_pointer(pointer_guest_id);
        if state == BUTTON_STATE_PRESSED {
            if !holds(&pointer.pressed_buttons, button) {
                pointer.pressed_buttons.push(button);
            }
        } else {
            pointer.pressed_buttons = released(pointer.pressed_buttons, button);
        }
        self.put_pointer(pointer_guest_id, pointer);
        assert(self@ =~= old(self)@.pointer_button(pointer_guest_id, button, state));
    }

    /// The keyboard's focus entered a surface.
    pub fn on_keyboard_enter(&mut self, keyboard_guest_id: u32, surface_guest_id: u32)
        ensures
            final(self)@ == old(self)@.keyboard_enter(keyboard_guest_id, surface_guest_id),
    {
        self.keyboards.insert(
            keyboard_guest_id,
            KeyboardState { entered_surface: Some(surface_guest_id) },
        );
        assert(self@ =~= old(self)@.keyboard_enter(keyboard_guest_id, surface_guest_id));
    }

    /// The keyboard's focus left its surface.
    pub fn on_keyboard_leave(&mut self, keyboard_guest_id: u32)
        ensures
            final(self)@ == old(self)@.keyboard_leave(keyboard_guest_id),
    {
        if self.keyboards.contains_key(&keyboard_guest_id) {
            self.keyboards.insert(keyboard_guest_id, KeyboardState { entered_surface: None });
            assert(self@ =~= old(self)@.keyboard_leave(keyboard_guest_id));
        }
    }

    /// Every pointer that has focus or a held button, once, with both.  In no
    /// particular order; changes nothing.
    pub fn active_pointer_grabs(&self) -> (r: Vec<(u32, Option<u32>, &[u32])>)
        ensures
            forall|i: int|
                0 <= i < r@.len() ==> self@.pointers.contains_key((#[trigger] r@[i]).0)
                    && self@.pointers[r@[i].0].is_active() && r@[i].1
                    == self@.pointers[r@[i].0].entered && r@[i].2@
                    == self@.pointers[r@[i].0].pressed,
            forall|i: int, j: int|
                0 <= i < j < r@.len() ==> (#[trigger] r@[i]).0 != (#[trigger] r@[j]).0,
            forall|id: u32| #[trigger]
                self@.pointers.contains_key(id) && self@.pointers[id].is_active()
                    ==> exists|i: int| 0 <= i < r@.len() && (#[trigger] r@[i]).0 == id,
    {
        let ids = keys_of(&self.pointers);
        let mut out: Vec<(u32, Option<u32>, &[u32])> = Vec::new();
        let mut n: usize = 0;
        while n < ids.len()
            invariant
                n <= ids@.len(),
                ids@.no_duplicates(),
                ids@.to_set() == self.pointers@.dom(),
                forall|i: int|
                    0 <= i < out@.len() ==> self@.pointers.contains_key((#[trigger] out@[i]).0)
                        && self@.pointers[out@[i].0].is_active() && out@[i].1
                        == self@.pointers[out@[i].0].entered && out@[i].2@
                        == self@.pointers[out@[i].0].pressed && ids@.take(n as int).contains(
                        out@[i].0,
                    ),
                forall|i: int, j: int|
                    0 <= i < j < out@.len() ==> (#[trigger] out@[i]).0 != (#[trigger] out@[j]).0,
                forall|k: int|
                    0 <= k < n && self@.pointers[#[trigger] ids@[k]].is_active() ==> exists|i: int|
                        0 <= i < out@.len() && (#[trigger] out@[i]).0 == ids@[k],
            decreases ids.len() - n,
        {
            let id: u32 = ids[n];
            assert(ids@.to_set().contains(id));
            assert(!ids@.take(n as int).contains(id));
            assert(ids@.take(n + 1) =~= ids@.take(n as int).push(id));
            let ghost before = out@;
            if let Some(state) = self.pointers.get(&id) {
                if state.entered_surface.is_some() || state.pressed_buttons.len() > 0 {
                    out.push((id, state.entered_surface, state.pressed_buttons.as_slice()));
                    assert(out@[before.len() as int].0 == id);
                }
            }
            assert forall|i: int| 0 <= i < out@.len() implies ids@.take(n + 1).contains(
                (#[trigger] out@[i]).0,
            ) by {
                if i < before.len() {
                    let k = choose|k: int| 0 <= k < n && ids@.take(n as int)[k] == out@[i].0;
                    assert(ids@.take(n + 1)[k] == out@[i].0);
                } else {
                    assert(ids@.take(n + 1)[n as int] == id);
                }
            }
            assert forall|k: int|
                0 <= k < n + 1 && self@.pointers[#[trigger] ids@[k]].is_active() implies exists|
                i: int,
            | 0 <= i < out@.len() && (#[trigger] out@[i]).0 == ids@[k] by {
                if k < n {
                    let i = choose|i: int|
                        0 <= i < before.len() && (#[trigger] before[i]).0 == ids@[k];
                    assert(out@[i].0 == ids@[k]);
                }
            }
            n += 1;
        }
        assert forall|id: u32| #[trigger]
            self@.pointers.contains_key(id) && self@.pointers[id].is_active() implies exists|i: int|
            0 <= i < out@.len() && (#[trigger] out@[i]).0 == id by {
            assert(ids@.to_set().contains(id));
            let k = choose|k: int| 0 <= k < ids@.len() && ids@[k] == id;
            assert(self@.pointers[ids@[k]].is_active());
        }
        out
    }

    /// Every keyboard that has focus, once, with the surface.  In no
    /// particular order; changes nothing.
    pub fn active_keyboard_grabs(&self) -> (r: Vec<(u32, u32)>)
        ensures
            forall|i: int|
                0 <= i < r@.len() ==> self@.keyboards.contains_key((#[trigger] r@[i]).0)
                    && self@.keyboards[r@[i].0] == Some(r@[i].1),
            forall|i: int, j: int|
                0 <= i < j < r@.len() ==> (#[trigger] r@[i]).0 != (#[trigger] r@[j]).0,
            forall|id: u32| #[trigger]
                self@.keyboards.contains_key(id) && self@.keyboards[id] is Some ==> exists|i: int|
                    0 <= i < r@.len() && (#[trigger] r@[i]).0 == id,
    {
        let ids = keys_of(&self.keyboards);
        let mut out: Vec<(u32, u32)> = Vec::new();
        let mut n: usize = 0;
        while n < ids.len()
            invariant
                n <= ids@.len(),
                ids@.no_duplicates(),
                ids@.to_set() == self.keyboards@.dom(),
                forall|i: int|
                    0 <= i < out@.len() ==> self@.keyboards.contains_key((#[trigger] out@[i]).0)
                        && self@.keyboards[out@[i].0] == Some(out@[i].1) && ids@.take(
                        n as int,
                    ).contains(out@[i].0),
                forall|i: int, j: int|
                    0 <= i < j < out@.len() ==> (#[trigger] out@[i]).0 != (#[trigger] out@[j]).0,
                forall|k: int|
                    0 <= k < n && self@.keyboards[#[trigger] ids@[k]] is Some ==> exists|i: int|
                        0 <= i < out@.len() && (#[trigger] out@[i]).0 == ids@[k],
            decreases ids.len() - n,
        {
            let id: u32 = ids[n];
            assert(ids@.to_set().contains(id));
            assert(!ids@.take(n as int).contains(id));
            assert(ids@.take(n + 1) =~= ids@.take(n as int).push(id));
            let ghost before = out@;
            if let Some(state) = self.keyboards.get(&id) {
                if let Some(surface) = state.entered_surface {
                    out.push((id, surface));
                    assert(out@[before.len() as int].0 == id);
                }
            }
            assert forall|i: int| 0 <= i < out@.len() implies ids@.take(n + 1).contains(
                (#[trigger] out@[i]).0,
            ) by {
                if i < before.len() {
                    let k = choose|k: int| 0 <= k < n && ids@.take(n as int)[k] == out@[i].0;
                    assert(ids@.take(n + 1)[k] == out@[i].0);
                } else {
                    assert(ids@.take(n + 1)[n as int] == id);
                }
            }
            assert forall|k: int|
                0 <= k < n + 1 && self@.keyboards[#[trigger] ids@[k]] is Some implies exists|i: int|
                0 <= i < out@.len() && (#[trigger] out@[i]).0 == ids@[k] by {
                if k < n {
                    let i = choose|i: int|
                        0 <= i < before.len() && (#[trigger] before[i]).0 == ids@[k];
                    assert(out@[i].0 == ids@[k]);
                }
            }
            n += 1;
        }
        assert forall|id: u32| #[trigger]
            self@.keyboards.contains_key(id) && self@.keyboards[id] is Some implies exists|i: int|
            0 <= i < out@.len() && (#[trigger] out@[i]).0 == id by {
            assert(ids@.to_set().contains(id));
            let k = choose|k: int| 0 <= k < ids@.len() && ids@[k] == id;
            assert(self@.keyboards[ids@[k]] is Some);
        }
        out
    }

    /// Forgets everything.
    pub fn clear(&mut self)
        ensures
            final(self)@ == GrabModel::empty(),
    {
        self.pointers.clear();
        self.keyboards.clear();
        assert(self@ =~= GrabModel::empty());
    }
}

impl Default for GrabTracker {
    fn default() -> (r: GrabTracker)
        ensures
            r@ == GrabModel::empty(),
    {
        GrabTracker::new()
    }
}

/// A press that is followed by its release leaves no trace among the held
/// buttons, and a second press is no second button.
pub proof fn lemma_press_then_release(p: PointerModel, button: u32)
    requires
        !p.pressed.contains(button),
    ensures
        p.button(button, BUTTON_STATE_PRESSED).button(button, BUTTON_STATE_PRESSED) == p.button(
            button,
            BUTTON_STATE_PRESSED,
        ),
        p.button(button, BUTTON_STATE_PRESSED).button(button, 0) == p,
{
    let pressed = p.pressed.push(button);
    assert(pressed[p.pressed.len() as int] == button);
    reveal(Seq::filter);
    assert(pressed.drop_last() =~= p.pressed);
    lemma_filter_of_others(p.pressed, button);
}

/// Dropping a button that is not there drops nothing.
proof fn lemma_filter_of_others(held: Seq<u32>, button: u32)
    requires
        !held.contains(button),
    ensures
        except(held, button) == held,
    decreases held.len(),
{
    reveal(Seq::filter);
    if held.len() > 0 {
        assert(held.contains(held.last()));
        assert forall|b: u32| held.drop_last().contains(b) implies held.contains(b) by {}
        lemma_filter_of_others(held.drop_last(), button);
        assert(held.drop_last().push(held.last()) =~= held);
    }
}

/// Entering and leaving a surface leaves nothing to release for it.
pub proof fn lemma_enter_then_leave(g: GrabModel, id: u32, surface: u32)
    ensures
        g.pointer_enter(id, surface).pointer(id).entered == Some(surface),
        g.pointer_enter(id, surface).pointer_leave(id).pointer(id).entered is None,
        g.keyboard_enter(id, surface).keyboard_leave(id).keyboards[id] is None,
{
}

} // verus!
