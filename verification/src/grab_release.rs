//! Releases focus and held buttons before traffic resumes on a fresh host
//! connection.
use crate::clipboard;
use crate::grab_state::GrabModel;
use crate::recovery;
use crate::schema;
use crate::schema::event_opcode;
use crate::session::{Session, SessionModel};
use crate::shadow_table::{ShadowTable, TableModel};
use crate::wire;
use crate::wire::{build_message, put_u32};
use vstd::prelude::*;

verus! {

/// A focused pointer or one with held buttons: its id, the surface it entered,
/// and the buttons.
pub struct PointerGrab {
    pub id: u32,
    pub entered: Option<u32>,
    pub pressed: Seq<u32>,
}

/// A `leave` event.
pub open spec fn leave_message(id: u32, opcode: u16, serial: u32, surface: u32) -> Seq<u8> {
    wire::message_bytes(id, opcode, wire::word_bytes(serial) + wire::word_bytes(surface))
}

/// A `button` event that says the button is up, at no particular time.
pub open spec fn button_up_message(id: u32, opcode: u16, serial: u32, button: u32) -> Seq<u8> {
    wire::message_bytes(
        id,
        opcode,
        wire::word_bytes(serial) + wire::word_bytes(0) + wire::word_bytes(button)
            + wire::word_bytes(0),
    )
}

/// Messages, and the serial to go on with.
#[verifier::ext_equal]
pub struct Released {
    pub messages: Seq<Seq<u8>>,
    pub serial: u32,
}

impl Released {
    /// With one more message, which took the serial.
    pub open spec fn with(self, message: Seq<u8>) -> Released {
        Released {
            messages: self.messages.push(message),
            serial: recovery::serial_after(self.serial),
        }
    }
}

/// After the first `n` of a pointer's held buttons were released.
pub open spec fn buttons_released(
    so_far: Released,
    id: u32,
    opcode: u16,
    pressed: Seq<u32>,
    n: int,
) -> Released
    decreases n,
{
    if n <= 0 {
        so_far
    } else {
        let r = buttons_released(so_far, id, opcode, pressed, n - 1);
        r.with(button_up_message(id, opcode, r.serial, pressed[n - 1]))
    }
}

/// After a device left a surface, if its interface knows how.
pub open spec fn left(so_far: Released, t: TableModel, id: u32, surface: Option<u32>) -> Released {
    match (t.interface(id), surface) {
        (Some(interface), Some(surface)) => match schema::opcode_named(
            interface.events,
            "leave"@,
        ) {
            Some(opcode) => so_far.with(leave_message(id, opcode, so_far.serial, surface)),
            None => so_far,
        },
        _ => so_far,
    }
}

/// After a pointer was released: first its focus, then its buttons.
pub open spec fn pointer_released(so_far: Released, t: TableModel, grab: PointerGrab) -> Released {
    let r = left(so_far, t, grab.id, grab.entered);
    match t.interface(grab.id) {
        Some(interface) => match schema::opcode_named(interface.events, "button"@) {
            Some(opcode) => buttons_released(
                r,
                grab.id,
                opcode,
                grab.pressed,
                grab.pressed.len() as int,
            ),
            None => r,
        },
        None => r,
    }
}

/// After the first `n` pointers were released.
pub open spec fn pointers_released(
    so_far: Released,
    t: TableModel,
    grabs: Seq<PointerGrab>,
    n: int,
) -> Released
    decreases n,
{
    if n <= 0 {
        so_far
    } else {
        pointer_released(pointers_released(so_far, t, grabs, n - 1), t, grabs[n - 1])
    }
}

/// After the first `n` keyboards were released.
pub open spec fn keyboards_released(
    so_far: Released,
    t: TableModel,
    grabs: Seq<(u32, u32)>,
    n: int,
) -> Released
    decreases n,
{
    if n <= 0 {
        so_far
    } else {
        left(
            keyboards_released(so_far, t, grabs, n - 1),
            t,
            grabs[n - 1].0,
            Some(grabs[n - 1].1),
        )
    }
}

/// After every pointer and then every keyboard was released, with serials that
/// count up from 1.
pub open spec fn all_released(
    t: TableModel,
    pointers: Seq<PointerGrab>,
    keyboards: Seq<(u32, u32)>,
) -> Released {
    let start = Released { messages: Seq::empty(), serial: 1 };
    keyboards_released(
        pointers_released(start, t, pointers, pointers.len() as int),
        t,
        keyboards,
        keyboards.len() as int,
    )
}

/// Whether `list` holds each pointer with something to release once, as it
/// stands in `grabs`.
pub open spec fn lists_pointers(list: Seq<PointerGrab>, grabs: GrabModel) -> bool {
    &&& forall|i: int|
        0 <= i < list.len() ==> grabs.pointers.contains_key((#[trigger] list[i]).id)
            && grabs.pointers[list[i].id].is_active() && list[i].entered
            == grabs.pointers[list[i].id].entered && list[i].pressed
            == grabs.pointers[list[i].id].pressed
    &&& forall|i: int, j: int|
        0 <= i < j < list.len() ==> (#[trigger] list[i]).id != (#[trigger] list[j]).id
    &&& forall|id: u32| #[trigger]
        grabs.pointers.contains_key(id) && grabs.pointers[id].is_active() ==> exists|i: int|
            0 <= i < list.len() && (#[trigger] list[i]).id == id
}

/// Whether `list` holds each keyboard with focus once, as it stands in `grabs`.
pub open spec fn lists_keyboards(list: Seq<(u32, u32)>, grabs: GrabModel) -> bool {
    &&& forall|i: int|
        0 <= i < list.len() ==> grabs.keyboards.contains_key((#[trigger] list[i]).0)
            && grabs.keyboards[list[i].0] == Some(list[i].1)
    &&& forall|i: int, j: int|
        0 <= i < j < list.len() ==> (#[trigger] list[i]).0 != (#[trigger] list[j]).0
    &&& forall|id: u32| #[trigger]
        grabs.keyboards.contains_key(id) && grabs.keyboards[id] is Some ==> exists|i: int|
            0 <= i < list.len() && (#[trigger] list[i]).0 == id
}

/// Messages collected so far, and the serial to go on with.
struct Collected {
    messages: Vec<Vec<u8>>,
    serial: u32,
}

impl View for Collected {
    type V = Released;

    closed spec fn view(&self) -> Released {
        Released { messages: clipboard::message_list(self.messages@), serial: self.serial }
    }
}

impl Collected {
    /// Adds a message, which takes the serial.
    fn add_message(&mut self, message: Vec<u8>)
        ensures
            final(self)@ == old(self)@.with(message@),
    {
        self.messages.push(message);
        self.serial =
        if self.serial == u32::MAX {
            0
        } else {
            self.serial + 1
        };
        assert(self@.messages =~= old(self)@.messages.push(message@));
    }

    fn leave(&mut self, objects: &ShadowTable, id: u32, surface: Option<u32>)
        ensures
            final(self)@ == left(old(self)@, objects@, id, surface),
    {
        if let (Some(interface), Some(surface)) = (objects.interface(id), surface) {
            if let Some(opcode) = event_opcode(&interface, "leave") {
                let mut p: Vec<u8> = Vec::new();
                put_u32(&mut p, self.serial);
                put_u32(&mut p, surface);
                assert(p@ =~= wire::word_bytes(self.serial) + wire::word_bytes(surface));
                self.add_message(build_message(id, opcode, p.as_slice()));
            }
        }
    }

    fn release_buttons(&mut self, id: u32, opcode: u16, pressed: &[u32])
        ensures
            final(self)@ == buttons_released(
                old(self)@,
                id,
                opcode,
                pressed@,
                pressed@.len() as int,
            ),
    {
        let ghost start = self@;
        let mut i: usize = 0;
        while i < pressed.len()
            invariant
                i <= pressed@.len(),
                start == old(self)@,
                self@ == buttons_released(start, id, opcode, pressed@, i as int),
            decreases pressed.len() - i,
        {
            let mut p: Vec<u8> = Vec::new();
            put_u32(&mut p, self.serial);
            put_u32(&mut p, 0);
            put_u32(&mut p, pressed[i]);
            put_u32(&mut p, 0);
            assert(p@ =~= wire::word_bytes(self.serial) + wire::word_bytes(0) + wire::word_bytes(
                pressed@[i as int],
            ) + wire::word_bytes(0));
            self.add_message(build_message(id, opcode, p.as_slice()));
            i += 1;
        }
    }

    fn release_pointer(
        &mut self,
        objects: &ShadowTable,
        id: u32,
        entered: Option<u32>,
        pressed: &[u32],
    )
        ensures
            final(self)@ == pointer_released(
                old(self)@,
                objects@,
                (PointerGrab { id, entered, pressed: pressed@ }),
            ),
    {
        self.leave(objects, id, entered);
        if let Some(interface) = objects.interface(id) {
            if let Some(opcode) = event_opcode(&interface, "button") {
                self.release_buttons(id, opcode, pressed);
            }
        }
    }
}

/// What a list of pointer grabs says.
pub open spec fn grab_models(list: Seq<(u32, Option<u32>, &[u32])>) -> Seq<PointerGrab> {
    list.map_values(
        |g: (u32, Option<u32>, &[u32])| PointerGrab { id: g.0, entered: g.1, pressed: g.2@ },
    )
}

/// The events that release the given pointers and keyboards, in order.
pub fn release_all(
    objects: &ShadowTable,
    pointers: &Vec<(u32, Option<u32>, &[u32])>,
    keyboards: &Vec<(u32, u32)>,
) -> (r: Vec<Vec<u8>>)
    ensures
        clipboard::message_list(r@) == all_released(
            objects@,
            grab_models(pointers@),
            keyboards@,
        ).messages,
{
    let mut c = Collected { messages: Vec::new(), serial: 1 };
    let ghost start = Released { messages: Seq::empty(), serial: 1 };
    let ghost grabs = grab_models(pointers@);
    assert(c@ =~= start);
    let mut i: usize = 0;
    while i < pointers.len()
        invariant
            i <= pointers@.len(),
            grabs == grab_models(pointers@),
            c@ == pointers_released(start, objects@, grabs, i as int),
        decreases pointers.len() - i,
    {
        let (id, entered, pressed) = pointers[i];
        c.release_pointer(objects, id, entered, pressed);
        i += 1;
    }
    let ghost middle = c@;
    let mut j: usize = 0;
    while j < keyboards.len()
        invariant
            j <= keyboards@.len(),
            c@ == keyboards_released(middle, objects@, keyboards@, j as int),
        decreases keyboards.len() - j,
    {
        let (id, surface): (u32, u32) = keyboards[j];
        c.leave(objects, id, Some(surface));
        j += 1;
    }
    c.messages
}

/// Whether `messages` release everything that `grabs` holds.
pub open spec fn releases_everything(
    t: TableModel,
    grabs: GrabModel,
    messages: Seq<Seq<u8>>,
) -> bool {
    exists|pointers: Seq<PointerGrab>, keyboards: Seq<(u32, u32)>| #[trigger]
        lists_pointers(pointers, grabs) && #[trigger] lists_keyboards(keyboards, grabs) && messages
            == all_released(t, pointers, keyboards).messages
}

/// Releases every grab before traffic resumes.  The events go to the client,
/// each on its own, and the tracker starts over.
pub fn synthesize_grab_releases<F>(session: &mut Session<F>) -> (r: Vec<Vec<u8>>)
    ensures
        releases_everything(
            old(session)@.objects,
            old(session)@.grabs,
            clipboard::message_list(r@),
        ),
        final(session)@ == (SessionModel { grabs: GrabModel::empty(), ..old(session)@ }),
{
    let messages = {
        let pointers = session.grabs.active_pointer_grabs();
        let keyboards = session.grabs.active_keyboard_grabs();
        let messages = release_all(&session.objects, &pointers, &keyboards);
        proof {
            let grabs = session.grabs@;
            let list = grab_models(pointers@);
            assert forall|i: int| 0 <= i < list.len() implies grabs.pointers.contains_key(
                (#[trigger] list[i]).id,
            ) && grabs.pointers[list[i].id].is_active() && list[i].entered
                == grabs.pointers[list[i].id].entered && list[i].pressed
                == grabs.pointers[list[i].id].pressed by {
                assert(pointers@[i].0 == list[i].id);
            }
            assert forall|i: int, j: int| 0 <= i < j < list.len() implies (#[trigger] list[i]).id
                != (#[trigger] list[j]).id by {
                assert(pointers@[i].0 != pointers@[j].0);
            }
            assert forall|id: u32| #[trigger]
                grabs.pointers.contains_key(id) && grabs.pointers[id].is_active() implies exists|
                i: int,
            | 0 <= i < list.len() && (#[trigger] list[i]).id == id by {
                let i = choose|i: int| 0 <= i < pointers@.len() && (#[trigger] pointers@[i]).0 == id;
                assert(list[i].id == id);
            }
            assert(lists_pointers(list, grabs));
            assert(lists_keyboards(keyboards@, grabs));
        }
        messages
    };
    session.grabs.clear();
    messages
}

} // verus!
