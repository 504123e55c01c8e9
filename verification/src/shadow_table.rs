//! The shadow table: which host object stands behind each guest object.
//!
//! The client's ids (*guest*) and the compositor's (*host*) are numbered
//! independently, because a compositor that comes back after a crash will not
//! reuse the numbers of the one before.  Interfaces are kept by guest id, the
//! identity the client sees for the whole life of the object.
use crate::collections::keys_of;
use crate::interfaces;
use crate::interfaces::lookup_interface;
use crate::schema::{same_text, share, InterfaceDesc, InterfaceModel};
use bimap::BiHashMap;
use std::collections::hash_map::RandomState;
use std::collections::HashMap;
use std::sync::Arc;
use vstd::prelude::*;

verus! {

broadcast use vstd::std_specs::hash::group_hash_axioms;

/// The two-way map of the `bimap` crate.
#[verifier::external_type_specification]
#[verifier::external_body]
#[verifier::reject_recursive_types(L)]
#[verifier::reject_recursive_types(R)]
#[verifier::reject_recursive_types(LS)]
#[verifier::reject_recursive_types(RS)]
pub struct ExBiHashMap<L, R, LS, RS>(bimap::BiHashMap<L, R, LS, RS>);

/// The pairs a two-way map of ids holds, as a map from left to right.
pub uninterp spec fn id_pairs(m: BiHashMap<u32, u32, RandomState, RandomState>) -> Map<u32, u32>;

/// `pairs` after `left` was paired with `right`: whatever shared either of
/// them is gone.
pub open spec fn paired(pairs: Map<u32, u32>, left: u32, right: u32) -> Map<u32, u32> {
    Map::new(
        |k: u32| k == left || (pairs.contains_key(k) && pairs[k] != right),
        |k: u32|
            if k == left {
                right
            } else {
                pairs[k]
            },
    )
}

/// `BiHashMap::new`: holds no pair.
#[verifier::external_body]
fn pairs_new() -> (r: BiHashMap<u32, u32>)
    ensures
        forall|k: u32| !id_pairs(r).contains_key(k),
{
    BiHashMap::new()
}

/// `BiHashMap::insert`: removes the pair of `left` and the pair of `right`,
/// then adds the new pair.
#[verifier::external_body]
fn pairs_insert(m: &mut BiHashMap<u32, u32>, left: u32, right: u32)
    ensures
        id_pairs(*final(m)) == paired(id_pairs(*old(m)), left, right),
{
    m.insert(left, right);
}

/// `BiHashMap::get_by_left`: the right value paired with `left`.
#[verifier::external_body]
fn pairs_right(m: &BiHashMap<u32, u32>, left: u32) -> (r: Option<u32>)
    ensures
        r == (if id_pairs(*m).contains_key(left) {
            Some(id_pairs(*m)[left])
        } else {
            None
        }),
{
    m.get_by_left(&left).copied()
}

/// `BiHashMap::get_by_right`: the left value paired with `right`.
#[verifier::external_body]
fn pairs_left(m: &BiHashMap<u32, u32>, right: u32) -> (r: Option<u32>)
    ensures
        r matches Some(left) ==> id_pairs(*m).contains_key(left) && id_pairs(*m)[left] == right,
        r is None ==> forall|k: u32|
            id_pairs(*m).contains_key(k) ==> #[trigger] id_pairs(*m)[k] != right,
{
    m.get_by_right(&right).copied()
}

/// `BiHashMap::remove_by_left`: removes the pair of `left`, if there is one.
#[verifier::external_body]
fn pairs_remove(m: &mut BiHashMap<u32, u32>, left: u32)
    ensures
        id_pairs(*final(m)) == id_pairs(*old(m)).remove(left),
{
    m.remove_by_left(&left);
}

/// The first host id a client may allocate: 1 is `wl_display`.
pub const FIRST_HOST_ID: u32 = 2;

/// The first id of the range the protocol reserves for server-made objects.
pub const FIRST_GUEST_SERVER_ID: u32 = 0xff00_0000;

/// Translates guest ids to host ids and back, and knows each guest object's
/// interface.
pub struct ShadowTable {
    guest_to_host: BiHashMap<u32, u32>,
    interfaces: HashMap<u32, Arc<InterfaceDesc>>,
    next_host_id: u32,
    next_guest_server_id: u32,
    generation: u64,
    mapped_in_generation: HashMap<u32, u64>,
    unresolvable_interfaces: HashMap<u32, String>,
}

/// What a [`ShadowTable`] holds.
#[verifier::ext_equal]
pub struct TableModel {
    /// Host id by guest id.
    pub pairs: Map<u32, u32>,
    /// Interface by guest id.
    pub interfaces: Map<u32, InterfaceModel>,
    /// The host id the next object of the client's making gets.
    pub next_host_id: u32,
    /// The guest id the next object of the host's making gets.
    pub next_guest_server_id: u32,
    /// Counts host connections.
    pub generation: u64,
    /// The connection each guest id was last mapped against.
    pub mapped_in: Map<u32, u64>,
    /// The interface name of guest ids whose creation was dropped because no
    /// table is known for it.  Only used for diagnostics.
    pub unresolvable: Map<u32, Seq<char>>,
}

impl TableModel {
    /// No two guest ids share a host id, and nothing was mapped against a
    /// connection that is still to come.
    pub open spec fn wf(self) -> bool {
        &&& forall|a: u32, b: u32|
            self.pairs.contains_key(a) && self.pairs.contains_key(b) && #[trigger] self.pairs[a]
                == #[trigger] self.pairs[b] ==> a == b
        &&& forall|g: u32|
            self.mapped_in.contains_key(g) ==> #[trigger] self.mapped_in[g] <= self.generation
    }

    /// Whether `guest` was mapped against the present host connection.
    pub open spec fn is_current(self, guest: u32) -> bool {
        self.mapped_in.contains_key(guest) && self.mapped_in[guest] == self.generation
    }

    /// The host id of `guest`: null stands for null, and a mapping that
    /// predates the present connection is as good as none.
    pub open spec fn host_id(self, guest: u32) -> Option<u32> {
        if guest == 0 {
            Some(0)
        } else if self.is_current(guest) && self.pairs.contains_key(guest) {
            Some(self.pairs[guest])
        } else {
            None
        }
    }

    /// Whether `guest` is paired with `host`.
    pub open spec fn stands_for(self, guest: u32, host: u32) -> bool {
        self.pairs.contains_key(guest) && self.pairs[guest] == host
    }

    /// The guest id of `host`, under the same rules as [`Self::host_id`].
    pub open spec fn guest_id(self, host: u32) -> Option<u32> {
        if host == 0 {
            Some(0)
        } else if exists|guest: u32| self.stands_for(guest, host) {
            let guest = choose|guest: u32| self.stands_for(guest, host);
            if self.is_current(guest) {
                Some(guest)
            } else {
                None
            }
        } else {
            None
        }
    }

    /// The interface of `guest`, whichever connection it was mapped against.
    pub open spec fn interface(self, guest: u32) -> Option<InterfaceModel> {
        if self.interfaces.contains_key(guest) {
            Some(self.interfaces[guest])
        } else {
            None
        }
    }

    /// Whether `guest` is an object of the interface called `name`.
    pub open spec fn is_a(self, guest: u32, name: Seq<char>) -> bool {
        self.interfaces.contains_key(guest) && self.interfaces[guest].name == name
    }

    /// Whether `guest` is the lowest id of an object of the interface `name`.
    pub open spec fn is_first(self, guest: u32, name: Seq<char>) -> bool {
        self.is_a(guest, name) && forall|other: u32| #[trigger]
            self.is_a(other, name) ==> guest <= other
    }

    /// The lowest guest id of an object of the interface called `name`.
    pub open spec fn first_named(self, name: Seq<char>) -> Option<u32> {
        if exists|guest: u32| self.is_a(guest, name) {
            Some(choose|guest: u32| self.is_first(guest, name))
        } else {
            None
        }
    }

    /// The table after `guest` and `host` were made one object.
    pub open spec fn map(self, guest: u32, host: u32, interface: InterfaceModel) -> TableModel {
        TableModel {
            pairs: paired(self.pairs, guest, host),
            interfaces: self.interfaces.insert(guest, interface),
            mapped_in: self.mapped_in.insert(guest, self.generation),
            ..self
        }
    }

    /// The table after `guest` was forgotten.
    pub open spec fn remove_guest(self, guest: u32) -> TableModel {
        TableModel {
            pairs: self.pairs.remove(guest),
            interfaces: self.interfaces.remove(guest),
            mapped_in: self.mapped_in.remove(guest),
            unresolvable: self.unresolvable.remove(guest),
            ..self
        }
    }

    /// The table after `n` more host ids were handed out.
    pub open spec fn allocate_host_ids(self, n: int) -> TableModel {
        TableModel { next_host_id: (self.next_host_id + n) as u32, ..self }
    }

    /// The table after one more guest id was handed out.
    pub open spec fn allocate_guest_server_id(self) -> TableModel {
        TableModel { next_guest_server_id: (self.next_guest_server_id + 1) as u32, ..self }
    }

    /// The table after host id `id` was given back.
    pub open spec fn unallocate_host_id(self, id: u32) -> TableModel {
        if id == self.next_host_id - 1 {
            TableModel { next_host_id: (self.next_host_id - 1) as u32, ..self }
        } else {
            self
        }
    }

    /// The table after a new host connection was made.
    pub open spec fn bump_generation(self) -> TableModel {
        let bumped = TableModel {
            generation: (self.generation + 1) as u64,
            next_host_id: FIRST_HOST_ID,
            ..self
        };
        TableModel {
            unresolvable: Map::empty(),
            ..bumped.map(1, 1, interfaces::interface_table("wl_display"@))
        }
    }

    /// The table after the interface name of a dropped object was noted.
    pub open spec fn remember_unresolvable(self, guest: u32, name: Seq<char>) -> TableModel {
        TableModel { unresolvable: self.unresolvable.insert(guest, name), ..self }
    }

    /// A table that knows `wl_display` alone.
    pub open spec fn fresh() -> TableModel {
        TableModel {
            pairs: Map::empty(),
            interfaces: Map::empty(),
            next_host_id: FIRST_HOST_ID,
            next_guest_server_id: FIRST_GUEST_SERVER_ID,
            generation: 0,
            mapped_in: Map::empty(),
            unresolvable: Map::empty(),
        }.map(1, 1, interfaces::interface_table("wl_display"@))
    }
}

impl View for ShadowTable {
    type V = TableModel;

    closed spec fn view(&self) -> TableModel {
        TableModel {
            pairs: id_pairs(self.guest_to_host),
            interfaces: self.interfaces@.map_values(|i: Arc<InterfaceDesc>| i@),
            next_host_id: self.next_host_id,
            next_guest_server_id: self.next_guest_server_id,
            generation: self.generation,
            mapped_in: self.mapped_in_generation@,
            unresolvable: self.unresolvable_interfaces@.map_values(|s: String| s@),
        }
    }
}

/// Translation goes both ways: one object's two ids lead to each other.
pub proof fn lemma_translation_is_mutual(t: TableModel, guest: u32, host: u32)
    requires
        t.wf(),
        guest != 0,
        host != 0,
    ensures
        t.host_id(guest) == Some(host) <==> t.guest_id(host) == Some(guest),
{
    if t.host_id(guest) == Some(host) {
        assert(t.stands_for(guest, host));
    }
}

/// The null object stands for the null object, whatever the table holds.
pub proof fn lemma_null_is_null(t: TableModel)
    ensures
        t.host_id(0) == Some(0u32),
        t.guest_id(0) == Some(0u32),
{
}

/// A mapped object translates both ways and has its interface; an object that
/// shares neither id translates as before.
pub proof fn lemma_mapped_translates(
    t: TableModel,
    guest: u32,
    host: u32,
    interface: InterfaceModel,
    other: u32,
)
    requires
        t.wf(),
        guest != 0,
        host != 0,
    ensures
        t.map(guest, host, interface).wf(),
        t.map(guest, host, interface).host_id(guest) == Some(host),
        t.map(guest, host, interface).guest_id(host) == Some(guest),
        t.map(guest, host, interface).interface(guest) == Some(interface),
        other != guest && t.host_id(other) != Some(host) ==> t.map(guest, host, interface).host_id(
            other,
        ) == t.host_id(other),
        other != host && t.guest_id(other) != Some(guest) ==> t.map(
            guest,
            host,
            interface,
        ).guest_id(other) == t.guest_id(other),
{
    let m = t.map(guest, host, interface);
    lemma_translation_is_mutual(m, guest, host);
    if other != 0 && other != host && t.guest_id(other) != Some(guest) {
        assert forall|g: u32| g != guest implies m.stands_for(g, other) == t.stands_for(g, other) by {}
        assert(!m.stands_for(guest, other));
        if exists|g: u32| m.stands_for(g, other) {
            let g = choose|g: u32| m.stands_for(g, other);
            assert(t.stands_for(g, other));
        } else if exists|g: u32| t.stands_for(g, other) {
            let g = choose|g: u32| t.stands_for(g, other);
            assert(m.stands_for(g, other) || g == guest);
        }
    }
}

/// A forgotten object translates neither way and has no interface; the others
/// translate as before.
pub proof fn lemma_removed_is_forgotten(t: TableModel, guest: u32, other: u32)
    requires
        t.wf(),
        guest != 0,
    ensures
        t.remove_guest(guest).wf(),
        t.remove_guest(guest).host_id(guest) is None,
        t.remove_guest(guest).interface(guest) is None,
        !t.remove_guest(guest).is_current(guest),
        other != 0 && t.host_id(guest) == Some(other) ==> t.remove_guest(guest).guest_id(other) is None,
        other != guest ==> t.remove_guest(guest).host_id(other) == t.host_id(other),
        t.guest_id(other) != Some(guest) ==> t.remove_guest(guest).guest_id(other) == t.guest_id(
            other,
        ),
{
    let r = t.remove_guest(guest);
    assert forall|g: u32, h: u32| #[trigger]
        r.stands_for(g, h) == (g != guest && t.stands_for(g, h)) by {}
    if other != 0 {
        if exists|g: u32| t.stands_for(g, other) {
            let g = choose|g: u32| t.stands_for(g, other);
            assert(g != guest ==> r.stands_for(g, other));
            assert(forall|k: u32| r.stands_for(k, other) ==> k == g);
        } else {
            assert(forall|k: u32| !r.stands_for(k, other));
        }
    }
}

/// A new host connection makes every mapping stale but that of `wl_display`,
/// which stays object 1 on both sides, and host ids start over.
pub proof fn lemma_bump_makes_stale(t: TableModel, id: u32)
    requires
        t.wf(),
        t.generation < u64::MAX,
    ensures
        t.bump_generation().wf(),
        t.bump_generation().next_host_id == FIRST_HOST_ID,
        t.bump_generation().is_current(1),
        t.bump_generation().host_id(1) == Some(1u32),
        t.bump_generation().guest_id(1) == Some(1u32),
        id > 1 ==> t.bump_generation().host_id(id) is None,
        id > 1 ==> t.bump_generation().guest_id(id) is None,
        id > 1 ==> !t.bump_generation().is_current(id),
        id != 1 ==> t.bump_generation().interface(id) == t.interface(id),
{
    lemma_translation_is_mutual(t.bump_generation(), 1, 1);
}

/// Giving back the host id handed out last undoes the allocation.
pub proof fn lemma_unallocate_undoes_allocate(t: TableModel)
    requires
        t.next_host_id < u32::MAX,
    ensures
        t.allocate_host_ids(1).unallocate_host_id(t.next_host_id) == t,
{
}

/// An allocation that is rolled back, mapping and all, leaves no trace: every
/// other id translates as before and the next host id is the same.
pub proof fn lemma_rollback_leaves_no_trace(
    t: TableModel,
    guest: u32,
    interface: InterfaceModel,
    other: u32,
)
    requires
        t.wf(),
        0 < t.next_host_id < u32::MAX,
        t.guest_id(t.next_host_id) is None,
        guest != 0,
        other != guest,
        t.guest_id(other) != Some(guest),
    ensures
        ({
            let mapped = t.allocate_host_ids(1).map(guest, t.next_host_id, interface);
            let back = mapped.unallocate_host_id(t.next_host_id).remove_guest(guest);
            &&& mapped.host_id(guest) == Some(t.next_host_id)
            &&& back.wf()
            &&& back.next_host_id == t.next_host_id
            &&& back.guest_id(t.next_host_id) is None
            &&& back.host_id(other) == t.host_id(other)
            &&& back.guest_id(other) == t.guest_id(other)
            &&& back.host_id(guest) is None
        }),
{
    let host = t.next_host_id;
    let a = t.allocate_host_ids(1);
    let mapped = a.map(guest, host, interface);
    let u = mapped.unallocate_host_id(host);
    assert(forall|g: u32, h: u32| a.stands_for(g, h) == t.stands_for(g, h));
    assert(forall|g: u32, h: u32| u.stands_for(g, h) == mapped.stands_for(g, h));
    assert forall|x: u32| a.guest_id(x) == t.guest_id(x) by {
        assert(forall|g: u32| a.stands_for(g, x) == t.stands_for(g, x));
    }
    lemma_mapped_translates(a, guest, host, interface, other);
    lemma_mapped_translates(a, guest, host, interface, host);
    lemma_removed_is_forgotten(u, guest, other);
    lemma_removed_is_forgotten(u, guest, host);
    if other != 0 && t.host_id(other) == Some(host) {
        assert(t.stands_for(other, host));
    }
}

/// The description of `wl_display`.
fn display_interface() -> (r: InterfaceDesc)
    ensures
        r@ == interfaces::interface_table("wl_display"@),
{
    let found = lookup_interface("wl_display");
    proof {
        assert(interfaces::bindable_names()[0] == "wl_display"@);
    }
    found.unwrap()
}

impl ShadowTable {
    /// A table in which `wl_display` is object 1 on both sides.
    pub fn new() -> (r: ShadowTable)
        ensures
            r@ == TableModel::fresh(),
            r@.wf(),
    {
        let mut table = ShadowTable {
            guest_to_host: pairs_new(),
            interfaces: HashMap::new(),
            next_host_id: FIRST_HOST_ID,
            next_guest_server_id: FIRST_GUEST_SERVER_ID,
            generation: 0,
            mapped_in_generation: HashMap::new(),
            unresolvable_interfaces: HashMap::new(),
        };
        assert(table@.pairs =~= Map::empty());
        assert(table@.interfaces =~= Map::empty());
        assert(table@.unresolvable =~= Map::empty());
        table.map(1, 1, Arc::new(display_interface()));
        table
    }

    /// Enters a new host connection: host ids start over, every mapping made
    /// so far goes stale, and `wl_display` is mapped afresh.
    pub fn bump_generation(&mut self)
        requires
            old(self)@.wf(),
            old(self)@.generation < u64::MAX,
        ensures
            final(self)@ == old(self)@.bump_generation(),
            final(self)@.wf(),
    {
        self.generation = self.generation + 1;
        self.next_host_id = FIRST_HOST_ID;
        self.map(1, 1, Arc::new(display_interface()));
        self.unresolvable_interfaces.clear();
        assert(self@.unresolvable =~= Map::empty());
    }

    /// Whether `guest_id` was mapped against the present host connection.
    pub fn is_current_generation(&self, guest_id: u32) -> (r: bool)
        ensures
            r == self@.is_current(guest_id),
    {
        match self.mapped_in_generation.get(&guest_id) {
            Some(generation) => *generation == self.generation,
            None => false,
        }
    }

    /// The host id and the guest id that will be handed out next.
    pub fn next_ids(&self) -> (r: (u32, u32))
        ensures
            r == (self@.next_host_id, self@.next_guest_server_id),
    {
        (self.next_host_id, self.next_guest_server_id)
    }

    /// Whether one more host connection can be told apart from those before.
    pub fn can_bump(&self) -> (r: bool)
        ensures
            r == (self@.generation < u64::MAX),
    {
        self.generation < u64::MAX
    }

    /// Hands out the next host id.
    pub fn allocate_host_id(&mut self) -> (r: u32)
        requires
            old(self)@.next_host_id < u32::MAX,
        ensures
            r == old(self)@.next_host_id,
            final(self)@ == old(self)@.allocate_host_ids(1),
    {
        let id: u32 = self.next_host_id;
        self.next_host_id = self.next_host_id + 1;
        id
    }

    /// Takes back a host id that was never sent to the host.  Does nothing
    /// unless it is the one handed out last.
    pub fn unallocate_host_id(&mut self, id: u32)
        requires
            old(self)@.next_host_id > 0,
        ensures
            final(self)@ == old(self)@.unallocate_host_id(id),
    {
        if id == self.next_host_id - 1 {
            self.next_host_id = self.next_host_id - 1;
        }
    }

    /// Hands out the next guest id for an object of the host's making.
    pub fn allocate_guest_server_id(&mut self) -> (r: u32)
        requires
            old(self)@.next_guest_server_id < u32::MAX,
        ensures
            r == old(self)@.next_guest_server_id,
            final(self)@ == old(self)@.allocate_guest_server_id(),
    {
        let id: u32 = self.next_guest_server_id;
        self.next_guest_server_id = self.next_guest_server_id + 1;
        id
    }

    /// Records that `guest_id` and `host_id` are one object of the given
    /// interface.
    pub fn map(&mut self, guest_id: u32, host_id: u32, interface: Arc<InterfaceDesc>)
        ensures
            final(self)@ == old(self)@.map(guest_id, host_id, interface@),
            old(self)@.wf() ==> final(self)@.wf(),
    {
        pairs_insert(&mut self.guest_to_host, guest_id, host_id);
        self.interfaces.insert(guest_id, interface);
        self.mapped_in_generation.insert(guest_id, self.generation);
        assert(self@.interfaces =~= old(self)@.interfaces.insert(guest_id, interface@));
    }

    /// Translates a guest id to the host's id for the same object.
    pub fn host_id(&self, guest_id: u32) -> (r: Option<u32>)
        ensures
            r == self@.host_id(guest_id),
    {
        if guest_id == 0 {
            return Some(0);
        }
        if !self.is_current_generation(guest_id) {
            return None;
        }
        pairs_right(&self.guest_to_host, guest_id)
    }

    /// Translates a host id to the client's id for the same object.
    pub fn guest_id(&self, host_id: u32) -> (r: Option<u32>)
        requires
            self@.wf(),
        ensures
            r == self@.guest_id(host_id),
    {
        if host_id == 0 {
            return Some(0);
        }
        match pairs_left(&self.guest_to_host, host_id) {
            None => {
                assert forall|g: u32| !self@.stands_for(g, host_id) by {
                    if self@.pairs.contains_key(g) {
                        assert(id_pairs(self.guest_to_host)[g] != host_id);
                    }
                }
                None
            },
            Some(guest_id) => {
                assert(self@.stands_for(guest_id, host_id));
                if self.is_current_generation(guest_id) {
                    Some(guest_id)
                } else {
                    None
                }
            },
        }
    }

    /// The interface of a guest object.
    pub fn interface(&self, guest_id: u32) -> (r: Option<Arc<InterfaceDesc>>)
        ensures
            match r {
                Some(i) => self@.interface(guest_id) == Some(i@),
                None => self@.interface(guest_id) is None,
            },
    {
        match self.interfaces.get(&guest_id) {
            Some(i) => Some(share(i)),
            None => None,
        }
    }

    /// Notes which interface a guest id would have had, had its creation not
    /// been dropped.
    pub fn remember_unresolvable_interface(&mut self, guest_id: u32, interface_name: String)
        ensures
            final(self)@ == old(self)@.remember_unresolvable(guest_id, interface_name@),
    {
        self.unresolvable_interfaces.insert(guest_id, interface_name);
        assert(self@.unresolvable =~= old(self)@.unresolvable.insert(guest_id, interface_name@));
    }

    /// The name noted by [`Self::remember_unresolvable_interface`].
    pub fn unresolvable_interface_name(&self, guest_id: u32) -> (r: Option<&str>)
        ensures
            match r {
                Some(name) => self@.unresolvable.contains_key(guest_id)
                    && self@.unresolvable[guest_id] == name@,
                None => !self@.unresolvable.contains_key(guest_id),
            },
    {
        match self.unresolvable_interfaces.get(&guest_id) {
            Some(name) => Some(name.as_str()),
            None => None,
        }
    }

    /// The guest id of the (normally only) object of the interface `name`: the
    /// lowest one.
    pub fn find_guest_id_by_interface_name(&self, name: &str) -> (r: Option<u32>)
        ensures
            r == self@.first_named(name@),
    {
        let ids = keys_of(&self.interfaces);
        let mut found: Option<u32> = None;
        let mut i: usize = 0;
        while i < ids.len()
            invariant
                i <= ids.len(),
                ids@.to_set() == self.interfaces@.dom(),
                match found {
                    Some(g) => self@.is_a(g, name@) && forall|j: int|
                        0 <= j < i && self@.is_a(#[trigger] ids@[j], name@) ==> g <= ids@[j],
                    None => forall|j: int| 0 <= j < i ==> !self@.is_a(#[trigger] ids@[j], name@),
                },
            decreases ids.len() - i,
        {
            let id: u32 = ids[i];
            assert(ids@.to_set().contains(id));
            if let Some(interface) = self.interfaces.get(&id) {
                if same_text(interface.name.as_str(), name) {
                    found = match found {
                        Some(g) if g <= id => Some(g),
                        _ => Some(id),
                    };
                }
            }
            i += 1;
        }
        proof {
            assert forall|g: u32| self@.is_a(g, name@) implies ids@.contains(g) by {
                assert(ids@.to_set().contains(g));
            }
            if let Some(g) = found {
                assert(self@.is_first(g, name@));
            }
        }
        found
    }

    /// Forgets a guest id entirely.
    pub fn remove_guest(&mut self, guest_id: u32)
        ensures
            final(self)@ == old(self)@.remove_guest(guest_id),
            old(self)@.wf() ==> final(self)@.wf(),
    {
        pairs_remove(&mut self.guest_to_host, guest_id);
        self.interfaces.remove(&guest_id);
        self.mapped_in_generation.remove(&guest_id);
        self.unresolvable_interfaces.remove(&guest_id);
        assert(self@.interfaces =~= old(self)@.interfaces.remove(guest_id));
        assert(self@.unresolvable =~= old(self)@.unresolvable.remove(guest_id));
    }
}

impl Default for ShadowTable {
    fn default() -> (r: ShadowTable)
        ensures
            r@ == TableModel::fresh(),
            r@.wf(),
    {
        ShadowTable::new()
    }
}

} // verus!
