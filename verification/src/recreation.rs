//! Recipes for creating tracked objects again on a fresh host connection.
//!
//! Only a narrow set of objects is tracked: the chain from the globals down to
//! surfaces and toplevels, the buffers behind them, a seat's input devices,
//! and the two objects that keep a surface at its right size.  Their request
//! shapes are few and fixed, so each has a variant of its own.
use crate::schema::{InterfaceDesc, InterfaceModel};
use crate::text;
use std::sync::Arc;
use vstd::prelude::*;

verus! {

/// What is needed to create one guest object again once its parent, if it has
/// one, exists again.  `F` is a handle to a file descriptor, closed when its
/// last holder lets go of it.
pub enum Recreatable<F> {
    /// `wl_registry.bind`.  `version` is what the client itself asked for.
    Global { interface: Arc<InterfaceDesc>, version: u32 },
    /// `wl_compositor.create_surface`.
    Surface { parent_guest_id: u32 },
    /// `xdg_wm_base.get_xdg_surface`.
    XdgSurface { parent_guest_id: u32, surface_guest_id: u32 },
    /// `xdg_surface.get_toplevel`, then `set_title` and `set_app_id` as far as
    /// the client has sent them.
    XdgToplevel { parent_guest_id: u32, title: Option<String>, app_id: Option<String> },
    /// `wl_shm.create_pool`, with the proxy's own copy of the memory's fd.
    ShmPool { wl_shm_guest_id: u32, fd: Arc<F>, size: i32 },
    /// `wl_shm_pool.create_buffer`.
    ShmBuffer { pool_guest_id: u32, offset: i32, width: i32, height: i32, stride: i32, format: u32 },
    /// `zwp_linux_dmabuf_v1.create_params`, one `add` per plane, then
    /// `create_immed`.  The params object in between is thrown away.
    DmabufBuffer {
        dmabuf_guest_id: u32,
        width: i32,
        height: i32,
        format: u32,
        flags: u32,
        planes: Vec<DmabufPlane<F>>,
    },
    /// `wl_seat.get_pointer`, `get_keyboard` or `get_touch`.
    SeatDevice { seat_guest_id: u32, kind: SeatDeviceKind },
    /// `wp_viewporter.get_viewport`, then `set_destination` if the client has
    /// sent one.
    Viewport { viewporter_guest_id: u32, surface_guest_id: u32, destination: Option<(i32, i32)> },
    /// `wp_fractional_scale_manager_v1.get_fractional_scale`.
    FractionalScale { manager_guest_id: u32, surface_guest_id: u32 },
}

/// Which `wl_seat` request made an input device.
#[derive(Debug, Clone, Copy, PartialEq, Eq, Structural)]
pub enum SeatDeviceKind {
    Pointer,
    Keyboard,
    Touch,
}

impl SeatDeviceKind {
    /// The name of that request.
    pub open spec fn request(self) -> Seq<char> {
        match self {
            SeatDeviceKind::Pointer => "get_pointer"@,
            SeatDeviceKind::Keyboard => "get_keyboard"@,
            SeatDeviceKind::Touch => "get_touch"@,
        }
    }

    /// The name of the `wl_seat` request that creates this kind of device.
    pub fn request_name(self) -> (r: &'static str)
        ensures
            r@ == self.request(),
    {
        match self {
            SeatDeviceKind::Pointer => "get_pointer",
            SeatDeviceKind::Keyboard => "get_keyboard",
            SeatDeviceKind::Touch => "get_touch",
        }
    }
}

/// One plane of a dmabuf-backed buffer, as one `add` request described it.
pub struct DmabufPlane<F> {
    pub fd: Arc<F>,
    pub plane_idx: u32,
    pub offset: u32,
    pub stride: u32,
    /// The format modifier, which travels as two words, high word first.
    pub modifier: u64,
}

/// What a [`Recreatable`] says.
#[verifier::ext_equal]
pub enum Recipe<F> {
    Global { interface: InterfaceModel, version: u32 },
    Surface { parent_guest_id: u32 },
    XdgSurface { parent_guest_id: u32, surface_guest_id: u32 },
    XdgToplevel { parent_guest_id: u32, title: Option<Seq<char>>, app_id: Option<Seq<char>> },
    ShmPool { wl_shm_guest_id: u32, fd: Arc<F>, size: i32 },
    ShmBuffer { pool_guest_id: u32, offset: i32, width: i32, height: i32, stride: i32, format: u32 },
    DmabufBuffer {
        dmabuf_guest_id: u32,
        width: i32,
        height: i32,
        format: u32,
        flags: u32,
        planes: Seq<DmabufPlane<F>>,
    },
    SeatDevice { seat_guest_id: u32, kind: SeatDeviceKind },
    Viewport { viewporter_guest_id: u32, surface_guest_id: u32, destination: Option<(i32, i32)> },
    FractionalScale { manager_guest_id: u32, surface_guest_id: u32 },
}

impl<F> View for Recreatable<F> {
    type V = Recipe<F>;

    open spec fn view(&self) -> Recipe<F> {
        match *self {
            Recreatable::Global { interface, version } => Recipe::Global {
                interface: interface@,
                version,
            },
            Recreatable::Surface { parent_guest_id } => Recipe::Surface { parent_guest_id },
            Recreatable::XdgSurface { parent_guest_id, surface_guest_id } => Recipe::XdgSurface {
                parent_guest_id,
                surface_guest_id,
            },
            Recreatable::XdgToplevel { parent_guest_id, title, app_id } => Recipe::XdgToplevel {
                parent_guest_id,
                title: text::text_opt(title),
                app_id: text::text_opt(app_id),
            },
            Recreatable::ShmPool { wl_shm_guest_id, fd, size } => Recipe::ShmPool {
                wl_shm_guest_id,
                fd,
                size,
            },
            Recreatable::ShmBuffer { pool_guest_id, offset, width, height, stride, format } =>
                Recipe::ShmBuffer { pool_guest_id, offset, width, height, stride, format },
            Recreatable::DmabufBuffer { dmabuf_guest_id, width, height, format, flags, planes } =>
                Recipe::DmabufBuffer {
                dmabuf_guest_id,
                width,
                height,
                format,
                flags,
                planes: planes@,
            },
            Recreatable::SeatDevice { seat_guest_id, kind } => Recipe::SeatDevice {
                seat_guest_id,
                kind,
            },
            Recreatable::Viewport { viewporter_guest_id, surface_guest_id, destination } =>
                Recipe::Viewport { viewporter_guest_id, surface_guest_id, destination },
            Recreatable::FractionalScale { manager_guest_id, surface_guest_id } =>
                Recipe::FractionalScale { manager_guest_id, surface_guest_id },
        }
    }
}

/// The recipes in the order in which they were recorded.  A child can only be
/// recorded once its parent exists, so replaying in this order always finds
/// the parent in place.
pub struct RecreationGraph<F> {
    recipes: Vec<(u32, Recreatable<F>)>,
}

/// Which recipes an update looks for.
pub enum Shape {
    Any,
    ShmPool,
    XdgToplevel,
    Viewport,
}

impl Shape {
    /// Whether a recipe is of this shape.
    pub open spec fn fits<F>(self, recipe: Recipe<F>) -> bool {
        match self {
            Shape::Any => true,
            Shape::ShmPool => recipe is ShmPool,
            Shape::XdgToplevel => recipe is XdgToplevel,
            Shape::Viewport => recipe is Viewport,
        }
    }
}

/// The position of the last recipe of `guest_id` and of that shape among the
/// first `n`.
pub open spec fn last_of<F>(
    recipes: Seq<(u32, Recipe<F>)>,
    guest_id: u32,
    shape: Shape,
    n: int,
) -> Option<int>
    decreases n,
{
    if n <= 0 {
        None
    } else if recipes[n - 1].0 == guest_id && shape.fits(recipes[n - 1].1) {
        Some(n - 1)
    } else {
        last_of(recipes, guest_id, shape, n - 1)
    }
}

/// The most recent recipe of `guest_id`.
pub open spec fn recipe_of<F>(recipes: Seq<(u32, Recipe<F>)>, guest_id: u32) -> Option<Recipe<F>> {
    match last_of(recipes, guest_id, Shape::Any, recipes.len() as int) {
        Some(i) => Some(recipes[i].1),
        None => None,
    }
}

/// The recipes without those of `guest_id`, in order.
pub open spec fn without<F>(recipes: Seq<(u32, Recipe<F>)>, guest_id: u32) -> Seq<
    (u32, Recipe<F>),
> {
    recipes.filter(|e: (u32, Recipe<F>)| e.0 != guest_id)
}

/// The recipes with a pool's size changed.
pub open spec fn with_pool_size<F>(
    recipes: Seq<(u32, Recipe<F>)>,
    guest_id: u32,
    size: i32,
) -> Seq<(u32, Recipe<F>)> {
    match last_of(recipes, guest_id, Shape::ShmPool, recipes.len() as int) {
        Some(i) => match recipes[i].1 {
            Recipe::ShmPool { wl_shm_guest_id, fd, .. } => recipes.update(
                i,
                (guest_id, Recipe::ShmPool { wl_shm_guest_id, fd, size }),
            ),
            _ => recipes,
        },
        None => recipes,
    }
}

/// The recipes with a toplevel's title changed.
pub open spec fn with_title<F>(
    recipes: Seq<(u32, Recipe<F>)>,
    guest_id: u32,
    new_title: Seq<char>,
) -> Seq<(u32, Recipe<F>)> {
    match last_of(recipes, guest_id, Shape::XdgToplevel, recipes.len() as int) {
        Some(i) => match recipes[i].1 {
            Recipe::XdgToplevel { parent_guest_id, app_id, .. } => recipes.update(
                i,
                (guest_id, Recipe::XdgToplevel { parent_guest_id, title: Some(new_title), app_id }),
            ),
            _ => recipes,
        },
        None => recipes,
    }
}

/// The recipes with a toplevel's application id changed.
pub open spec fn with_app_id<F>(
    recipes: Seq<(u32, Recipe<F>)>,
    guest_id: u32,
    new_app_id: Seq<char>,
) -> Seq<(u32, Recipe<F>)> {
    match last_of(recipes, guest_id, Shape::XdgToplevel, recipes.len() as int) {
        Some(i) => match recipes[i].1 {
            Recipe::XdgToplevel { parent_guest_id, title, .. } => recipes.update(
                i,
                (guest_id, Recipe::XdgToplevel { parent_guest_id, title, app_id: Some(new_app_id) }),
            ),
            _ => recipes,
        },
        None => recipes,
    }
}

/// The recipes with a viewport's destination changed.
pub open spec fn with_destination<F>(
    recipes: Seq<(u32, Recipe<F>)>,
    guest_id: u32,
    width: i32,
    height: i32,
) -> Seq<(u32, Recipe<F>)> {
    match last_of(recipes, guest_id, Shape::Viewport, recipes.len() as int) {
        Some(i) => match recipes[i].1 {
            Recipe::Viewport { viewporter_guest_id, surface_guest_id, .. } => recipes.update(
                i,
                (
                    guest_id,
                    Recipe::Viewport {
                        viewporter_guest_id,
                        surface_guest_id,
                        destination: Some((width, height)),
                    },
                ),
            ),
            _ => recipes,
        },
        None => recipes,
    }
}

/// What a list of recorded recipes says.
pub open spec fn recipe_models<F>(recipes: Seq<(u32, Recreatable<F>)>) -> Seq<(u32, Recipe<F>)> {
    recipes.map_values(|e: (u32, Recreatable<F>)| (e.0, e.1@))
}

impl<F> View for RecreationGraph<F> {
    type V = Seq<(u32, Recipe<F>)>;

    closed spec fn view(&self) -> Seq<(u32, Recipe<F>)> {
        recipe_models(self.recipes@)
    }
}

/// [`last_of`] finds the last match: nothing behind it matches.
pub proof fn lemma_last_of<F>(recipes: Seq<(u32, Recipe<F>)>, guest_id: u32, shape: Shape, n: int)
    requires
        0 <= n <= recipes.len(),
    ensures
        match last_of(recipes, guest_id, shape, n) {
            Some(i) => 0 <= i < n && recipes[i].0 == guest_id && shape.fits(recipes[i].1)
                && forall|j: int|
                i < j < n ==> !((#[trigger] recipes[j]).0 == guest_id && shape.fits(recipes[j].1)),
            None => forall|j: int|
                0 <= j < n ==> !((#[trigger] recipes[j]).0 == guest_id && shape.fits(recipes[j].1)),
        },
    decreases n,
{
    if n > 0 && !(recipes[n - 1].0 == guest_id && shape.fits(recipes[n - 1].1)) {
        lemma_last_of(recipes, guest_id, shape, n - 1);
    }
}

/// Forgetting looks at each recipe on its own: the last one stays unless it is
/// of `guest_id`.
proof fn lemma_without_last<F>(recipes: Seq<(u32, Recipe<F>)>, guest_id: u32)
    requires
        recipes.len() > 0,
    ensures
        without(recipes, guest_id) == (if recipes.last().0 == guest_id {
            without(recipes.drop_last(), guest_id)
        } else {
            without(recipes.drop_last(), guest_id).push(recipes.last())
        }),
{
    reveal(Seq::filter);
}

/// What is found does not depend on what stands behind the first `n`.
proof fn lemma_last_of_prefix<F>(
    a: Seq<(u32, Recipe<F>)>,
    b: Seq<(u32, Recipe<F>)>,
    guest_id: u32,
    shape: Shape,
    n: int,
)
    requires
        0 <= n <= a.len(),
        n <= b.len(),
        forall|i: int| 0 <= i < n ==> a[i] == b[i],
    ensures
        last_of(a, guest_id, shape, n) == last_of(b, guest_id, shape, n),
    decreases n,
{
    if n > 0 {
        lemma_last_of_prefix(a, b, guest_id, shape, n - 1);
    }
}

/// What was recorded last is what is found; the recipes of other ids are found
/// as before.
pub proof fn lemma_recorded_is_found<F>(
    recipes: Seq<(u32, Recipe<F>)>,
    guest_id: u32,
    recipe: Recipe<F>,
    other: u32,
)
    ensures
        recipe_of(recipes.push((guest_id, recipe)), guest_id) == Some(recipe),
        other != guest_id ==> recipe_of(recipes.push((guest_id, recipe)), other) == recipe_of(
            recipes,
            other,
        ),
{
    let n = recipes.len() as int;
    lemma_last_of_prefix(recipes.push((guest_id, recipe)), recipes, other, Shape::Any, n);
    lemma_last_of(recipes, other, Shape::Any, n);
}

/// A forgotten id has no recipe left; the recipes of other ids are found as
/// before.
pub proof fn lemma_removed_is_not_found<F>(
    recipes: Seq<(u32, Recipe<F>)>,
    guest_id: u32,
    other: u32,
)
    ensures
        recipe_of(without(recipes, guest_id), guest_id) is None,
        other != guest_id ==> recipe_of(without(recipes, guest_id), other) == recipe_of(
            recipes,
            other,
        ),
    decreases recipes.len(),
{
    if recipes.len() == 0 {
        reveal(Seq::filter);
    } else {
        let init = recipes.drop_last();
        lemma_removed_is_not_found(init, guest_id, other);
        lemma_without_last(recipes, guest_id);
        let (id, recipe) = recipes.last();
        assert(recipes =~= init.push((id, recipe)));
        lemma_recorded_is_found(init, id, recipe, other);
        if id != guest_id {
            lemma_recorded_is_found(without(init, guest_id), id, recipe, other);
            lemma_recorded_is_found(without(init, guest_id), id, recipe, guest_id);
        }
    }
}

/// Forgetting and recording keep the order of what stays: where one recipe
/// stands before another, it still does once a third id is forgotten.
pub proof fn lemma_order_is_kept<F>(
    recipes: Seq<(u32, Recipe<F>)>,
    guest_id: u32,
    parent: int,
    child: int,
)
    requires
        0 <= parent < child < recipes.len(),
        recipes[parent].0 != guest_id,
        recipes[child].0 != guest_id,
    ensures
        exists|p: int, c: int|
            0 <= p < c < without(recipes, guest_id).len() && #[trigger] without(recipes, guest_id)[p]
                == recipes[parent] && #[trigger] without(recipes, guest_id)[c] == recipes[child],
    decreases recipes.len(),
{
    let init = recipes.drop_last();
    let kept = without(recipes, guest_id);
    lemma_without_last(recipes, guest_id);
    if child < init.len() {
        lemma_order_is_kept(init, guest_id, parent, child);
        let w = without(init, guest_id);
        let (p, c) = choose|p: int, c: int|
            0 <= p < c < w.len() && #[trigger] w[p] == init[parent] && #[trigger] w[c]
                == init[child];
        assert(kept[p] == recipes[parent] && kept[c] == recipes[child]);
    } else {
        lemma_kept_somewhere(init, guest_id, parent);
        let w = without(init, guest_id);
        let p = choose|p: int| 0 <= p < w.len() && #[trigger] w[p] == init[parent];
        assert(kept[p] == recipes[parent]);
        assert(kept[kept.len() - 1] == recipes[child]);
    }
}

/// A recipe of another id stays.
proof fn lemma_kept_somewhere<F>(recipes: Seq<(u32, Recipe<F>)>, guest_id: u32, i: int)
    requires
        0 <= i < recipes.len(),
        recipes[i].0 != guest_id,
    ensures
        exists|p: int|
            0 <= p < without(recipes, guest_id).len() && #[trigger] without(recipes, guest_id)[p]
                == recipes[i],
    decreases recipes.len(),
{
    let init = recipes.drop_last();
    let kept = without(recipes, guest_id);
    lemma_without_last(recipes, guest_id);
    if i < init.len() {
        lemma_kept_somewhere(init, guest_id, i);
        let w = without(init, guest_id);
        let p = choose|p: int| 0 <= p < w.len() && #[trigger] w[p] == init[i];
        assert(kept[p] == recipes[i]);
    } else {
        assert(kept[kept.len() - 1] == recipes[i]);
    }
}

/// Replacing a recipe in place: its id now finds the new recipe if it found
/// the old one, and the other ids find what they found.
proof fn lemma_replaced_in_place<F>(
    recipes: Seq<(u32, Recipe<F>)>,
    at: int,
    recipe: Recipe<F>,
    other: u32,
    n: int,
)
    requires
        0 <= at < recipes.len(),
        0 <= n <= recipes.len(),
    ensures
        ({
            let guest_id = recipes[at].0;
            let changed = recipes.update(at, (guest_id, recipe));
            &&& last_of(changed, guest_id, Shape::Any, n) == last_of(
                recipes,
                guest_id,
                Shape::Any,
                n,
            )
            &&& last_of(changed, other, Shape::Any, n) == last_of(recipes, other, Shape::Any, n)
        }),
    decreases n,
{
    if n > 0 {
        lemma_replaced_in_place(recipes, at, recipe, other, n - 1);
    }
}

/// The last recipe of an id is also the last of its own shape.
proof fn lemma_most_recent_has_shape<F>(
    recipes: Seq<(u32, Recipe<F>)>,
    guest_id: u32,
    shape: Shape,
    n: int,
)
    requires
        0 <= n <= recipes.len(),
        last_of(recipes, guest_id, Shape::Any, n) matches Some(i) && shape.fits(recipes[i].1),
    ensures
        last_of(recipes, guest_id, shape, n) == last_of(recipes, guest_id, Shape::Any, n),
    decreases n,
{
    if n > 0 && recipes[n - 1].0 != guest_id {
        lemma_most_recent_has_shape(recipes, guest_id, shape, n - 1);
    }
}

/// A resized pool is created again at its new size; nothing else changes.
pub proof fn lemma_resize_is_replayed<F>(
    recipes: Seq<(u32, Recipe<F>)>,
    guest_id: u32,
    new_size: i32,
    other: u32,
)
    ensures
        recipe_of(recipes, guest_id) matches Some(Recipe::ShmPool { wl_shm_guest_id, fd, .. })
            ==> recipe_of(with_pool_size(recipes, guest_id, new_size), guest_id) == Some(
            Recipe::ShmPool { wl_shm_guest_id, fd, size: new_size },
        ),
        other != guest_id ==> recipe_of(with_pool_size(recipes, guest_id, new_size), other)
            == recipe_of(recipes, other),
        with_pool_size(recipes, guest_id, new_size).len() == recipes.len(),
{
    let n = recipes.len() as int;
    lemma_last_of(recipes, guest_id, Shape::ShmPool, n);
    lemma_last_of(recipes, guest_id, Shape::Any, n);
    lemma_last_of(recipes, other, Shape::Any, n);
    if recipe_of(recipes, guest_id) matches Some(r) && r is ShmPool {
        lemma_most_recent_has_shape(recipes, guest_id, Shape::ShmPool, n);
    }
    if let Some(i) = last_of(recipes, guest_id, Shape::ShmPool, n) {
        let changed = with_pool_size(recipes, guest_id, new_size);
        lemma_replaced_in_place(recipes, i, changed[i].1, other, n);
    }
}

/// A toplevel is created again with the title set last; nothing else changes.
pub proof fn lemma_title_is_replayed<F>(
    recipes: Seq<(u32, Recipe<F>)>,
    guest_id: u32,
    new_title: Seq<char>,
    other: u32,
)
    ensures
        recipe_of(recipes, guest_id) matches Some(Recipe::XdgToplevel { parent_guest_id, app_id, .. })
            ==> recipe_of(with_title(recipes, guest_id, new_title), guest_id) == Some(
            Recipe::<F>::XdgToplevel { parent_guest_id, title: Some(new_title), app_id },
        ),
        other != guest_id ==> recipe_of(with_title(recipes, guest_id, new_title), other)
            == recipe_of(recipes, other),
        with_title(recipes, guest_id, new_title).len() == recipes.len(),
{
    let n = recipes.len() as int;
    lemma_last_of(recipes, guest_id, Shape::XdgToplevel, n);
    lemma_last_of(recipes, guest_id, Shape::Any, n);
    lemma_last_of(recipes, other, Shape::Any, n);
    if recipe_of(recipes, guest_id) matches Some(r) && r is XdgToplevel {
        lemma_most_recent_has_shape(recipes, guest_id, Shape::XdgToplevel, n);
    }
    if let Some(i) = last_of(recipes, guest_id, Shape::XdgToplevel, n) {
        let changed = with_title(recipes, guest_id, new_title);
        lemma_replaced_in_place(recipes, i, changed[i].1, other, n);
    }
}

/// A toplevel is created again with the application id set last; nothing else
/// changes.
pub proof fn lemma_app_id_is_replayed<F>(
    recipes: Seq<(u32, Recipe<F>)>,
    guest_id: u32,
    new_app_id: Seq<char>,
    other: u32,
)
    ensures
        recipe_of(recipes, guest_id) matches Some(Recipe::XdgToplevel { parent_guest_id, title, .. })
            ==> recipe_of(with_app_id(recipes, guest_id, new_app_id), guest_id) == Some(
            Recipe::<F>::XdgToplevel { parent_guest_id, title, app_id: Some(new_app_id) },
        ),
        other != guest_id ==> recipe_of(with_app_id(recipes, guest_id, new_app_id), other)
            == recipe_of(recipes, other),
        with_app_id(recipes, guest_id, new_app_id).len() == recipes.len(),
{
    let n = recipes.len() as int;
    lemma_last_of(recipes, guest_id, Shape::XdgToplevel, n);
    lemma_last_of(recipes, guest_id, Shape::Any, n);
    lemma_last_of(recipes, other, Shape::Any, n);
    if recipe_of(recipes, guest_id) matches Some(r) && r is XdgToplevel {
        lemma_most_recent_has_shape(recipes, guest_id, Shape::XdgToplevel, n);
    }
    if let Some(i) = last_of(recipes, guest_id, Shape::XdgToplevel, n) {
        let changed = with_app_id(recipes, guest_id, new_app_id);
        lemma_replaced_in_place(recipes, i, changed[i].1, other, n);
    }
}

/// A viewport is created again with the destination set last; nothing else
/// changes.
pub proof fn lemma_destination_is_replayed<F>(
    recipes: Seq<(u32, Recipe<F>)>,
    guest_id: u32,
    width: i32,
    height: i32,
    other: u32,
)
    ensures
        recipe_of(recipes, guest_id) matches Some(
            Recipe::Viewport { viewporter_guest_id, surface_guest_id, .. },
        ) ==> recipe_of(with_destination(recipes, guest_id, width, height), guest_id) == Some(
            Recipe::<F>::Viewport {
                viewporter_guest_id,
                surface_guest_id,
                destination: Some((width, height)),
            },
        ),
        other != guest_id ==> recipe_of(with_destination(recipes, guest_id, width, height), other)
            == recipe_of(recipes, other),
        with_destination(recipes, guest_id, width, height).len() == recipes.len(),
{
    let n = recipes.len() as int;
    lemma_last_of(recipes, guest_id, Shape::Viewport, n);
    lemma_last_of(recipes, guest_id, Shape::Any, n);
    lemma_last_of(recipes, other, Shape::Any, n);
    if recipe_of(recipes, guest_id) matches Some(r) && r is Viewport {
        lemma_most_recent_has_shape(recipes, guest_id, Shape::Viewport, n);
    }
    if let Some(i) = last_of(recipes, guest_id, Shape::Viewport, n) {
        let changed = with_destination(recipes, guest_id, width, height);
        lemma_replaced_in_place(recipes, i, changed[i].1, other, n);
    }
}

impl<F> Recreatable<F> {
    fn is_shape(&self, shape: &Shape) -> (r: bool)
        ensures
            r == shape.fits(self@),
    {
        match (shape, self) {
            (Shape::Any, _) => true,
            (Shape::ShmPool, Recreatable::ShmPool { .. }) => true,
            (Shape::XdgToplevel, Recreatable::XdgToplevel { .. }) => true,
            (Shape::Viewport, Recreatable::Viewport { .. }) => true,
            _ => false,
        }
    }
}

impl<F> RecreationGraph<F> {
    /// A graph without recipes.
    pub fn new() -> (r: RecreationGraph<F>)
        ensures
            r@ == Seq::<(u32, Recipe<F>)>::empty(),
    {
        let graph = RecreationGraph { recipes: Vec::new() };
        assert(graph@ =~= Seq::empty());
        graph
    }

    /// Records how to create `guest_id` again, behind everything recorded so
    /// far.
    pub fn record(&mut self, guest_id: u32, recipe: Recreatable<F>)
        ensures
            final(self)@ == old(self)@.push((guest_id, recipe@)),
    {
        self.recipes.push((guest_id, recipe));
        assert(self@ =~= old(self)@.push((guest_id, recipe@)));
    }

    /// The position of the last recipe of `guest_id` and of that shape.
    fn position(&self, guest_id: u32, shape: Shape) -> (r: Option<usize>)
        ensures
            match r {
                Some(i) => last_of(self@, guest_id, shape, self@.len() as int) == Some(i as int) && i
                    < self.recipes@.len() && self@[i as int].0 == guest_id && shape.fits(
                    self@[i as int].1,
                ),
                None => last_of(self@, guest_id, shape, self@.len() as int) is None,
            },
    {
        let mut n: usize = self.recipes.len();
        while n > 0
            invariant
                n <= self.recipes@.len(),
                last_of(self@, guest_id, shape, self@.len() as int) == last_of(
                    self@,
                    guest_id,
                    shape,
                    n as int,
                ),
            decreases n,
        {
            let entry = &self.recipes[n - 1];
            if entry.0 == guest_id && entry.1.is_shape(&shape) {
                return Some(n - 1);
            }
            n -= 1;
        }
        None
    }

    /// The most recent recipe of `guest_id`.
    pub fn recipe_for(&self, guest_id: u32) -> (r: Option<&Recreatable<F>>)
        ensures
            match r {
                Some(recipe) => recipe_of(self@, guest_id) == Some(recipe@),
                None => recipe_of(self@, guest_id) is None,
            },
    {
        match self.position(guest_id, Shape::Any) {
            Some(i) => Some(&self.recipes[i].1),
            None => None,
        }
    }

    /// Forgets every recipe of `guest_id`.
    pub fn remove(&mut self, guest_id: u32)
        ensures
            final(self)@ == without(old(self)@, guest_id),
    {
        let ghost all = self@;
        let mut recipes: Vec<(u32, Recreatable<F>)> = Vec::new();
        std::mem::swap(&mut recipes, &mut self.recipes);
        let ghost given = recipes@;
        let mut kept: Vec<(u32, Recreatable<F>)> = Vec::new();
        proof {
            reveal(Seq::filter);
            assert(recipe_models(kept@) =~= without(all.take(0), guest_id));
        }
        for entry in it: recipes.into_iter()
            invariant
                it.seq() == given,
                all == recipe_models(given),
                recipe_models(kept@) == without(all.take(it.index()), guest_id),
        {
            proof {
                assert(entry == given[it.index()]);
                lemma_without_last(all.take(it.index() + 1), guest_id);
                assert(all.take(it.index() + 1).drop_last() =~= all.take(it.index()));
            }
            if entry.0 != guest_id {
                let ghost before = kept@;
                kept.push(entry);
                assert(recipe_models(kept@) =~= recipe_models(before).push((entry.0, entry.1@)));
            }
        }
        self.recipes = kept;
        assert(all.take(all.len() as int) =~= all);
    }

    /// Changes the recorded size of a pool.  Does nothing where no pool is
    /// recorded under that id.
    pub fn update_shm_pool_size(&mut self, guest_id: u32, new_size: i32)
        ensures
            final(self)@ == with_pool_size(old(self)@, guest_id, new_size),
    {
        if let Some(i) = self.position(guest_id, Shape::ShmPool) {
            if let Recreatable::ShmPool { size, .. } = &mut self.recipes[i].1 {
                *size = new_size;
            }
            assert(self@ =~= with_pool_size(old(self)@, guest_id, new_size));
        }
    }

    /// Changes the recorded title of a toplevel.  Does nothing where no
    /// toplevel is recorded under that id.
    pub fn update_toplevel_title(&mut self, guest_id: u32, new_title: String)
        ensures
            final(self)@ == with_title(old(self)@, guest_id, new_title@),
    {
        if let Some(i) = self.position(guest_id, Shape::XdgToplevel) {
            if let Recreatable::XdgToplevel { title, .. } = &mut self.recipes[i].1 {
                *title = Some(new_title);
            }
            assert(self@ =~= with_title(old(self)@, guest_id, new_title@));
        }
    }

    /// Changes the recorded application id of a toplevel.  Does nothing where
    /// no toplevel is recorded under that id.
    pub fn update_toplevel_app_id(&mut self, guest_id: u32, new_app_id: String)
        ensures
            final(self)@ == with_app_id(old(self)@, guest_id, new_app_id@),
    {
        if let Some(i) = self.position(guest_id, Shape::XdgToplevel) {
            if let Recreatable::XdgToplevel { app_id, .. } = &mut self.recipes[i].1 {
                *app_id = Some(new_app_id);
            }
            assert(self@ =~= with_app_id(old(self)@, guest_id, new_app_id@));
        }
    }

    /// Changes the recorded destination of a viewport.  Does nothing where no
    /// viewport is recorded under that id.
    pub fn update_viewport_destination(&mut self, guest_id: u32, width: i32, height: i32)
        ensures
            final(self)@ == with_destination(old(self)@, guest_id, width, height),
    {
        if let Some(i) = self.position(guest_id, Shape::Viewport) {
            if let Recreatable::Viewport { destination, .. } = &mut self.recipes[i].1 {
                *destination = Some((width, height));
            }
            assert(self@ =~= with_destination(old(self)@, guest_id, width, height));
        }
    }

    /// Every recipe with its guest id, in the order of recording.
    pub fn iter(&self) -> (r: Vec<(u32, &Recreatable<F>)>)
        ensures
            r@.len() == self@.len(),
            forall|i: int|
                0 <= i < r@.len() ==> (#[trigger] r@[i]).0 == self@[i].0 && r@[i].1@ == self@[i].1,
    {
        let mut out: Vec<(u32, &Recreatable<F>)> = Vec::new();
        let mut i: usize = 0;
        while i < self.recipes.len()
            invariant
                i <= self.recipes@.len(),
                out@.len() == i,
                forall|j: int|
                    0 <= j < i ==> (#[trigger] out@[j]).0 == self@[j].0 && out@[j].1@ == self@[j].1,
            decreases self.recipes.len() - i,
        {
            out.push((self.recipes[i].0, &self.recipes[i].1));
            i += 1;
        }
        out
    }

    /// How many recipes there are.
    pub fn len(&self) -> (r: usize)
        ensures
            r == self@.len(),
    {
        self.recipes.len()
    }

    /// The recipe at a position.
    pub fn get(&self, index: usize) -> (r: (u32, &Recreatable<F>))
        requires
            index < self@.len(),
        ensures
            r.0 == self@[index as int].0,
            r.1@ == self@[index as int].1,
    {
        (self.recipes[index].0, &self.recipes[index].1)
    }
}

impl<F> Default for RecreationGraph<F> {
    fn default() -> (r: RecreationGraph<F>)
        ensures
            r@ == Seq::<(u32, Recipe<F>)>::empty(),
    {
        RecreationGraph::new()
    }
}

} // verus!
