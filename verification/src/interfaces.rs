//! Maps an interface name, as it stands in `wl_registry.bind`, to its protocol
//! description.
//!
//! The tables are generated from the protocol XML files by four crates:
//! `wayland-client` (the core protocol), `wayland-protocols` (freedesktop's
//! extensions), `wayland-protocols-wlr` (the wlroots ones), and
//! `wayland-protocols-plasma` with `wayland-protocols-misc` (KDE's, and a few
//! without a home).  Only interfaces that a compositor may advertise as a
//! global need an entry: an object that a typed request creates carries its
//! interface in the request's own description.
use crate::schema::{same_text, ArgumentType, InterfaceDesc, InterfaceModel, MessageDesc};
use vstd::prelude::*;
use wayland_backend::protocol::{
    ArgumentType as GeneratedType, Interface as GeneratedInterface, MessageDesc as GeneratedMessage,
};
use wayland_client::protocol::__interfaces::{
    WL_DISPLAY_INTERFACE,
    WL_REGISTRY_INTERFACE,
    WL_CALLBACK_INTERFACE,
    WL_COMPOSITOR_INTERFACE,
    WL_SHM_POOL_INTERFACE,
    WL_SHM_INTERFACE,
    WL_BUFFER_INTERFACE,
    WL_DATA_OFFER_INTERFACE,
    WL_DATA_SOURCE_INTERFACE,
    WL_DATA_DEVICE_INTERFACE,
    WL_DATA_DEVICE_MANAGER_INTERFACE,
    WL_SHELL_INTERFACE,
    WL_SHELL_SURFACE_INTERFACE,
    WL_SURFACE_INTERFACE,
    WL_SEAT_INTERFACE,
    WL_POINTER_INTERFACE,
    WL_KEYBOARD_INTERFACE,
    WL_TOUCH_INTERFACE,
    WL_OUTPUT_INTERFACE,
    WL_REGION_INTERFACE,
    WL_SUBCOMPOSITOR_INTERFACE,
    WL_SUBSURFACE_INTERFACE,
    WL_FIXES_INTERFACE,
};
use wayland_protocols::xdg::shell::client::__interfaces::{
    XDG_WM_BASE_INTERFACE,
    XDG_POSITIONER_INTERFACE,
    XDG_SURFACE_INTERFACE,
    XDG_TOPLEVEL_INTERFACE,
    XDG_POPUP_INTERFACE,
};
use wayland_protocols::wp::linux_dmabuf::zv1::client::__interfaces::ZWP_LINUX_DMABUF_V1_INTERFACE;
use wayland_protocols::wp::presentation_time::client::__interfaces::WP_PRESENTATION_INTERFACE;
use wayland_protocols::wp::viewporter::client::__interfaces::WP_VIEWPORTER_INTERFACE;
use wayland_protocols::wp::tearing_control::v1::client::__interfaces::WP_TEARING_CONTROL_MANAGER_V1_INTERFACE;
use wayland_protocols::wp::fractional_scale::v1::client::__interfaces::WP_FRACTIONAL_SCALE_MANAGER_V1_INTERFACE;
use wayland_protocols::wp::pointer_constraints::zv1::client::__interfaces::ZWP_POINTER_CONSTRAINTS_V1_INTERFACE;
use wayland_protocols::wp::pointer_gestures::zv1::client::__interfaces::ZWP_POINTER_GESTURES_V1_INTERFACE;
use wayland_protocols::wp::primary_selection::zv1::client::__interfaces::ZWP_PRIMARY_SELECTION_DEVICE_MANAGER_V1_INTERFACE;
use wayland_protocols::wp::relative_pointer::zv1::client::__interfaces::ZWP_RELATIVE_POINTER_MANAGER_V1_INTERFACE;
use wayland_protocols::wp::idle_inhibit::zv1::client::__interfaces::ZWP_IDLE_INHIBIT_MANAGER_V1_INTERFACE;
use wayland_protocols::wp::keyboard_shortcuts_inhibit::zv1::client::__interfaces::ZWP_KEYBOARD_SHORTCUTS_INHIBIT_MANAGER_V1_INTERFACE;
use wayland_protocols::wp::single_pixel_buffer::v1::client::__interfaces::WP_SINGLE_PIXEL_BUFFER_MANAGER_V1_INTERFACE;
use wayland_protocols::wp::cursor_shape::v1::client::__interfaces::WP_CURSOR_SHAPE_MANAGER_V1_INTERFACE;
use wayland_protocols::wp::tablet::zv1::client::__interfaces::ZWP_TABLET_MANAGER_V1_INTERFACE;
use wayland_protocols::wp::tablet::zv2::client::__interfaces::ZWP_TABLET_MANAGER_V2_INTERFACE;
use wayland_protocols::wp::text_input::zv1::client::__interfaces::ZWP_TEXT_INPUT_MANAGER_V1_INTERFACE;
use wayland_protocols::wp::text_input::zv3::client::__interfaces::ZWP_TEXT_INPUT_MANAGER_V3_INTERFACE;
use wayland_protocols::wp::security_context::v1::client::__interfaces::WP_SECURITY_CONTEXT_MANAGER_V1_INTERFACE;
use wayland_protocols::wp::alpha_modifier::v1::client::__interfaces::WP_ALPHA_MODIFIER_V1_INTERFACE;
use wayland_protocols::wp::linux_drm_syncobj::v1::client::__interfaces::WP_LINUX_DRM_SYNCOBJ_MANAGER_V1_INTERFACE;
use wayland_protocols::xdg::xdg_output::zv1::client::__interfaces::ZXDG_OUTPUT_MANAGER_V1_INTERFACE;
use wayland_protocols::xdg::decoration::zv1::client::__interfaces::ZXDG_DECORATION_MANAGER_V1_INTERFACE;
use wayland_protocols::xdg::activation::v1::client::__interfaces::XDG_ACTIVATION_V1_INTERFACE;
use wayland_protocols::xdg::toplevel_icon::v1::client::__interfaces::XDG_TOPLEVEL_ICON_MANAGER_V1_INTERFACE;
use wayland_protocols::xdg::foreign::zv1::client::__interfaces::{
    ZXDG_EXPORTER_V1_INTERFACE,
    ZXDG_IMPORTER_V1_INTERFACE,
};
use wayland_protocols::xdg::foreign::zv2::client::__interfaces::{
    ZXDG_EXPORTER_V2_INTERFACE,
    ZXDG_IMPORTER_V2_INTERFACE,
};
use wayland_protocols::ext::idle_notify::v1::client::__interfaces::EXT_IDLE_NOTIFIER_V1_INTERFACE;
use wayland_protocols::ext::session_lock::v1::client::__interfaces::EXT_SESSION_LOCK_MANAGER_V1_INTERFACE;
use wayland_protocols::ext::foreign_toplevel_list::v1::client::__interfaces::EXT_FOREIGN_TOPLEVEL_LIST_V1_INTERFACE;
use wayland_protocols::ext::image_capture_source::v1::client::__interfaces::{
    EXT_OUTPUT_IMAGE_CAPTURE_SOURCE_MANAGER_V1_INTERFACE,
    EXT_FOREIGN_TOPLEVEL_IMAGE_CAPTURE_SOURCE_MANAGER_V1_INTERFACE,
};
use wayland_protocols::ext::image_copy_capture::v1::client::__interfaces::EXT_IMAGE_COPY_CAPTURE_MANAGER_V1_INTERFACE;
use wayland_protocols::ext::data_control::v1::client::__interfaces::EXT_DATA_CONTROL_MANAGER_V1_INTERFACE;
use wayland_protocols::ext::workspace::v1::client::__interfaces::EXT_WORKSPACE_MANAGER_V1_INTERFACE;
use wayland_protocols::xdg::dialog::v1::client::__interfaces::XDG_WM_DIALOG_V1_INTERFACE;
use wayland_protocols::xdg::system_bell::v1::client::__interfaces::XDG_SYSTEM_BELL_V1_INTERFACE;
use wayland_protocols::wp::color_management::v1::client::__interfaces::WP_COLOR_MANAGER_V1_INTERFACE;
use wayland_protocols::wp::color_representation::v1::client::__interfaces::WP_COLOR_REPRESENTATION_MANAGER_V1_INTERFACE;
use wayland_protocols::wp::fifo::v1::client::__interfaces::WP_FIFO_MANAGER_V1_INTERFACE;
use wayland_protocols::wp::commit_timing::v1::client::__interfaces::WP_COMMIT_TIMING_MANAGER_V1_INTERFACE;
use wayland_protocols_wlr::data_control::v1::client::__interfaces::ZWLR_DATA_CONTROL_MANAGER_V1_INTERFACE;
use wayland_protocols_wlr::export_dmabuf::v1::client::__interfaces::ZWLR_EXPORT_DMABUF_MANAGER_V1_INTERFACE;
use wayland_protocols_wlr::foreign_toplevel::v1::client::__interfaces::ZWLR_FOREIGN_TOPLEVEL_MANAGER_V1_INTERFACE;
use wayland_protocols_wlr::gamma_control::v1::client::__interfaces::ZWLR_GAMMA_CONTROL_MANAGER_V1_INTERFACE;
use wayland_protocols_wlr::layer_shell::v1::client::__interfaces::ZWLR_LAYER_SHELL_V1_INTERFACE;
use wayland_protocols_wlr::output_management::v1::client::__interfaces::ZWLR_OUTPUT_MANAGER_V1_INTERFACE;
use wayland_protocols_wlr::output_power_management::v1::client::__interfaces::ZWLR_OUTPUT_POWER_MANAGER_V1_INTERFACE;
use wayland_protocols_wlr::screencopy::v1::client::__interfaces::ZWLR_SCREENCOPY_MANAGER_V1_INTERFACE;
use wayland_protocols_wlr::virtual_pointer::v1::client::__interfaces::ZWLR_VIRTUAL_POINTER_MANAGER_V1_INTERFACE;
use wayland_protocols_plasma::server_decoration::client::__interfaces::ORG_KDE_KWIN_SERVER_DECORATION_MANAGER_INTERFACE;
use wayland_protocols_misc::zwp_input_method_v2::client::__interfaces::ZWP_INPUT_METHOD_MANAGER_V2_INTERFACE;
use wayland_protocols_misc::zwp_virtual_keyboard_v1::client::__interfaces::ZWP_VIRTUAL_KEYBOARD_MANAGER_V1_INTERFACE;

verus! {

/// What a generated table says: its name, its version, and its messages in
/// order, each with its name, whether it is a destructor, its argument types
/// and the table of the object it creates.
pub uninterp spec fn described(table: GeneratedInterface) -> InterfaceModel;

/// What the generated table of the interface called `name` says.
pub uninterp spec fn interface_table(name: Seq<char>) -> InterfaceModel;

/// Reads a generated table, field by field: the fields of `Interface` and
/// `MessageDesc` in `wayland_backend::protocol`, with the argument types
/// carried over one for one (nullability, which nothing here depends on, is
/// left out).  The tables are immutable statics.
#[verifier::external_body]
pub(crate) fn describe(table: &'static GeneratedInterface) -> (r: InterfaceDesc)
    ensures
        r@ == described(*table),
{
    let argument = |a: &GeneratedType| match a {
        GeneratedType::Int => ArgumentType::Int, GeneratedType::Uint => ArgumentType::Uint,
        GeneratedType::Fixed => ArgumentType::Fixed, GeneratedType::Str(_) => ArgumentType::Str,
        GeneratedType::Object(_) => ArgumentType::Object, GeneratedType::NewId => ArgumentType::NewId,
        GeneratedType::Array => ArgumentType::Array, GeneratedType::Fd => ArgumentType::Fd,
    };
    let message = |m: &'static GeneratedMessage| MessageDesc {
        name: m.name.to_owned(), is_destructor: m.is_destructor,
        signature: m.signature.iter().map(argument).collect(), child_interface: m.child_interface,
    };
    InterfaceDesc {
        name: table.name.to_owned(), version: table.version,
        requests: table.requests.iter().map(message).collect(),
        events: table.events.iter().map(message).collect(),
    }
}

/// The `name` field of a generated table.
#[verifier::external_body]
fn table_name(table: &'static GeneratedInterface) -> (r: &'static str)
    ensures
        r@ == described(*table).name,
{
    table.name
}

/// The interfaces of the core protocol and xdg-shell.
pub open spec fn core_names() -> Seq<Seq<char>> {
    seq![
        "wl_display"@,
        "wl_registry"@,
        "wl_callback"@,
        "wl_compositor"@,
        "wl_shm_pool"@,
        "wl_shm"@,
        "wl_buffer"@,
        "wl_data_offer"@,
        "wl_data_source"@,
        "wl_data_device"@,
        "wl_data_device_manager"@,
        "wl_shell"@,
        "wl_shell_surface"@,
        "wl_surface"@,
        "wl_seat"@,
        "wl_pointer"@,
        "wl_keyboard"@,
        "wl_touch"@,
        "wl_output"@,
        "wl_region"@,
        "wl_subcompositor"@,
        "wl_subsurface"@,
        "wl_fixes"@,
        "xdg_wm_base"@,
        "xdg_positioner"@,
        "xdg_surface"@,
        "xdg_toplevel"@,
        "xdg_popup"@,
    ]
}

/// The generated tables of the core protocol and xdg-shell: the static called
/// `X_INTERFACE` is the table of the interface `x`, and says so.
#[verifier::external_body]
fn core_tables() -> (r: Vec<&'static GeneratedInterface>)
    ensures
        r@.len() == core_names().len(),
        forall|i: int|
            0 <= i < r@.len() ==> #[trigger] described(*r@[i]) == interface_table(core_names()[i]),
        forall|i: int| 0 <= i < r@.len() ==> (#[trigger] described(*r@[i])).name == core_names()[i],
{
    vec![
        &WL_DISPLAY_INTERFACE, &WL_REGISTRY_INTERFACE, &WL_CALLBACK_INTERFACE,
        &WL_COMPOSITOR_INTERFACE, &WL_SHM_POOL_INTERFACE, &WL_SHM_INTERFACE,
        &WL_BUFFER_INTERFACE, &WL_DATA_OFFER_INTERFACE, &WL_DATA_SOURCE_INTERFACE,
        &WL_DATA_DEVICE_INTERFACE, &WL_DATA_DEVICE_MANAGER_INTERFACE, &WL_SHELL_INTERFACE,
        &WL_SHELL_SURFACE_INTERFACE, &WL_SURFACE_INTERFACE, &WL_SEAT_INTERFACE,
        &WL_POINTER_INTERFACE, &WL_KEYBOARD_INTERFACE, &WL_TOUCH_INTERFACE,
        &WL_OUTPUT_INTERFACE, &WL_REGION_INTERFACE, &WL_SUBCOMPOSITOR_INTERFACE,
        &WL_SUBSURFACE_INTERFACE, &WL_FIXES_INTERFACE, &XDG_WM_BASE_INTERFACE,
        &XDG_POSITIONER_INTERFACE, &XDG_SURFACE_INTERFACE, &XDG_TOPLEVEL_INTERFACE,
        &XDG_POPUP_INTERFACE,
    ]
}

/// The interfaces of freedesktop's extensions.
pub open spec fn desktop_names() -> Seq<Seq<char>> {
    seq![
        "zwp_linux_dmabuf_v1"@,
        "wp_presentation"@,
        "wp_viewporter"@,
        "wp_tearing_control_manager_v1"@,
        "wp_fractional_scale_manager_v1"@,
        "zwp_pointer_constraints_v1"@,
        "zwp_pointer_gestures_v1"@,
        "zwp_primary_selection_device_manager_v1"@,
        "zwp_relative_pointer_manager_v1"@,
        "zwp_idle_inhibit_manager_v1"@,
        "zwp_keyboard_shortcuts_inhibit_manager_v1"@,
        "wp_single_pixel_buffer_manager_v1"@,
        "wp_cursor_shape_manager_v1"@,
        "zwp_tablet_manager_v1"@,
        "zwp_tablet_manager_v2"@,
        "zwp_text_input_manager_v1"@,
        "zwp_text_input_manager_v3"@,
        "wp_security_context_manager_v1"@,
        "wp_alpha_modifier_v1"@,
        "wp_linux_drm_syncobj_manager_v1"@,
        "zxdg_output_manager_v1"@,
        "zxdg_decoration_manager_v1"@,
        "xdg_activation_v1"@,
        "xdg_toplevel_icon_manager_v1"@,
        "zxdg_exporter_v1"@,
        "zxdg_importer_v1"@,
        "zxdg_exporter_v2"@,
        "zxdg_importer_v2"@,
        "ext_idle_notifier_v1"@,
        "ext_session_lock_manager_v1"@,
        "ext_foreign_toplevel_list_v1"@,
        "ext_output_image_capture_source_manager_v1"@,
        "ext_foreign_toplevel_image_capture_source_manager_v1"@,
        "ext_image_copy_capture_manager_v1"@,
        "ext_data_control_manager_v1"@,
        "ext_workspace_manager_v1"@,
        "xdg_wm_dialog_v1"@,
        "xdg_system_bell_v1"@,
        "wp_color_manager_v1"@,
        "wp_color_representation_manager_v1"@,
        "wp_fifo_manager_v1"@,
        "wp_commit_timing_manager_v1"@,
    ]
}

/// The generated tables of freedesktop's extensions: the static called
/// `X_INTERFACE` is the table of the interface `x`, and says so.
#[verifier::external_body]
fn desktop_tables() -> (r: Vec<&'static GeneratedInterface>)
    ensures
        r@.len() == desktop_names().len(),
        forall|i: int|
            0 <= i < r@.len() ==> #[trigger] described(*r@[i]) == interface_table(desktop_names()[i]),
        forall|i: int| 0 <= i < r@.len() ==> (#[trigger] described(*r@[i])).name == desktop_names()[i],
{
    vec![
        &ZWP_LINUX_DMABUF_V1_INTERFACE, &WP_PRESENTATION_INTERFACE, &WP_VIEWPORTER_INTERFACE, &WP_TEARING_CONTROL_MANAGER_V1_INTERFACE,
        &WP_FRACTIONAL_SCALE_MANAGER_V1_INTERFACE, &ZWP_POINTER_CONSTRAINTS_V1_INTERFACE, &ZWP_POINTER_GESTURES_V1_INTERFACE, &ZWP_PRIMARY_SELECTION_DEVICE_MANAGER_V1_INTERFACE,
        &ZWP_RELATIVE_POINTER_MANAGER_V1_INTERFACE, &ZWP_IDLE_INHIBIT_MANAGER_V1_INTERFACE, &ZWP_KEYBOARD_SHORTCUTS_INHIBIT_MANAGER_V1_INTERFACE, &WP_SINGLE_PIXEL_BUFFER_MANAGER_V1_INTERFACE,
        &WP_CURSOR_SHAPE_MANAGER_V1_INTERFACE, &ZWP_TABLET_MANAGER_V1_INTERFACE, &ZWP_TABLET_MANAGER_V2_INTERFACE, &ZWP_TEXT_INPUT_MANAGER_V1_INTERFACE,
        &ZWP_TEXT_INPUT_MANAGER_V3_INTERFACE, &WP_SECURITY_CONTEXT_MANAGER_V1_INTERFACE, &WP_ALPHA_MODIFIER_V1_INTERFACE, &WP_LINUX_DRM_SYNCOBJ_MANAGER_V1_INTERFACE,
        &ZXDG_OUTPUT_MANAGER_V1_INTERFACE, &ZXDG_DECORATION_MANAGER_V1_INTERFACE, &XDG_ACTIVATION_V1_INTERFACE, &XDG_TOPLEVEL_ICON_MANAGER_V1_INTERFACE,
        &ZXDG_EXPORTER_V1_INTERFACE, &ZXDG_IMPORTER_V1_INTERFACE, &ZXDG_EXPORTER_V2_INTERFACE, &ZXDG_IMPORTER_V2_INTERFACE,
        &EXT_IDLE_NOTIFIER_V1_INTERFACE, &EXT_SESSION_LOCK_MANAGER_V1_INTERFACE, &EXT_FOREIGN_TOPLEVEL_LIST_V1_INTERFACE, &EXT_OUTPUT_IMAGE_CAPTURE_SOURCE_MANAGER_V1_INTERFACE,
        &EXT_FOREIGN_TOPLEVEL_IMAGE_CAPTURE_SOURCE_MANAGER_V1_INTERFACE, &EXT_IMAGE_COPY_CAPTURE_MANAGER_V1_INTERFACE, &EXT_DATA_CONTROL_MANAGER_V1_INTERFACE, &EXT_WORKSPACE_MANAGER_V1_INTERFACE,
        &XDG_WM_DIALOG_V1_INTERFACE, &XDG_SYSTEM_BELL_V1_INTERFACE, &WP_COLOR_MANAGER_V1_INTERFACE, &WP_COLOR_REPRESENTATION_MANAGER_V1_INTERFACE,
        &WP_FIFO_MANAGER_V1_INTERFACE, &WP_COMMIT_TIMING_MANAGER_V1_INTERFACE,
    ]
}

/// The interfaces of the wlroots, KDE and unaffiliated extensions.
pub open spec fn vendor_names() -> Seq<Seq<char>> {
    seq![
        "zwlr_data_control_manager_v1"@,
        "zwlr_export_dmabuf_manager_v1"@,
        "zwlr_foreign_toplevel_manager_v1"@,
        "zwlr_gamma_control_manager_v1"@,
        "zwlr_layer_shell_v1"@,
        "zwlr_output_manager_v1"@,
        "zwlr_output_power_manager_v1"@,
        "zwlr_screencopy_manager_v1"@,
        "zwlr_virtual_pointer_manager_v1"@,
        "org_kde_kwin_server_decoration_manager"@,
        "zwp_input_method_manager_v2"@,
        "zwp_virtual_keyboard_manager_v1"@,
    ]
}

/// The generated tables of the wlroots, KDE and unaffiliated extensions: the static called
/// `X_INTERFACE` is the table of the interface `x`, and says so.
#[verifier::external_body]
fn vendor_tables() -> (r: Vec<&'static GeneratedInterface>)
    ensures
        r@.len() == vendor_names().len(),
        forall|i: int|
            0 <= i < r@.len() ==> #[trigger] described(*r@[i]) == interface_table(vendor_names()[i]),
        forall|i: int| 0 <= i < r@.len() ==> (#[trigger] described(*r@[i])).name == vendor_names()[i],
{
    vec![
        &ZWLR_DATA_CONTROL_MANAGER_V1_INTERFACE, &ZWLR_EXPORT_DMABUF_MANAGER_V1_INTERFACE,
        &ZWLR_FOREIGN_TOPLEVEL_MANAGER_V1_INTERFACE, &ZWLR_GAMMA_CONTROL_MANAGER_V1_INTERFACE,
        &ZWLR_LAYER_SHELL_V1_INTERFACE, &ZWLR_OUTPUT_MANAGER_V1_INTERFACE,
        &ZWLR_OUTPUT_POWER_MANAGER_V1_INTERFACE, &ZWLR_SCREENCOPY_MANAGER_V1_INTERFACE,
        &ZWLR_VIRTUAL_POINTER_MANAGER_V1_INTERFACE, &ORG_KDE_KWIN_SERVER_DECORATION_MANAGER_INTERFACE,
        &ZWP_INPUT_METHOD_MANAGER_V2_INTERFACE, &ZWP_VIRTUAL_KEYBOARD_MANAGER_V1_INTERFACE,
    ]
}

/// Every interface name that can be bound.
pub open spec fn bindable_names() -> Seq<Seq<char>> {
    core_names() + desktop_names() + vendor_names()
}

/// The table called `name` among `tables`, if it is there.
fn find_table(
    tables: &Vec<&'static GeneratedInterface>,
    name: &str,
) -> (r: Option<&'static GeneratedInterface>)
    ensures
        r matches Some(t) ==> exists|i: int|
            0 <= i < tables@.len() && described(*#[trigger] tables@[i]).name == name@ && *t
                == *tables@[i],
        r is None ==> forall|i: int|
            0 <= i < tables@.len() ==> described(*#[trigger] tables@[i]).name != name@,
{
    let mut i: usize = 0;
    while i < tables.len()
        invariant
            i <= tables.len(),
            forall|j: int| 0 <= j < i ==> described(*#[trigger] tables@[j]).name != name@,
        decreases tables.len() - i,
    {
        if same_text(table_name(tables[i]), name) {
            return Some(tables[i]);
        }
        i += 1;
    }
    None
}

/// The description of the interface called `name`, if a compositor may
/// advertise it.
pub fn lookup_interface(name: &str) -> (r: Option<InterfaceDesc>)
    ensures
        r is Some <==> bindable_names().contains(name@),
        r matches Some(i) ==> i@ == interface_table(name@) && i@.name == name@,
{
    let core = core_tables();
    if let Some(t) = find_table(&core, name) {
        proof {
            let i = choose|i: int|
                0 <= i < core@.len() && described(*#[trigger] core@[i]).name == name@ && *t
                    == *core@[i];
            assert(bindable_names()[i] == name@);
        }
        return Some(describe(t));
    }
    let desktop = desktop_tables();
    if let Some(t) = find_table(&desktop, name) {
        proof {
            let i = choose|i: int|
                0 <= i < desktop@.len() && described(*#[trigger] desktop@[i]).name == name@ && *t
                    == *desktop@[i];
            assert(bindable_names()[core_names().len() + i] == name@);
        }
        return Some(describe(t));
    }
    let vendor = vendor_tables();
    let found = find_table(&vendor, name);
    proof {
        let names = bindable_names();
        let (a, b) = (core_names().len(), desktop_names().len());
        if found is None {
            assert forall|k: int| 0 <= k < names.len() implies names[k] != name@ by {
                if k < a {
                    assert(described(*core@[k]).name == core_names()[k]);
                } else if k < a + b {
                    assert(described(*desktop@[k - a]).name == desktop_names()[k - a]);
                } else {
                    assert(described(*vendor@[k - a - b]).name == vendor_names()[k - a - b]);
                }
            }
        } else {
            let i = choose|i: int|
                0 <= i < vendor@.len() && described(*#[trigger] vendor@[i]).name == name@
                    && *(found->0) == *vendor@[i];
            assert(names[a + b + i] == name@);
        }
    }
    match found {
        Some(t) => Some(describe(t)),
        None => None,
    }
}

} // verus!
