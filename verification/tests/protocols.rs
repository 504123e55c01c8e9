use wayland_backend::protocol::Interface;
use wayland_proxy::interfaces::lookup_interface;
use wayland_proxy::schema::{event_opcode, request_opcode, ArgumentType, MessageDesc};
use wayland_proxy::signature::{resolve_child_interface, walk_signature};

const FAKE_CHILD_INTERFACE: Interface =
    Interface { name: "fake_child", version: 3, requests: &[], events: &[], c_ptr: None };

#[test]
fn known_core_interfaces_resolve() {
    for name in ["wl_display", "wl_registry", "wl_callback", "wl_compositor", "wl_surface", "wl_shm", "wl_seat"] {
        let iface = lookup_interface(name).unwrap_or_else(|| panic!("{name} should resolve"));
        assert_eq!(iface.name, name);
    }
}

#[test]
fn known_xdg_shell_interfaces_resolve() {
    for name in ["xdg_wm_base", "xdg_surface", "xdg_toplevel", "xdg_popup", "xdg_positioner"] {
        let iface = lookup_interface(name).unwrap_or_else(|| panic!("{name} should resolve"));
        assert_eq!(iface.name, name);
    }
}

#[test]
fn unknown_interface_returns_none() {
    assert!(lookup_interface("not_a_real_interface").is_none());
    assert!(lookup_interface("not_a_real_but_zwlr_shaped_v1").is_none());
}

/// Every global that labwc 0.9.3 (wlroots 0.19.2) advertises must resolve.
#[test]
fn resolves_every_global_observed_from_real_labwc() {
    const OBSERVED_GLOBALS: &[&str] = &[
        "wl_shm",
        "zwp_linux_dmabuf_v1",
        "wp_linux_drm_syncobj_manager_v1",
        "ext_workspace_manager_v1",
        "zwlr_gamma_control_manager_v1",
        "zxdg_output_manager_v1",
        "zwlr_output_manager_v1",
        "wl_compositor",
        "wl_subcompositor",
        "wl_data_device_manager",
        "zwp_primary_selection_device_manager_v1",
        "zwp_input_method_manager_v2",
        "zwp_text_input_manager_v3",
        "wl_seat",
        "zwlr_virtual_pointer_manager_v1",
        "zwp_virtual_keyboard_manager_v1",
        "zwp_pointer_gestures_v1",
        "wp_cursor_shape_manager_v1",
        "xdg_wm_base",
        "xdg_activation_v1",
        "xdg_toplevel_icon_manager_v1",
        "org_kde_kwin_server_decoration_manager",
        "zxdg_decoration_manager_v1",
        "wp_presentation",
        "zwlr_export_dmabuf_manager_v1",
        "zwlr_screencopy_manager_v1",
        "ext_image_copy_capture_manager_v1",
        "ext_output_image_capture_source_manager_v1",
        "zwlr_data_control_manager_v1",
        "ext_data_control_manager_v1",
        "wp_security_context_manager_v1",
        "wp_viewporter",
        "wp_single_pixel_buffer_manager_v1",
        "wp_fractional_scale_manager_v1",
        "ext_idle_notifier_v1",
        "zwp_idle_inhibit_manager_v1",
        "zwp_relative_pointer_manager_v1",
        "zwp_pointer_constraints_v1",
        "zwlr_foreign_toplevel_manager_v1",
        "ext_foreign_toplevel_list_v1",
        "wp_alpha_modifier_v1",
        "ext_session_lock_manager_v1",
        "zwlr_output_power_manager_v1",
        "wp_tearing_control_manager_v1",
        "zwp_tablet_manager_v2",
        "zwlr_layer_shell_v1",
        "zxdg_exporter_v1",
        "zxdg_importer_v1",
        "zxdg_exporter_v2",
        "zxdg_importer_v2",
        "wl_output",
    ];
    for name in OBSERVED_GLOBALS {
        lookup_interface(name).unwrap_or_else(|| panic!("{name} (observed from a real compositor) should resolve"));
    }
}

/// The same for kwin (Plasma 6.4.5), where wlroots has nothing alike.
#[test]
fn resolves_every_global_observed_from_real_kwin() {
    const KWIN_OBSERVED_GLOBALS: &[&str] = &[
        "xdg_wm_dialog_v1",
        "xdg_system_bell_v1",
        "wp_color_manager_v1",
        "wp_color_representation_manager_v1",
        "wp_fifo_manager_v1",
    ];
    for name in KWIN_OBSERVED_GLOBALS {
        lookup_interface(name).unwrap_or_else(|| panic!("{name} (observed from a real kwin) should resolve"));
    }
}

/// The same for mutter (gnome-shell 50.1).
#[test]
fn resolves_every_global_observed_from_real_mutter() {
    const MUTTER_OBSERVED_GLOBALS: &[&str] = &["wp_commit_timing_manager_v1"];
    for name in MUTTER_OBSERVED_GLOBALS {
        lookup_interface(name).unwrap_or_else(|| panic!("{name} (observed from a real mutter) should resolve"));
    }
}

fn push_u32(buf: &mut Vec<u8>, v: u32) {
    buf.extend_from_slice(&v.to_ne_bytes());
}

fn push_str(buf: &mut Vec<u8>, s: &str) {
    let len = s.len() as u32 + 1; // includes NUL terminator
    push_u32(buf, len);
    buf.extend_from_slice(s.as_bytes());
    buf.push(0);
    while buf.len() % 4 != 0 {
        buf.push(0);
    }
}

#[test]
fn walk_signature_locates_new_id_and_counts_fds() {
    // get_registry-like: [NewId]
    let mut payload = Vec::new();
    push_u32(&mut payload, 42);
    let walk = walk_signature(&payload, &[ArgumentType::NewId]).unwrap();
    assert_eq!(walk.new_id_offset, Some(0));
    assert_eq!(walk.fd_count, 0);
    assert_eq!(walk.object_offsets, Vec::<usize>::new());
}

#[test]
fn walk_signature_locates_every_object_argument() {
    // wl_data_device.start_drag-shaped: [Object(source), Object(origin), Object(icon), Uint(serial)]
    let mut payload = Vec::new();
    push_u32(&mut payload, 10); // source
    push_u32(&mut payload, 11); // origin
    push_u32(&mut payload, 12); // icon
    push_u32(&mut payload, 99); // serial

    let sig = [
        ArgumentType::Object,
        ArgumentType::Object,
        ArgumentType::Object,
        ArgumentType::Uint,
    ];
    let walk = walk_signature(&payload, &sig).unwrap();
    assert_eq!(walk.object_offsets, vec![0, 4, 8]);
    assert_eq!(walk.new_id_offset, None);
}

#[test]
fn walk_signature_finds_bind_style_dynamic_interface() {
    // bind: [Uint(name), Str(interface), Uint(version), NewId(id)]
    let mut payload = Vec::new();
    push_u32(&mut payload, 5); // name
    push_str(&mut payload, "wl_compositor");
    push_u32(&mut payload, 4); // version
    let new_id_offset = payload.len();
    push_u32(&mut payload, 0); // new_id placeholder

    let sig = [
        ArgumentType::Uint,
        ArgumentType::Str,
        ArgumentType::Uint,
        ArgumentType::NewId,
    ];
    let walk = walk_signature(&payload, &sig).unwrap();
    assert_eq!(walk.new_id_offset, Some(new_id_offset));
    assert_eq!(walk.dynamic_interface_name.as_deref(), Some("wl_compositor"));
    assert_eq!(walk.fd_count, 0);
}

#[test]
fn walk_signature_counts_fd_args_without_advancing_offset() {
    // e.g. wl_shm.create_pool-shaped: [NewId, Fd, Int]
    let mut payload = Vec::new();
    push_u32(&mut payload, 0); // new_id
    push_u32(&mut payload, 4096); // size (the fd itself isn't in the byte stream)

    let sig = [ArgumentType::NewId, ArgumentType::Fd, ArgumentType::Int];
    let walk = walk_signature(&payload, &sig).unwrap();
    assert_eq!(walk.fd_count, 1);
    assert_eq!(walk.new_id_offset, Some(0));
}

#[test]
fn walk_signature_rejects_truncated_payload() {
    let payload = [0u8; 2]; // claims a Uint (4 bytes) but only has 2
    assert!(walk_signature(&payload, &[ArgumentType::Uint]).is_err());
}

#[test]
fn resolve_child_interface_prefers_static_declaration() {
    let desc = MessageDesc {
        name: "get_thing".to_string(),
        is_destructor: false,
        signature: vec![ArgumentType::NewId],
        child_interface: Some(&FAKE_CHILD_INTERFACE),
    };
    let (iface, version) = resolve_child_interface(&desc, None).expect("should resolve");
    assert_eq!(iface.name, "fake_child");
    assert_eq!(version, 3);
}

#[test]
fn resolve_child_interface_falls_back_to_dynamic_name() {
    let desc = MessageDesc {
        name: "bind".to_string(),
        is_destructor: false,
        signature: vec![ArgumentType::Uint, ArgumentType::Str, ArgumentType::Uint, ArgumentType::NewId],
        child_interface: None,
    };
    let (iface, _) = resolve_child_interface(&desc, Some("wl_shm")).expect("should resolve wl_shm");
    assert_eq!(iface.name, "wl_shm");
}

#[test]
fn resolve_child_interface_returns_none_for_unknown_dynamic_name() {
    let desc = MessageDesc {
        name: "bind".to_string(),
        is_destructor: false,
        signature: vec![ArgumentType::Uint, ArgumentType::Str, ArgumentType::Uint, ArgumentType::NewId],
        child_interface: None,
    };
    assert!(resolve_child_interface(&desc, Some("not_a_real_interface")).is_none());
}

#[test]
fn every_listed_interface_resolves_to_itself() {
    for name in [
        "wl_display",
        "wl_registry",
        "wl_callback",
        "wl_compositor",
        "wl_shm_pool",
        "wl_shm",
        "wl_buffer",
        "wl_data_offer",
        "wl_data_source",
        "wl_data_device",
        "wl_data_device_manager",
        "wl_shell",
        "wl_shell_surface",
        "wl_surface",
        "wl_seat",
        "wl_pointer",
        "wl_keyboard",
        "wl_touch",
        "wl_output",
        "wl_region",
        "wl_subcompositor",
        "wl_subsurface",
        "wl_fixes",
        "xdg_wm_base",
        "xdg_positioner",
        "xdg_surface",
        "xdg_toplevel",
        "xdg_popup",
        "zwp_linux_dmabuf_v1",
        "wp_presentation",
        "wp_viewporter",
        "wp_tearing_control_manager_v1",
        "wp_fractional_scale_manager_v1",
        "zwp_pointer_constraints_v1",
        "zwp_pointer_gestures_v1",
        "zwp_primary_selection_device_manager_v1",
        "zwp_relative_pointer_manager_v1",
        "zwp_idle_inhibit_manager_v1",
        "zwp_keyboard_shortcuts_inhibit_manager_v1",
        "wp_single_pixel_buffer_manager_v1",
        "wp_cursor_shape_manager_v1",
        "zwp_tablet_manager_v1",
        "zwp_tablet_manager_v2",
        "zwp_text_input_manager_v1",
        "zwp_text_input_manager_v3",
        "wp_security_context_manager_v1",
        "wp_alpha_modifier_v1",
        "wp_linux_drm_syncobj_manager_v1",
        "zxdg_output_manager_v1",
        "zxdg_decoration_manager_v1",
        "xdg_activation_v1",
        "xdg_toplevel_icon_manager_v1",
        "zxdg_exporter_v1",
        "zxdg_importer_v1",
        "zxdg_exporter_v2",
        "zxdg_importer_v2",
        "ext_idle_notifier_v1",
        "ext_session_lock_manager_v1",
        "ext_foreign_toplevel_list_v1",
        "ext_output_image_capture_source_manager_v1",
        "ext_foreign_toplevel_image_capture_source_manager_v1",
        "ext_image_copy_capture_manager_v1",
        "ext_data_control_manager_v1",
        "ext_workspace_manager_v1",
        "xdg_wm_dialog_v1",
        "xdg_system_bell_v1",
        "wp_color_manager_v1",
        "wp_color_representation_manager_v1",
        "wp_fifo_manager_v1",
        "wp_commit_timing_manager_v1",
        "zwlr_data_control_manager_v1",
        "zwlr_export_dmabuf_manager_v1",
        "zwlr_foreign_toplevel_manager_v1",
        "zwlr_gamma_control_manager_v1",
        "zwlr_layer_shell_v1",
        "zwlr_output_manager_v1",
        "zwlr_output_power_manager_v1",
        "zwlr_screencopy_manager_v1",
        "zwlr_virtual_pointer_manager_v1",
        "org_kde_kwin_server_decoration_manager",
        "zwp_input_method_manager_v2",
        "zwp_virtual_keyboard_manager_v1",
    ] {
        let interface = lookup_interface(name).unwrap_or_else(|| panic!("{name} should resolve"));
        assert_eq!(interface.name, name);
    }
}

#[test]
fn the_description_of_an_interface_is_that_of_the_protocol() {
    let pool = lookup_interface("wl_shm").unwrap();
    assert_eq!(pool.requests[0].name, "create_pool");
    assert_eq!(
        pool.requests[0].signature,
        vec![ArgumentType::NewId, ArgumentType::Fd, ArgumentType::Int]
    );
    assert_eq!(pool.requests[0].child_interface.unwrap().name, "wl_shm_pool");
    assert!(!pool.requests[0].is_destructor);
    let surface = lookup_interface("wl_surface").unwrap();
    assert_eq!(request_opcode(&surface, "destroy"), Some(0));
    assert!(surface.requests[0].is_destructor);
    assert_eq!(request_opcode(&surface, "commit"), Some(6));
    assert_eq!(event_opcode(&surface, "enter"), Some(0));
    assert_eq!(request_opcode(&surface, "no_such_request"), None);
    let registry = lookup_interface("wl_registry").unwrap();
    assert_eq!(
        registry.requests[0].signature,
        vec![ArgumentType::Uint, ArgumentType::Str, ArgumentType::Uint, ArgumentType::NewId]
    );
    assert!(registry.requests[0].child_interface.is_none());
}
