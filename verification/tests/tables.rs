use std::sync::Arc;
use wayland_proxy::recreation::{DmabufPlane, Recreatable, RecreationGraph, SeatDeviceKind};
use wayland_proxy::schema::InterfaceDesc;
use wayland_proxy::shadow_table::ShadowTable;

fn fake_interface() -> Arc<InterfaceDesc> {
    Arc::new(InterfaceDesc {
        name: "fake".to_string(),
        version: 1,
        requests: Vec::new(),
        events: Vec::new(),
    })
}

#[test]
fn records_and_retrieves_a_recipe() {
    let mut graph: RecreationGraph<u32> = RecreationGraph::new();
    graph.record(5, Recreatable::Surface { parent_guest_id: 3 });
    match graph.recipe_for(5) {
        Some(Recreatable::Surface { parent_guest_id }) => assert_eq!(*parent_guest_id, 3),
        _ => panic!("expected a Surface recipe"),
    }
}

#[test]
fn records_and_retrieves_a_seat_device_recipe() {
    let mut graph: RecreationGraph<u32> = RecreationGraph::new();
    graph.record(6, Recreatable::SeatDevice { seat_guest_id: 4, kind: SeatDeviceKind::Keyboard });
    match graph.recipe_for(6) {
        Some(Recreatable::SeatDevice { seat_guest_id, kind }) => {
            assert_eq!(*seat_guest_id, 4);
            assert_eq!(*kind, SeatDeviceKind::Keyboard);
        }
        _ => panic!("expected a SeatDevice recipe"),
    }
}

#[test]
fn seat_device_kind_request_names_match_the_wl_seat_protocol() {
    assert_eq!(SeatDeviceKind::Pointer.request_name(), "get_pointer");
    assert_eq!(SeatDeviceKind::Keyboard.request_name(), "get_keyboard");
    assert_eq!(SeatDeviceKind::Touch.request_name(), "get_touch");
}

#[test]
fn update_viewport_destination_mutates_the_existing_recipe_in_place() {
    let mut graph: RecreationGraph<u32> = RecreationGraph::new();
    graph.record(7, Recreatable::Viewport { viewporter_guest_id: 3, surface_guest_id: 6, destination: None });
    graph.update_viewport_destination(7, 348, 269);
    match graph.recipe_for(7) {
        Some(Recreatable::Viewport { viewporter_guest_id, surface_guest_id, destination }) => {
            assert_eq!(*viewporter_guest_id, 3);
            assert_eq!(*surface_guest_id, 6);
            assert_eq!(*destination, Some((348, 269)));
        }
        _ => panic!("expected a Viewport recipe"),
    }
}

#[test]
fn records_and_retrieves_a_fractional_scale_recipe() {
    let mut graph: RecreationGraph<u32> = RecreationGraph::new();
    graph.record(8, Recreatable::FractionalScale { manager_guest_id: 3, surface_guest_id: 6 });
    match graph.recipe_for(8) {
        Some(Recreatable::FractionalScale { manager_guest_id, surface_guest_id }) => {
            assert_eq!(*manager_guest_id, 3);
            assert_eq!(*surface_guest_id, 6);
        }
        _ => panic!("expected a FractionalScale recipe"),
    }
}

#[test]
fn remove_forgets_the_recipe() {
    let mut graph: RecreationGraph<u32> = RecreationGraph::new();
    graph.record(5, Recreatable::Global { interface: fake_interface(), version: 1 });
    graph.remove(5);
    assert!(graph.recipe_for(5).is_none());
}

#[test]
fn update_shm_pool_size_mutates_the_existing_recipe_in_place() {
    let mut graph: RecreationGraph<u32> = RecreationGraph::new();
    let fd = Arc::new(7u32);
    graph.record(5, Recreatable::ShmPool { wl_shm_guest_id: 2, fd, size: 4096 });
    graph.update_shm_pool_size(5, 8192);
    match graph.recipe_for(5) {
        Some(Recreatable::ShmPool { size, wl_shm_guest_id, .. }) => {
            assert_eq!(*size, 8192);
            assert_eq!(*wl_shm_guest_id, 2);
        }
        _ => panic!("expected a ShmPool recipe"),
    }
}

#[test]
fn update_shm_pool_size_is_a_no_op_for_an_untracked_or_wrong_shaped_id() {
    let mut graph: RecreationGraph<u32> = RecreationGraph::new();
    graph.record(5, Recreatable::Surface { parent_guest_id: 3 });
    graph.update_shm_pool_size(5, 8192); // wrong recipe shape -- must not panic or touch it
    graph.update_shm_pool_size(999, 8192); // never recorded at all
    match graph.recipe_for(5) {
        Some(Recreatable::Surface { parent_guest_id }) => assert_eq!(*parent_guest_id, 3),
        _ => panic!("expected the original Surface recipe, untouched"),
    }
}

#[test]
fn update_toplevel_title_and_app_id_mutate_the_existing_recipe_in_place() {
    let mut graph: RecreationGraph<u32> = RecreationGraph::new();
    graph.record(5, Recreatable::XdgToplevel { parent_guest_id: 3, title: None, app_id: None });
    graph.update_toplevel_title(5, "wl-res test".to_string());
    graph.update_toplevel_app_id(5, "org.example.Test".to_string());
    match graph.recipe_for(5) {
        Some(Recreatable::XdgToplevel { parent_guest_id, title, app_id }) => {
            assert_eq!(*parent_guest_id, 3);
            assert_eq!(title.as_deref(), Some("wl-res test"));
            assert_eq!(app_id.as_deref(), Some("org.example.Test"));
        }
        _ => panic!("expected an XdgToplevel recipe"),
    }
}

#[test]
fn update_toplevel_title_is_a_no_op_for_an_untracked_or_wrong_shaped_id() {
    let mut graph: RecreationGraph<u32> = RecreationGraph::new();
    graph.record(5, Recreatable::Surface { parent_guest_id: 3 });
    graph.update_toplevel_title(5, "should not apply".to_string()); // wrong recipe shape
    graph.update_toplevel_app_id(999, "also should not apply".to_string()); // never recorded
    match graph.recipe_for(5) {
        Some(Recreatable::Surface { parent_guest_id }) => assert_eq!(*parent_guest_id, 3),
        _ => panic!("expected the original Surface recipe, untouched"),
    }
}

#[test]
fn untracked_id_has_no_recipe() {
    let graph: RecreationGraph<u32> = RecreationGraph::new();
    assert!(graph.recipe_for(999).is_none());
}

#[test]
fn records_and_retrieves_a_dmabuf_buffer_recipe_with_its_planes() {
    let mut graph: RecreationGraph<u32> = RecreationGraph::new();
    let fd = Arc::new(7u32);
    graph.record(
        11,
        Recreatable::DmabufBuffer {
            dmabuf_guest_id: 9,
            width: 64,
            height: 64,
            format: 0,
            flags: 0,
            planes: vec![DmabufPlane { fd, plane_idx: 0, offset: 0, stride: 256, modifier: 0xAABB_CCDD_EEFF_0011 }],
        },
    );
    match graph.recipe_for(11) {
        Some(Recreatable::DmabufBuffer { dmabuf_guest_id, width, height, planes, .. }) => {
            assert_eq!(*dmabuf_guest_id, 9);
            assert_eq!(*width, 64);
            assert_eq!(*height, 64);
            assert_eq!(planes.len(), 1);
            assert_eq!(planes[0].modifier, 0xAABB_CCDD_EEFF_0011);
        }
        _ => panic!("expected a DmabufBuffer recipe"),
    }
}

#[test]
fn wl_display_is_preseeded_as_1_to_1() {
    let table = ShadowTable::new();
    assert_eq!(table.host_id(1), Some(1));
    assert_eq!(table.guest_id(1), Some(1));
    assert_eq!(table.interface(1).unwrap().name, "wl_display");
}

#[test]
fn translates_in_both_directions_even_when_ids_differ() {
    // Deliberately mismatched ids: the lookup itself is what counts here.
    let mut table = ShadowTable::new();
    table.map(5, 12345, fake_interface());
    assert_eq!(table.host_id(5), Some(12345));
    assert_eq!(table.guest_id(12345), Some(5));
    assert_eq!(table.interface(5).unwrap().name, "fake");
}

#[test]
fn null_object_id_translates_to_itself_both_ways() {
    let table = ShadowTable::new();
    assert_eq!(table.host_id(0), Some(0));
    assert_eq!(table.guest_id(0), Some(0));
}

#[test]
fn untracked_id_fails_to_translate() {
    let table = ShadowTable::new();
    assert_eq!(table.host_id(999), None);
    assert_eq!(table.guest_id(999), None);
}

#[test]
fn remove_guest_forgets_both_directions_and_interface() {
    let mut table = ShadowTable::new();
    table.map(5, 12345, fake_interface());
    table.remove_guest(5);
    assert_eq!(table.host_id(5), None);
    assert_eq!(table.guest_id(12345), None);
    assert!(table.interface(5).is_none());
}

#[test]
fn mapping_belongs_to_the_generation_it_was_mapped_in() {
    let mut table = ShadowTable::new();
    table.map(5, 12345, fake_interface());
    assert!(table.is_current_generation(5), "just mapped, should be current");

    table.bump_generation();
    assert!(!table.is_current_generation(5), "predates the reconnect, now stale");

    // Re-mapping brings it current again.
    table.map(5, 99999, fake_interface());
    assert!(table.is_current_generation(5));
}

#[test]
fn stale_generation_mapping_refuses_to_translate() {
    // Not just is_current_generation -- host_id/guest_id themselves
    // must refuse, the same as an id that was never mapped at all,
    // since a stale-but-still-present entry can numerically coincide
    // with an unrelated fresh object on the new connection (a real,
    // confirmed hazard -- see the `generation` field's doc comment).
    let mut table = ShadowTable::new();
    table.map(5, 12345, fake_interface());
    table.bump_generation();
    assert_eq!(table.host_id(5), None, "stale guest->host translation must fail");
    assert_eq!(table.guest_id(12345), None, "stale host->guest translation must fail");
}

#[test]
fn wl_display_survives_a_generation_bump_without_being_remapped() {
    // Nothing recreates wl_display, so the bump itself must keep it current.
    let mut table = ShadowTable::new();
    table.bump_generation();
    assert_eq!(table.host_id(1), Some(1), "wl_display must stay translatable after a reconnect");
    assert_eq!(table.guest_id(1), Some(1));
    assert!(table.is_current_generation(1));
}

#[test]
fn bump_generation_resets_the_host_id_allocator() {
    // A fresh host connection is a brand new wl_client from the
    // compositor's own perspective, requiring gapless allocation
    // starting at 2 -- continuing to count up from a previous
    // connection's lifetime would reproduce the same "new_id gap"
    // rejection as a dropped message, just against a fresh compositor
    // connection instead.
    let mut table = ShadowTable::new();
    table.allocate_host_id();
    table.allocate_host_id();
    table.allocate_host_id(); // next_host_id is now 5
    table.bump_generation();
    assert_eq!(table.allocate_host_id(), 2, "must restart from 2 after a reconnect");
}

#[test]
fn untracked_id_is_never_current_generation() {
    let table = ShadowTable::new();
    assert!(!table.is_current_generation(999));
}

#[test]
fn remove_guest_forgets_generation_too() {
    let mut table = ShadowTable::new();
    table.map(5, 12345, fake_interface());
    table.remove_guest(5);
    assert!(!table.is_current_generation(5));
}

#[test]
fn allocators_are_independent_and_start_at_protocol_conventional_values() {
    let mut table = ShadowTable::new();
    assert_eq!(table.allocate_host_id(), 2);
    assert_eq!(table.allocate_host_id(), 3);
    assert_eq!(table.allocate_guest_server_id(), 0xff000000);
    assert_eq!(table.allocate_guest_server_id(), 0xff000001);
}

#[test]
fn unallocate_host_id_gives_back_the_most_recent_allocation() {
    let mut table = ShadowTable::new();
    assert_eq!(table.allocate_host_id(), 2);
    assert_eq!(table.allocate_host_id(), 3);
    table.unallocate_host_id(3);
    // 3 was given back -- the next allocation should reuse it, not
    // leave a gap at 3 by jumping straight to 4.
    assert_eq!(table.allocate_host_id(), 3);
}

#[test]
fn unallocate_host_id_is_a_no_op_for_anything_but_the_most_recent_allocation() {
    let mut table = ShadowTable::new();
    table.allocate_host_id(); // 2
    table.allocate_host_id(); // 3
    table.allocate_host_id(); // 4 -- next_host_id is now 5
    // Not the most recent (4) -- must not silently rewind the
    // counter past ids that may already be legitimately in use.
    table.unallocate_host_id(2);
    table.unallocate_host_id(3);
    assert_eq!(table.allocate_host_id(), 5);
}

#[test]
fn a_host_id_moves_with_its_last_mapping() {
    let mut table = ShadowTable::new();
    table.map(5, 50, fake_interface());
    table.map(6, 50, fake_interface());
    assert_eq!(table.guest_id(50), Some(6));
    assert_eq!(table.host_id(5), None);
    table.map(6, 51, fake_interface());
    assert_eq!(table.guest_id(50), None);
    assert_eq!(table.guest_id(51), Some(6));
}

#[test]
fn a_rolled_back_object_leaves_no_trace() {
    let mut table = ShadowTable::new();
    let before = table.next_ids();
    let host = table.allocate_host_id();
    table.map(9, host, fake_interface());
    table.unallocate_host_id(host);
    table.remove_guest(9);
    assert_eq!(table.next_ids(), before);
    assert_eq!(table.host_id(9), None);
    assert_eq!(table.guest_id(host), None);
    assert!(table.interface(9).is_none());
}

#[test]
fn the_lowest_object_of_an_interface_is_found() {
    let mut table = ShadowTable::new();
    table.map(9, 20, fake_interface());
    table.map(7, 21, fake_interface());
    assert_eq!(table.find_guest_id_by_interface_name("fake"), Some(7));
    assert_eq!(table.find_guest_id_by_interface_name("wl_display"), Some(1));
    assert_eq!(table.find_guest_id_by_interface_name("other"), None);
}

#[test]
fn the_name_of_an_unresolvable_interface_is_kept_until_the_id_goes() {
    let mut table = ShadowTable::new();
    table.remember_unresolvable_interface(9, "gtk_shell1".to_string());
    assert_eq!(table.unresolvable_interface_name(9), Some("gtk_shell1"));
    table.remove_guest(9);
    assert_eq!(table.unresolvable_interface_name(9), None);
}

#[test]
fn recipes_stay_in_the_order_they_came() {
    let mut graph: RecreationGraph<u32> = RecreationGraph::new();
    graph.record(3, Recreatable::Global { interface: fake_interface(), version: 1 });
    graph.record(4, Recreatable::Surface { parent_guest_id: 3 });
    graph.record(5, Recreatable::Surface { parent_guest_id: 3 });
    graph.remove(4);
    let ids: Vec<u32> = graph.iter().iter().map(|e| e.0).collect();
    assert_eq!(ids, vec![3, 5]);
    assert_eq!(graph.len(), 2);
}
