//! Which names stand behind the kinds of message.
use crate::kinds;
use crate::recreation::SeatDeviceKind;
use crate::schema::Direction;
use vstd::prelude::*;

verus! {

/// A request is of a kind exactly if it is the one named here; every other
/// request is of none.
pub proof fn lemma_request_names(interface: Seq<char>, method: Seq<char>)
    ensures
        ({
            let k = kinds::kind_of(Direction::ClientToHost, interface, method);
            &&& k is Bind <==> interface == "wl_registry"@ && method == "bind"@
            &&& k is CreateSurface <==> interface == "wl_compositor"@ && method
                == "create_surface"@
            &&& k is GetXdgSurface <==> interface == "xdg_wm_base"@ && method
                == "get_xdg_surface"@
            &&& k is GetToplevel <==> interface == "xdg_surface"@ && method == "get_toplevel"@
            &&& k is CreatePool <==> interface == "wl_shm"@ && method == "create_pool"@
            &&& k is CreateBuffer <==> interface == "wl_shm_pool"@ && method == "create_buffer"@
            &&& k is CreateParams <==> interface == "zwp_linux_dmabuf_v1"@ && method
                == "create_params"@
            &&& k is CreateImmed <==> interface == "zwp_linux_buffer_params_v1"@ && method
                == "create_immed"@
            &&& (k is GetSeatDevice && k->0 == SeatDeviceKind::Pointer) <==> interface
                == "wl_seat"@ && method == "get_pointer"@
            &&& (k is GetSeatDevice && k->0 == SeatDeviceKind::Keyboard) <==> interface
                == "wl_seat"@ && method == "get_keyboard"@
            &&& (k is GetSeatDevice && k->0 == SeatDeviceKind::Touch) <==> interface
                == "wl_seat"@ && method == "get_touch"@
            &&& k is GetViewport <==> interface == "wp_viewporter"@ && method == "get_viewport"@
            &&& k is GetFractionalScale <==> interface == "wp_fractional_scale_manager_v1"@
                && method == "get_fractional_scale"@
            &&& k is Frame <==> interface == "wl_surface"@ && method == "frame"@
            &&& k is Sync <==> interface == "wl_display"@ && method == "sync"@
            &&& k is PoolResize <==> interface == "wl_shm_pool"@ && method == "resize"@
            &&& k is SetTitle <==> interface == "xdg_toplevel"@ && method == "set_title"@
            &&& k is SetAppId <==> interface == "xdg_toplevel"@ && method == "set_app_id"@
            &&& k is SetDestination <==> interface == "wp_viewport"@ && method
                == "set_destination"@
            &&& k is Attach <==> interface == "wl_surface"@ && method == "attach"@
            &&& k is Commit <==> interface == "wl_surface"@ && method == "commit"@
            &&& k is AckConfigure <==> interface == "xdg_surface"@ && method == "ack_configure"@
            &&& k is ParamsAdd <==> interface == "zwp_linux_buffer_params_v1"@ && method == "add"@
            &&& k is DeleteId ==> interface == "wl_display"@ && method == "delete_id"@
            &&& !(k is PointerEnter) && !(k is PointerLeave) && !(k is PointerButton)
            &&& !(k is KeyboardEnter) && !(k is KeyboardLeave) && !(k is KeyboardKey)
            &&& !(k is TouchDown) && !(k is BufferRelease) && !(k is CallbackDone)
            &&& !(k is SourceSend)
        }),
{
    reveal_strlit("wl_display");
    reveal_strlit("wl_surface");
    reveal_strlit("wl_registry");
    reveal_strlit("wl_compositor");
    reveal_strlit("xdg_wm_base");
    reveal_strlit("xdg_surface");
    reveal_strlit("xdg_toplevel");
    reveal_strlit("wl_shm");
    reveal_strlit("wl_shm_pool");
    reveal_strlit("zwp_linux_dmabuf_v1");
    reveal_strlit("zwp_linux_buffer_params_v1");
    reveal_strlit("wl_seat");
    reveal_strlit("wp_viewporter");
    reveal_strlit("wp_viewport");
    reveal_strlit("wp_fractional_scale_manager_v1");
    reveal_strlit("attach");
    reveal_strlit("commit");
    reveal_strlit("frame");
    reveal_strlit("get_toplevel");
    reveal_strlit("ack_configure");
    reveal_strlit("set_title");
    reveal_strlit("set_app_id");
    reveal_strlit("create_buffer");
    reveal_strlit("resize");
    reveal_strlit("create_immed");
    reveal_strlit("add");
    reveal_strlit("get_pointer");
    reveal_strlit("get_keyboard");
    reveal_strlit("get_touch");
    reveal_strlit("delete_id");
    reveal_strlit("error");
    reveal_strlit("sync");
    assert("wl_display"@.len() == 10);
    assert("wl_surface"@.len() == 10);
    assert("wl_registry"@.len() == 11);
    assert("wl_compositor"@.len() == 13);
    assert("xdg_wm_base"@.len() == 11);
    assert("xdg_surface"@.len() == 11);
    assert("xdg_toplevel"@.len() == 12);
    assert("wl_shm"@.len() == 6);
    assert("wl_shm_pool"@.len() == 11);
    assert("zwp_linux_dmabuf_v1"@.len() == 19);
    assert("zwp_linux_buffer_params_v1"@.len() == 26);
    assert("wl_seat"@.len() == 7);
    assert("wp_viewporter"@.len() == 13);
    assert("wp_viewport"@.len() == 11);
    assert("wp_fractional_scale_manager_v1"@.len() == 30);
    assert("attach"@.len() == 6);
    assert("commit"@.len() == 6);
    assert("frame"@.len() == 5);
    assert("get_toplevel"@.len() == 12);
    assert("ack_configure"@.len() == 13);
    assert("set_title"@.len() == 9);
    assert("set_app_id"@.len() == 10);
    assert("create_buffer"@.len() == 13);
    assert("resize"@.len() == 6);
    assert("create_immed"@.len() == 12);
    assert("add"@.len() == 3);
    assert("get_pointer"@.len() == 11);
    assert("get_keyboard"@.len() == 12);
    assert("get_touch"@.len() == 9);
    assert("delete_id"@.len() == 9);
    assert("error"@.len() == 5);
    assert("sync"@.len() == 4);
    assert("wl_display"@[3] != "wl_surface"@[3]);
    assert("wl_compositor"@[1] != "wp_viewporter"@[1]);
    assert("wl_registry"@[3] == 'r' && "xdg_wm_base"@[3] == '_' && "xdg_surface"@[3] == '_'
        && "wl_shm_pool"@[3] == 's' && "wp_viewport"@[3] == 'v');
    assert("xdg_wm_base"@[4] != "xdg_surface"@[4]);
    assert("attach"@[0] != "commit"@[0]);
}

/// An event is of a kind exactly if it is the one named here; every other
/// event is of none.
pub proof fn lemma_event_names(interface: Seq<char>, method: Seq<char>)
    ensures
        ({
            let k = kinds::kind_of(Direction::HostToClient, interface, method);
            &&& k is PointerEnter <==> interface == "wl_pointer"@ && method == "enter"@
            &&& k is PointerLeave <==> interface == "wl_pointer"@ && method == "leave"@
            &&& k is PointerButton <==> interface == "wl_pointer"@ && method == "button"@
            &&& k is KeyboardEnter <==> interface == "wl_keyboard"@ && method == "enter"@
            &&& k is KeyboardLeave <==> interface == "wl_keyboard"@ && method == "leave"@
            &&& k is KeyboardKey <==> interface == "wl_keyboard"@ && method == "key"@
            &&& k is TouchDown <==> interface == "wl_touch"@ && method == "down"@
            &&& k is BufferRelease <==> interface == "wl_buffer"@ && method == "release"@
            &&& k is CallbackDone <==> interface == "wl_callback"@ && method == "done"@
            &&& k is SourceSend <==> interface == "wl_data_source"@ && method == "send"@
            &&& k is DeleteId <==> interface == "wl_display"@ && method == "delete_id"@
            &&& k is DisplayError <==> interface == "wl_display"@ && method == "error"@
            &&& !(k is Bind) && !(k is CreateSurface) && !(k is GetXdgSurface)
            &&& !(k is GetToplevel) && !(k is CreatePool) && !(k is CreateBuffer)
            &&& !(k is CreateParams) && !(k is CreateImmed) && !(k is GetSeatDevice)
            &&& !(k is GetViewport) && !(k is GetFractionalScale) && !(k is Frame)
            &&& !(k is Sync) && !(k is PoolResize) && !(k is SetTitle) && !(k is SetAppId)
            &&& !(k is SetDestination) && !(k is Attach) && !(k is Commit)
            &&& !(k is AckConfigure) && !(k is ParamsAdd)
        }),
{
    reveal_strlit("wl_display");
    reveal_strlit("wl_pointer");
    reveal_strlit("wl_keyboard");
    reveal_strlit("wl_touch");
    reveal_strlit("wl_buffer");
    reveal_strlit("wl_callback");
    reveal_strlit("wl_data_source");
    reveal_strlit("enter");
    reveal_strlit("leave");
    reveal_strlit("button");
    reveal_strlit("key");
    reveal_strlit("delete_id");
    reveal_strlit("error");
    assert("wl_display"@.len() == 10);
    assert("wl_pointer"@.len() == 10);
    assert("wl_keyboard"@.len() == 11);
    assert("wl_touch"@.len() == 8);
    assert("wl_buffer"@.len() == 9);
    assert("wl_callback"@.len() == 11);
    assert("wl_data_source"@.len() == 14);
    assert("enter"@.len() == 5);
    assert("leave"@.len() == 5);
    assert("button"@.len() == 6);
    assert("key"@.len() == 3);
    assert("delete_id"@.len() == 9);
    assert("error"@.len() == 5);
    assert("wl_display"@[3] != "wl_pointer"@[3]);
    assert("wl_keyboard"@[3] != "wl_callback"@[3]);
    assert("enter"@[0] != "leave"@[0]);
}

/// Whether an event lends its serial to the clipboard: input of the seat's own
/// devices, at the moments that a selection may be set in answer to.
pub open spec fn lends_serial(interface: Seq<char>, event: Seq<char>) -> bool {
    ||| interface == "wl_pointer"@ && (event == "enter"@ || event == "leave"@ || event == "button"@)
    ||| interface == "wl_keyboard"@ && (event == "enter"@ || event == "leave"@ || event == "key"@)
    ||| interface == "wl_touch"@ && event == "down"@
}

/// Input events with a serial are these and no others, and no request is one.
pub proof fn lemma_input_serial_names(direction: Direction, interface: Seq<char>, method: Seq<char>)
    ensures
        kinds::kind_of(direction, interface, method).carries_input_serial() <==> direction
            is HostToClient && lends_serial(interface, method),
{
    lemma_request_names(interface, method);
    lemma_event_names(interface, method);
}

} // verus!
