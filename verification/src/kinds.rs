//! Which messages the relay takes a closer look at.
use crate::schema::{same_text, Direction};
use crate::recreation::SeatDeviceKind;
use vstd::prelude::*;

verus! {

/// A message the relay knows by name.
#[derive(Debug, Clone, Copy, PartialEq, Eq, Structural)]
pub enum Kind {
    // Requests that create an object.
    Bind,
    CreateSurface,
    GetXdgSurface,
    GetToplevel,
    CreatePool,
    CreateBuffer,
    CreateParams,
    CreateImmed,
    GetSeatDevice(SeatDeviceKind),
    GetViewport,
    GetFractionalScale,
    Frame,
    Sync,
    // Other requests.
    PoolResize,
    SetTitle,
    SetAppId,
    SetDestination,
    Attach,
    Commit,
    AckConfigure,
    ParamsAdd,
    // Events.
    PointerEnter,
    PointerLeave,
    PointerButton,
    KeyboardEnter,
    KeyboardLeave,
    KeyboardKey,
    TouchDown,
    BufferRelease,
    CallbackDone,
    SourceSend,
    // Events of the display.
    DeleteId,
    DisplayError,
    /// Anything else.
    Other,
}

impl Kind {
    /// Whether this is an input event that carries a serial of the
    /// compositor's own.
    pub open spec fn carries_input_serial(self) -> bool {
        ||| self is PointerEnter
        ||| self is PointerLeave
        ||| self is PointerButton
        ||| self is KeyboardEnter
        ||| self is KeyboardLeave
        ||| self is KeyboardKey
        ||| self is TouchDown
    }

    pub(crate) fn has_input_serial(self) -> (r: bool)
        ensures
            r == self.carries_input_serial(),
    {
        match self {
            Kind::PointerEnter | Kind::PointerLeave | Kind::PointerButton | Kind::KeyboardEnter
            | Kind::KeyboardLeave | Kind::KeyboardKey | Kind::TouchDown => true,
            _ => false,
        }
    }
}

/// What kind of request `method` of `interface` is.
pub open spec fn request_kind(interface: Seq<char>, method: Seq<char>) -> Kind {
    if interface == "wl_surface"@ {
        if method == "attach"@ {
            Kind::Attach
        } else if method == "commit"@ {
            Kind::Commit
        } else if method == "frame"@ {
            Kind::Frame
        } else {
            Kind::Other
        }
    } else if interface == "wl_registry"@ && method == "bind"@ {
        Kind::Bind
    } else if interface == "wl_compositor"@ && method == "create_surface"@ {
        Kind::CreateSurface
    } else if interface == "xdg_wm_base"@ && method == "get_xdg_surface"@ {
        Kind::GetXdgSurface
    } else if interface == "xdg_surface"@ && method == "get_toplevel"@ {
        Kind::GetToplevel
    } else if interface == "xdg_surface"@ && method == "ack_configure"@ {
        Kind::AckConfigure
    } else if interface == "xdg_toplevel"@ && method == "set_title"@ {
        Kind::SetTitle
    } else if interface == "xdg_toplevel"@ && method == "set_app_id"@ {
        Kind::SetAppId
    } else if interface == "wl_shm"@ && method == "create_pool"@ {
        Kind::CreatePool
    } else if interface == "wl_shm_pool"@ && method == "create_buffer"@ {
        Kind::CreateBuffer
    } else if interface == "wl_shm_pool"@ && method == "resize"@ {
        Kind::PoolResize
    } else if interface == "zwp_linux_dmabuf_v1"@ && method == "create_params"@ {
        Kind::CreateParams
    } else if interface == "zwp_linux_buffer_params_v1"@ && method == "create_immed"@ {
        Kind::CreateImmed
    } else if interface == "zwp_linux_buffer_params_v1"@ && method == "add"@ {
        Kind::ParamsAdd
    } else if interface == "wl_seat"@ {
        if method == "get_pointer"@ {
            Kind::GetSeatDevice(SeatDeviceKind::Pointer)
        } else if method == "get_keyboard"@ {
            Kind::GetSeatDevice(SeatDeviceKind::Keyboard)
        } else if method == "get_touch"@ {
            Kind::GetSeatDevice(SeatDeviceKind::Touch)
        } else {
            Kind::Other
        }
    } else if interface == "wp_viewporter"@ && method == "get_viewport"@ {
        Kind::GetViewport
    } else if interface == "wp_viewport"@ && method == "set_destination"@ {
        Kind::SetDestination
    } else if interface == "wp_fractional_scale_manager_v1"@ && method == "get_fractional_scale"@ {
        Kind::GetFractionalScale
    } else {
        Kind::Other
    }
}

/// What kind of event `method` of `interface` is.
pub open spec fn event_kind(interface: Seq<char>, method: Seq<char>) -> Kind {
    if interface == "wl_pointer"@ {
        if method == "enter"@ {
            Kind::PointerEnter
        } else if method == "leave"@ {
            Kind::PointerLeave
        } else if method == "button"@ {
            Kind::PointerButton
        } else {
            Kind::Other
        }
    } else if interface == "wl_keyboard"@ {
        if method == "enter"@ {
            Kind::KeyboardEnter
        } else if method == "leave"@ {
            Kind::KeyboardLeave
        } else if method == "key"@ {
            Kind::KeyboardKey
        } else {
            Kind::Other
        }
    } else if interface == "wl_touch"@ && method == "down"@ {
        Kind::TouchDown
    } else if interface == "wl_buffer"@ && method == "release"@ {
        Kind::BufferRelease
    } else if interface == "wl_callback"@ && method == "done"@ {
        Kind::CallbackDone
    } else if interface == "wl_data_source"@ && method == "send"@ {
        Kind::SourceSend
    } else {
        Kind::Other
    }
}

/// What kind of message `method` of `interface` is.
pub open spec fn kind_of(direction: Direction, interface: Seq<char>, method: Seq<char>) -> Kind {
    if interface == "wl_display"@ {
        if method == "delete_id"@ {
            Kind::DeleteId
        } else if method == "error"@ {
            Kind::DisplayError
        } else if direction is ClientToHost && method == "sync"@ {
            Kind::Sync
        } else {
            Kind::Other
        }
    } else {
        match direction {
            Direction::ClientToHost => request_kind(interface, method),
            Direction::HostToClient => event_kind(interface, method),
        }
    }
}

fn classify_request(interface: &str, method: &str) -> (r: Kind)
    ensures
        r == request_kind(interface@, method@),
{
    if same_text(interface, "wl_surface") {
        if same_text(method, "attach") {
            Kind::Attach
        } else if same_text(method, "commit") {
            Kind::Commit
        } else if same_text(method, "frame") {
            Kind::Frame
        } else {
            Kind::Other
        }
    } else if same_text(interface, "wl_registry") && same_text(method, "bind") {
        Kind::Bind
    } else if same_text(interface, "wl_compositor") && same_text(method, "create_surface") {
        Kind::CreateSurface
    } else if same_text(interface, "xdg_wm_base") && same_text(method, "get_xdg_surface") {
        Kind::GetXdgSurface
    } else if same_text(interface, "xdg_surface") && same_text(method, "get_toplevel") {
        Kind::GetToplevel
    } else if same_text(interface, "xdg_surface") && same_text(method, "ack_configure") {
        Kind::AckConfigure
    } else if same_text(interface, "xdg_toplevel") && same_text(method, "set_title") {
        Kind::SetTitle
    } else if same_text(interface, "xdg_toplevel") && same_text(method, "set_app_id") {
        Kind::SetAppId
    } else if same_text(interface, "wl_shm") && same_text(method, "create_pool") {
        Kind::CreatePool
    } else if same_text(interface, "wl_shm_pool") && same_text(method, "create_buffer") {
        Kind::CreateBuffer
    } else if same_text(interface, "wl_shm_pool") && same_text(method, "resize") {
        Kind::PoolResize
    } else if same_text(interface, "zwp_linux_dmabuf_v1") && same_text(method, "create_params") {
        Kind::CreateParams
    } else if same_text(interface, "zwp_linux_buffer_params_v1") && same_text(
        method,
        "create_immed",
    ) {
        Kind::CreateImmed
    } else if same_text(interface, "zwp_linux_buffer_params_v1") && same_text(method, "add") {
        Kind::ParamsAdd
    } else if same_text(interface, "wl_seat") {
        if same_text(method, "get_pointer") {
            Kind::GetSeatDevice(SeatDeviceKind::Pointer)
        } else if same_text(method, "get_keyboard") {
            Kind::GetSeatDevice(SeatDeviceKind::Keyboard)
        } else if same_text(method, "get_touch") {
            Kind::GetSeatDevice(SeatDeviceKind::Touch)
        } else {
            Kind::Other
        }
    } else if same_text(interface, "wp_viewporter") && same_text(method, "get_viewport") {
        Kind::GetViewport
    } else if same_text(interface, "wp_viewport") && same_text(method, "set_destination") {
        Kind::SetDestination
    } else if same_text(interface, "wp_fractional_scale_manager_v1") && same_text(
        method,
        "get_fractional_scale",
    ) {
        Kind::GetFractionalScale
    } else {
        Kind::Other
    }
}

fn classify_event(interface: &str, method: &str) -> (r: Kind)
    ensures
        r == event_kind(interface@, method@),
{
    if same_text(interface, "wl_pointer") {
        if same_text(method, "enter") {
            Kind::PointerEnter
        } else if same_text(method, "leave") {
            Kind::PointerLeave
        } else if same_text(method, "button") {
            Kind::PointerButton
        } else {
            Kind::Other
        }
    } else if same_text(interface, "wl_keyboard") {
        if same_text(method, "enter") {
            Kind::KeyboardEnter
        } else if same_text(method, "leave") {
            Kind::KeyboardLeave
        } else if same_text(method, "key") {
            Kind::KeyboardKey
        } else {
            Kind::Other
        }
    } else if same_text(interface, "wl_touch") && same_text(method, "down") {
        Kind::TouchDown
    } else if same_text(interface, "wl_buffer") && same_text(method, "release") {
        Kind::BufferRelease
    } else if same_text(interface, "wl_callback") && same_text(method, "done") {
        Kind::CallbackDone
    } else if same_text(interface, "wl_data_source") && same_text(method, "send") {
        Kind::SourceSend
    } else {
        Kind::Other
    }
}

/// What kind of message `method` of `interface` is.
pub fn classify(direction: Direction, interface: &str, method: &str) -> (r: Kind)
    ensures
        r == kind_of(direction, interface@, method@),
{
    if same_text(interface, "wl_display") {
        if same_text(method, "delete_id") {
            Kind::DeleteId
        } else if same_text(method, "error") {
            Kind::DisplayError
        } else if matches!(direction, Direction::ClientToHost) && same_text(method, "sync") {
            Kind::Sync
        } else {
            Kind::Other
        }
    } else {
        match direction {
            Direction::ClientToHost => classify_request(interface, method),
            Direction::HostToClient => classify_event(interface, method),
        }
    }
}

/// The globals that everything worth recreating descends from.
pub open spec fn is_root_name(interface: Seq<char>) -> bool {
    ||| interface == "wl_compositor"@
    ||| interface == "xdg_wm_base"@
    ||| interface == "wl_shm"@
    ||| interface == "zwp_linux_dmabuf_v1"@
    ||| interface == "wl_seat"@
    ||| interface == "wp_viewporter"@
    ||| interface == "wp_fractional_scale_manager_v1"@
}

/// Whether a global of this interface is recreated after a reconnect.
pub fn is_root(interface: &str) -> (r: bool)
    ensures
        r == is_root_name(interface@),
{
    same_text(interface, "wl_compositor") || same_text(interface, "xdg_wm_base") || same_text(
        interface,
        "wl_shm",
    ) || same_text(interface, "zwp_linux_dmabuf_v1") || same_text(interface, "wl_seat")
        || same_text(interface, "wp_viewporter") || same_text(
        interface,
        "wp_fractional_scale_manager_v1",
    )
}

} // verus!
