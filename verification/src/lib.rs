//! A crash-resilient Wayland proxy, as verified decisions over plain values.
//!
//! The proxy sits between one Wayland client (the *guest* side) and a
//! compositor (the *host* side).  It gives every object its own number on each
//! side, so that the compositor can die and come back under the client without
//! the client noticing: on reconnect the tracked objects are created again and
//! mapped onto the numbers the client already holds.
//!
//! Nothing here reads or writes a socket.  Each module takes bytes, file
//! descriptor handles and trackers, and says which bytes go where.
pub mod adopt_laws;
pub mod arguments;
pub mod buffer_flow;
pub mod cli;
pub mod clipboard;
pub mod clipboard_laws;
mod collections;
pub mod connection;
pub mod desktop_apps;
pub mod dmabuf_laws;
pub mod event_laws;
pub mod grab_laws;
pub mod grab_release;
pub mod grab_state;
pub mod handoff;
pub mod identity_laws;
pub mod interfaces;
pub mod kind_laws;
pub mod kinds;
pub mod life_laws;
pub mod notify;
pub mod outcome_laws;
pub mod pending_frames;
pub mod recorder;
pub mod recovery;
pub mod recovery_laws;
pub mod recovery_run;
pub mod recreation;
pub mod relay;
pub mod relay_laws;
pub mod replay_laws;
pub mod request_laws;
pub mod schema;
pub mod session;
pub mod settle_laws;
pub mod shadow_table;
pub mod signature;
pub mod text;
pub mod wire;

use vstd::prelude::*;

verus! {

} // verus!
