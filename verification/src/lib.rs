//! Verified core of a terminal multiplexer: pane layout, key maps, wire
//! framing, terminal escape interception, hooks and the decisions of the
//! session daemon.
//!
//! Everything here works on plain values. Sockets, pseudo terminals, signals
//! and the clock belong to the program around the library.

pub mod bytes;
pub mod cli;
pub mod codec;
pub mod env_interp;
pub mod hooks;
pub mod ipc;
pub mod keymap;
pub mod keys;
pub mod layout;
pub mod observability;
pub mod pane;
pub mod paths;
pub mod project;
pub mod protocol;
pub mod ratio;
pub mod render;
pub mod render_diff;
pub mod server;
pub mod session;
pub mod settings;
pub mod signals;
pub mod snapshot_blob;
pub mod socket_security;
pub mod text;
pub mod terminal_state;
