//! The session daemon's decisions: input, commands, clients and the steps of
//! its main loop.

pub mod actions;
pub mod connection;
pub mod daemon;
pub mod events;
pub mod ext_handlers;
pub mod input_modes;
pub mod key_meanings;
pub mod mouse;
pub mod mouse_meanings;
pub mod palette;
pub mod render_glue;
pub mod state;
