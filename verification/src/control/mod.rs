//! The control socket: a line protocol for steering a running virtual machine.

pub mod command;
pub mod command_laws;
pub mod json;
pub mod socket;
pub mod socket_laws;
pub mod text;
pub mod text_laws;
