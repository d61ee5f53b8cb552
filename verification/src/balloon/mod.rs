//! The virtio balloon: memory that the guest hands back to the host.

pub mod device;
pub mod device_laws;
pub mod drain;
pub mod inflate;
pub mod inflate_laws;
pub mod release;
