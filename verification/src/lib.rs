//! Device logic of a small virtual machine monitor: the virtio balloon, the virtio network
//! worker and the control socket that steers the balloon at run time.
//!
//! Everything that decides or computes is here and is proved against its contract. Guest memory
//! is reached through `vm_memory`, whose calls are given contracts that are believed; system calls, sockets and threads are left to the caller, who
//! performs the steps that the functions of this crate ask for.

pub mod balloon;
pub mod bytes;
pub mod control;
pub mod epoll;
pub mod fs;
pub mod guest;
pub mod net;
pub mod platform;
pub mod queue;
pub mod ring_laws;
