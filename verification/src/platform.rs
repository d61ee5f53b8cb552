//! The host platforms, whose hypervisors differ.

use vstd::prelude::*;

verus! {

/// The operating system of the host.
#[derive(Clone, Copy, Debug, PartialEq, Eq, Structural)]
pub enum Platform {
    /// Linux with KVM.
    Linux,
    /// macOS with the Hypervisor framework, which pins the pages of a guest.
    MacOs,
}

} // verus!
