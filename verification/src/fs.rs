//! Configuration of a shared file system device.

use vstd::prelude::*;

verus! {

/// How a directory of the host is shared with the guest.
#[derive(Clone, Debug)]
pub struct FsDeviceConfig {
    pub fs_id: String,
    pub shared_dir: String,
    pub shm_size: Option<usize>,
    pub allow_root_dir_delete: bool,
    /// When true, the file system server rejects all mutating operations with EROFS. This
    /// enforces read-only access on the host's side, not inside the guest.
    pub read_only: bool,
}

} // verus!
