//! The virtio network device: frames between the guest's queues and a backend on the host.

use vstd::prelude::*;

use crate::queue::QueueConfig;

pub mod checksum;
pub mod dispatch;
pub mod frame;
pub mod frame_laws;
pub mod rx;
pub mod rx_run;
pub mod step_laws;
pub mod tx;
pub mod worker;
pub mod worker_laws;

verus! {

/// Room for the largest frame with its virtio header.
pub const MAX_BUFFER_SIZE: usize = 65562;

/// The largest size of each queue.
pub const QUEUE_SIZE: u16 = 1024;

/// A receive and a transmit queue.
pub const NUM_QUEUES: usize = 2;

/// Length of the virtio header in front of each frame.
pub const VNET_HDR_LEN: usize = 12;

/// An error of the operating system.
#[verifier::external_type_specification]
#[verifier::external_body]
pub struct ExIoError(std::io::Error);

/// Why a network device could not be made.
#[derive(Debug)]
pub enum Error {
    /// EventFd error.
    EventFd(std::io::Error),
}

/// What the queues of the device are made with.
pub fn queue_config() -> (r: Vec<QueueConfig>)
    ensures
        r@ == seq![QueueConfig { size: QUEUE_SIZE }, QueueConfig { size: QUEUE_SIZE }],
        r@[0].size == 1024 && r@[1].size == 1024,
{
    let mut r: Vec<QueueConfig> = Vec::with_capacity(NUM_QUEUES);
    r.push(QueueConfig::new(QUEUE_SIZE));
    r.push(QueueConfig::new(QUEUE_SIZE));
    assert(r@ =~= seq![QueueConfig { size: QUEUE_SIZE }, QueueConfig { size: QUEUE_SIZE }]);
    r
}

/// Sets the virtio header at the start of `buf` to all zeros, and returns its length.
pub fn write_virtio_net_hdr(buf: &mut [u8]) -> (n: usize)
    requires
        old(buf)@.len() >= VNET_HDR_LEN,
    ensures
        n == VNET_HDR_LEN,
        final(buf)@ == Seq::new(VNET_HDR_LEN as nat, |i: int| 0u8) + old(buf)@.skip(
            VNET_HDR_LEN as int,
        ),
        n == 12,
        final(buf)@.len() == old(buf)@.len(),
        forall|i: int| 0 <= i < 12 ==> #[trigger] final(buf)@[i] == 0,
        forall|i: int|
            12 <= i < old(buf)@.len() ==> #[trigger] final(buf)@[i] == old(buf)@[i],
{
    let ghost before = buf@;
    for i in 0..VNET_HDR_LEN
        invariant
            buf@.len() == before.len(),
            before.len() >= VNET_HDR_LEN,
            forall|j: int| 0 <= j < i ==> buf@[j] == 0,
            forall|j: int| i <= j < before.len() ==> buf@[j] == before[j],
    {
        buf[i] = 0;
    }
    assert(buf@ =~= Seq::new(VNET_HDR_LEN as nat, |i: int| 0u8) + before.skip(VNET_HDR_LEN as int));
    VNET_HDR_LEN
}

} // verus!
