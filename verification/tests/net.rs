//! The network device: frames, checksums, and the worker between queues and backend.

use krun_devices::epoll::{
    EventSet, EVENT_EDGE_TRIGGERED, EVENT_HANG_UP, EVENT_IN, EVENT_OUT, EVENT_READ_HANG_UP,
};
use krun_devices::fs::FsDeviceConfig;
use krun_devices::net::checksum::{finalize_checksum, VIRTIO_NET_HDR_F_NEEDS_CSUM};
use krun_devices::net::dispatch::{
    dispatch, goes_on_after_finish, interest_list, retry_timer, WorkerFds, WorkerTask, TX_TIMER_FD,
};
use krun_devices::net::frame::{deliver, deliver_once, gather_frame, place_frame, FrontendError};
use krun_devices::net::rx::{RxAction, RxError, RxEvent};
use krun_devices::net::tx::{TxAction, TxError, TxEvent, TxPhase, WriteError};
use krun_devices::net::worker::NetWorker;
use krun_devices::net::{
    queue_config, write_virtio_net_hdr, Error, MAX_BUFFER_SIZE, NUM_QUEUES, VNET_HDR_LEN,
};
use krun_devices::platform::Platform;
use krun_devices::queue::{Descriptor, Queue, QueueError};
use virtio_bindings::virtio_net;
use vm_memory::{Bytes, GuestAddress, GuestMemoryMmap, Le16, Le32, Le64};

const RX_BASE: u64 = 0;
const TX_BASE: u64 = 0x4000;
const DATA: u64 = 0x8000;

fn memory() -> GuestMemoryMmap<()> {
    GuestMemoryMmap::from_ranges(&[(GuestAddress(0), 0x40000)]).unwrap()
}

/// A queue of 16 entries whose rings lie behind each other from `base` on.
fn queue_at(base: u64) -> Queue {
    let mut q = Queue::new(16);
    q.ready = true;
    q.desc_table = base;
    q.avail_ring = base + 16 * 16;
    q.used_ring = (q.avail_ring + 6 + 2 * 16 + 3) & !3;
    q
}

fn write_descriptor(mem: &GuestMemoryMmap<()>, base: u64, index: u16, d: (u64, u32, u16, u16)) {
    let at = base + 16 * u64::from(index);
    mem.write_obj(Le64::from(d.0), GuestAddress(at)).unwrap();
    mem.write_obj(Le32::from(d.1), GuestAddress(at + 8)).unwrap();
    mem.write_obj(Le16::from(d.2), GuestAddress(at + 12)).unwrap();
    mem.write_obj(Le16::from(d.3), GuestAddress(at + 14)).unwrap();
}

/// Makes the chains that start at `heads` available, from the first ring entry on.
fn make_available(mem: &GuestMemoryMmap<()>, base: u64, heads: &[u16]) {
    let avail = queue_at(base).avail_ring;
    for (i, head) in heads.iter().enumerate() {
        mem.write_obj(Le16::from(*head), GuestAddress(avail + 4 + 2 * i as u64))
            .unwrap();
    }
    mem.write_obj(Le16::from(heads.len() as u16), GuestAddress(avail + 2))
        .unwrap();
}

fn bytes_at(mem: &GuestMemoryMmap<()>, at: u64, len: usize) -> Vec<u8> {
    let mut v = vec![0u8; len];
    mem.read_slice(&mut v, GuestAddress(at)).unwrap();
    v
}

fn used_idx(mem: &GuestMemoryMmap<()>, base: u64) -> u16 {
    let v: Le16 = mem
        .read_obj(GuestAddress(queue_at(base).used_ring + 2))
        .unwrap();
    u16::from(v)
}

/// Head and length of the used element at `index`.
fn used_element(mem: &GuestMemoryMmap<()>, base: u64, index: u64) -> (u32, u32) {
    let at = queue_at(base).used_ring + 4 + 8 * index;
    let head: Le32 = mem.read_obj(GuestAddress(at)).unwrap();
    let len: Le32 = mem.read_obj(GuestAddress(at + 4)).unwrap();
    (u32::from(head), u32::from(len))
}

fn notify_flag(mem: &GuestMemoryMmap<()>, base: u64) -> u16 {
    let v: Le16 = mem
        .read_obj(GuestAddress(queue_at(base).used_ring))
        .unwrap();
    u16::from(v)
}

fn worker(mem: &GuestMemoryMmap<()>) -> NetWorker {
    NetWorker::new(queue_at(RX_BASE), queue_at(TX_BASE), mem.clone())
}

fn descriptor(addr: u64, len: u32, flags: u16) -> Descriptor {
    Descriptor {
        addr,
        len,
        flags,
        next: 0,
    }
}

// --- Constants and small parts ---

#[test]
fn header_is_that_of_virtio() {
    assert_eq!(VNET_HDR_LEN, std::mem::size_of::<virtio_net::virtio_net_hdr_v1>());
    assert_eq!(
        u32::from(VIRTIO_NET_HDR_F_NEEDS_CSUM),
        virtio_net::VIRTIO_NET_HDR_F_NEEDS_CSUM
    );
}

#[test]
fn events_are_those_of_epoll() {
    assert_eq!(EVENT_IN, libc::EPOLLIN as u32);
    assert_eq!(EVENT_OUT, libc::EPOLLOUT as u32);
    assert_eq!(EVENT_HANG_UP, libc::EPOLLHUP as u32);
    assert_eq!(EVENT_READ_HANG_UP, libc::EPOLLRDHUP as u32);
    assert_eq!(EVENT_EDGE_TRIGGERED, libc::EPOLLET as u32);
    let set = EventSet::new(EVENT_IN | EVENT_OUT);
    assert!(set.contains(EVENT_IN));
    assert!(!set.contains(EVENT_IN | EVENT_HANG_UP));
    assert!(!set.is_empty());
    assert!(EventSet::new(0).is_empty());
}

#[test]
fn device_has_two_queues() {
    let sizes: Vec<u16> = queue_config().iter().map(|c| c.size).collect();
    assert_eq!(sizes, vec![1024; NUM_QUEUES]);
}

#[test]
fn header_is_zeroed() {
    let mut buf = [0xffu8; 14];
    assert_eq!(write_virtio_net_hdr(&mut buf), 12);
    assert_eq!(buf, [0, 0, 0, 0, 0, 0, 0, 0, 0, 0, 0, 0, 0xff, 0xff]);
}

#[test]
fn configurations_are_plain_values() {
    let error = Error::EventFd(std::io::Error::from_raw_os_error(libc::EMFILE));
    let Error::EventFd(e) = error;
    assert_eq!(e.raw_os_error(), Some(libc::EMFILE));
    let config = FsDeviceConfig {
        fs_id: "/dev/root".to_string(),
        shared_dir: "/srv".to_string(),
        shm_size: Some(64),
        allow_root_dir_delete: false,
        read_only: true,
    };
    let copy = config.clone();
    assert_eq!(copy.fs_id, "/dev/root");
    assert!(copy.read_only);
}

// --- Checksums ---

/// A frame with a virtio header that asks for a checksum over the bytes from `start` on.
fn frame_asking(start: u16, offset: u16, payload: &[u8]) -> Vec<u8> {
    let mut frame = vec![0u8; VNET_HDR_LEN];
    frame[0] = 1;
    frame[6..8].copy_from_slice(&start.to_le_bytes());
    frame[8..10].copy_from_slice(&offset.to_le_bytes());
    frame.extend_from_slice(payload);
    frame
}

#[test]
fn checksum_goes_into_its_field() {
    // The well-known header whose checksum is 0xb861.
    let header = [
        0x45u8, 0x00, 0x00, 0x73, 0x00, 0x00, 0x40, 0x00, 0x40, 0x11, 0x00, 0x00, 0xc0, 0xa8, 0x00,
        0x01, 0xc0, 0xa8, 0x00, 0xc7,
    ];
    let mut frame = frame_asking(0, 10, &header);
    finalize_checksum(&mut frame);
    assert_eq!(&frame[22..24], &[0xb8, 0x61]);
    // Everything else is as it was.
    let mut expected = frame_asking(0, 10, &header);
    expected[22] = 0xb8;
    expected[23] = 0x61;
    assert_eq!(frame, expected);
}

#[test]
fn sum_in_the_field_counts() {
    // The pseudo header sum stands in the field and is added in.
    let mut frame = frame_asking(2, 2, &[0xaa, 0xaa, 0x00, 0x01, 0x12, 0x34, 0x80]);
    finalize_checksum(&mut frame);
    // 0x0001 + 0x1234 + 0x8000 = 0x9235, complemented 0x6dca.
    assert_eq!(&frame[16..18], &[0x6d, 0xca]);
    assert_eq!(&frame[12..16], &[0xaa, 0xaa, 0x00, 0x01]);
}

#[test]
fn finished_segment_sums_to_all_ones() {
    let payload: Vec<u8> = (0..41u8).map(|i| i.wrapping_mul(37)).collect();
    let mut frame = frame_asking(4, 6, &payload);
    frame[VNET_HDR_LEN + 10] = 0;
    frame[VNET_HDR_LEN + 11] = 0;
    finalize_checksum(&mut frame);
    let mut sum: u32 = 0;
    for word in frame[VNET_HDR_LEN + 4..].chunks(2) {
        sum += u32::from(word[0]) * 256 + word.get(1).map_or(0, |b| u32::from(*b));
    }
    while sum > 0xffff {
        sum = (sum & 0xffff) + (sum >> 16);
    }
    assert_eq!(sum, 0xffff);
}

#[test]
fn frame_without_the_flag_stays() {
    let mut frame = frame_asking(0, 2, &[1, 2, 3, 4, 5, 6]);
    frame[0] = 0;
    let before = frame.clone();
    finalize_checksum(&mut frame);
    assert_eq!(frame, before);
}

#[test]
fn short_frame_stays() {
    let mut frame = frame_asking(0, 5, &[1, 2, 3, 4, 5, 6]);
    let before = frame.clone();
    finalize_checksum(&mut frame);
    assert_eq!(frame, before);
    let mut stub = [1u8; 11];
    finalize_checksum(&mut stub);
    assert_eq!(stub, [1u8; 11]);
    let mut empty: [u8; 0] = [];
    finalize_checksum(&mut empty);
}

// --- Frames ---

#[test]
fn frame_is_spread_over_a_chain() {
    let mut mem = memory();
    let frame: Vec<u8> = (1..=10).collect();
    let ds = vec![
        descriptor(DATA, 4, 2),
        descriptor(DATA + 0x100, 0, 2),
        descriptor(DATA + 0x200, 100, 2),
        descriptor(DATA + 0x300, 100, 0),
    ];
    // The last descriptor, behind the end of the frame, is not looked at.
    assert_eq!(place_frame(&mut mem, &frame, 10, &ds), Ok(()));
    assert_eq!(bytes_at(&mem, DATA, 5), vec![1, 2, 3, 4, 0]);
    assert_eq!(
        bytes_at(&mem, DATA + 0x200, 7),
        vec![5, 6, 7, 8, 9, 10, 0]
    );
}

#[test]
fn errors_of_placing_a_frame() {
    let mut mem = memory();
    let frame: Vec<u8> = (1..=10).collect();
    assert_eq!(
        place_frame(&mut mem, &frame, 10, &vec![descriptor(DATA, 9, 2)]),
        Err(FrontendError::DescriptorChainTooSmall)
    );
    assert_eq!(
        place_frame(&mut mem, &frame, 10, &vec![descriptor(DATA, 20, 0)]),
        Err(FrontendError::ReadOnlyDescriptor)
    );
    assert_eq!(
        place_frame(&mut mem, &frame, 10, &vec![descriptor(0x3fffc, 20, 2)]),
        Err(FrontendError::GuestMemory)
    );
    assert_eq!(place_frame(&mut mem, &frame, 0, &vec![]), Ok(()));
}

#[test]
fn failed_delivery_gives_the_chain_back_empty() {
    let mut mem = memory();
    let mut q = queue_at(RX_BASE);
    let frame: Vec<u8> = (1..=10).collect();
    assert_eq!(
        deliver_once(&mut q, &mut mem, &frame, 10),
        Err(FrontendError::EmptyQueue)
    );
    write_descriptor(&mem, RX_BASE, 0, (DATA, 5, 2, 0));
    write_descriptor(&mem, RX_BASE, 1, (DATA + 0x100, 50, 2, 0));
    make_available(&mem, RX_BASE, &[0, 1]);
    assert_eq!(
        deliver_once(&mut q, &mut mem, &frame, 10),
        Err(FrontendError::DescriptorChainTooSmall)
    );
    assert_eq!(used_element(&mem, RX_BASE, 0), (0, 0));
    assert_eq!(deliver_once(&mut q, &mut mem, &frame, 10), Ok(()));
    assert_eq!(used_element(&mem, RX_BASE, 1), (1, 10));
    assert_eq!(bytes_at(&mem, DATA + 0x100, 10), frame);
}

#[test]
fn chain_that_cannot_be_given_back_is_an_error() {
    let mut mem = memory();
    let mut q = queue_at(RX_BASE);
    q.used_ring = 0x50000;
    write_descriptor(&mem, RX_BASE, 0, (DATA, 50, 2, 0));
    make_available(&mem, RX_BASE, &[0]);
    assert_eq!(
        deliver_once(&mut q, &mut mem, &vec![1, 2], 2),
        Err(FrontendError::Queue(QueueError::GuestMemory))
    );
}

#[test]
fn delivery_goes_on_to_a_chain_with_room() {
    let mut mem = memory();
    let mut q = queue_at(RX_BASE);
    write_descriptor(&mem, RX_BASE, 0, (DATA, 5, 2, 0));
    write_descriptor(&mem, RX_BASE, 1, (DATA, 50, 0, 0));
    write_descriptor(&mem, RX_BASE, 2, (DATA + 0x100, 50, 2, 0));
    make_available(&mem, RX_BASE, &[0, 1, 2]);
    let frame: Vec<u8> = (1..=10).collect();
    assert!(deliver(&mut q, &mut mem, &frame, 10));
    assert_eq!(used_idx(&mem, RX_BASE), 3);
    assert_eq!(used_element(&mem, RX_BASE, 2), (2, 10));
    assert!(!deliver(&mut q, &mut mem, &frame, 10));
}

#[test]
fn frame_is_gathered_from_a_chain() {
    let mut mem = memory();
    mem.write_slice(&[1, 2, 3, 4], GuestAddress(DATA)).unwrap();
    mem.write_slice(&[5, 6], GuestAddress(DATA + 0x100)).unwrap();
    let ds = vec![descriptor(DATA, 4, 0), descriptor(DATA + 0x100, 2, 0)];
    let mut buf = vec![0u8; 8];
    assert_eq!(gather_frame(&mut mem, &mut buf, &ds), 6);
    assert_eq!(buf, vec![1, 2, 3, 4, 5, 6, 0, 0]);
    // What does not fit is left out.
    let mut small = vec![0u8; 5];
    assert_eq!(gather_frame(&mut mem, &mut small, &ds), 5);
    assert_eq!(small, vec![1, 2, 3, 4, 5]);
}

#[test]
fn unusable_chain_gives_an_empty_frame() {
    let mut mem = memory();
    let mut buf = vec![0u8; 8];
    let unmapped = vec![descriptor(DATA, 4, 0), descriptor(0x3ffff, 2, 0)];
    assert_eq!(gather_frame(&mut mem, &mut buf, &unmapped), 0);
    let for_writing = vec![descriptor(DATA, 4, 0), descriptor(DATA, 2, 2)];
    assert_eq!(gather_frame(&mut mem, &mut buf, &for_writing), 0);
}

// --- Receiving ---

fn receive_frame(w: &mut NetWorker, frame: &[u8]) -> RxAction {
    w.rx_buffer()[..frame.len()].copy_from_slice(frame);
    w.process_rx(RxEvent::FrameRead(frame.len()))
}

#[test]
fn frames_reach_the_guest() {
    let mem = memory();
    write_descriptor(&mem, RX_BASE, 0, (DATA, 64, 2, 0));
    write_descriptor(&mem, RX_BASE, 1, (DATA + 0x100, 64, 2, 0));
    make_available(&mem, RX_BASE, &[0, 1]);
    let mut w = worker(&mem);
    assert_eq!(w.process_rx(RxEvent::Start), RxAction::ReadFrame);
    assert_eq!(notify_flag(&mem, RX_BASE), 1);
    assert_eq!(receive_frame(&mut w, &[1, 2, 3]), RxAction::ReadFrame);
    assert_eq!(receive_frame(&mut w, &[4, 5]), RxAction::ReadFrame);
    assert_eq!(w.process_rx(RxEvent::NothingRead), RxAction::Signal);
    assert_eq!(
        w.process_rx(RxEvent::Signalled(true)),
        RxAction::Done(Ok(()))
    );
    assert_eq!(notify_flag(&mem, RX_BASE), 0);
    assert_eq!(bytes_at(&mem, DATA, 3), vec![1, 2, 3]);
    assert_eq!(bytes_at(&mem, DATA + 0x100, 2), vec![4, 5]);
    assert_eq!(used_element(&mem, RX_BASE, 0), (0, 3));
    assert_eq!(used_element(&mem, RX_BASE, 1), (1, 2));
}

#[test]
fn nothing_received_signals_nothing() {
    let mem = memory();
    let mut w = worker(&mem);
    assert_eq!(w.process_rx(RxEvent::Start), RxAction::ReadFrame);
    assert_eq!(
        w.process_rx(RxEvent::NothingRead),
        RxAction::Done(Ok(()))
    );
    assert_eq!(notify_flag(&mem, RX_BASE), 0);
}

#[test]
fn deferred_frame_is_delivered_before_others() {
    let mem = memory();
    let mut w = worker(&mem);
    assert_eq!(w.process_rx(RxEvent::Start), RxAction::ReadFrame);
    // The guest has no buffer.
    assert_eq!(receive_frame(&mut w, &[7, 8, 9]), RxAction::Done(Ok(())));
    assert!(w.rx.deferred);
    assert_eq!(notify_flag(&mem, RX_BASE), 0);
    // Still none: nothing is read.
    assert_eq!(w.process_rx(RxEvent::Start), RxAction::Done(Ok(())));
    assert!(w.rx.deferred);
    // Now there is one.
    write_descriptor(&mem, RX_BASE, 0, (DATA, 64, 2, 0));
    make_available(&mem, RX_BASE, &[0]);
    assert_eq!(w.process_rx(RxEvent::Start), RxAction::ReadFrame);
    assert!(!w.rx.deferred);
    assert_eq!(bytes_at(&mem, DATA, 3), vec![7, 8, 9]);
    // The backend has no more, but a chain was used: the guest has to hear of it.
    assert_eq!(w.process_rx(RxEvent::NothingRead), RxAction::Signal);
    assert_eq!(
        w.process_rx(RxEvent::Signalled(true)),
        RxAction::Done(Ok(()))
    );
    assert!(!w.rx.deferred);
}

#[test]
fn frames_keep_their_order_across_a_deferral() {
    let mem = memory();
    let mut w = worker(&mem);
    w.process_rx(RxEvent::Start);
    assert_eq!(receive_frame(&mut w, &[1, 1]), RxAction::Done(Ok(())));
    // Two buffers come, and the backend gives three more frames.
    write_descriptor(&mem, RX_BASE, 0, (DATA, 64, 2, 0));
    write_descriptor(&mem, RX_BASE, 1, (DATA + 0x100, 64, 2, 0));
    make_available(&mem, RX_BASE, &[0, 1]);
    assert_eq!(w.process_rx(RxEvent::Start), RxAction::ReadFrame);
    assert_eq!(receive_frame(&mut w, &[2, 2]), RxAction::ReadFrame);
    assert_eq!(receive_frame(&mut w, &[3, 3]), RxAction::Signal);
    assert_eq!(
        w.process_rx(RxEvent::Signalled(true)),
        RxAction::Done(Ok(()))
    );
    assert_eq!(bytes_at(&mem, DATA, 2), vec![1, 1]);
    assert_eq!(bytes_at(&mem, DATA + 0x100, 2), vec![2, 2]);
    assert!(w.rx.deferred);
    assert_eq!(w.rx_frame_buf[..w.rx_frame_buf_len], [3, 3]);
}

#[test]
fn chains_that_were_used_up_wake_the_guest() {
    let mem = memory();
    write_descriptor(&mem, RX_BASE, 0, (DATA, 2, 2, 0));
    make_available(&mem, RX_BASE, &[0]);
    let mut w = worker(&mem);
    w.process_rx(RxEvent::Start);
    // The chain is too small and is given back empty; nothing is delivered.
    assert_eq!(receive_frame(&mut w, &[7, 8, 9]), RxAction::Signal);
    assert!(w.rx.deferred);
    assert_eq!(used_idx(&mem, RX_BASE), 1);
    assert_eq!(used_element(&mem, RX_BASE, 0), (0, 0));
    assert_eq!(
        w.process_rx(RxEvent::Signalled(true)),
        RxAction::Done(Ok(()))
    );
    // The same with the frame that is deferred now.
    make_available(&mem, RX_BASE, &[0, 0]);
    assert_eq!(w.process_rx(RxEvent::Start), RxAction::Signal);
    assert!(w.rx.deferred);
    assert_eq!(used_idx(&mem, RX_BASE), 2);
    assert_eq!(
        w.process_rx(RxEvent::Signalled(true)),
        RxAction::Done(Ok(()))
    );
    // Without another chain there is nothing to tell.
    assert_eq!(w.process_rx(RxEvent::Start), RxAction::Done(Ok(())));
    assert_eq!(notify_flag(&mem, RX_BASE), 0);
    assert_eq!(w.rx_frame_buf[..w.rx_frame_buf_len], [7, 8, 9]);
}

#[test]
fn errors_of_receiving() {
    let mem = memory();
    let mut w = worker(&mem);
    w.process_rx(RxEvent::Start);
    assert_eq!(
        w.process_rx(RxEvent::ReadFailed),
        RxAction::Done(Err(RxError::Backend))
    );
    write_descriptor(&mem, RX_BASE, 0, (DATA, 64, 2, 0));
    make_available(&mem, RX_BASE, &[0]);
    w.process_rx(RxEvent::Start);
    receive_frame(&mut w, &[1]);
    assert_eq!(w.process_rx(RxEvent::ReadFailed), RxAction::Signal);
    assert_eq!(
        w.process_rx(RxEvent::Signalled(false)),
        RxAction::Done(Err(RxError::Device))
    );
    assert_eq!(notify_flag(&mem, RX_BASE), 0);
}

// --- Transmitting ---

/// Makes frames available, one chain each.
fn offer_frames(mem: &GuestMemoryMmap<()>, frames: &[&[u8]]) {
    let mut heads = Vec::new();
    for (i, frame) in frames.iter().enumerate() {
        let at = DATA + 0x1000 * i as u64;
        mem.write_slice(frame, GuestAddress(at)).unwrap();
        write_descriptor(mem, TX_BASE, i as u16, (at, frame.len() as u32, 0, 0));
        heads.push(i as u16);
    }
    make_available(mem, TX_BASE, &heads);
}

#[test]
fn frames_reach_the_backend() {
    let mem = memory();
    let one = [0u8, 0, 0, 0, 0, 0, 0, 0, 0, 0, 0, 0, 1, 2, 3];
    let two = [0u8, 0, 0, 0, 0, 0, 0, 0, 0, 0, 0, 0, 4];
    offer_frames(&mem, &[&one, &two]);
    let mut w = worker(&mem);
    assert_eq!(w.process_tx_loop(TxEvent::Start), TxAction::AskUnfinished);
    assert_eq!(notify_flag(&mem, TX_BASE), 1);
    assert_eq!(
        w.process_tx_loop(TxEvent::Unfinished(false)),
        TxAction::WriteFrame
    );
    assert_eq!(w.tx_buffer(), &one[..]);
    assert_eq!(
        w.process_tx_loop(TxEvent::Written(Ok(()))),
        TxAction::WriteFrame
    );
    assert_eq!(w.tx_buffer(), &two[..]);
    assert_eq!(
        w.process_tx_loop(TxEvent::Written(Ok(()))),
        TxAction::Signal
    );
    assert_eq!(used_idx(&mem, TX_BASE), 2);
    assert_eq!(used_element(&mem, TX_BASE, 1), (1, 0));
    assert_eq!(w.process_tx_loop(TxEvent::Signalled(true)), TxAction::Done);
    assert_eq!(notify_flag(&mem, TX_BASE), 0);
    assert_eq!(w.tx_frame_len, 0);
}

#[test]
fn offloaded_checksum_is_completed_on_the_way() {
    let mem = memory();
    let frame = frame_asking(0, 0, &[0, 0, 0x12, 0x34]);
    offer_frames(&mem, &[&frame]);
    let mut w = worker(&mem);
    w.process_tx_loop(TxEvent::Start);
    w.process_tx_loop(TxEvent::Unfinished(false));
    assert_eq!(&w.tx_buffer()[12..], &[0xed, 0xcb, 0x12, 0x34]);
}

#[test]
fn full_backend_defers_the_frame() {
    let mem = memory();
    offer_frames(&mem, &[&[9; 20]]);
    let mut w = worker(&mem);
    w.process_tx_loop(TxEvent::Start);
    w.process_tx_loop(TxEvent::Unfinished(false));
    assert_eq!(
        w.process_tx_loop(TxEvent::Written(Err(WriteError::NothingWritten))),
        TxAction::Done
    );
    assert!(w.tx.deferred);
    // The chain was put back and comes again.
    assert_eq!(used_idx(&mem, TX_BASE), 0);
    w.process_tx_loop(TxEvent::Start);
    assert_eq!(
        w.process_tx_loop(TxEvent::Unfinished(false)),
        TxAction::WriteFrame
    );
    assert_eq!(w.tx_buffer(), &[9u8; 20]);
    assert_eq!(
        w.process_tx_loop(TxEvent::Written(Ok(()))),
        TxAction::Signal
    );
    assert_eq!(w.process_tx_loop(TxEvent::Signalled(true)), TxAction::Done);
    assert!(!w.tx.deferred);
}

#[test]
fn half_written_frame_is_kept_for_the_backend() {
    let mem = memory();
    offer_frames(&mem, &[&[5; 30], &[6; 30]]);
    let mut w = worker(&mem);
    w.process_tx_loop(TxEvent::Start);
    w.process_tx_loop(TxEvent::Unfinished(false));
    assert_eq!(
        w.process_tx_loop(TxEvent::Written(Err(WriteError::PartialWrite))),
        TxAction::Signal
    );
    assert_eq!(used_idx(&mem, TX_BASE), 1);
    // The second frame waits in the queue, so the round starts over, and the backend is asked to
    // finish the first one.
    assert_eq!(
        w.process_tx_loop(TxEvent::Signalled(true)),
        TxAction::AskUnfinished
    );
    assert_eq!(
        w.process_tx_loop(TxEvent::Unfinished(true)),
        TxAction::FinishWrite
    );
    assert_eq!(w.tx_buffer(), &[5u8; 30]);
    assert_eq!(
        w.process_tx_loop(TxEvent::Finished(true)),
        TxAction::WriteFrame
    );
    assert_eq!(w.tx_buffer(), &[6u8; 30]);
}

#[test]
fn gone_backend_ends_the_round() {
    for gone in [WriteError::Internal, WriteError::ProcessNotRunning] {
        let mem = memory();
        offer_frames(&mem, &[&[5; 30]]);
        let mut w = worker(&mem);
        w.process_tx_loop(TxEvent::Start);
        w.process_tx_loop(TxEvent::Unfinished(false));
        assert_eq!(
            w.process_tx_loop(TxEvent::Written(Err(gone))),
            TxAction::Report(TxError::Backend(gone))
        );
        assert_eq!(w.process_tx_loop(TxEvent::Reported), TxAction::Done);
        assert!(!w.tx.deferred);
        assert_eq!(used_idx(&mem, TX_BASE), 0);
        assert_eq!(notify_flag(&mem, TX_BASE), 0);
    }
}

#[test]
fn errors_of_transmitting_end_the_round() {
    let mem = memory();
    offer_frames(&mem, &[&[5; 30]]);
    let mut w = worker(&mem);
    w.process_tx_loop(TxEvent::Start);
    w.process_tx_loop(TxEvent::Unfinished(false));
    w.process_tx_loop(TxEvent::Written(Ok(())));
    // The guest cannot be interrupted.
    assert_eq!(
        w.process_tx_loop(TxEvent::Signalled(false)),
        TxAction::Report(TxError::Device)
    );
    assert_eq!(w.process_tx_loop(TxEvent::Reported), TxAction::Done);
    assert_eq!(notify_flag(&mem, TX_BASE), 0);
    assert!(!w.tx.deferred);
    let returning = krun_devices::net::tx::TxState {
        phase: TxPhase::Returning { more: true },
        deferred: false,
    };
    let (state, action) = returning.next(TxEvent::Returned(Err(QueueError::GuestMemory)));
    assert_eq!(
        action,
        TxAction::Report(TxError::Queue(QueueError::GuestMemory))
    );
    assert_eq!(
        state.phase,
        TxPhase::Reporting {
            result: Err(TxError::Queue(QueueError::GuestMemory))
        }
    );
    let writing = krun_devices::net::tx::TxState {
        phase: TxPhase::Writing { irq: true, head: 3 },
        deferred: false,
    };
    let (state, _) = writing.next(TxEvent::Written(Err(WriteError::Internal)));
    assert_eq!(
        state.phase,
        TxPhase::Reporting {
            result: Err(TxError::Backend(WriteError::Internal))
        }
    );
}

#[test]
fn unfinished_write_ends_the_round() {
    let mem = memory();
    let mut w = worker(&mem);
    w.process_tx_loop(TxEvent::Start);
    w.process_tx_loop(TxEvent::Unfinished(true));
    assert_eq!(w.process_tx_loop(TxEvent::Finished(false)), TxAction::Done);
    assert!(!w.tx.deferred);
    assert_eq!(notify_flag(&mem, TX_BASE), 0);
}

#[test]
fn frame_is_cut_to_the_buffer() {
    let mem = memory();
    write_descriptor(&mem, TX_BASE, 0, (DATA, 40000, 1, 1));
    write_descriptor(&mem, TX_BASE, 1, (DATA, 40000, 0, 0));
    make_available(&mem, TX_BASE, &[0]);
    let mut w = worker(&mem);
    w.process_tx_loop(TxEvent::Start);
    w.process_tx_loop(TxEvent::Unfinished(false));
    assert_eq!(w.tx_buffer().len(), MAX_BUFFER_SIZE);
}

// --- Events of the worker ---

const FDS: WorkerFds = WorkerFds {
    rx_queue: 10,
    tx_queue: 11,
    backend: 12,
    stop: 13,
};

fn task(source: i32, bits: u32) -> WorkerTask {
    dispatch(Platform::Linux, FDS, source, EventSet::new(bits))
}

#[test]
fn events_lead_to_tasks() {
    assert_eq!(task(13, EVENT_IN), WorkerTask::Stop);
    assert_eq!(task(10, EVENT_IN), WorkerTask::ReceiveForQueue);
    assert_eq!(task(11, EVENT_IN), WorkerTask::TransmitForQueue);
    assert_eq!(
        task(12, EVENT_IN),
        WorkerTask::ServeBackend {
            readable: true,
            writeable: false
        }
    );
    assert_eq!(
        task(12, EVENT_IN | EVENT_OUT),
        WorkerTask::ServeBackend {
            readable: true,
            writeable: true
        }
    );
    assert_eq!(
        task(12, EVENT_IN | EVENT_READ_HANG_UP),
        WorkerTask::ReportHangUp
    );
    assert_eq!(task(12, EVENT_HANG_UP), WorkerTask::ReportHangUp);
    assert_eq!(task(10, EVENT_OUT), WorkerTask::ReportUnknown);
    assert_eq!(task(99, EVENT_IN), WorkerTask::ReportUnknown);
    assert_eq!(task(TX_TIMER_FD, 0), WorkerTask::ReportUnknown);
    assert_eq!(
        dispatch(Platform::MacOs, FDS, TX_TIMER_FD, EventSet::new(0)),
        WorkerTask::TransmitForTimer
    );
}

#[test]
fn worker_watches_its_descriptors() {
    assert_eq!(
        interest_list(FDS),
        vec![
            (10, EventSet::new(EVENT_IN)),
            (11, EventSet::new(EVENT_IN)),
            (
                12,
                EventSet::new(EVENT_IN | EVENT_OUT | EVENT_EDGE_TRIGGERED | EVENT_READ_HANG_UP)
            ),
            (13, EventSet::new(EVENT_IN)),
        ]
    );
}

#[test]
fn retry_timer_is_armed_for_deferred_frames() {
    assert_eq!(retry_timer(Platform::MacOs, true, 50), Some(50));
    assert_eq!(retry_timer(Platform::MacOs, true, 0), None);
    assert_eq!(retry_timer(Platform::MacOs, false, 50), None);
    assert_eq!(retry_timer(Platform::Linux, true, 50), None);
}

#[test]
fn transmitting_goes_on_after_a_finished_write() {
    assert!(goes_on_after_finish(Ok(())));
    assert!(!goes_on_after_finish(Err(WriteError::PartialWrite)));
    assert!(!goes_on_after_finish(Err(WriteError::NothingWritten)));
    assert!(!goes_on_after_finish(Err(WriteError::Internal)));
    assert!(!goes_on_after_finish(Err(WriteError::ProcessNotRunning)));
}
