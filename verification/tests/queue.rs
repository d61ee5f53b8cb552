//! Split virtqueues.

use krun_devices::bytes::{get_le16, get_le32, get_le64, push_le32, put_le16};
use krun_devices::guest::{load_bytes, load_u16, store_bytes};
use krun_devices::queue::{
    decode_descriptor, Descriptor, Queue, QueueConfig, QueueError, VIRTQ_DESC_F_NEXT,
    VIRTQ_DESC_F_WRITE, VRING_USED_F_NO_NOTIFY,
};
use virtio_bindings::virtio_ring;
use vm_memory::{Bytes, GuestAddress, GuestMemoryMmap, Le16, Le32, Le64};

fn memory() -> GuestMemoryMmap<()> {
    GuestMemoryMmap::from_ranges(&[(GuestAddress(0), 0x10000)]).unwrap()
}

/// A queue of 16 entries whose rings lie behind each other from `base` on.
fn queue_at(base: u64) -> Queue {
    let mut q = Queue::new(16);
    q.ready = true;
    q.desc_table = base;
    q.avail_ring = base + 16 * 16;
    q.used_ring = (q.avail_ring + 6 + 2 * 16 + 3) & !3;
    q
}

fn write_descriptor(mem: &GuestMemoryMmap<()>, q: &Queue, index: u16, d: (u64, u32, u16, u16)) {
    let at = q.desc_table + 16 * u64::from(index);
    mem.write_obj(Le64::from(d.0), GuestAddress(at)).unwrap();
    mem.write_obj(Le32::from(d.1), GuestAddress(at + 8)).unwrap();
    mem.write_obj(Le16::from(d.2), GuestAddress(at + 12)).unwrap();
    mem.write_obj(Le16::from(d.3), GuestAddress(at + 14)).unwrap();
}

fn write_u16(mem: &GuestMemoryMmap<()>, at: u64, v: u16) {
    mem.write_obj(Le16::from(v), GuestAddress(at)).unwrap();
}

fn read_u16(mem: &GuestMemoryMmap<()>, at: u64) -> u16 {
    let v: Le16 = mem.read_obj(GuestAddress(at)).unwrap();
    u16::from(v)
}

fn read_u32(mem: &GuestMemoryMmap<()>, at: u64) -> u32 {
    let v: Le32 = mem.read_obj(GuestAddress(at)).unwrap();
    u32::from(v)
}

/// Disable, process, enable: notifications are enabled afterwards, so that the guest can wake the
/// device when it adds buffers.
#[test]
fn correct_notification_ordering_leaves_notifications_enabled() {
    let mut mem = memory();
    let mut queue = queue_at(0);

    queue.disable_notification(&mut mem).unwrap();
    let _ = queue.enable_notification(&mut mem).unwrap();

    assert_eq!(
        read_u16(&mem, queue.used_ring),
        0,
        "correct ordering must leave notifications enabled"
    );
}

/// Enable, process, disable leaves notifications disabled.
#[test]
fn inverted_notification_ordering_leaves_notifications_disabled() {
    let mut mem = memory();
    let mut queue = queue_at(0);

    let _ = queue.enable_notification(&mut mem).unwrap();
    queue.disable_notification(&mut mem).unwrap();

    assert_eq!(
        read_u16(&mem, queue.used_ring),
        virtio_ring::VRING_USED_F_NO_NOTIFY as u16,
        "inverted ordering leaves notifications disabled"
    );
}

#[test]
fn ring_constants_are_those_of_virtio() {
    assert_eq!(u32::from(VIRTQ_DESC_F_NEXT), virtio_ring::VRING_DESC_F_NEXT);
    assert_eq!(u32::from(VIRTQ_DESC_F_WRITE), virtio_ring::VRING_DESC_F_WRITE);
    assert_eq!(
        u32::from(VRING_USED_F_NO_NOTIFY),
        virtio_ring::VRING_USED_F_NO_NOTIFY
    );
    assert_eq!(QueueConfig::new(256).size, 256);
}

#[test]
fn integers_are_little_endian() {
    let b = [1u8, 2, 3, 4, 5, 6, 7, 8, 9];
    assert_eq!(get_le16(&b, 1), 0x0302);
    assert_eq!(get_le32(&b, 1), 0x0504_0302);
    assert_eq!(get_le64(&b, 1), 0x0908_0706_0504_0302);
    assert_eq!(put_le16(0xabcd), vec![0xcd, 0xab]);
    let mut v = vec![9u8];
    push_le32(&mut v, 0xdead_beef);
    assert_eq!(v, vec![9, 0xef, 0xbe, 0xad, 0xde]);
}

#[test]
fn guest_memory_is_loaded_and_stored() {
    let mut mem = memory();
    assert!(store_bytes(&mut mem, 0x100, &vec![1, 2, 3]));
    assert_eq!(load_bytes(&mut mem, 0x101, 2), Some(vec![2, 3]));
    assert_eq!(load_u16(&mut mem, 0x100), Some(0x0201));
    // The end of memory.
    assert!(!store_bytes(&mut mem, 0xffff, &vec![7, 8]));
    assert_eq!(load_bytes(&mut mem, 0xffff, 1), Some(vec![7]));
    assert_eq!(load_bytes(&mut mem, 0xffff, 2), None);
    assert_eq!(load_u16(&mut mem, 0xffff), None);
    assert_eq!(load_bytes(&mut mem, 0x10000, 0), None);
    assert_eq!(load_bytes(&mut mem, 0xffff, 0), Some(vec![]));
    assert_eq!(load_u16(&mut mem, u64::MAX), None);
}

#[test]
fn descriptors_are_decoded() {
    let raw = vec![
        0x88, 0x77, 0x66, 0x55, 0x44, 0x33, 0x22, 0x11, 4, 3, 2, 1, 3, 0, 0x34, 0x12,
    ];
    let d = decode_descriptor(&raw);
    assert_eq!(
        d,
        Descriptor {
            addr: 0x1122_3344_5566_7788,
            len: 0x0102_0304,
            flags: 3,
            next: 0x1234
        }
    );
    assert!(d.has_next());
    assert!(d.is_write_only());
}

#[test]
fn chains_are_taken_in_order() {
    let mut mem = memory();
    let mut q = queue_at(0);
    assert!(q.pop(&mut mem).is_none());
    write_descriptor(&mem, &q, 4, (0x8000, 10, 1, 2));
    write_descriptor(&mem, &q, 2, (0x9000, 20, 2, 0));
    write_descriptor(&mem, &q, 7, (0xa000, 30, 0, 0));
    write_u16(&mem, q.avail_ring + 4, 4);
    write_u16(&mem, q.avail_ring + 6, 7);
    write_u16(&mem, q.avail_ring + 2, 2);
    let chain = q.pop(&mut mem).unwrap();
    assert_eq!(chain.index, 4);
    let found: Vec<(u64, u32)> = chain.descriptors.iter().map(|d| (d.addr, d.len)).collect();
    assert_eq!(found, vec![(0x8000, 10), (0x9000, 20)]);
    assert_eq!(q.pop(&mut mem).unwrap().index, 7);
    assert!(q.pop(&mut mem).is_none());
    // Put back, the last one comes again.
    q.undo_pop();
    assert_eq!(q.pop(&mut mem).unwrap().index, 7);
}

#[test]
fn circular_chain_ends() {
    let mut mem = memory();
    let mut q = queue_at(0);
    write_descriptor(&mem, &q, 0, (0x8000, 1, 1, 1));
    write_descriptor(&mem, &q, 1, (0x8000, 1, 1, 0));
    write_u16(&mem, q.avail_ring + 2, 1);
    assert_eq!(q.pop(&mut mem).unwrap().descriptors.len(), 16);
}

#[test]
fn head_outside_the_table_is_no_chain() {
    let mut mem = memory();
    let mut q = queue_at(0);
    write_u16(&mem, q.avail_ring + 4, 16);
    write_u16(&mem, q.avail_ring + 2, 1);
    assert!(q.pop(&mut mem).is_none());
}

#[test]
fn chains_are_given_back_in_the_used_ring() {
    let mut mem = memory();
    let mut q = queue_at(0);
    assert_eq!(q.add_used(&mut mem, 3, 99), Ok(()));
    assert_eq!(q.add_used(&mut mem, 5, 7), Ok(()));
    assert_eq!(read_u16(&mem, q.used_ring + 2), 2);
    assert_eq!(read_u32(&mem, q.used_ring + 4), 3);
    assert_eq!(read_u32(&mem, q.used_ring + 8), 99);
    assert_eq!(read_u32(&mem, q.used_ring + 12), 5);
    assert_eq!(read_u32(&mem, q.used_ring + 16), 7);
}

#[test]
fn errors_of_giving_back() {
    let mut mem = memory();
    let mut q = queue_at(0);
    assert_eq!(
        q.add_used(&mut mem, 16, 0),
        Err(QueueError::InvalidDescriptor)
    );
    q.used_ring = u64::MAX;
    assert_eq!(q.add_used(&mut mem, 0, 0), Err(QueueError::AddressOverflow));
    q.used_ring = 0x20000;
    assert_eq!(q.add_used(&mut mem, 0, 0), Err(QueueError::GuestMemory));
    assert_eq!(q.next_used, 0);
}

#[test]
fn enabling_tells_whether_chains_wait() {
    let mut mem = memory();
    let mut q = queue_at(0);
    assert_eq!(q.enable_notification(&mut mem), Ok(false));
    write_u16(&mem, q.avail_ring + 2, 1);
    assert_eq!(q.enable_notification(&mut mem), Ok(true));
}

#[test]
fn ring_positions_steer_notifications() {
    let mut mem = memory();
    let mut q = queue_at(0);
    q.event_idx_enabled = true;
    let avail_event = q.used_ring + 4 + 8 * 16;
    let used_event = q.avail_ring + 4 + 2 * 16;
    q.next_avail = 9;
    assert_eq!(q.enable_notification(&mut mem), Ok(true));
    assert_eq!(read_u16(&mem, avail_event), 9);
    assert_eq!(read_u16(&mem, q.used_ring), 0);
    // Declining takes no store.
    assert_eq!(q.disable_notification(&mut mem), Ok(()));
    assert_eq!(read_u16(&mem, q.used_ring), 0);
    // The driver waits for the second chain.
    write_u16(&mem, used_event, 1);
    q.add_used(&mut mem, 0, 0).unwrap();
    assert_eq!(q.needs_notification(&mut mem), Ok(false));
    q.add_used(&mut mem, 0, 0).unwrap();
    assert_eq!(q.needs_notification(&mut mem), Ok(true));
    assert_eq!(q.needs_notification(&mut mem), Ok(false));
}

#[test]
fn without_ring_positions_every_chain_is_news() {
    let mut mem = memory();
    let mut q = queue_at(0);
    assert_eq!(q.needs_notification(&mut mem), Ok(true));
}

#[test]
fn validity_of_a_queue() {
    let mem = memory();
    let q = queue_at(0);
    assert!(q.is_valid(&mem));
    assert!(q.can_notify(&mem));
    let mut not_ready = q;
    not_ready.ready = false;
    assert!(!not_ready.is_valid(&mem));
    let mut odd = q;
    odd.size = 12;
    assert!(!odd.is_valid(&mem));
    let mut large = q;
    large.size = 32;
    assert!(!large.is_valid(&mem));
    let mut askew = q;
    askew.desc_table = 8;
    assert!(!askew.is_valid(&mem));
    let mut outside = q;
    outside.used_ring = 0xfffc;
    assert!(!outside.is_valid(&mem));
    // Its first two bytes are there.
    assert!(outside.can_notify(&mem));
    outside.event_idx_enabled = true;
    assert!(!outside.can_notify(&mem));
    outside.avail_ring = u64::MAX;
    assert!(!outside.can_notify(&mem));
}

#[test]
fn errors_of_notifications() {
    let mut mem = memory();
    let mut q = queue_at(0);
    q.used_ring = 0x20000;
    assert_eq!(
        q.disable_notification(&mut mem),
        Err(QueueError::GuestMemory)
    );
    assert_eq!(
        q.enable_notification(&mut mem),
        Err(QueueError::GuestMemory)
    );
    q.event_idx_enabled = true;
    q.used_ring = u64::MAX;
    assert_eq!(
        q.enable_notification(&mut mem),
        Err(QueueError::AddressOverflow)
    );
    q.avail_ring = u64::MAX;
    assert_eq!(
        q.needs_notification(&mut mem),
        Err(QueueError::AddressOverflow)
    );
}
