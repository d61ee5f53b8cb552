//! The balloon device: configuration space, activation, and the pages that it releases.

use krun_devices::balloon::device::{
    ActivateError, Balloon, BALLOON_DEV_ID, DFQ_INDEX, FRQ_INDEX, IFQ_INDEX, NUM_QUEUES,
    PHQ_INDEX, QUEUE_SIZE, STQ_INDEX, VIRTIO_ID_BALLOON,
};
use krun_devices::balloon::drain::QueueRun;
use krun_devices::balloon::inflate::{
    inflate, parse_page_numbers, plan_inflate, sort_and_dedup, PageRange,
};
use krun_devices::balloon::release::{first_release_step, next_release_step, ReleaseStep};
use krun_devices::platform::Platform;
use krun_devices::queue::Queue;
use vm_memory::{Bytes, GuestAddress, GuestMemoryMmap, Le16, Le32, Le64};

// Layout: queues use low addresses, data buffer at 0x80000.
const DATA_BUF: u64 = 0x80000;

fn memory() -> GuestMemoryMmap<()> {
    GuestMemoryMmap::from_ranges(&[(GuestAddress(0), 0x100000)]).unwrap()
}

/// A queue of 16 entries whose rings lie behind each other from `base` on.
fn queue_at(base: u64) -> Queue {
    let mut q = Queue::new(16);
    q.ready = true;
    q.desc_table = base;
    q.avail_ring = base + 16 * 16;
    q.used_ring = (q.avail_ring + 6 + 2 * 16 + 3) & !3;
    q
}

fn create_device_queues() -> Vec<Queue> {
    (0..NUM_QUEUES)
        .map(|i| queue_at((i as u64) * 0x4000))
        .collect()
}

fn activate_balloon(mem: &GuestMemoryMmap<()>) -> Balloon {
    let mut balloon = Balloon::new(Platform::Linux);
    balloon
        .activate(mem.clone(), create_device_queues(), true)
        .unwrap();
    balloon
}

fn write_descriptor(mem: &GuestMemoryMmap<()>, q: &Queue, index: u16, d: (u64, u32, u16, u16)) {
    let at = q.desc_table + 16 * u64::from(index);
    mem.write_obj(Le64::from(d.0), GuestAddress(at)).unwrap();
    mem.write_obj(Le32::from(d.1), GuestAddress(at + 8)).unwrap();
    mem.write_obj(Le16::from(d.2), GuestAddress(at + 12)).unwrap();
    mem.write_obj(Le16::from(d.3), GuestAddress(at + 14)).unwrap();
}

/// Makes the chains that start at `heads` available.
fn make_available(mem: &GuestMemoryMmap<()>, q: &Queue, heads: &[u16]) {
    for (i, head) in heads.iter().enumerate() {
        mem.write_obj(Le16::from(*head), GuestAddress(q.avail_ring + 4 + 2 * i as u64))
            .unwrap();
    }
    mem.write_obj(Le16::from(heads.len() as u16), GuestAddress(q.avail_ring + 2))
        .unwrap();
}

/// Makes one readable descriptor available in the queue at `queue_idx`.
fn setup_queue_descriptor(
    mem: &GuestMemoryMmap<()>,
    queue_idx: usize,
    buf_addr: u64,
    buf_len: u32,
) {
    let q = create_device_queues()[queue_idx];
    write_descriptor(mem, &q, 0, (buf_addr, buf_len, 0, 0));
    make_available(mem, &q, &[0]);
}

fn write_pfns(mem: &GuestMemoryMmap<()>, pfns: &[u32]) {
    for (i, pfn) in pfns.iter().enumerate() {
        mem.write_obj(Le32::from(*pfn), GuestAddress(DATA_BUF + 4 * i as u64))
            .unwrap();
    }
}

/// Works off the inflate queue: whether the guest is to be notified, and what is released.
fn run_ifq(balloon: &mut Balloon) -> (bool, Vec<PageRange>) {
    let mut run = QueueRun::new();
    let mut ranges = Vec::new();
    while let Some(mut some) = balloon.process_ifq(&mut run) {
        ranges.append(&mut some);
    }
    (run.have_used, ranges)
}

fn run_dfq(balloon: &mut Balloon) -> bool {
    let mut run = QueueRun::new();
    while balloon.process_dfq(&mut run) {}
    run.have_used
}

fn run_frq(balloon: &mut Balloon) -> (bool, Vec<PageRange>) {
    let mut run = QueueRun::new();
    let mut ranges = Vec::new();
    while let Some(mut some) = balloon.process_frq(&mut run) {
        ranges.append(&mut some);
    }
    (run.have_used, ranges)
}

/// The used ring: how many chains were given back, and the first element.
fn used(mem: &GuestMemoryMmap<()>, queue_idx: usize) -> (u16, u32, u32) {
    let q = create_device_queues()[queue_idx];
    let idx: Le16 = mem.read_obj(GuestAddress(q.used_ring + 2)).unwrap();
    let head: Le32 = mem.read_obj(GuestAddress(q.used_ring + 4)).unwrap();
    let len: Le32 = mem.read_obj(GuestAddress(q.used_ring + 8)).unwrap();
    (u16::from(idx), u32::from(head), u32::from(len))
}

fn pages(first: u64, count: u64) -> PageRange {
    PageRange {
        guest_addr: first * 4096,
        len: count * 4096,
    }
}

// --- Configuration space ---

#[test]
fn test_balloon_new() {
    let balloon = Balloon::new(Platform::Linux);
    assert_eq!(balloon.num_pages(), 0);
    assert_eq!(balloon.actual(), 0);
    assert!(!balloon.is_activated());
    assert_eq!(balloon.id(), BALLOON_DEV_ID);
}

#[test]
fn test_set_num_pages() {
    let mut balloon = Balloon::new(Platform::Linux);
    balloon.set_num_pages(1024);
    assert_eq!(balloon.num_pages(), 1024);
    balloon.set_num_pages(0);
    assert_eq!(balloon.num_pages(), 0);
}

#[test]
fn test_read_config() {
    let mut balloon = Balloon::new(Platform::Linux);
    balloon.set_num_pages(42);

    let mut buf = [0u8; 4];
    balloon.read_config(0, &mut buf);
    assert_eq!(u32::from_le_bytes(buf), 42);

    balloon.read_config(4, &mut buf);
    assert_eq!(u32::from_le_bytes(buf), 0);
}

#[test]
fn test_write_config_actual() {
    let mut balloon = Balloon::new(Platform::Linux);

    balloon.write_config(4, &100u32.to_le_bytes());
    assert_eq!(balloon.actual(), 100);

    // Write to offset 0 (num_pages) should be rejected.
    let before = balloon.num_pages();
    balloon.write_config(0, &999u32.to_le_bytes());
    assert_eq!(balloon.num_pages(), before);
}

#[test]
fn test_read_config_out_of_bounds() {
    let balloon = Balloon::new(Platform::Linux);
    let mut buf = [0u8; 4];
    balloon.read_config(100, &mut buf);
}

#[test]
fn test_device_type() {
    let balloon = Balloon::new(Platform::Linux);
    assert_eq!(balloon.device_type(), VIRTIO_ID_BALLOON);
    assert_eq!(balloon.device_type(), 5);
}

#[test]
fn test_write_config_boundary() {
    let mut balloon = Balloon::new(Platform::Linux);
    // Write spanning from offset 3 into actual field is rejected.
    balloon.write_config(3, &[0xAA, 0xBB, 0xCC, 0xDD]);
    assert_eq!(balloon.actual(), 0);
}

#[test]
fn config_reads_stop_at_the_end() {
    let mut balloon = Balloon::new(Platform::Linux);
    balloon.set_num_pages(0x0403_0201);
    balloon.config.free_page_report_cmd_id = 0x0807_0605;
    balloon.config.poison_val = 0x0c0b_0a09;
    let mut whole = [0xffu8; 20];
    balloon.read_config(0, &mut whole);
    assert_eq!(
        whole,
        [1, 2, 3, 4, 0, 0, 0, 0, 5, 6, 7, 8, 9, 10, 11, 12, 0xff, 0xff, 0xff, 0xff]
    );
    let mut tail = [0xffu8; 4];
    balloon.read_config(14, &mut tail);
    assert_eq!(tail, [11, 12, 0xff, 0xff]);
    let mut none = [0xffu8; 2];
    balloon.read_config(16, &mut none);
    assert_eq!(none, [0xff, 0xff]);
    balloon.read_config(u64::MAX, &mut none);
    assert_eq!(none, [0xff, 0xff]);
}

#[test]
fn part_of_actual_can_be_written_and_is_read_back() {
    let mut balloon = Balloon::new(Platform::Linux);
    balloon.write_config(4, &[0x11, 0x22, 0x33, 0x44]);
    balloon.write_config(5, &[0xaa, 0xbb]);
    assert_eq!(balloon.actual(), 0x44bb_aa11);
    let mut buf = [0u8; 2];
    balloon.read_config(5, &mut buf);
    assert_eq!(buf, [0xaa, 0xbb]);
    balloon.write_config(7, &[0x55]);
    assert_eq!(balloon.actual(), 0x55bb_aa11);
    // One byte too far, and behind the end.
    balloon.write_config(7, &[0, 0]);
    balloon.write_config(9, &[]);
    balloon.write_config(u64::MAX, &[1, 2, 3]);
    assert_eq!(balloon.actual(), 0x55bb_aa11);
    assert_eq!(balloon.config.poison_val, 0);
    assert_eq!(balloon.num_pages(), 0);
}

#[test]
fn features_depend_on_the_platform() {
    assert_eq!(Balloon::new(Platform::Linux).avail_features(), 0x1_0000_002a);
    assert_eq!(Balloon::new(Platform::MacOs).avail_features(), 0x1_0000_000a);
    let mut balloon = Balloon::new(Platform::Linux);
    assert_eq!(balloon.acked_features(), 0);
    balloon.set_acked_features(0x1_0000_0002);
    assert_eq!(balloon.acked_features(), 0x1_0000_0002);
}

#[test]
fn device_describes_itself() {
    let balloon = Balloon::new(Platform::Linux);
    assert_eq!(balloon.id(), "virtio_balloon");
    assert_eq!(balloon.device_name(), "balloon");
    let sizes: Vec<u16> = balloon.queue_config().iter().map(|c| c.size).collect();
    assert_eq!(sizes, vec![QUEUE_SIZE; 5]);
    assert_eq!(
        [IFQ_INDEX, DFQ_INDEX, STQ_INDEX, PHQ_INDEX, FRQ_INDEX],
        [0, 1, 2, 3, 4]
    );
}

// --- Activation ---

#[test]
fn test_set_num_pages_persists_through_activate() {
    let mem = memory();
    let mut balloon = Balloon::new(Platform::Linux);
    balloon.set_num_pages(32768);

    balloon
        .activate(mem, create_device_queues(), true)
        .unwrap();

    assert!(balloon.is_activated());
    assert_eq!(balloon.num_pages(), 32768);
}

#[test]
fn test_activate_config_change_nonzero() {
    let mem = memory();
    let mut balloon = Balloon::new(Platform::Linux);
    assert!(!balloon.set_num_pages(1024));

    // The configuration change is signalled.
    let signal = balloon
        .activate(mem, create_device_queues(), true)
        .unwrap();
    assert!(signal);
    assert!(balloon.is_activated());
    assert!(balloon.set_num_pages(7));
}

#[test]
fn test_activate_no_signal_zero() {
    let mem = memory();
    let mut balloon = Balloon::new(Platform::Linux);

    let signal = balloon
        .activate(mem, create_device_queues(), true)
        .unwrap();
    assert!(!signal);
    assert!(balloon.is_activated());
}

#[test]
fn wrong_number_of_queues_is_refused() {
    let mut balloon = Balloon::new(Platform::Linux);
    let mut queues = create_device_queues();
    queues.pop();
    assert_eq!(
        balloon.activate(memory(), queues, true),
        Err(ActivateError::BadActivate)
    );
    assert!(!balloon.is_activated());
    assert_eq!(balloon.check_queues(4), Err(ActivateError::BadActivate));
    assert_eq!(balloon.check_queues(6), Err(ActivateError::BadActivate));
    assert_eq!(balloon.check_queues(5), Ok(()));
}

#[test]
fn activation_that_cannot_be_announced_is_refused() {
    let mut balloon = Balloon::new(Platform::Linux);
    assert_eq!(
        balloon.activate(memory(), create_device_queues(), false),
        Err(ActivateError::BadActivate)
    );
    assert!(!balloon.is_activated());
}

// --- Queues ---

#[test]
fn test_process_ifq_inactive_device() {
    let mut balloon = Balloon::new(Platform::Linux);
    assert!(!run_ifq(&mut balloon).0);
    assert!(!run_dfq(&mut balloon));
    assert!(!run_frq(&mut balloon).0);
}

#[test]
fn test_process_ifq_reads_pfns() {
    let mem = memory();
    let mut balloon = activate_balloon(&mem);

    // PFN 16 is the page at 16 * 4096 = 0x10000.
    write_pfns(&mem, &[16]);
    setup_queue_descriptor(&mem, IFQ_INDEX, DATA_BUF, 4);

    let (have_used, ranges) = run_ifq(&mut balloon);
    assert!(have_used);
    assert_eq!(ranges, vec![pages(16, 1)]);
    assert_eq!(used(&mem, IFQ_INDEX), (1, 0, 0));
}

#[test]
fn test_process_ifq_invalid_pfn() {
    let mem = memory();
    let mut balloon = activate_balloon(&mem);

    // A PFN far out of range.
    write_pfns(&mem, &[0xFFFF_FFFF]);
    setup_queue_descriptor(&mem, IFQ_INDEX, DATA_BUF, 4);

    // Invalid PFNs are skipped.
    let (have_used, ranges) = run_ifq(&mut balloon);
    assert!(have_used);
    assert_eq!(ranges, vec![]);
}

#[test]
fn test_process_ifq_duplicate_pfns() {
    let mem = memory();
    let mut balloon = activate_balloon(&mem);

    write_pfns(&mem, &[16, 16, 16]);
    setup_queue_descriptor(&mem, IFQ_INDEX, DATA_BUF, 12);

    // Dedup reduces [16, 16, 16] to [16]: nothing is released twice.
    let (have_used, ranges) = run_ifq(&mut balloon);
    assert!(have_used);
    assert_eq!(ranges, vec![pages(16, 1)]);
}

#[test]
fn test_process_ifq_coalesces_contiguous() {
    let mem = memory();
    let mut balloon = activate_balloon(&mem);

    write_pfns(&mem, &[100, 101, 102, 200, 201]);
    setup_queue_descriptor(&mem, IFQ_INDEX, DATA_BUF, 20);

    // Two batches: [100-102] and [200-201].
    let (have_used, ranges) = run_ifq(&mut balloon);
    assert!(have_used);
    assert_eq!(ranges, vec![pages(100, 3), pages(200, 2)]);
}

#[test]
fn test_process_ifq_sorts_pfns() {
    let mem = memory();
    let mut balloon = activate_balloon(&mem);

    write_pfns(&mem, &[200, 100, 150]);
    setup_queue_descriptor(&mem, IFQ_INDEX, DATA_BUF, 12);

    let (have_used, ranges) = run_ifq(&mut balloon);
    assert!(have_used);
    assert_eq!(ranges, vec![pages(100, 1), pages(150, 1), pages(200, 1)]);
}

#[test]
fn test_process_ifq_empty_descriptor() {
    let mem = memory();
    let mut balloon = activate_balloon(&mem);

    // Zero-length descriptor.
    setup_queue_descriptor(&mem, IFQ_INDEX, DATA_BUF, 0);

    // The descriptor is consumed.
    let (have_used, ranges) = run_ifq(&mut balloon);
    assert!(have_used);
    assert_eq!(ranges, vec![]);
    assert_eq!(used(&mem, IFQ_INDEX), (1, 0, 0));
}

#[test]
fn test_process_dfq_drains_queue() {
    let mem = memory();
    let mut balloon = activate_balloon(&mem);

    setup_queue_descriptor(&mem, DFQ_INDEX, DATA_BUF, 64);

    assert!(run_dfq(&mut balloon));
    assert_eq!(used(&mem, DFQ_INDEX), (1, 0, 0));
    assert!(!run_dfq(&mut balloon));
}

#[test]
fn test_process_frq_basic() {
    let mem = memory();
    let mut balloon = activate_balloon(&mem);

    // The descriptor itself is the free range.
    setup_queue_descriptor(&mem, FRQ_INDEX, DATA_BUF, 4096);

    let (have_used, ranges) = run_frq(&mut balloon);
    assert!(have_used);
    assert_eq!(
        ranges,
        vec![PageRange {
            guest_addr: DATA_BUF,
            len: 4096
        }]
    );
    assert_eq!(used(&mem, FRQ_INDEX), (1, 0, 0));
}

#[test]
fn reports_of_unmapped_memory_are_passed_over() {
    let mem = memory();
    let mut balloon = activate_balloon(&mem);
    let q = create_device_queues()[FRQ_INDEX];
    write_descriptor(&mem, &q, 3, (0x200000, 4096, 1, 1));
    write_descriptor(&mem, &q, 1, (0x90000, 8192, 2, 0));
    make_available(&mem, &q, &[3]);
    let (have_used, ranges) = run_frq(&mut balloon);
    assert!(have_used);
    assert_eq!(
        ranges,
        vec![PageRange {
            guest_addr: 0x90000,
            len: 8192
        }]
    );
    assert_eq!(used(&mem, FRQ_INDEX), (1, 3, 0));
}

#[test]
fn unreadable_inflate_chain_does_not_count() {
    let mem = memory();
    let mut balloon = activate_balloon(&mem);
    // The buffer reaches past the end of memory.
    setup_queue_descriptor(&mem, IFQ_INDEX, 0xffffe, 4);
    let (have_used, ranges) = run_ifq(&mut balloon);
    assert!(!have_used);
    assert_eq!(ranges, vec![]);
    // It is given back all the same.
    assert_eq!(used(&mem, IFQ_INDEX), (1, 0, 0));
}

#[test]
fn inflate_reads_the_readable_part_of_a_chain() {
    let mem = memory();
    let mut balloon = activate_balloon(&mem);
    let q = create_device_queues()[IFQ_INDEX];
    write_pfns(&mem, &[40, 41, 42, 43]);
    // The number 41 is spread over two buffers; the last buffer is for writing.
    write_descriptor(&mem, &q, 0, (DATA_BUF, 6, 1, 1));
    write_descriptor(&mem, &q, 1, (DATA_BUF + 6, 3, 1, 2));
    write_descriptor(&mem, &q, 2, (DATA_BUF + 9, 7, 2, 0));
    make_available(&mem, &q, &[0]);
    let (have_used, ranges) = run_ifq(&mut balloon);
    assert!(have_used);
    // The ninth byte alone makes no number.
    assert_eq!(ranges, vec![pages(40, 2)]);
}

#[test]
fn chains_are_given_back_one_by_one() {
    let mem = memory();
    let mut balloon = activate_balloon(&mem);
    let q = create_device_queues()[IFQ_INDEX];
    write_pfns(&mem, &[50, 60]);
    write_descriptor(&mem, &q, 0, (DATA_BUF, 4, 0, 0));
    write_descriptor(&mem, &q, 1, (DATA_BUF + 4, 4, 0, 0));
    make_available(&mem, &q, &[1, 0]);

    let mut run = QueueRun::new();
    assert_eq!(balloon.process_ifq(&mut run), Some(vec![pages(60, 1)]));
    // Nothing is given back before the caller had the chance to release the pages.
    assert_eq!(used(&mem, IFQ_INDEX).0, 0);
    assert!(!run.have_used);
    assert_eq!(balloon.process_ifq(&mut run), Some(vec![pages(50, 1)]));
    assert_eq!(used(&mem, IFQ_INDEX), (1, 1, 0));
    assert_eq!(balloon.process_ifq(&mut run), None);
    assert_eq!(used(&mem, IFQ_INDEX).0, 2);
    assert!(run.have_used);
    assert_eq!(run.pending, None);
    assert_eq!(balloon.process_ifq(&mut run), None);
    assert_eq!(used(&mem, IFQ_INDEX).0, 2);
}

#[test]
fn every_chain_of_a_run_is_given_back_once() {
    let mem = memory();
    let mut balloon = activate_balloon(&mem);
    let q = create_device_queues()[IFQ_INDEX];
    write_pfns(&mem, &[0xffff_ffff]);
    write_descriptor(&mem, &q, 0, (DATA_BUF, 4, 0, 0));
    write_descriptor(&mem, &q, 1, (0x200000, 4, 0, 0));
    write_descriptor(&mem, &q, 2, (DATA_BUF, 0, 0, 0));
    make_available(&mem, &q, &[2, 1, 0]);
    let (have_used, ranges) = run_ifq(&mut balloon);
    assert!(have_used);
    assert_eq!(ranges, vec![]);
    assert_eq!(used(&mem, IFQ_INDEX).0, 3);
    for (i, head) in [2u32, 1, 0].iter().enumerate() {
        let at = q.used_ring + 4 + 8 * i as u64;
        let given: Le32 = mem.read_obj(GuestAddress(at)).unwrap();
        let len: Le32 = mem.read_obj(GuestAddress(at + 4)).unwrap();
        assert_eq!((u32::from(given), u32::from(len)), (*head, 0));
    }
    assert!(!run_ifq(&mut balloon).0);
}

// --- Which ranges are released ---

#[test]
fn page_numbers_are_little_endian() {
    assert_eq!(
        parse_page_numbers(&vec![1, 0, 0, 0, 0xff, 0xfe, 0xfd, 0xfc, 9, 9, 9]),
        vec![1, 0xfcfd_feff]
    );
    assert!(parse_page_numbers(&vec![1, 2, 3]).is_empty());
}

#[test]
fn page_numbers_are_sorted_without_duplicates() {
    assert_eq!(
        sort_and_dedup(vec![5, 1, 5, u32::MAX, 0, 1, 5]),
        vec![0, 1, 5, u32::MAX]
    );
    assert!(sort_and_dedup(vec![]).is_empty());
}

#[test]
fn run_across_the_end_of_memory_is_cut_to_pages() {
    let mem = memory();
    // Memory ends behind page 255.
    assert_eq!(
        plan_inflate(&mem, &vec![253, 254, 255, 256, 257]),
        vec![pages(253, 1), pages(254, 1), pages(255, 1)]
    );
    assert_eq!(plan_inflate(&mem, &vec![254, 255]), vec![pages(254, 2)]);
    assert_eq!(plan_inflate(&mem, &vec![256, 257]), vec![]);
}

#[test]
fn run_that_starts_unmapped_is_passed_over() {
    let mem: GuestMemoryMmap<()> =
        GuestMemoryMmap::from_ranges(&[(GuestAddress(0x10000), 0x4000)]).unwrap();
    // Page 15 is not there, though 16 is.
    assert_eq!(plan_inflate(&mem, &vec![15, 16]), vec![]);
    assert_eq!(plan_inflate(&mem, &vec![16, 17]), vec![pages(16, 2)]);
    // Page 19 is the last one.
    assert_eq!(
        plan_inflate(&mem, &vec![18, 19, 20]),
        vec![pages(18, 1), pages(19, 1)]
    );
}

/// Pages 0 to 3 in one region, 4 and 5 in a second one right behind it, a hole at 6 and 7, and 8
/// and 9 in a third one.
fn scattered_memory() -> GuestMemoryMmap<()> {
    GuestMemoryMmap::from_ranges(&[
        (GuestAddress(0), 0x4000),
        (GuestAddress(0x4000), 0x2000),
        (GuestAddress(0x8000), 0x2000),
    ])
    .unwrap()
}

#[test]
fn hole_in_a_run_is_not_released() {
    let mem: GuestMemoryMmap<()> =
        GuestMemoryMmap::from_ranges(&[(GuestAddress(0), 0x1000), (GuestAddress(0x2000), 0x1000)])
            .unwrap();
    // Page 1 is a hole between two mapped pages; what comes behind it in the run is passed over.
    assert_eq!(plan_inflate(&mem, &vec![0, 1, 2]), vec![pages(0, 1)]);
    assert_eq!(plan_inflate(&mem, &vec![0, 2]), vec![pages(0, 1), pages(2, 1)]);
    assert_eq!(
        plan_inflate(&scattered_memory(), &vec![5, 6, 7, 8]),
        vec![pages(5, 1)]
    );
}

#[test]
fn ranges_stay_inside_their_region() {
    let mem = scattered_memory();
    assert_eq!(plan_inflate(&mem, &vec![0, 1, 2, 3]), vec![pages(0, 4)]);
    // The regions adjoin in the guest, but that says nothing of the host. From page 4 on the run
    // lies in one region again.
    assert_eq!(
        plan_inflate(&mem, &vec![2, 3, 4, 5]),
        vec![pages(2, 1), pages(3, 1), pages(4, 2)]
    );
    assert_eq!(
        plan_inflate(&mem, &vec![1, 4, 5, 8, 9, 10]),
        vec![pages(1, 1), pages(4, 2), pages(8, 1), pages(9, 1)]
    );
}

#[test]
fn page_that_is_there_in_part_is_not_released() {
    let mem: GuestMemoryMmap<()> =
        GuestMemoryMmap::from_ranges(&[(GuestAddress(0), 0x1800), (GuestAddress(0x2000), 0x1000)])
            .unwrap();
    assert_eq!(
        plan_inflate(&mem, &vec![0, 1, 2]),
        vec![pages(0, 1), pages(2, 1)]
    );
    assert_eq!(plan_inflate(&mem, &vec![1]), vec![]);
}

#[test]
fn inflate_queue_skips_the_hole() {
    let mem: GuestMemoryMmap<()> = GuestMemoryMmap::from_ranges(&[
        (GuestAddress(0), 0x100000),
        (GuestAddress(0x102000), 0x1000),
    ])
    .unwrap();
    let mut balloon = activate_balloon(&mem);
    write_pfns(&mem, &[0x102, 0xff, 0x100, 0xfe, 0x101]);
    setup_queue_descriptor(&mem, IFQ_INDEX, DATA_BUF, 20);
    let (have_used, ranges) = run_ifq(&mut balloon);
    assert!(have_used);
    assert_eq!(ranges, vec![pages(0xfe, 1), pages(0xff, 1)]);
}

#[test]
fn order_and_repetition_make_no_difference() {
    let mem = memory();
    let a: Vec<u8> = [7u32, 9, 8, 7].iter().flat_map(|p| p.to_le_bytes()).collect();
    let b: Vec<u8> = [9u32, 8, 9, 7, 8]
        .iter()
        .flat_map(|p| p.to_le_bytes())
        .collect();
    assert_eq!(inflate(&mem, &a), vec![pages(7, 3)]);
    assert_eq!(inflate(&mem, &a), inflate(&mem, &b));
}

// --- Releasing ---

#[test]
fn linux_releases_by_advice() {
    let step = first_release_step(Platform::Linux);
    assert_eq!(step, ReleaseStep::Advise);
    assert_eq!(next_release_step(step, true), ReleaseStep::Done(true));
    assert_eq!(next_release_step(step, false), ReleaseStep::Done(false));
}

#[test]
fn macos_maps_anew_before_it_advises() {
    let unmap = first_release_step(Platform::MacOs);
    assert_eq!(unmap, ReleaseStep::Unmap);
    assert_eq!(next_release_step(unmap, false), ReleaseStep::Done(false));
    let map = next_release_step(unmap, true);
    assert_eq!(map, ReleaseStep::Remap);
    assert_eq!(next_release_step(map, false), ReleaseStep::Done(false));
    let advise = next_release_step(map, true);
    assert_eq!(advise, ReleaseStep::Advise);
    assert_eq!(next_release_step(advise, true), ReleaseStep::Done(true));
    assert_eq!(
        next_release_step(ReleaseStep::Done(true), false),
        ReleaseStep::Done(true)
    );
}
