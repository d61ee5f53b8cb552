//! Split virtqueues: the rings through which a driver in the guest hands buffers to a device.
//!
//! The driver publishes descriptor chains in the available ring and the device gives each back
//! through the used ring. Both rings and the descriptor table lie in guest memory.

use vm_memory::GuestMemoryMmap;
use vstd::prelude::*;

use crate::bytes::{
    get_le16, get_le32, get_le64, le16, le16_bytes, le32, le32_bytes, le64, push_le32, put_le16,
};
use crate::guest::{
    accesses, after_store, check_range, fence, guest_addresses, guest_regions, last_stored, load, load_bytes,
    load_u16, range_mapped, store_bytes, sub_range_mapped, whole_store_is_last, Access,
};

verus! {

/// Flag of a descriptor that another one follows.
pub const VIRTQ_DESC_F_NEXT: u16 = 1;

/// Flag of a descriptor whose buffer the device writes and does not read.
pub const VIRTQ_DESC_F_WRITE: u16 = 2;

/// Flag in the used ring that asks the driver not to notify the device.
pub const VRING_USED_F_NO_NOTIFY: u16 = 1;

/// What one queue of a device is made with.
#[derive(Clone, Copy, Debug, PartialEq, Eq, Structural)]
pub struct QueueConfig {
    /// The largest size that the driver may choose.
    pub size: u16,
}

impl QueueConfig {
    pub fn new(size: u16) -> (r: QueueConfig)
        ensures
            r.size == size,
    {
        QueueConfig { size }
    }
}

/// Why an operation on a queue failed.
#[derive(Clone, Copy, Debug, PartialEq, Eq, Structural)]
pub enum QueueError {
    /// A descriptor index outside the descriptor table.
    InvalidDescriptor,
    /// An address past the end of the address space.
    AddressOverflow,
    /// An access to unmapped guest memory.
    GuestMemory,
}

/// One entry of a descriptor table.
#[derive(Clone, Copy, Debug, PartialEq, Eq, Structural)]
pub struct Descriptor {
    /// Guest address of the buffer.
    pub addr: u64,
    /// Length of the buffer.
    pub len: u32,
    pub flags: u16,
    /// Index of the descriptor that follows, if the flags say that one does.
    pub next: u16,
}

impl Descriptor {
    /// Whether another descriptor follows.
    pub open spec fn spec_has_next(&self) -> bool {
        self.flags & VIRTQ_DESC_F_NEXT != 0
    }

    /// Whether the device may only write the buffer.
    pub open spec fn spec_is_write_only(&self) -> bool {
        self.flags & VIRTQ_DESC_F_WRITE != 0
    }

    /// Whether another descriptor follows.
    #[verifier::when_used_as_spec(spec_has_next)]
    pub fn has_next(&self) -> (r: bool)
        ensures
            r == self.has_next(),
    {
        self.flags & VIRTQ_DESC_F_NEXT != 0
    }

    /// Whether the device may only write the buffer.
    #[verifier::when_used_as_spec(spec_is_write_only)]
    pub fn is_write_only(&self) -> (r: bool)
        ensures
            r == self.is_write_only(),
    {
        self.flags & VIRTQ_DESC_F_WRITE != 0
    }
}

/// The descriptor that the 16 bytes of a table entry spell.
pub open spec fn decoded(raw: Seq<u8>) -> Descriptor {
    Descriptor { addr: le64(raw, 0), len: le32(raw, 8), flags: le16(raw, 12), next: le16(raw, 14) }
}

/// Decodes the 16 bytes of a descriptor table entry.
pub fn decode_descriptor(raw: &Vec<u8>) -> (d: Descriptor)
    requires
        raw@.len() == 16,
    ensures
        d == decoded(raw@),
{
    let b: &[u8] = raw.as_slice();
    Descriptor {
        addr: get_le64(b, 0),
        len: get_le32(b, 8),
        flags: get_le16(b, 12),
        next: get_le16(b, 14),
    }
}

/// Every buffer of `ds` lies in mapped memory.
pub open spec fn all_mapped(space: Set<u64>, ds: Seq<Descriptor>) -> bool {
    forall|i: int|
        0 <= i < ds.len() ==> range_mapped(
            space,
            (#[trigger] ds[i]).addr as int,
            ds[i].len as nat,
        )
}

/// A chain of descriptors that the driver made available.
#[derive(Debug)]
pub struct DescriptorChain {
    /// Index of the first descriptor, by which the chain is given back.
    pub index: u16,
    /// The descriptors in chain order.
    pub descriptors: Vec<Descriptor>,
}

/// A virtqueue as the device sees it.
#[derive(Clone, Copy, Debug, PartialEq, Eq, Structural)]
pub struct Queue {
    /// The largest size that the device offers.
    pub max_size: u16,
    /// The size that the driver chose.
    pub size: u16,
    /// Whether the driver has finished setting the queue up.
    pub ready: bool,
    /// Guest address of the descriptor table.
    pub desc_table: u64,
    /// Guest address of the available ring.
    pub avail_ring: u64,
    /// Guest address of the used ring.
    pub used_ring: u64,
    /// Free-running count of the chains taken from the available ring.
    pub next_avail: u16,
    /// Free-running count of the chains put into the used ring.
    pub next_used: u16,
    /// Whether notifications are steered by ring positions and not by flags.
    pub event_idx_enabled: bool,
    /// How many chains went into the used ring since the driver was last considered.
    pub num_added: u16,
}

/// The bytes of a used ring element: the head of the chain, and how much was written to it.
pub open spec fn used_element(head: u16, len: u32) -> Seq<u8> {
    le32_bytes(head as u32) + le32_bytes(len)
}

impl Queue {
    /// The number of entries in each ring.
    pub open spec fn ring(self) -> int {
        if self.size <= self.max_size {
            self.size as int
        } else {
            self.max_size as int
        }
    }

    /// Address of the free-running count of the chains that the driver made available.
    pub open spec fn avail_idx_addr(self) -> int {
        self.avail_ring + 2
    }

    /// Address of the available ring entry that comes next.
    pub open spec fn slot_addr(self) -> int {
        self.avail_ring + 4 + 2 * (self.next_avail as int % self.ring())
    }

    /// Address of the entry `index` of the descriptor table.
    pub open spec fn desc_addr(self, index: u16) -> int {
        self.desc_table + 16 * index
    }

    /// Address of the used ring entry that comes next.
    pub open spec fn used_addr(self) -> int {
        self.used_ring + 4 + 8 * (self.next_used as int % self.ring())
    }

    /// Address of the position at which the driver is to notify the device.
    pub open spec fn avail_event_addr(self) -> int {
        self.used_ring + 4 + 8 * self.ring()
    }

    /// Address of the position at which the device is to notify the driver.
    pub open spec fn used_event_addr(self) -> int {
        self.avail_ring + 4 + 2 * self.ring()
    }

    /// The entry `index` of the descriptor table exists and is mapped.
    pub open spec fn readable(self, space: Set<u64>, index: u16) -> bool {
        index < self.ring() && range_mapped(space, self.desc_addr(index), 16)
    }

    /// A chain goes on after `d`.
    pub open spec fn continues(self, d: Descriptor) -> bool {
        d.has_next() && d.next < self.ring()
    }

    /// `d` points outside the descriptor table and does not count as part of a chain.
    pub open spec fn dangling(self, d: Descriptor) -> bool {
        d.has_next() && d.next >= self.ring()
    }

    /// The index of the entry at position `i` of the chain that starts at `head`, where `raws`
    /// are the table entries met so far.
    pub open spec fn chain_index(head: u16, raws: Seq<Seq<u8>>, i: int) -> u16 {
        if i <= 0 {
            head
        } else {
            decoded(raws[i - 1]).next
        }
    }

    /// The loads by which the table entries `raws` are met.
    pub open spec fn chain_loads(self, head: u16, raws: Seq<Seq<u8>>) -> Seq<Access> {
        Seq::new(
            raws.len(),
            |i: int| load(self.desc_addr(Self::chain_index(head, raws, i)) as u64, raws[i]),
        )
    }

    /// Position `i` of the chain is a whole table entry that could be read.
    pub open spec fn entry_read(
        self,
        space: Set<u64>,
        head: u16,
        raws: Seq<Seq<u8>>,
        i: int,
    ) -> bool {
        raws[i].len() == 16 && self.readable(space, Self::chain_index(head, raws, i))
    }

    /// `raws` are the entries of the chain that starts at `head`, each read once at its turn, up
    /// to the one where the chain ends, points outside the table, meets an entry that cannot be
    /// read, or has as many entries as the table.
    pub open spec fn chain_entries(self, space: Set<u64>, head: u16, raws: Seq<Seq<u8>>) -> bool {
        &&& raws.len() <= self.ring()
        &&& forall|i: int|
            0 <= i < raws.len() ==> #[trigger] self.entry_read(space, head, raws, i)
        &&& forall|i: int| 0 <= i < raws.len() - 1 ==> self.continues(decoded(#[trigger] raws[i]))
        &&& {
            ||| raws.len() == self.ring()
            ||| raws.len() > 0 && !self.continues(decoded(raws.last()))
            ||| !self.readable(space, Self::chain_index(head, raws, raws.len() as int))
        }
    }

    /// The descriptors of the chain whose table entries are `raws`.
    pub open spec fn chain_descriptors(self, raws: Seq<Seq<u8>>) -> Seq<Descriptor> {
        let all = raws.map_values(|raw: Seq<u8>| decoded(raw));
        if all.len() > 0 && self.dangling(all.last()) {
            all.drop_last()
        } else {
            all
        }
    }

    /// The driver's count says that a chain is waiting, and its ring entry can be read.
    pub open spec fn chain_waits(self, space: Set<u64>, idx: u16) -> bool {
        &&& range_mapped(space, self.avail_idx_addr(), 2)
        &&& idx != self.next_avail
        &&& self.ring() > 0
        &&& range_mapped(space, self.slot_addr(), 2)
    }

    /// Taking the next chain, given what the memory held: `idx` the driver's count, `head` the
    /// ring entry, `raws` the table entries. The accesses that were made, and what comes out.
    pub open spec fn popped(
        self,
        space: Set<u64>,
        before: Seq<Access>,
        idx: u16,
        head: u16,
        raws: Seq<Seq<u8>>,
    ) -> (Seq<Access>, Option<(u16, Seq<Descriptor>)>) {
        let seen_idx = before.push(load(self.avail_idx_addr() as u64, le16_bytes(idx)));
        let seen_head = seen_idx.push(load(self.slot_addr() as u64, le16_bytes(head)));
        let descriptors = self.chain_descriptors(raws);
        if !range_mapped(space, self.avail_idx_addr(), 2) {
            (before, None)
        } else if !self.chain_waits(space, idx) {
            (seen_idx, None)
        } else if descriptors.len() == 0 {
            (seen_head + self.chain_loads(head, raws), None)
        } else {
            (seen_head + self.chain_loads(head, raws), Some((head, descriptors)))
        }
    }

    /// `(after, chain)` is a way in which taking the next chain may go.
    pub open spec fn pop_may(
        self,
        space: Set<u64>,
        before: Seq<Access>,
        after: Seq<Access>,
        chain: Option<(u16, Seq<Descriptor>)>,
    ) -> bool {
        exists|idx: u16, head: u16, raws: Seq<Seq<u8>>|
            {
                &&& #[trigger] self.popped(space, before, idx, head, raws) == (after, chain)
                &&& self.chain_waits(space, idx) ==> self.chain_entries(space, head, raws)
            }
    }

    /// Giving a chain back: the queue, the accesses and the result afterwards.
    pub open spec fn used_added(
        self,
        space: Set<u64>,
        before: Seq<Access>,
        head: u16,
        len: u32,
    ) -> (Queue, Seq<Access>, Result<(), QueueError>) {
        if head >= self.ring() {
            (self, before, Err(QueueError::InvalidDescriptor))
        } else if self.used_addr() > u64::MAX {
            (self, before, Err(QueueError::AddressOverflow))
        } else {
            let element = after_store(
                before,
                space,
                self.used_addr() as u64,
                used_element(head, len),
            );
            if !range_mapped(space, self.used_addr(), 8) {
                (self, element, Err(QueueError::GuestMemory))
            } else {
                let next = Queue {
                    next_used: self.next_used.wrapping_add(1),
                    num_added: self.num_added.wrapping_add(1),
                    ..self
                };
                (
                    next,
                    after_store(
                        element,
                        space,
                        (self.used_ring + 2) as u64,
                        le16_bytes(next.next_used),
                    ),
                    if range_mapped(space, self.used_ring + 2, 2) {
                        Ok(())
                    } else {
                        Err(QueueError::GuestMemory)
                    },
                )
            }
        }
    }

    /// Where the device says whether it wants to be notified, and what it stores there. With
    /// ring positions in use, not wanting it takes no store.
    pub open spec fn notification_store(self, enable: bool) -> Option<(int, u16)> {
        if self.event_idx_enabled {
            if enable {
                Some((self.avail_event_addr(), self.next_avail))
            } else {
                None
            }
        } else if enable {
            Some((self.used_ring as int, 0u16))
        } else {
            Some((self.used_ring as int, VRING_USED_F_NO_NOTIFY))
        }
    }

    /// The accesses after the device said whether it wants to be notified, and whether it could.
    pub open spec fn notification_set(self, space: Set<u64>, before: Seq<Access>, enable: bool) -> (
        Seq<Access>,
        Result<(), QueueError>,
    ) {
        match self.notification_store(enable) {
            None => (before, Ok(())),
            Some((addr, value)) => if addr > u64::MAX {
                (before, Err(QueueError::AddressOverflow))
            } else if range_mapped(space, addr, 2) {
                (after_store(before, space, addr as u64, le16_bytes(value)), Ok(()))
            } else {
                (
                    after_store(before, space, addr as u64, le16_bytes(value)),
                    Err(QueueError::GuestMemory),
                )
            },
        }
    }

    /// The accesses and the result of asking to be notified again, where `idx` is the driver's
    /// count: the result tells whether chains came in meanwhile.
    pub open spec fn notification_enabled(self, space: Set<u64>, before: Seq<Access>, idx: u16) -> (
        Seq<Access>,
        Result<bool, QueueError>,
    ) {
        let (stored, r) = self.notification_set(space, before, true);
        match r {
            Err(e) => (stored, Err(e)),
            Ok(_) => if self.avail_idx_addr() > u64::MAX {
                (stored, Err(QueueError::AddressOverflow))
            } else if !range_mapped(space, self.avail_idx_addr(), 2) {
                (stored, Err(QueueError::GuestMemory))
            } else {
                (
                    stored.push(load(self.avail_idx_addr() as u64, le16_bytes(idx))),
                    Ok(idx != self.next_avail),
                )
            },
        }
    }

    /// The accesses and the result of asking whether the driver wants to hear of the used chains,
    /// where `event` is the ring position that it waits for.
    pub open spec fn notification_needed(self, space: Set<u64>, before: Seq<Access>, event: u16) -> (
        Seq<Access>,
        Result<bool, QueueError>,
    ) {
        if !self.event_idx_enabled {
            (before, Ok(true))
        } else if self.used_event_addr() > u64::MAX {
            (before, Err(QueueError::AddressOverflow))
        } else if !range_mapped(space, self.used_event_addr(), 2) {
            (before, Err(QueueError::GuestMemory))
        } else {
            (
                before.push(load(self.used_event_addr() as u64, le16_bytes(event))),
                Ok(self.next_used.wrapping_sub(event).wrapping_sub(1) < self.num_added),
            )
        }
    }

    /// `other` is this queue at another time: only the counts may differ.
    pub open spec fn same_queue(self, other: Queue) -> bool {
        other == Queue {
            next_avail: other.next_avail,
            next_used: other.next_used,
            num_added: other.num_added,
            ..self
        }
    }

    /// The driver set the queue up in full: sizes and alignments are right, and the descriptor
    /// table and both rings are mapped.
    pub open spec fn valid(self, space: Set<u64>) -> bool {
        &&& self.ready
        &&& 0 < self.size <= self.max_size
        &&& self.size & ((self.size - 1) as u16) == 0
        &&& self.desc_table % 16 == 0
        &&& self.avail_ring % 2 == 0
        &&& self.used_ring % 4 == 0
        &&& range_mapped(space, self.desc_table as int, (16 * self.size) as nat)
        &&& range_mapped(space, self.avail_ring as int, (6 + 2 * self.size) as nat)
        &&& range_mapped(space, self.used_ring as int, (6 + 8 * self.size) as nat)
    }

    /// Notifications can be turned off and on, and asked about: what is stored and loaded for that
    /// is mapped.
    pub open spec fn notifies(self, space: Set<u64>) -> bool {
        &&& range_mapped(space, self.avail_idx_addr(), 2)
        &&& if self.event_idx_enabled {
            &&& range_mapped(space, self.avail_event_addr(), 2)
            &&& range_mapped(space, self.used_event_addr(), 2)
        } else {
            range_mapped(space, self.used_ring as int, 2)
        }
    }

    /// By what the device itself stored last, it is notified of the chains to come.
    pub open spec fn notifications_on(self, trace: Seq<Access>) -> bool {
        let (addr, value) = self.notification_store(true).unwrap();
        last_stored(trace, addr as u64) == Some(le16_bytes(value))
    }

    /// A queue that the driver has not set up yet.
    pub fn new(max_size: u16) -> (q: Queue)
        ensures
            q == (Queue {
                max_size,
                size: max_size,
                ready: false,
                desc_table: 0,
                avail_ring: 0,
                used_ring: 0,
                next_avail: 0,
                next_used: 0,
                event_idx_enabled: false,
                num_added: 0,
            }),
    {
        Queue {
            max_size,
            size: max_size,
            ready: false,
            desc_table: 0,
            avail_ring: 0,
            used_ring: 0,
            next_avail: 0,
            next_used: 0,
            event_idx_enabled: false,
            num_added: 0,
        }
    }

    /// The number of entries in each ring.
    pub fn actual_size(&self) -> (n: u16)
        ensures
            n == self.ring(),
    {
        if self.size <= self.max_size {
            self.size
        } else {
            self.max_size
        }
    }

    /// Reads the chain that starts at `head`.
    fn walk(&self, mem: &mut GuestMemoryMmap<()>, head: u16) -> (r: (
        Vec<Descriptor>,
        Ghost<Seq<Seq<u8>>>,
    ))
        requires
            self.ring() > 0,
        ensures
            guest_regions(*final(mem)) == guest_regions(*old(mem)),
            self.chain_entries(guest_addresses(*old(mem)), head, r.1@),
            accesses(*final(mem)) == accesses(*old(mem)) + self.chain_loads(head, r.1@),
            r.0@ == self.chain_descriptors(r.1@),
    {
        let size: u16 = self.actual_size();
        let mut descriptors: Vec<Descriptor> = Vec::new();
        let mut index: u16 = head;
        let mut left: u16 = size;
        let ghost mut raws: Seq<Seq<u8>> = Seq::empty();
        let ghost space = guest_addresses(*mem);
        let ghost before = accesses(*mem);
        proof {
            assert(before + self.chain_loads(head, raws) =~= before);
        }
        while left > 0
            invariant_except_break
                size == self.ring(),
                raws.len() + left == size,
                guest_regions(*mem) == guest_regions(*old(mem)),
                guest_addresses(*mem) == space,
                accesses(*mem) == before + self.chain_loads(head, raws),
                index == Self::chain_index(head, raws, raws.len() as int),
                forall|i: int|
                    0 <= i < raws.len() ==> #[trigger] self.entry_read(space, head, raws, i),
                forall|i: int| 0 <= i < raws.len() ==> self.continues(decoded(#[trigger] raws[i])),
                descriptors@ == raws.map_values(|raw: Seq<u8>| decoded(raw)),
            ensures
                guest_regions(*mem) == guest_regions(*old(mem)),
                guest_addresses(*mem) == space,
                accesses(*mem) == before + self.chain_loads(head, raws),
                self.chain_entries(space, head, raws),
                descriptors@ == self.chain_descriptors(raws),
            decreases left,
        {
            if index >= size {
                break;
            }
            let addr: u64 = match self.desc_table.checked_add(16 * index as u64) {
                Some(addr) => addr,
                None => {
                    break;
                },
            };
            let raw: Vec<u8> = match load_bytes(mem, addr, 16) {
                Some(raw) => raw,
                None => {
                    break;
                },
            };
            let d: Descriptor = decode_descriptor(&raw);
            let ghost seen = raws;
            proof {
                raws = raws.push(raw@);
                assert(before + self.chain_loads(head, seen).push(load(addr, raw@)) =~= (before
                    + self.chain_loads(head, seen)).push(load(addr, raw@)));
                assert(self.chain_loads(head, raws) =~= self.chain_loads(head, seen).push(
                    load(addr, raw@),
                ));
                assert(raws.map_values(|raw: Seq<u8>| decoded(raw)) =~= seen.map_values(
                    |raw: Seq<u8>| decoded(raw),
                ).push(d));
                assert forall|i: int| 0 <= i < raws.len() implies #[trigger] self.entry_read(
                    space,
                    head,
                    raws,
                    i,
                ) by {
                    if i < seen.len() {
                        assert(self.entry_read(space, head, seen, i));
                    }
                }
                assert forall|i: int| 0 <= i < raws.len() - 1 implies self.continues(
                    decoded(#[trigger] raws[i]),
                ) by {
                    assert(raws[i] == seen[i]);
                }
            }
            if d.has_next() {
                if d.next >= size {
                    proof {
                        assert(raws.map_values(|raw: Seq<u8>| decoded(raw)).drop_last()
                            =~= descriptors@);
                    }
                    break;
                }
                descriptors.push(d);
                index = d.next;
                left = left - 1;
            } else {
                descriptors.push(d);
                break;
            }
        }
        (descriptors, Ghost(raws))
    }

    /// Takes the next chain that the driver made available, if there is one that can be read.
    pub fn pop(&mut self, mem: &mut GuestMemoryMmap<()>) -> (r: Option<DescriptorChain>)
        ensures
            guest_regions(*final(mem)) == guest_regions(*old(mem)),
            *final(self) == (Queue {
                next_avail: if r is Some {
                    old(self).next_avail.wrapping_add(1)
                } else {
                    old(self).next_avail
                },
                ..*old(self)
            }),
            old(self).pop_may(
                guest_addresses(*old(mem)),
                accesses(*old(mem)),
                accesses(*final(mem)),
                match r {
                    Some(chain) => Some((chain.index, chain.descriptors@)),
                    None => None,
                },
            ),
    {
        let ghost space = guest_addresses(*mem);
        let ghost before = accesses(*mem);
        let ghost q = *self;
        let ghost none: Option<(u16, Seq<Descriptor>)> = None;
        let idx_addr: u64 = match self.avail_ring.checked_add(2) {
            Some(addr) => addr,
            None => {
                assert(q.popped(space, before, 0, 0, Seq::empty()) == (before, none));
                return None;
            },
        };
        let idx: u16 = match load_u16(mem, idx_addr) {
            Some(idx) => idx,
            None => {
                assert(q.popped(space, before, 0, 0, Seq::empty()) == (before, none));
                return None;
            },
        };
        fence();
        let size: u16 = self.actual_size();
        if idx == self.next_avail || size == 0 {
            assert(q.popped(space, before, idx, 0, Seq::empty()) == (accesses(*mem), none));
            return None;
        }
        let slot: u64 = 4 + 2 * (self.next_avail % size) as u64;
        let slot_addr: u64 = match self.avail_ring.checked_add(slot) {
            Some(addr) => addr,
            None => {
                assert(q.popped(space, before, idx, 0, Seq::empty()) == (accesses(*mem), none));
                return None;
            },
        };
        let head: u16 = match load_u16(mem, slot_addr) {
            Some(head) => head,
            None => {
                assert(q.popped(space, before, idx, 0, Seq::empty()) == (accesses(*mem), none));
                return None;
            },
        };
        let (descriptors, Ghost(raws)) = self.walk(mem, head);
        assert(q.popped(space, before, idx, head, raws).0 == accesses(*mem));
        if descriptors.len() == 0 {
            None
        } else {
            self.next_avail = self.next_avail.wrapping_add(1);
            Some(DescriptorChain { index: head, descriptors })
        }
    }

    /// Puts the chain that was taken last back, so that it is taken again.
    pub fn undo_pop(&mut self)
        ensures
            *final(self) == (Queue {
                next_avail: old(self).next_avail.wrapping_sub(1),
                ..*old(self)
            }),
    {
        self.next_avail = self.next_avail.wrapping_sub(1);
    }

    /// Gives a chain back to the driver, with `len` bytes written to it.
    pub fn add_used(&mut self, mem: &mut GuestMemoryMmap<()>, head: u16, len: u32) -> (r: Result<
        (),
        QueueError,
    >)
        ensures
            guest_regions(*final(mem)) == guest_regions(*old(mem)),
            (*final(self), accesses(*final(mem)), r) == old(self).used_added(
                guest_addresses(*old(mem)),
                accesses(*old(mem)),
                head,
                len,
            ),
    {
        let size: u16 = self.actual_size();
        if head >= size {
            return Err(QueueError::InvalidDescriptor);
        }
        let offset: u64 = 4 + 8 * (self.next_used % size) as u64;
        let addr: u64 = match self.used_ring.checked_add(offset) {
            Some(addr) => addr,
            None => {
                return Err(QueueError::AddressOverflow);
            },
        };
        let mut element: Vec<u8> = Vec::with_capacity(8);
        push_le32(&mut element, head as u32);
        push_le32(&mut element, len);
        assert(element@ =~= used_element(head, len));
        if !store_bytes(mem, addr, &element) {
            return Err(QueueError::GuestMemory);
        }
        self.next_used = self.next_used.wrapping_add(1);
        self.num_added = self.num_added.wrapping_add(1);
        fence();
        let idx: Vec<u8> = put_le16(self.next_used);
        if store_bytes(mem, self.used_ring + 2, &idx) {
            Ok(())
        } else {
            Err(QueueError::GuestMemory)
        }
    }

    /// Stores whether the device wants to be notified.
    fn set_notification(&mut self, mem: &mut GuestMemoryMmap<()>, enable: bool) -> (r: Result<
        (),
        QueueError,
    >)
        ensures
            *final(self) == *old(self),
            guest_regions(*final(mem)) == guest_regions(*old(mem)),
            (accesses(*final(mem)), r) == old(self).notification_set(
                guest_addresses(*old(mem)),
                accesses(*old(mem)),
                enable,
            ),
    {
        let size: u16 = self.actual_size();
        let addr: u64;
        let value: u16;
        if self.event_idx_enabled {
            if !enable {
                return Ok(());
            }
            addr = match self.used_ring.checked_add(4 + 8 * size as u64) {
                Some(addr) => addr,
                None => {
                    return Err(QueueError::AddressOverflow);
                },
            };
            value = self.next_avail;
        } else {
            addr = self.used_ring;
            value =
            if enable {
                0
            } else {
                VRING_USED_F_NO_NOTIFY
            };
        }
        let data: Vec<u8> = put_le16(value);
        if store_bytes(mem, addr, &data) {
            Ok(())
        } else {
            Err(QueueError::GuestMemory)
        }
    }

    /// Asks the driver not to notify the device.
    pub fn disable_notification(&mut self, mem: &mut GuestMemoryMmap<()>) -> (r: Result<
        (),
        QueueError,
    >)
        ensures
            *final(self) == *old(self),
            guest_regions(*final(mem)) == guest_regions(*old(mem)),
            (accesses(*final(mem)), r) == old(self).notification_set(
                guest_addresses(*old(mem)),
                accesses(*old(mem)),
                false,
            ),
    {
        self.set_notification(mem, false)
    }

    /// Asks the driver to notify the device of the next chain. The result tells whether chains
    /// are waiting already, for which no notification will come.
    pub fn enable_notification(&mut self, mem: &mut GuestMemoryMmap<()>) -> (r: Result<
        bool,
        QueueError,
    >)
        ensures
            *final(self) == *old(self),
            guest_regions(*final(mem)) == guest_regions(*old(mem)),
            exists|idx: u16|
                (accesses(*final(mem)), r) == #[trigger] old(self).notification_enabled(
                    guest_addresses(*old(mem)),
                    accesses(*old(mem)),
                    idx,
                ),
    {
        let ghost space = guest_addresses(*mem);
        let ghost before = accesses(*mem);
        let ghost q = *self;
        match self.set_notification(mem, true) {
            Ok(_) => {},
            Err(e) => {
                assert(q.notification_enabled(space, before, 0).0 == accesses(*mem));
                return Err(e);
            },
        }
        fence();
        let addr: u64 = match self.avail_ring.checked_add(2) {
            Some(addr) => addr,
            None => {
                assert(q.notification_enabled(space, before, 0).0 == accesses(*mem));
                return Err(QueueError::AddressOverflow);
            },
        };
        match load_u16(mem, addr) {
            Some(idx) => {
                assert(q.notification_enabled(space, before, idx).0 == accesses(*mem));
                Ok(idx != self.next_avail)
            },
            None => {
                assert(q.notification_enabled(space, before, 0).0 == accesses(*mem));
                Err(QueueError::GuestMemory)
            },
        }
    }

    /// Whether the driver wants to hear of the chains that were given back since it was last
    /// considered.
    pub fn needs_notification(&mut self, mem: &mut GuestMemoryMmap<()>) -> (r: Result<
        bool,
        QueueError,
    >)
        ensures
            *final(self) == (Queue {
                num_added: if old(self).event_idx_enabled && r is Ok {
                    0
                } else {
                    old(self).num_added
                },
                ..*old(self)
            }),
            guest_regions(*final(mem)) == guest_regions(*old(mem)),
            exists|event: u16|
                (accesses(*final(mem)), r) == #[trigger] old(self).notification_needed(
                    guest_addresses(*old(mem)),
                    accesses(*old(mem)),
                    event,
                ),
    {
        let ghost space = guest_addresses(*mem);
        let ghost before = accesses(*mem);
        let ghost q = *self;
        fence();
        if !self.event_idx_enabled {
            assert(q.notification_needed(space, before, 0).0 == before);
            return Ok(true);
        }
        let size: u16 = self.actual_size();
        let addr: u64 = match self.avail_ring.checked_add(4 + 2 * size as u64) {
            Some(addr) => addr,
            None => {
                assert(q.notification_needed(space, before, 0).0 == before);
                return Err(QueueError::AddressOverflow);
            },
        };
        match load_u16(mem, addr) {
            Some(event) => {
                assert(q.notification_needed(space, before, event).0 == accesses(*mem));
                let needed: bool = self.next_used.wrapping_sub(event).wrapping_sub(1)
                    < self.num_added;
                self.num_added = 0;
                Ok(needed)
            },
            None => {
                assert(q.notification_needed(space, before, 0).0 == before);
                Err(QueueError::GuestMemory)
            },
        }
    }

    /// Whether notifications can be turned off and on, and asked about.
    pub fn can_notify(&self, mem: &GuestMemoryMmap<()>) -> (r: bool)
        ensures
            r == self.notifies(guest_addresses(*mem)),
    {
        let size: u64 = self.actual_size() as u64;
        if !check_word(mem, self.avail_ring, 2) {
            false
        } else if self.event_idx_enabled {
            check_word(mem, self.used_ring, 4 + 8 * size) && check_word(
                mem,
                self.avail_ring,
                4 + 2 * size,
            )
        } else {
            check_word(mem, self.used_ring, 0)
        }
    }

    /// Whether the driver set the queue up in full.
    pub fn is_valid(&self, mem: &GuestMemoryMmap<()>) -> (r: bool)
        ensures
            r == self.valid(guest_addresses(*mem)),
    {
        self.ready && 0 < self.size && self.size <= self.max_size && self.size & (self.size - 1)
            == 0 && self.desc_table % 16 == 0 && self.avail_ring % 2 == 0 && self.used_ring % 4 == 0
            && check_range(mem, self.desc_table, 16 * self.size as usize) && check_range(
            mem,
            self.avail_ring,
            6 + 2 * self.size as usize,
        ) && check_range(mem, self.used_ring, 6 + 8 * self.size as usize)
    }
}

/// Whether the two bytes `offset` behind `base` are mapped.
fn check_word(mem: &GuestMemoryMmap<()>, base: u64, offset: u64) -> (r: bool)
    ensures
        r == range_mapped(guest_addresses(*mem), base + offset, 2),
{
    match base.checked_add(offset) {
        Some(addr) => check_range(mem, addr, 2),
        None => false,
    }
}

/// Putting a chain back right after it was taken leaves the queue as it was before.
pub proof fn undo_pop_undoes_pop(q: Queue)
    ensures
        (Queue {
            next_avail: q.next_avail.wrapping_add(1).wrapping_sub(1),
            ..q
        }) == q,
{
}

/// On a queue that the driver set up in full, the operations of the device do not fail, except
/// that a chain can only be given back by an index of the table.
pub proof fn valid_queue_does_not_fail(
    q: Queue,
    space: Set<u64>,
    before: Seq<Access>,
    head: u16,
    len: u32,
    idx: u16,
)
    requires
        q.valid(space),
    ensures
        q.notifies(space),
        q.notification_set(space, before, true).1 is Ok,
        q.notification_set(space, before, false).1 is Ok,
        q.notification_enabled(space, before, idx).1 is Ok,
        q.notification_needed(space, before, idx).1 is Ok,
        head < q.ring() ==> q.used_added(space, before, head, len).2 is Ok,
        head >= q.ring() ==> q.used_added(space, before, head, len).2 == Err::<(), QueueError>(
            QueueError::InvalidDescriptor,
        ),
{
    let used: int = q.next_used as int % q.ring();
    assert(0 <= used < q.ring());
    sub_range_mapped(space, q.used_ring as int, (6 + 8 * q.size) as nat, q.used_addr(), 8);
    sub_range_mapped(space, q.used_ring as int, (6 + 8 * q.size) as nat, q.used_ring as int, 2);
    sub_range_mapped(space, q.used_ring as int, (6 + 8 * q.size) as nat, q.used_ring + 2, 2);
    sub_range_mapped(space, q.used_ring as int, (6 + 8 * q.size) as nat, q.avail_event_addr(), 2);
    sub_range_mapped(space, q.avail_ring as int, (6 + 2 * q.size) as nat, q.avail_idx_addr(), 2);
    sub_range_mapped(space, q.avail_ring as int, (6 + 2 * q.size) as nat, q.used_event_addr(), 2);
}

/// Asking for notifications last leaves them on, whatever the device did before.
pub proof fn enabling_last_leaves_notifications_on(
    q: Queue,
    space: Set<u64>,
    before: Seq<Access>,
    idx: u16,
)
    requires
        q.notifies(space),
    ensures
        q.notifications_on(q.notification_enabled(space, before, idx).0),
{
    let (addr, value) = q.notification_store(true).unwrap();
    let stored = q.notification_set(space, before, true).0;
    whole_store_is_last(before, space, addr as u64, le16_bytes(value));
    let done = q.notification_enabled(space, before, idx).0;
    assert(done.drop_last() =~= stored);
}

/// Declining notifications last leaves them off, whatever the device did before: chains that the
/// driver adds from then on go unnoticed. Where notifications are steered by ring positions there
/// is nothing to decline.
pub proof fn disabling_last_leaves_notifications_off(q: Queue, space: Set<u64>, before: Seq<Access>)
    requires
        q.notifies(space),
        !q.event_idx_enabled,
    ensures
        last_stored(q.notification_set(space, before, false).0, q.used_ring) == Some(
            le16_bytes(VRING_USED_F_NO_NOTIFY),
        ),
        !q.notifications_on(q.notification_set(space, before, false).0),
{
    whole_store_is_last(before, space, q.used_ring, le16_bytes(VRING_USED_F_NO_NOTIFY));
    assert(le16_bytes(VRING_USED_F_NO_NOTIFY)[0] != le16_bytes(0)[0]);
}

} // verus!
