//! What the operations of a queue amount to in the rings: which bytes are loaded and stored where,
//! and what follows from them.

use vstd::prelude::*;

use crate::bytes::{le16_bytes, le32_bytes};
use crate::guest::{after_store, mapped_prefix_is_whole, range_mapped, Access};
use crate::queue::{decoded, used_element, Descriptor, Queue, QueueError};

verus! {

/// The number that two bytes spell, the low one first.
pub open spec fn word(b: Seq<u8>) -> int {
    b[0] + 256 * b[1]
}

/// The number that four bytes from `at` on spell, the low one first.
pub open spec fn double_word(b: Seq<u8>, at: int) -> int {
    b[at] + 256 * b[at + 1] + 65536 * b[at + 2] + 16777216 * b[at + 3]
}

/// The smaller one of the size that the driver chose and the size that the device offers.
pub open spec fn entries(q: Queue) -> int {
    if q.size < q.max_size {
        q.size as int
    } else {
        q.max_size as int
    }
}

/// `access` loads `len` bytes at `addr`.
pub open spec fn loads(access: Access, addr: int, len: int) -> bool {
    !access.0 && access.1 == addr && access.2.len() == len
}

/// `access` stores two bytes at `addr`, which spell `value`.
pub open spec fn stores_word(access: Access, addr: int, value: int) -> bool {
    access.0 && access.1 == addr && access.2.len() == 2 && word(access.2) == value
}

/// `access` stores an element of the used ring at `addr`.
pub open spec fn stores_element(access: Access, addr: int, head: int, len: int) -> bool {
    &&& access.0 && access.1 == addr && access.2.len() == 8
    &&& double_word(access.2, 0) == head
    &&& double_word(access.2, 4) == len
}

/// Where the next element of the used ring goes.
pub open spec fn next_element(q: Queue) -> int {
    q.used_ring + 4 + 8 * (q.next_used as int % entries(q))
}

/// The next element of the used ring and the count in front of it can be stored.
pub open spec fn used_ring_mapped(q: Queue, space: Set<u64>) -> bool {
    &&& range_mapped(space, next_element(q), 8)
    &&& range_mapped(space, q.used_ring + 2, 2)
}

/// The queue after one more chain was given back.
pub open spec fn one_more_used(q: Queue) -> Queue {
    Queue {
        next_used: ((q.next_used + 1) % 65536) as u16,
        num_added: ((q.num_added + 1) % 65536) as u16,
        ..q
    }
}

/// A store of bytes that are all mapped is recorded whole.
proof fn store_is_whole(before: Seq<Access>, space: Set<u64>, addr: u64, data: Seq<u8>)
    requires
        range_mapped(space, addr as int, data.len()),
    ensures
        after_store(before, space, addr, data) == before.push((true, addr, data)),
{
    mapped_prefix_is_whole(space, addr as int, data.len());
    assert(data.take(data.len() as int) =~= data);
}

/// The bytes of an element of the used ring.
proof fn element_spells(head: u16, len: u32)
    ensures
        used_element(head, len).len() == 8,
        double_word(used_element(head, len), 0) == head,
        double_word(used_element(head, len), 4) == len,
{
    four_bytes_spell(head as u32);
    four_bytes_spell(len);
    let e = used_element(head, len);
    let a = le32_bytes(head as u32);
    let b = le32_bytes(len);
    assert(e[0] == a[0] && e[1] == a[1] && e[2] == a[2] && e[3] == a[3]);
    assert(e[4] == b[0] && e[5] == b[1] && e[6] == b[2] && e[7] == b[3]);
}

/// The four bytes of a number.
proof fn four_bytes_spell(v: u32)
    ensures
        le32_bytes(v).len() == 4,
        double_word(le32_bytes(v), 0) == v,
{
}

/// Giving a chain back stores its index and the length at the next place of the used ring, and then
/// the count that the driver looks at, which is one more than before.
pub proof fn used_chain_is_published(
    q: Queue,
    space: Set<u64>,
    before: Seq<Access>,
    head: u16,
    len: u32,
)
    requires
        head < entries(q),
        used_ring_mapped(q, space),
    ensures
        ({
            let (next, after, r) = q.used_added(space, before, head, len);
            let n = before.len() as int;
            &&& r is Ok
            &&& next == one_more_used(q)
            &&& after.len() == n + 2
            &&& after.take(n) == before
            &&& stores_element(after[n], next_element(q), head as int, len as int)
            &&& stores_word(after[n + 1], q.used_ring + 2, (q.next_used + 1) % 65536)
        }),
{
    let (next, after, r) = q.used_added(space, before, head, len);
    let n = before.len() as int;
    let element = used_element(head, len);
    element_spells(head, len);
    store_is_whole(before, space, q.used_addr() as u64, element);
    let mid = before.push((true, q.used_addr() as u64, element));
    let count = le16_bytes(next.next_used);
    assert(word(count) == next.next_used);
    store_is_whole(mid, space, (q.used_ring + 2) as u64, count);
    assert(after == mid.push((true, (q.used_ring + 2) as u64, count)));
    assert(after.take(n) =~= before);
    assert(after[n] == (true, q.used_addr() as u64, element));
}

/// What an access at `addr` fails with if there is no memory.
pub open spec fn missing(addr: int) -> QueueError {
    if addr < 18446744073709551616 {
        QueueError::GuestMemory
    } else {
        QueueError::AddressOverflow
    }
}

/// Why the chain `head` cannot be given back as it should, and what becomes of the queue `q` then.
/// Where only the count cannot be stored, the chain counts as given back.
pub open spec fn return_fails(
    q: Queue,
    space: Set<u64>,
    head: u16,
    next: Queue,
    e: QueueError,
) -> bool {
    ||| head >= entries(q) && next == q && e is InvalidDescriptor
    ||| {
        &&& head < entries(q) && !range_mapped(space, next_element(q), 8)
        &&& next == q
        &&& e == missing(next_element(q))
    }
    ||| {
        &&& head < entries(q) && range_mapped(space, next_element(q), 8)
        &&& !range_mapped(space, q.used_ring + 2, 2)
        &&& next == one_more_used(q)
        &&& e is GuestMemory
    }
}

/// A chain is not given back by an index outside the table, nor where the used ring is not mapped.
pub proof fn unusable_chain_is_refused(
    q: Queue,
    space: Set<u64>,
    before: Seq<Access>,
    head: u16,
    len: u32,
)
    ensures
        head >= entries(q) ==> q.used_added(space, before, head, len) == (
            q,
            before,
            Err::<(), QueueError>(QueueError::InvalidDescriptor),
        ),
        head < entries(q) && !range_mapped(space, next_element(q), 8) ==> {
            let (next, after, r) = q.used_added(space, before, head, len);
            &&& next == q
            &&& r == Err::<(), QueueError>(missing(next_element(q)))
        },
        head < entries(q) && range_mapped(space, next_element(q), 8) && !range_mapped(
            space,
            q.used_ring + 2,
            2,
        ) ==> {
            let (next, after, r) = q.used_added(space, before, head, len);
            &&& next == one_more_used(q)
            &&& r == Err::<(), QueueError>(QueueError::GuestMemory)
        },
{
}

/// `d` is what the 16 bytes of `raw` spell.
pub open spec fn spells(raw: Seq<u8>, d: Descriptor) -> bool {
    &&& raw.len() == 16
    &&& d.addr == double_word(raw, 0) + 4294967296 * double_word(raw, 4)
    &&& d.len == double_word(raw, 8)
    &&& d.flags == raw[12] + 256 * raw[13]
    &&& d.next == raw[14] + 256 * raw[15]
}

/// An entry of the descriptor table is decoded field by field.
pub proof fn descriptor_is_read_from_its_bytes(raw: Seq<u8>)
    requires
        raw.len() == 16,
    ensures
        spells(raw, decoded(raw)),
{
}

/// Where the table entry `index` lies.
pub open spec fn entry_at(q: Queue, index: int) -> int {
    q.desc_table + 16 * index
}

/// The table entry `index` is there.
pub open spec fn entry_there(q: Queue, space: Set<u64>, index: int) -> bool {
    index < entries(q) && range_mapped(space, entry_at(q, index), 16)
}

/// The entry says that another one follows.
pub open spec fn goes_on(d: Descriptor) -> bool {
    d.flags & 1 == 1
}

/// `ds` is a chain as the table spells it: it starts at `head`, each entry but the last one names
/// the next, and it was loaded by `trace` from its position `at` on.
pub open spec fn chain_loaded(
    q: Queue,
    trace: Seq<Access>,
    at: int,
    head: int,
    ds: Seq<Descriptor>,
) -> bool {
    &&& at + ds.len() <= trace.len()
    &&& ds.len() > 0
    &&& ds.len() <= entries(q)
    &&& forall|i: int|
        0 <= i < ds.len() ==> {
            &&& loads(
                #[trigger] trace[at + i],
                entry_at(
                    q,
                    if i == 0 {
                        head
                    } else {
                        ds[i - 1].next as int
                    },
                ),
                16,
            )
            &&& spells(trace[at + i].2, ds[i])
        }
    &&& forall|i: int| 0 <= i < ds.len() - 1 ==> goes_on(#[trigger] ds[i])
}

/// Nothing can follow the chain `ds` that ends a trace whose entries were loaded from position `at`
/// on: its last entry says so, the table has no more entries, the entry that would follow is not
/// there, or it points outside the table itself.
pub open spec fn chain_ends(
    q: Queue,
    space: Set<u64>,
    trace: Seq<Access>,
    at: int,
    ds: Seq<Descriptor>,
) -> bool {
    let last = ds.last();
    ||| trace.len() == at + ds.len() && !goes_on(last)
    ||| trace.len() == at + ds.len() && ds.len() == entries(q)
    ||| trace.len() == at + ds.len() && !entry_there(q, space, last.next as int)
    ||| {
        &&& trace.len() == at + ds.len() + 1
        &&& goes_on(last)
        &&& exists|d: Descriptor| #[trigger]
            spells(trace.last().2, d) && goes_on(d) && d.next >= entries(q)
    }
}

/// Taking a chain looks at the driver's count first. If that is the device's own count, there is
/// none.
pub proof fn pop_looks_at_the_count(
    q: Queue,
    space: Set<u64>,
    before: Seq<Access>,
    after: Seq<Access>,
    chain: Option<(u16, Seq<Descriptor>)>,
)
    requires
        q.pop_may(space, before, after, chain),
        range_mapped(space, q.avail_ring + 2, 2),
    ensures
        before.len() < after.len(),
        after.take(before.len() as int) == before,
        loads(after[before.len() as int], q.avail_ring + 2, 2),
        word(after[before.len() as int].2) == q.next_avail ==> chain is None && after.len()
            == before.len() + 1,
{
    let n = before.len() as int;
    let (idx, head, raws) = choose|idx: u16, head: u16, raws: Seq<Seq<u8>>|
        {
            &&& #[trigger] q.popped(space, before, idx, head, raws) == (after, chain)
            &&& q.chain_waits(space, idx) ==> q.chain_entries(space, head, raws)
        };
    assert(after.take(n) =~= before);
    assert(word(le16_bytes(idx)) == idx);
}

/// Where the ring is not mapped or has no entries, no chain is taken, and nothing is loaded beyond
/// the driver's count.
pub proof fn nothing_is_taken_from_a_missing_ring(
    q: Queue,
    space: Set<u64>,
    before: Seq<Access>,
    after: Seq<Access>,
    chain: Option<(u16, Seq<Descriptor>)>,
)
    requires
        q.pop_may(space, before, after, chain),
    ensures
        !range_mapped(space, q.avail_ring + 2, 2) ==> chain is None && after == before,
        range_mapped(space, q.avail_ring + 2, 2) && (entries(q) == 0 || !range_mapped(
            space,
            q.avail_ring + 4 + 2 * (q.next_avail as int % entries(q)),
            2,
        )) ==> chain is None && after.len() == before.len() + 1,
{
}

/// If the driver has made a chain available, it is taken, as the table spells it and up to its
/// end: the ring names its head, and the chain is refused only if the head has no table entry or
/// an entry that points outside the table.
pub proof fn waiting_chain_is_taken(
    q: Queue,
    space: Set<u64>,
    before: Seq<Access>,
    after: Seq<Access>,
    chain: Option<(u16, Seq<Descriptor>)>,
)
    requires
        q.pop_may(space, before, after, chain),
        entries(q) > 0,
        range_mapped(space, q.avail_ring + 2, 2),
        range_mapped(space, q.avail_ring + 4 + 2 * (q.next_avail as int % entries(q)), 2),
        word(after[before.len() as int].2) != q.next_avail,
    ensures
        ({
            let n = before.len() as int;
            let head = word(after[n + 1].2);
            &&& after.len() >= n + 2
            &&& loads(after[n + 1], q.avail_ring + 4 + 2 * (q.next_avail as int % entries(q)), 2)
            &&& match chain {
                Some((h, ds)) => {
                    &&& h == head
                    &&& chain_loaded(q, after, n + 2, head, ds)
                    &&& chain_ends(q, space, after, n + 2, ds)
                },
                None => {
                    ||| !entry_there(q, space, head)
                    ||| {
                        &&& after.len() == n + 3
                        &&& loads(after[n + 2], entry_at(q, head), 16)
                        &&& exists|d: Descriptor| #[trigger]
                            spells(after[n + 2].2, d) && goes_on(d) && d.next >= entries(q)
                    }
                },
            }
        }),
{
    let n = before.len() as int;
    let (idx, head, raws) = choose|idx: u16, head: u16, raws: Seq<Seq<u8>>|
        {
            &&& #[trigger] q.popped(space, before, idx, head, raws) == (after, chain)
            &&& q.chain_waits(space, idx) ==> q.chain_entries(space, head, raws)
        };
    assert(word(le16_bytes(idx)) == idx);
    assert(word(le16_bytes(head)) == head);
    assert(q.chain_waits(space, idx));
    let all = raws.map_values(|raw: Seq<u8>| decoded(raw));
    let ds = q.chain_descriptors(raws);
    assert forall|d: Descriptor| goes_on(d) == #[trigger] d.has_next() by {
        let f = d.flags;
        assert((f & 1 == 1) == (f & 1 != 0)) by (bit_vector);
    }
    assert forall|i: int| 0 <= i < raws.len() implies {
        &&& loads(
            #[trigger] after[n + 2 + i],
            entry_at(
                q,
                if i == 0 {
                    head as int
                } else {
                    all[i - 1].next as int
                },
            ),
            16,
        )
        &&& spells(after[n + 2 + i].2, all[i])
        &&& after[n + 2 + i].2 == raws[i]
    } by {
        assert(q.entry_read(space, head, raws, i));
        descriptor_is_read_from_its_bytes(raws[i]);
    }
    if ds.len() > 0 {
        assert forall|i: int| 0 <= i < ds.len() implies {
            &&& loads(
                #[trigger] after[n + 2 + i],
                entry_at(
                    q,
                    if i == 0 {
                        head as int
                    } else {
                        ds[i - 1].next as int
                    },
                ),
                16,
            )
            &&& spells(after[n + 2 + i].2, ds[i])
        } by {
            assert(ds[i] == all[i]);
        }
        assert forall|i: int| 0 <= i < ds.len() - 1 implies goes_on(#[trigger] ds[i]) by {
            assert(q.continues(decoded(raws[i])));
            assert(ds[i].has_next());
        }
        if all.len() > 0 && q.dangling(all.last()) {
            assert(after[n + 2 + (raws.len() - 1)] == after.last());
            assert(spells(after.last().2, all.last()));
            assert(q.continues(decoded(raws[ds.len() - 1])));
            assert(ds.last().has_next());
            assert(all.last().has_next());
        } else {
            assert(ds.last() == decoded(raws.last()));
            assert(ds.last().has_next() == goes_on(ds.last()));
        }
    } else if raws.len() > 0 {
        assert(raws.len() == 1);
        assert(after[n + 2 + 0] == after[n + 2]);
        assert(all.last().has_next());
        assert(spells(after[n + 2].2, all.last()));
    }
}

/// What was loaded decides which chain was taken, and all of it: two ways of taking a chain that
/// load the same as far as they go are one.
pub proof fn loads_decide_about_the_chain(
    q: Queue,
    space: Set<u64>,
    before: Seq<Access>,
    a: Seq<Access>,
    chain_a: Option<(u16, Seq<Descriptor>)>,
    b: Seq<Access>,
    chain_b: Option<(u16, Seq<Descriptor>)>,
)
    requires
        q.pop_may(space, before, a, chain_a),
        q.pop_may(space, before, b, chain_b),
        a.len() <= b.len(),
        b.take(a.len() as int) == a,
    ensures
        a == b,
        chain_a == chain_b,
{
    let n = before.len() as int;
    let (idx, head, raws) = choose|idx: u16, head: u16, raws: Seq<Seq<u8>>|
        {
            &&& #[trigger] q.popped(space, before, idx, head, raws) == (a, chain_a)
            &&& q.chain_waits(space, idx) ==> q.chain_entries(space, head, raws)
        };
    let (idx1, head1, raws1) = choose|idx: u16, head: u16, raws: Seq<Seq<u8>>|
        {
            &&& #[trigger] q.popped(space, before, idx, head, raws) == (b, chain_b)
            &&& q.chain_waits(space, idx) ==> q.chain_entries(space, head, raws)
        };
    assert forall|i: int| 0 <= i < a.len() implies a[i] == b[i] by {
        assert(b.take(a.len() as int)[i] == b[i]);
    }
    assert(word(le16_bytes(idx)) == idx && word(le16_bytes(idx1)) == idx1);
    assert(word(le16_bytes(head)) == head && word(le16_bytes(head1)) == head1);
    if range_mapped(space, q.avail_ring + 2, 2) {
        assert(a[n].2 == le16_bytes(idx) && b[n].2 == le16_bytes(idx1));
        assert(idx == idx1);
        if q.chain_waits(space, idx) {
            assert(a[n + 1].2 == le16_bytes(head) && b[n + 1].2 == le16_bytes(head1));
            assert(head == head1);
            let k = raws.len() as int;
            assert forall|i: int| 0 <= i < k implies raws[i] == raws1[i] by {
                assert(a[n + 2 + i].2 == raws[i]);
                assert(b[n + 2 + i].2 == raws1[i]);
            }
            if k < raws1.len() {
                assert(q.entry_read(space, head, raws1, k));
                if k > 0 {
                    assert(q.continues(decoded(raws1[k - 1])));
                }
                assert(false);
            }
            assert(raws =~= raws1);
        }
    }
}

/// The same holds of two ways of taking a chain that are both how `trace` begins.
pub proof fn trace_decides_about_the_chain(
    q: Queue,
    space: Set<u64>,
    before: Seq<Access>,
    a: Seq<Access>,
    chain_a: Option<(u16, Seq<Descriptor>)>,
    b: Seq<Access>,
    chain_b: Option<(u16, Seq<Descriptor>)>,
    trace: Seq<Access>,
)
    requires
        q.pop_may(space, before, a, chain_a),
        q.pop_may(space, before, b, chain_b),
        a.len() <= trace.len() && trace.take(a.len() as int) == a,
        b.len() <= trace.len() && trace.take(b.len() as int) == b,
    ensures
        a == b,
        chain_a == chain_b,
{
    if a.len() <= b.len() {
        assert(trace.take(b.len() as int).take(a.len() as int) =~= trace.take(a.len() as int));
        loads_decide_about_the_chain(q, space, before, a, chain_a, b, chain_b);
    } else {
        assert(trace.take(a.len() as int).take(b.len() as int) =~= trace.take(b.len() as int));
        loads_decide_about_the_chain(q, space, before, b, chain_b, a, chain_a);
    }
}

/// Turning notifications off stores a flag at the start of the used ring, and turning them on
/// clears it. Where ring positions steer them, turning them on stores the device's own count behind
/// the used ring, and turning them off takes no store.
pub proof fn notifications_are_set_in_the_used_ring(
    q: Queue,
    space: Set<u64>,
    before: Seq<Access>,
    enable: bool,
)
    requires
        q.event_idx_enabled ==> range_mapped(space, q.used_ring + 4 + 8 * entries(q), 2),
        !q.event_idx_enabled ==> range_mapped(space, q.used_ring as int, 2),
    ensures
        ({
            let (after, r) = q.notification_set(space, before, enable);
            let n = before.len() as int;
            &&& r is Ok
            &&& if q.event_idx_enabled && !enable {
                after == before
            } else {
                &&& after.len() == n + 1
                &&& after.take(n) == before
                &&& if q.event_idx_enabled {
                    stores_word(after[n], q.used_ring + 4 + 8 * entries(q), q.next_avail as int)
                } else {
                    stores_word(
                        after[n],
                        q.used_ring as int,
                        if enable {
                            0
                        } else {
                            1
                        },
                    )
                }
            }
        }),
{
    let n = before.len() as int;
    let (after, r) = q.notification_set(space, before, enable);
    if let Some((addr, value)) = q.notification_store(enable) {
        store_is_whole(before, space, addr as u64, le16_bytes(value));
        assert(word(le16_bytes(value)) == value);
        assert(after.take(n) =~= before);
    }
}

/// After turning notifications on, the driver's count is looked at, and chains wait exactly if it
/// is not the device's own count.
pub proof fn enabling_tells_whether_chains_wait(
    q: Queue,
    space: Set<u64>,
    before: Seq<Access>,
    idx: u16,
)
    requires
        q.event_idx_enabled ==> range_mapped(space, q.used_ring + 4 + 8 * entries(q), 2),
        !q.event_idx_enabled ==> range_mapped(space, q.used_ring as int, 2),
        range_mapped(space, q.avail_ring + 2, 2),
    ensures
        ({
            let set = q.notification_set(space, before, true).0;
            let (after, r) = q.notification_enabled(space, before, idx);
            &&& after.len() == set.len() + 1
            &&& after.take(set.len() as int) == set
            &&& loads(after.last(), q.avail_ring + 2, 2)
            &&& word(after.last().2) == idx
            &&& r == Ok::<bool, QueueError>(idx != q.next_avail)
        }),
{
    notifications_are_set_in_the_used_ring(q, space, before, true);
    let set = q.notification_set(space, before, true).0;
    let (after, r) = q.notification_enabled(space, before, idx);
    assert(after.take(set.len() as int) =~= set);
    assert(word(le16_bytes(idx)) == idx);
}

/// That a word for notifications is not mapped is told.
pub proof fn missing_words_are_told(
    q: Queue,
    space: Set<u64>,
    before: Seq<Access>,
    enable: bool,
    value: u16,
)
    ensures
        ({
            let addr = if q.event_idx_enabled {
                q.used_ring + 4 + 8 * entries(q)
            } else {
                q.used_ring as int
            };
            &&& !range_mapped(space, addr, 2) && (enable || !q.event_idx_enabled) ==> {
                &&& q.notification_set(space, before, enable).1 == Err::<(), QueueError>(
                    missing(addr),
                )
                &&& enable ==> q.notification_enabled(space, before, value).1 == Err::<
                    bool,
                    QueueError,
                >(missing(addr))
            }
            &&& range_mapped(space, addr, 2) && !range_mapped(space, q.avail_ring + 2, 2)
                ==> q.notification_enabled(space, before, value) == (
                q.notification_set(space, before, true).0,
                Err::<bool, QueueError>(missing(q.avail_ring + 2)),
            )
        }),
        q.event_idx_enabled && !range_mapped(space, q.avail_ring + 4 + 2 * entries(q), 2)
            ==> q.notification_needed(space, before, value) == (
            before,
            Err::<bool, QueueError>(missing(q.avail_ring + 4 + 2 * entries(q))),
        ),
{
}

/// The driver is notified of every used chain, unless ring positions steer that: then it is
/// notified exactly if the position that it waits for is among the chains used since it was last
/// considered.
pub proof fn driver_is_notified_at_its_position(
    q: Queue,
    space: Set<u64>,
    before: Seq<Access>,
    event: u16,
)
    requires
        q.event_idx_enabled ==> range_mapped(space, q.avail_ring + 4 + 2 * entries(q), 2),
    ensures
        ({
            let (after, r) = q.notification_needed(space, before, event);
            if !q.event_idx_enabled {
                after == before && r == Ok::<bool, QueueError>(true)
            } else {
                &&& after.len() == before.len() + 1
                &&& after.take(before.len() as int) == before
                &&& loads(after.last(), q.avail_ring + 4 + 2 * entries(q), 2)
                &&& word(after.last().2) == event
                &&& r == Ok::<bool, QueueError>(
                    exists|k: int|
                        1 <= k <= q.num_added && #[trigger] (q.next_used - k) % 65536 == event,
                )
            }
        }),
{
    let (after, r) = q.notification_needed(space, before, event);
    if q.event_idx_enabled {
        assert(after.take(before.len() as int) =~= before);
        assert(word(le16_bytes(event)) == event);
        let back = (q.next_used - event - 1) % 65536;
        assert(q.next_used.wrapping_sub(event).wrapping_sub(1) == back);
        if back < q.num_added {
            let k = back + 1;
            assert((q.next_used - k) % 65536 == event);
        }
        if exists|k: int|
            1 <= k <= q.num_added && #[trigger] (q.next_used - k) % 65536 == event {
            let k = choose|k: int|
                1 <= k <= q.num_added && #[trigger] (q.next_used - k) % 65536 == event;
            assert(back == k - 1);
        }
    }
}

/// A queue is valid exactly if the driver is done with it, its size is a power of two that the
/// device offers, and its table and rings are aligned and mapped in full.
pub proof fn queue_is_valid_iff_set_up(q: Queue, space: Set<u64>)
    ensures
        q.valid(space) <==> {
            &&& q.ready
            &&& 1 <= q.size <= q.max_size
            &&& exists|k: u16| k < 16 && #[trigger] (1u16 << k) == q.size
            &&& q.desc_table % 16 == 0 && q.avail_ring % 2 == 0 && q.used_ring % 4 == 0
            &&& range_mapped(space, q.desc_table as int, (16 * q.size) as nat)
            &&& range_mapped(space, q.avail_ring as int, (6 + 2 * q.size) as nat)
            &&& range_mapped(space, q.used_ring as int, (6 + 8 * q.size) as nat)
        },
{
    let s = q.size;
    if s >= 1 {
        let p = (s - 1) as u16;
        if exists|k: u16| k < 16 && #[trigger] (1u16 << k) == s {
            let k = choose|k: u16| k < 16 && #[trigger] (1u16 << k) == s;
            assert(s & p == 0) by (bit_vector)
                requires
                    k < 16,
                    (1u16 << k) == s,
                    p == s - 1,
            ;
        }
        if s & p == 0 {
            assert(s == 1u16 << 0u16 || s == 1u16 << 1u16 || s == 1u16 << 2u16 || s == 1u16 << 3u16
                || s == 1u16 << 4u16 || s == 1u16 << 5u16 || s == 1u16 << 6u16 || s == 1u16 << 7u16
                || s == 1u16 << 8u16 || s == 1u16 << 9u16 || s == 1u16 << 10u16 || s == 1u16
                << 11u16 || s == 1u16 << 12u16 || s == 1u16 << 13u16 || s == 1u16 << 14u16 || s
                == 1u16 << 15u16) by (bit_vector)
                requires
                    s & p == 0,
                    p == s - 1,
                    s >= 1,
            ;
        }
    }
}

/// How many bytes the first `i` buffers of a chain hold together.
pub open spec fn room_before(ds: Seq<Descriptor>, i: int) -> int
    decreases i,
{
    if i <= 0 {
        0
    } else {
        room_before(ds, i - 1) + ds[i - 1].len
    }
}

/// The driver marked the buffer `i` as one that the device writes.
pub open spec fn for_writing(ds: Seq<Descriptor>, i: int) -> bool {
    ds[i].flags & 2 == 2
}

/// More buffers hold more.
pub proof fn room_grows(ds: Seq<Descriptor>, i: int, j: int)
    requires
        0 <= i <= j <= ds.len(),
    ensures
        room_before(ds, i) <= room_before(ds, j),
    decreases j,
{
    if i < j {
        room_grows(ds, i, j - 1);
    }
}

/// The flag for writing, tested in two ways.
pub proof fn write_flag(flags: u16)
    ensures
        (flags & 2 == 2) == (flags & 2 != 0),
{
    assert((flags & 2 == 2) == (flags & 2 != 0)) by (bit_vector);
}

} // verus!
