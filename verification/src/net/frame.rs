//! Moving frames between a buffer of the device and the descriptor chains of the guest.

use vm_memory::GuestMemoryMmap;
use vstd::prelude::*;

use crate::guest::{
    accesses, after_store, check_range, guest_addresses, guest_regions, load, mapped_prefix_is_whole,
    range_mapped, read_slice, store, write_slice, Access,
};
use crate::queue::{all_mapped, Descriptor, DescriptorChain, Queue, QueueError};

verus! {

/// Why a frame did not reach the guest.
#[derive(Clone, Copy, Debug, PartialEq, Eq, Structural)]
pub enum FrontendError {
    /// The guest made no chain available.
    EmptyQueue,
    /// The chain holds a descriptor that the device may not write.
    ReadOnlyDescriptor,
    /// The chain points to unmapped memory.
    GuestMemory,
    /// The chain has less room than the frame needs.
    DescriptorChainTooSmall,
    /// The chain could not be given back.
    Queue(QueueError),
}

/// The smaller of two lengths.
pub open spec fn shorter(a: nat, b: nat) -> nat {
    if a <= b {
        a
    } else {
        b
    }
}

/// Spreading `frame` over the descriptors `ds`: the accesses afterwards, and whether the frame
/// found its place. Descriptors behind the end of the frame are not looked at.
pub open spec fn placed(
    space: Set<u64>,
    before: Seq<Access>,
    frame: Seq<u8>,
    ds: Seq<Descriptor>,
) -> (Seq<Access>, Result<(), FrontendError>)
    decreases ds.len(),
{
    if frame.len() == 0 {
        (before, Ok(()))
    } else if ds.len() == 0 {
        (before, Err(FrontendError::DescriptorChainTooSmall))
    } else if !ds[0].is_write_only() {
        (before, Err(FrontendError::ReadOnlyDescriptor))
    } else {
        let n = shorter(frame.len(), ds[0].len as nat);
        let after = after_store(before, space, ds[0].addr, frame.take(n as int));
        if range_mapped(space, ds[0].addr as int, n) {
            placed(space, after, frame.skip(n as int), ds.skip(1))
        } else {
            (after, Err(FrontendError::GuestMemory))
        }
    }
}

/// One attempt to deliver `frame` through the next chain of the queue: `(q1, t1, r)` is a way in
/// which it may go, from the queue `q0` and the accesses `t0`. A chain that was taken is given
/// back in any case, with the length of the frame if it arrived and else with zero.
pub open spec fn delivery_may(
    space: Set<u64>,
    frame: Seq<u8>,
    q0: Queue,
    t0: Seq<Access>,
    q1: Queue,
    t1: Seq<Access>,
    r: Result<(), FrontendError>,
) -> bool {
    exists|t: Seq<Access>, chain: Option<(u16, Seq<Descriptor>)>|
        {
            &&& #[trigger] q0.pop_may(space, t0, t, chain)
            &&& (q1, t1, r) == delivered(space, frame, q0, t, chain)
        }
}

/// The queue, the accesses and the result after `chain` was taken and used for `frame`.
pub open spec fn delivered(
    space: Set<u64>,
    frame: Seq<u8>,
    q0: Queue,
    t: Seq<Access>,
    chain: Option<(u16, Seq<Descriptor>)>,
) -> (Queue, Seq<Access>, Result<(), FrontendError>) {
    match chain {
        None => (q0, t, Err(FrontendError::EmptyQueue)),
        Some((head, ds)) => {
            let taken = Queue { next_avail: q0.next_avail.wrapping_add(1), ..q0 };
            let (written, outcome) = placed(space, t, frame, ds);
            let len = if outcome is Ok {
                frame.len() as u32
            } else {
                0
            };
            let (q, returned, given) = taken.used_added(space, written, head, len);
            match given {
                Ok(_) => (q, returned, outcome),
                Err(e) => (q, returned, Err(FrontendError::Queue(e))),
            }
        },
    }
}

/// Up to `tries` attempts to deliver `frame`, until one succeeds: a way in which that may go.
#[verifier::opaque]
pub open spec fn deliveries_may(
    space: Set<u64>,
    frame: Seq<u8>,
    tries: nat,
    q0: Queue,
    t0: Seq<Access>,
    q1: Queue,
    t1: Seq<Access>,
    ok: bool,
) -> bool
    decreases tries,
{
    if tries == 0 {
        q1 == q0 && t1 == t0 && !ok
    } else {
        exists|q: Queue, t: Seq<Access>, r: Result<(), FrontendError>|
            {
                &&& #[trigger] delivery_may(space, frame, q0, t0, q, t, r)
                &&& if r is Ok {
                    ok && q1 == q && t1 == t
                } else {
                    deliveries_may(space, frame, (tries - 1) as nat, q, t, q1, t1, ok)
                }
            }
    }
}

/// Collecting a frame of at most `cap` bytes from the descriptors `ds`, behind the part `frame`
/// that is there already, where `datas` is what the memory held: the accesses afterwards, and the
/// frame. It comes out empty if a descriptor points to unmapped memory.
pub open spec fn gathered(
    space: Set<u64>,
    before: Seq<Access>,
    ds: Seq<Descriptor>,
    cap: nat,
    frame: Seq<u8>,
    datas: Seq<Seq<u8>>,
) -> (Seq<Access>, Seq<u8>)
    decreases ds.len(),
{
    if ds.len() == 0 {
        (before, frame)
    } else {
        let n = shorter(ds[0].len as nat, (cap - frame.len()) as nat);
        if !range_mapped(space, ds[0].addr as int, n) {
            (before, Seq::empty())
        } else {
            let data = Seq::new(n, |i: int| datas[0][i]);
            gathered(
                space,
                before.push(load(ds[0].addr, data)),
                ds.skip(1),
                cap,
                frame + data,
                datas.skip(1),
            )
        }
    }
}

/// Some descriptor of the chain is for writing.
pub open spec fn has_write_only(ds: Seq<Descriptor>) -> bool {
    exists|i: int| 0 <= i < ds.len() && (#[trigger] ds[i]).is_write_only()
}

/// `(after, frame)` is a way in which collecting a frame from `ds` may go. A chain with a
/// descriptor for writing gives an empty frame and is not read.
pub open spec fn gather_may(
    space: Set<u64>,
    before: Seq<Access>,
    ds: Seq<Descriptor>,
    cap: nat,
    after: Seq<Access>,
    frame: Seq<u8>,
) -> bool {
    if has_write_only(ds) {
        after == before && frame.len() == 0
    } else {
        exists|datas: Seq<Seq<u8>>| #[trigger]
            gathered(space, before, ds, cap, Seq::empty(), datas) == (after, frame)
    }
}

/// The lengths of the buffers of `ds`, added up.
pub open spec fn total_len(ds: Seq<Descriptor>) -> nat
    decreases ds.len(),
{
    if ds.len() == 0 {
        0
    } else {
        ds[0].len as nat + total_len(ds.skip(1))
    }
}

/// A frame is as long as the buffers of its chain together, but never longer than the device's
/// own buffer; whatever does not fit is left out.
pub proof fn gathered_length(
    space: Set<u64>,
    before: Seq<Access>,
    ds: Seq<Descriptor>,
    cap: nat,
    frame: Seq<u8>,
    datas: Seq<Seq<u8>>,
)
    requires
        frame.len() <= cap,
        all_mapped(space, ds),
    ensures
        gathered(space, before, ds, cap, frame, datas).1.len() == shorter(
            cap,
            frame.len() + total_len(ds),
        ),
    decreases ds.len(),
{
    if ds.len() > 0 {
        let n = shorter(ds[0].len as nat, (cap - frame.len()) as nat);
        assert(range_mapped(space, ds[0].addr as int, ds[0].len as nat));
        let data = Seq::new(n, |i: int| datas[0][i]);
        assert forall|i: int| 0 <= i < ds.skip(1).len() implies range_mapped(
            space,
            (#[trigger] ds.skip(1)[i]).addr as int,
            ds.skip(1)[i].len as nat,
        ) by {
            assert(ds.skip(1)[i] == ds[i + 1]);
        }
        gathered_length(
            space,
            before.push(load(ds[0].addr, data)),
            ds.skip(1),
            cap,
            frame + data,
            datas.skip(1),
        );
    }
}

/// A frame finds its place in a chain of mapped, writable buffers exactly if they have room for
/// it together.
pub proof fn frame_fits_iff_room(
    space: Set<u64>,
    before: Seq<Access>,
    frame: Seq<u8>,
    ds: Seq<Descriptor>,
)
    requires
        all_mapped(space, ds),
        forall|i: int| 0 <= i < ds.len() ==> (#[trigger] ds[i]).is_write_only(),
    ensures
        placed(space, before, frame, ds).1 == (if frame.len() <= total_len(ds) {
            Ok::<(), FrontendError>(())
        } else {
            Err::<(), FrontendError>(FrontendError::DescriptorChainTooSmall)
        }),
    decreases ds.len(),
{
    if ds.len() > 0 && frame.len() > 0 {
        let n = shorter(frame.len(), ds[0].len as nat);
        assert(range_mapped(space, ds[0].addr as int, ds[0].len as nat));
        assert(ds[0].is_write_only());
        let rest = ds.skip(1);
        assert forall|i: int| 0 <= i < rest.len() implies (#[trigger] rest[i]).is_write_only() by {
            assert(rest[i] == ds[i + 1]);
        }
        assert forall|i: int| 0 <= i < rest.len() implies range_mapped(
            space,
            (#[trigger] rest[i]).addr as int,
            rest[i].len as nat,
        ) by {
            assert(rest[i] == ds[i + 1]);
        }
        frame_fits_iff_room(
            space,
            after_store(before, space, ds[0].addr, frame.take(n as int)),
            frame.skip(n as int),
            rest,
        );
    }
}

/// The bytes that the accesses `trace` moved, one behind the other.
pub open spec fn moved(trace: Seq<Access>) -> Seq<u8>
    decreases trace.len(),
{
    if trace.len() == 0 {
        Seq::empty()
    } else {
        trace[0].2 + moved(trace.skip(1))
    }
}

/// The accesses `trace` are stores to the first of the buffers `ds`, one each, that stay inside
/// them.
pub open spec fn stores_into(trace: Seq<Access>, ds: Seq<Descriptor>) -> bool {
    &&& trace.len() <= ds.len()
    &&& forall|i: int|
        0 <= i < trace.len() ==> {
            &&& (#[trigger] trace[i]).0
            &&& trace[i].1 == ds[i].addr
            &&& trace[i].2.len() <= ds[i].len
        }
}

/// What arrives in the guest is the frame: if it found its place, the buffers of the chain were
/// written in their order, within their bounds, and what was written is the frame from its first
/// byte to its last.
pub proof fn placed_frame_arrives_whole(
    space: Set<u64>,
    before: Seq<Access>,
    frame: Seq<u8>,
    ds: Seq<Descriptor>,
)
    requires
        placed(space, before, frame, ds).1 is Ok,
    ensures
        before.len() <= placed(space, before, frame, ds).0.len(),
        placed(space, before, frame, ds).0.take(before.len() as int) == before,
        stores_into(placed(space, before, frame, ds).0.skip(before.len() as int), ds),
        moved(placed(space, before, frame, ds).0.skip(before.len() as int)) == frame,
    decreases ds.len(),
{
    let (after, _) = placed(space, before, frame, ds);
    if frame.len() == 0 {
        assert(after.take(before.len() as int) =~= before);
        assert(after.skip(before.len() as int) =~= Seq::empty());
        assert(frame =~= Seq::empty());
    } else {
        let n = shorter(frame.len(), ds[0].len as nat);
        let piece = frame.take(n as int);
        let first = after_store(before, space, ds[0].addr, piece);
        mapped_prefix_is_whole(space, ds[0].addr as int, n);
        assert(piece.take(n as int) =~= piece);
        assert(first == before.push(store(ds[0].addr, piece)));
        placed_frame_arrives_whole(space, first, frame.skip(n as int), ds.skip(1));
        let new = after.skip(before.len() as int);
        let rest = after.skip(first.len() as int);
        assert(after.take(before.len() as int) =~= before) by {
            assert(after.take(first.len() as int) == first);
            assert forall|i: int| 0 <= i < before.len() implies after[i] == before[i] by {
                assert(after.take(first.len() as int)[i] == first[i]);
            }
        }
        assert(new[0] == first[before.len() as int]) by {
            assert(after.take(first.len() as int)[before.len() as int] == first[before.len() as int]);
        }
        assert(new.skip(1) =~= rest);
        assert(piece + frame.skip(n as int) =~= frame);
        assert forall|i: int| 0 <= i < new.len() implies {
            &&& (#[trigger] new[i]).0
            &&& new[i].1 == ds[i].addr
            &&& new[i].2.len() <= ds[i].len
        } by {
            if i > 0 {
                assert(new[i] == rest[i - 1]);
                assert(ds.skip(1)[i - 1] == ds[i]);
            }
        }
    }
}

/// What is handed to the backend is what the chain held: if every buffer is mapped, the frame is
/// what was loaded, behind the part that was there already.
pub proof fn gathered_frame_is_what_was_loaded(
    space: Set<u64>,
    before: Seq<Access>,
    ds: Seq<Descriptor>,
    cap: nat,
    frame: Seq<u8>,
    datas: Seq<Seq<u8>>,
)
    requires
        frame.len() <= cap,
        all_mapped(space, ds),
    ensures
        ({
            let (after, out) = gathered(space, before, ds, cap, frame, datas);
            &&& after.len() == before.len() + ds.len()
            &&& after.take(before.len() as int) == before
            &&& out == frame + moved(after.skip(before.len() as int))
        }),
    decreases ds.len(),
{
    let (after, out) = gathered(space, before, ds, cap, frame, datas);
    if ds.len() == 0 {
        assert(after.take(before.len() as int) =~= before);
        assert(after.skip(before.len() as int) =~= Seq::empty());
        assert(frame + moved(Seq::empty()) =~= frame);
    } else {
        let n = shorter(ds[0].len as nat, (cap - frame.len()) as nat);
        assert(range_mapped(space, ds[0].addr as int, ds[0].len as nat));
        let data = Seq::new(n, |i: int| datas[0][i]);
        let first = before.push(load(ds[0].addr, data));
        assert forall|i: int| 0 <= i < ds.skip(1).len() implies range_mapped(
            space,
            (#[trigger] ds.skip(1)[i]).addr as int,
            ds.skip(1)[i].len as nat,
        ) by {
            assert(ds.skip(1)[i] == ds[i + 1]);
        }
        gathered_frame_is_what_was_loaded(
            space,
            first,
            ds.skip(1),
            cap,
            frame + data,
            datas.skip(1),
        );
        let new = after.skip(before.len() as int);
        assert(after.take(before.len() as int) =~= before) by {
            assert forall|i: int| 0 <= i < before.len() implies after[i] == before[i] by {
                assert(after.take(first.len() as int)[i] == first[i]);
            }
        }
        assert(new[0] == first[before.len() as int]) by {
            assert(after.take(first.len() as int)[before.len() as int] == first[before.len() as int]);
        }
        assert(new.skip(1) =~= after.skip(first.len() as int));
        assert(frame + data + moved(new.skip(1)) =~= frame + (data + moved(new.skip(1))));
    }
}

/// One attempt, and then the remaining ones if it failed, are the attempts in all.
proof fn deliveries_step(
    space: Set<u64>,
    frame: Seq<u8>,
    tries: nat,
    s0: (Queue, Seq<Access>),
    s: (Queue, Seq<Access>),
    r: Result<(), FrontendError>,
    s1: (Queue, Seq<Access>),
    ok: bool,
)
    requires
        tries > 0,
        delivery_may(space, frame, s0.0, s0.1, s.0, s.1, r),
        if r is Ok {
            ok && s1 == s
        } else {
            deliveries_may(space, frame, (tries - 1) as nat, s.0, s.1, s1.0, s1.1, ok)
        },
    ensures
        deliveries_may(space, frame, tries, s0.0, s0.1, s1.0, s1.1, ok),
{
    reveal_with_fuel(deliveries_may, 1);
}

/// Delivering does not change how the queue is set up.
pub proof fn deliveries_keep_queue(
    space: Set<u64>,
    frame: Seq<u8>,
    tries: nat,
    q0: Queue,
    t0: Seq<Access>,
    q1: Queue,
    t1: Seq<Access>,
    ok: bool,
)
    requires
        deliveries_may(space, frame, tries, q0, t0, q1, t1, ok),
    ensures
        q0.same_queue(q1),
    decreases tries,
{
    reveal_with_fuel(deliveries_may, 1);
    if tries > 0 {
        let (q, t, r) = choose|q: Queue, t: Seq<Access>, r: Result<(), FrontendError>|
            {
                &&& #[trigger] delivery_may(space, frame, q0, t0, q, t, r)
                &&& if r is Ok {
                    ok && q1 == q && t1 == t
                } else {
                    deliveries_may(space, frame, (tries - 1) as nat, q, t, q1, t1, ok)
                }
            };
        assert(q0.same_queue(q));
        if r is Err {
            deliveries_keep_queue(space, frame, (tries - 1) as nat, q, t, q1, t1, ok);
        }
    }
}

/// An attempt puts at most one chain into the used ring, and it does put one there if it succeeds.
proof fn attempt_uses_one_chain(
    space: Set<u64>,
    frame: Seq<u8>,
    s0: (Queue, Seq<Access>),
    s1: (Queue, Seq<Access>),
    r: Result<(), FrontendError>,
)
    requires
        delivery_may(space, frame, s0.0, s0.1, s1.0, s1.1, r),
    ensures
        s1.0.next_used == s0.0.next_used || s1.0.next_used == (s0.0.next_used + 1) % 65536,
        r is Ok ==> s1.0.next_used == (s0.0.next_used + 1) % 65536,
{
    let (t, chain) = choose|t: Seq<Access>, chain: Option<(u16, Seq<Descriptor>)>|
        {
            &&& #[trigger] s0.0.pop_may(space, s0.1, t, chain)
            &&& (s1.0, s1.1, r) == delivered(space, frame, s0.0, t, chain)
        };
    assert(s0.0.next_used.wrapping_add(1) == (s0.0.next_used + 1) % 65536);
}

/// Attempts begin with one attempt; returns what that leads to, and whether it succeeds.
proof fn first_attempt(
    space: Set<u64>,
    frame: Seq<u8>,
    tries: nat,
    s0: (Queue, Seq<Access>),
    s1: (Queue, Seq<Access>),
    ok: bool,
) -> (first: ((Queue, Seq<Access>), bool))
    requires
        tries > 0,
        deliveries_may(space, frame, tries, s0.0, s0.1, s1.0, s1.1, ok),
    ensures
        first.0.0.next_used == s0.0.next_used || first.0.0.next_used == (s0.0.next_used + 1)
            % 65536,
        first.1 ==> ok && s1 == first.0 && s1.0.next_used == (s0.0.next_used + 1) % 65536,
        !first.1 ==> deliveries_may(
            space,
            frame,
            (tries - 1) as nat,
            first.0.0,
            first.0.1,
            s1.0,
            s1.1,
            ok,
        ),
{
    reveal_with_fuel(deliveries_may, 1);
    let (q, t, r) = choose|q: Queue, t: Seq<Access>, r: Result<(), FrontendError>|
        {
            &&& #[trigger] delivery_may(space, frame, s0.0, s0.1, q, t, r)
            &&& if r is Ok {
                ok && s1.0 == q && s1.1 == t
            } else {
                deliveries_may(space, frame, (tries - 1) as nat, q, t, s1.0, s1.1, ok)
            }
        };
    attempt_uses_one_chain(space, frame, s0, (q, t), r);
    ((q, t), r is Ok)
}

/// The free-running count of the used ring tells of the chains that went into it: it goes up by as
/// many as there were, which is less than it takes to come round, so that it differs exactly if
/// there was one; and there was one if the frame was delivered. Returns how many.
pub proof fn next_used_counts_chains(
    space: Set<u64>,
    frame: Seq<u8>,
    tries: nat,
    q0: Queue,
    t0: Seq<Access>,
    q1: Queue,
    t1: Seq<Access>,
    ok: bool,
) -> (count: nat)
    requires
        deliveries_may(space, frame, tries, q0, t0, q1, t1, ok),
        tries <= u16::MAX,
    ensures
        count <= tries,
        q1.next_used == (q0.next_used + count) % 65536,
        q1.next_used != q0.next_used <==> count > 0,
        ok ==> count > 0,
    decreases tries,
{
    if tries == 0 {
        assert(q1 == q0 && !ok) by {
            reveal_with_fuel(deliveries_may, 1);
        }
        0
    } else {
        let ((q, t), succeeded) = first_attempt(space, frame, tries, (q0, t0), (q1, t1), ok);
        let here: nat = if q.next_used == q0.next_used {
            0
        } else {
            1
        };
        if succeeded {
            1
        } else {
            let left = (tries - 1) as nat;
            here + next_used_counts_chains(space, frame, left, q, t, q1, t1, ok)
        }
    }
}

/// `frame` was spread over the chain `ds` and found its place, and the chain was given back with
/// the length of the frame, which led to the queue `q1` and the accesses `t1`.
pub open spec fn arrived(
    space: Set<u64>,
    frame: Seq<u8>,
    q: Queue,
    t: Seq<Access>,
    head: u16,
    ds: Seq<Descriptor>,
    q1: Queue,
    t1: Seq<Access>,
) -> bool {
    let (written, outcome) = placed(space, t, frame, ds);
    &&& outcome is Ok
    &&& q.used_added(space, written, head, frame.len() as u32) == (
        q1,
        t1,
        Ok::<(), QueueError>(()),
    )
}

/// A frame counts as delivered only if it arrived: the last thing that happened is that a chain
/// took it whole and was given back with its length.
pub proof fn delivered_frame_arrived(
    space: Set<u64>,
    frame: Seq<u8>,
    tries: nat,
    q0: Queue,
    t0: Seq<Access>,
    q1: Queue,
    t1: Seq<Access>,
)
    requires
        deliveries_may(space, frame, tries, q0, t0, q1, t1, true),
    ensures
        exists|q: Queue, t: Seq<Access>, head: u16, ds: Seq<Descriptor>|
            arrived(space, frame, q, t, head, ds, q1, t1),
    decreases tries,
{
    reveal_with_fuel(deliveries_may, 1);
    let (q, t, r) = choose|q: Queue, t: Seq<Access>, r: Result<(), FrontendError>|
        {
            &&& #[trigger] delivery_may(space, frame, q0, t0, q, t, r)
            &&& if r is Ok {
                q1 == q && t1 == t
            } else {
                deliveries_may(space, frame, (tries - 1) as nat, q, t, q1, t1, true)
            }
        };
    if r is Ok {
        let (popped, chain) = choose|popped: Seq<Access>, chain: Option<(u16, Seq<Descriptor>)>|
            {
                &&& #[trigger] q0.pop_may(space, t0, popped, chain)
                &&& (q, t, r) == delivered(space, frame, q0, popped, chain)
            };
        let (head, ds) = chain.unwrap();
        let taken = Queue { next_avail: q0.next_avail.wrapping_add(1), ..q0 };
        assert(arrived(space, frame, taken, popped, head, ds, q1, t1));
    } else {
        delivered_frame_arrived(space, frame, (tries - 1) as nat, q, t, q1, t1);
    }
}

/// Spreads the frame `buf[..len]` over the descriptors `ds`.
pub fn place_frame(
    mem: &mut GuestMemoryMmap<()>,
    buf: &Vec<u8>,
    len: usize,
    ds: &Vec<Descriptor>,
) -> (r: Result<(), FrontendError>)
    requires
        len <= buf@.len(),
    ensures
        guest_regions(*final(mem)) == guest_regions(*old(mem)),
        (accesses(*final(mem)), r) == placed(
            guest_addresses(*old(mem)),
            accesses(*old(mem)),
            buf@.take(len as int),
            ds@,
        ),
{
    let ghost space = guest_addresses(*mem);
    let ghost before = accesses(*mem);
    let ghost frame = buf@.take(len as int);
    let mut at: usize = 0;
    let mut i: usize = 0;
    assert(frame.skip(0) =~= frame);
    assert(ds@.skip(0) =~= ds@);
    while i < ds.len()
        invariant
            i <= ds@.len(),
            at <= len <= buf@.len(),
            frame == buf@.take(len as int),
            space == guest_addresses(*old(mem)),
            before == accesses(*old(mem)),
            guest_regions(*mem) == guest_regions(*old(mem)),
            guest_addresses(*mem) == space,
            placed(space, before, frame, ds@) == placed(
                space,
                accesses(*mem),
                frame.skip(at as int),
                ds@.skip(i as int),
            ),
        decreases ds@.len() - i,
    {
        if at == len {
            return Ok(());
        }
        let d: Descriptor = ds[i];
        if !d.is_write_only() {
            return Err(FrontendError::ReadOnlyDescriptor);
        }
        let rest: usize = len - at;
        let n: usize =
            if (d.len as u64) < rest as u64 {
                d.len as usize
            } else {
                rest
            };
        assert(frame.skip(at as int).take(n as int) =~= buf@.subrange(at as int, at + n));
        match write_slice(mem, buf, at, at + n, d.addr) {
            Ok(_) => {},
            Err(_) => {
                return Err(FrontendError::GuestMemory);
            },
        }
        assert(frame.skip(at as int).skip(n as int) =~= frame.skip(at + n));
        assert(ds@.skip(i as int).skip(1) =~= ds@.skip(i + 1));
        at = at + n;
        i = i + 1;
    }
    if at == len {
        Ok(())
    } else {
        Err(FrontendError::DescriptorChainTooSmall)
    }
}

/// Takes the next chain of `queue` and spreads the frame `buf[..len]` over it. The chain is given
/// back in any case.
pub fn deliver_once(
    queue: &mut Queue,
    mem: &mut GuestMemoryMmap<()>,
    buf: &Vec<u8>,
    len: usize,
) -> (r: Result<(), FrontendError>)
    requires
        len <= buf@.len(),
        len <= u32::MAX,
    ensures
        guest_regions(*final(mem)) == guest_regions(*old(mem)),
        delivery_may(
            guest_addresses(*old(mem)),
            buf@.take(len as int),
            *old(queue),
            accesses(*old(mem)),
            *final(queue),
            accesses(*final(mem)),
            r,
        ),
        final(queue).ring() == old(queue).ring(),
{
    let ghost space = guest_addresses(*mem);
    let ghost q0 = *queue;
    let ghost t0 = accesses(*mem);
    let ghost frame = buf@.take(len as int);
    let chain: DescriptorChain = match queue.pop(mem) {
        Some(chain) => chain,
        None => {
            let ghost none: Option<(u16, Seq<Descriptor>)> = None;
            assert(q0.pop_may(space, t0, accesses(*mem), none));
            return Err(FrontendError::EmptyQueue);
        },
    };
    let ghost t = accesses(*mem);
    let ghost taken = Some((chain.index, chain.descriptors@));
    assert(q0.pop_may(space, t0, t, taken));
    let outcome: Result<(), FrontendError> = place_frame(mem, buf, len, &chain.descriptors);
    let used: u32 = match outcome {
        Ok(_) => len as u32,
        Err(_) => 0,
    };
    let r: Result<(), FrontendError> = match queue.add_used(mem, chain.index, used) {
        Ok(_) => outcome,
        Err(e) => Err(FrontendError::Queue(e)),
    };
    assert((*queue, accesses(*mem), r) == delivered(space, frame, q0, t, taken));
    r
}

/// Tries to deliver the frame `buf[..len]` as often as the queue has entries.
pub fn deliver(
    queue: &mut Queue,
    mem: &mut GuestMemoryMmap<()>,
    buf: &Vec<u8>,
    len: usize,
) -> (ok: bool)
    requires
        len <= buf@.len(),
        len <= u32::MAX,
    ensures
        guest_regions(*final(mem)) == guest_regions(*old(mem)),
        deliveries_may(
            guest_addresses(*old(mem)),
            buf@.take(len as int),
            old(queue).ring() as nat,
            *old(queue),
            accesses(*old(mem)),
            *final(queue),
            accesses(*final(mem)),
            ok,
        ),
        final(queue).ring() == old(queue).ring(),
{
    let ghost space = guest_addresses(*mem);
    let ghost q0 = *queue;
    let ghost t0 = accesses(*mem);
    let ghost frame = buf@.take(len as int);
    let tries: u16 = queue.actual_size();
    let mut left: u16 = tries;
    while left > 0
        invariant
            left <= tries,
            len <= buf@.len(),
            len <= u32::MAX,
            frame == buf@.take(len as int),
            space == guest_addresses(*old(mem)),
            q0 == *old(queue),
            t0 == accesses(*old(mem)),
            tries == q0.ring(),
            guest_regions(*mem) == guest_regions(*old(mem)),
            guest_addresses(*mem) == space,
            queue.ring() == q0.ring(),
            forall|q1: Queue, t1: Seq<Access>, ok: bool|
                deliveries_may(space, frame, left as nat, *queue, accesses(*mem), q1, t1, ok)
                    ==> #[trigger] deliveries_may(space, frame, tries as nat, q0, t0, q1, t1, ok),
        decreases left,
    {
        let ghost q = *queue;
        let ghost t = accesses(*mem);
        let r: Result<(), FrontendError> = deliver_once(queue, mem, buf, len);
        match r {
            Ok(_) => {
                proof {
                    deliveries_step(
                        space,
                        frame,
                        left as nat,
                        (q, t),
                        (*queue, accesses(*mem)),
                        r,
                        (*queue, accesses(*mem)),
                        true,
                    );
                }
                return true;
            },
            Err(_) => {},
        }
        proof {
            assert forall|q1: Queue, t1: Seq<Access>, ok: bool|
                deliveries_may(
                    space,
                    frame,
                    (left - 1) as nat,
                    *queue,
                    accesses(*mem),
                    q1,
                    t1,
                    ok,
                ) implies #[trigger] deliveries_may(
                space,
                frame,
                tries as nat,
                q0,
                t0,
                q1,
                t1,
                ok,
            ) by {
                deliveries_step(
                    space,
                    frame,
                    left as nat,
                    (q, t),
                    (*queue, accesses(*mem)),
                    r,
                    (q1, t1),
                    ok,
                );
            }
        }
        left = left - 1;
    }
    proof {
        reveal_with_fuel(deliveries_may, 1);
        assert(deliveries_may(
            space,
            frame,
            0,
            *queue,
            accesses(*mem),
            *queue,
            accesses(*mem),
            false,
        ));
    }
    false
}

/// Collects the frame of the chain `ds` in `buf` and returns its length.
pub fn gather_frame(mem: &mut GuestMemoryMmap<()>, buf: &mut Vec<u8>, ds: &Vec<Descriptor>) -> (r:
    usize)
    ensures
        guest_regions(*final(mem)) == guest_regions(*old(mem)),
        final(buf)@.len() == old(buf)@.len(),
        r <= final(buf)@.len(),
        gather_may(
            guest_addresses(*old(mem)),
            accesses(*old(mem)),
            ds@,
            old(buf)@.len(),
            accesses(*final(mem)),
            final(buf)@.take(r as int),
        ),
{
    let ghost space = guest_addresses(*mem);
    let ghost before = accesses(*mem);
    let cap: usize = buf.len();
    let mut k: usize = 0;
    while k < ds.len()
        invariant
            k <= ds@.len(),
            *mem == *old(mem),
            *buf == *old(buf),
            forall|i: int| 0 <= i < k ==> !(#[trigger] ds@[i]).is_write_only(),
        decreases ds@.len() - k,
    {
        if ds[k].is_write_only() {
            return 0;
        }
        k = k + 1;
    }
    let ghost mut datas: Seq<Seq<u8>> = Seq::empty();
    let mut count: usize = 0;
    let mut i: usize = 0;
    proof {
        assert(ds@.skip(0) =~= ds@);
        assert(buf@.take(0) =~= Seq::empty());
        assert forall|rest: Seq<Seq<u8>>|
            gathered(space, before, ds@, cap as nat, Seq::empty(), datas + rest)
                == #[trigger] gathered(
                space,
                before,
                ds@.skip(0),
                cap as nat,
                buf@.take(0),
                rest,
            ) by {
            assert(datas + rest =~= rest);
        }
    }
    while i < ds.len()
        invariant
            i <= ds@.len(),
            buf@.len() == cap,
            count <= cap,
            cap == old(buf)@.len(),
            space == guest_addresses(*old(mem)),
            before == accesses(*old(mem)),
            guest_regions(*mem) == guest_regions(*old(mem)),
            guest_addresses(*mem) == space,
            forall|rest: Seq<Seq<u8>>|
                gathered(space, before, ds@, cap as nat, Seq::empty(), datas + rest)
                    == #[trigger] gathered(
                    space,
                    accesses(*mem),
                    ds@.skip(i as int),
                    cap as nat,
                    buf@.take(count as int),
                    rest,
                ),
            !has_write_only(ds@),
        decreases ds@.len() - i,
    {
        let d: Descriptor = ds[i];
        let room: usize = cap - count;
        let n: usize =
            if (d.len as u64) < room as u64 {
                d.len as usize
            } else {
                room
            };
        if !check_range(mem, d.addr, n) {
            let ghost none: Seq<Seq<u8>> = Seq::empty();
            assert(datas + none =~= datas);
            assert(gathered(
                space,
                accesses(*mem),
                ds@.skip(i as int),
                cap as nat,
                buf@.take(count as int),
                none,
            ).1 == Seq::<u8>::empty());
            assert(buf@.take(0) =~= Seq::empty());
            return 0;
        }
        let ghost t = accesses(*mem);
        let ghost got = buf@.take(count as int);
        let ghost seen = datas;
        let _ = read_slice(mem, buf, count, count + n, d.addr);
        proof {
            mapped_prefix_is_whole(space, d.addr as int, n as nat);
            let data = buf@.subrange(count as int, count + n);
            datas = seen.push(data);
            assert(buf@.take(count + n) =~= got + data);
            assert forall|rest: Seq<Seq<u8>>|
                gathered(space, before, ds@, cap as nat, Seq::empty(), datas + rest)
                    == #[trigger] gathered(
                    space,
                    accesses(*mem),
                    ds@.skip(i + 1),
                    cap as nat,
                    buf@.take(count + n),
                    rest,
                ) by {
                let all = seq![data] + rest;
                assert(datas + rest =~= seen + all);
                assert(gathered(space, before, ds@, cap as nat, Seq::empty(), seen + all)
                    == gathered(space, t, ds@.skip(i as int), cap as nat, got, all));
                assert(Seq::new(n as nat, |k: int| all[0][k]) =~= data);
                assert(all.skip(1) =~= rest);
                assert(ds@.skip(i as int).skip(1) =~= ds@.skip(i + 1));
            }
        }
        count = count + n;
        i = i + 1;
    }
    proof {
        let none: Seq<Seq<u8>> = Seq::empty();
        assert(datas + none =~= datas);
        assert(gathered(
            space,
            accesses(*mem),
            ds@.skip(i as int),
            cap as nat,
            buf@.take(count as int),
            none,
        ).1 == buf@.take(count as int));
    }
    count
}

} // verus!
