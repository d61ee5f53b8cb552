//! What becomes of a frame and the chain that it meets, in terms of the buffers of the chain.

use vstd::prelude::*;

use crate::guest::{load, range_mapped, Access};
use crate::net::frame::{
    deliveries_may, delivered, delivery_may, gather_may, gathered, has_write_only, moved, placed,
    placed_frame_arrives_whole, shorter, stores_into, FrontendError,
};
use crate::queue::{Descriptor, Queue};
use crate::ring_laws::{
    entries, for_writing, next_element, one_more_used, return_fails, room_before, room_grows,
    stores_element, stores_word, trace_decides_about_the_chain, unusable_chain_is_refused,
    used_chain_is_published, used_ring_mapped, write_flag,
};

verus! {

/// How many of `total` bytes that are spread over the chain go into its buffer `i`.
pub open spec fn share(ds: Seq<Descriptor>, total: int, i: int) -> int {
    if room_before(ds, i) + ds[i].len <= total {
        ds[i].len as int
    } else if room_before(ds, i) < total {
        total - room_before(ds, i)
    } else {
        0
    }
}

/// Some of `total` bytes that are spread over the chain are left when its buffer `i` is reached.
pub open spec fn reached(ds: Seq<Descriptor>, total: int, i: int) -> bool {
    0 <= i < ds.len() && room_before(ds, i) < total
}

/// The buffer `i` can take its share of `total` bytes: it is for writing and mapped.
pub open spec fn can_take(space: Set<u64>, ds: Seq<Descriptor>, total: int, i: int) -> bool {
    for_writing(ds, i) && range_mapped(space, ds[i].addr as int, share(ds, total, i) as nat)
}

/// The chain has room for the frame, and every buffer that is reached can take its share.
pub open spec fn takes(space: Set<u64>, ds: Seq<Descriptor>, total: int) -> bool {
    &&& total <= room_before(ds, ds.len() as int)
    &&& forall|i: int| #[trigger] reached(ds, total, i) ==> can_take(space, ds, total, i)
}

/// What the buffers hold without the first one.
proof fn room_without_first(ds: Seq<Descriptor>, i: int)
    requires
        ds.len() > 0,
        0 <= i < ds.len(),
    ensures
        room_before(ds.skip(1), i) + ds[0].len == room_before(ds, i + 1),
    decreases i,
{
    if i > 0 {
        room_without_first(ds, i - 1);
        assert(ds.skip(1)[i - 1] == ds[i]);
    } else {
        assert(room_before(ds, 0) == 0);
    }
}

/// Behind the first buffer, the rest of the frame meets the rest of the chain.
proof fn shares_without_first(ds: Seq<Descriptor>, total: int, i: int)
    requires
        ds.len() > 0,
        0 <= i < ds.len() - 1,
        total >= 0,
    ensures
        ({
            let rest = if total <= ds[0].len {
                0
            } else {
                total - ds[0].len
            };
            &&& reached(ds.skip(1), rest, i) == reached(ds, total, i + 1)
            &&& reached(ds, total, i + 1) ==> share(ds.skip(1), rest, i) == share(ds, total, i + 1)
            &&& ds.skip(1)[i] == ds[i + 1]
        }),
{
    room_without_first(ds, i);
    room_grows(ds, 1, i + 1);
    assert(room_before(ds, 1) == room_before(ds, 0) + ds[0].len);
    if i >= 0 {
        room_grows(ds.skip(1), 0, i);
    }
}

/// A frame finds its place in a chain exactly if the chain has room for it and each buffer that is
/// reached is for writing and mapped as far as it is used.
pub proof fn frame_is_placed_iff_chain_takes_it(
    space: Set<u64>,
    before: Seq<Access>,
    frame: Seq<u8>,
    ds: Seq<Descriptor>,
)
    ensures
        placed(space, before, frame, ds).1 is Ok <==> takes(space, ds, frame.len() as int),
    decreases ds.len(),
{
    let total = frame.len() as int;
    room_grows(ds, 0, ds.len() as int);
    if frame.len() == 0 {
        assert forall|i: int| #[trigger] reached(ds, total, i) implies can_take(
            space,
            ds,
            total,
            i,
        ) by {
            room_grows(ds, 0, i);
        }
    } else if ds.len() > 0 {
        write_flag(ds[0].flags);
        assert(room_before(ds, 0) == 0);
        assert(reached(ds, total, 0));
        let n = shorter(frame.len(), ds[0].len as nat);
        assert(share(ds, total, 0) == n);
        if can_take(space, ds, total, 0) {
            let rest = ds.skip(1);
            let left = frame.skip(n as int);
            let after = crate::guest::after_store(before, space, ds[0].addr, frame.take(n as int));
            frame_is_placed_iff_chain_takes_it(space, after, left, rest);
            room_without_first(ds, ds.len() - 1);
            room_grows(rest, 0, rest.len() as int);
            if takes(space, ds, total) {
                assert forall|i: int| #[trigger] reached(rest, left.len() as int, i) implies can_take(
                    space,
                    rest,
                    left.len() as int,
                    i,
                ) by {
                    shares_without_first(ds, total, i);
                    assert(reached(ds, total, i + 1));
                }
            }
            if takes(space, rest, left.len() as int) {
                assert forall|i: int| #[trigger] reached(ds, total, i) implies can_take(
                    space,
                    ds,
                    total,
                    i,
                ) by {
                    if i > 0 {
                        shares_without_first(ds, total, i - 1);
                        assert(reached(rest, left.len() as int, i - 1));
                    }
                }
            }
        }
    }
}

/// The chain does not take `total` bytes, and its buffer `k` is the first that is reached and cannot
/// take its share. If there is none, `k` is the length of the chain, which is then too small.
pub open spec fn fails_at(space: Set<u64>, ds: Seq<Descriptor>, total: int, k: int) -> bool {
    &&& !takes(space, ds, total)
    &&& 0 <= k <= ds.len()
    &&& forall|i: int|
        0 <= i < k ==> #[trigger] reached(ds, total, i) && can_take(space, ds, total, i)
    &&& k < ds.len() ==> reached(ds, total, k) && !can_take(space, ds, total, k)
}

/// What is wrong with a chain that fails at its buffer `k`.
pub open spec fn obstacle(ds: Seq<Descriptor>, k: int) -> FrontendError {
    if k == ds.len() {
        FrontendError::DescriptorChainTooSmall
    } else if !for_writing(ds, k) {
        FrontendError::ReadOnlyDescriptor
    } else {
        FrontendError::GuestMemory
    }
}

/// What is wrong with a chain is told by the first buffer that is reached and cannot take its
/// share: it is not for writing, or not mapped. If there is none, the chain is too small.
pub proof fn first_obstacle_is_told(
    space: Set<u64>,
    before: Seq<Access>,
    frame: Seq<u8>,
    ds: Seq<Descriptor>,
    k: int,
)
    requires
        fails_at(space, ds, frame.len() as int, k),
    ensures
        placed(space, before, frame, ds).1 == Err::<(), FrontendError>(obstacle(ds, k)),
    decreases ds.len(),
{
    let total = frame.len() as int;
    frame_is_placed_iff_chain_takes_it(space, before, frame, ds);
    if frame.len() > 0 && ds.len() > 0 {
        write_flag(ds[0].flags);
        assert(room_before(ds, 0) == 0);
        let n = shorter(frame.len(), ds[0].len as nat);
        assert(share(ds, total, 0) == n);
        if k > 0 {
            assert(reached(ds, total, 0));
            let rest = ds.skip(1);
            let left = frame.skip(n as int);
            let after = crate::guest::after_store(before, space, ds[0].addr, frame.take(n as int));
            frame_is_placed_iff_chain_takes_it(space, after, left, rest);
            assert forall|i: int| 0 <= i < k - 1 implies #[trigger] reached(
                rest,
                left.len() as int,
                i,
            ) && can_take(space, rest, left.len() as int, i) by {
                shares_without_first(ds, total, i);
                assert(reached(ds, total, i + 1));
            }
            if k < ds.len() {
                shares_without_first(ds, total, k - 1);
            }
            first_obstacle_is_told(space, after, left, rest, k - 1);
        }
    }
}

/// The part of `frame` that goes into the buffer `i`.
pub open spec fn part_for(frame: Seq<u8>, ds: Seq<Descriptor>, i: int) -> Seq<u8> {
    frame.subrange(room_before(ds, i), room_before(ds, i) + share(ds, frame.len() as int, i))
}

/// Placing a frame stores into the buffers in turn, into each its part of the frame, as long as they
/// can take it. It ends where the frame does, or at a buffer that cannot: there nothing is stored if
/// the buffer is not for writing, and what it has room for otherwise.
pub proof fn each_buffer_gets_its_part(
    space: Set<u64>,
    before: Seq<Access>,
    frame: Seq<u8>,
    ds: Seq<Descriptor>,
    k: int,
)
    requires
        0 <= k <= ds.len(),
        forall|i: int|
            0 <= i < k ==> #[trigger] reached(ds, frame.len() as int, i) && can_take(
                space,
                ds,
                frame.len() as int,
                i,
            ),
        k == ds.len() || !reached(ds, frame.len() as int, k) || !can_take(
            space,
            ds,
            frame.len() as int,
            k,
        ),
    ensures
        ({
            let after = placed(space, before, frame, ds).0;
            let n = before.len() as int;
            &&& after.len() == n + k + if k < ds.len() && reached(ds, frame.len() as int, k)
                && for_writing(ds, k) {
                1int
            } else {
                0
            }
            &&& after.take(n) == before
            &&& forall|i: int|
                0 <= i < k ==> #[trigger] after[n + i] == (true, ds[i].addr, part_for(frame, ds, i))
            &&& after.len() > n + k ==> after[n + k].0 && after[n + k].1 == ds[k].addr
        }),
    decreases ds.len(),
{
    let total = frame.len() as int;
    let after = placed(space, before, frame, ds).0;
    placing_adds(space, before, frame, ds);
    if ds.len() > 0 {
        write_flag(ds[0].flags);
        assert(room_before(ds, 0) == 0);
    }
    if frame.len() == 0 {
        if k > 0 {
            assert(reached(ds, total, 0));
        } else if k < ds.len() {
            assert(!reached(ds, total, 0));
        }
    } else if ds.len() > 0 {
        assert(reached(ds, total, 0));
        let n = shorter(frame.len(), ds[0].len as nat) as int;
        assert(share(ds, total, 0) == n);
        if k > 0 {
            let rest = ds.skip(1);
            let left = frame.skip(n);
            let first = crate::guest::after_store(before, space, ds[0].addr, frame.take(n));
            assert(first == before.push((true, ds[0].addr, frame.take(n)))) by {
                crate::guest::mapped_prefix_is_whole(space, ds[0].addr as int, n as nat);
                assert(frame.take(n).take(n) =~= frame.take(n));
            }
            assert forall|i: int| 0 <= i < k - 1 implies #[trigger] reached(
                rest,
                left.len() as int,
                i,
            ) && can_take(space, rest, left.len() as int, i) by {
                shares_without_first(ds, total, i);
                assert(reached(ds, total, i + 1));
            }
            if k < ds.len() {
                shares_without_first(ds, total, k - 1);
            }
            each_buffer_gets_its_part(space, first, left, rest, k - 1);
            let at = before.len() as int;
            assert(after[at] == first[at]) by {
                assert(after.take(first.len() as int)[at] == after[at]);
            }
            assert(part_for(frame, ds, 0) =~= frame.take(n));
            assert forall|i: int| 0 <= i < k implies #[trigger] after[at + i] == (
                true,
                ds[i].addr,
                part_for(frame, ds, i),
            ) by {
                if i > 0 {
                    shares_without_first(ds, total, i - 1);
                    assert(reached(ds, total, i));
                    room_without_first(ds, i - 1);
                    assert(after[first.len() + (i - 1)] == (
                        true,
                        rest[i - 1].addr,
                        part_for(left, rest, i - 1),
                    ));
                    room_grows(ds, 1, i);
                    assert(room_before(ds, 1) == room_before(ds, 0) + ds[0].len);
                    assert(part_for(left, rest, i - 1) =~= part_for(frame, ds, i));
                }
            }
        }
    }
}

/// What an attempt to deliver `frame` through the chain `ds` comes to: it succeeds exactly if the
/// chain takes the frame. Then the buffers of the chain hold it, in order and from its first byte
/// to its last, and the chain is given back with its length. Otherwise the chain is given back
/// empty.
pub open spec fn comes_to(
    space: Set<u64>,
    frame: Seq<u8>,
    q0: Queue,
    t: Seq<Access>,
    head: u16,
    ds: Seq<Descriptor>,
    q1: Queue,
    t1: Seq<Access>,
    r: Result<(), FrontendError>,
) -> bool {
    let total = frame.len() as int;
    let n = t1.len() - 2;
    &&& r is Ok <==> takes(space, ds, total)
    &&& forall|k: int| #[trigger]
        fails_at(space, ds, total, k) ==> r == Err::<(), FrontendError>(obstacle(ds, k))
    &&& q1 == one_more_used(Queue { next_avail: ((q0.next_avail + 1) % 65536) as u16, ..q0 })
    &&& t.len() <= n
    &&& t1.take(t.len() as int) == t
    &&& stores_element(
        t1[n],
        next_element(q0),
        head as int,
        if takes(space, ds, total) {
            total
        } else {
            0
        },
    )
    &&& stores_word(t1[n + 1], q0.used_ring + 2, (q0.next_used + 1) % 65536)
    &&& takes(space, ds, total) ==> {
        &&& stores_into(t1.subrange(t.len() as int, n), ds)
        &&& moved(t1.subrange(t.len() as int, n)) == frame
    }
}

/// Placing a frame only adds accesses.
proof fn placing_adds(space: Set<u64>, before: Seq<Access>, frame: Seq<u8>, ds: Seq<Descriptor>)
    ensures
        before.len() <= placed(space, before, frame, ds).0.len(),
        placed(space, before, frame, ds).0.take(before.len() as int) == before,
    decreases ds.len(),
{
    let after = placed(space, before, frame, ds).0;
    if frame.len() == 0 || ds.len() == 0 || !ds[0].is_write_only() {
        assert(after.take(before.len() as int) =~= before);
    } else {
        let n = shorter(frame.len(), ds[0].len as nat);
        let first = crate::guest::after_store(before, space, ds[0].addr, frame.take(n as int));
        if range_mapped(space, ds[0].addr as int, n) {
            placing_adds(space, first, frame.skip(n as int), ds.skip(1));
            assert forall|i: int| 0 <= i < before.len() implies after[i] == before[i] by {
                assert(after.take(first.len() as int)[i] == first[i]);
            }
        }
        assert(after.take(before.len() as int) =~= before);
    }
}

/// An attempt to deliver a frame uses the chain that the queue gives, all of it: what comes of it
/// is said by `comes_to` over the whole chain. Without a chain nothing happens.
pub proof fn attempt_uses_the_chain_it_takes(
    space: Set<u64>,
    frame: Seq<u8>,
    q0: Queue,
    t0: Seq<Access>,
    q1: Queue,
    t1: Seq<Access>,
    r: Result<(), FrontendError>,
)
    requires
        delivery_may(space, frame, q0, t0, q1, t1, r),
        frame.len() <= u32::MAX,
    ensures
        exists|t: Seq<Access>, chain: Option<(u16, Seq<Descriptor>)>|
            #[trigger] q0.pop_may(space, t0, t, chain) && match chain {
                None => q1 == q0 && t1 == t && r == Err::<(), FrontendError>(
                    FrontendError::EmptyQueue,
                ),
                Some((head, ds)) => head < entries(q0) && used_ring_mapped(q0, space) ==> comes_to(
                    space,
                    frame,
                    q0,
                    t,
                    head,
                    ds,
                    q1,
                    t1,
                    r,
                ),
            },
{
    let (t, chain) = choose|t: Seq<Access>, chain: Option<(u16, Seq<Descriptor>)>|
        {
            &&& #[trigger] q0.pop_may(space, t0, t, chain)
            &&& (q1, t1, r) == delivered(space, frame, q0, t, chain)
        };
    if let Some((head, ds)) = chain {
        if head < entries(q0) && used_ring_mapped(q0, space) {
            chain_outcome(space, frame, q0, t, head, ds);
        }
    }
}

/// What `delivered` gives for a chain.
pub proof fn chain_outcome(
    space: Set<u64>,
    frame: Seq<u8>,
    q0: Queue,
    t: Seq<Access>,
    head: u16,
    ds: Seq<Descriptor>,
)
    requires
        frame.len() <= u32::MAX,
        head < entries(q0),
        used_ring_mapped(q0, space),
    ensures
        ({
            let (q1, t1, r) = delivered(space, frame, q0, t, Some((head, ds)));
            comes_to(space, frame, q0, t, head, ds, q1, t1, r)
        }),
{
    let total = frame.len() as int;
    let taken = Queue { next_avail: q0.next_avail.wrapping_add(1), ..q0 };
    let (written, outcome) = placed(space, t, frame, ds);
    frame_is_placed_iff_chain_takes_it(space, t, frame, ds);
    placing_adds(space, t, frame, ds);
    let len: u32 = if outcome is Ok {
        frame.len() as u32
    } else {
        0
    };
    used_chain_is_published(taken, space, written, head, len);
    let (q1, t1, r) = delivered(space, frame, q0, t, Some((head, ds)));
    assert forall|k: int| #[trigger] fails_at(space, ds, total, k) implies r == Err::<
        (),
        FrontendError,
    >(obstacle(ds, k)) by {
        first_obstacle_is_told(space, t, frame, ds, k);
    }
    let n = t1.len() - 2;
    assert(n == written.len());
    assert(t1.take(t.len() as int) =~= t) by {
        assert forall|i: int| 0 <= i < t.len() implies t1[i] == t[i] by {
            assert(t1.take(n)[i] == written[i]);
            assert(written.take(t.len() as int)[i] == t[i]);
        }
    }
    if outcome is Ok {
        placed_frame_arrives_whole(space, t, frame, ds);
        assert(t1.subrange(t.len() as int, n) =~= written.skip(t.len() as int)) by {
            assert forall|i: int| t.len() <= i < n implies t1[i] == written[i] by {
                assert(t1.take(n)[i] == written[i]);
            }
        }
    }
}

/// Giving a chain back only adds accesses.
proof fn giving_back_adds(q: Queue, space: Set<u64>, before: Seq<Access>, head: u16, len: u32)
    ensures
        ({
            let after = q.used_added(space, before, head, len).1;
            &&& before.len() <= after.len()
            &&& after.take(before.len() as int) == before
        }),
{
    let after = q.used_added(space, before, head, len).1;
    assert(after.take(before.len() as int) =~= before);
}

/// Whatever chain the queue gave, by what was loaded from it, an attempt to deliver a frame uses
/// this chain and all of it: it succeeds exactly if the chain takes the frame, and what else comes of
/// it is said by `comes_to`. Where the chain cannot be given back, that is told.
pub proof fn attempt_uses_the_whole_chain(
    space: Set<u64>,
    frame: Seq<u8>,
    q0: Queue,
    t0: Seq<Access>,
    q1: Queue,
    t1: Seq<Access>,
    r: Result<(), FrontendError>,
    t: Seq<Access>,
    chain: Option<(u16, Seq<Descriptor>)>,
)
    requires
        delivery_may(space, frame, q0, t0, q1, t1, r),
        frame.len() <= u32::MAX,
        q0.pop_may(space, t0, t, chain),
        t.len() <= t1.len(),
        t1.take(t.len() as int) == t,
    ensures
        chain is None ==> q1 == q0 && t1 == t && r == Err::<(), FrontendError>(
            FrontendError::EmptyQueue,
        ),
        chain matches Some((head, ds)) ==> {
            &&& head < entries(q0) && used_ring_mapped(q0, space) ==> comes_to(
                space,
                frame,
                q0,
                t,
                head,
                ds,
                q1,
                t1,
                r,
            )
            &&& head >= entries(q0) || !used_ring_mapped(q0, space) ==> {
                &&& r is Err && r->Err_0 is Queue
                &&& return_fails(
                    Queue { next_avail: ((q0.next_avail + 1) % 65536) as u16, ..q0 },
                    space,
                    head,
                    q1,
                    r->Err_0->Queue_0,
                )
            }
        },
{
    let (t2, chain2) = choose|t: Seq<Access>, chain: Option<(u16, Seq<Descriptor>)>|
        {
            &&& #[trigger] q0.pop_may(space, t0, t, chain)
            &&& (q1, t1, r) == delivered(space, frame, q0, t, chain)
        };
    assert(t2.len() <= t1.len() && t1.take(t2.len() as int) == t2) by {
        if let Some((head, ds)) = chain2 {
            let taken = Queue { next_avail: q0.next_avail.wrapping_add(1), ..q0 };
            let (written, outcome) = placed(space, t2, frame, ds);
            placing_adds(space, t2, frame, ds);
            let len: u32 = if outcome is Ok {
                frame.len() as u32
            } else {
                0
            };
            giving_back_adds(taken, space, written, head, len);
            assert forall|i: int| 0 <= i < t2.len() implies t1[i] == t2[i] by {
                assert(t1.take(written.len() as int)[i] == written[i]);
                assert(written.take(t2.len() as int)[i] == t2[i]);
            }
        }
        assert(t1.take(t2.len() as int) =~= t2);
    }
    trace_decides_about_the_chain(q0, space, t0, t, chain, t2, chain2, t1);
    if let Some((head, ds)) = chain {
        if head < entries(q0) && used_ring_mapped(q0, space) {
            chain_outcome(space, frame, q0, t, head, ds);
        } else {
            let taken = Queue { next_avail: q0.next_avail.wrapping_add(1), ..q0 };
            let (written, outcome) = placed(space, t, frame, ds);
            let len: u32 = if outcome is Ok {
                frame.len() as u32
            } else {
                0
            };
            unusable_chain_is_refused(taken, space, written, head, len);
        }
    }
}

/// `states` and `results` are attempts to deliver `frame`, one behind the other.
pub open spec fn attempts(
    space: Set<u64>,
    frame: Seq<u8>,
    states: Seq<(Queue, Seq<Access>)>,
    results: Seq<Result<(), FrontendError>>,
) -> bool {
    &&& states.len() == results.len() + 1
    &&& forall|i: int|
        0 <= i < results.len() ==> delivery_may(
            space,
            frame,
            states[i].0,
            states[i].1,
            states[i + 1].0,
            states[i + 1].1,
            #[trigger] results[i],
        )
}

/// The attempts `results` went as they should: there is another one as long as they fail, up to
/// `tries`, and none after a success.
pub open spec fn tried(results: Seq<Result<(), FrontendError>>, tries: nat, ok: bool) -> bool {
    &&& results.len() <= tries
    &&& ok ==> results.len() > 0 && results.last() is Ok
    &&& !ok ==> results.len() == tries
    &&& forall|i: int|
        0 <= i < results.len() && !(ok && i == results.len() - 1) ==> #[trigger] results[i] is Err
}

/// Delivering tries until an attempt succeeds, and gives up only after as many failures as there
/// were tries.
pub proof fn delivering_tries_until_success(
    space: Set<u64>,
    frame: Seq<u8>,
    tries: nat,
    s0: (Queue, Seq<Access>),
    s1: (Queue, Seq<Access>),
    ok: bool,
) -> (r: (Seq<(Queue, Seq<Access>)>, Seq<Result<(), FrontendError>>))
    requires
        deliveries_may(space, frame, tries, s0.0, s0.1, s1.0, s1.1, ok),
    ensures
        attempts(space, frame, r.0, r.1),
        r.0[0] == s0,
        r.0.last() == s1,
        tried(r.1, tries, ok),
    decreases tries,
{
    if tries == 0 {
        reveal_with_fuel(deliveries_may, 1);
        (seq![s0], Seq::empty())
    } else {
        let (q, t, r) = first_of_attempts(space, frame, tries, s0, s1, ok);
        if r is Ok {
            let states = seq![s0, s1];
            let results = seq![r];
            assert(attempts(space, frame, states, results)) by {
                assert(delivery_may(
                    space,
                    frame,
                    states[0].0,
                    states[0].1,
                    states[0int + 1].0,
                    states[0int + 1].1,
                    results[0],
                ));
            }
            (states, results)
        } else {
            let (later, outcomes) = delivering_tries_until_success(
                space,
                frame,
                (tries - 1) as nat,
                (q, t),
                s1,
                ok,
            );
            let states = seq![s0] + later;
            let results = seq![r] + outcomes;
            assert forall|i: int| 0 <= i < results.len() implies delivery_may(
                space,
                frame,
                states[i].0,
                states[i].1,
                states[i + 1].0,
                states[i + 1].1,
                #[trigger] results[i],
            ) by {
                if i > 0 {
                    assert(results[i] == outcomes[i - 1]);
                    assert(states[i] == later[i - 1]);
                    assert(states[i + 1] == later[i]);
                }
            }
            assert forall|i: int|
                0 <= i < results.len() && !(ok && i == results.len() - 1) implies
                #[trigger] results[i] is Err by {
                if i > 0 {
                    assert(results[i] == outcomes[i - 1]);
                }
            }
            (states, results)
        }
    }
}

/// The first attempt, and what is left after it.
proof fn first_of_attempts(
    space: Set<u64>,
    frame: Seq<u8>,
    tries: nat,
    s0: (Queue, Seq<Access>),
    s1: (Queue, Seq<Access>),
    ok: bool,
) -> (first: (Queue, Seq<Access>, Result<(), FrontendError>))
    requires
        tries > 0,
        deliveries_may(space, frame, tries, s0.0, s0.1, s1.0, s1.1, ok),
    ensures
        delivery_may(space, frame, s0.0, s0.1, first.0, first.1, first.2),
        first.2 is Ok ==> ok && s1 == (first.0, first.1),
        first.2 is Err ==> deliveries_may(
            space,
            frame,
            (tries - 1) as nat,
            first.0,
            first.1,
            s1.0,
            s1.1,
            ok,
        ),
{
    reveal_with_fuel(deliveries_may, 1);
    choose|q: Queue, t: Seq<Access>, r: Result<(), FrontendError>|
        {
            &&& #[trigger] delivery_may(space, frame, s0.0, s0.1, q, t, r)
            &&& if r is Ok {
                ok && s1.0 == q && s1.1 == t
            } else {
                deliveries_may(space, frame, (tries - 1) as nat, q, t, s1.0, s1.1, ok)
            }
        }
}

/// No buffer of the chain is for writing.
pub open spec fn all_for_reading(ds: Seq<Descriptor>) -> bool {
    forall|i: int| 0 <= i < ds.len() ==> !#[trigger] for_writing(ds, i)
}

/// Each buffer of the chain is mapped, as far as it takes a share of `total` bytes.
pub open spec fn shares_mapped(space: Set<u64>, ds: Seq<Descriptor>, total: int) -> bool {
    forall|i: int|
        0 <= i < ds.len() ==> range_mapped(
            space,
            (#[trigger] ds[i]).addr as int,
            share(ds, total, i) as nat,
        )
}

/// The accesses `trace` load from the buffers of the chain, one behind the other, each its share of
/// `total` bytes.
pub open spec fn loads_shares(trace: Seq<Access>, ds: Seq<Descriptor>, total: int) -> bool {
    &&& trace.len() == ds.len()
    &&& forall|i: int|
        0 <= i < ds.len() ==> {
            &&& !(#[trigger] trace[i]).0
            &&& trace[i].1 == ds[i].addr
            &&& trace[i].2.len() == share(ds, total, i)
        }
}

/// How long the frame of a chain is that goes into a buffer of `cap` bytes.
pub open spec fn frame_len(ds: Seq<Descriptor>, cap: int) -> int {
    if room_before(ds, ds.len() as int) <= cap {
        room_before(ds, ds.len() as int)
    } else {
        cap
    }
}

/// `frame` is what the chain gives: the bytes that its buffers hold one behind the other, however
/// many buffers there are, as far as there is room for `cap` bytes. If one of them is for writing or
/// not mapped, the frame is empty.
pub open spec fn frame_of_chain(
    space: Set<u64>,
    before: Seq<Access>,
    ds: Seq<Descriptor>,
    cap: int,
    after: Seq<Access>,
    frame: Seq<u8>,
) -> bool {
    &&& all_for_reading(ds) && shares_mapped(space, ds, cap) ==> {
        &&& after.len() == before.len() + ds.len()
        &&& after.take(before.len() as int) == before
        &&& loads_shares(after.skip(before.len() as int), ds, cap)
        &&& frame == moved(after.skip(before.len() as int))
        &&& frame.len() == frame_len(ds, cap)
    }
    &&& !all_for_reading(ds) ==> after == before && frame.len() == 0
    &&& !shares_mapped(space, ds, cap) ==> frame.len() == 0
}

/// A chain without a buffer for writing gives the frame that its buffers hold.
pub proof fn frame_is_what_the_chain_holds(
    space: Set<u64>,
    before: Seq<Access>,
    ds: Seq<Descriptor>,
    cap: nat,
    after: Seq<Access>,
    frame: Seq<u8>,
)
    requires
        gather_may(space, before, ds, cap, after, frame),
    ensures
        frame_of_chain(space, before, ds, cap as int, after, frame),
{
    assert(all_for_reading(ds) == !has_write_only(ds)) by {
        assert forall|i: int| 0 <= i < ds.len() implies for_writing(ds, i)
            == ds[i].is_write_only() by {
            write_flag(ds[i].flags);
        }
        if has_write_only(ds) {
            let i = choose|i: int| 0 <= i < ds.len() && (#[trigger] ds[i]).is_write_only();
            assert(for_writing(ds, i));
        }
        if !all_for_reading(ds) {
            let i = choose|i: int| 0 <= i < ds.len() && #[trigger] for_writing(ds, i);
            assert(ds[i].is_write_only());
        }
    }
    if all_for_reading(ds) {
        let datas = choose|datas: Seq<Seq<u8>>| #[trigger]
            gathered(space, before, ds, cap, Seq::empty(), datas) == (after, frame);
        gathered_from_here(space, before, ds, cap, Seq::empty(), datas);
        let new = after.skip(before.len() as int);
        assert(Seq::<u8>::empty() + moved(new) =~= moved(new));
    }
}

/// Gathering the rest of a frame behind the part that is there.
proof fn gathered_from_here(
    space: Set<u64>,
    before: Seq<Access>,
    ds: Seq<Descriptor>,
    cap: nat,
    frame: Seq<u8>,
    datas: Seq<Seq<u8>>,
)
    requires
        frame.len() <= cap,
    ensures
        ({
            let (after, out) = gathered(space, before, ds, cap, frame, datas);
            let left = cap - frame.len();
            &&& shares_mapped(space, ds, left) ==> {
                &&& after.len() == before.len() + ds.len()
                &&& after.take(before.len() as int) == before
                &&& loads_shares(after.skip(before.len() as int), ds, left)
                &&& out == frame + moved(after.skip(before.len() as int))
                &&& out.len() == frame.len() + frame_len(ds, left)
            }
            &&& !shares_mapped(space, ds, left) ==> out.len() == 0
        }),
    decreases ds.len(),
{
    let (after, out) = gathered(space, before, ds, cap, frame, datas);
    let left = cap - frame.len();
    if ds.len() == 0 {
        assert(after.take(before.len() as int) =~= before);
        assert(after.skip(before.len() as int) =~= Seq::empty());
        assert(frame + moved(Seq::empty()) =~= frame);
    } else {
        let n = shorter(ds[0].len as nat, left as nat);
        assert(room_before(ds, 0) == 0);
        assert(share(ds, left, 0) == n);
        if range_mapped(space, ds[0].addr as int, n) {
            let data = Seq::new(n, |i: int| datas[0][i]);
            let first = before.push(load(ds[0].addr, data));
            let rest = ds.skip(1);
            gathered_from_here(space, first, rest, cap, frame + data, datas.skip(1));
            let left1 = left - n;
            shares_mapped_without_first(space, ds, left);
            if shares_mapped(space, ds, left) {
                loads_behind_first(before, ds, left, data, after);
                let new = after.skip(before.len() as int);
                let later = after.skip(first.len() as int);
                assert(frame + data + moved(later) =~= frame + (data + moved(later)));
                room_without_first(ds, ds.len() - 1);
                room_grows(rest, 0, rest.len() as int);
            }
        } else {
            assert(!shares_mapped(space, ds, left)) by {
                assert(ds[0].addr == ds[0].addr);
            }
        }
    }
}

/// The shares of the buffers behind the first one.
proof fn share_without_first(ds: Seq<Descriptor>, total: int, i: int)
    requires
        ds.len() > 0,
        0 <= i < ds.len() - 1,
        total >= 0,
    ensures
        share(
            ds.skip(1),
            total - (if total <= ds[0].len {
                total
            } else {
                ds[0].len as int
            }),
            i,
        ) == share(ds, total, i + 1),
        ds.skip(1)[i] == ds[i + 1],
{
    room_without_first(ds, i);
    room_grows(ds, 1, i + 1);
    room_grows(ds.skip(1), 0, i);
    assert(room_before(ds, 1) == room_before(ds, 0) + ds[0].len);
}

/// The shares that are mapped, without the first buffer.
proof fn shares_mapped_without_first(space: Set<u64>, ds: Seq<Descriptor>, left: int)
    requires
        ds.len() > 0,
        left >= 0,
        range_mapped(space, ds[0].addr as int, share(ds, left, 0) as nat),
    ensures
        shares_mapped(space, ds, left) == shares_mapped(
            space,
            ds.skip(1),
            left - share(ds, left, 0),
        ),
{
    let rest = ds.skip(1);
    assert(room_before(ds, 0) == 0);
    let left1 = left - share(ds, left, 0);
    assert forall|i: int| 0 <= i < rest.len() implies share(rest, left1, i) == share(
        ds,
        left,
        i + 1,
    ) && #[trigger] rest[i] == ds[i + 1] by {
        share_without_first(ds, left, i);
    }
    if shares_mapped(space, ds, left) {
        assert forall|i: int| 0 <= i < rest.len() implies range_mapped(
            space,
            (#[trigger] rest[i]).addr as int,
            share(rest, left1, i) as nat,
        ) by {
            assert(rest[i] == ds[i + 1]);
        }
    }
    if shares_mapped(space, rest, left1) {
        assert forall|i: int| 0 <= i < ds.len() implies range_mapped(
            space,
            (#[trigger] ds[i]).addr as int,
            share(ds, left, i) as nat,
        ) by {
            if i > 0 {
                assert(rest[i - 1] == ds[i]);
            }
        }
    }
}

/// Loads of the shares behind the first one make up, with that, the loads of all.
proof fn loads_behind_first(
    before: Seq<Access>,
    ds: Seq<Descriptor>,
    left: int,
    data: Seq<u8>,
    after: Seq<Access>,
)
    requires
        ds.len() > 0,
        left >= 0,
        data.len() == share(ds, left, 0),
        ({
            let first = before.push(load(ds[0].addr, data));
            &&& after.len() == first.len() + ds.skip(1).len()
            &&& after.take(first.len() as int) == first
            &&& loads_shares(
                after.skip(first.len() as int),
                ds.skip(1),
                left - share(ds, left, 0),
            )
        }),
    ensures
        after.len() == before.len() + ds.len(),
        after.take(before.len() as int) == before,
        loads_shares(after.skip(before.len() as int), ds, left),
        moved(after.skip(before.len() as int)) == data + moved(
            after.skip(before.len() as int + 1),
        ),
{
    let first = before.push(load(ds[0].addr, data));
    let new = after.skip(before.len() as int);
    let later = after.skip(first.len() as int);
    assert forall|i: int| 0 <= i < first.len() implies after[i] == first[i] by {
        assert(after.take(first.len() as int)[i] == after[i]);
    }
    assert(after.take(before.len() as int) =~= before);
    assert(new[0] == after[before.len() as int]);
    assert(new.skip(1) =~= later);
    assert(room_before(ds, 0) == 0);
    assert forall|i: int| 0 <= i < ds.len() implies {
        &&& !(#[trigger] new[i]).0
        &&& new[i].1 == ds[i].addr
        &&& new[i].2.len() == share(ds, left, i)
    } by {
        if i > 0 {
            share_without_first(ds, left, i - 1);
            assert(new[i] == later[i - 1]);
        }
    }
}

/// Collecting a frame only adds accesses.
pub proof fn gathering_adds(
    space: Set<u64>,
    before: Seq<Access>,
    ds: Seq<Descriptor>,
    cap: nat,
    after: Seq<Access>,
    frame: Seq<u8>,
)
    requires
        gather_may(space, before, ds, cap, after, frame),
    ensures
        before.len() <= after.len(),
        after.take(before.len() as int) == before,
{
    if has_write_only(ds) {
        assert(after.take(before.len() as int) =~= before);
    } else {
        let datas = choose|datas: Seq<Seq<u8>>| #[trigger]
            gathered(space, before, ds, cap, Seq::empty(), datas) == (after, frame);
        gathered_adds(space, before, ds, cap, Seq::empty(), datas);
    }
}

/// Gathering the rest of a frame only adds accesses.
proof fn gathered_adds(
    space: Set<u64>,
    before: Seq<Access>,
    ds: Seq<Descriptor>,
    cap: nat,
    frame: Seq<u8>,
    datas: Seq<Seq<u8>>,
)
    ensures
        ({
            let after = gathered(space, before, ds, cap, frame, datas).0;
            &&& before.len() <= after.len()
            &&& after.take(before.len() as int) == before
        }),
    decreases ds.len(),
{
    let after = gathered(space, before, ds, cap, frame, datas).0;
    if ds.len() > 0 {
        let n = shorter(ds[0].len as nat, (cap - frame.len()) as nat);
        if range_mapped(space, ds[0].addr as int, n) {
            let data = Seq::new(n, |i: int| datas[0][i]);
            let first = before.push(load(ds[0].addr, data));
            gathered_adds(space, first, ds.skip(1), cap, frame + data, datas.skip(1));
            assert forall|i: int| 0 <= i < before.len() implies after[i] == before[i] by {
                assert(after.take(first.len() as int)[i] == first[i]);
            }
        }
    }
    assert(after.take(before.len() as int) =~= before);
}

} // verus!
