//! What the worker does in guest memory between two calls, step by step.

use vstd::prelude::*;

use crate::guest::{accesses, last_stored, range_mapped, Access};
use crate::net::checksum::{checksum_complements_the_segment, completes, finalized};
use crate::net::frame::{deliveries_may, gather_may, FrontendError};
use crate::net::frame_laws::{
    attempts, delivering_tries_until_success, frame_is_what_the_chain_holds, frame_of_chain,
    gathering_adds, tried,
};
use crate::net::rx::{rx_next, RxAction, RxEvent, RxState};
use crate::net::tx::{tx_next, TxAction, TxEvent, TxState};
use crate::net::worker::{
    rx_rank, rx_settles, rx_step_may, tx_pop_may, tx_rank, tx_settles, tx_step_may, NetWorker,
    RxMemory, TxMemory,
};
use crate::queue::{Descriptor, Queue, QueueError};
use crate::ring_laws::{
    driver_is_notified_at_its_position, enabling_tells_whether_chains_wait, entries, loads,
    next_element, notifications_are_set_in_the_used_ring, one_more_used, return_fails,
    stores_element, stores_word, trace_decides_about_the_chain, unusable_chain_is_refused,
    used_chain_is_published, used_ring_mapped, word,
};

verus! {

/// The words by which notifications are turned off and on and asked about are mapped.
pub open spec fn steerable(q: Queue, space: Set<u64>) -> bool {
    &&& range_mapped(space, q.avail_ring + 2, 2)
    &&& q.event_idx_enabled ==> range_mapped(space, q.used_ring + 4 + 8 * entries(q), 2)
    &&& q.event_idx_enabled ==> range_mapped(space, q.avail_ring + 4 + 2 * entries(q), 2)
    &&& !q.event_idx_enabled ==> range_mapped(space, q.used_ring as int, 2)
}

/// A queue can notify exactly if the words for that are mapped.
pub proof fn steerable_queue_notifies(q: Queue, space: Set<u64>)
    ensures
        q.notifies(space) == steerable(q, space),
{
}

/// The frames of a worker are what its buffers hold up to their lengths, and a worker is well formed
/// if both buffers have their size, the frames fit, and no second frame is at hand while one waits
/// for the guest.
pub proof fn frames_are_held_by_the_buffers(worker: NetWorker)
    ensures
        worker.wf() <==> {
            &&& worker.rx_frame_buf@.len() == 65562 && worker.rx_frame_buf_len <= 65562
            &&& worker.tx_frame_buf@.len() == 65562 && worker.tx_frame_len <= 65562
            &&& worker.rx.deferred ==> worker.rx.phase !is Reading && worker.rx.phase !is Delivering
            &&& !worker.rx.deferred ==> worker.rx.phase !is Retrying
        },
        worker.rx_frame() == worker.rx_frame_buf@.subrange(0, worker.rx_frame_buf_len as int),
        worker.tx_frame() == worker.tx_frame_buf@.subrange(0, worker.tx_frame_len as int),
        worker.rx_memory() == (worker.rx_q, accesses(worker.mem)),
        worker.tx_memory() == (worker.tx_q, accesses(worker.mem), worker.tx_frame()),
{
    assert(worker.rx_frame() =~= worker.rx_frame_buf@.subrange(0, worker.rx_frame_buf_len as int));
    assert(worker.tx_frame() =~= worker.tx_frame_buf@.subrange(0, worker.tx_frame_len as int));
}

/// What the device stored last tells the driver to notify it.
pub open spec fn asks_for_notifications(q: Queue, trace: Seq<Access>) -> bool {
    let stored = if q.event_idx_enabled {
        last_stored(trace, (q.used_ring + 4 + 8 * entries(q)) as u64)
    } else {
        last_stored(trace, q.used_ring)
    };
    &&& stored is Some
    &&& stored.unwrap().len() == 2
    &&& word(stored.unwrap()) == if q.event_idx_enabled {
        q.next_avail as int
    } else {
        0
    }
}

/// Notifications that are on are asked for in the used ring.
pub proof fn notifications_are_asked_for(q: Queue, trace: Seq<Access>)
    requires
        q.notifications_on(trace),
    ensures
        asks_for_notifications(q, trace),
{
}

/// Notifications were turned off or on by what was stored from `before` to `after`.
pub open spec fn turned(q: Queue, enable: bool, before: Seq<Access>, after: Seq<Access>) -> bool {
    let n = before.len() as int;
    if q.event_idx_enabled && !enable {
        after == before
    } else {
        &&& after.len() == n + 1
        &&& after.take(n) == before
        &&& q.event_idx_enabled ==> stores_word(
            after[n],
            q.used_ring + 4 + 8 * entries(q),
            q.next_avail as int,
        )
        &&& !q.event_idx_enabled ==> stores_word(
            after[n],
            q.used_ring as int,
            if enable {
                0
            } else {
                1
            },
        )
    }
}

/// Notifications were turned on, and then the driver's count was loaded.
pub open spec fn turned_on(q: Queue, before: Seq<Access>, after: Seq<Access>) -> bool {
    &&& after.len() > 0
    &&& turned(q, true, before, after.drop_last())
    &&& loads(after.last(), q.avail_ring + 2, 2)
}

/// `states` and `results` are the attempts to deliver a frame from `m0` to `m1`, as many as it took
/// and no more than the queue has entries.
pub open spec fn tried_from(
    space: Set<u64>,
    frame: Seq<u8>,
    states: Seq<(Queue, Seq<Access>)>,
    results: Seq<Result<(), FrontendError>>,
    m0: RxMemory,
    m1: RxMemory,
    ok: bool,
) -> bool {
    &&& attempts(space, frame, states, results)
    &&& states[0] == m0
    &&& states.last() == m1
    &&& tried(results, entries(m0.0) as nat, ok)
}

/// What a step of receiving does in memory.
pub open spec fn rx_does(
    space: Set<u64>,
    frame: Seq<u8>,
    action: RxAction,
    m0: RxMemory,
    event: RxEvent,
    m1: RxMemory,
) -> bool {
    match action {
        RxAction::Disable => {
            &&& event is Disabled
            &&& m1.0 == m0.0
            &&& steerable(m0.0, space) ==> turned(m0.0, false, m0.1, m1.1)
        },
        RxAction::Deliver => {
            &&& event is Delivered
            &&& event->used == (m1.0.next_used != m0.0.next_used)
            &&& exists|
                states: Seq<(Queue, Seq<Access>)>,
                results: Seq<Result<(), FrontendError>>,
            | #[trigger]
                tried_from(space, frame, states, results, m0, m1, event->ok)
        },
        RxAction::Enable => {
            &&& event is Enabled
            &&& m1.0 == m0.0
            &&& steerable(m0.0, space) ==> turned_on(m0.0, m0.1, m1.1)
        },
        _ => false,
    }
}

/// A step of receiving does in memory what it should.
pub proof fn receiving_step_does_its_work(
    space: Set<u64>,
    frame: Seq<u8>,
    action: RxAction,
    m0: RxMemory,
    event: RxEvent,
    m1: RxMemory,
)
    requires
        rx_step_may(space, frame, action, m0, event, m1),
    ensures
        rx_does(space, frame, action, m0, event, m1),
{
    match action {
        RxAction::Disable => {
            if steerable(m0.0, space) {
                notifications_are_set_in_the_used_ring(m0.0, space, m0.1, false);
            }
        },
        RxAction::Deliver => {
            let ok = choose|ok: bool|
                {
                    &&& event == (RxEvent::Delivered {
                        ok,
                        used: m1.0.next_used != m0.0.next_used,
                    })
                    &&& #[trigger] deliveries_may(
                        space,
                        frame,
                        m0.0.ring() as nat,
                        m0.0,
                        m0.1,
                        m1.0,
                        m1.1,
                        ok,
                    )
                };
            let (states, results) = delivering_tries_until_success(
                space,
                frame,
                m0.0.ring() as nat,
                m0,
                m1,
                ok,
            );
            assert(tried_from(space, frame, states, results, m0, m1, event->ok));
        },
        RxAction::Enable => {
            let idx = choose|idx: u16|
                m1 == (m0.0, (#[trigger] m0.0.notification_enabled(space, m0.1, idx)).0);
            if steerable(m0.0, space) {
                enabling_is_turning_on(m0.0, space, m0.1, idx);
            }
        },
        _ => {},
    }
}

/// What turning notifications on stores and loads.
proof fn enabling_is_turning_on(q: Queue, space: Set<u64>, before: Seq<Access>, idx: u16)
    requires
        steerable(q, space),
    ensures
        turned_on(q, before, q.notification_enabled(space, before, idx).0),
        word(q.notification_enabled(space, before, idx).0.last().2) == idx,
        q.notification_enabled(space, before, idx).1 == Ok::<bool, QueueError>(
            idx != q.next_avail,
        ),
{
    notifications_are_set_in_the_used_ring(q, space, before, true);
    enabling_tells_whether_chains_wait(q, space, before, idx);
    let set = q.notification_set(space, before, true).0;
    let after = q.notification_enabled(space, before, idx).0;
    assert(after.drop_last() =~= set) by {
        assert(after.take(set.len() as int) =~= after.drop_last());
    }
}

/// Taking a chain and loading its frame, from `m0` to `m1`.
pub open spec fn tx_takes(
    space: Set<u64>,
    m0: TxMemory,
    t: Seq<Access>,
    chain: Option<(u16, Seq<Descriptor>)>,
    event: TxEvent,
    m1: TxMemory,
) -> bool {
    match chain {
        None => event == TxEvent::Popped(None) && m1.0 == m0.0 && m1.1 == t && m1.2 == m0.2,
        Some((head, ds)) => {
            &&& event == TxEvent::Popped(Some(head))
            &&& m1.0 == Queue { next_avail: ((m0.0.next_avail + 1) % 65536) as u16, ..m0.0 }
            &&& exists|frame: Seq<u8>| #[trigger]
                frame_of_chain(space, t, ds, 65562, m1.1, frame) && completes(frame, m1.2)
        },
    }
}

/// The chain that a step took, and the accesses up to then.
proof fn chain_taken(space: Set<u64>, m0: TxMemory, event: TxEvent, m1: TxMemory) -> (r: (
    Seq<Access>,
    Option<(u16, Seq<Descriptor>)>,
))
    requires
        tx_step_may(space, TxAction::Pop, m0, event, m1),
    ensures
        m0.0.pop_may(space, m0.1, r.0, r.1),
        tx_takes(space, m0, r.0, r.1, event, m1),
        r.0.len() <= m1.1.len(),
        m1.1.take(r.0.len() as int) == r.0,
{
    let (t, chain, frame) = choose|
        t: Seq<Access>,
        chain: Option<(u16, Seq<Descriptor>)>,
        frame: Seq<u8>,
    |
        {
            &&& m0.0.pop_may(space, m0.1, t, chain)
            &&& #[trigger] tx_pop_may(space, m0, t, chain, frame, event, m1)
        };
    if let Some((head, ds)) = chain {
        taken_frame(space, t, ds, m1.1, frame);
    } else {
        assert(t.take(t.len() as int) =~= t);
    }
    (t, chain)
}

/// What a chain gives for the backend.
proof fn taken_frame(
    space: Set<u64>,
    t: Seq<Access>,
    ds: Seq<Descriptor>,
    after: Seq<Access>,
    frame: Seq<u8>,
)
    requires
        gather_may(space, t, ds, 65562, after, frame),
    ensures
        frame_of_chain(space, t, ds, 65562, after, frame),
        completes(frame, finalized(frame)),
        t.len() <= after.len(),
        after.take(t.len() as int) == t,
{
    gathering_adds(space, t, ds, 65562, after, frame);
    frame_is_what_the_chain_holds(space, t, ds, 65562, after, frame);
    checksum_complements_the_segment(frame);
}

/// Whatever chain the queue gave, by what was loaded from it, the frame for the backend is what this
/// chain holds, all of it, with its checksum completed.
pub proof fn frame_is_taken_from_the_whole_chain(
    space: Set<u64>,
    m0: TxMemory,
    event: TxEvent,
    m1: TxMemory,
    t: Seq<Access>,
    chain: Option<(u16, Seq<Descriptor>)>,
)
    requires
        tx_step_may(space, TxAction::Pop, m0, event, m1),
        m0.0.pop_may(space, m0.1, t, chain),
        t.len() <= m1.1.len(),
        m1.1.take(t.len() as int) == t,
    ensures
        tx_takes(space, m0, t, chain, event, m1),
{
    let (t1, chain1) = chain_taken(space, m0, event, m1);
    trace_decides_about_the_chain(m0.0, space, m0.1, t, chain, t1, chain1, m1.1);
}

/// Giving the chain `head` back with length zero, from `m0` to `m1`.
pub open spec fn tx_gives_back(
    space: Set<u64>,
    head: u16,
    m0: TxMemory,
    event: TxEvent,
    m1: TxMemory,
) -> bool {
    let n = m0.1.len() as int;
    &&& event is Returned
    &&& m1.2 == m0.2
    &&& head < entries(m0.0) && used_ring_mapped(m0.0, space) ==> {
        &&& event == TxEvent::Returned(Ok(()))
        &&& m1.0 == one_more_used(m0.0)
        &&& m1.1.len() == n + 2
        &&& m1.1.take(n) == m0.1
        &&& stores_element(m1.1[n], next_element(m0.0), head as int, 0)
        &&& stores_word(m1.1[n + 1], m0.0.used_ring + 2, (m0.0.next_used + 1) % 65536)
    }
    &&& head >= entries(m0.0) ==> m1.1 == m0.1
    &&& head >= entries(m0.0) || !used_ring_mapped(m0.0, space) ==> {
        &&& event->Returned_0 is Err
        &&& return_fails(m0.0, space, head, m1.0, event->Returned_0->Err_0)
    }
}

/// The driver waits for one of the chains that were used since it was last considered.
pub open spec fn waits_for_used(q: Queue, position: int) -> bool {
    exists|k: int| 1 <= k <= q.num_added && #[trigger] (q.next_used - k) % 65536 == position
}

/// Asking whether the driver wants to hear of the used chains, from `m0` to `m1`.
pub open spec fn tx_considers(m0: TxMemory, event: TxEvent, m1: TxMemory) -> bool {
    &&& m1.2 == m0.2
    &&& if m0.0.event_idx_enabled {
        &&& m1.0 == Queue { num_added: 0, ..m0.0 }
        &&& m1.1.len() == m0.1.len() + 1
        &&& m1.1.take(m0.1.len() as int) == m0.1
        &&& loads(m1.1.last(), m0.0.avail_ring + 4 + 2 * entries(m0.0), 2)
        &&& event == TxEvent::Needed(waits_for_used(m0.0, word(m1.1.last().2)))
    } else {
        m1.0 == m0.0 && m1.1 == m0.1 && event == TxEvent::Needed(true)
    }
}

/// What a step of transmitting does in memory.
pub open spec fn tx_does(
    space: Set<u64>,
    action: TxAction,
    m0: TxMemory,
    event: TxEvent,
    m1: TxMemory,
) -> bool {
    match action {
        TxAction::Disable => {
            &&& event is Disabled
            &&& m1.0 == m0.0
            &&& m1.2 == m0.2
            &&& steerable(m0.0, space) ==> turned(m0.0, false, m0.1, m1.1)
        },
        TxAction::Pop => exists|t: Seq<Access>, chain: Option<(u16, Seq<Descriptor>)>| #[trigger]
            m0.0.pop_may(space, m0.1, t, chain) && tx_takes(space, m0, t, chain, event, m1),
        TxAction::Return(head) => tx_gives_back(space, head, m0, event, m1),
        TxAction::Undo => {
            &&& event is Undone
            &&& m1.0 == Queue { next_avail: ((m0.0.next_avail + 65535) % 65536) as u16, ..m0.0 }
            &&& m1.1 == m0.1
            &&& m1.2 == m0.2
        },
        TxAction::Consider => steerable(m0.0, space) ==> tx_considers(m0, event, m1),
        TxAction::Enable => steerable(m0.0, space) ==> {
            &&& m1.0 == m0.0
            &&& m1.2 == m0.2
            &&& turned_on(m0.0, m0.1, m1.1)
            &&& event == TxEvent::Enabled(word(m1.1.last().2) != m0.0.next_avail)
        },
        _ => false,
    }
}

/// A step of transmitting does in memory what it should.
pub proof fn transmitting_step_does_its_work(
    space: Set<u64>,
    action: TxAction,
    m0: TxMemory,
    event: TxEvent,
    m1: TxMemory,
)
    requires
        tx_step_may(space, action, m0, event, m1),
    ensures
        tx_does(space, action, m0, event, m1),
{
    match action {
        TxAction::Disable => {
            if steerable(m0.0, space) {
                notifications_are_set_in_the_used_ring(m0.0, space, m0.1, false);
            }
        },
        TxAction::Pop => {
            let (t, chain) = chain_taken(space, m0, event, m1);
            assert(m0.0.pop_may(space, m0.1, t, chain));
        },
        TxAction::Return(head) => {
            unusable_chain_is_refused(m0.0, space, m0.1, head, 0);
            if head < entries(m0.0) && used_ring_mapped(m0.0, space) {
                used_chain_is_published(m0.0, space, m0.1, head, 0);
            }
        },
        TxAction::Undo => {},
        TxAction::Consider => {
            if steerable(m0.0, space) {
                let position = choose|position: u16|
                    {
                        let (t, r) = #[trigger] m0.0.notification_needed(space, m0.1, position);
                        &&& r is Ok
                        &&& event == TxEvent::Needed(r->Ok_0)
                        &&& m1 == (
                            Queue {
                                num_added: if m0.0.event_idx_enabled {
                                    0
                                } else {
                                    m0.0.num_added
                                },
                                ..m0.0
                            },
                            t,
                            m0.2,
                        )
                    };
                driver_is_notified_at_its_position(m0.0, space, m0.1, position);
            }
        },
        TxAction::Enable => {
            if steerable(m0.0, space) {
                let idx = choose|idx: u16|
                    {
                        let (t, r) = #[trigger] m0.0.notification_enabled(space, m0.1, idx);
                        &&& r is Ok
                        &&& event == TxEvent::Enabled(r->Ok_0)
                        &&& m1 == (m0.0, t, m0.2)
                    };
                enabling_is_turning_on(m0.0, space, m0.1, idx);
            }
        },
        _ => {},
    }
}

/// The steps of receiving between two calls: `states` are what is to be done in turn and where
/// receiving stands then, `events` what the steps lead to, and `memories` what they work on.
pub open spec fn rx_path(
    space: Set<u64>,
    frame: Seq<u8>,
    states: Seq<(RxState, RxAction)>,
    events: Seq<RxEvent>,
    memories: Seq<RxMemory>,
) -> bool {
    &&& states.len() == events.len() + 1
    &&& memories.len() == events.len() + 1
    &&& forall|i: int|
        0 <= i < events.len() ==> {
            &&& rx_does(
                space,
                frame,
                states[i].1,
                memories[i],
                #[trigger] events[i],
                memories[i + 1],
            )
            &&& states[i + 1] == rx_next(states[i].0, events[i])
        }
    &&& states.last().1 is ReadFrame || states.last().1 is Signal || states.last().1 is Done
}

/// Between two calls receiving does one step after the other in memory, until the caller is asked to
/// read, to interrupt the guest, or for nothing.
pub proof fn receiving_goes_on_in_memory(
    space: Set<u64>,
    frame: Seq<u8>,
    s: (RxState, RxAction),
    m: RxMemory,
    s1: (RxState, RxAction),
    m1: RxMemory,
) -> (r: (Seq<(RxState, RxAction)>, Seq<RxEvent>, Seq<RxMemory>))
    requires
        rx_settles(space, frame, s, m, s1, m1),
    ensures
        rx_path(space, frame, r.0, r.1, r.2),
        r.0[0] == s && r.0.last() == s1,
        r.2[0] == m && r.2.last() == m1,
    decreases rx_rank(s.0.phase),
{
    if s.1 is Disable || s.1 is Deliver || s.1 is Enable {
        let (event, n) = choose|event: RxEvent, n: RxMemory|
            {
                &&& #[trigger] rx_step_may(space, frame, s.1, m, event, n)
                &&& if rx_rank(rx_next(s.0, event).0.phase) < rx_rank(s.0.phase) {
                    rx_settles(space, frame, rx_next(s.0, event), n, s1, m1)
                } else {
                    false
                }
            };
        receiving_step_does_its_work(space, frame, s.1, m, event, n);
        let (states1, events1, memories1) = receiving_goes_on_in_memory(
            space,
            frame,
            rx_next(s.0, event),
            n,
            s1,
            m1,
        );
        let states = seq![s] + states1;
        let events = seq![event] + events1;
        let memories = seq![m] + memories1;
        assert forall|i: int| 0 <= i < events.len() implies {
            &&& rx_does(
                space,
                frame,
                states[i].1,
                memories[i],
                #[trigger] events[i],
                memories[i + 1],
            )
            &&& states[i + 1] == rx_next(states[i].0, events[i])
        } by {
            if i > 0 {
                assert(events[i] == events1[i - 1]);
                assert(states[i] == states1[i - 1] && states[i + 1] == states1[i]);
                assert(memories[i] == memories1[i - 1] && memories[i + 1] == memories1[i]);
            }
        }
        (states, events, memories)
    } else {
        (seq![s], Seq::empty(), seq![m])
    }
}

/// The steps of transmitting between two calls, as in `rx_path`.
pub open spec fn tx_path(
    space: Set<u64>,
    states: Seq<(TxState, TxAction)>,
    events: Seq<TxEvent>,
    memories: Seq<TxMemory>,
) -> bool {
    &&& states.len() == events.len() + 1
    &&& memories.len() == events.len() + 1
    &&& forall|i: int|
        0 <= i < events.len() ==> {
            &&& tx_does(space, states[i].1, memories[i], #[trigger] events[i], memories[i + 1])
            &&& states[i + 1] == tx_next(states[i].0, events[i])
        }
    &&& match states.last().1 {
        TxAction::AskUnfinished
        | TxAction::FinishWrite
        | TxAction::WriteFrame
        | TxAction::Signal
        | TxAction::Report(_)
        | TxAction::Done => true,
        _ => false,
    }
}

/// Between two calls transmitting does one step after the other in memory, until the caller is asked
/// for something that happens elsewhere, or for nothing.
pub proof fn transmitting_goes_on_in_memory(
    space: Set<u64>,
    s: (TxState, TxAction),
    m: TxMemory,
    s1: (TxState, TxAction),
    m1: TxMemory,
) -> (r: (Seq<(TxState, TxAction)>, Seq<TxEvent>, Seq<TxMemory>))
    requires
        tx_settles(space, s, m, s1, m1),
    ensures
        tx_path(space, r.0, r.1, r.2),
        r.0[0] == s && r.0.last() == s1,
        r.2[0] == m && r.2.last() == m1,
    decreases tx_rank(s.0.phase),
{
    let in_memory = match s.1 {
        TxAction::Disable
        | TxAction::Pop
        | TxAction::Return(_)
        | TxAction::Undo
        | TxAction::Consider
        | TxAction::Enable => true,
        _ => false,
    };
    if in_memory {
        let (event, n) = choose|event: TxEvent, n: TxMemory|
            {
                &&& #[trigger] tx_step_may(space, s.1, m, event, n)
                &&& if tx_rank(tx_next(s.0, event).0.phase) < tx_rank(s.0.phase) {
                    tx_settles(space, tx_next(s.0, event), n, s1, m1)
                } else {
                    false
                }
            };
        transmitting_step_does_its_work(space, s.1, m, event, n);
        let (states1, events1, memories1) = transmitting_goes_on_in_memory(
            space,
            tx_next(s.0, event),
            n,
            s1,
            m1,
        );
        let states = seq![s] + states1;
        let events = seq![event] + events1;
        let memories = seq![m] + memories1;
        assert forall|i: int| 0 <= i < events.len() implies {
            &&& tx_does(space, states[i].1, memories[i], #[trigger] events[i], memories[i + 1])
            &&& states[i + 1] == tx_next(states[i].0, events[i])
        } by {
            if i > 0 {
                assert(events[i] == events1[i - 1]);
                assert(states[i] == states1[i - 1] && states[i + 1] == states1[i]);
                assert(memories[i] == memories1[i - 1] && memories[i + 1] == memories1[i]);
            }
        }
        (states, events, memories)
    } else {
        (seq![s], Seq::empty(), seq![m])
    }
}

} // verus!
