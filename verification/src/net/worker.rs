//! The worker of a network device: it moves frames between the queues and the backend.
//!
//! The worker itself does what happens in guest memory. What happens outside, at the backend and
//! at the interrupt line, it asks its caller to do, and goes on when it hears how that went.

use vm_memory::GuestMemoryMmap;
use vstd::prelude::*;

use crate::guest::{accesses, guest_addresses, guest_regions, Access};
use crate::net::checksum::{finalize_checksum, finalized};
use crate::net::frame::{
    deliver, deliveries_keep_queue, deliveries_may, gather_frame, gather_may,
    next_used_counts_chains,
};
use crate::net::rx::{deferred_first, rx_expects, rx_next, RxAction, RxEvent, RxPhase, RxState};
use crate::net::tx::{tx_expects, tx_next, TxAction, TxEvent, TxPhase, TxState};
use crate::net::MAX_BUFFER_SIZE;
use crate::queue::{
    enabling_last_leaves_notifications_on, Descriptor, DescriptorChain, Queue, QueueError,
};

verus! {

/// What receiving works on: the queue, and the accesses made so far.
pub type RxMemory = (Queue, Seq<Access>);

/// What transmitting works on: the queue, the accesses made so far, and the frame at hand.
pub type TxMemory = (Queue, Seq<Access>, Seq<u8>);

/// The worker does this itself.
pub open spec fn rx_in_memory(action: RxAction) -> bool {
    action is Disable || action is Deliver || action is Enable
}

/// The worker does this itself.
pub open spec fn tx_in_memory(action: TxAction) -> bool {
    action is Disable || action is Pop || action is Return || action is Undo || action is Consider
        || action is Enable
}

/// What receiving waits for in this phase.
pub open spec fn rx_asks(phase: RxPhase, action: RxAction) -> bool {
    match action {
        RxAction::ReadFrame => phase is Reading,
        RxAction::Signal => phase is Signalling,
        RxAction::Done(_) => phase is Idle,
        RxAction::Disable => phase is Disabling,
        RxAction::Deliver => phase is Retrying || phase is Delivering,
        RxAction::Enable => phase is Enabling,
    }
}

/// What transmitting waits for in this phase.
pub open spec fn tx_asks(phase: TxPhase, action: TxAction) -> bool {
    match action {
        TxAction::AskUnfinished => phase is Asking,
        TxAction::FinishWrite => phase is Finishing,
        TxAction::WriteFrame => phase is Writing,
        TxAction::Signal => phase is Signalling,
        TxAction::Done => phase is Idle,
        TxAction::Disable => phase is Disabling,
        TxAction::Pop => phase is Popping,
        TxAction::Return(_) => phase is Returning,
        TxAction::Undo => phase is Undoing,
        TxAction::Consider => phase is Considering,
        TxAction::Report(_) => phase is Reporting,
        TxAction::Enable => phase is Enabling,
    }
}

/// How many steps in memory may still follow before the caller is asked for something.
pub open spec fn rx_rank(phase: RxPhase) -> nat {
    match phase {
        RxPhase::Disabling => 3,
        RxPhase::Retrying => 2,
        RxPhase::Delivering { .. } => 2,
        RxPhase::Enabling { .. } => 1,
        _ => 0,
    }
}

/// How many steps in memory may still follow before the caller is asked for something.
pub open spec fn tx_rank(phase: TxPhase) -> nat {
    match phase {
        TxPhase::Returning { .. } => 5,
        TxPhase::Undoing { .. } => 5,
        TxPhase::Popping { .. } => 4,
        TxPhase::Considering { .. } => 3,
        TxPhase::Enabling { .. } => 2,
        TxPhase::Disabling => 1,
        _ => 0,
    }
}

/// A way in which the step `action` of receiving may go, with `frame` at hand: from `m0` to `m1`,
/// with `event` as the outcome.
pub open spec fn rx_step_may(
    space: Set<u64>,
    frame: Seq<u8>,
    action: RxAction,
    m0: RxMemory,
    event: RxEvent,
    m1: RxMemory,
) -> bool {
    match action {
        RxAction::Disable => {
            &&& event == RxEvent::Disabled
            &&& m1 == (m0.0, m0.0.notification_set(space, m0.1, false).0)
        },
        RxAction::Deliver => exists|ok: bool|
            {
                &&& event == (RxEvent::Delivered {
                    ok,
                    used: m1.0.next_used != m0.0.next_used,
                })
                &&& #[trigger] deliveries_may(
                    space,
                    frame,
                    m0.0.ring() as nat,
                    m0.0,
                    m0.1,
                    m1.0,
                    m1.1,
                    ok,
                )
            },
        RxAction::Enable => exists|idx: u16|
            {
                &&& event == RxEvent::Enabled
                &&& m1 == (m0.0, (#[trigger] m0.0.notification_enabled(space, m0.1, idx)).0)
            },
        _ => false,
    }
}

/// The queue and the accesses after `chain` was taken and its frame loaded: a way in which that
/// may go.
pub open spec fn tx_pop_may(
    space: Set<u64>,
    m0: TxMemory,
    t: Seq<Access>,
    chain: Option<(u16, Seq<Descriptor>)>,
    frame: Seq<u8>,
    event: TxEvent,
    m1: TxMemory,
) -> bool {
    match chain {
        None => event == TxEvent::Popped(None) && m1 == (m0.0, t, m0.2),
        Some((head, ds)) => {
            &&& event == TxEvent::Popped(Some(head))
            &&& m1.0 == Queue { next_avail: m0.0.next_avail.wrapping_add(1), ..m0.0 }
            &&& gather_may(space, t, ds, MAX_BUFFER_SIZE as nat, m1.1, frame)
            &&& m1.2 == finalized(frame)
        },
    }
}

/// A way in which the step `action` of transmitting may go: from `m0` to `m1`, with `event` as
/// the outcome.
pub open spec fn tx_step_may(
    space: Set<u64>,
    action: TxAction,
    m0: TxMemory,
    event: TxEvent,
    m1: TxMemory,
) -> bool {
    match action {
        TxAction::Disable => {
            &&& event == TxEvent::Disabled
            &&& m1 == (m0.0, m0.0.notification_set(space, m0.1, false).0, m0.2)
        },
        TxAction::Pop => exists|
            t: Seq<Access>,
            chain: Option<(u16, Seq<Descriptor>)>,
            frame: Seq<u8>,
        |
            {
                &&& m0.0.pop_may(space, m0.1, t, chain)
                &&& #[trigger] tx_pop_may(space, m0, t, chain, frame, event, m1)
            },
        TxAction::Return(head) => {
            let (q, t, r) = m0.0.used_added(space, m0.1, head, 0);
            event == TxEvent::Returned(r) && m1 == (q, t, m0.2)
        },
        TxAction::Undo => {
            &&& event == TxEvent::Undone
            &&& m1 == (
                Queue { next_avail: m0.0.next_avail.wrapping_sub(1), ..m0.0 },
                m0.1,
                m0.2,
            )
        },
        TxAction::Consider => exists|position: u16|
            {
                let (t, r) = #[trigger] m0.0.notification_needed(space, m0.1, position);
                &&& r is Ok
                &&& event == TxEvent::Needed(r->Ok_0)
                &&& m1 == (
                    Queue {
                        num_added: if m0.0.event_idx_enabled {
                            0
                        } else {
                            m0.0.num_added
                        },
                        ..m0.0
                    },
                    t,
                    m0.2,
                )
            },
        TxAction::Enable => exists|idx: u16|
            {
                let (t, r) = #[trigger] m0.0.notification_enabled(space, m0.1, idx);
                &&& r is Ok
                &&& event == TxEvent::Enabled(r->Ok_0)
                &&& m1 == (m0.0, t, m0.2)
            },
        _ => false,
    }
}

/// A way in which receiving may go on from state `s.0` with `s.1` to do, through steps in memory
/// alone, up to what the caller is asked for next.
pub open spec fn rx_settles(
    space: Set<u64>,
    frame: Seq<u8>,
    s: (RxState, RxAction),
    m: RxMemory,
    s1: (RxState, RxAction),
    m1: RxMemory,
) -> bool
    decreases rx_rank(s.0.phase),
{
    if !rx_in_memory(s.1) {
        s1 == s && m1 == m
    } else {
        exists|event: RxEvent, n: RxMemory|
            {
                &&& #[trigger] rx_step_may(space, frame, s.1, m, event, n)
                &&& if rx_rank(rx_next(s.0, event).0.phase) < rx_rank(s.0.phase) {
                    rx_settles(space, frame, rx_next(s.0, event), n, s1, m1)
                } else {
                    false
                }
            }
    }
}

/// A way in which transmitting may go on from state `s.0` with `s.1` to do, through steps in
/// memory alone, up to what the caller is asked for next.
pub open spec fn tx_settles(
    space: Set<u64>,
    s: (TxState, TxAction),
    m: TxMemory,
    s1: (TxState, TxAction),
    m1: TxMemory,
) -> bool
    decreases tx_rank(s.0.phase),
{
    if !tx_in_memory(s.1) {
        s1 == s && m1 == m
    } else {
        exists|event: TxEvent, n: TxMemory|
            {
                &&& #[trigger] tx_step_may(space, s.1, m, event, n)
                &&& if tx_rank(tx_next(s.0, event).0.phase) < tx_rank(s.0.phase) {
                    tx_settles(space, tx_next(s.0, event), n, s1, m1)
                } else {
                    false
                }
            }
    }
}

/// A run of receiving that has ended has left notifications on: the guest can wake the device when
/// it adds buffers, also for a frame that was deferred.
pub proof fn finished_rx_leaves_notifications_on(
    space: Set<u64>,
    frame: Seq<u8>,
    s: (RxState, RxAction),
    m: RxMemory,
    s1: (RxState, RxAction),
    m1: RxMemory,
)
    requires
        rx_settles(space, frame, s, m, s1, m1),
        rx_asks(s.0.phase, s.1),
        rx_in_memory(s.1),
        s1.1 is Done,
        m.0.notifies(space),
    ensures
        m1.0.notifications_on(m1.1),
    decreases rx_rank(s.0.phase),
{
    let (event, n) = choose|event: RxEvent, n: RxMemory|
        {
            &&& #[trigger] rx_step_may(space, frame, s.1, m, event, n)
            &&& if rx_rank(rx_next(s.0, event).0.phase) < rx_rank(s.0.phase) {
                rx_settles(space, frame, rx_next(s.0, event), n, s1, m1)
            } else {
                false
            }
        };
    let next = rx_next(s.0, event);
    if s.1 is Enable {
        let idx = choose|idx: u16|
            n == (m.0, (#[trigger] m.0.notification_enabled(space, m.1, idx)).0);
        enabling_last_leaves_notifications_on(m.0, space, m.1, idx);
        assert(next.1 is Done);
    } else {
        if s.1 is Deliver {
            let ok = choose|ok: bool|
                #[trigger] deliveries_may(
                    space,
                    frame,
                    m.0.ring() as nat,
                    m.0,
                    m.1,
                    n.0,
                    n.1,
                    ok,
                ) && event == (RxEvent::Delivered {
                    ok,
                    used: n.0.next_used != m.0.next_used,
                });
            deliveries_keep_queue(space, frame, m.0.ring() as nat, m.0, m.1, n.0, n.1, ok);
        }
        assert(m.0.same_queue(n.0));
        finished_rx_leaves_notifications_on(space, frame, next, n, s1, m1);
    }
}

/// A round of transmitting that has ended has left notifications on.
pub proof fn finished_tx_leaves_notifications_on(
    space: Set<u64>,
    s: (TxState, TxAction),
    m: TxMemory,
    s1: (TxState, TxAction),
    m1: TxMemory,
)
    requires
        tx_settles(space, s, m, s1, m1),
        tx_asks(s.0.phase, s.1),
        tx_in_memory(s.1),
        s1.1 is Done,
        m.0.notifies(space),
    ensures
        m1.0.notifications_on(m1.1),
    decreases tx_rank(s.0.phase),
{
    let (event, n) = choose|event: TxEvent, n: TxMemory|
        {
            &&& #[trigger] tx_step_may(space, s.1, m, event, n)
            &&& if tx_rank(tx_next(s.0, event).0.phase) < tx_rank(s.0.phase) {
                tx_settles(space, tx_next(s.0, event), n, s1, m1)
            } else {
                false
            }
        };
    let next = tx_next(s.0, event);
    if s.1 is Enable && next.1 is Done {
        let idx = choose|idx: u16|
            {
                let (t, r) = #[trigger] m.0.notification_enabled(space, m.1, idx);
                &&& r is Ok
                &&& event == TxEvent::Enabled(r->Ok_0)
                &&& n == (m.0, t, m.2)
            };
        enabling_last_leaves_notifications_on(m.0, space, m.1, idx);
    } else {
        tx_step_keeps_queue(space, s.1, m, event, n);
        finished_tx_leaves_notifications_on(space, next, n, s1, m1);
    }
}

/// A step of transmitting does not change how the queue is set up.
proof fn tx_step_keeps_queue(
    space: Set<u64>,
    action: TxAction,
    m0: TxMemory,
    event: TxEvent,
    m1: TxMemory,
)
    requires
        tx_step_may(space, action, m0, event, m1),
    ensures
        m0.0.same_queue(m1.0),
{
}

/// The worker of a network device.
pub struct NetWorker {
    pub rx_q: Queue,
    pub tx_q: Queue,
    pub mem: GuestMemoryMmap<()>,
    /// The frame for the guest, with its virtio header.
    pub rx_frame_buf: Vec<u8>,
    pub rx_frame_buf_len: usize,
    pub rx: RxState,
    /// The frame for the backend, with its virtio header.
    pub tx_frame_buf: Vec<u8>,
    pub tx_frame_len: usize,
    pub tx: TxState,
}

impl NetWorker {
    /// Both buffers have their size, the frames in them fit, and while a frame waits for the guest
    /// no other one is at hand.
    pub open spec fn wf(self) -> bool {
        &&& deferred_first(self.rx)
        &&& self.rx_frame_buf@.len() == MAX_BUFFER_SIZE
        &&& self.rx_frame_buf_len <= MAX_BUFFER_SIZE
        &&& self.tx_frame_buf@.len() == MAX_BUFFER_SIZE
        &&& self.tx_frame_len <= MAX_BUFFER_SIZE
    }

    /// The frame for the guest.
    pub open spec fn rx_frame(self) -> Seq<u8> {
        self.rx_frame_buf@.take(self.rx_frame_buf_len as int)
    }

    /// The frame for the backend.
    pub open spec fn tx_frame(self) -> Seq<u8> {
        self.tx_frame_buf@.take(self.tx_frame_len as int)
    }

    /// What receiving works on.
    pub open spec fn rx_memory(self) -> RxMemory {
        (self.rx_q, accesses(self.mem))
    }

    /// What transmitting works on.
    pub open spec fn tx_memory(self) -> TxMemory {
        (self.tx_q, accesses(self.mem), self.tx_frame())
    }

    /// A worker with empty buffers and nothing going on.
    pub fn new(rx_q: Queue, tx_q: Queue, mem: GuestMemoryMmap<()>) -> (r: NetWorker)
        ensures
            r.wf(),
            r.rx_q == rx_q,
            r.tx_q == tx_q,
            r.mem == mem,
            r.rx_frame_buf@ == Seq::new(MAX_BUFFER_SIZE as nat, |i: int| 0u8),
            r.rx_frame_buf_len == 0,
            r.rx == (RxState { phase: RxPhase::Idle, deferred: false }),
            r.tx_frame_buf@ == Seq::new(MAX_BUFFER_SIZE as nat, |i: int| 0u8),
            r.tx_frame_len == 0,
            r.tx == (TxState { phase: TxPhase::Idle, deferred: false }),
    {
        let rx_frame_buf: Vec<u8> = vec![0u8; MAX_BUFFER_SIZE];
        let tx_frame_buf: Vec<u8> = vec![0u8; MAX_BUFFER_SIZE];
        assert(rx_frame_buf@ =~= Seq::new(MAX_BUFFER_SIZE as nat, |i: int| 0u8));
        assert(tx_frame_buf@ =~= Seq::new(MAX_BUFFER_SIZE as nat, |i: int| 0u8));
        NetWorker {
            rx_q,
            tx_q,
            mem,
            rx_frame_buf,
            rx_frame_buf_len: 0,
            rx: RxState::new(),
            tx_frame_buf,
            tx_frame_len: 0,
            tx: TxState::new(),
        }
    }

    /// Does the steps of receiving that happen in memory.
    fn settle_rx(&mut self, action: RxAction) -> (r: RxAction)
        requires
            old(self).wf(),
            rx_asks(old(self).rx.phase, action),
        ensures
            final(self).wf(),
            !rx_in_memory(r),
            rx_asks(final(self).rx.phase, r),
            guest_regions(final(self).mem) == guest_regions(old(self).mem),
            final(self).tx_q == old(self).tx_q,
            final(self).rx_frame_buf == old(self).rx_frame_buf,
            final(self).rx_frame_buf_len == old(self).rx_frame_buf_len,
            final(self).tx_frame_buf == old(self).tx_frame_buf,
            final(self).tx_frame_len == old(self).tx_frame_len,
            final(self).tx == old(self).tx,
            rx_settles(
                guest_addresses(old(self).mem),
                old(self).rx_frame(),
                (old(self).rx, action),
                old(self).rx_memory(),
                (final(self).rx, r),
                final(self).rx_memory(),
            ),
        decreases rx_rank(old(self).rx.phase),
    {
        let ghost space = guest_addresses(self.mem);
        let ghost frame = self.rx_frame();
        let ghost m0 = self.rx_memory();
        let ghost s0 = self.rx;
        let event: RxEvent = match action {
            RxAction::Disable => {
                let _ = self.rx_q.disable_notification(&mut self.mem);
                assert(rx_step_may(
                    space,
                    frame,
                    action,
                    m0,
                    RxEvent::Disabled,
                    self.rx_memory(),
                ));
                RxEvent::Disabled
            },
            RxAction::Deliver => {
                let next_used: u16 = self.rx_q.next_used;
                let ok: bool = deliver(
                    &mut self.rx_q,
                    &mut self.mem,
                    &self.rx_frame_buf,
                    self.rx_frame_buf_len,
                );
                let used: bool = self.rx_q.next_used != next_used;
                proof {
                    let m1 = self.rx_memory();
                    let tries = m0.0.ring() as nat;
                    assert(deliveries_may(space, frame, tries, m0.0, m0.1, m1.0, m1.1, ok));
                    next_used_counts_chains(space, frame, tries, m0.0, m0.1, m1.0, m1.1, ok);
                    assert(rx_step_may(
                        space,
                        frame,
                        action,
                        m0,
                        RxEvent::Delivered { ok, used },
                        m1,
                    ));
                }
                RxEvent::Delivered { ok, used }
            },
            RxAction::Enable => {
                let _ = self.rx_q.enable_notification(&mut self.mem);
                let ghost idx = choose|idx: u16|
                    accesses(self.mem) == (#[trigger] m0.0.notification_enabled(
                        space,
                        m0.1,
                        idx,
                    )).0;
                assert(self.rx_memory() == (
                    m0.0,
                    m0.0.notification_enabled(space, m0.1, idx).0,
                ));
                assert(rx_step_may(
                    space,
                    frame,
                    action,
                    m0,
                    RxEvent::Enabled,
                    self.rx_memory(),
                ));
                RxEvent::Enabled
            },
            other => {
                return other;
            },
        };
        assert(rx_step_may(space, frame, action, m0, event, self.rx_memory()));
        let (state, next) = self.rx.next(event);
        self.rx = state;
        self.settle_rx(next)
    }

    /// Goes on receiving after `event`. What is returned the caller has to do next; with
    /// `ReadFrame`, a frame is to be read into `rx_buffer`.
    pub fn process_rx(&mut self, event: RxEvent) -> (r: RxAction)
        requires
            old(self).wf(),
            rx_expects(old(self).rx.phase, event),
            event matches RxEvent::FrameRead(n) ==> n <= MAX_BUFFER_SIZE,
        ensures
            final(self).wf(),
            !rx_in_memory(r),
            rx_asks(final(self).rx.phase, r),
            guest_regions(final(self).mem) == guest_regions(old(self).mem),
            final(self).tx_q == old(self).tx_q,
            final(self).rx_frame_buf == old(self).rx_frame_buf,
            final(self).rx_frame_buf_len == (match event {
                RxEvent::FrameRead(n) => n,
                _ => old(self).rx_frame_buf_len,
            }),
            final(self).tx_frame_buf == old(self).tx_frame_buf,
            final(self).tx_frame_len == old(self).tx_frame_len,
            final(self).tx == old(self).tx,
            rx_settles(
                guest_addresses(old(self).mem),
                final(self).rx_frame(),
                rx_next(old(self).rx, event),
                old(self).rx_memory(),
                (final(self).rx, r),
                final(self).rx_memory(),
            ),
    {
        match event {
            RxEvent::FrameRead(n) => {
                self.rx_frame_buf_len = n;
            },
            _ => {},
        }
        let (state, action) = self.rx.next(event);
        self.rx = state;
        self.settle_rx(action)
    }

    /// The buffer that the backend reads frames into.
    pub fn rx_buffer(&mut self) -> (buf: &mut [u8])
        requires
            old(self).wf(),
        ensures
            buf@ == old(self).rx_frame_buf@,
            final(buf)@ == final(self).rx_frame_buf@,
            final(buf)@.len() == buf@.len() ==> final(self).wf(),
            *final(self) == (NetWorker {
                rx_frame_buf: final(self).rx_frame_buf,
                ..*old(self)
            }),
    {
        self.rx_frame_buf.as_mut_slice()
    }

    /// Takes the next chain of the transmit queue and loads its frame, with its checksum completed
    /// where the guest asks for that.
    fn pop_tx(&mut self) -> (event: TxEvent)
        requires
            old(self).wf(),
        ensures
            final(self).wf(),
            guest_regions(final(self).mem) == guest_regions(old(self).mem),
            final(self).rx_q == old(self).rx_q,
            final(self).rx_frame_buf == old(self).rx_frame_buf,
            final(self).rx_frame_buf_len == old(self).rx_frame_buf_len,
            final(self).rx == old(self).rx,
            final(self).tx == old(self).tx,
            event is Popped,
            tx_step_may(
                guest_addresses(old(self).mem),
                TxAction::Pop,
                old(self).tx_memory(),
                event,
                final(self).tx_memory(),
            ),
    {
        let ghost space = guest_addresses(self.mem);
        let ghost m0 = self.tx_memory();
        let chain: DescriptorChain = match self.tx_q.pop(&mut self.mem) {
            Some(chain) => chain,
            None => {
                let ghost none: Option<(u16, Seq<Descriptor>)> = None;
                assert(m0.0.pop_may(space, m0.1, accesses(self.mem), none));
                assert(tx_pop_may(
                    space,
                    m0,
                    accesses(self.mem),
                    none,
                    Seq::empty(),
                    TxEvent::Popped(None),
                    self.tx_memory(),
                ));
                return TxEvent::Popped(None);
            },
        };
        let ghost t = accesses(self.mem);
        let ghost taken = Some((chain.index, chain.descriptors@));
        assert(m0.0.pop_may(space, m0.1, t, taken));
        let len: usize = gather_frame(&mut self.mem, &mut self.tx_frame_buf, &chain.descriptors);
        let ghost frame = self.tx_frame_buf@.take(len as int);
        let (head_part, _) = self.tx_frame_buf.as_mut_slice().split_at_mut(len);
        finalize_checksum(head_part);
        self.tx_frame_len = len;
        proof {
            assert(self.tx_frame_buf@.take(len as int) =~= finalized(frame));
            assert(tx_pop_may(
                space,
                m0,
                t,
                taken,
                frame,
                TxEvent::Popped(Some(chain.index)),
                self.tx_memory(),
            ));
        }
        TxEvent::Popped(Some(chain.index))
    }

    /// Does the steps of transmitting that happen in memory.
    fn settle_tx(&mut self, action: TxAction) -> (r: TxAction)
        requires
            old(self).wf(),
            tx_asks(old(self).tx.phase, action),
            old(self).tx_q.notifies(guest_addresses(old(self).mem)),
        ensures
            final(self).wf(),
            !tx_in_memory(r),
            tx_asks(final(self).tx.phase, r),
            guest_regions(final(self).mem) == guest_regions(old(self).mem),
            final(self).tx_q.notifies(guest_addresses(final(self).mem)),
            final(self).rx_q == old(self).rx_q,
            final(self).rx_frame_buf == old(self).rx_frame_buf,
            final(self).rx_frame_buf_len == old(self).rx_frame_buf_len,
            final(self).rx == old(self).rx,
            tx_settles(
                guest_addresses(old(self).mem),
                (old(self).tx, action),
                old(self).tx_memory(),
                (final(self).tx, r),
                final(self).tx_memory(),
            ),
        decreases tx_rank(old(self).tx.phase),
    {
        let ghost space = guest_addresses(self.mem);
        let ghost m0 = self.tx_memory();
        let event: TxEvent = match action {
            TxAction::Disable => {
                let _ = self.tx_q.disable_notification(&mut self.mem);
                assert(tx_step_may(space, action, m0, TxEvent::Disabled, self.tx_memory()));
                TxEvent::Disabled
            },
            TxAction::Pop => self.pop_tx(),
            TxAction::Return(head) => {
                let returned: Result<(), QueueError> = self.tx_q.add_used(&mut self.mem, head, 0);
                assert(tx_step_may(
                    space,
                    action,
                    m0,
                    TxEvent::Returned(returned),
                    self.tx_memory(),
                ));
                TxEvent::Returned(returned)
            },
            TxAction::Undo => {
                self.tx_q.undo_pop();
                assert(tx_step_may(space, action, m0, TxEvent::Undone, self.tx_memory()));
                TxEvent::Undone
            },
            TxAction::Consider => {
                let r: Result<bool, QueueError> = self.tx_q.needs_notification(&mut self.mem);
                let ghost position = choose|position: u16|
                    (accesses(self.mem), r) == #[trigger] m0.0.notification_needed(
                        space,
                        m0.1,
                        position,
                    );
                proof {
                    assert(m0.0.notification_needed(space, m0.1, position) == (
                        accesses(self.mem),
                        r,
                    ));
                }
                let needed: bool = match r {
                    Ok(needed) => needed,
                    Err(_) => false,
                };
                assert(tx_step_may(space, action, m0, TxEvent::Needed(needed), self.tx_memory()));
                TxEvent::Needed(needed)
            },
            TxAction::Enable => {
                let r: Result<bool, QueueError> = self.tx_q.enable_notification(&mut self.mem);
                let ghost idx = choose|idx: u16|
                    (accesses(self.mem), r) == #[trigger] m0.0.notification_enabled(
                        space,
                        m0.1,
                        idx,
                    );
                proof {
                    assert(m0.0.notification_enabled(space, m0.1, idx) == (accesses(self.mem), r));
                }
                let waiting: bool = match r {
                    Ok(waiting) => waiting,
                    Err(_) => false,
                };
                assert(tx_step_may(space, action, m0, TxEvent::Enabled(waiting), self.tx_memory()));
                TxEvent::Enabled(waiting)
            },
            other => {
                return other;
            },
        };
        proof {
            tx_step_keeps_queue(space, action, m0, event, self.tx_memory());
        }
        let (state, next) = self.tx.next(event);
        self.tx = state;
        self.settle_tx(next)
    }

    /// Goes on transmitting after `event`. What is returned the caller has to do next; with
    /// `WriteFrame` and `FinishWrite`, the frame is in `tx_buffer`.
    pub fn process_tx_loop(&mut self, event: TxEvent) -> (r: TxAction)
        requires
            old(self).wf(),
            tx_expects(old(self).tx.phase, event),
            old(self).tx_q.notifies(guest_addresses(old(self).mem)),
        ensures
            final(self).wf(),
            !tx_in_memory(r),
            tx_asks(final(self).tx.phase, r),
            guest_regions(final(self).mem) == guest_regions(old(self).mem),
            final(self).tx_q.notifies(guest_addresses(final(self).mem)),
            final(self).rx_q == old(self).rx_q,
            final(self).rx_frame_buf == old(self).rx_frame_buf,
            final(self).rx_frame_buf_len == old(self).rx_frame_buf_len,
            final(self).rx == old(self).rx,
            tx_settles(
                guest_addresses(old(self).mem),
                tx_next(old(self).tx, event),
                (
                    old(self).tx_q,
                    accesses(old(self).mem),
                    match event {
                        TxEvent::Written(Ok(_)) => Seq::empty(),
                        _ => old(self).tx_frame(),
                    },
                ),
                (final(self).tx, r),
                final(self).tx_memory(),
            ),
    {
        match event {
            TxEvent::Written(Ok(_)) => {
                self.tx_frame_len = 0;
                assert(self.tx_frame() =~= Seq::empty());
            },
            _ => {},
        }
        let (state, action) = self.tx.next(event);
        self.tx = state;
        self.settle_tx(action)
    }

    /// The frame for the backend.
    pub fn tx_buffer(&mut self) -> (buf: &mut [u8])
        requires
            old(self).wf(),
        ensures
            buf@ == old(self).tx_frame(),
            final(buf)@.len() == buf@.len() ==> final(self).wf(),
            final(self).tx_frame_buf@ == final(buf)@ + old(self).tx_frame_buf@.skip(
                old(self).tx_frame_len as int,
            ),
            *final(self) == (NetWorker {
                tx_frame_buf: final(self).tx_frame_buf,
                ..*old(self)
            }),
    {
        let (head_part, _) = self.tx_frame_buf.as_mut_slice().split_at_mut(self.tx_frame_len);
        head_part
    }
}

} // verus!
