//! What the worker does about the events on its file descriptors.

use vstd::prelude::*;

use crate::epoll::{
    EventSet, EVENT_EDGE_TRIGGERED, EVENT_HANG_UP, EVENT_IN, EVENT_OUT, EVENT_READ_HANG_UP,
};
use crate::net::tx::WriteError;
use crate::platform::Platform;

verus! {

/// Stands for the timer that retries a deferred frame, in place of a file descriptor.
pub const TX_TIMER_FD: i32 = -2;

/// The file descriptors of a worker.
#[derive(Clone, Copy, Debug, PartialEq, Eq, Structural)]
pub struct WorkerFds {
    /// The guest filled the receive queue.
    pub rx_queue: i32,
    /// The guest filled the transmit queue.
    pub tx_queue: i32,
    /// The socket of the backend.
    pub backend: i32,
    /// The worker is to stop.
    pub stop: i32,
}

/// What is to be done about an event.
#[derive(Clone, Copy, Debug, PartialEq, Eq, Structural)]
pub enum WorkerTask {
    /// End the worker.
    Stop,
    /// Receive, as the guest has made buffers available.
    ReceiveForQueue,
    /// Transmit, as the guest has made frames available.
    TransmitForQueue,
    /// Report that the backend is gone.
    ReportHangUp,
    /// Receive if the backend can be read, and go on transmitting if it can be written.
    ServeBackend { readable: bool, writeable: bool },
    /// Transmit, as the retry timer has run out.
    TransmitForTimer,
    /// Report an event that nobody waits for.
    ReportUnknown,
}

/// What is to be done about the events `set` on the descriptor `source`.
pub open spec fn task_for(
    platform: Platform,
    fds: WorkerFds,
    source: i32,
    set: EventSet,
) -> WorkerTask {
    if set.bits == EVENT_IN && source == fds.stop {
        WorkerTask::Stop
    } else if set.bits == EVENT_IN && source == fds.rx_queue {
        WorkerTask::ReceiveForQueue
    } else if set.bits == EVENT_IN && source == fds.tx_queue {
        WorkerTask::TransmitForQueue
    } else if source == fds.backend {
        if set.has(EVENT_HANG_UP) || set.has(EVENT_READ_HANG_UP) {
            WorkerTask::ReportHangUp
        } else {
            WorkerTask::ServeBackend { readable: set.has(EVENT_IN), writeable: set.has(EVENT_OUT) }
        }
    } else if platform == Platform::MacOs && set.bits == 0 && source == TX_TIMER_FD {
        WorkerTask::TransmitForTimer
    } else {
        WorkerTask::ReportUnknown
    }
}

/// What is to be done about the events `set` on the descriptor `source`.
pub fn dispatch(platform: Platform, fds: WorkerFds, source: i32, set: EventSet) -> (r: WorkerTask)
    ensures
        r == task_for(platform, fds, source, set),
{
    let only_in: bool = set.bits == EVENT_IN;
    if only_in && source == fds.stop {
        WorkerTask::Stop
    } else if only_in && source == fds.rx_queue {
        WorkerTask::ReceiveForQueue
    } else if only_in && source == fds.tx_queue {
        WorkerTask::TransmitForQueue
    } else if source == fds.backend {
        if set.contains(EVENT_HANG_UP) || set.contains(EVENT_READ_HANG_UP) {
            WorkerTask::ReportHangUp
        } else {
            WorkerTask::ServeBackend {
                readable: set.contains(EVENT_IN),
                writeable: set.contains(EVENT_OUT),
            }
        }
    } else if platform == Platform::MacOs && set.is_empty() && source == TX_TIMER_FD {
        WorkerTask::TransmitForTimer
    } else {
        WorkerTask::ReportUnknown
    }
}

/// The events that the worker waits for on each of its descriptors.
pub fn interest_list(fds: WorkerFds) -> (r: Vec<(i32, EventSet)>)
    ensures
        r@ == seq![
            (fds.rx_queue, EventSet { bits: EVENT_IN }),
            (fds.tx_queue, EventSet { bits: EVENT_IN }),
            (
                fds.backend,
                EventSet {
                    bits: EVENT_IN | EVENT_OUT | EVENT_EDGE_TRIGGERED | EVENT_READ_HANG_UP,
                },
            ),
            (fds.stop, EventSet { bits: EVENT_IN }),
        ],
        forall|i: int| 0 <= i < 4 && i != 2 ==> (#[trigger] r@[i]).1.bits == 1,
        r@[2].1.bits == 0x8000_2005,
{
    proof {
        assert(1u32 | 4u32 | 0x8000_0000u32 | 0x2000u32 == 0x8000_2005u32) by (bit_vector);
    }
    let mut r: Vec<(i32, EventSet)> = Vec::with_capacity(4);
    r.push((fds.rx_queue, EventSet::new(EVENT_IN)));
    r.push((fds.tx_queue, EventSet::new(EVENT_IN)));
    r.push(
        (
            fds.backend,
            EventSet::new(EVENT_IN | EVENT_OUT | EVENT_EDGE_TRIGGERED | EVENT_READ_HANG_UP),
        ),
    );
    r.push((fds.stop, EventSet::new(EVENT_IN)));
    assert(r@ =~= seq![
        (fds.rx_queue, EventSet { bits: EVENT_IN }),
        (fds.tx_queue, EventSet { bits: EVENT_IN }),
        (
            fds.backend,
            EventSet { bits: EVENT_IN | EVENT_OUT | EVENT_EDGE_TRIGGERED | EVENT_READ_HANG_UP },
        ),
        (fds.stop, EventSet { bits: EVENT_IN }),
    ]);
    r
}

/// The delay after which a deferred frame is offered to the backend again, once all events have
/// been dealt with: only where the platform has no event for it, and the backend names a delay.
pub fn retry_timer(platform: Platform, deferred: bool, delay_us: u64) -> (r: Option<u64>)
    ensures
        r == (if platform == Platform::MacOs && deferred && delay_us > 0 {
            Some(delay_us)
        } else {
            None
        }),
{
    if platform == Platform::MacOs && deferred && delay_us > 0 {
        Some(delay_us)
    } else {
        None
    }
}

/// Whether transmitting goes on after the backend was asked to finish a half written frame, as its
/// socket can be written: only if it did finish it.
pub fn goes_on_after_finish(finished: Result<(), WriteError>) -> (r: bool)
    ensures
        r == (finished is Ok),
{
    match finished {
        Ok(_) => true,
        Err(_) => false,
    }
}

/// A worker that is told to stop stops, whatever its other descriptors are.
pub proof fn stop_is_obeyed(platform: Platform, fds: WorkerFds)
    ensures
        task_for(platform, fds, fds.stop, EventSet { bits: EVENT_IN }) == WorkerTask::Stop,
{
}

/// Once the backend has hung up, its socket is neither read nor written any more.
pub proof fn hung_up_backend_is_not_served(platform: Platform, fds: WorkerFds, set: EventSet)
    requires
        set.has(EVENT_HANG_UP) || set.has(EVENT_READ_HANG_UP),
    ensures
        !(task_for(platform, fds, fds.backend, set) is ServeBackend),
{
}

/// The set holds the event of the given bit.
pub open spec fn bit_set(set: EventSet, mask: u32) -> bool {
    set.bits & mask != 0
}

/// An event of one bit is in a set exactly if its bit is.
proof fn one_bit_is_all_or_nothing(set: EventSet)
    ensures
        set.has(EVENT_IN) == bit_set(set, 0x1),
        set.has(EVENT_OUT) == bit_set(set, 0x4),
        set.has(EVENT_HANG_UP) == bit_set(set, 0x10),
        set.has(EVENT_READ_HANG_UP) == bit_set(set, 0x2000),
{
    let bits = set.bits;
    assert((bits & 0x1 == 0x1) == (bits & 0x1 != 0)) by (bit_vector);
    assert((bits & 0x4 == 0x4) == (bits & 0x4 != 0)) by (bit_vector);
    assert((bits & 0x10 == 0x10) == (bits & 0x10 != 0)) by (bit_vector);
    assert((bits & 0x2000 == 0x2000) == (bits & 0x2000 != 0)) by (bit_vector);
}

/// Three of the descriptors are only ever waited for to become readable: then, and only if nothing
/// else is the matter with them, each leads to its task, and stopping comes before all else.
pub proof fn readable_descriptors_lead_to_their_tasks(
    platform: Platform,
    fds: WorkerFds,
    source: i32,
    set: EventSet,
)
    ensures
        task_for(platform, fds, source, set) is Stop <==> set.bits == 1 && source == fds.stop,
        task_for(platform, fds, source, set) is ReceiveForQueue <==> set.bits == 1 && source
            == fds.rx_queue && source != fds.stop,
        task_for(platform, fds, source, set) is TransmitForQueue <==> set.bits == 1 && source
            == fds.tx_queue && source != fds.stop && source != fds.rx_queue,
{
}

/// The event is none of those that stop the worker or come from the queues.
pub open spec fn left_for_backend(fds: WorkerFds, source: i32, set: EventSet) -> bool {
    set.bits != 1 || (source != fds.stop && source != fds.rx_queue && source != fds.tx_queue)
}

/// Any event on the backend's socket is dealt with: that the backend is gone is reported, if either
/// bit says so; otherwise it is read exactly if it can be, and written exactly if it can be.
pub proof fn backend_is_served_as_it_is_ready(
    platform: Platform,
    fds: WorkerFds,
    source: i32,
    set: EventSet,
)
    requires
        source == fds.backend,
        left_for_backend(fds, source, set),
    ensures
        task_for(platform, fds, source, set) == if bit_set(set, 0x10) || bit_set(set, 0x2000) {
            WorkerTask::ReportHangUp
        } else {
            WorkerTask::ServeBackend { readable: bit_set(set, 0x1), writeable: bit_set(set, 0x4) }
        },
{
    one_bit_is_all_or_nothing(set);
}

/// What comes from no descriptor of the worker is reported, but for the retry timer where there is
/// one.
pub proof fn other_events_are_reported(
    platform: Platform,
    fds: WorkerFds,
    source: i32,
    set: EventSet,
)
    requires
        source != fds.backend,
        left_for_backend(fds, source, set),
    ensures
        task_for(platform, fds, source, set) == if platform is MacOs && set.bits == 0 && source
            == -2 {
            WorkerTask::TransmitForTimer
        } else {
            WorkerTask::ReportUnknown
        },
{
}

} // verus!
