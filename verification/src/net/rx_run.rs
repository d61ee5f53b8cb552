//! Whole runs of receiving, as the calls of `NetWorker::process_rx` that make them up.

use vstd::prelude::*;

use crate::guest::Access;
use crate::net::frame::{deliveries_may, next_used_counts_chains};
use crate::net::rx::{
    deferred_first, rx_expects, rx_next, RxAction, RxError, RxEvent, RxPhase, RxState,
};
use crate::net::worker::{rx_rank, rx_settles, rx_step_may, RxMemory};
use crate::queue::Queue;

verus! {

/// A call of `NetWorker::process_rx`.
pub struct RxCall {
    /// The state before the call.
    pub state: RxState,
    pub event: RxEvent,
    /// The frame that is at hand once the event has been noted.
    pub frame: Seq<u8>,
    /// The queue and the accesses before the call.
    pub before: RxMemory,
    /// The state after the call.
    pub next: RxState,
    /// What the call returned.
    pub action: RxAction,
    /// The queue and the accesses after the call.
    pub after: RxMemory,
}

/// The call may go like this.
pub open spec fn rx_call_may(space: Set<u64>, call: RxCall) -> bool {
    &&& rx_expects(call.state.phase, call.event)
    &&& deferred_first(call.state)
    &&& rx_settles(
        space,
        call.frame,
        rx_next(call.state, call.event),
        call.before,
        (call.next, call.action),
        call.after,
    )
}

/// `calls` are a run of receiving, or its beginning: each call goes on where the one before it
/// ended. The buffer changes only where a frame is to be read.
pub open spec fn rx_run(space: Set<u64>, calls: Seq<RxCall>) -> bool {
    &&& calls.len() > 0
    &&& calls[0].event is Start
    &&& forall|i: int| 0 <= i < calls.len() ==> rx_call_may(space, #[trigger] calls[i])
    &&& forall|i: int| 1 <= i < calls.len() ==> rx_follows(calls[i - 1], #[trigger] calls[i])
}

/// `call` comes next after `last` in a run.
pub open spec fn rx_follows(last: RxCall, call: RxCall) -> bool {
    &&& call.event !is Start
    &&& call.state == last.next
    &&& call.before == last.after
    &&& last.action is ReadFrame || call.frame == last.frame
}

/// The call delivered the frame at hand, the deferred one or the one that was read.
pub open spec fn rx_delivered(call: RxCall) -> bool {
    ||| call.event is Start && call.state.deferred && !call.next.deferred
    ||| call.event is FrameRead && !call.next.deferred
}

/// A chain went into the used ring in the call.
pub open spec fn rx_used(call: RxCall) -> bool {
    call.after.0.next_used != call.before.0.next_used
}

/// A chain went into the used ring in the run.
pub open spec fn any_used(calls: Seq<RxCall>) -> bool {
    exists|i: int| 0 <= i < calls.len() && rx_used(#[trigger] calls[i])
}

/// The queue and the accesses from which the call set out to deliver the frame at hand.
pub open spec fn deliver_from(space: Set<u64>, call: RxCall) -> RxMemory {
    if call.event is Start {
        (call.before.0, call.before.0.notification_set(space, call.before.1, false).0)
    } else {
        call.before
    }
}

/// A way in which the attempts of the call to deliver the frame at hand may go, with the queue `q`
/// and the accesses `t` afterwards.
pub open spec fn attempts_may(
    space: Set<u64>,
    call: RxCall,
    q: Queue,
    t: Seq<Access>,
    ok: bool,
) -> bool {
    let (q0, t0) = deliver_from(space, call);
    deliveries_may(space, call.frame, q0.ring() as nat, q0, t0, q, t, ok)
}

/// The frames that were delivered, in order.
pub open spec fn frames_delivered(calls: Seq<RxCall>) -> Seq<Seq<u8>>
    decreases calls.len(),
{
    if calls.len() == 0 {
        Seq::empty()
    } else if rx_delivered(calls.last()) {
        frames_delivered(calls.drop_last()).push(calls.last().frame)
    } else {
        frames_delivered(calls.drop_last())
    }
}

/// The frames that the backend gave, in order.
pub open spec fn frames_read(calls: Seq<RxCall>) -> Seq<Seq<u8>>
    decreases calls.len(),
{
    if calls.len() == 0 {
        Seq::empty()
    } else if calls.last().event is FrameRead {
        frames_read(calls.drop_last()).push(calls.last().frame)
    } else {
        frames_read(calls.drop_last())
    }
}

/// `frame` if it is deferred.
pub open spec fn if_deferred(deferred: bool, frame: Seq<u8>) -> Seq<Seq<u8>> {
    if deferred {
        seq![frame]
    } else {
        Seq::empty()
    }
}

/// How the run is to end, by what happened in it: reading from the backend or interrupting the
/// guest may have failed.
pub open spec fn rx_outcome(calls: Seq<RxCall>) -> Result<(), RxError>
    decreases calls.len(),
{
    if calls.len() == 0 {
        Ok(())
    } else if calls.last().event is ReadFailed {
        Err(RxError::Backend)
    } else if calls.last().event == RxEvent::Signalled(false) {
        Err(RxError::Device)
    } else {
        rx_outcome(calls.drop_last())
    }
}

/// The guest was interrupted.
pub open spec fn guest_signalled(calls: Seq<RxCall>) -> bool {
    exists|i: int| 0 <= i < calls.len() && (#[trigger] calls[i]).action is Signal
}

/// Where a call leads. If it delivers a frame, the attempts to do so are the last thing that it
/// does in memory, and one of them succeeds.
proof fn rx_call_leads(space: Set<u64>, call: RxCall)
    requires
        rx_call_may(space, call),
    ensures
        deferred_first(call.next),
        rx_delivered(call) ==> {
            &&& attempts_may(space, call, call.after.0, call.after.1, true)
            &&& rx_used(call)
            &&& call.next == (RxState { phase: RxPhase::Reading { signal: true }, deferred: false })
            &&& call.action is ReadFrame
        },
        !rx_delivered(call) ==> match (call.state.phase, call.event) {
            (_, RxEvent::Start) => if call.state.deferred {
                if rx_used(call) {
                    &&& call.next == (RxState {
                        phase: RxPhase::Signalling { result: Ok(()) },
                        deferred: true,
                    })
                    &&& call.action is Signal
                } else {
                    &&& call.next == (RxState { phase: RxPhase::Idle, deferred: true })
                    &&& call.action == RxAction::Done(Ok(()))
                }
            } else {
                &&& !rx_used(call)
                &&& call.next == (RxState {
                    phase: RxPhase::Reading { signal: false },
                    deferred: false,
                })
                &&& call.action is ReadFrame
            },
            (RxPhase::Reading { signal }, _) => {
                let deferred = call.event is FrameRead;
                let result: Result<(), RxError> = if call.event is ReadFailed {
                    Err(RxError::Backend)
                } else {
                    Ok(())
                };
                &&& rx_used(call) ==> call.event is FrameRead
                &&& if signal || rx_used(call) {
                    &&& call.next == (RxState { phase: RxPhase::Signalling { result }, deferred })
                    &&& call.action is Signal
                } else {
                    &&& call.next == (RxState { phase: RxPhase::Idle, deferred })
                    &&& call.action == RxAction::Done(result)
                }
            },
            (RxPhase::Signalling { result }, RxEvent::Signalled(signalled)) => {
                &&& !rx_used(call)
                &&& call.next == (RxState { phase: RxPhase::Idle, deferred: call.state.deferred })
                &&& call.action == RxAction::Done(
                    if signalled {
                        result
                    } else {
                        Err(RxError::Device)
                    },
                )
            },
            _ => call.event is Disabled || call.event is Delivered || call.event is Enabled,
        },
{
    reveal_with_fuel(rx_settles, 4);
    if rx_delivered(call) {
        assert(attempts_may(space, call, call.after.0, call.after.1, true));
        let (q0, t0) = deliver_from(space, call);
        next_used_counts_chains(
            space,
            call.frame,
            q0.ring() as nat,
            q0,
            t0,
            call.after.0,
            call.after.1,
            true,
        );
    }
}

/// A frame that counts as delivered has arrived: the last thing that the call did in memory is a
/// series of attempts with the frame at hand, of which one succeeded.
pub proof fn delivered_frame_is_in_the_guest(space: Set<u64>, call: RxCall)
    requires
        rx_call_may(space, call),
        rx_delivered(call),
    ensures
        attempts_may(space, call, call.after.0, call.after.1, true),
{
    rx_call_leads(space, call);
}

/// A frame is deferred only if none of the attempts to deliver it succeeded.
pub proof fn deferred_frame_found_no_room(space: Set<u64>, call: RxCall)
    requires
        rx_call_may(space, call),
        call.event is FrameRead || (call.event is Start && call.state.deferred),
        call.next.deferred,
    ensures
        exists|q: Queue, t: Seq<Access>| attempts_may(space, call, q, t, false),
{
    reveal_with_fuel(rx_settles, 2);
    let first = rx_next(call.state, call.event);
    let (event, m) = choose|event: RxEvent, m: RxMemory|
        {
            &&& #[trigger] rx_step_may(space, call.frame, first.1, call.before, event, m)
            &&& rx_rank(rx_next(first.0, event).0.phase) < rx_rank(first.0.phase)
            &&& rx_settles(
                space,
                call.frame,
                rx_next(first.0, event),
                m,
                (call.next, call.action),
                call.after,
            )
        };
    if call.event is Start {
        let second = rx_next(first.0, event);
        let (event2, m2) = choose|event2: RxEvent, m2: RxMemory|
            {
                &&& #[trigger] rx_step_may(space, call.frame, second.1, m, event2, m2)
                &&& rx_rank(rx_next(second.0, event2).0.phase) < rx_rank(second.0.phase)
                &&& rx_settles(
                    space,
                    call.frame,
                    rx_next(second.0, event2),
                    m2,
                    (call.next, call.action),
                    call.after,
                )
            };
        if event2 matches RxEvent::Delivered { ok, used: _ } && ok {
            assert(rx_delivered(call));
        }
        assert(attempts_may(space, call, m2.0, m2.1, false));
    } else {
        assert(attempts_may(space, call, m.0, m.1, false));
    }
}

/// The beginning of a run.
proof fn rx_run_before(space: Set<u64>, calls: Seq<RxCall>)
    requires
        rx_run(space, calls),
        calls.len() > 1,
    ensures
        rx_run(space, calls.drop_last()),
        rx_follows(calls.drop_last().last(), calls.last()),
        calls.drop_last()[0] == calls[0],
{
    let before = calls.drop_last();
    assert forall|i: int| 0 <= i < before.len() implies rx_call_may(
        space,
        #[trigger] before[i],
    ) by {
        assert(before[i] == calls[i]);
    }
    assert forall|i: int| 1 <= i < before.len() implies rx_follows(
        before[i - 1],
        #[trigger] before[i],
    ) by {
        assert(before[i] == calls[i]);
    }
    assert(rx_follows(calls[calls.len() - 2], calls[calls.len() - 1]));
}

/// No frame is lost, repeated or overtaken: at every point of a run, the frames that were delivered
/// and then the one that is left deferred are the frame that was deferred before the run and then
/// those that the backend gave.
pub proof fn frames_arrive_in_order(space: Set<u64>, calls: Seq<RxCall>)
    requires
        rx_run(space, calls),
    ensures
        frames_delivered(calls) + if_deferred(calls.last().next.deferred, calls.last().frame)
            == if_deferred(calls[0].state.deferred, calls[0].frame) + frames_read(calls),
    decreases calls.len(),
{
    let call = calls.last();
    let before = calls.drop_last();
    assert(rx_call_may(space, calls[calls.len() - 1]));
    rx_call_leads(space, call);
    if calls.len() == 1 {
        assert(before =~= Seq::empty());
        assert(frames_delivered(before) =~= Seq::empty());
        assert(frames_read(before) =~= Seq::empty());
    } else {
        rx_run_before(space, calls);
        frames_arrive_in_order(space, before);
        rx_run_position(space, before);
    }
    assert(frames_delivered(calls) + if_deferred(call.next.deferred, call.frame) =~= if_deferred(
        calls[0].state.deferred,
        calls[0].frame,
    ) + frames_read(calls));
}

/// Where a run stands: what its last call asks for, and what it knows of the calls before.
proof fn rx_run_position(space: Set<u64>, calls: Seq<RxCall>)
    requires
        rx_run(space, calls),
    ensures
        match calls.last().action {
            RxAction::ReadFrame => {
                &&& calls.last().next == (RxState {
                    phase: RxPhase::Reading { signal: any_used(calls) },
                    deferred: false,
                })
                &&& rx_outcome(calls) == Ok::<(), RxError>(())
                &&& !guest_signalled(calls)
            },
            RxAction::Signal => {
                &&& calls.last().next.phase == (RxPhase::Signalling { result: rx_outcome(calls) })
                &&& any_used(calls)
                &&& guest_signalled(calls)
            },
            RxAction::Done(result) => {
                &&& calls.last().next.phase is Idle
                &&& result == rx_outcome(calls)
                &&& guest_signalled(calls) <==> any_used(calls)
            },
            _ => false,
        },
        frames_delivered(calls).len() > 0 ==> any_used(calls),
    decreases calls.len(),
{
    let call = calls.last();
    let before = calls.drop_last();
    assert(rx_call_may(space, calls[calls.len() - 1]));
    rx_call_leads(space, call);
    if calls.len() == 1 {
        assert(before =~= Seq::empty());
        assert(frames_delivered(before) =~= Seq::empty());
        assert(rx_outcome(before) == Ok::<(), RxError>(()));
        assert(calls[0] == call);
        assert(guest_signalled(calls) ==> calls[0].action is Signal);
        assert(any_used(calls) ==> rx_used(calls[0]));
    } else {
        rx_run_before(space, calls);
        rx_run_position(space, before);
        if guest_signalled(before) {
            let i = choose|i: int| 0 <= i < before.len() && (#[trigger] before[i]).action is Signal;
            assert(calls[i].action is Signal);
        }
        if guest_signalled(calls) {
            let i = choose|i: int| 0 <= i < calls.len() && (#[trigger] calls[i]).action is Signal;
            if i < before.len() {
                assert(before[i].action is Signal);
            }
        }
        if call.action is Signal {
            assert(calls[calls.len() - 1].action is Signal);
        }
        if rx_used(call) {
            assert(rx_used(calls[calls.len() - 1]));
        }
        if any_used(before) {
            let i = choose|i: int| 0 <= i < before.len() && rx_used(#[trigger] before[i]);
            assert(rx_used(calls[i]));
        }
        if any_used(calls) {
            let i = choose|i: int| 0 <= i < calls.len() && rx_used(#[trigger] calls[i]);
            if i < before.len() {
                assert(rx_used(before[i]));
            }
        }
    }
}

/// A run that has ended says how it went: it failed if interrupting the guest did, else if reading
/// from the backend did. The guest was interrupted exactly if a chain went into the used ring, which
/// is so if a frame was delivered.
pub proof fn finished_run_reports(space: Set<u64>, calls: Seq<RxCall>, result: Result<(), RxError>)
    requires
        rx_run(space, calls),
        calls.last().action == RxAction::Done(result),
    ensures
        calls.last().next.phase is Idle,
        result == rx_outcome(calls),
        guest_signalled(calls) <==> any_used(calls),
        frames_delivered(calls).len() > 0 ==> any_used(calls),
{
    rx_run_position(space, calls);
}

/// If the frame that was deferred still finds no room, the backend is not asked and the frame stays
/// deferred: the run ends at once, or after the guest was interrupted because chains were used up,
/// and without error if that succeeded.
pub proof fn blocked_run_reads_nothing(space: Set<u64>, calls: Seq<RxCall>)
    requires
        rx_run(space, calls),
        calls[0].state.deferred,
        calls[0].next.deferred,
    ensures
        calls.len() <= 2,
        forall|i: int|
            0 <= i < calls.len() ==> (#[trigger] calls[i]).action !is ReadFrame
                && calls[i].next.deferred && calls[i].frame == calls[0].frame,
        calls.last().action == RxAction::Done(Ok(())) || calls.last().action is Signal
            || calls.last().event == RxEvent::Signalled(false),
{
    assert(rx_call_may(space, calls[0]));
    rx_call_leads(space, calls[0]);
    if calls.len() > 1 {
        assert(rx_follows(calls[1 - 1], calls[1]));
        assert(rx_call_may(space, calls[1]));
        rx_call_leads(space, calls[1]);
    }
    if calls.len() > 2 {
        assert(rx_follows(calls[2 - 1], calls[2]));
        assert(rx_call_may(space, calls[2]));
    }
}

} // verus!
