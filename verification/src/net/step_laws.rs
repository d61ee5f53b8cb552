//! Which action follows which event while frames are received and transmitted, by what happened so
//! far.

use vstd::prelude::*;

use crate::net::rx::{rx_expects, rx_next, RxAction, RxError, RxEvent, RxPhase, RxState};
use crate::net::tx::{
    tx_expects, tx_next, TxAction, TxError, TxEvent, TxPhase, TxState, WriteError,
};

verus! {

/// What happened while frames were received.
pub struct RxPast {
    /// A frame waits for the guest to have room.
    pub waiting: bool,
    /// A chain went into the used ring in this run.
    pub used: bool,
    /// What went wrong in this run.
    pub result: Result<(), RxError>,
}

/// What happened after `event` as well.
pub open spec fn rx_past(past: RxPast, event: RxEvent) -> RxPast {
    match event {
        RxEvent::Start => RxPast { used: false, result: Ok(()), ..past },
        RxEvent::Delivered { ok, used } => RxPast {
            waiting: !ok,
            used: past.used || used,
            ..past
        },
        RxEvent::ReadFailed => RxPast { result: Err(RxError::Backend), ..past },
        RxEvent::Signalled(false) => RxPast { result: Err(RxError::Device), ..past },
        _ => past,
    }
}

/// What is due when no more frames can be read: the guest hears of chains that were used, and then
/// notifications are turned on.
pub open spec fn rx_closing(used: bool) -> RxAction {
    if used {
        RxAction::Signal
    } else {
        RxAction::Enable
    }
}

/// What is due after `event`, where `past` is what happened up to it and with it.
pub open spec fn rx_due(past: RxPast, event: RxEvent) -> RxAction {
    match event {
        RxEvent::Start => RxAction::Disable,
        RxEvent::Disabled => if past.waiting {
            RxAction::Deliver
        } else {
            RxAction::ReadFrame
        },
        RxEvent::FrameRead(_) => RxAction::Deliver,
        RxEvent::Delivered { ok: true, used: _ } => RxAction::ReadFrame,
        RxEvent::Delivered { ok: false, used: _ } => rx_closing(past.used),
        RxEvent::NothingRead | RxEvent::ReadFailed => rx_closing(past.used),
        RxEvent::Signalled(_) => RxAction::Enable,
        RxEvent::Enabled => RxAction::Done(past.result),
    }
}

/// The events that an action can lead to.
pub open spec fn rx_answers(action: RxAction, event: RxEvent) -> bool {
    match action {
        RxAction::ReadFrame => event is FrameRead || event is NothingRead || event is ReadFailed,
        RxAction::Signal => event is Signalled,
        RxAction::Done(_) => event is Start,
        RxAction::Disable => event is Disabled,
        RxAction::Deliver => event matches RxEvent::Delivered { ok, used } && (ok ==> used),
        RxAction::Enable => event is Enabled,
    }
}

/// The state knows of the past what it has to.
pub open spec fn rx_knows(state: RxState, past: RxPast) -> bool {
    &&& state.deferred == past.waiting
    &&& match state.phase {
        RxPhase::Idle => true,
        RxPhase::Disabling => !past.used && past.result == Ok::<(), RxError>(()),
        RxPhase::Retrying => !past.used && past.result == Ok::<(), RxError>(()) && past.waiting,
        RxPhase::Reading { signal } | RxPhase::Delivering { signal } => signal == past.used
            && past.result == Ok::<(), RxError>(()) && !past.waiting,
        RxPhase::Signalling { result } => result == past.result && past.used,
        RxPhase::Enabling { result } => result == past.result,
    }
}

/// Receiving goes by what happened: a waiting frame is delivered first, frames are read as long as
/// the backend has any and the guest takes them, the guest is interrupted exactly if a chain was
/// used, and the run ends with what went wrong. Whatever an action leads to is expected.
pub proof fn receiving_goes_by_what_happened(state: RxState, past: RxPast, event: RxEvent)
    requires
        rx_knows(state, past),
        rx_expects(state.phase, event),
    ensures
        rx_knows(rx_next(state, event).0, rx_past(past, event)),
        rx_next(state, event).1 == rx_due(rx_past(past, event), event),
        forall|answer: RxEvent| #[trigger]
            rx_expects(rx_next(state, event).0.phase, answer) == rx_answers(
                rx_next(state, event).1,
                answer,
            ),
        state.phase is Idle ==> event is Start,
{
}

/// Receiving that is idle can be started, and nothing else can happen.
pub proof fn idle_receiving_can_be_started(event: RxEvent)
    ensures
        rx_expects(RxPhase::Idle, event) <==> event is Start,
{
}

/// What happened while frames were transmitted.
pub struct TxPast {
    /// The chain whose frame the backend has.
    pub head: u16,
    /// The backend took that frame as a whole.
    pub whole: bool,
    /// A chain was given back in this round.
    pub given: bool,
    /// The backend took nothing of a frame, and the round ended with that.
    pub full: bool,
}

/// What happened after `event` as well.
pub open spec fn tx_past(past: TxPast, event: TxEvent) -> TxPast {
    match event {
        TxEvent::Disabled => TxPast { given: false, full: false, ..past },
        TxEvent::Popped(Some(head)) => TxPast { head, ..past },
        TxEvent::Written(r) => TxPast { whole: r is Ok, ..past },
        TxEvent::Returned(r) => TxPast { given: past.given || r is Ok, ..past },
        TxEvent::Undone => TxPast { full: true, ..past },
        TxEvent::Signalled(false) => TxPast { full: false, ..past },
        _ => past,
    }
}

/// What is due when no more chains are taken: if one was given back, it is considered whether the
/// guest wants to hear of it, and then notifications are turned on.
pub open spec fn tx_closing(given: bool) -> TxAction {
    if given {
        TxAction::Consider
    } else {
        TxAction::Enable
    }
}

/// What is due after `event`, where `past` is what happened up to it and with it.
pub open spec fn tx_due(past: TxPast, event: TxEvent) -> TxAction {
    match event {
        TxEvent::Start => TxAction::Disable,
        TxEvent::Disabled => TxAction::AskUnfinished,
        TxEvent::Unfinished(true) => TxAction::FinishWrite,
        TxEvent::Unfinished(false) => TxAction::Pop,
        TxEvent::Finished(true) => TxAction::Pop,
        TxEvent::Finished(false) => TxAction::Enable,
        TxEvent::Popped(Some(_)) => TxAction::WriteFrame,
        TxEvent::Popped(None) => tx_closing(past.given),
        TxEvent::Written(Ok(_)) => TxAction::Return(past.head),
        TxEvent::Written(Err(WriteError::PartialWrite)) => TxAction::Return(past.head),
        TxEvent::Written(Err(WriteError::NothingWritten)) => TxAction::Undo,
        TxEvent::Written(Err(e)) => TxAction::Report(TxError::Backend(e)),
        TxEvent::Returned(Ok(_)) => if past.whole {
            TxAction::Pop
        } else {
            TxAction::Consider
        },
        TxEvent::Returned(Err(e)) => TxAction::Report(TxError::Queue(e)),
        TxEvent::Undone => tx_closing(past.given),
        TxEvent::Needed(true) => TxAction::Signal,
        TxEvent::Needed(false) => TxAction::Enable,
        TxEvent::Signalled(true) => TxAction::Enable,
        TxEvent::Signalled(false) => TxAction::Report(TxError::Device),
        TxEvent::Reported => TxAction::Enable,
        TxEvent::Enabled(waiting) => if waiting && !past.full {
            TxAction::Disable
        } else {
            TxAction::Done
        },
    }
}

/// The events that an action can lead to.
pub open spec fn tx_answers(action: TxAction, event: TxEvent) -> bool {
    match action {
        TxAction::AskUnfinished => event is Unfinished,
        TxAction::FinishWrite => event is Finished,
        TxAction::WriteFrame => event is Written,
        TxAction::Signal => event is Signalled,
        TxAction::Report(_) => event is Reported,
        TxAction::Done => event is Start,
        TxAction::Disable => event is Disabled,
        TxAction::Pop => event is Popped,
        TxAction::Return(_) => event is Returned,
        TxAction::Undo => event is Undone,
        TxAction::Consider => event is Needed,
        TxAction::Enable => event is Enabled,
    }
}

/// What a round can end with after `past`, apart from an error that is reported.
pub open spec fn ends_as(result: Result<(), TxError>, past: TxPast) -> bool {
    result == if past.full {
        Err::<(), TxError>(TxError::Backend(WriteError::NothingWritten))
    } else {
        Ok(())
    }
}

/// The state knows of the past what it has to.
pub open spec fn tx_knows(state: TxState, past: TxPast) -> bool {
    match state.phase {
        TxPhase::Idle => state.deferred == past.full,
        TxPhase::Disabling => true,
        TxPhase::Asking | TxPhase::Finishing => !past.given && !past.full,
        TxPhase::Popping { irq } => irq == past.given && !past.full,
        TxPhase::Writing { irq, head } => irq == past.given && head == past.head && !past.full,
        TxPhase::Returning { more } => more == past.whole && !past.full,
        TxPhase::Undoing { irq } => irq == past.given && !past.full,
        TxPhase::Considering { result } | TxPhase::Signalling { result } => past.given && ends_as(
            result,
            past,
        ),
        TxPhase::Reporting { .. } => !past.full && !state.deferred,
        TxPhase::Enabling { .. } => state.deferred == past.full,
    }
}

/// Transmitting goes by what happened: a half written frame is finished first, chains are taken as
/// long as there are any and the backend takes their frames as a whole, each is given back or put
/// back, the queue is asked about an interrupt exactly if one was given back, every other failure is
/// reported, and a new round begins if chains came in meanwhile and the backend is not full. A frame
/// waits for the backend exactly if the round ended with it full. Whatever an action leads to is
/// expected.
pub proof fn transmitting_goes_by_what_happened(state: TxState, past: TxPast, event: TxEvent)
    requires
        tx_knows(state, past),
        tx_expects(state.phase, event),
    ensures
        tx_knows(tx_next(state, event).0, tx_past(past, event)),
        tx_next(state, event).1 == tx_due(tx_past(past, event), event),
        forall|answer: TxEvent| #[trigger]
            tx_expects(tx_next(state, event).0.phase, answer) == tx_answers(
                tx_next(state, event).1,
                answer,
            ),
{
}

/// Transmitting that is idle can be started, and nothing else can happen.
pub proof fn idle_transmitting_can_be_started(event: TxEvent)
    ensures
        tx_expects(TxPhase::Idle, event) <==> event is Start,
{
}

} // verus!
