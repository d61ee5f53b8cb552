//! Receiving: which step follows which while frames go from the backend to the guest.
//!
//! A run reads frames from the backend and delivers each to the guest, until the backend has no
//! more or the guest has no room. A frame that found no room is kept and goes first next time.

use vstd::prelude::*;

verus! {

/// Why a run of receiving ended early.
#[derive(Clone, Copy, Debug, PartialEq, Eq, Structural)]
pub enum RxError {
    /// The backend failed.
    Backend,
    /// The guest could not be interrupted.
    Device,
}

/// Where a run of receiving stands. `signal` tells whether a chain went into the used
/// ring in this run, of which the guest has to hear.
#[derive(Clone, Copy, Debug, PartialEq, Eq)]
pub enum RxPhase {
    Idle,
    /// Notifications are being turned off.
    Disabling,
    /// The deferred frame is being delivered.
    Retrying,
    /// The backend is asked for a frame.
    Reading { signal: bool },
    /// The frame is being delivered.
    Delivering { signal: bool },
    /// The guest is being interrupted.
    Signalling { result: Result<(), RxError> },
    /// Notifications are being turned on.
    Enabling { result: Result<(), RxError> },
}

/// Where receiving stands, and whether a frame waits for the guest to have room.
#[derive(Clone, Copy, Debug, PartialEq, Eq)]
pub struct RxState {
    pub phase: RxPhase,
    pub deferred: bool,
}

/// What happened.
#[derive(Clone, Copy, Debug, PartialEq, Eq, Structural)]
pub enum RxEvent {
    /// Receiving is to start.
    Start,
    /// The backend gave a frame of this length, with its virtio header.
    FrameRead(usize),
    /// The backend has no frame.
    NothingRead,
    /// The backend failed.
    ReadFailed,
    /// Whether the guest could be interrupted.
    Signalled(bool),
    /// Notifications were turned off, or that failed.
    Disabled,
    /// The attempts to deliver the frame are over: whether one of them succeeded, and whether any
    /// chain went into the used ring, be it with the frame or empty.
    Delivered { ok: bool, used: bool },
    /// Notifications were turned on, or that failed.
    Enabled,
}

/// What is to be done next.
#[derive(Clone, Copy, Debug, PartialEq, Eq)]
pub enum RxAction {
    /// Read a frame from the backend.
    ReadFrame,
    /// Interrupt the guest.
    Signal,
    /// Wait for the next reason to receive.
    Done(Result<(), RxError>),
    /// Turn notifications off.
    Disable,
    /// Deliver the frame to the guest.
    Deliver,
    /// Turn notifications on.
    Enable,
}

/// The event can come in this phase. A frame is delivered only by a chain.
pub open spec fn rx_expects(phase: RxPhase, event: RxEvent) -> bool {
    match event {
        RxEvent::Start => phase is Idle,
        RxEvent::FrameRead(_) => phase is Reading,
        RxEvent::NothingRead => phase is Reading,
        RxEvent::ReadFailed => phase is Reading,
        RxEvent::Signalled(_) => phase is Signalling,
        RxEvent::Disabled => phase is Disabling,
        RxEvent::Delivered { ok, used } => (phase is Retrying || phase is Delivering) && (ok
            ==> used),
        RxEvent::Enabled => phase is Enabling,
    }
}

/// No more frames are read in this run: if a chain was used, the guest has to hear.
pub open spec fn rx_drained(deferred: bool, signal: bool, result: Result<(), RxError>) -> (
    RxState,
    RxAction,
) {
    if signal {
        (RxState { phase: RxPhase::Signalling { result }, deferred }, RxAction::Signal)
    } else {
        (RxState { phase: RxPhase::Enabling { result }, deferred }, RxAction::Enable)
    }
}

/// The state after `event`, and what is to be done then.
pub open spec fn rx_next(state: RxState, event: RxEvent) -> (RxState, RxAction) {
    let deferred = state.deferred;
    let to = |phase: RxPhase| RxState { phase, deferred };
    match (state.phase, event) {
        (RxPhase::Idle, RxEvent::Start) => (to(RxPhase::Disabling), RxAction::Disable),
        (RxPhase::Disabling, RxEvent::Disabled) => if deferred {
            (to(RxPhase::Retrying), RxAction::Deliver)
        } else {
            (to(RxPhase::Reading { signal: false }), RxAction::ReadFrame)
        },
        (RxPhase::Retrying, RxEvent::Delivered { ok, used }) => if ok {
            (
                RxState { phase: RxPhase::Reading { signal: used }, deferred: false },
                RxAction::ReadFrame,
            )
        } else {
            rx_drained(true, used, Ok(()))
        },
        (RxPhase::Reading { signal }, RxEvent::FrameRead(_)) => (
            to(RxPhase::Delivering { signal }),
            RxAction::Deliver,
        ),
        (RxPhase::Reading { signal }, RxEvent::NothingRead) => rx_drained(deferred, signal, Ok(())),
        (RxPhase::Reading { signal }, RxEvent::ReadFailed) => rx_drained(
            deferred,
            signal,
            Err(RxError::Backend),
        ),
        (RxPhase::Delivering { signal }, RxEvent::Delivered { ok, used }) => if ok {
            (to(RxPhase::Reading { signal: signal || used }), RxAction::ReadFrame)
        } else {
            rx_drained(true, signal || used, Ok(()))
        },
        (RxPhase::Signalling { result }, RxEvent::Signalled(true)) => (
            to(RxPhase::Enabling { result }),
            RxAction::Enable,
        ),
        (RxPhase::Signalling { .. }, RxEvent::Signalled(false)) => (
            to(RxPhase::Enabling { result: Err(RxError::Device) }),
            RxAction::Enable,
        ),
        (RxPhase::Enabling { result }, RxEvent::Enabled) => (
            to(RxPhase::Idle),
            RxAction::Done(result),
        ),
        _ => (state, RxAction::Done(Ok(()))),
    }
}

/// No more frames are read in this run.
fn stop_reading(deferred: bool, signal: bool, result: Result<(), RxError>) -> (r: (
    RxState,
    RxAction,
))
    ensures
        r == rx_drained(deferred, signal, result),
{
    if signal {
        (RxState { phase: RxPhase::Signalling { result }, deferred }, RxAction::Signal)
    } else {
        (RxState { phase: RxPhase::Enabling { result }, deferred }, RxAction::Enable)
    }
}

impl RxState {
    /// Nothing is going on and no frame waits.
    pub fn new() -> (r: RxState)
        ensures
            r == (RxState { phase: RxPhase::Idle, deferred: false }),
    {
        RxState { phase: RxPhase::Idle, deferred: false }
    }

    /// The state after `event`, and what is to be done then.
    pub fn next(self, event: RxEvent) -> (r: (RxState, RxAction))
        requires
            rx_expects(self.phase, event),
        ensures
            r == rx_next(self, event),
    {
        let deferred: bool = self.deferred;
        match (self.phase, event) {
            (RxPhase::Idle, RxEvent::Start) => (
                RxState { phase: RxPhase::Disabling, deferred },
                RxAction::Disable,
            ),
            (RxPhase::Disabling, RxEvent::Disabled) => if deferred {
                (RxState { phase: RxPhase::Retrying, deferred }, RxAction::Deliver)
            } else {
                (RxState { phase: RxPhase::Reading { signal: false }, deferred }, RxAction::ReadFrame)
            },
            (RxPhase::Retrying, RxEvent::Delivered { ok, used }) => if ok {
                (
                    RxState { phase: RxPhase::Reading { signal: used }, deferred: false },
                    RxAction::ReadFrame,
                )
            } else {
                stop_reading(true, used, Ok(()))
            },
            (RxPhase::Reading { signal }, RxEvent::FrameRead(_)) => (
                RxState { phase: RxPhase::Delivering { signal }, deferred },
                RxAction::Deliver,
            ),
            (RxPhase::Reading { signal }, RxEvent::NothingRead) => stop_reading(
                deferred,
                signal,
                Ok(()),
            ),
            (RxPhase::Reading { signal }, RxEvent::ReadFailed) => stop_reading(
                deferred,
                signal,
                Err(RxError::Backend),
            ),
            (RxPhase::Delivering { signal }, RxEvent::Delivered { ok, used }) => if ok {
                (
                    RxState { phase: RxPhase::Reading { signal: signal || used }, deferred },
                    RxAction::ReadFrame,
                )
            } else {
                stop_reading(true, signal || used, Ok(()))
            },
            (RxPhase::Signalling { result }, RxEvent::Signalled(signalled)) => if signalled {
                (RxState { phase: RxPhase::Enabling { result }, deferred }, RxAction::Enable)
            } else {
                (
                    RxState {
                        phase: RxPhase::Enabling { result: Err(RxError::Device) },
                        deferred,
                    },
                    RxAction::Enable,
                )
            },
            (RxPhase::Enabling { result }, RxEvent::Enabled) => (
                RxState { phase: RxPhase::Idle, deferred },
                RxAction::Done(result),
            ),
            _ => (self, RxAction::Done(Ok(()))),
        }
    }
}

/// While a frame waits for the guest, no other one is at hand.
pub open spec fn deferred_first(state: RxState) -> bool {
    &&& state.phase is Reading || state.phase is Delivering ==> !state.deferred
    &&& state.phase is Retrying ==> state.deferred
}

/// No frame is read while one waits for the guest, and one that waits does so until it was
/// delivered.
pub proof fn deferred_frame_goes_first(state: RxState, event: RxEvent)
    requires
        deferred_first(state),
        rx_expects(state.phase, event),
    ensures
        deferred_first(rx_next(state, event).0),
        rx_next(state, event).1 is ReadFrame ==> !rx_next(state, event).0.deferred,
        state.deferred && !rx_next(state, event).0.deferred ==> state.phase is Retrying && (event
            matches RxEvent::Delivered { ok, used: _ } && ok),
{
}

/// Whether a chain went into the used ring in the current run, after `event` as well.
pub open spec fn used_after(event: RxEvent, used_before: bool) -> bool {
    match event {
        RxEvent::Start => false,
        RxEvent::Delivered { ok: _, used } => used_before || used,
        _ => used_before,
    }
}

/// The state knows whether a chain went into the used ring in the current run.
pub open spec fn knows_used(state: RxState, used: bool) -> bool {
    match state.phase {
        RxPhase::Idle => true,
        RxPhase::Disabling | RxPhase::Retrying => !used,
        RxPhase::Reading { signal } => signal == used,
        RxPhase::Delivering { signal } => signal == used,
        RxPhase::Signalling { .. } => used,
        RxPhase::Enabling { .. } => true,
    }
}

/// The guest is interrupted at the end of a run exactly if a chain went into the used ring in this
/// run, be it with a frame that was deferred before, with one that was read now, or empty.
pub proof fn guest_hears_of_used_chains(state: RxState, event: RxEvent, used: bool)
    requires
        knows_used(state, used),
        rx_expects(state.phase, event),
    ensures
        knows_used(rx_next(state, event).0, used_after(event, used)),
        (state.phase is Reading || state.phase is Delivering || state.phase is Retrying)
            && rx_next(state, event).1 !is ReadFrame && rx_next(state, event).1 !is Deliver ==> (
        rx_next(state, event).1 is Signal <==> used_after(event, used)),
{
}

} // verus!
