//! Transmitting: which step follows which while frames go from the guest to the backend.
//!
//! A round takes chains from the transmit queue and hands their frames to the backend until the
//! queue is empty or the backend is full. While it runs, notifications are off; it ends by asking
//! for them again, and starts over if chains came in meanwhile.

use vstd::prelude::*;

use crate::queue::QueueError;

verus! {

/// Why the backend did not take a frame.
#[derive(Clone, Copy, Debug, PartialEq, Eq, Structural)]
pub enum WriteError {
    /// Nothing was written; the frame may be offered again.
    NothingWritten,
    /// A part was written; the backend has to finish the rest.
    PartialWrite,
    /// The process behind the backend does not run.
    ProcessNotRunning,
    /// Anything else.
    Internal,
}

/// Why a round of transmitting ended early.
#[derive(Clone, Copy, Debug, PartialEq, Eq, Structural)]
pub enum TxError {
    Backend(WriteError),
    Queue(QueueError),
    /// The guest could not be interrupted.
    Device,
}

/// Where a round of transmitting stands. `irq` tells whether a chain was given back in this
/// round, of which the guest has to hear.
#[derive(Clone, Copy, Debug, PartialEq, Eq)]
pub enum TxPhase {
    Idle,
    /// Notifications are being turned off.
    Disabling,
    /// The backend is asked whether a frame is still half written.
    Asking,
    /// The backend is finishing a half written frame.
    Finishing,
    /// The next chain is being taken.
    Popping { irq: bool },
    /// The backend has the frame of the chain `head`.
    Writing { irq: bool, head: u16 },
    /// The chain is being given back; `more` tells whether another one may follow.
    Returning { more: bool },
    /// The chain is being put back into the queue.
    Undoing { irq: bool },
    /// The queue is asked whether the guest wants to hear of the chains given back.
    Considering { result: Result<(), TxError> },
    /// The guest is being interrupted.
    Signalling { result: Result<(), TxError> },
    /// The error that ended the round is being reported.
    Reporting { result: Result<(), TxError> },
    /// Notifications are being turned on.
    Enabling { result: Result<(), TxError> },
}

/// Where transmitting stands, and whether a frame waits for the backend to have room.
#[derive(Clone, Copy, Debug, PartialEq, Eq)]
pub struct TxState {
    pub phase: TxPhase,
    pub deferred: bool,
}

/// What happened.
#[derive(Clone, Copy, Debug, PartialEq, Eq)]
pub enum TxEvent {
    /// Transmitting is to start.
    Start,
    /// Whether the backend has a half written frame.
    Unfinished(bool),
    /// Whether the backend finished it.
    Finished(bool),
    /// What became of the frame.
    Written(Result<(), WriteError>),
    /// Whether the guest could be interrupted.
    Signalled(bool),
    /// Notifications were turned off.
    Disabled,
    /// A chain was taken, or there was none.
    Popped(Option<u16>),
    /// The chain was given back, or could not be.
    Returned(Result<(), QueueError>),
    /// The chain was put back.
    Undone,
    /// Whether the guest wants to be interrupted.
    Needed(bool),
    /// The error was reported.
    Reported,
    /// Notifications were turned on; tells whether chains are waiting already.
    Enabled(bool),
}

/// What is to be done next.
#[derive(Clone, Copy, Debug, PartialEq, Eq, Structural)]
pub enum TxAction {
    /// Ask the backend whether it has a half written frame.
    AskUnfinished,
    /// Let the backend finish the half written frame.
    FinishWrite,
    /// Hand the frame to the backend.
    WriteFrame,
    /// Interrupt the guest.
    Signal,
    /// Report the error that ended the round.
    Report(TxError),
    /// Wait for the next reason to transmit.
    Done,
    /// Turn notifications off.
    Disable,
    /// Take the next chain and load its frame.
    Pop,
    /// Give the chain back.
    Return(u16),
    /// Put the chain back.
    Undo,
    /// Ask whether the guest wants to be interrupted.
    Consider,
    /// Turn notifications on.
    Enable,
}

/// The event can come in this phase.
pub open spec fn tx_expects(phase: TxPhase, event: TxEvent) -> bool {
    match event {
        TxEvent::Start => phase is Idle,
        TxEvent::Unfinished(_) => phase is Asking,
        TxEvent::Finished(_) => phase is Finishing,
        TxEvent::Written(_) => phase is Writing,
        TxEvent::Signalled(_) => phase is Signalling,
        TxEvent::Disabled => phase is Disabling,
        TxEvent::Popped(_) => phase is Popping,
        TxEvent::Returned(_) => phase is Returning,
        TxEvent::Undone => phase is Undoing,
        TxEvent::Needed(_) => phase is Considering,
        TxEvent::Reported => phase is Reporting,
        TxEvent::Enabled(_) => phase is Enabling,
    }
}

/// The backend took nothing of a frame, which may be offered again.
pub open spec fn backend_full(result: Result<(), TxError>) -> bool {
    result == Err::<(), TxError>(TxError::Backend(WriteError::NothingWritten))
}

/// The round ends with `result`. If the backend took nothing of a frame, that frame is deferred;
/// any other error is reported.
pub open spec fn tx_ended(result: Result<(), TxError>) -> (TxState, TxAction) {
    let deferred = backend_full(result);
    match result {
        Err(e) if !deferred => (
            TxState { phase: TxPhase::Reporting { result }, deferred },
            TxAction::Report(e),
        ),
        _ => (TxState { phase: TxPhase::Enabling { result }, deferred }, TxAction::Enable),
    }
}

/// No more chains are taken in this round: if one was given back, the guest may have to hear.
pub open spec fn tx_drained(deferred: bool, irq: bool, result: Result<(), TxError>) -> (
    TxState,
    TxAction,
) {
    if irq {
        (TxState { phase: TxPhase::Considering { result }, deferred }, TxAction::Consider)
    } else {
        tx_ended(result)
    }
}

/// The state after `event`, and what is to be done then.
pub open spec fn tx_next(state: TxState, event: TxEvent) -> (TxState, TxAction) {
    let to = |phase: TxPhase| TxState { phase, ..state };
    match (state.phase, event) {
        (TxPhase::Idle, TxEvent::Start) => (to(TxPhase::Disabling), TxAction::Disable),
        (TxPhase::Disabling, TxEvent::Disabled) => (to(TxPhase::Asking), TxAction::AskUnfinished),
        (TxPhase::Asking, TxEvent::Unfinished(true)) => (
            to(TxPhase::Finishing),
            TxAction::FinishWrite,
        ),
        (TxPhase::Asking, TxEvent::Unfinished(false)) => (
            to(TxPhase::Popping { irq: false }),
            TxAction::Pop,
        ),
        (TxPhase::Finishing, TxEvent::Finished(true)) => (
            to(TxPhase::Popping { irq: false }),
            TxAction::Pop,
        ),
        (TxPhase::Finishing, TxEvent::Finished(false)) => tx_ended(Ok(())),
        (TxPhase::Popping { irq }, TxEvent::Popped(Some(head))) => (
            to(TxPhase::Writing { irq, head }),
            TxAction::WriteFrame,
        ),
        (TxPhase::Popping { irq }, TxEvent::Popped(None)) => tx_drained(
            state.deferred,
            irq,
            Ok(()),
        ),
        (TxPhase::Writing { irq, head }, TxEvent::Written(r)) => match r {
            Ok(_) => (to(TxPhase::Returning { more: true }), TxAction::Return(head)),
            Err(WriteError::PartialWrite) => (
                to(TxPhase::Returning { more: false }),
                TxAction::Return(head),
            ),
            Err(WriteError::NothingWritten) => (to(TxPhase::Undoing { irq }), TxAction::Undo),
            Err(e) => tx_ended(Err(TxError::Backend(e))),
        },
        (TxPhase::Returning { more }, TxEvent::Returned(Ok(_))) => if more {
            (to(TxPhase::Popping { irq: true }), TxAction::Pop)
        } else {
            tx_drained(state.deferred, true, Ok(()))
        },
        (TxPhase::Returning { .. }, TxEvent::Returned(Err(e))) => tx_ended(Err(TxError::Queue(e))),
        (TxPhase::Undoing { irq }, TxEvent::Undone) => tx_drained(
            state.deferred,
            irq,
            Err(TxError::Backend(WriteError::NothingWritten)),
        ),
        (TxPhase::Considering { result }, TxEvent::Needed(true)) => (
            to(TxPhase::Signalling { result }),
            TxAction::Signal,
        ),
        (TxPhase::Considering { result }, TxEvent::Needed(false)) => tx_ended(result),
        (TxPhase::Signalling { result }, TxEvent::Signalled(true)) => tx_ended(result),
        (TxPhase::Signalling { .. }, TxEvent::Signalled(false)) => tx_ended(Err(TxError::Device)),
        (TxPhase::Reporting { result }, TxEvent::Reported) => (
            to(TxPhase::Enabling { result }),
            TxAction::Enable,
        ),
        (TxPhase::Enabling { .. }, TxEvent::Enabled(waiting)) => if waiting && !state.deferred {
            (to(TxPhase::Disabling), TxAction::Disable)
        } else {
            (to(TxPhase::Idle), TxAction::Done)
        },
        _ => (state, TxAction::Done),
    }
}

/// The round ends with `result`.
fn end_round(result: Result<(), TxError>) -> (r: (TxState, TxAction))
    ensures
        r == tx_ended(result),
{
    match result {
        Err(TxError::Backend(WriteError::NothingWritten)) => (
            TxState { phase: TxPhase::Enabling { result }, deferred: true },
            TxAction::Enable,
        ),
        Err(e) => (
            TxState { phase: TxPhase::Reporting { result }, deferred: false },
            TxAction::Report(e),
        ),
        Ok(_) => (
            TxState { phase: TxPhase::Enabling { result }, deferred: false },
            TxAction::Enable,
        ),
    }
}

/// No more chains are taken in this round.
fn stop_taking(deferred: bool, irq: bool, result: Result<(), TxError>) -> (r: (TxState, TxAction))
    ensures
        r == tx_drained(deferred, irq, result),
{
    if irq {
        (TxState { phase: TxPhase::Considering { result }, deferred }, TxAction::Consider)
    } else {
        end_round(result)
    }
}

impl TxState {
    /// Nothing is going on and no frame waits.
    pub fn new() -> (r: TxState)
        ensures
            r == (TxState { phase: TxPhase::Idle, deferred: false }),
    {
        TxState { phase: TxPhase::Idle, deferred: false }
    }

    /// The state after `event`, and what is to be done then.
    pub fn next(self, event: TxEvent) -> (r: (TxState, TxAction))
        requires
            tx_expects(self.phase, event),
        ensures
            r == tx_next(self, event),
    {
        let deferred: bool = self.deferred;
        match (self.phase, event) {
            (TxPhase::Idle, TxEvent::Start) => (
                TxState { phase: TxPhase::Disabling, deferred },
                TxAction::Disable,
            ),
            (TxPhase::Disabling, TxEvent::Disabled) => (
                TxState { phase: TxPhase::Asking, deferred },
                TxAction::AskUnfinished,
            ),
            (TxPhase::Asking, TxEvent::Unfinished(unfinished)) => if unfinished {
                (TxState { phase: TxPhase::Finishing, deferred }, TxAction::FinishWrite)
            } else {
                (TxState { phase: TxPhase::Popping { irq: false }, deferred }, TxAction::Pop)
            },
            (TxPhase::Finishing, TxEvent::Finished(finished)) => if finished {
                (TxState { phase: TxPhase::Popping { irq: false }, deferred }, TxAction::Pop)
            } else {
                end_round(Ok(()))
            },
            (TxPhase::Popping { irq }, TxEvent::Popped(chain)) => match chain {
                Some(head) => (
                    TxState { phase: TxPhase::Writing { irq, head }, deferred },
                    TxAction::WriteFrame,
                ),
                None => stop_taking(deferred, irq, Ok(())),
            },
            (TxPhase::Writing { irq, head }, TxEvent::Written(written)) => match written {
                Ok(_) => (
                    TxState { phase: TxPhase::Returning { more: true }, deferred },
                    TxAction::Return(head),
                ),
                Err(WriteError::PartialWrite) => (
                    TxState { phase: TxPhase::Returning { more: false }, deferred },
                    TxAction::Return(head),
                ),
                Err(WriteError::NothingWritten) => (
                    TxState { phase: TxPhase::Undoing { irq }, deferred },
                    TxAction::Undo,
                ),
                Err(e) => end_round(Err(TxError::Backend(e))),
            },
            (TxPhase::Returning { more }, TxEvent::Returned(returned)) => match returned {
                Ok(_) => if more {
                    (TxState { phase: TxPhase::Popping { irq: true }, deferred }, TxAction::Pop)
                } else {
                    stop_taking(deferred, true, Ok(()))
                },
                Err(e) => end_round(Err(TxError::Queue(e))),
            },
            (TxPhase::Undoing { irq }, TxEvent::Undone) => stop_taking(
                deferred,
                irq,
                Err(TxError::Backend(WriteError::NothingWritten)),
            ),
            (TxPhase::Considering { result }, TxEvent::Needed(needed)) => if needed {
                (TxState { phase: TxPhase::Signalling { result }, deferred }, TxAction::Signal)
            } else {
                end_round(result)
            },
            (TxPhase::Signalling { result }, TxEvent::Signalled(signalled)) => if signalled {
                end_round(result)
            } else {
                end_round(Err(TxError::Device))
            },
            (TxPhase::Reporting { result }, TxEvent::Reported) => (
                TxState { phase: TxPhase::Enabling { result }, deferred },
                TxAction::Enable,
            ),
            (TxPhase::Enabling { result: _ }, TxEvent::Enabled(waiting)) => if waiting && !deferred {
                (TxState { phase: TxPhase::Disabling, deferred }, TxAction::Disable)
            } else {
                (TxState { phase: TxPhase::Idle, deferred }, TxAction::Done)
            },
            _ => (self, TxAction::Done),
        }
    }
}

/// What has become of the chains of a round.
pub struct TxHistory {
    /// The chain that was taken, and neither given back nor put back yet.
    pub held: Option<u16>,
    /// Whether a chain was given back.
    pub given: bool,
}

/// The history after `event`.
pub open spec fn history_after(state: TxState, event: TxEvent, history: TxHistory) -> TxHistory {
    match event {
        TxEvent::Disabled => TxHistory { held: None, given: false },
        TxEvent::Popped(chain) => TxHistory { held: chain, ..history },
        TxEvent::Returned(r) => TxHistory { held: None, given: history.given || r is Ok },
        TxEvent::Undone => TxHistory { held: None, ..history },
        _ => history,
    }
}

/// The backend failed for good, which leaves the chain of the frame with the device.
pub open spec fn backend_gone(result: Result<(), TxError>) -> bool {
    result == Err::<(), TxError>(TxError::Backend(WriteError::Internal)) || result == Err::<
        (),
        TxError,
    >(TxError::Backend(WriteError::ProcessNotRunning))
}

/// The state agrees with the history.
pub open spec fn agrees(state: TxState, history: TxHistory) -> bool {
    match state.phase {
        TxPhase::Idle | TxPhase::Disabling => true,
        TxPhase::Asking | TxPhase::Finishing => history.held is None && !history.given,
        TxPhase::Popping { irq } => history.held is None && irq == history.given,
        TxPhase::Writing { irq, head } => history.held == Some(head) && irq == history.given,
        TxPhase::Returning { more } => history.held is Some,
        TxPhase::Undoing { irq } => history.held is Some && irq == history.given,
        TxPhase::Considering { result } | TxPhase::Signalling { result } => history.held is None
            && history.given && !backend_gone(result),
        TxPhase::Reporting { result } => {
            &&& history.held is Some <==> backend_gone(result)
            &&& result is Err && !backend_full(result) && !state.deferred
        },
        TxPhase::Enabling { result } => {
            &&& history.held is Some <==> backend_gone(result)
            &&& state.deferred == backend_full(result)
        },
    }
}

/// Every chain that was taken is given back, or put back if the backend took nothing of its frame,
/// before another one is taken and before the round ends; only where the backend failed for good
/// it stays. The chain that is given back is the one that was taken. The guest is interrupted only
/// if a chain was given back, and the round ends with a frame deferred exactly if that is what
/// ended it.
pub proof fn chains_are_given_or_put_back(state: TxState, event: TxEvent, history: TxHistory)
    requires
        agrees(state, history),
        tx_expects(state.phase, event),
    ensures
        agrees(tx_next(state, event).0, history_after(state, event, history)),
        tx_next(state, event).1 is Pop ==> history_after(state, event, history).held is None,
        tx_next(state, event).1 matches TxAction::Return(head) ==> history.held == Some(head) && (
        event matches TxEvent::Written(r) && (r is Ok || r == Err::<(), WriteError>(
            WriteError::PartialWrite,
        ))),
        tx_next(state, event).1 is Undo ==> history.held is Some && event == TxEvent::Written(
            Err(WriteError::NothingWritten),
        ),
        tx_next(state, event).1 is Signal ==> history_after(state, event, history).given,
{
}

/// No frame is taken while another one is half written: chains are taken only after the backend
/// said that there is none, finished it, or took the last frame as a whole.
pub proof fn half_written_frame_is_finished_first(state: TxState, event: TxEvent)
    requires
        tx_expects(state.phase, event),
        tx_next(state, event).1 is Pop,
    ensures
        event == TxEvent::Unfinished(false) || event == TxEvent::Finished(true) || (event
            is Returned && state.phase == (TxPhase::Returning { more: true })),
{
}

/// A chain whose frame was written only in part is given back, and ends the round.
pub proof fn partial_write_ends_the_round(state: TxState, returned: Result<(), QueueError>)
    requires
        state.phase is Writing,
    ensures
        ({
            let (next, action) = tx_next(
                state,
                TxEvent::Written(Err(WriteError::PartialWrite)),
            );
            &&& action == TxAction::Return(state.phase->Writing_head)
            &&& tx_next(next, TxEvent::Returned(returned)).1 !is Pop
        }),
{
}

/// What becomes of a chain that was taken.
#[derive(Clone, Copy, Debug, PartialEq, Eq, Structural)]
pub enum ChainFate {
    /// The backend took its frame, at least in part, and it is given back.
    GivenBack,
    /// The backend took nothing, and it is put back.
    PutBack,
    /// The backend failed for good, and it stays with the device.
    Kept,
}

/// What becomes of a chain, by what became of its frame.
pub open spec fn fate_of(written: Result<(), WriteError>) -> ChainFate {
    match written {
        Ok(_) => ChainFate::GivenBack,
        Err(WriteError::PartialWrite) => ChainFate::GivenBack,
        Err(WriteError::NothingWritten) => ChainFate::PutBack,
        Err(_) => ChainFate::Kept,
    }
}

/// `states` are the states of transmitting between the events `events`.
pub open spec fn tx_run(states: Seq<TxState>, events: Seq<TxEvent>) -> bool {
    &&& states.len() == events.len() + 1
    &&& forall|i: int|
        0 <= i < events.len() ==> tx_expects(states[i].phase, #[trigger] events[i]) && states[i + 1]
            == tx_next(states[i], events[i]).0
}

/// The chains that were taken, in order.
pub open spec fn chains_taken(events: Seq<TxEvent>) -> Seq<u16>
    decreases events.len(),
{
    if events.len() == 0 {
        Seq::empty()
    } else {
        match events.last() {
            TxEvent::Popped(Some(head)) => chains_taken(events.drop_last()).push(head),
            _ => chains_taken(events.drop_last()),
        }
    }
}

/// The chains whose frames the backend has answered for, in order, and what becomes of each.
pub open spec fn chains_decided(states: Seq<TxState>, events: Seq<TxEvent>) -> Seq<(u16, ChainFate)>
    decreases events.len(),
{
    if events.len() == 0 {
        Seq::empty()
    } else {
        let before = chains_decided(states, events.drop_last());
        match (states[events.len() - 1].phase, events.last()) {
            (TxPhase::Writing { irq: _, head }, TxEvent::Written(r)) => before.push(
                (head, fate_of(r)),
            ),
            _ => before,
        }
    }
}

/// The chain whose frame the backend has at the moment.
pub open spec fn chain_at_backend(state: TxState) -> Seq<u16> {
    match state.phase {
        TxPhase::Writing { irq: _, head } => seq![head],
        _ => Seq::empty(),
    }
}

/// `action` is what is to be done about the chain `head` once the backend has answered, by its
/// fate. Where it is kept, that is reported.
pub open spec fn done_about(head: u16, fate: ChainFate, action: TxAction) -> bool {
    match fate {
        ChainFate::GivenBack => action == TxAction::Return(head),
        ChainFate::PutBack => action is Undo,
        ChainFate::Kept => action is Report,
    }
}

/// Chains go to the backend one at a time and in the order in which they were taken, and each is
/// decided on exactly once: it is given back, put back, or ends the round with a backend that is
/// gone.
pub proof fn chains_are_decided_in_order(states: Seq<TxState>, events: Seq<TxEvent>)
    requires
        tx_run(states, events),
        states[0].phase is Idle,
    ensures
        chains_taken(events) == chains_decided(states, events).map_values(
            |decided: (u16, ChainFate)| decided.0,
        ) + chain_at_backend(states.last()),
        forall|i: int|
            0 <= i < events.len() ==> (#[trigger] events[i] matches TxEvent::Written(r) ==> (
            states[i].phase matches TxPhase::Writing { irq: _, head } && done_about(
                head,
                fate_of(r),
                tx_next(states[i], events[i]).1,
            ))),
    decreases events.len(),
{
    let heads = |decided: (u16, ChainFate)| decided.0;
    if events.len() == 0 {
        assert(chains_decided(states, events).map_values(heads) + chain_at_backend(states.last())
            =~= Seq::empty());
    } else {
        let n = events.len() - 1;
        let before = events.drop_last();
        let prior = states.drop_last();
        assert forall|i: int| 0 <= i < before.len() implies tx_expects(
            prior[i].phase,
            #[trigger] before[i],
        ) && prior[i + 1] == tx_next(prior[i], before[i]).0 by {
            assert(before[i] == events[i]);
        }
        chains_are_decided_in_order(prior, before);
        decided_so_far(prior, states, before);
        let earlier = chains_decided(states, before);
        assert(tx_expects(states[n].phase, events[n]));
        assert(states[n + 1] == tx_next(states[n], events[n]).0);
        assert(prior.last() == states[n]);
        match (states[n].phase, events.last()) {
            (TxPhase::Writing { irq: _, head }, TxEvent::Written(r)) => {
                assert(earlier.push((head, fate_of(r))).map_values(heads) =~= earlier.map_values(
                    heads,
                ).push(head));
            },
            _ => {},
        }
        assert(chains_taken(events) =~= chains_decided(states, events).map_values(heads)
            + chain_at_backend(states.last()));
        assert forall|i: int|
            0 <= i < events.len() implies (#[trigger] events[i] matches TxEvent::Written(r) ==> (
        states[i].phase matches TxPhase::Writing { irq: _, head } && done_about(
            head,
            fate_of(r),
            tx_next(states[i], events[i]).1,
        ))) by {
            if i < n {
                assert(before[i] == events[i]);
                assert(prior[i] == states[i]);
            }
        }
    }
}

/// What was decided depends only on the states in which it was.
proof fn decided_so_far(some: Seq<TxState>, more: Seq<TxState>, events: Seq<TxEvent>)
    requires
        events.len() <= some.len() <= more.len(),
        forall|i: int| 0 <= i < some.len() ==> #[trigger] some[i] == more[i],
    ensures
        chains_decided(some, events) == chains_decided(more, events),
    decreases events.len(),
{
    if events.len() > 0 {
        decided_so_far(some, more, events.drop_last());
        assert(some[events.len() - 1] == more[events.len() - 1]);
    }
}

/// Every error that ends a round is reported before notifications are turned on again, and nothing
/// else is; only that the backend is full is no error.
pub proof fn errors_are_reported(state: TxState, event: TxEvent, history: TxHistory)
    requires
        agrees(state, history),
        tx_expects(state.phase, event),
    ensures
        tx_next(state, event).0.phase matches TxPhase::Enabling { result } ==> result is Ok
            || backend_full(result) || (state.phase == (TxPhase::Reporting { result }) && event
            is Reported),
        tx_next(state, event).1 matches TxAction::Report(e) ==> tx_next(state, event).0.phase == (
        TxPhase::Reporting { result: Err(e) }) && !backend_full(Err(e)),
{
}

} // verus!
