//! Setting the control socket up, taking on clients, and the limit on their commands.

use vstd::prelude::*;

use crate::control::socket::{
    accept_after, setup_after, window_over, AcceptStep, ControlSocket, SetupOutcome, SetupStep,
    SOCKET_MODE,
};

verus! {

/// The steps to a socket at a path where an old socket lies, or nothing.
pub open spec fn way_to_ready(stale: bool) -> Seq<SetupStep> {
    if stale {
        seq![
            SetupStep::ProbePath,
            SetupStep::InspectPath,
            SetupStep::RemoveStale,
            SetupStep::CreateParent,
            SetupStep::Bind,
            SetupStep::SetNonblocking,
            SetupStep::SetPermissions,
            SetupStep::Ready,
        ]
    } else {
        seq![
            SetupStep::ProbePath,
            SetupStep::CreateParent,
            SetupStep::Bind,
            SetupStep::SetNonblocking,
            SetupStep::SetPermissions,
            SetupStep::Ready,
        ]
    }
}

/// As long as each step succeeds, setting up goes its way to the end. Whether something lies at the
/// path decides about the way; that permissions cannot be set does not stop it.
pub proof fn setting_up_goes_its_way(stale: bool, i: int, outcome: SetupOutcome)
    requires
        0 <= i < way_to_ready(stale).len() - 1,
        i == 0 ==> (outcome is Yes <==> stale),
        0 < i < way_to_ready(stale).len() - 2 ==> outcome is Yes,
    ensures
        setup_after(way_to_ready(stale)[i], outcome) == way_to_ready(stale)[i + 1],
{
}

/// Setting up ends at a step that does not succeed: it is refused if what lies at the path is no
/// socket, and failed otherwise. What has ended stays so.
pub proof fn setting_up_ends_at_the_first_failure(step: SetupStep, outcome: SetupOutcome)
    ensures
        step is InspectPath && outcome is No ==> setup_after(step, outcome) is Refused,
        step is InspectPath && outcome is Failed ==> setup_after(step, outcome) is Failed,
        step is RemoveStale && outcome !is Yes ==> setup_after(step, outcome) is Failed,
        step is CreateParent && outcome !is Yes ==> setup_after(step, outcome) is Failed,
        step is Bind && outcome !is Yes ==> setup_after(step, outcome) is Failed,
        step is SetNonblocking && outcome !is Yes ==> setup_after(step, outcome) is Failed,
        step is Ready || step is Refused || step is Failed ==> setup_after(step, outcome) == step,
{
}

/// The owner of the socket may do everything with it, and nobody else anything.
pub proof fn socket_is_for_its_owner()
    ensures
        SOCKET_MODE & 0o777 == 0o700,
{
    assert(0o700u32 & 0o777u32 == 0o700u32) by (bit_vector);
}

/// The old client makes room whether or not it could be unregistered, and then its successor is
/// taken on like any other.
pub proof fn old_client_makes_room(client: i32, fd: i32, succeeded: bool)
    ensures
        accept_after(AcceptStep::Unregister { client, fd }, succeeded) == (
        AcceptStep::SetNonblocking { fd }),
        accept_after(AcceptStep::SetNonblocking { fd }, true) == (AcceptStep::CloneStream { fd }),
        accept_after(AcceptStep::CloneStream { fd }, true) == (AcceptStep::FindSubscriber { fd }),
        accept_after(AcceptStep::FindSubscriber { fd }, true) == (AcceptStep::Register { fd }),
        accept_after(AcceptStep::Register { fd }, succeeded) is Finished,
        accept_after(AcceptStep::SetNonblocking { fd }, false) is Finished,
        accept_after(AcceptStep::CloneStream { fd }, false) is Finished,
        accept_after(AcceptStep::FindSubscriber { fd }, false) is Finished,
        accept_after(AcceptStep::Finished, succeeded) is Finished,
{
}

/// A command is carried out if it is one of the first ten of its second, or if the second is over,
/// with which a new one begins. Each command counts, and nothing else changes.
pub proof fn ten_commands_a_second(socket: ControlSocket, now: u64)
    ensures
        window_over(socket.rate_window_start, now) <==> now >= socket.rate_window_start
            + 1_000_000_000,
        now >= socket.rate_window_start + 1_000_000_000 ==> {
            &&& socket.admits(now)
            &&& socket.counted(now) == (ControlSocket {
                rate_window_start: now,
                rate_count: 1,
                ..socket
            })
        },
        now < socket.rate_window_start + 1_000_000_000 ==> {
            &&& socket.admits(now) <==> socket.rate_count <= 9
            &&& socket.rate_count < usize::MAX ==> socket.counted(now) == (ControlSocket {
                rate_count: (socket.rate_count + 1) as usize,
                ..socket
            })
        },
{
}

} // verus!
