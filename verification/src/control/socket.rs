//! The state of the control socket: its one client, and how many commands it may give.

use vstd::prelude::*;
use vstd::string::StringExecFns;

use crate::balloon::device::Balloon;
use crate::control::command::{
    config_after, dispatch_command, error_reply, error_text, new_target, reply, Response,
};
use crate::control::text::{trim, trim_end, trim_start};
use crate::epoll::{EventSet, EVENT_HANG_UP, EVENT_IN, EVENT_READ_HANG_UP};

verus! {

/// How many commands are carried out within a window of time.
pub const RATE_LIMIT_MAX: usize = 10;

/// Length of a window, in nanoseconds.
pub const RATE_WINDOW: u64 = 1_000_000_000;

/// Permissions of the socket: it is for its owner alone.
pub const SOCKET_MODE: u32 = 0o700;

/// A step of putting the socket where its path says. The caller does it and hands its outcome
/// back.
#[derive(Clone, Copy, Debug, PartialEq, Eq, Structural)]
pub enum SetupStep {
    /// See whether there is something at the path.
    ProbePath,
    /// See whether it is a socket.
    InspectPath,
    /// Remove it.
    RemoveStale,
    /// Make the directory that the path lies in, unless it is there.
    CreateParent,
    /// Bind the listener.
    Bind,
    /// Make the listener non-blocking.
    SetNonblocking,
    /// Give the socket the permissions `SOCKET_MODE`.
    SetPermissions,
    /// The socket is ready.
    Ready,
    /// There is something else at the path, which stays.
    Refused,
    /// The step before failed.
    Failed,
}

/// The outcome of a step.
#[derive(Clone, Copy, Debug, PartialEq, Eq, Structural)]
pub enum SetupOutcome {
    /// The step was done, or its question is answered with yes.
    Yes,
    /// The question of the step is answered with no.
    No,
    /// The step could not be done.
    Failed,
}

/// The step after `step`, which had the given outcome.
pub open spec fn setup_after(step: SetupStep, outcome: SetupOutcome) -> SetupStep {
    match step {
        SetupStep::ProbePath => if outcome is Yes {
            SetupStep::InspectPath
        } else {
            SetupStep::CreateParent
        },
        SetupStep::InspectPath => match outcome {
            SetupOutcome::Yes => SetupStep::RemoveStale,
            SetupOutcome::No => SetupStep::Refused,
            SetupOutcome::Failed => SetupStep::Failed,
        },
        SetupStep::RemoveStale => if outcome is Yes {
            SetupStep::CreateParent
        } else {
            SetupStep::Failed
        },
        SetupStep::CreateParent => if outcome is Yes {
            SetupStep::Bind
        } else {
            SetupStep::Failed
        },
        SetupStep::Bind => if outcome is Yes {
            SetupStep::SetNonblocking
        } else {
            SetupStep::Failed
        },
        SetupStep::SetNonblocking => if outcome is Yes {
            SetupStep::SetPermissions
        } else {
            SetupStep::Failed
        },
        SetupStep::SetPermissions => SetupStep::Ready,
        SetupStep::Ready | SetupStep::Refused | SetupStep::Failed => step,
    }
}

/// The step after `step`, which had the given outcome.
pub fn next_setup_step(step: SetupStep, outcome: SetupOutcome) -> (r: SetupStep)
    ensures
        r == setup_after(step, outcome),
{
    match (step, outcome) {
        (SetupStep::ProbePath, SetupOutcome::Yes) => SetupStep::InspectPath,
        (SetupStep::ProbePath, _) => SetupStep::CreateParent,
        (SetupStep::InspectPath, SetupOutcome::Yes) => SetupStep::RemoveStale,
        (SetupStep::InspectPath, SetupOutcome::No) => SetupStep::Refused,
        (SetupStep::RemoveStale, SetupOutcome::Yes) => SetupStep::CreateParent,
        (SetupStep::CreateParent, SetupOutcome::Yes) => SetupStep::Bind,
        (SetupStep::Bind, SetupOutcome::Yes) => SetupStep::SetNonblocking,
        (SetupStep::SetNonblocking, SetupOutcome::Yes) => SetupStep::SetPermissions,
        (SetupStep::SetPermissions, _) => SetupStep::Ready,
        (SetupStep::Ready, _) => SetupStep::Ready,
        (SetupStep::Refused, _) => SetupStep::Refused,
        _ => SetupStep::Failed,
    }
}

/// Only a socket is ever removed from the path.
pub proof fn only_sockets_are_removed(step: SetupStep, outcome: SetupOutcome)
    requires
        setup_after(step, outcome) is RemoveStale,
    ensures
        step is InspectPath && outcome is Yes,
{
}

/// A socket that is ready was bound and made non-blocking, as the last steps before the one on
/// its permissions.
pub proof fn ready_socket_was_bound(
    steps: Seq<SetupStep>,
    outcomes: Seq<SetupOutcome>,
)
    requires
        steps.len() == outcomes.len() + 1,
        steps[0] is ProbePath,
        forall|i: int|
            0 <= i < outcomes.len() ==> #[trigger] steps[i + 1] == setup_after(
                steps[i],
                outcomes[i],
            ),
        steps.last() is Ready,
        !(steps[steps.len() - 2] is Ready),
    ensures
        steps.len() >= 6,
        steps[steps.len() - 2] is SetPermissions,
        steps[steps.len() - 3] is SetNonblocking && outcomes[outcomes.len() - 2] is Yes,
        steps[steps.len() - 4] is Bind && outcomes[outcomes.len() - 3] is Yes,
        steps[steps.len() - 5] is CreateParent && outcomes[outcomes.len() - 4] is Yes,
{
    let n = outcomes.len() as int;
    assert(n >= 1);
    assert(steps[n - 1 + 1] == setup_after(steps[n - 1], outcomes[n - 1]));
    assert(n >= 2);
    assert(steps[n - 2 + 1] == setup_after(steps[n - 2], outcomes[n - 2]));
    assert(n >= 3);
    assert(steps[n - 3 + 1] == setup_after(steps[n - 3], outcomes[n - 3]));
    assert(n >= 4);
    assert(steps[n - 4 + 1] == setup_after(steps[n - 4], outcomes[n - 4]));
    assert(n >= 5);
}

/// What is said of a path at which there is something else.
pub fn not_a_socket(path: &str) -> (r: String)
    ensures
        r@ == "control socket path "@ + path@ + " exists and is not a socket"@,
{
    let mut s: String = "control socket path ".to_owned();
    s.append(path);
    s.append(" exists and is not a socket");
    s
}

/// A step of taking on a client.
#[derive(Clone, Copy, Debug, PartialEq, Eq, Structural)]
pub enum AcceptStep {
    /// Stop watching the old client, which makes room for `fd`.
    Unregister { client: i32, fd: i32 },
    /// Make the connection non-blocking.
    SetNonblocking { fd: i32 },
    /// Open a second handle to the connection, for writing.
    CloneStream { fd: i32 },
    /// Look up who watches the listener.
    FindSubscriber { fd: i32 },
    /// Have the connection watched for input.
    Register { fd: i32 },
    /// The client was taken on, or the connection is dropped.
    Finished,
}

/// The step after `step`. Whether the old client could be unregistered makes no difference.
pub open spec fn accept_after(step: AcceptStep, succeeded: bool) -> AcceptStep {
    match step {
        AcceptStep::Unregister { client, fd } => AcceptStep::SetNonblocking { fd },
        AcceptStep::SetNonblocking { fd } => if succeeded {
            AcceptStep::CloneStream { fd }
        } else {
            AcceptStep::Finished
        },
        AcceptStep::CloneStream { fd } => if succeeded {
            AcceptStep::FindSubscriber { fd }
        } else {
            AcceptStep::Finished
        },
        AcceptStep::FindSubscriber { fd } => if succeeded {
            AcceptStep::Register { fd }
        } else {
            AcceptStep::Finished
        },
        AcceptStep::Register { fd } => AcceptStep::Finished,
        AcceptStep::Finished => AcceptStep::Finished,
    }
}

/// Where an event comes from.
#[derive(Clone, Copy, Debug, PartialEq, Eq, Structural)]
pub enum EventSource {
    Listener,
    Client,
    Unexpected,
}

/// What reading a line from the client gave.
#[derive(Debug)]
pub enum ReadOutcome {
    /// The client has closed the connection.
    Eof,
    Line(String),
    /// There is no whole line yet.
    WouldBlock,
    Failed,
}

/// What is to be done for the client.
#[derive(Debug)]
pub enum ClientAction {
    Nothing,
    /// Stop watching the connection and drop it.
    Disconnect(i32),
    /// Read a line.
    ReadLine,
    /// Send the response, as a line.
    Respond(Response),
}

/// The control socket.
#[derive(Clone, Copy, Debug, PartialEq, Eq, Structural)]
pub struct ControlSocket {
    /// File descriptor of the listener.
    pub listener: i32,
    /// File descriptor of the client's connection.
    pub client: Option<i32>,
    /// When the current window began, in nanoseconds.
    pub rate_window_start: u64,
    /// How many commands came within it.
    pub rate_count: usize,
}

/// A window has passed since the one that began at `start`.
pub open spec fn window_over(start: u64, now: u64) -> bool {
    now - start >= RATE_WINDOW
}

impl ControlSocket {
    /// A socket without a client.
    pub fn new(listener: i32, now: u64) -> (r: ControlSocket)
        ensures
            r == (ControlSocket {
                listener,
                client: None,
                rate_window_start: now,
                rate_count: 0,
            }),
    {
        ControlSocket { listener, client: None, rate_window_start: now, rate_count: 0 }
    }

    /// Where an event on `source` comes from.
    pub fn process(&self, source: i32) -> (r: EventSource)
        ensures
            r == if source == self.listener {
                EventSource::Listener
            } else if self.client == Some(source) {
                EventSource::Client
            } else {
                EventSource::Unexpected
            },
    {
        if source == self.listener {
            return EventSource::Listener;
        }
        match self.client {
            Some(fd) if fd == source => EventSource::Client,
            _ => EventSource::Unexpected,
        }
    }

    /// What is to be watched for as long as there is a socket.
    pub fn interest_list(&self) -> (r: Vec<(i32, EventSet)>)
        ensures
            r@ == seq![(self.listener, EventSet { bits: EVENT_IN })],
            r@[0].1.bits == 1,
    {
        let mut r: Vec<(i32, EventSet)> = Vec::with_capacity(1);
        r.push((self.listener, EventSet::new(EVENT_IN)));
        assert(r@ =~= seq![(self.listener, EventSet { bits: EVENT_IN })]);
        r
    }

    /// Begins to take on the client with the connection `fd`. There is one client at a time: one
    /// that is there is dropped.
    pub fn handle_accept(&mut self, fd: i32) -> (r: AcceptStep)
        ensures
            *final(self) == (ControlSocket { client: None, ..*old(self) }),
            r == match old(self).client {
                Some(client) => AcceptStep::Unregister { client, fd },
                None => AcceptStep::SetNonblocking { fd },
            },
    {
        match self.disconnect_client() {
            Some(client) => AcceptStep::Unregister { client, fd },
            None => AcceptStep::SetNonblocking { fd },
        }
    }

    /// Goes on with taking on a client after a step succeeded or did not. The client is there once
    /// its connection is watched.
    pub fn next_accept_step(&mut self, step: AcceptStep, succeeded: bool) -> (r: AcceptStep)
        ensures
            r == accept_after(step, succeeded),
            *final(self) == (ControlSocket {
                client: if succeeded && step is Register {
                    Some(step->Register_fd)
                } else {
                    old(self).client
                },
                ..*old(self)
            }),
    {
        match step {
            AcceptStep::Unregister { client: _, fd } => AcceptStep::SetNonblocking { fd },
            AcceptStep::SetNonblocking { fd } if succeeded => AcceptStep::CloneStream { fd },
            AcceptStep::CloneStream { fd } if succeeded => AcceptStep::FindSubscriber { fd },
            AcceptStep::FindSubscriber { fd } if succeeded => AcceptStep::Register { fd },
            AcceptStep::Register { fd } => {
                if succeeded {
                    self.client = Some(fd);
                }
                AcceptStep::Finished
            },
            _ => AcceptStep::Finished,
        }
    }

    /// Drops the client and returns its connection, which is to be watched no longer.
    pub fn disconnect_client(&mut self) -> (r: Option<i32>)
        ensures
            r == old(self).client,
            *final(self) == (ControlSocket { client: None, ..*old(self) }),
    {
        let client: Option<i32> = self.client;
        self.client = None;
        client
    }

    /// Drops the client, as the caller is to do with the connection.
    fn drop_client(&mut self) -> (r: ClientAction)
        ensures
            r == match old(self).client {
                Some(fd) => ClientAction::Disconnect(fd),
                None => ClientAction::Nothing,
            },
            *final(self) == (ControlSocket { client: None, ..*old(self) }),
    {
        match self.disconnect_client() {
            Some(fd) => ClientAction::Disconnect(fd),
            None => ClientAction::Nothing,
        }
    }

    /// Handles events on the client's connection.
    pub fn handle_client_data(&mut self, events: EventSet) -> (r: ClientAction)
        ensures
            events.has(EVENT_HANG_UP) || events.has(EVENT_READ_HANG_UP) ==> {
                &&& r == match old(self).client {
                    Some(fd) => ClientAction::Disconnect(fd),
                    None => ClientAction::Nothing,
                }
                &&& *final(self) == (ControlSocket { client: None, ..*old(self) })
            },
            !events.has(EVENT_HANG_UP) && !events.has(EVENT_READ_HANG_UP) ==> {
                &&& r == match old(self).client {
                    Some(fd) => ClientAction::ReadLine,
                    None => ClientAction::Nothing,
                }
                &&& *final(self) == *old(self)
            },
    {
        if events.contains(EVENT_HANG_UP) || events.contains(EVENT_READ_HANG_UP) {
            return self.drop_client();
        }
        match self.client {
            Some(_) => ClientAction::ReadLine,
            None => ClientAction::Nothing,
        }
    }

    /// The socket after a command came at `now`, be it carried out or not.
    pub open spec fn counted(self, now: u64) -> ControlSocket {
        if window_over(self.rate_window_start, now) {
            ControlSocket { rate_window_start: now, rate_count: 1, ..self }
        } else {
            ControlSocket { rate_count: (self.rate_count + 1) as usize, ..self }
        }
    }

    /// A command that comes at `now` is carried out.
    pub open spec fn admits(self, now: u64) -> bool {
        window_over(self.rate_window_start, now) || self.rate_count < RATE_LIMIT_MAX
    }

    /// Counts a command that comes at `now`, and returns whether it is to be carried out.
    pub fn count_command(&mut self, now: u64) -> (r: bool)
        requires
            window_over(old(self).rate_window_start, now) || old(self).rate_count < usize::MAX,
        ensures
            r == old(self).admits(now),
            *final(self) == old(self).counted(now),
    {
        if now >= self.rate_window_start && now - self.rate_window_start >= RATE_WINDOW {
            self.rate_window_start = now;
            self.rate_count = 0;
        }
        self.rate_count = self.rate_count + 1;
        self.rate_count <= RATE_LIMIT_MAX
    }

    /// Handles what was read from the client at `now`. A command over the limit is answered and
    /// not carried out.
    pub fn handle_line(
        &mut self,
        outcome: ReadOutcome,
        now: u64,
        balloon: Option<&mut Balloon>,
    ) -> (r: ClientAction)
        requires
            outcome is Line ==> window_over(old(self).rate_window_start, now) || old(
                self,
            ).rate_count < usize::MAX,
        ensures
            match outcome {
                ReadOutcome::Eof | ReadOutcome::Failed => {
                    &&& r == match old(self).client {
                        Some(fd) => ClientAction::Disconnect(fd),
                        None => ClientAction::Nothing,
                    }
                    &&& *final(self) == (ControlSocket { client: None, ..*old(self) })
                    &&& balloon matches Some(b) ==> *final(b) == *b
                },
                ReadOutcome::WouldBlock => {
                    &&& r is Nothing
                    &&& *final(self) == *old(self)
                    &&& balloon matches Some(b) ==> *final(b) == *b
                },
                ReadOutcome::Line(line) => {
                    let command = trim_end(trim_start(line@));
                    &&& r is Respond
                    &&& *final(self) == old(self).counted(now)
                    &&& if old(self).admits(now) {
                        &&& r->Respond_0.text@ == reply(
                            command,
                            match balloon {
                                Some(b) => Some(b.config),
                                None => None,
                            },
                        )
                        &&& match balloon {
                            Some(b) => {
                                &&& *final(b) == (Balloon {
                                    config: config_after(command, b.config),
                                    ..*b
                                })
                                &&& r->Respond_0.signal == (new_target(command) is Some
                                    && b.activated())
                            },
                            None => !r->Respond_0.signal,
                        }
                    } else {
                        &&& r->Respond_0.text@ == error_reply("rate limit exceeded"@)
                        &&& !r->Respond_0.signal
                        &&& balloon matches Some(b) ==> *final(b) == *b
                    }
                },
            },
    {
        let line: String = match outcome {
            ReadOutcome::Line(line) => line,
            ReadOutcome::WouldBlock => {
                return ClientAction::Nothing;
            },
            ReadOutcome::Eof | ReadOutcome::Failed => {
                return self.drop_client();
            },
        };
        if !self.count_command(now) {
            return ClientAction::Respond(
                Response { text: error_text("rate limit exceeded"), signal: false },
            );
        }
        let command: String = trim(line.as_str());
        ClientAction::Respond(dispatch_command(command.as_str(), balloon))
    }
}

/// The socket after commands came at the times `times`.
pub open spec fn counted_all(socket: ControlSocket, times: Seq<u64>) -> ControlSocket
    decreases times.len(),
{
    if times.len() == 0 {
        socket
    } else {
        counted_all(socket, times.drop_last()).counted(times.last())
    }
}

/// How many of the commands that came at the times `times` are carried out.
pub open spec fn admitted(socket: ControlSocket, times: Seq<u64>) -> nat
    decreases times.len(),
{
    if times.len() == 0 {
        0
    } else {
        admitted(socket, times.drop_last()) + if counted_all(socket, times.drop_last()).admits(
            times.last(),
        ) {
            1nat
        } else {
            0
        }
    }
}

/// Within a window no more commands are carried out than the limit allows, counting from the
/// beginning of the window, and as many as it allows.
pub proof fn window_admits_up_to_the_limit(socket: ControlSocket, times: Seq<u64>)
    requires
        socket.rate_count + times.len() <= usize::MAX,
        forall|i: int|
            0 <= i < times.len() ==> !window_over(socket.rate_window_start, #[trigger] times[i]),
    ensures
        counted_all(socket, times) == (ControlSocket {
            rate_count: (socket.rate_count + times.len()) as usize,
            ..socket
        }),
        admitted(socket, times) == if socket.rate_count >= RATE_LIMIT_MAX {
            0int
        } else if socket.rate_count + times.len() <= RATE_LIMIT_MAX {
            times.len() as int
        } else {
            RATE_LIMIT_MAX - socket.rate_count
        },
    decreases times.len(),
{
    if times.len() > 0 {
        let before = times.drop_last();
        assert forall|i: int| 0 <= i < before.len() implies !window_over(
            socket.rate_window_start,
            #[trigger] before[i],
        ) by {
            assert(before[i] == times[i]);
        }
        window_admits_up_to_the_limit(socket, before);
        assert(!window_over(socket.rate_window_start, times[times.len() - 1]));
    }
}

/// The first command after a window has passed is carried out, and opens a new window.
pub proof fn new_window_admits(socket: ControlSocket, now: u64)
    requires
        window_over(socket.rate_window_start, now),
    ensures
        socket.admits(now),
        socket.counted(now).rate_window_start == now,
        socket.counted(now).rate_count == 1,
{
}

/// The step of taking on a client after the steps so far had the given outcomes.
pub open spec fn accept_run(first: AcceptStep, outcomes: Seq<bool>) -> AcceptStep
    decreases outcomes.len(),
{
    if outcomes.len() == 0 {
        first
    } else {
        accept_after(accept_run(first, outcomes.drop_last()), outcomes.last())
    }
}

/// The steps by which the connection `fd` is taken on, in order.
pub open spec fn accept_steps(fd: i32) -> Seq<AcceptStep> {
    seq![
        AcceptStep::SetNonblocking { fd },
        AcceptStep::CloneStream { fd },
        AcceptStep::FindSubscriber { fd },
        AcceptStep::Register { fd },
    ]
}

/// A connection is taken on step by step as long as each step succeeds, and given up at the first
/// that does not: it comes to be watched only after it was made non-blocking, a second handle was
/// opened and the watcher was found.
pub proof fn watched_connection_was_prepared(fd: i32, outcomes: Seq<bool>)
    ensures
        accept_run(AcceptStep::SetNonblocking { fd }, outcomes) == if outcomes.len() < 4 && forall|
            i: int,
        |
            0 <= i < outcomes.len() ==> outcomes[i] {
            accept_steps(fd)[outcomes.len() as int]
        } else {
            AcceptStep::Finished
        },
    decreases outcomes.len(),
{
    if outcomes.len() > 0 {
        let before = outcomes.drop_last();
        watched_connection_was_prepared(fd, before);
        if forall|i: int| 0 <= i < before.len() ==> before[i] {
            assert forall|i: int| 0 <= i < before.len() implies outcomes[i] by {
                assert(before[i]);
            }
        } else {
            let i = choose|i: int| 0 <= i < before.len() && !before[i];
            assert(!outcomes[i]);
        }
    }
}

} // verus!
