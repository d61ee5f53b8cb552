//! The control socket: commands, clients and the rate limit.

use krun_devices::balloon::device::Balloon;
use krun_devices::control::command::{
    cmd_balloon_set, cmd_balloon_stats, dispatch_command,
};
use krun_devices::control::socket::{
    next_setup_step, not_a_socket, AcceptStep, ClientAction, ControlSocket, EventSource,
    ReadOutcome, SetupOutcome, SetupStep, SOCKET_MODE,
};
use krun_devices::control::text::trim;
use krun_devices::epoll::{EventSet, EVENT_HANG_UP, EVENT_IN, EVENT_READ_HANG_UP};
use krun_devices::platform::Platform;
use krun_devices::queue::Queue;
use vm_memory::{GuestAddress, GuestMemoryMmap};

const SECOND: u64 = 1_000_000_000;

fn balloon() -> Balloon {
    Balloon::new(Platform::Linux)
}

fn text_of(action: ClientAction) -> String {
    match action {
        ClientAction::Respond(response) => response.text,
        other => panic!("no response: {other:?}"),
    }
}

fn ask(socket: &mut ControlSocket, now: u64, line: &str) -> String {
    text_of(socket.handle_line(ReadOutcome::Line(line.to_string()), now, None))
}

#[test]
fn test_dispatch_unknown_command() {
    let resp = dispatch_command(r#"{"cmd": "reboot"}"#, None).text;
    assert!(resp.contains("unknown command"));
    assert_eq!(resp, r#"{"ok":false,"error":"unknown command: reboot"}"#);
}

#[test]
fn test_dispatch_balloon_stats_no_device() {
    let resp = dispatch_command(r#"{"cmd": "balloon_stats"}"#, None).text;
    assert!(resp.contains("balloon device not configured"));
    assert_eq!(
        resp,
        r#"{"ok":false,"error":"balloon device not configured"}"#
    );
}

#[test]
fn test_dispatch_balloon_set_no_device() {
    let resp = dispatch_command(r#"{"cmd": "balloon_set", "target_mib": 64}"#, None).text;
    assert!(resp.contains("balloon device not configured"));
    // The missing device is noticed before a missing target.
    let resp = dispatch_command(r#"{"cmd": "balloon_set"}"#, None).text;
    assert!(resp.contains("balloon device not configured"));
}

#[test]
fn test_dispatch_balloon_with_device() {
    let mut b = balloon();

    // Set target to 64 MiB (= 64*256 = 16384 pages).
    let resp = dispatch_command(
        r#"{"cmd": "balloon_set", "target_mib": 64}"#,
        Some(&mut b),
    );
    assert!(resp.text.contains(r#""ok":true"#));
    assert_eq!(resp.text, r#"{"ok":true}"#);
    assert!(!resp.signal);
    assert_eq!(b.num_pages(), 64 * 256);

    // Get stats.
    let resp = dispatch_command(r#"{"cmd": "balloon_stats"}"#, Some(&mut b)).text;
    assert!(resp.contains(r#""target_mib":64"#));
    assert!(resp.contains(r#""actual_mib":0"#));
    assert_eq!(
        resp,
        r#"{"ok":true,"actual_mib":0,"target_mib":64,"free_mib":0}"#
    );
}

#[test]
fn test_missing_cmd_field() {
    let resp = dispatch_command(r#"{"target_mib": 64}"#, None).text;
    assert!(resp.contains("missing or invalid"));
    assert_eq!(
        resp,
        r#"{"ok":false,"error":"missing or invalid 'cmd' field"}"#
    );
}

#[test]
fn test_balloon_set_overflow() {
    let mut b = balloon();

    // u32::MAX * 256 would overflow: an error, and no wrapping.
    let resp = dispatch_command(
        r#"{"cmd": "balloon_set", "target_mib": 4294967295}"#,
        Some(&mut b),
    )
    .text;
    assert!(resp.contains("target_mib too large"));
    // Balloon target is unchanged.
    assert_eq!(b.num_pages(), 0);
}

#[test]
fn largest_target_fits() {
    let mut b = balloon();
    let resp = dispatch_command(
        r#"{"cmd": "balloon_set", "target_mib": 16777215}"#,
        Some(&mut b),
    );
    assert_eq!(resp.text, r#"{"ok":true}"#);
    assert_eq!(b.num_pages(), 16777215 * 256);
    let resp = dispatch_command(
        r#"{"cmd": "balloon_set", "target_mib": 16777216}"#,
        Some(&mut b),
    );
    assert_eq!(
        resp.text,
        r#"{"ok":false,"error":"target_mib too large"}"#
    );
    assert_eq!(b.num_pages(), 16777215 * 256);
}

#[test]
fn refused_target_changes_nothing() {
    let mut b = balloon();
    b.set_num_pages(512);
    for line in [
        r#"{"cmd": "balloon_set"}"#,
        r#"{"cmd": "balloon_set", "target_mib": "64"}"#,
        r#"{"cmd": "balloon_set", "target_mib": -1}"#,
        r#"{"cmd": "balloon_set", "target_mib": 4294967296}"#,
    ] {
        let resp = dispatch_command(line, Some(&mut b));
        assert_eq!(
            resp.text,
            r#"{"ok":false,"error":"missing or invalid 'target_mib' field"}"#
        );
        assert!(!resp.signal);
        assert_eq!(b.num_pages(), 512);
    }
}

#[test]
fn stats_round_down_to_mib() {
    let mut b = balloon();
    b.set_num_pages(2 * 256 + 255);
    b.write_config(4, &(1234 * 256 + 1u32).to_le_bytes());
    assert_eq!(
        dispatch_command(r#"{"cmd":"balloon_stats"}"#, Some(&mut b)).text,
        r#"{"ok":true,"actual_mib":1234,"target_mib":2,"free_mib":0}"#
    );
}

#[test]
fn white_space_around_a_line_is_dropped() {
    assert_eq!(trim(" \t{\"a\": 1}\r\n"), "{\"a\": 1}");
    assert_eq!(trim("\u{a0}\u{3000}x y\u{2028}"), "x y");
    assert_eq!(trim(" \n"), "");
}

#[test]
fn events_are_told_apart_by_their_source() {
    let mut socket = ControlSocket::new(3, 0);
    assert_eq!(socket.process(3), EventSource::Listener);
    assert_eq!(socket.process(5), EventSource::Unexpected);
    socket.client = Some(5);
    assert_eq!(socket.process(5), EventSource::Client);
    assert_eq!(socket.process(6), EventSource::Unexpected);
    assert_eq!(socket.interest_list(), vec![(3, EventSet::new(EVENT_IN))]);
}

#[test]
fn client_is_taken_on_step_by_step() {
    let mut socket = ControlSocket::new(3, 0);
    let step = socket.handle_accept(7);
    assert_eq!(step, AcceptStep::SetNonblocking { fd: 7 });
    let step = socket.next_accept_step(step, true);
    assert_eq!(step, AcceptStep::CloneStream { fd: 7 });
    let step = socket.next_accept_step(step, true);
    assert_eq!(step, AcceptStep::FindSubscriber { fd: 7 });
    let step = socket.next_accept_step(step, true);
    assert_eq!(step, AcceptStep::Register { fd: 7 });
    assert_eq!(socket.client, None);
    assert_eq!(socket.next_accept_step(step, true), AcceptStep::Finished);
    assert_eq!(socket.client, Some(7));
}

#[test]
fn second_client_takes_the_place_of_the_first() {
    let mut socket = ControlSocket::new(3, 0);
    socket.client = Some(7);
    let step = socket.handle_accept(8);
    assert_eq!(step, AcceptStep::Unregister { client: 7, fd: 8 });
    assert_eq!(socket.client, None);
    // Whether that worked makes no difference.
    let step = socket.next_accept_step(step, false);
    assert_eq!(step, AcceptStep::SetNonblocking { fd: 8 });
}

#[test]
fn client_is_given_up_at_the_first_failure() {
    for failing in [
        AcceptStep::SetNonblocking { fd: 9 },
        AcceptStep::CloneStream { fd: 9 },
        AcceptStep::FindSubscriber { fd: 9 },
        AcceptStep::Register { fd: 9 },
    ] {
        let mut socket = ControlSocket::new(3, 0);
        assert_eq!(socket.next_accept_step(failing, false), AcceptStep::Finished);
        assert_eq!(socket.client, None);
    }
}

#[test]
fn hang_up_drops_the_client() {
    for set in [EVENT_HANG_UP, EVENT_READ_HANG_UP, EVENT_IN | EVENT_HANG_UP] {
        let mut socket = ControlSocket::new(3, 0);
        socket.client = Some(5);
        let action = socket.handle_client_data(EventSet::new(set));
        assert!(matches!(action, ClientAction::Disconnect(5)));
        assert_eq!(socket.client, None);
    }
    let mut socket = ControlSocket::new(3, 0);
    assert!(matches!(
        socket.handle_client_data(EventSet::new(EVENT_IN)),
        ClientAction::Nothing
    ));
    socket.client = Some(5);
    assert!(matches!(
        socket.handle_client_data(EventSet::new(EVENT_IN)),
        ClientAction::ReadLine
    ));
    assert_eq!(socket.client, Some(5));
}

#[test]
fn end_of_input_and_errors_drop_the_client() {
    let mut socket = ControlSocket::new(3, 0);
    socket.client = Some(5);
    assert!(matches!(
        socket.handle_line(ReadOutcome::WouldBlock, 1, None),
        ClientAction::Nothing
    ));
    assert_eq!(socket.client, Some(5));
    assert!(matches!(
        socket.handle_line(ReadOutcome::Eof, 1, None),
        ClientAction::Disconnect(5)
    ));
    assert_eq!(socket.client, None);
    assert_eq!(socket.disconnect_client(), None);
    socket.client = Some(6);
    assert!(matches!(
        socket.handle_line(ReadOutcome::Failed, 1, None),
        ClientAction::Disconnect(6)
    ));
    // None of this counts as a command.
    assert_eq!(socket.rate_count, 0);
}

#[test]
fn commands_reach_the_balloon() {
    let mut socket = ControlSocket::new(3, 0);
    let mut b = balloon();
    let line = "  {\"cmd\": \"balloon_set\", \"target_mib\": 3}\r\n".to_string();
    let text = text_of(socket.handle_line(ReadOutcome::Line(line), 5, Some(&mut b)));
    assert_eq!(text, r#"{"ok":true}"#);
    assert_eq!(b.num_pages(), 768);
}

#[test]
fn ten_commands_fit_into_a_window() {
    let limited = r#"{"ok":false,"error":"rate limit exceeded"}"#;
    let start = 40 * SECOND;
    let mut socket = ControlSocket::new(3, start);
    let mut b = balloon();
    for i in 0..10 {
        let text = ask(&mut socket, start + i, r#"{"cmd": "x"}"#);
        assert_eq!(text, r#"{"ok":false,"error":"unknown command: x"}"#);
    }
    // The next one is not carried out.
    let line = r#"{"cmd": "balloon_set", "target_mib": 1}"#.to_string();
    let action = socket.handle_line(
        ReadOutcome::Line(line),
        start + SECOND - 1,
        Some(&mut b),
    );
    assert_eq!(text_of(action), limited);
    assert_eq!(b.num_pages(), 0);
    assert_eq!(socket.rate_count, 11);
    // After a second it goes on, in a window of its own.
    let text = ask(&mut socket, start + SECOND, r#"{"cmd": "x"}"#);
    assert_eq!(text, r#"{"ok":false,"error":"unknown command: x"}"#);
    assert_eq!(socket.rate_count, 1);
    assert_eq!(socket.rate_window_start, start + SECOND);
}

#[test]
fn clock_that_goes_back_opens_no_window() {
    let mut socket = ControlSocket::new(3, SECOND);
    assert!(socket.count_command(0));
    assert_eq!(socket.rate_window_start, SECOND);
    assert_eq!(socket.rate_count, 1);
}

/// Walks through the setup with the given outcomes.
fn setup(outcomes: &[SetupOutcome]) -> Vec<SetupStep> {
    let mut steps = vec![SetupStep::ProbePath];
    for outcome in outcomes {
        let next = next_setup_step(*steps.last().unwrap(), *outcome);
        steps.push(next);
    }
    steps
}

#[test]
fn stale_socket_is_replaced() {
    assert_eq!(
        setup(&[SetupOutcome::Yes; 7]),
        vec![
            SetupStep::ProbePath,
            SetupStep::InspectPath,
            SetupStep::RemoveStale,
            SetupStep::CreateParent,
            SetupStep::Bind,
            SetupStep::SetNonblocking,
            SetupStep::SetPermissions,
            SetupStep::Ready,
        ]
    );
}

#[test]
fn free_path_is_bound_at_once() {
    assert_eq!(
        setup(&[
            SetupOutcome::No,
            SetupOutcome::Yes,
            SetupOutcome::Yes,
            SetupOutcome::Yes,
            SetupOutcome::Failed
        ]),
        vec![
            SetupStep::ProbePath,
            SetupStep::CreateParent,
            SetupStep::Bind,
            SetupStep::SetNonblocking,
            SetupStep::SetPermissions,
            SetupStep::Ready,
        ]
    );
}

#[test]
fn anything_but_a_socket_stays() {
    assert_eq!(
        setup(&[SetupOutcome::Yes, SetupOutcome::No]),
        vec![
            SetupStep::ProbePath,
            SetupStep::InspectPath,
            SetupStep::Refused
        ]
    );
    assert_eq!(
        not_a_socket("/run/vm.txt"),
        "control socket path /run/vm.txt exists and is not a socket"
    );
}

#[test]
fn failed_steps_end_the_setup() {
    for step in [
        SetupStep::InspectPath,
        SetupStep::RemoveStale,
        SetupStep::CreateParent,
        SetupStep::Bind,
        SetupStep::SetNonblocking,
    ] {
        assert_eq!(
            next_setup_step(step, SetupOutcome::Failed),
            SetupStep::Failed
        );
    }
}

#[test]
fn replies_are_single_lines() {
    let mut b = balloon();
    for line in [
        r#"{"cmd": "balloon_set", "target_mib": 1}"#,
        r#"{"cmd": "balloon_stats"}"#,
        r#"{"cmd": "some thing"}"#,
        "",
    ] {
        assert!(!dispatch_command(line, Some(&mut b)).text.contains('\n'));
        assert!(!dispatch_command(line, None).text.contains('\n'));
    }
}

#[test]
fn socket_is_for_its_owner() {
    assert_eq!(SOCKET_MODE, 448);
}

#[test]
fn active_balloon_is_signalled() {
    let mem: GuestMemoryMmap<()> =
        GuestMemoryMmap::from_ranges(&[(GuestAddress(0), 0x1000)]).unwrap();
    let mut b = balloon();
    b.activate(mem, vec![Queue::new(16); 5], true).unwrap();
    let set = r#"{"cmd": "balloon_set", "target_mib": 2}"#;
    assert!(dispatch_command(set, Some(&mut b)).signal);
    assert!(!dispatch_command(r#"{"cmd": "balloon_set"}"#, Some(&mut b)).signal);
    assert!(!dispatch_command(r#"{"cmd": "balloon_stats"}"#, Some(&mut b)).signal);
    assert_eq!(b.num_pages(), 512);
}

#[test]
fn last_target_that_was_set_is_reported() {
    let mut b = balloon();
    assert_eq!(
        cmd_balloon_set(r#"{"target_mib": 70}"#, Some(&mut b)).text,
        r#"{"ok":true}"#
    );
    assert_eq!(
        cmd_balloon_set(r#"{"target_mib" : 9 }"#, Some(&mut b)).text,
        r#"{"ok":true}"#
    );
    assert_eq!(
        cmd_balloon_set(r#"{"target_mib": 16777216}"#, Some(&mut b)).text,
        r#"{"ok":false,"error":"target_mib too large"}"#
    );
    assert_eq!(
        cmd_balloon_stats(Some(&b)),
        r#"{"ok":true,"actual_mib":0,"target_mib":9,"free_mib":0}"#
    );
    assert_eq!(
        cmd_balloon_stats(None),
        r#"{"ok":false,"error":"balloon device not configured"}"#
    );
}
