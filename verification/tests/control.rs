use std::collections::VecDeque;

use rmux_server::control::{
    unix_epoch_seconds, ControlAction, ControlClientFlags, ControlLoop, ControlUpgradeInput,
};
use rmux_server::control_commands::{
    control_commands_abort_on_eof, validate_control_command_arguments, CommandArgument,
    ParsedCommand,
};
use rmux_server::control_events::{
    ControlEventAction, ControlServerEvent, DeferredServerEvents,
    MAX_DEFERRED_CONTROL_NOTIFICATIONS, MAX_DEFERRED_CONTROL_NOTIFICATION_BYTES,
};
use rmux_server::control_lines::{
    append_control_input, consume_control_eof_marker, extract_complete_control_lines,
    ControlErrorKind, MAX_CONTROL_LINE_BYTES, MAX_QUEUED_CONTROL_LINES,
};
use rmux_server::control_output::{
    ensure_control_newline, format_exit_line, format_guard_line, ControlCommandNumbering,
    ControlGuardKind, ControlOutputQueue,
};
use rmux_server::error::RmuxError;

const EOF_MARKER: &str = "\u{1}rmux-control-eof";

#[test]
fn extracts_complete_control_lines_from_buffer() {
    let mut buffer = b"one\ntwo\r\nthree".to_vec();
    let lines = extract_complete_control_lines(&mut buffer);

    assert_eq!(lines, vec!["one".to_owned(), "two".to_owned()]);
    assert_eq!(buffer, b"three");
}

#[test]
fn extracts_empty_line_for_exit_trigger() {
    let mut buffer = b"\n".to_vec();
    let lines = extract_complete_control_lines(&mut buffer);

    assert_eq!(lines, vec!["".to_owned()]);
    assert!(buffer.is_empty());
}

#[test]
fn empty_buffer_produces_no_lines() {
    let mut buffer = Vec::new();
    let lines = extract_complete_control_lines(&mut buffer);

    assert!(lines.is_empty());
    assert!(buffer.is_empty());
}

#[test]
fn multiple_empty_lines_are_preserved() {
    let mut buffer = b"\n\ncommand\n".to_vec();
    let lines = extract_complete_control_lines(&mut buffer);

    assert_eq!(
        lines,
        vec!["".to_owned(), "".to_owned(), "command".to_owned()]
    );
    assert!(buffer.is_empty());
}

#[test]
fn lines_that_are_not_utf8_are_read_with_replacements() {
    let mut buffer = b"caf\xc3\xa9\nbad\xff\n".to_vec();
    assert_eq!(
        extract_complete_control_lines(&mut buffer),
        vec!["caf\u{e9}".to_owned(), "bad\u{fffd}".to_owned()]
    );
}

#[test]
fn control_input_rejects_unterminated_oversize_lines() {
    let mut input_buffer = Vec::new();
    let mut queued_lines = VecDeque::new();
    let mut queued_bytes = 0;
    let oversized = vec![b'x'; MAX_CONTROL_LINE_BYTES + 1];

    let error = append_control_input(
        &mut input_buffer,
        &mut queued_lines,
        &mut queued_bytes,
        &oversized,
    )
    .expect_err("unterminated oversized input must be rejected");
    assert_eq!(error.kind(), ControlErrorKind::InvalidData);
    assert_eq!(
        error.message,
        "control input line exceeds 1048576 bytes without a newline"
    );
}

#[test]
fn control_input_rejects_terminated_oversize_lines() {
    let mut input_buffer = Vec::new();
    let mut queued_lines = VecDeque::new();
    let mut queued_bytes = 0;
    let mut oversized = vec![b'x'; MAX_CONTROL_LINE_BYTES + 1];
    oversized.push(b'\n');

    let error = append_control_input(
        &mut input_buffer,
        &mut queued_lines,
        &mut queued_bytes,
        &oversized,
    )
    .expect_err("an oversized line must be rejected");
    assert_eq!(error.kind(), ControlErrorKind::InvalidData);
    assert_eq!(error.message, "control input line exceeds 1048576 bytes");
}

#[test]
fn control_input_rejects_excessive_queued_lines() {
    let mut input_buffer = Vec::new();
    let mut queued_lines = VecDeque::new();
    let mut queued_bytes = 0;
    let input = "x\n".repeat(MAX_QUEUED_CONTROL_LINES + 1);

    let error = append_control_input(
        &mut input_buffer,
        &mut queued_lines,
        &mut queued_bytes,
        input.as_bytes(),
    )
    .expect_err("an excessive command backlog must be rejected");
    assert_eq!(error.kind(), ControlErrorKind::InvalidData);
    assert_eq!(
        error.message,
        "control input queue exceeds 1024 lines or 4194304 bytes"
    );
    assert_eq!(queued_lines.len(), MAX_QUEUED_CONTROL_LINES);
}

#[test]
fn lines_are_the_same_however_the_stream_is_read() {
    let input = b"one\r\ntwo\nthree";
    for split in 0..input.len() {
        let mut input_buffer = Vec::new();
        let mut queued_lines = VecDeque::new();
        let mut queued_bytes = 0;
        for part in [&input[..split], &input[split..]] {
            append_control_input(
                &mut input_buffer,
                &mut queued_lines,
                &mut queued_bytes,
                part,
            )
            .expect("input is accepted");
        }
        assert_eq!(queued_lines, ["one".to_owned(), "two".to_owned()]);
        assert_eq!(queued_bytes, 6);
        assert_eq!(input_buffer, b"three");
    }
}

#[test]
fn windows_eof_marker_discards_an_incomplete_command_prefix() {
    let mut input_buffer = Vec::new();
    let mut queued_lines = VecDeque::new();
    let mut queued_bytes = 0;
    let input = format!("display-message -p must-not-run{EOF_MARKER}\n");
    append_control_input(
        &mut input_buffer,
        &mut queued_lines,
        &mut queued_bytes,
        input.as_bytes(),
    )
    .expect("private EOF marker input parses");

    assert!(consume_control_eof_marker(
        &mut input_buffer,
        &mut queued_lines,
        &mut queued_bytes,
        EOF_MARKER,
    ));
    assert!(queued_lines.is_empty());
    assert_eq!(queued_bytes, 0);
    assert!(input_buffer.is_empty());
}

#[test]
fn input_without_the_eof_marker_is_kept() {
    let mut input_buffer = b"rest".to_vec();
    let mut queued_lines: VecDeque<String> = ["list-keys".to_owned()].into_iter().collect();
    let mut queued_bytes = 9;
    assert!(!consume_control_eof_marker(
        &mut input_buffer,
        &mut queued_lines,
        &mut queued_bytes,
        EOF_MARKER,
    ));
    assert_eq!(queued_lines, ["list-keys".to_owned()]);
    assert_eq!(queued_bytes, 9);
    assert_eq!(input_buffer, b"rest");
}

#[test]
fn stdout_lines_are_newline_terminated() {
    assert_eq!(ensure_control_newline(b"hello".to_vec()), b"hello\n");
    assert_eq!(ensure_control_newline(b"hello\n".to_vec()), b"hello\n");
}

#[test]
fn output_queue_tracks_buffered_bytes() {
    let mut queue = ControlOutputQueue::default();
    assert_eq!(queue.buffered_bytes, 0);

    queue.enqueue_line(b"hello\n".to_vec(), true);
    assert_eq!(queue.buffered_bytes, 6);

    queue.enqueue_stdout(b"world".to_vec());
    assert_eq!(queue.buffered_bytes, 12); // 6 + "world\n" = 6
}

#[test]
fn enqueue_stdout_skips_empty_bytes() {
    let mut queue = ControlOutputQueue::default();
    queue.enqueue_stdout(Vec::new());
    assert_eq!(queue.blocks.len(), 0);
    assert_eq!(queue.buffered_bytes, 0);
}

#[test]
fn guard_and_exit_lines_have_their_exact_form() {
    assert_eq!(
        format_guard_line(ControlGuardKind::Begin, 1700000000, 7, 1),
        "%begin 1700000000 7 1\n"
    );
    assert_eq!(
        format_guard_line(ControlGuardKind::End, 0, 1, 0),
        "%end 0 1 0\n"
    );
    assert_eq!(
        format_guard_line(ControlGuardKind::Error, -5, 2, 1),
        "%error -5 2 1\n"
    );
    assert_eq!(format_exit_line(None), "%exit\n");
    assert_eq!(
        format_exit_line(Some("server shutting down")),
        "%exit server shutting down\n"
    );
}

#[test]
fn initial_commands_carry_flag_zero_and_later_ones_flag_one() {
    let mut numbering = ControlCommandNumbering::with_initial_commands(2);
    let frames = [
        numbering.next_frame(),
        numbering.next_frame(),
        numbering.next_frame(),
    ];
    assert_eq!(
        frames.map(|frame| (frame.number, frame.guard_flag)),
        [(1, 0), (2, 0), (3, 1)]
    );
    let mut numbering = ControlCommandNumbering::after_initial_ack();
    let frame = numbering.next_frame();
    assert_eq!((frame.number, frame.guard_flag), (2, 1));
}

#[test]
fn deferred_control_notifications_are_bounded() {
    let mut deferred = DeferredServerEvents::default();

    for index in 0..MAX_DEFERRED_CONTROL_NOTIFICATIONS {
        deferred.defer_notification(format!("%message {index}"));
    }

    assert_eq!(
        deferred.notifications.len(),
        MAX_DEFERRED_CONTROL_NOTIFICATIONS
    );
    assert!(deferred.exit_reason.is_none());

    deferred.defer_notification("%message overflow".to_owned());

    assert!(deferred.notifications.is_empty());
    assert_eq!(
        deferred.exit_reason,
        Some(Some("control notification queue exceeded".to_owned()))
    );

    deferred.defer_notification("%message after-overflow".to_owned());
    assert!(deferred.notifications.is_empty());
}

#[test]
fn deferred_control_notification_bytes_are_bounded_and_accounted_on_pop() {
    let mut deferred = DeferredServerEvents::default();
    let first = "x".repeat(MAX_DEFERRED_CONTROL_NOTIFICATION_BYTES / 2);
    let second = "y".repeat(MAX_DEFERRED_CONTROL_NOTIFICATION_BYTES / 2);
    deferred.defer_notification(first.clone());
    deferred.defer_notification(second);
    assert_eq!(
        deferred.notification_bytes,
        MAX_DEFERRED_CONTROL_NOTIFICATION_BYTES
    );

    assert_eq!(deferred.pop_notification(), Some(first));
    assert_eq!(
        deferred.notification_bytes,
        MAX_DEFERRED_CONTROL_NOTIFICATION_BYTES / 2
    );

    deferred.defer_notification("z".repeat(MAX_DEFERRED_CONTROL_NOTIFICATION_BYTES / 2 + 1));
    assert!(deferred.notifications.is_empty());
    assert_eq!(deferred.notification_bytes, 0);
    assert!(deferred.exit_reason.is_some());
}

fn command(name: &str, arguments: &[&str]) -> ParsedCommand {
    ParsedCommand {
        name: name.to_owned(),
        arguments: arguments
            .iter()
            .map(|argument| CommandArgument::String((*argument).to_owned()))
            .collect(),
    }
}

#[test]
fn compound_and_nested_blocking_waits_abort_on_control_eof() {
    // display-message -p before ; wait-for never-signalled
    let compound = vec![
        command("display-message", &["-p", "before"]),
        command("wait-for", &["never-signalled"]),
    ];
    // if-shell -F 1 { wait-for never-signalled }
    let mut nested = command("if-shell", &["-F", "1"]);
    nested.arguments.push(CommandArgument::Commands(vec![command(
        "wait-for",
        &["never-signalled"],
    )]));
    for parsed in [compound, vec![nested]] {
        assert!(
            control_commands_abort_on_eof(&parsed),
            "blocking wait in {parsed:?} must be cancelled when the control client closes"
        );
    }

    // display-message -p before ; wait-for -S already-done
    let signalling = vec![
        command("display-message", &["-p", "before"]),
        command("wait-for", &["-S", "already-done"]),
    ];
    assert!(!control_commands_abort_on_eof(&signalling));
}

#[test]
fn locking_waits_abort_and_unlocking_ones_do_not() {
    assert!(control_commands_abort_on_eof(&vec![command(
        "wait-for",
        &["-L", "channel"]
    )]));
    assert!(!control_commands_abort_on_eof(&vec![command(
        "wait-for",
        &["-U", "channel"]
    )]));
    // After `--` a dash is part of a channel's name.
    assert!(control_commands_abort_on_eof(&vec![command(
        "wait-for",
        &["--", "-S"]
    )]));
    assert!(!control_commands_abort_on_eof(&vec![command(
        "display-message",
        &["wait-for"]
    )]));
}

#[test]
fn too_many_arguments_are_refused_at_any_depth() {
    let wide = command("display-message", &vec!["arg"; 1001]);
    let refusal = Err(RmuxError::Server(
        "too many arguments: 1001 (maximum 1000)".to_owned(),
    ));
    assert_eq!(
        validate_control_command_arguments(vec![command(
            "display-message",
            &vec!["arg"; 1001]
        )]),
        refusal
    );
    let mut nested = command("bind-key", &["x"]);
    nested.arguments.push(CommandArgument::Commands(vec![wide]));
    assert_eq!(validate_control_command_arguments(vec![nested]), refusal);
    let accepted = vec![command("display-message", &vec!["arg"; 1000])];
    assert!(validate_control_command_arguments(accepted).is_ok());
}

fn started(input: &[u8], initial: usize) -> ControlLoop {
    let mut state = ControlLoop::new(ControlUpgradeInput::new(input.to_vec(), initial), None)
        .expect("input is accepted");
    assert!(!state.awaits_initial_commands());
    state.start(100, None);
    state
}

fn written(state: &mut ControlLoop) -> String {
    let mut bytes = Vec::new();
    for block in state.output.take_all() {
        bytes.extend(block.bytes);
    }
    String::from_utf8(bytes).expect("control output is utf-8")
}

#[test]
fn end_of_empty_input_gives_a_greeting_and_an_exit() {
    let mut state = started(b"", 0);
    state.read(b"").expect("end of input");
    assert_eq!(state.advance(false), ControlAction::Finish);
    assert_eq!(written(&mut state), "%begin 100 1 0\n%end 100 1 0\n%exit\n");
}

#[test]
fn an_empty_line_ends_the_stream() {
    for input in [b"\n".as_slice(), b"\r\n".as_slice()] {
        let mut state = started(input, 0);
        assert_eq!(state.advance(false), ControlAction::Finish);
        assert_eq!(written(&mut state), "%begin 100 1 0\n%end 100 1 0\n%exit\n");
    }
}

#[test]
fn an_unfinished_line_is_dropped_at_the_end_of_input() {
    let mut state = started(b"display-message -p hello", 0);
    assert_eq!(state.advance(false), ControlAction::Wait);
    state.read(b"").expect("end of input");
    assert_eq!(state.advance(false), ControlAction::Finish);
    assert_eq!(written(&mut state), "%begin 100 1 0\n%end 100 1 0\n%exit\n");
}

#[test]
fn an_initial_command_has_no_greeting_before_it() {
    let mut state = ControlLoop::new(ControlUpgradeInput::new(Vec::new(), 1), None)
        .expect("input is accepted");
    for fragment in [b"display-message -p ".as_slice(), b"initial", b"\n"] {
        assert!(state.awaits_initial_commands());
        state.initial_read(fragment).expect("fragment is accepted");
    }
    assert!(!state.awaits_initial_commands());
    state.start(100, None);
    assert_eq!(
        state.advance(false),
        ControlAction::Begin("display-message -p initial".to_owned())
    );
    state.begin_command(101);
    state.run_command(&vec![command("display-message", &["-p", "initial"])]);
    state.command_output(b"initial\n".to_vec());
    state.close_command(None);
    state.read(b"").expect("end of input");
    assert_eq!(state.advance(false), ControlAction::Finish);
    assert_eq!(
        written(&mut state),
        "%begin 101 1 0\ninitial\n%end 101 1 0\n%exit\n"
    );
}

#[test]
fn commands_of_the_stream_carry_flag_one() {
    let mut state = started(b"", 0);
    state.read(b"display-message -p ok\n").expect("a command");
    assert_eq!(
        state.advance(false),
        ControlAction::Begin("display-message -p ok".to_owned())
    );
    state.begin_command(102);
    state.run_command(&vec![command("display-message", &["-p", "ok"])]);
    state.command_output(b"ok\n".to_vec());
    state.close_command(None);
    assert_eq!(
        written(&mut state),
        "%begin 100 1 0\n%end 100 1 0\n%begin 102 2 1\nok\n%end 102 2 1\n"
    );
}

#[test]
fn a_failed_command_closes_with_an_error() {
    let mut state = started(b"no-such-command\n", 1);
    assert_eq!(
        state.advance(false),
        ControlAction::Begin("no-such-command".to_owned())
    );
    state.begin_command(5);
    state.parse_failed("unknown command: no-such-command");
    state.close_failed_block();
    assert_eq!(
        written(&mut state),
        "%begin 5 1 0\nparse error: unknown command: no-such-command\n%error 5 1 0\n"
    );
}

#[test]
fn notifications_wait_for_the_running_command() {
    let mut state = started(b"wait-for control-test-block\n\n", 1);
    assert_eq!(
        state.advance(false),
        ControlAction::Begin("wait-for control-test-block".to_owned())
    );
    state.begin_command(5);
    state.run_command(&vec![command("wait-for", &["control-test-block"])]);
    let event =
        ControlServerEvent::Notification("%message command-notification-finished".to_owned());
    assert_eq!(state.server_event(event), ControlEventAction::Nothing);
    assert_eq!(state.advance(false), ControlAction::Wait);
    state.command_output(Vec::new());
    state.close_command(None);
    let waited = match state.advance(false) {
        ControlAction::Event(event) => event,
        action => panic!("the notification comes next, not {action:?}"),
    };
    match state.server_event(waited) {
        ControlEventAction::Notify(line) => state.notify(line),
        action => panic!("the notification is told, not {action:?}"),
    }
    assert_eq!(state.advance(false), ControlAction::Finish);
    assert_eq!(
        written(&mut state),
        "%begin 5 1 0\n%end 5 1 0\n%message command-notification-finished\n%exit\n"
    );
}

#[test]
fn the_end_of_input_closes_a_running_command() {
    let mut state = started(b"wait-for control-eof-block\n", 1);
    assert_eq!(
        state.advance(false),
        ControlAction::Begin("wait-for control-eof-block".to_owned())
    );
    state.begin_command(5);
    state.run_command(&vec![command("wait-for", &["control-eof-block"])]);
    state.read(b"").expect("end of input");
    assert_eq!(state.advance(false), ControlAction::Wait);
    assert_eq!(state.close_active_control_command_on_eof(), Some(true));
    assert_eq!(
        written(&mut state),
        "%begin 5 1 0\n%end 5 1 0\n%exit\n"
    );
}

#[test]
fn a_finite_command_goes_on_after_the_end_of_input() {
    let mut state = started(b"run-shell 'sleep 1'\n", 1);
    assert_eq!(
        state.advance(false),
        ControlAction::Begin("run-shell 'sleep 1'".to_owned())
    );
    state.begin_command(5);
    state.run_command(&vec![command("run-shell", &["sleep 1"])]);
    state.read(b"").expect("end of input");
    assert_eq!(state.close_active_control_command_on_eof(), Some(false));
    assert_eq!(state.close_active_control_command_on_eof(), None);
}

#[test]
fn too_many_initial_commands_are_refused() {
    let error = ControlLoop::new(ControlUpgradeInput::new(Vec::new(), 1025), None)
        .expect_err("too many initial commands");
    assert_eq!(error.kind(), ControlErrorKind::InvalidInput);
    assert_eq!(
        error.message,
        "too many initial control-mode commands: 1025 (maximum 1024)"
    );
}

#[test]
fn a_stream_that_ends_before_its_initial_commands_is_refused() {
    let mut state = ControlLoop::new(ControlUpgradeInput::new(b"one\n".to_vec(), 2), None)
        .expect("input is accepted");
    assert!(state.awaits_initial_commands());
    let error = state.initial_read(b"").expect_err("the stream ended");
    assert_eq!(error.kind(), ControlErrorKind::UnexpectedEof);
    assert_eq!(
        error.message,
        "control-mode stream closed after 1 of 2 initial commands"
    );
}

#[test]
fn a_shutdown_is_told() {
    let mut state = started(b"", 0);
    let _ = written(&mut state);
    state.shutdown();
    assert_eq!(written(&mut state), "%exit server shutting down\n");
}

#[test]
fn a_closing_client_exits_between_commands() {
    let mut state = started(b"list-keys\n", 0);
    let _ = written(&mut state);
    assert_eq!(state.advance(true), ControlAction::Finish);
    assert_eq!(written(&mut state), "%exit\n");
}

#[test]
fn output_age_is_asked_for_by_a_pause() {
    let mut flags = ControlClientFlags {
        pause_after_millis: None,
        no_output: false,
        wait_exit: false,
    };
    assert!(!flags.uses_extended_output());
    flags.pause_after_millis = Some(0);
    assert!(flags.uses_extended_output());
}

#[test]
fn a_clock_before_the_epoch_reads_zero() {
    assert_eq!(unix_epoch_seconds(None), 0);
    assert_eq!(unix_epoch_seconds(Some(1_700_000_000)), 1_700_000_000);
}

#[test]
fn blocks_of_commands_follow_one_another() {
    let mut state = started(b"bad\nok\n", 0);
    let _ = written(&mut state);
    assert_eq!(state.advance(false), ControlAction::Begin("bad".to_owned()));
    state.begin_command(5);
    state.parse_failed("unknown command: bad");
    state.close_failed_block();
    assert_eq!(state.advance(false), ControlAction::Begin("ok".to_owned()));
    state.begin_command(6);
    state.run_command(&vec![command("ok", &[])]);
    state.pane_output(b"%output %1 x\n".to_vec());
    assert_eq!(state.advance(false), ControlAction::Wait);
    state.command_output(b"done".to_vec());
    state.close_command(Some("no such thing"));
    state.command_output(b"late".to_vec());
    state.close_command(None);
    assert_eq!(
        written(&mut state),
        "%begin 5 2 1\nparse error: unknown command: bad\n%error 5 2 1\n\
         %begin 6 3 1\n%output %1 x\ndone\nno such thing\n%error 6 3 1\n"
    );
}

#[test]
fn events_that_waited_come_in_order() {
    let mut state = started(b"wait-for x\n", 0);
    assert_eq!(
        state.advance(false),
        ControlAction::Begin("wait-for x".to_owned())
    );
    state.begin_command(5);
    state.run_command(&vec![command("wait-for", &["x"])]);
    assert_eq!(state.advance(false), ControlAction::Wait);
    for event in [
        ControlServerEvent::SessionChanged(Some("beta".to_owned())),
        ControlServerEvent::Notification("%one".to_owned()),
        ControlServerEvent::Notification("%two".to_owned()),
    ] {
        assert_eq!(state.server_event(event), ControlEventAction::Nothing);
    }
    state.close_command(None);
    assert_eq!(
        state.advance(false),
        ControlAction::Event(ControlServerEvent::Notification("%one".to_owned()))
    );
    assert_eq!(
        state.advance(false),
        ControlAction::Event(ControlServerEvent::Notification("%two".to_owned()))
    );
    assert_eq!(
        state.advance(false),
        ControlAction::Event(ControlServerEvent::SessionChanged(Some("beta".to_owned())))
    );
    assert_eq!(state.advance(false), ControlAction::Wait);
}

#[test]
fn waiting_events_come_before_the_next_command() {
    let mut state = started(b"first\nsecond\n", 0);
    assert_eq!(state.advance(false), ControlAction::Begin("first".to_owned()));
    state.begin_command(5);
    state.run_command(&vec![command("first", &[])]);
    for event in [
        ControlServerEvent::Notification("%one".to_owned()),
        ControlServerEvent::Notification("%two".to_owned()),
        ControlServerEvent::Exit(Some("early".to_owned())),
    ] {
        assert_eq!(state.server_event(event), ControlEventAction::Nothing);
    }
    let read_before = state.input_buffer.clone();
    state.close_command(None);
    for line in ["%one", "%two"] {
        assert_eq!(
            state.advance(true),
            ControlAction::Event(ControlServerEvent::Notification(line.to_owned()))
        );
        assert_eq!(state.input_buffer, read_before);
        if line == "%one" {
            let later = ControlServerEvent::Exit(Some("late".to_owned()));
            assert_eq!(state.server_event(later), ControlEventAction::Nothing);
        }
    }
    assert_eq!(
        state.advance(true),
        ControlAction::Event(ControlServerEvent::Exit(Some("late".to_owned())))
    );
    assert_eq!(state.advance(false), ControlAction::Begin("second".to_owned()));
}

#[test]
fn handing_out_an_event_keeps_what_was_read() {
    let mut state = started(b"first\nhalf a li", 0);
    assert_eq!(state.advance(false), ControlAction::Begin("first".to_owned()));
    state.begin_command(5);
    state.run_command(&vec![command("first", &[])]);
    let event = ControlServerEvent::Notification("%one".to_owned());
    assert_eq!(state.server_event(event), ControlEventAction::Nothing);
    state.close_command(None);
    assert_eq!(
        state.advance(false),
        ControlAction::Event(ControlServerEvent::Notification("%one".to_owned()))
    );
    assert_eq!(state.input_buffer, b"half a li");
    assert_eq!(state.advance(false), ControlAction::Wait);
    state.read(b"ne\n").expect("the rest of the line");
    assert_eq!(
        state.advance(false),
        ControlAction::Begin("half a line".to_owned())
    );
}

#[test]
fn pane_output_lag_terminates_control_mode_explicitly() {
    let mut state = started(b"list-sessions\n", 1);
    state.pane_lagged();
    assert_eq!(written(&mut state), "%exit too far behind\n");
}

#[test]
fn text_is_read_as_sent() {
    let mut buffer = "\u{e9}t\u{e9} \u{2603}\n".as_bytes().to_vec();
    assert_eq!(
        extract_complete_control_lines(&mut buffer),
        vec!["\u{e9}t\u{e9} \u{2603}".to_owned()]
    );
}
