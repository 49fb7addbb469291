use rmux_server::copy_mode_input::{
    attached_copy_mode_input_action, AttachedCopyModeInputAction, AttachedCopyModeSearchDirection,
    ModeKeys, PromptInputEvent,
};
use rmux_server::error::RmuxError;
use rmux_server::overlay_parse::{
    overlay_target_values, parse_display_menu, parse_display_popup, parse_menu_shortcut,
    parse_popup_size_spec, pop_flag_value, rebuild_shell_command, split_attached_short_flag,
    BorderLines, MenuShortcut, OverlayCommand, OverlayCommandTokens, ParsedMenuItem, PopupSizeSpec,
    TargetParse,
};
use rmux_server::popup_job::{
    popup_io_answer, popup_job_command, popup_read_step, popup_start_error, popup_surface_lines,
    popup_terminal_size, popup_wait_step, status_to_code, BrokenPipe, PopupChildState,
    PopupIoFailure, PopupIoOperation, PopupIoQueue, PopupRead, PopupReadStep, PopupReader,
    PopupStartFailure, PopupWaitStep,
};
use rmux_server::quiet_commands::{
    quiet_overlay_command, quiet_source_timer_window_command, QuietShell,
};
use rmux_server::refresh_client::TerminalSize;
use rmux_server::sessions::PaneTarget;

fn words(words: &[&str]) -> Vec<String> {
    words.iter().map(|word| (*word).to_owned()).collect()
}

#[test]
fn emacs_arrow_keys_route_to_copy_mode_motion_commands() {
    assert_eq!(
        attached_copy_mode_input_action(ModeKeys::Emacs, &PromptInputEvent::Right),
        AttachedCopyModeInputAction::Command("cursor-right")
    );
    assert_eq!(
        attached_copy_mode_input_action(ModeKeys::Emacs, &PromptInputEvent::Left),
        AttachedCopyModeInputAction::Command("cursor-left")
    );
    assert_eq!(
        attached_copy_mode_input_action(ModeKeys::Emacs, &PromptInputEvent::Down),
        AttachedCopyModeInputAction::Command("cursor-down")
    );
    assert_eq!(
        attached_copy_mode_input_action(ModeKeys::Emacs, &PromptInputEvent::Up),
        AttachedCopyModeInputAction::Command("cursor-up")
    );
}

#[test]
fn vi_search_keys_still_start_copy_mode_search() {
    assert_eq!(
        attached_copy_mode_input_action(ModeKeys::Vi, &PromptInputEvent::Char('/')),
        AttachedCopyModeInputAction::Search(AttachedCopyModeSearchDirection::Forward)
    );
    assert_eq!(
        attached_copy_mode_input_action(ModeKeys::Vi, &PromptInputEvent::Char('?')),
        AttachedCopyModeInputAction::Search(AttachedCopyModeSearchDirection::Backward)
    );
}

#[test]
fn copy_mode_keys_are_known_by_name_too() {
    let named = |name: &str| PromptInputEvent::KeyName(name.to_owned());
    for event in [PromptInputEvent::Char(' '), named(" "), named("Space")] {
        assert_eq!(
            attached_copy_mode_input_action(ModeKeys::Vi, &event),
            AttachedCopyModeInputAction::Command("begin-selection")
        );
    }
    for event in [
        PromptInputEvent::Char('q'),
        named("q"),
        PromptInputEvent::Escape,
    ] {
        assert_eq!(
            attached_copy_mode_input_action(ModeKeys::Emacs, &event),
            AttachedCopyModeInputAction::Command("cancel")
        );
    }
    assert_eq!(
        attached_copy_mode_input_action(ModeKeys::Emacs, &PromptInputEvent::Enter),
        AttachedCopyModeInputAction::Command("copy-selection-no-clear")
    );
    assert_eq!(
        attached_copy_mode_input_action(ModeKeys::Vi, &named("/")),
        AttachedCopyModeInputAction::Search(AttachedCopyModeSearchDirection::Forward)
    );
    assert_eq!(
        attached_copy_mode_input_action(ModeKeys::Emacs, &PromptInputEvent::Char('/')),
        AttachedCopyModeInputAction::Ignore
    );
}

#[test]
fn display_menu_requires_at_least_one_item_argument() {
    let error = parse_display_menu(vec!["-T".to_owned(), "Menu".to_owned()], &[])
        .expect_err("empty display-menu should be rejected before client lookup");
    assert_eq!(
        error,
        RmuxError::Message("command display-menu: too few arguments (need at least 1)".to_owned())
    );
}

fn item(label: &str, shortcut: &str, command: &str) -> ParsedMenuItem {
    ParsedMenuItem {
        label: label.to_owned(),
        shortcut: shortcut.to_owned(),
        command: command.to_owned(),
    }
}

#[test]
fn an_empty_label_is_a_separator() {
    let menu = parse_display_menu(
        words(&[
            "-T",
            "Menu",
            "First",
            "f",
            "display-message first",
            "",
            "Second",
            "s",
            "display-message second",
        ]),
        &[],
    )
    .expect("a menu with a separator parses");
    assert_eq!(menu.title, "Menu");
    assert_eq!(
        menu.items,
        vec![
            item("First", "f", "display-message first"),
            item("", "", ""),
            item("Second", "s", "display-message second"),
        ]
    );
}

#[test]
fn menu_options_are_read_attached_and_apart() {
    let menu = parse_display_menu(
        words(&[
            "-xM", "-y", "S", "-O", "-M", "-C-", "-b", "rounded", "--", "-Danger", "d", "kill",
        ]),
        &[],
    )
    .expect("the menu parses");
    assert_eq!(menu.x.as_deref(), Some("M"));
    assert_eq!(menu.y.as_deref(), Some("S"));
    assert!(menu.stay_open);
    assert!(menu.force_mouse);
    assert_eq!(menu.starting_choice, Some(None));
    assert_eq!(
        menu.border_lines,
        Some(BorderLines::Named("rounded".to_owned()))
    );
    assert_eq!(menu.items, vec![item("-Danger", "d", "kill")]);
}

#[test]
fn a_menu_item_needs_all_of_its_parts() {
    assert!(parse_display_menu(words(&["Label"]), &[]).is_err());
    assert!(parse_display_menu(words(&["Label", "l"]), &[]).is_err());
    assert!(parse_display_menu(words(&["-Q"]), &[]).is_err());
}

#[test]
fn a_popup_takes_its_sizes_target_and_command() {
    let arguments = words(&[
        "-E", "-w", "50%", "-h", "6", "-t", "alpha:1.2", "-e", "A=1", "-eB=2", "echo", "it's",
    ]);
    assert_eq!(
        overlay_target_values(OverlayCommand::Popup, arguments),
        words(&["alpha:1.2"])
    );
    let target = || PaneTarget {
        session_name: "alpha".to_owned(),
        window_index: 1,
        pane_index: 2,
    };
    let arguments = words(&[
        "-E", "-w", "50%", "-h", "6", "-t", "alpha:1.2", "-e", "A=1", "-eB=2", "echo", "it's",
    ]);
    let popup = parse_display_popup(arguments, &[TargetParse::Pane(target())])
        .expect("the popup parses");
    assert!(popup.close_on_exit);
    assert!(!popup.close_on_zero_exit);
    assert_eq!(popup.width, Some(PopupSizeSpec::Percent(50)));
    assert_eq!(popup.height, Some(PopupSizeSpec::Absolute(6)));
    assert_eq!(popup.target_pane, Some(target()));
    assert_eq!(popup.environment, words(&["A=1", "B=2"]));
    assert_eq!(popup.command.as_deref(), Some("'echo' 'it'\\''s'"));
}

#[test]
fn a_popup_closes_on_success_when_asked_twice() {
    for arguments in [vec!["-EE"], vec!["-E", "-E"]] {
        let popup = parse_display_popup(words(&arguments), &[]).expect("the popup parses");
        assert!(popup.close_on_zero_exit);
        assert!(!popup.close_on_exit);
        assert_eq!(popup.command, None);
    }
}

#[test]
fn popup_targets_must_be_panes() {
    let arguments = || words(&["-t", "alpha"]);
    assert_eq!(
        parse_display_popup(arguments(), &[TargetParse::Other]).map(|_| ()),
        Err(RmuxError::Server(
            "display-popup target must match 'session:window.pane'".to_owned()
        ))
    );
    assert_eq!(
        parse_display_popup(arguments(), &[TargetParse::Invalid("bad".to_owned())]).map(|_| ()),
        Err(RmuxError::Server(
            "invalid display-popup target 'alpha': bad".to_owned()
        ))
    );
}

#[test]
fn popup_flags_that_are_not_known_are_refused() {
    assert_eq!(
        parse_display_popup(words(&["-Z"]), &[]).map(|_| ()),
        Err(RmuxError::Server(
            "unsupported flag '-Z' for display-popup".to_owned()
        ))
    );
}

#[test]
fn popup_sizes_are_cells_or_percentages() {
    assert_eq!(parse_popup_size_spec("20"), Ok(PopupSizeSpec::Absolute(20)));
    assert_eq!(
        parse_popup_size_spec("100%"),
        Ok(PopupSizeSpec::Percent(100))
    );
    assert!(parse_popup_size_spec("wide").is_err());
}

#[test]
fn tokens_come_in_order() {
    let mut tokens = OverlayCommandTokens::new(words(&["-xM", "a", "b"]));
    assert_eq!(tokens.peek(), Some("-xM"));
    assert_eq!(tokens.optional().as_deref(), Some("-xM"));
    assert_eq!(
        pop_flag_value(&mut tokens, Some("M".to_owned()), "-x position"),
        Ok("M".to_owned())
    );
    assert_eq!(
        pop_flag_value(&mut tokens, None, "-x position"),
        Ok("a".to_owned())
    );
    assert!(!tokens.is_empty());
    assert_eq!(tokens.remaining(), words(&["b"]));
    assert!(OverlayCommandTokens::new(Vec::new()).pop("flag").is_err());
}

#[test]
fn short_flags_are_split_from_their_values() {
    assert_eq!(
        split_attached_short_flag("-xM".to_owned()),
        ("-x".to_owned(), Some("M".to_owned()))
    );
    assert_eq!(
        split_attached_short_flag("-x".to_owned()),
        ("-x".to_owned(), None)
    );
}

#[test]
fn a_single_word_is_a_command_as_it_stands() {
    assert_eq!(rebuild_shell_command(words(&["ls | wc"])), "ls | wc");
    assert_eq!(rebuild_shell_command(Vec::new()), "");
    assert_eq!(
        rebuild_shell_command(words(&["printf", "a b", "'"])),
        "'printf' 'a b' ''\\'''"
    );
}

#[test]
fn a_shortcut_is_a_key_or_a_character() {
    assert_eq!(parse_menu_shortcut("", None), None);
    assert_eq!(parse_menu_shortcut("C-a", Some(7)), Some(MenuShortcut::Key(7)));
}

#[test]
fn popup_lines_lose_the_empty_ones_at_the_end() {
    assert_eq!(
        popup_surface_lines(b"one\n\ntwo\n\n\n"),
        words(&["one", "", "two"])
    );
    assert_eq!(popup_surface_lines(b"bad\xff"), words(&["bad\u{fffd}"]));
    assert!(popup_surface_lines(b"\n\n").is_empty());
}

#[test]
fn popup_operations_are_done_in_order() {
    let mut queue = PopupIoQueue::new();
    queue
        .enqueue(PopupIoOperation::Write(b"a".to_vec()))
        .expect("first write");
    queue
        .enqueue(PopupIoOperation::Resize(TerminalSize { cols: 41, rows: 17 }))
        .expect("resize");
    queue
        .enqueue(PopupIoOperation::Write(b"b".to_vec()))
        .expect("second write");
    assert_eq!(
        queue.next_operation(),
        Some(PopupIoOperation::Write(b"a".to_vec()))
    );
    assert_eq!(
        queue.next_operation(),
        Some(PopupIoOperation::Resize(TerminalSize { cols: 41, rows: 17 }))
    );
    assert_eq!(
        queue.next_operation(),
        Some(PopupIoOperation::Write(b"b".to_vec()))
    );
    assert_eq!(queue.next_operation(), None);
    queue.stopped = true;
    assert_eq!(
        queue.enqueue(PopupIoOperation::Write(Vec::new())),
        Err(BrokenPipe {
            message: "popup I/O worker stopped".to_owned(),
        })
    );
}

#[test]
fn a_popup_ends_with_a_code_or_a_signal() {
    assert_eq!(status_to_code(Some(3), None), Some(3));
    assert_eq!(status_to_code(None, Some(15)), Some(15));
    assert_eq!(
        popup_wait_step(PopupChildState::Exited {
            code: None,
            signal: Some(15)
        }),
        PopupWaitStep::Finished { status: 15 }
    );
    assert_eq!(
        popup_wait_step(PopupChildState::Running),
        PopupWaitStep::LookAgain
    );
    assert_eq!(popup_wait_step(PopupChildState::Gone), PopupWaitStep::Stop);
}

#[test]
fn a_popup_terminal_is_never_empty() {
    assert_eq!(
        popup_terminal_size(TerminalSize { cols: 0, rows: 6 }),
        TerminalSize { cols: 1, rows: 6 }
    );
}

#[test]
fn quiet_commands_sleep() {
    let sleep = words(&["/bin/sh", "-c", "sleep 60"]);
    assert_eq!(quiet_overlay_command(QuietShell::Unix), sleep);
    assert_eq!(quiet_source_timer_window_command(QuietShell::Unix), sleep);
    let cmd = r"C:\Windows\System32\cmd.exe";
    let windows = || QuietShell::Windows {
        cmd: cmd.to_owned(),
    };
    let ping = words(&[cmd, "/d", "/q", "/c", "ping -n 120 127.0.0.1 >NUL"]);
    assert_eq!(quiet_overlay_command(windows()), ping);
    assert_eq!(quiet_source_timer_window_command(windows()), ping);
}

#[test]
fn a_popup_program_gets_the_environment_of_its_session_first() {
    let pair = |name: &str, value: &str| (name.to_owned(), value.to_owned());
    let command = popup_job_command(
        TerminalSize { cols: 20, rows: 0 },
        Some("top".to_owned()),
        "/home/user".to_owned(),
        &vec![pair("TERM", "screen"), pair("A", "0")],
        Ok(vec![pair("A", "1")]),
    )
    .expect("the assignments make sense");
    assert_eq!(command.shell_command.as_deref(), Some("top"));
    assert_eq!(command.size, TerminalSize { cols: 20, rows: 1 });
    assert_eq!(command.working_directory, "/home/user");
    assert_eq!(
        command.environment,
        vec![pair("TERM", "screen"), pair("A", "0"), pair("A", "1")]
    );
    assert_eq!(
        popup_job_command(
            TerminalSize { cols: 20, rows: 6 },
            None,
            "/".to_owned(),
            &Vec::new(),
            Err(RmuxError::Server("bad assignment".to_owned())),
        ),
        Err(RmuxError::Server("bad assignment".to_owned()))
    );
}

#[test]
fn a_popup_that_cannot_be_started_says_why() {
    for (failure, text) in [
        (PopupStartFailure::Spawn, "failed to spawn popup process: no"),
        (PopupStartFailure::PreparePty, "failed to prepare popup pty: no"),
        (PopupStartFailure::ClonePty, "failed to clone popup pty fd: no"),
        (
            PopupStartFailure::CloneChild,
            "failed to clone popup child for ConPTY teardown: no",
        ),
        (
            PopupStartFailure::ReaderNonblocking,
            "failed to make popup pty nonblocking: no",
        ),
        (PopupStartFailure::WatchPty, "failed to watch popup pty: no"),
    ] {
        assert_eq!(
            popup_start_error(failure, "no"),
            RmuxError::Server(text.to_owned())
        );
    }
}

#[test]
fn a_popup_operation_is_answered_by_the_worker() {
    assert_eq!(popup_io_answer::<u8>(Some(Ok(()))), Ok(()));
    assert_eq!(
        popup_io_answer(Some(Err(7_u8))),
        Err(PopupIoFailure::Terminal(7))
    );
    assert_eq!(
        popup_io_answer::<u8>(None),
        Err(PopupIoFailure::BrokenPipe(BrokenPipe {
            message: "popup I/O worker stopped before replying".to_owned(),
        }))
    );
}

#[test]
fn a_popup_is_read_until_it_ends() {
    for reader in [PopupReader::WhenReady, PopupReader::Blocking] {
        assert_eq!(
            popup_read_step(reader, PopupRead::Bytes(7)),
            PopupReadStep::Show { len: 7 }
        );
        assert_eq!(
            popup_read_step(reader, PopupRead::Bytes(0)),
            PopupReadStep::Stop
        );
        assert_eq!(
            popup_read_step(reader, PopupRead::Failed),
            PopupReadStep::Stop
        );
    }
    assert_eq!(
        popup_read_step(PopupReader::Blocking, PopupRead::Interrupted),
        PopupReadStep::ReadAgain
    );
    assert_eq!(
        popup_read_step(PopupReader::WhenReady, PopupRead::Interrupted),
        PopupReadStep::Stop
    );
}
