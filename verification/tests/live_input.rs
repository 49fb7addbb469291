use rmux_server::keys::{AttachedKeyDecode, KEYC_CTRL};
use rmux_server::live_input::{
    active_client_emit_is_current, after_live_step, attached_key_table_active,
    attached_live_input_can_use_reroute_chunks, attached_mode_input_step, begin_live_scan,
    clear_attached_focus_alerts, emit_attached_client_active_if_changed,
    fast_path_attached_session, finish_fast_forward, flush_attached_consumed_osc_prefix,
    flushed_input_forwards,
    handle_attached_terminal_control_event, is_immediate_detach,
    is_plain_attached_fast_path_input, live_input_entry, submitted_text_before_enter,
    take_attached_remaining_input, try_forward_plain_attached_bytes_fast, AttachedClient,
    AttachedLiveChunkResult, AttachedLiveInputStep, AttachedLiveInputWork, BoundCommand,
    ExpiredInput, ExpiredPrefix, FastEffect, FastForward, InputLifecycle, LiveChunkMove, LiveEntry, LiveWorkQueue,
    PaneModes,
};
use rmux_server::live_scan::{
    scan_enter, scan_extended_prefix, scan_final_prompt, scan_item, scan_key, scan_key_handled,
    scan_key_table, scan_kitty, scan_mouse_prefix, scan_prefix_key, scan_prefix_keys, scan_prompt,
    KeyForward, KittyGraphicsApcDecode, LiveEffect, LiveNext, PrefixKeys, RetainedInput,
};
use rmux_server::sessions::{PaneTarget, Session, SessionStore};
use rmux_server::terminal_response::TerminalControlEvent;

const CTRL_B: u64 = b'b' as u64 | KEYC_CTRL;
const PREFIX: PrefixKeys = PrefixKeys {
    prefix: Some(CTRL_B),
    prefix2: None,
};

fn decode(input: &[u8]) -> AttachedKeyDecode {
    match input.first() {
        None => AttachedKeyDecode::Partial,
        Some(2) => AttachedKeyDecode::Matched { size: 1, key: CTRL_B },
        Some(b) if *b < 0x80 && *b != 0x1b => AttachedKeyDecode::Matched {
            size: 1,
            key: u64::from(*b),
        },
        Some(_) => AttachedKeyDecode::Invalid,
    }
}

#[derive(Debug, PartialEq)]
struct Scanned {
    effects: Vec<LiveEffect>,
    keys: Vec<u64>,
    end: LiveNext,
    forwarded: bool,
}

/// Scans `bytes`; `taken` says which keys a binding takes.
fn scan(bytes: &[u8], copy_mode: bool, focus_events: bool, taken: &dyn Fn(u64) -> bool) -> Scanned {
    let mut pending = Vec::new();
    let (context, cursor) =
        begin_live_scan(&mut pending, bytes, copy_mode, focus_events, None, None);
    assert_eq!(pending, bytes);
    let input = pending.as_slice();
    let mut turn = scan_item(input, &context, cursor);
    let mut scanned = Scanned {
        effects: Vec::new(),
        keys: Vec::new(),
        end: LiveNext::Complete,
        forwarded: false,
    };
    loop {
        scanned.effects.extend(turn.effects.iter().copied());
        let cursor = turn.cursor;
        scanned.forwarded = cursor.forwarded;
        let rest = &input[cursor.offset..];
        turn = match turn.next {
            LiveNext::Item => scan_item(input, &context, cursor),
            LiveNext::Kitty => scan_kitty(
                input,
                &context,
                cursor,
                KittyGraphicsApcDecode::NotKittyGraphics,
            ),
            LiveNext::MousePrefix => scan_mouse_prefix(input, cursor, false),
            LiveNext::ExtendedPrefix => scan_extended_prefix(input, cursor, false),
            LiveNext::KeyTable => scan_key_table(input, &context, cursor, false),
            LiveNext::PrefixKeys => scan_prefix_keys(input, cursor, PREFIX),
            LiveNext::PrefixKey => scan_prefix_key(input, cursor, PREFIX, decode(rest)),
            LiveNext::Key => scan_key(input, &context, cursor, decode(rest)),
            LiveNext::Enter {
                size,
                key,
                extended,
            } => scan_enter(
                input,
                &context,
                cursor,
                size,
                key,
                extended,
                key == u64::from(b'\r'),
            ),
            LiveNext::HandleKey { size, key, forward } => {
                assert_eq!(forward, KeyForward::Plain);
                scanned.keys.push(key);
                scan_key_handled(input, cursor, size, taken(key))
            }
            LiveNext::Prompt => scan_prompt(input, cursor, false),
            LiveNext::FinalPrompt => scan_final_prompt(input, cursor, false),
            end => {
                scanned.end = end;
                return scanned;
            }
        };
    }
}

fn none_taken(_: u64) -> bool {
    false
}

#[test]
fn plain_text_is_written_in_one_piece() {
    assert_eq!(
        scan(b"hello world", false, false, &none_taken),
        Scanned {
            effects: vec![LiveEffect::WriteInput { from: 0, to: 11 }],
            keys: vec![],
            end: LiveNext::Complete,
            forwarded: true,
        }
    );
}

#[test]
fn a_prefix_key_is_handled_after_the_text_before_it() {
    assert_eq!(
        scan(b"ab\x021cd", false, false, &|key| key == CTRL_B),
        Scanned {
            effects: vec![LiveEffect::WriteInput { from: 0, to: 2 }],
            keys: vec![CTRL_B],
            end: LiveNext::Reroute { from: 3 },
            forwarded: true,
        }
    );
}

#[test]
fn the_text_before_enter_is_recorded() {
    let scanned = scan(b"ls\r", false, false, &none_taken);
    assert_eq!(
        scanned.effects,
        vec![
            LiveEffect::RecordSubmitted { from: 0, to: 2 },
            LiveEffect::WriteInput { from: 0, to: 2 },
        ]
    );
    assert_eq!(scanned.keys, vec![u64::from(b'\r')]);
    assert_eq!(scanned.end, LiveNext::Complete);
}

#[test]
fn a_paste_is_written_whole_and_dropped_in_copy_mode() {
    let paste = b"a\x1b[200~\x02x\x1b[201~";
    assert_eq!(
        scan(paste, false, false, &none_taken).effects,
        vec![
            LiveEffect::WriteInput { from: 0, to: 1 },
            LiveEffect::WritePaste { from: 7, to: 9 },
        ]
    );
    let dropped = scan(&paste[1..], true, false, &none_taken);
    assert!(dropped.effects.is_empty());
    assert!(!dropped.forwarded);
}

#[test]
fn a_focus_event_reaches_only_a_pane_that_asked() {
    let told = scan(b"\x1b[I", false, false, &none_taken);
    assert_eq!(
        told.effects,
        vec![LiveEffect::ControlEvent(TerminalControlEvent::FocusIn)]
    );
    assert!(!told.forwarded);
    let written = scan(b"\x1b[I", false, true, &none_taken);
    assert_eq!(
        written.effects,
        vec![
            LiveEffect::WriteTarget { from: 0, to: 3 },
            LiveEffect::ControlEvent(TerminalControlEvent::FocusIn),
        ]
    );
    assert!(written.forwarded);
}

#[test]
fn a_device_attributes_reply_is_swallowed() {
    let scanned = scan(b"\x1b[?65;4;6;18;22c", false, false, &none_taken);
    assert!(scanned.effects.is_empty());
    assert!(!scanned.forwarded);
    assert_eq!(scanned.end, LiveNext::Complete);
}

#[test]
fn a_cursor_report_goes_to_the_target_pane() {
    assert_eq!(
        scan(b"x\x1b[12;40R", false, false, &none_taken).effects,
        vec![
            LiveEffect::WriteInput { from: 0, to: 1 },
            LiveEffect::WriteTarget { from: 1, to: 9 },
        ]
    );
}

#[test]
fn a_cut_off_scalar_is_kept() {
    let scanned = scan(b"ab\xe6\x97", false, false, &none_taken);
    assert_eq!(
        scanned.effects,
        vec![LiveEffect::WriteInput { from: 0, to: 2 }]
    );
    assert_eq!(scanned.end, LiveNext::Retain(RetainedInput::Utf8));
}

#[test]
fn a_cut_off_paste_is_kept() {
    assert_eq!(
        scan(b"\x1b[200~text", false, false, &none_taken).end,
        LiveNext::Retain(RetainedInput::BracketedPaste)
    );
}

#[test]
fn remaining_input_is_taken_from_the_pending() {
    let mut pending = b"abcdef".to_vec();
    assert_eq!(
        take_attached_remaining_input(&mut pending, 2),
        Some(b"cdef".to_vec())
    );
    assert!(pending.is_empty());
    let mut pending = b"ab".to_vec();
    assert_eq!(take_attached_remaining_input(&mut pending, 2), None);
    assert_eq!(pending, b"ab");
}

#[test]
fn a_mode_hands_its_rest_on() {
    assert_eq!(
        attached_mode_input_step(None),
        AttachedLiveInputStep::Complete(false)
    );
    assert_eq!(
        attached_mode_input_step(Some(b"x".to_vec())),
        AttachedLiveInputStep::Reroute {
            bytes: b"x".to_vec(),
            forwarded: false,
        }
    );
}

#[test]
fn submitted_text_ends_before_enter() {
    assert_eq!(
        submitted_text_before_enter(b"make\rrest"),
        Some(b"make".as_slice())
    );
    assert_eq!(
        submitted_text_before_enter(b"make\n"),
        Some(b"make".as_slice())
    );
    assert_eq!(submitted_text_before_enter(b"\r"), None);
    assert_eq!(submitted_text_before_enter(b"make"), None);
}

#[test]
fn only_plain_input_takes_the_fast_path() {
    assert!(is_plain_attached_fast_path_input(b"ls -l"));
    assert!(!is_plain_attached_fast_path_input(b""));
    assert!(!is_plain_attached_fast_path_input(b"\x1b[A"));
}

fn client() -> AttachedClient {
    AttachedClient {
        session_name: "alpha".to_owned(),
        can_write: true,
        read_only: false,
        prompt: false,
        mode_tree: false,
        overlay: false,
        display_panes: false,
        key_table: false,
    }
}

#[test]
fn the_fast_path_is_for_writers_without_modes() {
    assert_eq!(
        fast_path_attached_session(Some(&client())),
        Ok(Some("alpha".to_owned()))
    );
    let mut looking = client();
    looking.read_only = true;
    assert_eq!(fast_path_attached_session(Some(&looking)), Ok(None));
    let mut prompted = client();
    prompted.prompt = true;
    assert_eq!(fast_path_attached_session(Some(&prompted)), Ok(None));
    assert!(fast_path_attached_session(None).is_err());
    assert_eq!(
        attached_live_input_can_use_reroute_chunks(Some(&client())),
        Ok(true)
    );
}

#[test]
fn fast_input_holds_no_prefix_key() {
    let modes = PaneModes {
        copy_mode: false,
        clock_mode: false,
        mouse: false,
    };
    let forward = |bytes: &[u8], modes: PaneModes| {
        let decoded: Vec<_> = (0..bytes.len()).map(|at| decode(&bytes[at..])).collect();
        try_forward_plain_attached_bytes_fast(&[], bytes, modes, &decoded, PREFIX)
    };
    assert_eq!(
        forward(b"ls", modes),
        Some(FastForward {
            submitted: None,
            effects: vec![FastEffect::ClearWindowAlerts, FastEffect::PrepareWrites],
        })
    );
    let copying = PaneModes {
        copy_mode: true,
        ..modes
    };
    assert_eq!(forward(b"ls", copying), None);
    let none = PrefixKeys {
        prefix: Some(u64::from(b's')),
        prefix2: None,
    };
    let decoded: Vec<_> = (0..2).map(|at| decode(&b"ls"[at..])).collect();
    assert_eq!(
        try_forward_plain_attached_bytes_fast(&[], b"ls", modes, &decoded, none),
        None
    );
}

#[test]
fn fast_input_is_recorded_cleared_and_written_in_order() {
    let modes = PaneModes {
        copy_mode: false,
        clock_mode: false,
        mouse: false,
    };
    let decoded: Vec<_> = (0..3).map(|at| decode(&b"ls\r"[at..])).collect();
    assert_eq!(
        try_forward_plain_attached_bytes_fast(&[], b"ls\r", modes, &decoded, PREFIX),
        Some(FastForward {
            submitted: Some(b"ls".to_vec()),
            effects: vec![
                FastEffect::RecordSubmitted,
                FastEffect::ClearWindowAlerts,
                FastEffect::PrepareWrites,
            ],
        })
    );
    assert_eq!(
        finish_fast_forward(false),
        (vec![FastEffect::TellActiveClient, FastEffect::WriteBytes], true)
    );
    assert_eq!(
        finish_fast_forward(true),
        (
            vec![
                FastEffect::TellActiveClient,
                FastEffect::WriteBytes,
                FastEffect::RefreshAttachedClients,
            ],
            true
        )
    );
}

#[test]
fn rerouted_input_is_worked_off_in_order() {
    let mut queue = LiveWorkQueue::new(AttachedLiveInputWork::new(b"abc".to_vec(), None), false);
    let first = queue.take_next(false).expect("input waits");
    assert_eq!(first.as_bytes(), b"abc");
    queue.finish(AttachedLiveChunkResult::Rechunk {
        bytes: b"c".to_vec(),
        forwarded: true,
    });
    let second = queue.take_next(false).expect("the rest waits");
    assert_eq!(second.as_bytes(), b"c");
    queue.finish(AttachedLiveChunkResult::Complete(false));
    assert!(queue.take_next(false).is_none());
    assert!(queue.forwarded());
}

#[test]
fn a_rerouted_step_is_tried_again() {
    let step = AttachedLiveInputStep::Reroute {
        bytes: b"x".to_vec(),
        forwarded: true,
    };
    assert_eq!(
        after_live_step(false, step, false),
        LiveChunkMove::Again {
            bytes: b"x".to_vec(),
            forwarded: true,
        }
    );
    assert_eq!(
        after_live_step(true, AttachedLiveInputStep::Complete(false), false),
        LiveChunkMove::Finished(AttachedLiveChunkResult::Complete(true))
    );
}

#[test]
fn small_input_is_one_chunk() {
    assert_eq!(live_input_entry(1, true), LiveEntry::Chunk);
}

fn shown() -> PaneTarget {
    PaneTarget {
        session_name: "alpha".to_owned(),
        window_index: 2,
        pane_index: 1,
    }
}

#[test]
fn a_focus_event_is_told_of_client_and_pane() {
    let session_name = || "alpha".to_owned();
    let client_name = || "41".to_owned();
    let told = |event| handle_attached_terminal_control_event(41, &shown(), event);
    assert_eq!(
        told(TerminalControlEvent::FocusIn),
        vec![
            InputLifecycle::ClientFocusIn {
                session_name: session_name(),
                client_name: client_name(),
            },
            InputLifecycle::PaneFocusIn { target: shown() },
        ]
    );
    assert_eq!(
        told(TerminalControlEvent::FocusOut),
        vec![
            InputLifecycle::PaneFocusOut { target: shown() },
            InputLifecycle::ClientFocusOut {
                session_name: session_name(),
                client_name: client_name(),
            },
        ]
    );
    assert_eq!(
        told(TerminalControlEvent::ClientLightTheme),
        vec![InputLifecycle::ClientLightTheme {
            session_name: session_name(),
            client_name: client_name(),
        }]
    );
    assert_eq!(
        told(TerminalControlEvent::ClientDarkTheme),
        vec![InputLifecycle::ClientDarkTheme {
            session_name: session_name(),
            client_name: client_name(),
        }]
    );
}

#[test]
fn a_client_is_told_of_as_active_once() {
    let mut cache = None;
    let mut epoch = 6;
    let active = InputLifecycle::ClientActive {
        session_name: "alpha".to_owned(),
        client_name: "41".to_owned(),
    };
    assert_eq!(
        emit_attached_client_active_if_changed(&mut cache, &mut epoch, 41, &shown(), None),
        None
    );
    assert_eq!((epoch, cache.is_none()), (6, true));
    assert_eq!(
        emit_attached_client_active_if_changed(&mut cache, &mut epoch, 41, &shown(), Some(true)),
        Some(active)
    );
    assert_eq!(epoch, 7);
    assert!(active_client_emit_is_current(&cache, epoch, &shown()));
    assert_eq!(
        emit_attached_client_active_if_changed(&mut cache, &mut epoch, 41, &shown(), Some(true)),
        None
    );
    assert_eq!(epoch, 7);
    epoch = 9;
    assert!(!active_client_emit_is_current(&cache, epoch, &shown()));
    assert_eq!(
        emit_attached_client_active_if_changed(&mut cache, &mut epoch, 41, &shown(), Some(false)),
        None
    );
    assert_eq!(epoch, 9);
    assert!(active_client_emit_is_current(&cache, epoch, &shown()));
}

#[test]
fn typing_clears_the_alerts_of_the_active_window() {
    let store = SessionStore {
        sessions: vec![Session {
            name: "alpha".to_owned(),
            id: 1,
            windows: Vec::new(),
            active_window_index: 5,
        }],
    };
    let client = |session: &str, key_table| AttachedClient {
        session_name: session.to_owned(),
        can_write: true,
        read_only: false,
        prompt: false,
        mode_tree: false,
        overlay: false,
        display_panes: false,
        key_table,
    };
    assert_eq!(
        clear_attached_focus_alerts(&store, Some(&client("alpha", false))),
        Some(("alpha".to_owned(), 5))
    );
    assert_eq!(
        clear_attached_focus_alerts(&store, Some(&client("gone", false))),
        None
    );
    assert_eq!(clear_attached_focus_alerts(&store, None), None);
    assert!(attached_key_table_active(Some(&client("alpha", true))));
    assert!(!attached_key_table_active(Some(&client("alpha", false))));
    assert!(!attached_key_table_active(None));
}

#[test]
fn only_a_bare_detach_is_done_at_once() {
    let detach = vec![BoundCommand {
        name: "detach-client".to_owned(),
        arguments: Vec::new(),
    }];
    assert!(is_immediate_detach(CTRL_B, PREFIX, Some(&detach)));
    assert!(!is_immediate_detach(b'x'.into(), PREFIX, Some(&detach)));
    assert!(!is_immediate_detach(CTRL_B, PREFIX, None));
    let other = vec![BoundCommand {
        name: "detach-client".to_owned(),
        arguments: vec!["-a".to_owned()],
    }];
    assert!(!is_immediate_detach(CTRL_B, PREFIX, Some(&other)));
}

#[test]
fn an_expired_prefix_is_written_or_handled_as_a_key() {
    let mut pending = b"\x1b]".to_vec();
    assert_eq!(
        flush_attached_consumed_osc_prefix(&mut pending, AttachedKeyDecode::Partial),
        ExpiredInput {
            bytes: b"\x1b]".to_vec(),
            becomes: ExpiredPrefix::WriteRaw,
        }
    );
    assert!(pending.is_empty());
    for (input, rest) in [(&b"\x1b]"[..], None), (&b"\x1b]4;"[..], Some(2))] {
        let mut pending = input.to_vec();
        let expired = flush_attached_consumed_osc_prefix(
            &mut pending,
            AttachedKeyDecode::Matched { size: 2, key: 7 },
        );
        assert!(pending.is_empty());
        assert_eq!(expired.bytes, input);
        assert_eq!(expired.becomes, ExpiredPrefix::Key { key: 7, rest });
    }
}

#[test]
fn expired_input_is_forwarded_unless_a_binding_took_it() {
    let key = |rest| ExpiredPrefix::Key { key: 7, rest };
    assert!(flushed_input_forwards(ExpiredPrefix::WriteRaw, true, false));
    assert!(flushed_input_forwards(key(None), false, false));
    assert!(!flushed_input_forwards(key(None), true, true));
    assert!(flushed_input_forwards(key(Some(2)), true, true));
    assert!(!flushed_input_forwards(key(Some(2)), true, false));
}
