use rmux_server::bracketed_paste::{
    decode_bracketed_paste, decode_bracketed_paste_after_append, encode_bracketed_paste_for_mode,
    strip_bracketed_paste_markers, BracketedPasteDecode,
};
use rmux_server::bytes::find_subslice;
use rmux_server::keys::{
    decode_live_attached_key, key_code_lookup_bits, windows_console_binding_key,
    windows_console_binding_override_key, AttachedKeyDecode, WindowsConsoleKeyEvent, KEYC_CTRL,
    KEYC_IMPLIED_META, KEYC_META, KEYC_SHIFT, LEFT_ALT_PRESSED, LEFT_CTRL_PRESSED,
    RIGHT_ALT_PRESSED, RIGHT_CTRL_PRESSED,
};
use rmux_server::mouse_report::sgr_mouse;
use rmux_server::palette_response::{
    modal_palette_replies, split_attached_modal_palette_input,
    write_attached_palette_response_for_identity, ModalPaletteInputSegment, TerminalPaletteIndex,
};
use rmux_server::terminal_response::{
    decode_attached_terminal_control, decode_attached_terminal_control_after_append,
    decode_focus_event, decode_terminal_response, TerminalControlEvent, TerminalResponseDecode,
};

#[test]
fn pane_mode_controls_bracketed_paste_wrappers() {
    let body = b"line one\nline two";
    assert_eq!(encode_bracketed_paste_for_mode(body, false), body);
    assert_eq!(
        encode_bracketed_paste_for_mode(body, true),
        b"\x1b[200~line one\nline two\x1b[201~"
    );
}

#[test]
fn detects_chunked_start_as_partial() {
    assert_eq!(
        decode_bracketed_paste(b"\x1b[20"),
        BracketedPasteDecode::Partial
    );
}

#[test]
fn leaves_lone_escape_for_key_decoder() {
    assert_eq!(
        decode_bracketed_paste(b"\x1b"),
        BracketedPasteDecode::NotPaste
    );
}

#[test]
fn leaves_ambiguous_csi_prefix_for_key_decoder() {
    assert_eq!(
        decode_bracketed_paste(b"\x1b["),
        BracketedPasteDecode::NotPaste
    );
}

#[test]
fn matches_through_the_closing_delimiter() {
    assert_eq!(
        decode_bracketed_paste(b"\x1b[200~line\r\n\x02\x1b[201~tail"),
        BracketedPasteDecode::Matched {
            size: 19,
            body_start: 6,
            body_end: 13,
        }
    );
}

#[test]
fn incremental_search_finds_closing_delimiter_split_at_append_boundary() {
    let input = b"\x1b[200~body\x1b[201~tail";
    let closing_at = b"\x1b[200~body".len();
    for new_input_at in closing_at + 1..closing_at + b"\x1b[201~".len() {
        assert_eq!(
            decode_bracketed_paste_after_append(input, new_input_at),
            BracketedPasteDecode::Matched {
                size: closing_at + b"\x1b[201~".len(),
                body_start: b"\x1b[200~".len(),
                body_end: closing_at,
            },
            "delimiter split before byte {new_input_at}"
        );
    }
}

#[test]
fn incremental_search_starts_at_the_append_boundary_overlap() {
    // The earlier close is an impossible retained-state sentinel: choosing
    // it would prove that the append cursor was ignored and the prefix was
    // rescanned.
    let input = b"\x1b[200~old\x1b[201~padding-padding\x1b[201~tail";
    let new_input_at = b"\x1b[200~old\x1b[201~padding-padding".len();
    let body_end = new_input_at;
    assert_eq!(
        decode_bracketed_paste_after_append(input, new_input_at),
        BracketedPasteDecode::Matched {
            size: body_end + b"\x1b[201~".len(),
            body_start: b"\x1b[200~".len(),
            body_end,
        }
    );
}

#[test]
fn ignores_other_escape_sequences() {
    assert_eq!(
        decode_bracketed_paste(b"\x1b[201~"),
        BracketedPasteDecode::NotPaste
    );
}

#[test]
fn strip_removes_complete_markers() {
    assert_eq!(
        strip_bracketed_paste_markers(b"\x1b[200~hello\x1b[201~"),
        b"hello".to_vec()
    );
}

#[test]
fn strip_preserves_ordinary_bytes_and_lone_escape() {
    assert_eq!(
        strip_bracketed_paste_markers(b"hi\x1bworld"),
        b"hi\x1bworld".to_vec()
    );
}

#[test]
fn strip_collapses_fragmented_end_marker_into_nothing() {
    // Hostile clipboard: ESC[20 + ESC[201~ + 1~body.
    // A single-pass strip would remove the middle complete marker and leave
    // ESC[201~body — a live end-marker; the fixed-point loop must remove it.
    let mut input = Vec::new();
    input.extend_from_slice(b"\x1b[20");
    input.extend_from_slice(b"\x1b[201~");
    input.extend_from_slice(b"1~body");
    assert_eq!(strip_bracketed_paste_markers(&input), b"body".to_vec());
}

#[test]
fn strip_collapses_fragmented_start_marker_into_nothing() {
    let mut input = Vec::new();
    input.extend_from_slice(b"\x1b[");
    input.extend_from_slice(b"\x1b[200~");
    input.extend_from_slice(b"200~body");
    assert_eq!(strip_bracketed_paste_markers(&input), b"body".to_vec());
}

#[test]
fn strip_is_idempotent_on_pasted_control_characters() {
    // ESC-less control characters must be preserved verbatim so a pasted
    // Ctrl-C stays a Ctrl-C in the overlay's decoded stream.
    assert_eq!(
        strip_bracketed_paste_markers(b"\x1b[200~a\x03b\x1b[201~"),
        b"a\x03b".to_vec()
    );
}

#[test]
fn an_encoded_paste_decodes_to_its_body() {
    let body = b"two\nlines".as_slice();
    let encoded = encode_bracketed_paste_for_mode(body, true);
    match decode_bracketed_paste(&encoded) {
        BracketedPasteDecode::Matched {
            size,
            body_start,
            body_end,
        } => {
            assert_eq!(size, encoded.len());
            assert_eq!(&encoded[body_start..body_end], body);
        }
        decoded => panic!("a paste was encoded, not {decoded:?}"),
    }
    assert_eq!(strip_bracketed_paste_markers(&encoded), body);
}

#[test]
fn matches_primary_device_attributes_response() {
    assert_eq!(
        decode_terminal_response(b"\x1b[?62;52;ctail"),
        TerminalResponseDecode::Matched {
            size: 10,
            event: None
        }
    );
}

#[test]
fn marks_cursor_position_response_as_pane_bound() {
    assert_eq!(
        decode_terminal_response(b"\x1b[12;40R"),
        TerminalResponseDecode::PaneBound { size: 8 }
    );
}

#[test]
fn matches_decrpm_response() {
    assert_eq!(
        decode_terminal_response(b"\x1b[?2004;1$y"),
        TerminalResponseDecode::Matched {
            size: 11,
            event: None
        }
    );
}

#[test]
fn matches_theme_reports() {
    assert_eq!(
        decode_terminal_response(b"\x1b[?997;1n"),
        TerminalResponseDecode::Matched {
            size: 9,
            event: Some(TerminalControlEvent::ClientDarkTheme)
        }
    );
    assert_eq!(
        decode_terminal_response(b"\x1b[?997;2n"),
        TerminalResponseDecode::Matched {
            size: 9,
            event: Some(TerminalControlEvent::ClientLightTheme)
        }
    );
    assert_eq!(
        decode_terminal_response(b"\x1b[?2031;1$y"),
        TerminalResponseDecode::Matched {
            size: 11,
            event: None
        }
    );
}

#[test]
fn retains_fragmented_responses() {
    assert_eq!(
        decode_terminal_response(b"\x1b[?62;52"),
        TerminalResponseDecode::Partial
    );
}

#[test]
fn leaves_arrow_keys_for_key_decoder() {
    assert_eq!(
        decode_terminal_response(b"\x1b[A"),
        TerminalResponseDecode::NotResponse
    );
}

#[test]
fn leaves_extended_keys_for_key_decoder() {
    assert_eq!(
        decode_terminal_response(b"\x1b[27;2;65u"),
        TerminalResponseDecode::NotResponse
    );
}

#[test]
fn attached_terminal_control_consumes_focus_events_by_default() {
    assert_eq!(
        decode_attached_terminal_control(b"\x1b[Irest", false),
        TerminalResponseDecode::Matched {
            size: 3,
            event: Some(TerminalControlEvent::FocusIn)
        }
    );
    assert_eq!(
        decode_attached_terminal_control(b"\x1b[Orest", false),
        TerminalResponseDecode::Matched {
            size: 3,
            event: Some(TerminalControlEvent::FocusOut)
        }
    );
    assert_eq!(
        decode_focus_event(b"\x1b[Irest"),
        Some(TerminalControlEvent::FocusIn)
    );
}

#[test]
fn attached_terminal_control_preserves_focus_events_for_focus_mode() {
    assert_eq!(
        decode_attached_terminal_control(b"\x1b[Irest", true),
        TerminalResponseDecode::NotResponse
    );
    assert_eq!(
        decode_attached_terminal_control(b"\x1b[Orest", true),
        TerminalResponseDecode::NotResponse
    );
}

#[test]
fn attached_terminal_control_consumes_osc_sequences() {
    assert_eq!(
        decode_attached_terminal_control(b"\x1b]52;c;AAAA\x07tail", false),
        TerminalResponseDecode::Matched {
            size: 12,
            event: None
        }
    );
    assert_eq!(
        decode_attached_terminal_control(b"\x1b]52;c;AAAA\x1b\\tail", false),
        TerminalResponseDecode::Matched {
            size: 13,
            event: None
        }
    );
    assert_eq!(
        decode_attached_terminal_control(b"\x1b]52;c;AAAA", false),
        TerminalResponseDecode::Partial
    );
}

#[test]
fn incremental_osc_search_finds_terminators_at_append_boundary() {
    let bell_terminated = b"\x1b]52;c;AAAA\x07tail";
    let bell_at = b"\x1b]52;c;AAAA".len();
    assert_eq!(
        decode_attached_terminal_control_after_append(bell_terminated, false, bell_at),
        TerminalResponseDecode::Matched {
            size: bell_at + 1,
            event: None,
        }
    );

    let string_terminated = b"\x1b]52;c;AAAA\x1b\\tail";
    let terminator_at = b"\x1b]52;c;AAAA".len();
    assert_eq!(
        decode_attached_terminal_control_after_append(
            string_terminated,
            false,
            terminator_at + 1,
        ),
        TerminalResponseDecode::Matched {
            size: terminator_at + 2,
            event: None,
        }
    );
}

#[test]
fn incremental_control_search_starts_at_the_append_boundary_overlap() {
    // Earlier final bytes are impossible in retained partial state. They
    // are sentinels that expose any scan which restarts before the cursor.
    let osc = b"\x1b]52;c;old\x07padding-padding-new\x07tail";
    let osc_new_input_at = b"\x1b]52;c;old\x07padding-padding-new".len();
    assert_eq!(
        decode_attached_terminal_control_after_append(osc, false, osc_new_input_at),
        TerminalResponseDecode::Matched {
            size: osc_new_input_at + 1,
            event: None,
        }
    );

    let csi = b"\x1b[?62;52cpadding-padding997;1n";
    let csi_new_input_at = b"\x1b[?62;52cpadding-padding".len();
    assert_eq!(
        decode_attached_terminal_control_after_append(csi, false, csi_new_input_at),
        TerminalResponseDecode::Matched {
            size: csi.len(),
            event: None,
        }
    );
}

#[test]
fn attached_terminal_control_retains_ambiguous_alt_right_bracket_prefix() {
    assert_eq!(
        decode_attached_terminal_control(b"\x1b]", false),
        TerminalResponseDecode::Partial
    );
    assert_eq!(
        decode_attached_terminal_control(b"\x1b]X\x07", false),
        TerminalResponseDecode::NotResponse
    );
}

#[test]
fn attached_terminal_control_retains_every_fragmented_osc52_prefix() {
    let response = b"\x1b]52;c;AAAA\x07";
    for split in 2..b"\x1b]52;".len() {
        assert_eq!(
            decode_attached_terminal_control(&response[..split], false),
            TerminalResponseDecode::Partial,
            "OSC52 prefix split at byte {split}"
        );
    }
}

#[test]
fn modal_palette_splitter_ignores_osc4_bytes_inside_opaque_frames() {
    for opaque in [
        b"\x1b[200~paste\x1b]4;1;rgb:1/2/3\x07body\x1b[201~".as_slice(),
        b"\x1bPtmux;\x1b\x1b]4;1;rgb:1/2/3\x07payload\x1b\\".as_slice(),
        b"\x1b_Gi=1;payload\x1b]4;1;rgb:1/2/3\x07more\x1b\\".as_slice(),
        b"\x1b]52;c;payload\x1b]4;1;rgb:1/2/3\x07".as_slice(),
    ] {
        assert!(modal_palette_replies(&[], opaque).is_empty());
        assert!(
            split_attached_modal_palette_input(&[], opaque, &[]).is_none(),
            "opaque payload must not expose a nested OSC 4: {opaque:?}"
        );
    }
}

#[test]
fn modal_palette_splitter_does_not_search_in_partial_opaque_frames() {
    for opaque in [
        b"\x1b[200~paste\x1b]4;1;rgb:1/2/3\x07".as_slice(),
        b"\x1bPtmux;\x1b\x1b]4;1;rgb:1/2/3\x07".as_slice(),
        b"\x1b_Gi=1;payload\x1b]4;1;rgb:1/2/3\x07".as_slice(),
    ] {
        assert!(modal_palette_replies(&[], opaque).is_empty());
        assert!(
            split_attached_modal_palette_input(&[], opaque, &[]).is_none(),
            "partial opaque payload must remain indivisible: {opaque:?}"
        );
    }
}

#[test]
fn a_palette_reply_is_set_apart_from_the_keys_around_it() {
    let reply = b"\x1b]4;7;rgb:1111/2222/3333\x07".to_vec();
    let mut input = b"ab".to_vec();
    input.extend(&reply);
    input.extend(b"cd");
    assert_eq!(modal_palette_replies(&[], &input), vec![reply.clone()]);
    let split = split_attached_modal_palette_input(
        &input[..5],
        &input[5..],
        &[Some(TerminalPaletteIndex(7))],
    )
    .expect("a reply is set apart");
    assert!(split.retained.is_empty());
    assert_eq!(
        split.segments,
        vec![
            ModalPaletteInputSegment::Input(b"ab".to_vec()),
            ModalPaletteInputSegment::Response {
                index: TerminalPaletteIndex(7),
                bytes: reply,
            },
            ModalPaletteInputSegment::Input(b"cd".to_vec()),
        ]
    );
    let mut joined = Vec::new();
    for segment in split.segments {
        joined.extend(segment.into_bytes());
    }
    assert_eq!(joined, input);
}

#[test]
fn a_malformed_palette_reply_stays_input() {
    let input = b"\x1b]4;7;nonsense\x07";
    assert_eq!(modal_palette_replies(&[], input), vec![input.to_vec()]);
    assert!(split_attached_modal_palette_input(&[], input, &[None]).is_none());
}

#[test]
fn a_palette_reply_reaches_only_a_pane_that_asked() {
    assert!(write_attached_palette_response_for_identity(false, Some(true)));
    assert!(!write_attached_palette_response_for_identity(false, Some(false)));
    assert!(!write_attached_palette_response_for_identity(false, None));
    assert!(!write_attached_palette_response_for_identity(true, Some(true)));
}

#[test]
fn meta_unicode_decodes_as_one_key_with_implied_meta() {
    let AttachedKeyDecode::Matched { size, key } =
        decode_live_attached_key(b"\x1b\xc3\xa9", AttachedKeyDecode::Invalid)
    else {
        panic!("Meta-é should decode as one attached key");
    };
    assert_eq!(size, 3);
    // The key named `M-é`.
    assert_eq!(
        key_code_lookup_bits(key),
        key_code_lookup_bits('é' as u64 | KEYC_META)
    );
    assert_ne!(key & KEYC_META, 0);
    assert_ne!(key & KEYC_IMPLIED_META, 0);
}

#[test]
fn meta_unicode_waits_for_every_utf8_byte() {
    for partial in [
        b"\x1b\xc3".as_slice(),
        b"\x1b\xe6".as_slice(),
        b"\x1b\xe6\x97".as_slice(),
        b"\x1b\xf0".as_slice(),
        b"\x1b\xf0\x9f".as_slice(),
        b"\x1b\xf0\x9f\x92".as_slice(),
    ] {
        assert_eq!(
            decode_live_attached_key(partial, AttachedKeyDecode::Invalid),
            AttachedKeyDecode::Partial,
            "{partial:?} must stay pending until its declared UTF-8 length"
        );
    }
    assert!(matches!(
        decode_live_attached_key(b"\x1b\xc3\xa9", AttachedKeyDecode::Invalid),
        AttachedKeyDecode::Matched { size: 3, .. }
    ));
    assert!(matches!(
        decode_live_attached_key(b"\x1b\xe6\x97\xa5", AttachedKeyDecode::Invalid),
        AttachedKeyDecode::Matched { size: 4, .. }
    ));
    assert!(matches!(
        decode_live_attached_key(b"\x1b\xf0\x9f\x92\xa1", AttachedKeyDecode::Invalid),
        AttachedKeyDecode::Matched { size: 5, .. }
    ));
}

#[test]
fn a_key_that_was_decoded_is_taken_as_it_is() {
    let decoded = AttachedKeyDecode::Matched { size: 3, key: 42 };
    assert_eq!(decode_live_attached_key(b"\x1b[A", decoded), decoded);
    assert_eq!(
        decode_live_attached_key(b"\xff", AttachedKeyDecode::Invalid),
        AttachedKeyDecode::Invalid
    );
}

fn key(unicode_char: char, control_key_state: u32) -> WindowsConsoleKeyEvent {
    WindowsConsoleKeyEvent::new(0, 0, unicode_char as u16, control_key_state, 1)
}

#[test]
fn alt_gr_is_not_promoted_to_control_binding() {
    assert_eq!(
        windows_console_binding_override_key(
            b'[' as u64,
            key('[', RIGHT_ALT_PRESSED | LEFT_CTRL_PRESSED),
        ),
        None
    );
}

#[test]
fn plain_left_control_promotes_printable_character() {
    assert_eq!(
        windows_console_binding_override_key(b';' as u64, key(';', LEFT_CTRL_PRESSED)),
        Some(b';' as u64 | KEYC_CTRL)
    );
}

#[test]
fn meta_and_shift_modifiers_survive_control_promotion() {
    let decoded = b';' as u64 | KEYC_META | KEYC_IMPLIED_META | KEYC_SHIFT;

    assert_eq!(
        windows_console_binding_override_key(decoded, key(';', LEFT_CTRL_PRESSED)),
        Some(b';' as u64 | KEYC_CTRL | KEYC_META | KEYC_IMPLIED_META | KEYC_SHIFT)
    );
}

#[test]
fn left_alt_without_right_ctrl_is_not_alt_gr_or_control_override() {
    assert_eq!(
        windows_console_binding_override_key(b'q' as u64, key('q', LEFT_ALT_PRESSED)),
        None
    );
}

#[test]
fn right_control_still_promotes_printable_character() {
    assert_eq!(
        windows_console_binding_override_key(b'a' as u64, key('A', RIGHT_CTRL_PRESSED)),
        Some(b'a' as u64 | KEYC_CTRL)
    );
}

#[test]
fn a_key_without_control_is_bound_as_it_was_decoded() {
    assert_eq!(windows_console_binding_key(b'a' as u64, key('a', 0)), b'a' as u64);
}

#[test]
fn mouse_reports_count_columns_and_rows_from_one() {
    assert_eq!(sgr_mouse(0, 6, 0), b"\x1b[<0;7;1M");
    assert_eq!(sgr_mouse(2, u16::MAX, 9), b"\x1b[<2;65535;10M");
}

#[test]
fn bytes_are_found_at_their_first_place() {
    assert_eq!(find_subslice(b"abcabc", b"bc"), Some(1));
    assert_eq!(find_subslice(b"abcabc", b"cb"), None);
    assert_eq!(find_subslice(b"", b"a"), None);
}

#[test]
fn what_follows_does_not_change_what_was_decoded() {
    let paste = encode_bracketed_paste_for_mode(b"text", true);
    let mut followed = paste.clone();
    followed.extend_from_slice(b"\x1b[201~ more");
    assert_eq!(
        decode_bracketed_paste(&followed),
        BracketedPasteDecode::Matched {
            size: 16,
            body_start: 6,
            body_end: 10,
        }
    );
    assert_eq!(decode_bracketed_paste(&followed), decode_bracketed_paste(&paste));
    for control in [
        &b"\x1b[I"[..],
        &b"\x1b]11;rgb:0/0/0\x1b\\"[..],
        &b"\x1b[?997;1n"[..],
        &b"\x1b[1;2R"[..],
    ] {
        for tail in [&b"\\"[..], &b"n"[..], &b"\x1b[O"[..]] {
            assert_eq!(
                decode_attached_terminal_control(&[control, tail].concat(), false),
                decode_attached_terminal_control(control, false)
            );
        }
    }
}
