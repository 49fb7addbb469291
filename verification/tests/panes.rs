use std::collections::VecDeque;

use rmux_server::error::RmuxError;
use rmux_server::output_subscriptions::{
    cursor_dto, cursor_event_limit, lag_dto, pane_output_answer, read_output_events,
    subscription_limit_error, OutputCursor, OutputCursorAdmission, OutputCursorItem, OutputGap,
    OutputRead, OutputStarts, OutputSubscriptionState, PaneOutputAnswer, PaneOutputCursor, PaneOutputEvent,
    PaneOutputLagNotice, PaneOutputSubscriptionStart, SubscribePaneOutputResponse, SubscriptionLimitError,
};
use rmux_server::pane_by_id::{
    handle_pane_input_ref, handle_pane_kill_ref, handle_pane_resize_ref, handle_pane_respawn_ref,
    handle_pane_select_ref, handle_pane_snapshot_ref, mark_single_pane_input_ref_as_interactive,
    pane_id_for_select_target, pane_input_answer, pane_respawn_effects, pane_select_effects, resize_changes_layout,
    resolve_pane_id, resolve_pane_target_ref, ConsoleKeys, KilledPanes, PaneInputPlan,
    PaneKillEffect, PaneResizePlan, PaneRespawnEffect, PaneSelectEffect, PaneSelectOutcome, PaneSelectPlan,
    PaneTargetRef, ResizeKind, RespawnAction, SendKeysResponse,
};
use rmux_server::pane_options::{
    handle_pane_option_get, handle_pane_option_set, pane_option_effects, pane_option_target,
    KnownOption, OptionChange, PaneOptionEffect, PaneOptionGetResponse, PaneOptionSetResponse,
};
use rmux_server::pane_state::{
    cleanup_connection_pane_state_subscriptions_sync, foreground_panes_of_tick,
    foreground_state_changed, foreground_watch_continues, handle_pane_foreground_state,
    handle_pane_state_cursor, handle_subscribe_pane_state, handle_unsubscribe_pane_state,
    lock_pane_state_journal, pane_id_for_target, pane_state_snapshot_locked,
    pane_target_for_pane_id, record_pane_option_mutation, record_pane_state_change,
    snapshot_for_subscription, start_foreground_watch_if_needed, state_cursor_limit,
    ForegroundCache, ForegroundState, JournalEffect, PaneForegroundStateResponse,
    PaneOptionEntry, PaneOptionStateChange, PaneStateCursorStep, PaneStateInclude, PaneStateRead,
    SubscriptionInfo,
};
use rmux_server::request_identity::ExpectedWindowOccurrenceIdentity;
use rmux_server::sessions::{Pane, PaneTarget, Session, SessionStore, Window};
use rmux_server::tree_kill::{
    lost_identity_error, perform_tree_kill_actions, perform_tree_kill_current,
    perform_tree_kill_tagged, tree_kill_sort_key, tree_kill_stable_identity, ModeTreeAction,
    ModeTreeItem, TreeKillNext, TreeKillRun, TreeKillStage, TreeKillStep, TreeTarget,
};
use rmux_server::windows_console_sequence::{
    input_write_sessions, prepare_windows_console_input_sequence, push_unique_sessions,
    tokens_contain_windows_console_input,
    write_windows_console_input_sequence_and_mark_interactive, ConsoleAction, ConsoleInput,
    ConsoleInputStep, ConsoleToken,
};

fn session(name: &str, id: u32, windows: Vec<Window>) -> Session {
    Session {
        name: name.to_owned(),
        id,
        windows,
        active_window_index: 0,
    }
}

/// Session alpha with panes 100 and 101 in window 0 and pane 102 in window 3; beta
/// shares pane 102.
fn store() -> SessionStore {
    SessionStore {
        sessions: vec![
            session(
                "beta",
                2,
                vec![Window {
                    index: 5,
                    id: 12,
                    panes: vec![Pane { index: 4, id: 102 }],
                    active_pane_index: 4,
                }],
            ),
            session(
                "alpha",
                1,
                vec![
                    Window {
                        index: 0,
                        id: 10,
                        panes: vec![Pane { index: 0, id: 100 }, Pane { index: 1, id: 101 }],
                        active_pane_index: 0,
                    },
                    Window {
                        index: 3,
                        id: 12,
                        panes: vec![Pane { index: 2, id: 102 }],
                        active_pane_index: 2,
                    },
                ],
            ),
        ],
    }
}

fn server(message: &str) -> RmuxError {
    RmuxError::Server(message.to_owned())
}

fn place(session: &str, window_index: u32, pane_index: u32) -> PaneTarget {
    PaneTarget {
        session_name: session.to_owned(),
        window_index,
        pane_index,
    }
}

fn by_id(session: &str, pane_id: u32) -> PaneTargetRef {
    PaneTargetRef::Id {
        session_name: session.to_owned(),
        pane_id,
    }
}

fn texts(texts: &[&str]) -> Vec<String> {
    texts.iter().map(|text| (*text).to_owned()).collect()
}

#[test]
fn a_pane_is_found_by_its_id() {
    assert_eq!(resolve_pane_id(&store(), "alpha", 101), Ok(place("alpha", 0, 1)));
    assert_eq!(resolve_pane_id(&store(), "alpha", 102), Ok(place("alpha", 3, 2)));
    assert_eq!(
        resolve_pane_id(&store(), "beta", 101),
        Err(RmuxError::PaneNotFound {
            session_name: "beta".to_owned(),
            pane_id: 101,
        })
    );
    assert_eq!(
        resolve_pane_target_ref(&store(), &by_id("ghost", 1)),
        Err(RmuxError::SessionNotFound("ghost".to_owned()))
    );
    let slot = PaneTargetRef::Slot(place("ghost", 7, 7));
    assert_eq!(slot.session_name(), "ghost");
    assert_eq!(
        resolve_pane_target_ref(&store(), &slot),
        Ok(place("ghost", 7, 7))
    );
}

#[test]
fn literal_keys_are_their_bytes() {
    assert_eq!(
        handle_pane_input_ref(
            &store(),
            &by_id("alpha", 101),
            &texts(&["Enter", "\u{e9}"]),
            true,
            Err(server("not looked at")),
            None,
        ),
        PaneInputPlan::WriteBytes {
            target: place("alpha", 0, 1),
            bytes: b"Enter\xc3\xa9".to_vec(),
        }
    );
}

#[test]
fn keys_are_counted_however_they_are_written() {
    assert_eq!(
        pane_input_answer(&texts(&["Enter", "\u{e9}", "C-c"]), Ok(())),
        Ok(SendKeysResponse { key_count: 3 })
    );
    assert_eq!(
        pane_input_answer(&Vec::new(), Ok(())),
        Ok(SendKeysResponse { key_count: 0 })
    );
    assert_eq!(
        pane_input_answer(&texts(&["Enter"]), Err(server("gone"))),
        Err(server("gone"))
    );
}

#[test]
fn keys_go_through_a_console_where_it_takes_them() {
    let plan = |console: Option<ConsoleKeys>| {
        handle_pane_input_ref(
            &store(),
            &by_id("alpha", 100),
            &texts(&["C-c"]),
            false,
            Ok(b"\x03".to_vec()),
            console,
        )
    };
    let keys = || ConsoleKeys {
        select_all: false,
        sequence: Ok(false),
        console: Some(ConsoleInput {
            action: ConsoleAction(3),
            bytes: b"\x04".to_vec(),
        }),
        as_pane_bytes: false,
    };
    let target = || place("alpha", 0, 0);
    let bytes = || PaneInputPlan::WriteBytes {
        target: target(),
        bytes: b"\x03".to_vec(),
    };
    assert_eq!(plan(None), bytes());
    assert_eq!(
        plan(Some(keys())),
        PaneInputPlan::WriteConsole {
            target: target(),
            action: ConsoleAction(3),
            bytes: b"\x04".to_vec(),
        }
    );
    assert_eq!(
        plan(Some(ConsoleKeys {
            select_all: true,
            ..keys()
        })),
        bytes()
    );
    assert_eq!(
        plan(Some(ConsoleKeys {
            as_pane_bytes: true,
            ..keys()
        })),
        bytes()
    );
    assert_eq!(
        plan(Some(ConsoleKeys {
            sequence: Ok(true),
            ..keys()
        })),
        PaneInputPlan::ConsoleSequence(target())
    );
    assert_eq!(
        plan(Some(ConsoleKeys {
            sequence: Err(server("no console")),
            ..keys()
        })),
        PaneInputPlan::Refused(server("no console"))
    );
    assert!(mark_single_pane_input_ref_as_interactive(true, true));
    assert!(!mark_single_pane_input_ref_as_interactive(false, true));
}

#[test]
fn a_resize_changes_the_layout_unless_it_does_nothing() {
    assert_eq!(
        handle_pane_resize_ref(&store(), &by_id("alpha", 102), ResizeKind::TrimBelow),
        Ok(PaneResizePlan {
            target: place("alpha", 3, 2),
            trims: true,
        })
    );
    assert!(handle_pane_resize_ref(&store(), &by_id("beta", 1), ResizeKind::Layout).is_err());
    assert!(resize_changes_layout(true, ResizeKind::Layout));
    assert!(!resize_changes_layout(true, ResizeKind::NoOp));
    assert!(!resize_changes_layout(false, ResizeKind::Layout));
}

#[test]
fn a_killed_pane_leaves_its_session_alone() {
    let killed = || KilledPanes {
        session_destroyed: false,
        window_destroyed: false,
        removed_session_id: None,
        removed_pane_ids: vec![101],
    };
    assert_eq!(
        handle_pane_kill_ref(&store(), &by_id("alpha", 101), Ok(killed())),
        Ok(vec![
            PaneKillEffect::RemovePaneHooks {
                window_index: 0,
                pane_index: 1,
            },
            PaneKillEffect::RecordPanesKilled,
            PaneKillEffect::ForgetPaneSnapshots,
            PaneKillEffect::CleanUpOutputSubscriptions,
            PaneKillEffect::SyncSilenceTimers,
            PaneKillEffect::EmitLayoutChanged { window_index: 0 },
            PaneKillEffect::DismissModeTree,
            PaneKillEffect::RefreshAttachedClients,
        ])
    );
    assert_eq!(
        handle_pane_kill_ref(&store(), &by_id("alpha", 101), Err(server("busy"))),
        Err(server("busy"))
    );
    assert!(handle_pane_kill_ref(&store(), &by_id("alpha", 1), Ok(killed())).is_err());
}

#[test]
fn the_last_pane_takes_its_session_along() {
    let killed = KilledPanes {
        session_destroyed: true,
        window_destroyed: true,
        removed_session_id: Some(2),
        removed_pane_ids: vec![102],
    };
    assert_eq!(
        handle_pane_kill_ref(&store(), &by_id("beta", 102), Ok(killed)),
        Ok(vec![
            PaneKillEffect::RemoveSessionHooks,
            PaneKillEffect::PrepareSessionClosed { session_id: 2 },
            PaneKillEffect::RecordPanesKilled,
            PaneKillEffect::PruneWebSession { session_id: 2 },
            PaneKillEffect::ForgetPaneSnapshots,
            PaneKillEffect::EmitSessionClosed,
            PaneKillEffect::CleanUpOutputSubscriptions,
            PaneKillEffect::RemoveSessionLeases,
            PaneKillEffect::ExitAttachedClients,
            PaneKillEffect::CancelSilenceTimers,
            PaneKillEffect::RefreshControlClients,
            PaneKillEffect::ShutDownIfEmpty,
        ])
    );
}

#[test]
fn a_pane_shows_what_it_shows_at_its_place() {
    assert_eq!(
        handle_pane_snapshot_ref(&store(), &by_id("alpha", 100), Ok(7)),
        Ok(7)
    );
    assert!(handle_pane_snapshot_ref(&store(), &by_id("alpha", 1), Ok(7)).is_err());
}

#[test]
fn a_selection_is_told_where_it_moves() {
    let plan = handle_pane_select_ref(&store(), &by_id("alpha", 101), false)
        .expect("the pane is there");
    assert_eq!(
        plan,
        PaneSelectPlan {
            target: place("alpha", 0, 1),
            pane_changed: true,
            pane_id: Some(101),
        }
    );
    assert_eq!(
        pane_select_effects(
            &plan,
            &PaneSelectOutcome::Selected {
                active_pane_index: 1
            }
        ),
        vec![
            PaneSelectEffect::EmitPaneChanged { window_index: 0 },
            PaneSelectEffect::AfterSelectHook {
                window_index: 0,
                pane_index: 1,
            },
            PaneSelectEffect::RefreshAttachedClients,
        ]
    );
    assert!(pane_select_effects(&plan, &PaneSelectOutcome::Failed).is_empty());
    let active = handle_pane_select_ref(&store(), &by_id("alpha", 100), false)
        .expect("the pane is there");
    assert!(!active.pane_changed);
    let gone = PaneTargetRef::Slot(place("ghost", 0, 0));
    assert_eq!(
        handle_pane_select_ref(&store(), &gone, false),
        Err(RmuxError::SessionNotFound("ghost".to_owned()))
    );
    assert_eq!(pane_id_for_select_target(&store(), &place("alpha", 3, 2)), Some(102));
    assert_eq!(pane_id_for_select_target(&store(), &place("alpha", 3, 0)), None);
}

#[test]
fn a_new_title_is_recorded_and_told() {
    let plan = handle_pane_select_ref(&store(), &by_id("alpha", 101), true)
        .expect("the pane is there");
    assert!(!plan.pane_changed);
    assert_eq!(
        pane_select_effects(&plan, &PaneSelectOutcome::Titled { changed: true }),
        vec![
            PaneSelectEffect::RecordTitleChange { pane_id: 101 },
            PaneSelectEffect::EmitTitleChanged,
            PaneSelectEffect::AfterSelectHook {
                window_index: 0,
                pane_index: 1,
            },
            PaneSelectEffect::RefreshAttachedClients,
        ]
    );
}

#[test]
fn a_respawn_goes_on_step_by_step() {
    let (mut respawn, action) =
        handle_pane_respawn_ref(&store(), &by_id("alpha", 101), Some(true))
            .expect("the pane is there");
    assert_eq!(action, RespawnAction::SetRemainOnExit { keep_alive: true });
    assert_eq!(respawn.advance(Ok(0)), RespawnAction::SyncAliasOptions);
    assert_eq!(respawn.advance(Ok(0)), RespawnAction::FindPane);
    assert_eq!(respawn.advance(Ok(101)), RespawnAction::Respawn { pane_id: 101 });
    let action = respawn.advance(Ok(0));
    assert_eq!(
        action,
        RespawnAction::Respawned {
            pane_id: 101,
            record_option: true,
        }
    );
    assert_eq!(
        pane_respawn_effects(&action),
        vec![
            PaneRespawnEffect::RecordRespawnBoundary { pane_id: 101 },
            PaneRespawnEffect::RecordOptionMutation { pane_id: 101 },
            PaneRespawnEffect::RefreshAttachedClients,
        ]
    );
}

#[test]
fn a_respawn_without_an_option_records_its_boundary_alone() {
    let (mut respawn, action) = handle_pane_respawn_ref(&store(), &by_id("alpha", 101), None)
        .expect("the pane is there");
    assert_eq!(action, RespawnAction::FindPane);
    assert!(pane_respawn_effects(&action).is_empty());
    respawn.advance(Ok(101));
    assert_eq!(
        pane_respawn_effects(&respawn.advance(Ok(0))),
        vec![
            PaneRespawnEffect::RecordRespawnBoundary { pane_id: 101 },
            PaneRespawnEffect::RefreshAttachedClients,
        ]
    );
    let refused = RespawnAction::Refused {
        error: server("no"),
        restore_options: true,
    };
    assert!(pane_respawn_effects(&refused).is_empty());
}

#[test]
fn a_respawn_that_fails_puts_the_options_back() {
    let start = |keep_alive| {
        handle_pane_respawn_ref(&store(), &by_id("alpha", 101), keep_alive)
            .expect("the pane is there")
            .0
    };
    let refused = |restore_options| RespawnAction::Refused {
        error: server("no"),
        restore_options,
    };
    let mut respawn = start(Some(false));
    assert_eq!(respawn.advance(Err(server("no"))), refused(false));
    let mut respawn = start(Some(false));
    respawn.advance(Ok(0));
    assert_eq!(respawn.advance(Err(server("no"))), refused(true));
    let mut respawn = start(None);
    assert_eq!(respawn.advance(Ok(101)), RespawnAction::Respawn { pane_id: 101 });
    assert_eq!(respawn.advance(Err(server("no"))), refused(false));
    assert!(handle_pane_respawn_ref(&store(), &by_id("alpha", 1), None).is_err());
}

fn change(known_option: Option<KnownOption>) -> OptionChange {
    OptionChange {
        name: "remain-on-exit".to_owned(),
        old_value: None,
        new_value: Some("on".to_owned()),
        changed: true,
        affects_alerts: vec![false, true],
        known_option,
    }
}

#[test]
fn an_option_change_is_recorded_last_while_the_state_is_held() {
    assert_eq!(
        pane_option_effects(&change(Some(KnownOption::AllowSetTitle)), true),
        vec![
            PaneOptionEffect::RefreshTranscriptLimits,
            PaneOptionEffect::RefreshTitleRename,
            PaneOptionEffect::ResizeTerminals,
            PaneOptionEffect::RecordOptionMutations,
        ]
    );
    assert_eq!(
        pane_option_effects(&change(Some(KnownOption::MessageLimit)), false),
        vec![
            PaneOptionEffect::TrimMessageLog,
            PaneOptionEffect::ResizeTerminals,
            PaneOptionEffect::RecordOptionMutations,
        ]
    );
    assert_eq!(
        pane_option_effects(&change(None), true),
        vec![PaneOptionEffect::RecordOptionMutations]
    );
}

#[test]
fn an_option_is_set_and_answered() {
    let (answer, effects) = handle_pane_option_set(101, Ok(change(None)), Ok(()));
    assert_eq!(
        answer,
        Ok(PaneOptionSetResponse {
            pane_id: 101,
            name: "remain-on-exit".to_owned(),
            old_value: None,
            new_value: Some("on".to_owned()),
            changed: true,
        })
    );
    assert_eq!(
        effects,
        vec![
            PaneOptionEffect::RefreshAttachedClients,
            PaneOptionEffect::SyncAlertTimers,
        ]
    );
    let (answer, effects) =
        handle_pane_option_set(101, Ok(change(None)), Err(server("too small")));
    assert_eq!(answer, Err(server("too small")));
    assert!(effects.is_empty());
    let (answer, effects) = handle_pane_option_set(101, Err(server("no such option")), Ok(()));
    assert_eq!(answer, Err(server("no such option")));
    assert!(effects.is_empty());
}

#[test]
fn an_option_is_looked_up() {
    let get = |target: &PaneTargetRef, pane_id, value| {
        handle_pane_option_get(&store(), target, pane_id, value)
    };
    let found = || Ok(("@mark".to_owned(), Some("1".to_owned())));
    assert_eq!(
        get(&by_id("alpha", 101), Ok(101), found()),
        Ok(PaneOptionGetResponse {
            pane_id: 101,
            name: "@mark".to_owned(),
            value: Some("1".to_owned()),
        })
    );
    assert_eq!(
        get(&by_id("alpha", 101), Ok(101), Err(server("invalid option"))),
        Err(server("invalid option"))
    );
    assert_eq!(
        get(&by_id("alpha", 101), Err(server("gone")), found()),
        Err(server("gone"))
    );
    assert_eq!(
        pane_option_target(&store(), &by_id("beta", 102), Ok(102)),
        Ok((place("beta", 5, 4), 102))
    );
}

#[test]
fn a_subscription_is_for_a_pane_that_is_there() {
    assert_eq!(
        handle_subscribe_pane_state(&store(), &by_id("alpha", 102)),
        Ok((place("alpha", 3, 2), 102))
    );
    assert_eq!(
        handle_subscribe_pane_state(&store(), &PaneTargetRef::Slot(place("alpha", 3, 9))),
        Err(RmuxError::InvalidTarget {
            value: "alpha:3.9".to_owned(),
            reason: "pane index does not exist in session".to_owned(),
        })
    );
    assert_eq!(pane_id_for_target(&store(), &place("alpha", 0, 0)), Ok(100));
}

fn all_of_it() -> PaneStateInclude {
    PaneStateInclude {
        title: true,
        options: true,
        foreground: true,
    }
}

#[test]
fn a_snapshot_has_what_is_asked_for() {
    let option = || PaneOptionEntry {
        name: "@mark".to_owned(),
        value: "1".to_owned(),
    };
    let snapshot = pane_state_snapshot_locked(
        all_of_it(),
        9,
        Some("shell".to_owned()),
        vec![option()],
    );
    assert_eq!(snapshot.revision, 9);
    assert_eq!(snapshot.title.as_deref(), Some("shell"));
    assert_eq!(snapshot.options, vec![option()]);
    assert_eq!(snapshot.foreground, None);
    let gone = pane_state_snapshot_locked(all_of_it(), 9, None, Vec::new());
    assert_eq!(gone.title.as_deref(), Some(""));
    let none = PaneStateInclude {
        title: false,
        options: false,
        foreground: false,
    };
    let bare = pane_state_snapshot_locked(none, 9, Some("shell".to_owned()), vec![option()]);
    assert_eq!(bare.title, None);
    assert!(bare.options.is_empty());
}

#[test]
fn a_pane_is_where_the_first_session_by_name_has_it() {
    assert_eq!(
        pane_target_for_pane_id(&store(), 102),
        Some(place("alpha", 3, 2))
    );
    assert_eq!(pane_target_for_pane_id(&store(), 7), None);
}

#[test]
fn a_read_is_limited() {
    assert_eq!(state_cursor_limit(None, 64), Ok(64));
    assert_eq!(state_cursor_limit(Some(3), 64), Ok(3));
    assert_eq!(state_cursor_limit(Some(65), 64), Ok(64));
    assert_eq!(
        state_cursor_limit(Some(0), 64),
        Err(server(
            "pane state cursor max_events must be greater than zero"
        ))
    );
    assert_eq!(cursor_event_limit(Some(3), 64), Ok(3));
    assert_eq!(
        cursor_event_limit(Some(0), 64),
        Err(server(
            "pane output cursor max_events must be greater than zero"
        ))
    );
}

#[test]
fn a_waiting_read_goes_past_what_is_not_for_it() {
    let nothing = PaneStateRead::Ready {
        next_revision: 5,
        event_count: 0,
    };
    assert_eq!(
        handle_pane_state_cursor(Ok(nothing), true),
        PaneStateCursorStep::Wait { next_revision: 5 }
    );
    assert_eq!(
        handle_pane_state_cursor(Ok(nothing), false),
        PaneStateCursorStep::Answer { next_revision: 5 }
    );
    let events = PaneStateRead::Ready {
        next_revision: 6,
        event_count: 2,
    };
    assert_eq!(
        handle_pane_state_cursor(Ok(events), true),
        PaneStateCursorStep::Answer { next_revision: 6 }
    );
    let lag = PaneStateRead::Lag {
        missed_from_revision: 1,
        resume_revision: 4,
    };
    assert_eq!(
        handle_pane_state_cursor(Ok(lag), true),
        PaneStateCursorStep::Rebase {
            missed_from_revision: 1,
            resume_revision: 4,
        }
    );
    assert_eq!(
        handle_pane_state_cursor(Err("not yours".to_owned()), true),
        PaneStateCursorStep::Refused(server("not yours"))
    );
}

#[test]
fn a_subscription_outlives_its_pane() {
    let info = |pane_id| SubscriptionInfo {
        pane_id,
        included: all_of_it(),
    };
    assert_eq!(
        snapshot_for_subscription(&store(), Ok(Some(info(101)))),
        Ok((info(101), Some(place("alpha", 0, 1))))
    );
    assert_eq!(
        snapshot_for_subscription(&store(), Ok(Some(info(9)))),
        Ok((info(9), None))
    );
    assert_eq!(
        snapshot_for_subscription(&store(), Ok(None)),
        Err(server("subscription not found"))
    );
    assert_eq!(
        snapshot_for_subscription(&store(), Err("not yours".to_owned())),
        Err(server("not yours"))
    );
    assert_eq!(handle_unsubscribe_pane_state(Ok(true)), Ok(true));
    assert_eq!(
        handle_unsubscribe_pane_state(Err("not yours".to_owned())),
        Err(server("not yours"))
    );
}

#[test]
fn a_change_wakes_who_waits() {
    assert_eq!(
        record_pane_state_change(4, true),
        vec![
            JournalEffect::Push { pane_id: 4 },
            JournalEffect::MarkPaneClosed { pane_id: 4 },
            JournalEffect::NotifyWaiters,
        ]
    );
    assert_eq!(
        record_pane_state_change(4, false),
        vec![
            JournalEffect::Push { pane_id: 4 },
            JournalEffect::NotifyWaiters,
        ]
    );
    assert_eq!(
        cleanup_connection_pane_state_subscriptions_sync(8),
        vec![
            JournalEffect::RemoveConnection { connection_id: 8 },
            JournalEffect::NotifyWaiters,
        ]
    );
    assert_eq!(lock_pane_state_journal(Err::<u8, u8>(3)), 3);
}

#[test]
fn an_option_that_stays_is_not_recorded() {
    assert_eq!(
        record_pane_option_mutation(change(None)),
        Some(PaneOptionStateChange::OptionSet {
            name: "remain-on-exit".to_owned(),
            old: None,
            new: "on".to_owned(),
        })
    );
    assert_eq!(
        record_pane_option_mutation(OptionChange {
            old_value: Some("on".to_owned()),
            new_value: None,
            ..change(None)
        }),
        Some(PaneOptionStateChange::OptionUnset {
            name: "remain-on-exit".to_owned(),
            old: Some("on".to_owned()),
        })
    );
    assert_eq!(
        record_pane_option_mutation(OptionChange {
            changed: false,
            ..change(None)
        }),
        None
    );
}

fn program(pid: u32, command: &str) -> ForegroundState {
    ForegroundState {
        pid: Some(pid),
        command: Some(command.to_owned()),
        cwd: None,
    }
}

#[test]
fn another_program_is_a_change_within_one_generation() {
    let mut cache = ForegroundCache::new();
    assert_eq!(cache.observe(4, 1, program(10, "sh")), None);
    assert_eq!(cache.observe(4, 1, program(10, "sh")), None);
    assert_eq!(cache.observe(5, 1, program(20, "sh")), None);
    assert_eq!(
        cache.observe(4, 1, program(11, "vi")),
        Some(program(10, "sh"))
    );
    assert_eq!(cache.observe(4, 2, program(12, "sh")), None);
    assert_eq!(
        cache.observe(5, 1, program(20, "vi")),
        Some(program(20, "sh"))
    );
    assert!(foreground_state_changed(
        &program(1, "sh"),
        &ForegroundState {
            cwd: Some("/".to_owned()),
            ..program(1, "sh")
        }
    ));
}

#[test]
fn foreground_programs_are_watched_while_someone_is_subscribed() {
    let mut started = false;
    assert!(start_foreground_watch_if_needed(&mut started));
    assert!(!start_foreground_watch_if_needed(&mut started));
    assert!(foreground_watch_continues(&mut started, 1));
    assert!(!foreground_watch_continues(&mut started, 0));
    assert!(start_foreground_watch_if_needed(&mut started));
    let panes: Vec<u32> = (0..40).collect();
    assert_eq!(foreground_panes_of_tick(&panes), panes[..32].to_vec());
    assert_eq!(foreground_panes_of_tick(&vec![1, 2]), vec![1, 2]);
}

#[test]
fn the_foreground_of_a_pane_is_told_with_the_revision() {
    assert_eq!(
        handle_pane_foreground_state(
            &store(),
            &by_id("alpha", 101),
            Ok((101, program(1, "sh"))),
            12,
        ),
        Ok(PaneForegroundStateResponse {
            pane_id: 101,
            revision: 12,
            state: Some(program(1, "sh")),
        })
    );
    assert_eq!(
        handle_pane_foreground_state(&store(), &by_id("alpha", 101), Err(server("gone")), 12),
        Err(server("gone"))
    );
    assert!(handle_pane_foreground_state(
        &store(),
        &by_id("ghost", 101),
        Ok((101, program(1, "sh"))),
        12,
    )
    .is_err());
}

fn output(sequence: u64) -> PaneOutputEvent {
    PaneOutputEvent {
        sequence,
        bytes: vec![b'x'],
    }
}

const GAP: OutputGap = OutputGap {
    expected_sequence: 3,
    resume_sequence: 8,
    missed_events: 5,
    newest_sequence: 9,
};

#[test]
fn output_is_read_in_order_up_to_a_limit() {
    let mut ready: VecDeque<_> = (1..4).map(|n| OutputCursorItem::Event(output(n))).collect();
    assert_eq!(
        read_output_events(&mut ready, 2),
        OutputRead::Events {
            events: vec![output(1), output(2)],
            limited: true,
        }
    );
    assert_eq!(
        read_output_events(&mut ready, 2),
        OutputRead::Events {
            events: vec![output(3)],
            limited: false,
        }
    );
    assert!(ready.is_empty());
}

#[test]
fn a_gap_ends_a_read() {
    let mut ready: VecDeque<_> = [
        OutputCursorItem::Event(output(1)),
        OutputCursorItem::Gap(GAP),
        OutputCursorItem::Event(output(8)),
    ]
    .into_iter()
    .collect();
    assert_eq!(read_output_events(&mut ready, 5), OutputRead::Lag(GAP));
    assert_eq!(ready.len(), 1);
    assert_eq!(
        lag_dto(&GAP),
        PaneOutputLagNotice {
            expected_sequence: 3,
            resume_sequence: 8,
            missed_events: 5,
            newest_sequence: 9,
            recent_bytes: Vec::new(),
            recent_oldest_sequence: None,
            recent_newest_sequence: None,
        }
    );
}

#[test]
fn an_output_subscription_belongs_to_its_connection() {
    let mut state = OutputSubscriptionState::new();
    let starts = OutputStarts {
        now: OutputCursor {
            next_sequence: 20,
            missed_events: 0,
        },
        oldest: OutputCursor {
            next_sequence: 12,
            missed_events: 3,
        },
    };
    let start = PaneOutputSubscriptionStart::Now;
    assert_eq!(starts.receiver_at(start), starts.now);
    assert_eq!(
        state
            .handle_subscribe_pane_output(place("alpha", 0, 1), start, Ok(101), Ok(starts), Ok(40))
            .map(|response| response.cursor),
        Ok(cursor_dto(&starts.now))
    );
    let start = PaneOutputSubscriptionStart::Oldest;
    assert_eq!(
        state.handle_subscribe_pane_output(place("alpha", 0, 1), start, Ok(101), Ok(starts), Ok(40)),
        Ok(SubscribePaneOutputResponse {
            subscription_id: 40,
            target: place("alpha", 0, 1),
            pane_id: 101,
            cursor: PaneOutputCursor {
                next_sequence: 12,
                missed_events: 3,
            },
        })
    );
    assert!(state.has_receiver(40));
    let refused = |error: &str| OutputCursorAdmission::Refused(server(error));
    assert_eq!(
        state.handle_pane_output_cursor(40, Some(7), 7, Some(9), 5),
        OutputCursorAdmission::Read { limit: 5 }
    );
    assert_eq!(
        state.handle_pane_output_cursor(40, Some(7), 8, None, 5),
        refused("subscription is not owned by this connection")
    );
    assert_eq!(
        state.handle_pane_output_cursor(41, None, 8, None, 5),
        refused("subscription not found")
    );
    assert_eq!(
        state.handle_pane_output_cursor(40, Some(7), 7, Some(0), 5),
        refused("pane output cursor max_events must be greater than zero")
    );
    assert_eq!(
        state.handle_unsubscribe_pane_output(40, Some(7), 8),
        Err(server("subscription is not owned by this connection"))
    );
    assert_eq!(state.handle_unsubscribe_pane_output(40, Some(7), 7), Ok(true));
    assert_eq!(state.handle_unsubscribe_pane_output(40, None, 7), Ok(false));
    assert_eq!(
        state.handle_pane_output_cursor(40, Some(7), 7, None, 5),
        OutputCursorAdmission::Dropped(server("subscription receiver not found"))
    );
}

#[test]
fn a_read_is_answered_with_where_the_receiver_stands() {
    let cursor = OutputCursor {
        next_sequence: 9,
        missed_events: 4,
    };
    let told = PaneOutputCursor {
        next_sequence: 9,
        missed_events: 4,
    };
    assert_eq!(cursor_dto(&cursor), told);
    let read = OutputRead::Events {
        events: vec![output(8)],
        limited: true,
    };
    assert_eq!(
        pane_output_answer(40, &cursor, read),
        PaneOutputAnswer::Cursor {
            subscription_id: 40,
            cursor: told,
            events: vec![output(8)],
            limited: true,
        }
    );
    assert_eq!(
        pane_output_answer(41, &cursor, OutputRead::Lag(GAP)),
        PaneOutputAnswer::Lag {
            subscription_id: 41,
            cursor: told,
            lag: lag_dto(&GAP),
        }
    );
}

#[test]
fn an_output_subscription_is_refused_over_the_limit() {
    let mut state = OutputSubscriptionState::new();
    let limit = SubscriptionLimitError::PerConnection { limit: 64 };
    let at = || place("alpha", 0, 1);
    let begin = OutputCursor {
        next_sequence: 1,
        missed_events: 0,
    };
    let starts = OutputStarts {
        now: begin,
        oldest: begin,
    };
    let now = PaneOutputSubscriptionStart::Now;
    assert_eq!(
        state.handle_subscribe_pane_output(at(), now, Ok(1), Ok(starts), Err(limit)),
        Err(server(
            "pane output subscription limit exceeded for connection (limit 64)"
        ))
    );
    assert_eq!(
        subscription_limit_error(SubscriptionLimitError::PerPane { limit: 8 }),
        server("pane output subscription limit exceeded for pane (limit 8)")
    );
    assert_eq!(
        state.handle_subscribe_pane_output(at(), now, Err(server("no pane")), Ok(starts), Ok(1)),
        Err(server("no pane"))
    );
    assert_eq!(
        state.handle_subscribe_pane_output(at(), now, Ok(1), Err(server("no output")), Ok(1)),
        Err(server("no output"))
    );
    for id in [1, 2, 3] {
        assert_eq!(
            state
                .handle_subscribe_pane_output(at(), now, Ok(1), Ok(starts), Ok(id))
                .map(|response| response.subscription_id),
            Ok(id)
        );
    }
    state.remove_records(&vec![3, 1]);
    assert_eq!(state.receivers, vec![2]);
}

fn key(console_bytes: Option<&[u8]>, sessions: &[&str]) -> ConsoleToken {
    ConsoleToken {
        select_all: false,
        console: console_bytes.map(|bytes| ConsoleInput {
            action: ConsoleAction(u32::from(bytes[0])),
            bytes: bytes.to_vec(),
        }),
        as_pane_bytes: false,
        encoded: Ok(b"k".to_vec()),
        sessions: Ok(texts(sessions)),
    }
}

#[test]
fn console_keys_are_sent_one_after_another() {
    let keys = vec![key(Some(b"\x03"), &["alpha"]), key(None, &["alpha", "beta"])];
    let steps = prepare_windows_console_input_sequence(&keys, 2)
        .expect("the keys can be written")
        .expect("the keys go one by one");
    let console = || ConsoleInputStep::Console {
        sessions: texts(&["alpha"]),
        action: ConsoleAction(3),
        wrote_bytes: true,
    };
    let bytes = || ConsoleInputStep::Bytes {
        sessions: texts(&["alpha", "beta"]),
        bytes: b"k".to_vec(),
    };
    assert_eq!(steps, vec![console(), bytes(), console(), bytes()]);
    assert_eq!(
        write_windows_console_input_sequence_and_mark_interactive(&steps, None),
        Ok(texts(&["alpha", "beta"]))
    );
    assert_eq!(
        write_windows_console_input_sequence_and_mark_interactive(&steps, Some(server("closed"))),
        Err(server("closed"))
    );
}

#[test]
fn keys_that_no_console_takes_are_sent_at_once() {
    let plain = vec![key(None, &["alpha"]), key(None, &["alpha"])];
    assert!(!tokens_contain_windows_console_input(&plain));
    assert_eq!(prepare_windows_console_input_sequence(&plain, 1), Ok(None));
    let single = vec![key(Some(b"\x03"), &["alpha"])];
    assert!(tokens_contain_windows_console_input(&single));
    assert_eq!(prepare_windows_console_input_sequence(&single, 1), Ok(None));
}

#[test]
fn nothing_is_sent_where_one_key_cannot_be() {
    let mut bad = key(None, &["alpha"]);
    bad.encoded = Err(server("unknown key"));
    let keys = vec![key(Some(b"\x03"), &["alpha"]), bad];
    assert_eq!(
        prepare_windows_console_input_sequence(&keys, 1),
        Err(server("unknown key"))
    );
    let select_all = ConsoleToken {
        select_all: true,
        ..key(Some(b"\x01"), &[])
    };
    let as_bytes = ConsoleToken {
        as_pane_bytes: true,
        ..key(Some(b"\x02"), &[])
    };
    let step = |bytes: &[u8]| ConsoleInputStep::Bytes {
        sessions: Vec::new(),
        bytes: bytes.to_vec(),
    };
    assert_eq!(
        prepare_windows_console_input_sequence(&vec![select_all, as_bytes], 1),
        Ok(Some(vec![step(b"k"), step(b"\x02")]))
    );
    let mut sessions = texts(&["alpha"]);
    push_unique_sessions(&mut sessions, &texts(&["beta", "alpha", "beta"]));
    assert_eq!(sessions, texts(&["alpha", "beta"]));
    assert_eq!(
        input_write_sessions(&texts(&["beta", "alpha", "beta"])),
        texts(&["beta", "alpha"])
    );
}

fn tree(window: Option<(u32, u32)>, pane: Option<(u32, u32)>) -> TreeTarget {
    TreeTarget {
        session_name: "alpha".to_owned(),
        session_id: 1,
        window_index: window.map(|(index, _)| index),
        window_id: window.map(|(_, id)| id),
        window_occurrence_id: window.map(|(index, _)| u64::from(index) + 500),
        pane_index: pane.map(|(index, _)| index),
        pane_id: pane.map(|(_, id)| id),
    }
}

fn link(index: u32, id: u32) -> ExpectedWindowOccurrenceIdentity {
    ExpectedWindowOccurrenceIdentity::new("alpha".to_owned(), 1, index, id, u64::from(index) + 500)
}

#[test]
fn kills_go_from_panes_to_sessions() {
    let actions = vec![
        ModeTreeAction::TreeTarget(tree(None, None)),
        ModeTreeAction::Buffer,
        ModeTreeAction::TreeTarget(tree(Some((1, 11)), None)),
        ModeTreeAction::TreeTarget(tree(Some((2, 12)), None)),
        ModeTreeAction::TreeTarget(tree(Some((0, 10)), Some((1, 101)))),
        ModeTreeAction::TreeTarget(tree(Some((0, 10)), Some((0, 100)))),
    ];
    assert_eq!(
        perform_tree_kill_actions(actions),
        vec![
            TreeKillStep::KillPane {
                window: link(0, 10),
                pane_id: 100,
            },
            TreeKillStep::KillPane {
                window: link(0, 10),
                pane_id: 101,
            },
            TreeKillStep::KillWindow(link(2, 12)),
            TreeKillStep::KillWindow(link(1, 11)),
            TreeKillStep::KillSession {
                session_name: "alpha".to_owned(),
                session_id: 1,
            },
        ]
    );
}

#[test]
fn a_window_that_is_linked_twice_is_killed_once() {
    let actions = vec![
        ModeTreeAction::TreeTarget(tree(Some((1, 12)), None)),
        ModeTreeAction::TreeTarget(tree(Some((4, 12)), None)),
        ModeTreeAction::TreeTarget(tree(Some((2, 13)), None)),
    ];
    assert_eq!(
        perform_tree_kill_actions(actions),
        vec![
            TreeKillStep::KillWindow(link(4, 12)),
            TreeKillStep::KillWindow(link(2, 13)),
        ]
    );
}

#[test]
fn a_target_without_its_identity_ends_the_kills() {
    let lost = TreeTarget {
        window_occurrence_id: None,
        ..tree(Some((3, 13)), None)
    };
    let actions = vec![
        ModeTreeAction::TreeTarget(tree(Some((1, 11)), None)),
        ModeTreeAction::TreeTarget(lost),
        ModeTreeAction::TreeTarget(tree(None, None)),
    ];
    assert_eq!(
        perform_tree_kill_actions(actions),
        vec![TreeKillStep::LostIdentity]
    );
    assert_eq!(
        lost_identity_error(),
        server("mode-tree target lost its stable identity")
    );
}

#[test]
fn kills_are_keyed_and_told_apart() {
    let pane = ModeTreeAction::TreeTarget(tree(Some((0, 10)), Some((1, 101))));
    let key = tree_kill_sort_key(&pane);
    assert_eq!((key.rank, key.window_index, key.pane_id), (0, 0, 101));
    assert_eq!(key.window_occurrence_id, 500);
    assert_eq!(tree_kill_stable_identity(&pane), Some((0, 101)));
    let window = ModeTreeAction::TreeTarget(tree(Some((2, 12)), None));
    assert_eq!(tree_kill_stable_identity(&window), Some((1, 12)));
    let session = ModeTreeAction::TreeTarget(tree(None, None));
    assert_eq!(tree_kill_stable_identity(&session), Some((2, 1)));
    assert_eq!(tree_kill_sort_key(&session).window_id, u32::MAX);
    assert_eq!(tree_kill_stable_identity(&ModeTreeAction::Client), None);
    assert_eq!(tree_kill_sort_key(&ModeTreeAction::Nothing).rank, 3);
}

#[test]
fn the_selected_or_the_tagged_items_are_killed() {
    let item = |id: &str, action| ModeTreeItem {
        id: id.to_owned(),
        action,
    };
    let items = vec![
        item("a", ModeTreeAction::TreeTarget(tree(None, None))),
        item("b", ModeTreeAction::TreeTarget(tree(Some((1, 11)), None))),
        item("c", ModeTreeAction::TreeTarget(tree(Some((2, 12)), None))),
    ];
    assert_eq!(
        perform_tree_kill_current(Some(true), &items, Some("b")),
        Ok(vec![TreeKillStep::KillWindow(link(1, 11))])
    );
    assert_eq!(
        perform_tree_kill_current(Some(true), &items, Some("gone")),
        Ok(Vec::new())
    );
    assert_eq!(
        perform_tree_kill_current(Some(true), &items, None),
        Ok(Vec::new())
    );
    assert_eq!(
        perform_tree_kill_tagged(Some(true), &items, &texts(&["b", "c"])),
        Ok(vec![
            TreeKillStep::KillWindow(link(2, 12)),
            TreeKillStep::KillWindow(link(1, 11)),
        ])
    );
    assert_eq!(
        perform_tree_kill_tagged(Some(false), &items, &Vec::new()),
        Err(server("mode-tree is not active"))
    );
    assert_eq!(
        perform_tree_kill_current(None, &items, None),
        Err(server("attached client disappeared"))
    );
}

fn window_kill(index: u32) -> TreeKillStep {
    TreeKillStep::KillWindow(link(index, index + 10))
}

#[test]
fn kills_are_done_one_after_another() {
    let (mut run, next) = TreeKillRun::begin(vec![window_kill(2), window_kill(1)]);
    assert_eq!(next, TreeKillNext::Kill(window_kill(2)));
    assert_eq!(run.advance(Ok(false)), TreeKillNext::Kill(window_kill(1)));
    assert_eq!(run.advance(Ok(false)), TreeKillNext::RefreshHookAliases);
    assert_eq!(run.advance(Ok(true)), TreeKillNext::RedrawTree);
    assert_eq!(run.advance(Ok(true)), TreeKillNext::Ended(Ok(())));
    assert_eq!(run.stage, TreeKillStage::Ended);
}

#[test]
fn a_tree_that_is_gone_is_not_drawn_anew() {
    let (mut run, next) = TreeKillRun::begin(Vec::new());
    assert_eq!(next, TreeKillNext::RefreshHookAliases);
    assert_eq!(run.advance(Ok(false)), TreeKillNext::Ended(Ok(())));

    let (mut run, _) = TreeKillRun::begin(Vec::new());
    assert_eq!(run.advance(Ok(true)), TreeKillNext::RedrawTree);
    assert_eq!(
        run.advance(Err(server("no tree"))),
        TreeKillNext::Ended(Err(server("no tree")))
    );
}

#[test]
fn a_failed_kill_is_the_last() {
    let (mut run, next) = TreeKillRun::begin(vec![window_kill(2), window_kill(1)]);
    assert_eq!(next, TreeKillNext::Kill(window_kill(2)));
    assert_eq!(
        run.advance(Err(server("no such window"))),
        TreeKillNext::Ended(Err(server("no such window")))
    );
    let (mut run, _) = TreeKillRun::begin(vec![window_kill(2), TreeKillStep::LostIdentity]);
    assert_eq!(
        run.advance(Ok(true)),
        TreeKillNext::Ended(Err(lost_identity_error()))
    );
}

#[test]
fn kill_during_lag_rebase_returns_current_snapshot_then_terminal_closed() {
    let followed = SubscriptionInfo {
        pane_id: 101,
        included: PaneStateInclude {
            title: true,
            options: false,
            foreground: false,
        },
    };
    let lag = PaneStateRead::Lag {
        missed_from_revision: 1,
        resume_revision: 4,
    };
    assert_eq!(
        handle_pane_state_cursor(Ok(lag), false),
        PaneStateCursorStep::Rebase {
            missed_from_revision: 1,
            resume_revision: 4,
        }
    );

    let mut emptied = store();
    for session in &mut emptied.sessions {
        for window in &mut session.windows {
            window.panes.retain(|pane| pane.id != 101);
        }
    }
    assert_eq!(
        record_pane_state_change(101, true),
        vec![
            JournalEffect::Push { pane_id: 101 },
            JournalEffect::MarkPaneClosed { pane_id: 101 },
            JournalEffect::NotifyWaiters,
        ]
    );
    let closed_revision = 17;

    let rebased = snapshot_for_subscription(&emptied, Ok(Some(followed)));
    assert_eq!(
        rebased,
        Ok((followed, None)),
        "kill during lag must not return pane-not-found"
    );
    let snapshot =
        pane_state_snapshot_locked(followed.included, closed_revision, None, Vec::new());
    assert_eq!(snapshot.revision, closed_revision);
    assert_eq!(snapshot.title.as_deref(), Some(""));
    assert!(snapshot.options.is_empty());

    let closed = PaneStateRead::Ready {
        next_revision: closed_revision,
        event_count: 1,
    };
    assert_eq!(
        handle_pane_state_cursor(Ok(closed), false),
        PaneStateCursorStep::Answer {
            next_revision: closed_revision,
        }
    );
}

fn linearized(old: Option<&str>, new: &str) -> OptionChange {
    OptionChange {
        name: "@linearized".to_owned(),
        old_value: old.map(str::to_owned),
        new_value: Some(new.to_owned()),
        changed: true,
        affects_alerts: Vec::new(),
        known_option: None,
    }
}

#[test]
fn pane_option_mutation_and_journal_order_are_linearized() {
    for (old, new) in [(None, "first"), (Some("first"), "second")] {
        assert_eq!(
            pane_option_effects(&linearized(old, new), true).last(),
            Some(&PaneOptionEffect::RecordOptionMutations),
            "the next mutation waits while this one owns state and journal"
        );
        let (answer, settled) = handle_pane_option_set(101, Ok(linearized(old, new)), Ok(()));
        assert!(answer.is_ok());
        assert!(!settled.contains(&PaneOptionEffect::RecordOptionMutations));
        assert_eq!(
            record_pane_option_mutation(linearized(old, new)),
            Some(PaneOptionStateChange::OptionSet {
                name: "@linearized".to_owned(),
                old: old.map(str::to_owned),
                new: new.to_owned(),
            })
        );
    }
}
