use rmux_server::control::ControlClientFlags;
use rmux_server::control_clients::{
    attached_count_after_switch, current_control_queue_identity, current_session_candidate,
    refresh_control_sessions_for_event, take_startup_config_error_notifications,
    ActiveControlState, ControlClientIdentity, ControlClientSnapshot, ControlDelivery,
    ControlRefresh, ControlSessionSwitch, ControlSwitch, LifecycleEvent, ManagedClient,
    SwitchEffect,
};
use rmux_server::control_events::ControlServerEvent;
use rmux_server::error::RmuxError;
use rmux_server::refresh_client::{
    attached_refresh_answer, flag_tokens, handle_refresh_attached_client, handle_refresh_client,
    handle_refresh_control_client, parse_control_size, require_control_client_attached,
    requested_flags, validate_refresh_pan_request, validate_refresh_supported_request,
    AttachedRefresh, ClientFlags, ControlRefresh as ControlClientRefresh, RefreshClientRequest,
    RefreshableClient, TerminalSize,
};
use rmux_server::request_identity::{
    require_expected_session_identity, require_expected_window_identity,
    resolve_expected_window_pane_target, ExpectedSessionIdentity,
    ExpectedWindowOccurrenceIdentity,
};
use rmux_server::requester_access::{
    attached_write_cap, authority_for_identity, detached_admission_lookup, requester_can_write,
    requester_detached_authority, AccessMode, DetachedAdmissionLookup, DetachedRequesterAuthority,
    RequesterAdmissions, WriteAccess,
};
use rmux_server::scope_support::{
    ambiguous_attached_client_listing, attached_client_required, ensure_option_scope_exists,
    ensure_scope_session_exists, reject_pane_op_in_passthrough, OptionScopeSelector,
    ScopeSelector,
};
use rmux_server::sessions::{Pane, PaneTarget, Session, SessionStore, Window, WindowTarget};

fn store() -> SessionStore {
    SessionStore {
        sessions: vec![
            Session {
                name: "alpha".to_owned(),
                id: 1,
                windows: vec![Window {
                    index: 0,
                    id: 10,
                    panes: vec![Pane { index: 0, id: 100 }, Pane { index: 1, id: 101 }],
                    active_pane_index: 0,
                }],
                active_window_index: 0,
            },
            Session {
                name: "beta".to_owned(),
                id: 2,
                windows: Vec::new(),
                active_window_index: 0,
            },
        ],
    }
}

fn server(message: &str) -> RmuxError {
    RmuxError::Server(message.to_owned())
}

fn not_found(name: &str) -> RmuxError {
    RmuxError::SessionNotFound(name.to_owned())
}

fn switch_to(name: &str) -> ControlSessionSwitch {
    ControlSessionSwitch {
        next_session_name: Some(name.to_owned()),
        expected_session_id: None,
        expected_control_id: None,
        selection: None,
    }
}

/// One client of pid 7 in session alpha.
fn one_client() -> ActiveControlState {
    let mut clients = ActiveControlState::new();
    assert_eq!(clients.register_control_with_access(7, true), (0, None));
    clients
        .set_control_session_with_expected_identity(&store(), 7, None, switch_to("alpha"))
        .expect("the switch is let through");
    clients
}

#[test]
fn a_client_of_the_same_pid_takes_the_place_of_the_one_before() {
    let mut clients = one_client();
    let (id, replaced) = clients.register_control_with_access(7, false);
    assert_eq!(id, 1);
    let replaced = replaced.expect("a client had the pid");
    assert_eq!(
        replaced.delivery,
        ControlDelivery {
            pid: 7,
            event: ControlServerEvent::Exit(None),
        }
    );
    assert!(replaced.client.closing);
    assert_eq!(replaced.client.id, 0);
    assert_eq!(replaced.client.session_name.as_deref(), Some("alpha"));
    assert_eq!(clients.finish_control(7, 0), None);
    assert!(clients.find(7).is_some());
    assert_eq!(
        clients.validate_control_queue_identity_locked(&store(), 7, 0),
        Err(server("control command requires an attached client"))
    );
    assert_eq!(
        clients.validate_control_queue_identity_locked(&store(), 7, 1),
        Ok(())
    );
    assert_eq!(clients.finish_control(7, 1), None);
    assert!(clients.find(7).is_none());
}

#[test]
fn a_stream_that_ends_leaves_its_session() {
    let mut clients = one_client();
    assert_eq!(clients.attached_count("alpha"), 1);
    assert_eq!(clients.finish_control(7, 0), Some(("alpha".to_owned(), 1)));
    assert_eq!(clients.attached_count("alpha"), 0);
}

#[test]
fn a_switch_remembers_the_session_before() {
    let mut clients = one_client();
    let switch = clients
        .set_control_session_with_expected_identity(&store(), 7, Some(0), switch_to("beta"))
        .expect("the switch is let through");
    assert_eq!(switch.previous.as_deref(), Some("alpha"));
    assert!(switch.effects.is_empty());
    assert_eq!(
        switch.delivery,
        ControlDelivery {
            pid: 7,
            event: ControlServerEvent::SessionChanged(Some("beta".to_owned())),
        }
    );
    let client = &clients.by_pid[0].client;
    assert_eq!(client.last_session.as_deref(), Some("alpha"));
    assert_eq!(client.last_session_id, Some(1));
    assert_eq!(client.session_id, Some(2));
}

#[test]
fn a_switch_is_refused_for_each_reason() {
    let mut clients = one_client();
    let mut refused = |queued, request| {
        clients
            .set_control_session_with_expected_identity(&store(), 7, queued, request)
            .map(|_| ())
    };
    let exact = |id, name: &str| ControlSessionSwitch {
        expected_control_id: Some(id),
        ..switch_to(name)
    };
    assert_eq!(
        refused(Some(3), exact(0, "beta")),
        Err(server("switch-client requires an attached client"))
    );
    assert_eq!(refused(None, switch_to("ghost")), Err(not_found("ghost")));
    assert_eq!(
        refused(
            None,
            ControlSessionSwitch {
                expected_session_id: Some(9),
                ..switch_to("beta")
            }
        ),
        Err(not_found("beta"))
    );
    assert_eq!(
        refused(None, exact(5, "beta")),
        Err(server("switch-client requires an attached client"))
    );
    assert_eq!(
        refused(Some(5), switch_to("beta")),
        Err(server("control session requires an attached client"))
    );
    assert_eq!(
        refused(
            None,
            ControlSessionSwitch {
                selection: Some(Err(server("no such window"))),
                ..switch_to("beta")
            }
        ),
        Err(server("no such window"))
    );
    assert_eq!(
        clients.by_pid[0].client.session_name.as_deref(),
        Some("alpha")
    );
    assert_eq!(
        clients.switch_undelivered(7, true),
        server("switch-client requires an attached client")
    );
    assert!(clients.find(7).is_none());
}

#[test]
fn a_queue_attaches_its_client_once() {
    let mut clients = one_client();
    let identity = ControlClientIdentity::new(7, 0);
    assert_eq!(
        clients.attach_control_session_for_queue(&store(), identity, "alpha", None),
        Ok(None)
    );
    assert_eq!(
        clients.attach_control_session_for_queue(&store(), identity, "beta", Some(9)),
        Err(not_found("beta"))
    );
    assert_eq!(
        clients.attach_control_session_for_queue(&store(), identity, "beta", Some(2)),
        Ok(Some(ControlSwitch {
            previous: Some("alpha".to_owned()),
            delivery: ControlDelivery {
                pid: 7,
                event: ControlServerEvent::SessionChanged(Some("beta".to_owned())),
            },
            effects: vec![SwitchEffect::TouchAttached {
                session_name: "beta".to_owned(),
            }],
        }))
    );
}

#[test]
fn a_switch_that_was_taken_selects_and_touches() {
    let mut clients = one_client();
    let switch = clients
        .set_control_session_with_expected_identity(
            &store(),
            7,
            None,
            ControlSessionSwitch {
                expected_control_id: Some(0),
                selection: Some(Ok(())),
                ..switch_to("beta")
            },
        )
        .expect("the switch is let through");
    assert_eq!(
        switch.effects,
        vec![
            SwitchEffect::ApplySelection,
            SwitchEffect::TouchAttached {
                session_name: "beta".to_owned(),
            },
        ]
    );
}

#[test]
fn a_renamed_session_keeps_its_clients() {
    let mut clients = one_client();
    assert!(clients.rename_control_session("alpha", 9, "other").is_empty());
    let told = clients.rename_control_session("alpha", 1, "gamma");
    assert_eq!(
        told,
        vec![ControlDelivery {
            pid: 7,
            event: ControlServerEvent::SessionChanged(Some("gamma".to_owned())),
        }]
    );
    let mut renamed = store();
    renamed.sessions[0].name = "gamma".to_owned();
    assert_eq!(
        clients.validate_control_queue_identity_locked(&renamed, 7, 0),
        Ok(())
    );
    assert_eq!(
        clients.validate_control_queue_identity_locked(&store(), 7, 0),
        Err(not_found("gamma"))
    );
}

#[test]
fn a_closed_session_makes_its_clients_exit() {
    let mut clients = one_client();
    let reason = Some("gone".to_owned());
    assert!(clients
        .exit_control_session_identity("alpha", 9, &reason)
        .is_empty());
    let told = clients.exit_control_session_identity("alpha", 1, &reason);
    assert_eq!(
        told,
        vec![ControlDelivery {
            pid: 7,
            event: ControlServerEvent::Exit(reason),
        }]
    );
    assert!(clients.by_pid[0].client.closing);
    assert_eq!(
        clients.validate_control_queue_identity_locked(&store(), 7, 0),
        Err(server("control client is closing"))
    );
    assert_eq!(
        clients.control_queue_client_id(7),
        Err(server("control client is closing"))
    );
    assert!(!clients.is_control_client(7, None));
    assert_eq!(clients.current_session_candidate(7), None);
}

#[test]
fn detached_clients_leave_the_table() {
    let mut clients = one_client();
    clients.register_control_with_access(8, true);
    assert!(clients
        .detach_control_clients_for_session(&store(), "ghost", &None)
        .is_empty());
    let told = clients.detach_control_clients_for_session(&store(), "alpha", &None);
    assert_eq!(
        told,
        vec![ControlDelivery {
            pid: 7,
            event: ControlServerEvent::Exit(None),
        }]
    );
    assert!(clients.find(7).is_none());
    assert!(clients.find(8).is_some());
    clients.drop_undelivered(8);
    assert!(clients.by_pid.is_empty());
}

#[test]
fn a_client_is_told_to_exit_by_its_id() {
    let mut clients = one_client();
    assert_eq!(
        clients.exit_control_client_with_expected_id(7, Some(4), None),
        Err(server("detach-client requires an attached client"))
    );
    assert_eq!(
        clients.exit_control_client_with_expected_id(9, None, None),
        Err(server("detach-client requires an attached client"))
    );
    assert_eq!(
        clients.exit_control_client_with_expected_id(7, Some(0), Some("bye".to_owned())),
        Ok((
            Some("alpha".to_owned()),
            ControlDelivery {
                pid: 7,
                event: ControlServerEvent::Exit(Some("bye".to_owned())),
            }
        ))
    );
    assert!(clients.by_pid[0].client.closing);
}

#[test]
fn a_queue_means_the_client_it_serves() {
    let clients = one_client();
    assert_eq!(clients.control_session_name(7, None).as_deref(), Some("alpha"));
    assert_eq!(clients.control_session_name(7, Some(1)), None);
    assert_eq!(
        clients.control_client_flags(7, Some(0)),
        Some(ControlClientFlags {
            pause_after_millis: None,
            no_output: false,
            wait_exit: false,
        })
    );
    assert!(clients.is_control_client(7, Some(0)));
    assert!(!clients.is_control_client(7, Some(1)));
    assert_eq!(clients.control_queue_client_id(7), Ok(0));
    let line = || "%message hi".to_owned();
    assert_eq!(
        clients.send_control_notification_to_queue(ControlClientIdentity::new(7, 1), line()),
        None
    );
    assert_eq!(
        clients.send_control_notification_to_queue(ControlClientIdentity::new(7, 0), line()),
        Some(ControlDelivery {
            pid: 7,
            event: ControlServerEvent::Notification(line()),
        })
    );
    assert_eq!(clients.deliver_control_notification(9, line()), None);
}

#[test]
fn a_queue_writes_where_its_client_may() {
    let clients = one_client();
    let identity = ControlClientIdentity::new(7, 0);
    assert_eq!(clients.control_queue_access(&store(), identity), Some(true));
    assert!(clients.control_queue_can_write(&store(), identity));
    let stale = ControlClientIdentity::new(7, 3);
    assert_eq!(clients.control_queue_access(&store(), stale), None);
    assert!(!clients.control_queue_can_write(&store(), stale));
    let mut looking = ActiveControlState::new();
    looking.register_control_with_access(7, false);
    assert!(!looking.control_queue_can_write(&store(), identity));
}

#[test]
fn the_scoped_identity_is_that_of_its_pid() {
    let identity = ControlClientIdentity::new(7, 3);
    assert_eq!((identity.requester_pid(), identity.control_id()), (7, 3));
    assert_eq!(
        current_control_queue_identity(Some(identity), 7),
        Some(identity)
    );
    assert_eq!(current_control_queue_identity(Some(identity), 8), None);
    assert_eq!(current_control_queue_identity(None, 7), None);
}

#[test]
fn the_only_client_stands_for_its_session() {
    let clients = one_client();
    assert_eq!(
        clients.current_session_candidate(99),
        Some(("alpha".to_owned(), 1))
    );
    let candidate = |queue, attached: Option<&str>, pid| {
        current_session_candidate(
            &clients,
            &store(),
            queue,
            attached.map(str::to_owned),
            pid,
        )
    };
    assert_eq!(candidate(None, Some("beta"), 99).as_deref(), Some("beta"));
    assert_eq!(candidate(None, None, 99).as_deref(), Some("alpha"));
    let queue = Some(ControlClientIdentity::new(7, 0));
    assert_eq!(candidate(queue, Some("beta"), 7).as_deref(), Some("alpha"));
    let stale = Some(ControlClientIdentity::new(7, 5));
    assert_eq!(candidate(stale, Some("beta"), 7), None);
}

#[test]
fn a_command_means_one_client() {
    let clients = one_client();
    let none = ActiveControlState::new();
    let resolve = |clients: &ActiveControlState, attached: &[u32], pid, command: &str| {
        clients.resolve_managed_client(&store(), None, attached, pid, command)
    };
    assert_eq!(resolve(&clients, &[5], 5, "x"), Ok(ManagedClient::Attach(5)));
    assert_eq!(resolve(&clients, &[5], 7, "x"), Ok(ManagedClient::Control(7)));
    assert_eq!(resolve(&clients, &[], 1, "x"), Ok(ManagedClient::Control(7)));
    assert_eq!(resolve(&none, &[5], 1, "x"), Ok(ManagedClient::Attach(5)));
    assert_eq!(
        resolve(&none, &[], 1, "show-messages"),
        Err(RmuxError::Message("no current client".to_owned()))
    );
    assert_eq!(
        resolve(&none, &[], 1, "detach-client"),
        Err(server("detach-client requires an attached client"))
    );
    assert_eq!(
        resolve(&clients, &[5, 3], 1, "detach-client"),
        Err(server(
            "detach-client: 3 clients attached (3, 5, 7 (control)); pick one with `-t <client>` \
             or address a whole session with `-s <session>`"
        ))
    );
    let queue = Some(ControlClientIdentity::new(7, 0));
    assert_eq!(
        clients.resolve_managed_client(&store(), queue, &[7], 7, "x"),
        Ok(ManagedClient::Control(7))
    );
}

#[test]
fn clients_are_listed_with_the_names_that_sessions_have_now() {
    let mut clients = one_client();
    clients.register_control_with_access(8, true);
    let mut renamed = store();
    renamed.sessions[0].name = "gamma".to_owned();
    assert_eq!(
        clients.control_clients_snapshot_locked(&renamed),
        vec![
            ControlClientSnapshot {
                pid: 7,
                session_name: Some("gamma".to_owned()),
            },
            ControlClientSnapshot {
                pid: 8,
                session_name: None,
            },
        ]
    );
    renamed.sessions.remove(0);
    assert_eq!(
        clients.control_clients_snapshot_locked(&renamed),
        vec![ControlClientSnapshot {
            pid: 8,
            session_name: None,
        }]
    );
}

#[test]
fn clients_are_refreshed_by_session() {
    let clients = one_client();
    assert_eq!(clients.refreshable_sessions(), vec!["alpha".to_owned()]);
    assert_eq!(
        clients.refresh_control_session("alpha"),
        vec![ControlDelivery {
            pid: 7,
            event: ControlServerEvent::Refresh,
        }]
    );
    assert!(clients.refresh_control_session("beta").is_empty());
}

#[test]
fn events_refresh_clients_or_make_them_exit() {
    assert_eq!(
        refresh_control_sessions_for_event(&LifecycleEvent::WindowRenamed),
        ControlRefresh::RefreshAll
    );
    assert_eq!(
        refresh_control_sessions_for_event(&LifecycleEvent::AlertBell),
        ControlRefresh::Keep
    );
    let closed = |session_id| LifecycleEvent::SessionClosed {
        session_name: "alpha".to_owned(),
        session_id,
    };
    assert_eq!(
        refresh_control_sessions_for_event(&closed(None)),
        ControlRefresh::RefreshAll
    );
    assert_eq!(
        refresh_control_sessions_for_event(&closed(Some(1))),
        ControlRefresh::ExitSession {
            session_name: "alpha".to_owned(),
            session_id: 1,
        }
    );
}

#[test]
fn a_switch_adds_a_client_that_was_elsewhere() {
    assert_eq!(attached_count_after_switch(2, Some("alpha"), "alpha"), 2);
    assert_eq!(attached_count_after_switch(2, Some("beta"), "alpha"), 3);
    assert_eq!(attached_count_after_switch(2, None, "alpha"), 3);
}

#[test]
fn errors_of_the_configuration_are_told_line_by_line() {
    let mut errors = vec![
        (server("first\n\nsecond\r\n"), String::new()),
        (not_found("alpha"), "can't find session: alpha".to_owned()),
    ];
    assert_eq!(
        take_startup_config_error_notifications(&mut errors),
        vec![
            "%config-error first".to_owned(),
            "%config-error second".to_owned(),
            "%config-error can't find session: alpha".to_owned(),
        ]
    );
    assert!(errors.is_empty());
}

#[test]
fn several_clients_are_listed_in_order() {
    assert_eq!(
        ambiguous_attached_client_listing("refresh-client", &[20, 3], &[]),
        server(
            "refresh-client: 2 clients attached (3, 20); pick one with `-t <client>` or address \
             a whole session with `-s <session>`"
        )
    );
    assert_eq!(
        attached_client_required("refresh-client"),
        server("refresh-client requires an attached client")
    );
}

fn window(session: &str, window_index: u32) -> WindowTarget {
    WindowTarget {
        session_name: session.to_owned(),
        window_index,
    }
}

fn pane(session: &str, window_index: u32, pane_index: u32) -> PaneTarget {
    PaneTarget {
        session_name: session.to_owned(),
        window_index,
        pane_index,
    }
}

fn invalid(value: &str, reason: &str) -> RmuxError {
    RmuxError::InvalidTarget {
        value: value.to_owned(),
        reason: reason.to_owned(),
    }
}

#[test]
fn a_scope_has_to_exist() {
    let check = |scope| ensure_scope_session_exists(&store(), &scope);
    assert_eq!(check(ScopeSelector::Global), Ok(()));
    assert_eq!(check(ScopeSelector::Session("alpha".to_owned())), Ok(()));
    assert_eq!(
        check(ScopeSelector::Session("ghost".to_owned())),
        Err(not_found("ghost"))
    );
    assert_eq!(check(ScopeSelector::Window(window("alpha", 0))), Ok(()));
    assert_eq!(
        check(ScopeSelector::Window(window("alpha", 4))),
        Err(invalid("alpha:4", "window index does not exist in session"))
    );
    assert_eq!(check(ScopeSelector::Pane(pane("alpha", 0, 1))), Ok(()));
    assert_eq!(
        check(ScopeSelector::Pane(pane("alpha", 3, 1))),
        Err(invalid("alpha:3", "window index does not exist in session"))
    );
    assert_eq!(
        check(ScopeSelector::Pane(pane("alpha", 0, 7))),
        Err(invalid("alpha:0.7", "pane index does not exist in session"))
    );
}

#[test]
fn an_option_scope_has_to_exist() {
    let check = |scope| ensure_option_scope_exists(&store(), &scope);
    assert_eq!(check(OptionScopeSelector::ServerGlobal), Ok(()));
    assert_eq!(check(OptionScopeSelector::WindowGlobal), Ok(()));
    assert_eq!(
        check(OptionScopeSelector::Session("ghost".to_owned())),
        Err(not_found("ghost"))
    );
    assert_eq!(
        check(OptionScopeSelector::Window(window("ghost", 0))),
        Err(not_found("ghost"))
    );
    assert_eq!(check(OptionScopeSelector::Pane(pane("alpha", 0, 0))), Ok(()));
}

#[test]
fn a_fixed_session_refuses_pane_operations() {
    let refused = || Err(server("not here"));
    assert_eq!(
        reject_pane_op_in_passthrough(&store(), "alpha", refused()),
        refused()
    );
    assert_eq!(
        reject_pane_op_in_passthrough(&store(), "ghost", refused()),
        Ok(())
    );
}

#[test]
fn a_request_goes_to_the_session_it_was_made_of() {
    let meant = Some(ExpectedSessionIdentity::of_session("alpha".to_owned(), 1));
    assert_eq!(
        require_expected_session_identity(&store(), &meant, "alpha"),
        Ok(())
    );
    assert_eq!(
        require_expected_session_identity(&store(), &meant, "beta"),
        Err(not_found("beta"))
    );
    let replaced = Some(ExpectedSessionIdentity::of_session("alpha".to_owned(), 8));
    assert_eq!(
        require_expected_session_identity(&store(), &replaced, "alpha"),
        Err(not_found("alpha"))
    );
    assert_eq!(
        require_expected_session_identity(&store(), &None, "anything"),
        Ok(())
    );
}

#[test]
fn a_request_goes_to_the_window_it_was_made_of() {
    let at = window("alpha", 0);
    let meant = Some(ExpectedSessionIdentity::of_window("alpha".to_owned(), 1, 0, 10));
    assert_eq!(
        require_expected_window_identity(&store(), &meant, &at, None),
        Ok(())
    );
    let other = Some(ExpectedSessionIdentity::of_window("alpha".to_owned(), 1, 0, 11));
    let changed = || Err(invalid("alpha:0", "window identity changed before mutation"));
    assert_eq!(
        require_expected_window_identity(&store(), &other, &at, None),
        changed()
    );
    let link = Some(
        ExpectedWindowOccurrenceIdentity::new("alpha".to_owned(), 1, 0, 10, 77).expected(),
    );
    assert_eq!(
        require_expected_window_identity(&store(), &link, &at, Some(77)),
        Ok(())
    );
    assert_eq!(
        require_expected_window_identity(&store(), &link, &at, Some(78)),
        changed()
    );
}

#[test]
fn a_pane_is_looked_for_in_the_window_that_is_meant() {
    let meant = Some(ExpectedSessionIdentity::of_window("alpha".to_owned(), 1, 0, 10));
    assert_eq!(
        resolve_expected_window_pane_target(&store(), &meant, "alpha", 101, None),
        Ok(Some(pane("alpha", 0, 1)))
    );
    assert_eq!(
        resolve_expected_window_pane_target(&store(), &meant, "alpha", 999, None),
        Err(RmuxError::PaneNotFound {
            session_name: "alpha".to_owned(),
            pane_id: 999,
        })
    );
    assert_eq!(
        resolve_expected_window_pane_target(&store(), &None, "alpha", 101, None),
        Ok(None)
    );
}

fn unknown() -> WriteAccess {
    WriteAccess {
        control_queue: None,
        detached: DetachedAdmissionLookup::Absent,
        attached: None,
        control: None,
        is_server: false,
    }
}

#[test]
fn a_requester_writes_by_what_it_came_in_with() {
    assert!(!requester_can_write(&unknown()));
    assert!(requester_can_write(&WriteAccess {
        is_server: true,
        ..unknown()
    }));
    assert!(!requester_can_write(&WriteAccess {
        control_queue: Some(false),
        attached: Some((true, false)),
        ..unknown()
    }));
    assert!(!requester_can_write(&WriteAccess {
        detached: DetachedAdmissionLookup::Unambiguous(Some(AccessMode::ReadOnly)),
        attached: Some((true, false)),
        is_server: true,
        ..unknown()
    }));
    assert!(requester_can_write(&WriteAccess {
        detached: DetachedAdmissionLookup::Unambiguous(Some(AccessMode::ReadWrite)),
        attached: Some((false, true)),
        ..unknown()
    }));
    assert!(!requester_can_write(&WriteAccess {
        detached: DetachedAdmissionLookup::DeniedOrAmbiguous,
        control: Some(true),
        ..unknown()
    }));
    assert!(!requester_can_write(&WriteAccess {
        attached: Some((true, true)),
        control: Some(true),
        ..unknown()
    }));
    assert!(requester_can_write(&WriteAccess {
        control: Some(true),
        ..unknown()
    }));
    assert!(attached_write_cap(true, false));
    assert!(!attached_write_cap(true, true));
}

#[test]
fn a_requester_acts_by_one_admission() {
    let nobody = || RequesterAdmissions {
        control_queue: None,
        detached: DetachedAdmissionLookup::Absent,
        attached: None,
        control: None,
        owner: None::<u8>,
    };
    assert_eq!(
        requester_detached_authority(nobody()),
        DetachedRequesterAuthority::Denied
    );
    assert_eq!(
        requester_detached_authority(RequesterAdmissions {
            detached: detached_admission_lookup(Some(Some(4))),
            attached: Some(Some(5)),
            ..nobody()
        }),
        DetachedRequesterAuthority::Admission(4)
    );
    assert_eq!(
        requester_detached_authority(RequesterAdmissions {
            detached: detached_admission_lookup(Some(None)),
            owner: Some(1),
            ..nobody()
        }),
        DetachedRequesterAuthority::Denied
    );
    assert_eq!(
        requester_detached_authority(RequesterAdmissions {
            attached: Some(None),
            control: Some(Some(6)),
            ..nobody()
        }),
        DetachedRequesterAuthority::Denied
    );
    assert_eq!(
        requester_detached_authority(RequesterAdmissions {
            owner: Some(1),
            ..nobody()
        }),
        DetachedRequesterAuthority::Admission(1)
    );
    assert_eq!(
        authority_for_identity(Some(2)),
        DetachedRequesterAuthority::Admission(2)
    );
}

fn refresh() -> RefreshClientRequest {
    RefreshClientRequest {
        target_client: None,
        adjustment: None,
        clear_pan: false,
        pan_left: false,
        pan_right: false,
        pan_up: false,
        pan_down: false,
        status_only: false,
        clipboard_query: false,
        flags: None,
        flags_alias: None,
        subscriptions: Vec::new(),
        subscriptions_format: Vec::new(),
        control_size: None,
        colour_report: None,
    }
}

#[test]
fn a_refresh_pans_one_way() {
    assert_eq!(validate_refresh_pan_request(&refresh()), Ok(()));
    assert_eq!(
        validate_refresh_pan_request(&RefreshClientRequest {
            pan_left: true,
            pan_up: true,
            ..refresh()
        }),
        Err(server(
            "refresh-client accepts only one of -c, -L, -R, -U, or -D"
        ))
    );
    assert_eq!(
        validate_refresh_pan_request(&RefreshClientRequest {
            adjustment: Some(3),
            ..refresh()
        }),
        Err(server("refresh-client adjustment requires a pan direction"))
    );
}

#[test]
fn a_refresh_names_what_it_cannot_do() {
    assert_eq!(validate_refresh_supported_request(&refresh()), Ok(()));
    assert_eq!(
        validate_refresh_supported_request(&RefreshClientRequest {
            subscriptions: vec!["%1:on".to_owned()],
            subscriptions_format: vec!["f".to_owned()],
            colour_report: Some("%1:c".to_owned()),
            ..refresh()
        }),
        Err(server("refresh-client -A/-B/-r is not supported"))
    );
    assert_eq!(
        handle_refresh_client(
            &RefreshClientRequest {
                colour_report: Some("%1:c".to_owned()),
                ..refresh()
            },
            Ok(ManagedClient::Attach(1)),
        ),
        Err(server("refresh-client -r is not supported"))
    );
    assert_eq!(
        handle_refresh_client(&refresh(), Ok(ManagedClient::Attach(1))),
        Ok(ManagedClient::Attach(1))
    );
}

#[test]
fn a_control_size_is_columns_by_rows() {
    assert_eq!(
        parse_control_size("80x24"),
        Some(TerminalSize { cols: 80, rows: 24 })
    );
    for bad in ["", "80", "x24", "80x", "0x24", "80x0", "80x24x3", "65536x1", "80,24"] {
        assert_eq!(parse_control_size(bad), None, "{bad}");
    }
}

#[test]
fn flags_are_parted_by_commas() {
    assert_eq!(
        flag_tokens(",read-only,,!no-output,"),
        vec!["read-only".to_owned(), "!no-output".to_owned()]
    );
    assert!(flag_tokens("").is_empty());
    let named = RefreshClientRequest {
        flags_alias: Some("a,b".to_owned()),
        ..refresh()
    };
    assert_eq!(
        requested_flags(&named),
        Some(vec!["a".to_owned(), "b".to_owned()])
    );
    assert_eq!(requested_flags(&refresh()), None);
}

fn attached() -> RefreshableClient {
    RefreshableClient {
        id: 4,
        closing: false,
        can_write: true,
        flags: ClientFlags {
            read_only: false,
            others: 0,
        },
        pan_window: None,
        pan_ox: 0,
        pan_oy: 9,
        session_name: "alpha".to_owned(),
    }
}

const NO_FLAGS: Result<ClientFlags, RmuxError> = Ok(ClientFlags {
    read_only: false,
    others: 0,
});

#[test]
fn an_attached_client_is_panned() {
    let mut client = Some(attached());
    let right = RefreshClientRequest {
        pan_right: true,
        adjustment: Some(5),
        ..refresh()
    };
    let drawn = handle_refresh_attached_client(&mut client, 4, &right, NO_FLAGS)
        .expect("the client is there");
    assert_eq!(
        drawn,
        AttachedRefresh {
            session_name: "alpha".to_owned(),
            status: false,
            clipboard_query: false,
            full: true,
        }
    );
    let panned = client.as_ref().expect("the client is there");
    assert_eq!((panned.pan_window, panned.pan_ox, panned.pan_oy), (Some(0), 5, 9));
    let left = RefreshClientRequest {
        pan_left: true,
        adjustment: Some(5),
        ..refresh()
    };
    handle_refresh_attached_client(&mut client, 4, &left, NO_FLAGS).expect("the client is there");
    handle_refresh_attached_client(&mut client, 4, &left, NO_FLAGS).expect("the client is there");
    let up = RefreshClientRequest {
        pan_up: true,
        ..refresh()
    };
    handle_refresh_attached_client(&mut client, 4, &up, NO_FLAGS).expect("the client is there");
    let panned = client.as_ref().expect("the client is there");
    assert_eq!((panned.pan_ox, panned.pan_oy), (0, 8));
    let clear = RefreshClientRequest {
        clear_pan: true,
        ..refresh()
    };
    handle_refresh_attached_client(&mut client, 4, &clear, NO_FLAGS).expect("the client is there");
    let panned = client.as_ref().expect("the client is there");
    assert_eq!((panned.pan_window, panned.pan_ox, panned.pan_oy), (None, 0, 0));
}

#[test]
fn flags_leave_a_reader_a_reader() {
    let request = RefreshClientRequest {
        flags: Some("!read-only".to_owned()),
        ..refresh()
    };
    let mut client = Some(RefreshableClient {
        can_write: false,
        ..attached()
    });
    let merged = Ok(ClientFlags {
        read_only: false,
        others: 2,
    });
    handle_refresh_attached_client(&mut client, 4, &request, merged).expect("the client is there");
    assert_eq!(
        client.as_ref().map(|client| client.flags),
        Some(ClientFlags {
            read_only: true,
            others: 2,
        })
    );
    let before = client.as_ref().map(|client| client.flags);
    assert_eq!(
        handle_refresh_attached_client(&mut client, 4, &request, Err(server("unknown flag"))),
        Err(server("unknown flag"))
    );
    assert_eq!(client.map(|client| client.flags), before);
}

#[test]
fn a_client_that_is_gone_is_not_refreshed() {
    let gone = || Err(server("refresh-client requires an attached client"));
    assert_eq!(
        handle_refresh_attached_client(&mut None, 4, &refresh(), NO_FLAGS),
        gone()
    );
    assert_eq!(
        handle_refresh_attached_client(&mut Some(attached()), 5, &refresh(), NO_FLAGS),
        gone()
    );
    let mut closing = Some(RefreshableClient {
        closing: true,
        ..attached()
    });
    assert_eq!(
        handle_refresh_attached_client(&mut closing, 4, &refresh(), NO_FLAGS),
        gone()
    );
}

#[test]
fn a_refresh_answers_with_the_first_failure() {
    let drawn = AttachedRefresh {
        session_name: "alpha".to_owned(),
        status: true,
        clipboard_query: true,
        full: false,
    };
    assert_eq!(
        attached_refresh_answer(&drawn, 42, Ok(()), Ok(()), Err(server("not asked"))),
        Ok("42".to_owned())
    );
    assert_eq!(
        attached_refresh_answer(&drawn, 42, Ok(()), Err(server("second")), Ok(())),
        Err(server("second"))
    );
    assert_eq!(
        attached_refresh_answer(&drawn, 42, Err(server("first")), Err(server("second")), Ok(())),
        Err(server("first"))
    );
}

#[test]
fn a_control_client_is_resized_or_refreshed() {
    let clients = one_client();
    let identity = ControlClientIdentity::new(7, 0);
    let sized = |size: &str| RefreshClientRequest {
        control_size: Some(size.to_owned()),
        ..refresh()
    };
    assert_eq!(
        handle_refresh_control_client(&clients, identity, &sized("90x30")),
        Ok(ControlClientRefresh::Resize {
            session_name: "alpha".to_owned(),
            session_id: 1,
            size: TerminalSize { cols: 90, rows: 30 },
        })
    );
    assert_eq!(
        handle_refresh_control_client(&clients, identity, &refresh()),
        Ok(ControlClientRefresh::Refresh)
    );
    assert_eq!(
        handle_refresh_control_client(&clients, identity, &sized("wide")),
        Err(server("invalid refresh-client size 'wide'"))
    );
    assert_eq!(
        handle_refresh_control_client(
            &clients,
            identity,
            &RefreshClientRequest {
                status_only: true,
                ..refresh()
            }
        ),
        Err(server("refresh-client requires an attached client"))
    );
    assert_eq!(
        handle_refresh_control_client(&clients, ControlClientIdentity::new(7, 1), &refresh()),
        Err(server("refresh-client requires an attached client"))
    );
    let mut unattached = ActiveControlState::new();
    unattached.register_control_with_access(7, true);
    assert_eq!(
        handle_refresh_control_client(&unattached, identity, &sized("90x30")),
        Ok(ControlClientRefresh::Nothing)
    );
    assert_eq!(
        require_control_client_attached(&clients, identity, "alpha", 1),
        Ok(())
    );
    assert!(require_control_client_attached(&clients, identity, "alpha", 2).is_err());
}

#[test]
fn all_clients_are_refreshed_once_for_each_open_client_of_their_session() {
    let mut clients = one_client();
    assert_eq!(clients.register_control_with_access(8, true).0, 1);
    clients
        .set_control_session_with_expected_identity(&store(), 8, None, switch_to("alpha"))
        .expect("the session is there");
    assert_eq!(clients.register_control_with_access(9, true).0, 2);
    let refresh = |pid| ControlDelivery {
        pid,
        event: ControlServerEvent::Refresh,
    };
    assert_eq!(
        clients.refresh_all_control_sessions(),
        vec![refresh(7), refresh(8), refresh(7), refresh(8)]
    );
}

#[test]
fn a_client_that_takes_no_event_is_dropped() {
    let mut clients = one_client();
    assert!(clients
        .deliver_control_notification(7, "%message one".to_owned())
        .is_some());
    clients.drop_undelivered(7);
    assert!(clients
        .deliver_control_notification(7, "%message two".to_owned())
        .is_none());
}
