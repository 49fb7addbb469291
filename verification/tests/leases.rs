use rmux_server::error::RmuxError;
use rmux_server::leases::{
    current_session_lease_create_addressing, duration_from_millis,
    ensure_session_lease_janitor_started, handle_create_session_lease,
    handle_release_session_lease, handle_renew_session_lease, reap_expired_session_leases,
    resolve_session_lease_create_target, KillSessionRequest, SessionLeaseCreateAddressing,
    SessionLeaseStore,
};
use rmux_server::sessions::{Session, SessionStore};

const TTL: u64 = 30_000;

fn create_session(sessions: &mut SessionStore, name: &str, id: u32) {
    sessions.sessions.push(Session {
        name: name.to_owned(),
        id,
        windows: Vec::new(),
        active_window_index: 0,
    });
}

fn no_sessions() -> SessionStore {
    SessionStore {
        sessions: Vec::new(),
    }
}

#[test]
fn stale_session_cleanup_preserves_recreated_session_lease() {
    let mut leases = SessionLeaseStore::default();
    let mut sessions = no_sessions();
    let session_name = "reused".to_owned();
    create_session(&mut sessions, "reused", 0);

    let old_token = leases
        .create_lease(session_name.clone(), session_name.clone(), 0, 0, TTL)
        .expect("old lease token");
    leases.remove_sessions(&vec![(session_name.clone(), 0)]);
    sessions.sessions.clear();
    create_session(&mut sessions, "reused", 1);
    let new_token = leases
        .create_lease(session_name.clone(), session_name.clone(), 1, 0, TTL)
        .expect("new lease token");

    assert!(!leases.renew(&sessions, &session_name, old_token, 0, TTL));
    assert!(leases.renew(&sessions, &session_name, new_token, 0, TTL));
    assert_eq!(
        leases
            .ownership(1)
            .map(|ownership| ownership.current_session_name.clone()),
        Some(session_name)
    );
}

#[test]
fn expired_lease_carries_stable_session_identity() {
    let mut leases = SessionLeaseStore::default();
    let session_name = "expired".to_owned();
    let _token = leases
        .create_lease(session_name.clone(), session_name.clone(), 73, 0, 1)
        .expect("lease token");

    let expired = leases.expired(1_000);

    assert_eq!(expired, vec![(session_name, 73)]);
}

#[test]
fn rename_moves_only_the_matching_session_lease() {
    let mut leases = SessionLeaseStore::default();
    let mut sessions = no_sessions();
    let old_name = "before".to_owned();
    let new_name = "after".to_owned();
    create_session(&mut sessions, "before", 0);
    let token = leases
        .create_lease(old_name.clone(), old_name.clone(), 0, 0, TTL)
        .expect("lease token");

    sessions.sessions[0].name = new_name.clone();
    assert!(leases.rename_session(&old_name, new_name.clone(), 0));
    assert!(leases.renew(&sessions, &old_name, token, 0, TTL));
    assert!(!leases.renew(&sessions, &new_name, token, 0, TTL));
    assert_eq!(
        leases.ownership(0).map(|ownership| {
            (
                &ownership.wire_session_name,
                &ownership.current_session_name,
            )
        }),
        Some((&old_name, &new_name))
    );
}

#[test]
fn renamed_lease_token_selects_original_identity_over_new_homonym() {
    let mut leases = SessionLeaseStore::default();
    let mut sessions = no_sessions();
    let wire_name = "reused".to_owned();
    let renamed = "renamed".to_owned();
    create_session(&mut sessions, "reused", 0);
    let original_token = leases
        .create_lease(wire_name.clone(), wire_name.clone(), 0, 0, TTL)
        .expect("original lease token");

    sessions.sessions[0].name = renamed.clone();
    assert!(leases.rename_session(&wire_name, renamed, 0));
    create_session(&mut sessions, "reused", 1);
    let homonym_token = leases
        .create_lease(wire_name.clone(), wire_name.clone(), 1, 0, TTL)
        .expect("homonym lease token");

    assert!(leases.renew(&sessions, &wire_name, original_token, 0, TTL));
    assert!(!leases.release(&sessions, &wire_name, u64::MAX));
    assert!(leases.release(&sessions, &wire_name, original_token));
    assert!(leases.renew(&sessions, &wire_name, homonym_token, 0, TTL));
    assert!(leases.ownership(1).is_some());
    assert!(leases.ownership(0).is_none());
}

#[test]
fn revoked_lease_cannot_attach_to_recreated_same_name() {
    let mut leases = SessionLeaseStore::default();
    let mut sessions = no_sessions();
    let session_name = "recreated".to_owned();
    create_session(&mut sessions, "recreated", 0);
    let old_token = leases
        .create_lease(session_name.clone(), session_name.clone(), 0, 0, TTL)
        .expect("old lease token");

    leases.remove_sessions(&vec![(session_name.clone(), 0)]);
    sessions.sessions.clear();
    create_session(&mut sessions, "recreated", 1);
    let new_token = leases
        .create_lease(session_name.clone(), session_name.clone(), 1, 0, TTL)
        .expect("new lease token");

    assert!(!leases.renew(&sessions, &session_name, old_token, 0, TTL));
    assert!(!leases.release(&sessions, &session_name, old_token));
    assert!(leases.renew(&sessions, &session_name, new_token, 0, TTL));
    assert!(leases.ownership(1).is_some());
}

#[test]
fn exhausted_token_space_fails_closed_without_reusing_a_token() {
    let mut leases = SessionLeaseStore {
        ownerships: Vec::new(),
        next_token: u64::MAX,
    };
    let session_name = "exhausted".to_owned();

    let error = leases
        .create_lease(session_name.clone(), session_name, 1, 0, TTL)
        .expect_err("token exhaustion must reject lease creation");

    assert_eq!(
        error,
        RmuxError::Server("session lease token space exhausted".to_owned())
    );
    assert!(leases.ownerships.is_empty());
}

#[test]
fn expired_leases_come_by_name_and_are_taken_out() {
    let mut leases = SessionLeaseStore::new();
    for (name, id, ttl) in [("b", 1, 5), ("a", 2, 5), ("c", 3, 50)] {
        leases
            .create_lease(name.to_owned(), name.to_owned(), id, 0, ttl)
            .expect("a lease");
    }
    assert!(leases.expired(4).is_empty());
    assert_eq!(
        leases.expired(5),
        vec![("a".to_owned(), 2), ("b".to_owned(), 1)]
    );
    assert!(leases.expired(5).is_empty());
    assert!(leases.ownership(3).is_some());
}

#[test]
fn a_renewal_puts_the_end_off() {
    let mut leases = SessionLeaseStore::new();
    let mut sessions = no_sessions();
    create_session(&mut sessions, "alpha", 4);
    let lease = handle_create_session_lease(
        &mut leases,
        &sessions,
        "alpha".to_owned(),
        SessionLeaseCreateAddressing::Nominal,
        0,
        1_000,
        500,
    )
    .expect("a lease");
    assert_eq!(lease.ttl_millis, 1_000);
    let token = lease.token;
    assert_eq!(token, 1);
    assert_eq!(
        handle_renew_session_lease(&mut leases, &sessions, "alpha", token, 900, 1_000, 500),
        Ok(())
    );
    assert!(leases.expired(1_500).is_empty());
    assert!(handle_release_session_lease(
        &mut leases,
        &sessions,
        "alpha",
        token
    ));
    assert_eq!(
        handle_renew_session_lease(&mut leases, &sessions, "alpha", token, 900, 1_000, 500),
        Err(RmuxError::OwnedSessionLeaseLost {
            session_name: "alpha".to_owned()
        })
    );
}

#[test]
fn leases_are_not_granted_for_too_short_a_time() {
    assert_eq!(
        duration_from_millis(0, 500),
        Err(RmuxError::Server(
            "session lease ttl must be greater than zero".to_owned()
        ))
    );
    assert_eq!(
        duration_from_millis(499, 500),
        Err(RmuxError::Server(
            "session lease ttl must be at least 500ms".to_owned()
        ))
    );
    assert_eq!(duration_from_millis(500, 500), Ok(500));
}

#[test]
fn a_session_to_lease_is_named_or_numbered() {
    let mut sessions = no_sessions();
    create_session(&mut sessions, "alpha", 12);
    let nominal = SessionLeaseCreateAddressing::Nominal;
    let stable = SessionLeaseCreateAddressing::StableId;
    let alpha = Some(("alpha".to_owned(), 12));
    assert_eq!(
        resolve_session_lease_create_target(&sessions, "alpha", nominal),
        alpha
    );
    assert_eq!(
        resolve_session_lease_create_target(&sessions, "$12", stable),
        alpha
    );
    assert_eq!(
        resolve_session_lease_create_target(&sessions, "$12", nominal),
        None
    );
    assert_eq!(
        resolve_session_lease_create_target(&sessions, "alpha", stable),
        None
    );
    assert_eq!(
        resolve_session_lease_create_target(&sessions, "$99", stable),
        None
    );
    assert_eq!(current_session_lease_create_addressing(None), nominal);
    assert_eq!(current_session_lease_create_addressing(Some(stable)), stable);
}

#[test]
fn a_lease_of_no_session_is_refused() {
    let mut leases = SessionLeaseStore::new();
    assert_eq!(
        handle_create_session_lease(
            &mut leases,
            &no_sessions(),
            "ghost".to_owned(),
            SessionLeaseCreateAddressing::Nominal,
            0,
            1_000,
            500,
        ),
        Err(RmuxError::SessionNotFound("ghost".to_owned()))
    );
}

#[test]
fn the_janitor_is_started_once() {
    let mut started = false;
    assert!(ensure_session_lease_janitor_started(&mut started));
    assert!(!ensure_session_lease_janitor_started(&mut started));
}

#[test]
fn the_sessions_of_expired_leases_are_ended_by_name() {
    let mut leases = SessionLeaseStore::new();
    for (name, id, ttl) in [("zulu", 1, 10), ("alpha", 2, 20), ("mike", 3, 21)] {
        leases
            .create_lease(name.to_owned(), name.to_owned(), id, 100, ttl)
            .expect("a lease");
    }
    let ends = |target: &str| KillSessionRequest {
        target: target.to_owned(),
        kill_all_except_target: false,
        clear_alerts: false,
        kill_group: false,
    };
    assert_eq!(
        reap_expired_session_leases(&mut leases, 120),
        vec![(ends("alpha"), 2), (ends("zulu"), 1)]
    );
    assert!(leases.ownership(3).is_some());
    assert!(leases.ownership(2).is_none());
    assert!(reap_expired_session_leases(&mut leases, 120).is_empty());
}

#[test]
fn a_lease_can_last_longer_than_the_clock_counts() {
    let mut leases = SessionLeaseStore::new();
    leases
        .create_lease("alpha".to_owned(), "alpha".to_owned(), 1, 5, u64::MAX)
        .expect("a lease");
    assert!(leases.expired(u64::MAX).is_empty());
}
