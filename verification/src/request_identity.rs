//! Requests that were made of one session or window, and of no other that took
//! its place since.
use crate::error;
use crate::error::{ErrorModel, RmuxError};
use crate::scope_support;
use crate::sessions;
use crate::sessions::{PaneTarget, SessionStore, WindowTarget};
use crate::text;
use vstd::prelude::*;

verus! {

/// The window that a request was made of.
#[derive(Debug, Clone, Copy, PartialEq, Eq, Structural)]
pub struct ExpectedWindowIdentity {
    pub index: u32,
    pub id: u32,
    /// The link of the window into its session, where that one is meant.
    pub occurrence_id: Option<u64>,
}

/// The session that a request was made of, with the window where it was made of
/// one.
#[derive(Debug, PartialEq, Eq)]
pub struct ExpectedSessionIdentity {
    pub name: String,
    pub id: u32,
    pub window: Option<ExpectedWindowIdentity>,
}

/// One link of a window into a session.
#[derive(Debug, PartialEq, Eq)]
pub struct ExpectedWindowOccurrenceIdentity {
    pub name: String,
    pub session_id: u32,
    pub window_index: u32,
    pub window_id: u32,
    pub occurrence_id: u64,
}

impl ExpectedSessionIdentity {
    /// A session, and none of its windows in particular.
    pub fn of_session(name: String, id: u32) -> (expected: Self)
        ensures
            expected == (ExpectedSessionIdentity { name, id, window: None }),
    {
        ExpectedSessionIdentity { name, id, window: None }
    }

    /// A window of a session, by whatever link.
    pub fn of_window(name: String, id: u32, window_index: u32, window_id: u32) -> (expected: Self)
        ensures
            expected == (ExpectedSessionIdentity {
                name,
                id,
                window: Some(
                    ExpectedWindowIdentity {
                        index: window_index,
                        id: window_id,
                        occurrence_id: None,
                    },
                ),
            }),
    {
        ExpectedSessionIdentity {
            name,
            id,
            window: Some(
                ExpectedWindowIdentity { index: window_index, id: window_id, occurrence_id: None },
            ),
        }
    }
}

impl ExpectedWindowOccurrenceIdentity {
    /// The identity of these parts.
    pub fn new(
        name: String,
        session_id: u32,
        window_index: u32,
        window_id: u32,
        occurrence_id: u64,
    ) -> (identity: Self)
        ensures
            identity == (ExpectedWindowOccurrenceIdentity {
                name,
                session_id,
                window_index,
                window_id,
                occurrence_id,
            }),
    {
        ExpectedWindowOccurrenceIdentity {
            name,
            session_id,
            window_index,
            window_id,
            occurrence_id,
        }
    }

    /// What is expected of the session and window that a request finds.
    pub fn expected(self) -> (expected: ExpectedSessionIdentity)
        ensures
            expected == (ExpectedSessionIdentity {
                name: self.name,
                id: self.session_id,
                window: Some(
                    ExpectedWindowIdentity {
                        index: self.window_index,
                        id: self.window_id,
                        occurrence_id: Some(self.occurrence_id),
                    },
                ),
            }),
    {
        ExpectedSessionIdentity {
            name: self.name,
            id: self.session_id,
            window: Some(
                ExpectedWindowIdentity {
                    index: self.window_index,
                    id: self.window_id,
                    occurrence_id: Some(self.occurrence_id),
                },
            ),
        }
    }
}

/// Why a request for the session named `name` is refused: it is not the session
/// that the request was made of.
pub open spec fn session_identity_refusal(
    store: SessionStore,
    expected: Option<ExpectedSessionIdentity>,
    name: Seq<char>,
) -> Option<ErrorModel> {
    match expected {
        None => None,
        Some(expected) => if expected.name@ == name && store.names(name, expected.id) {
            None
        } else {
            Some(ErrorModel::SessionNotFound(name))
        },
    }
}

/// The window at a place is the one that is expected; `occurrence_id` is that of
/// the link at the place.
pub open spec fn is_expected_window(
    store: SessionStore,
    expected: ExpectedWindowIdentity,
    place: sessions::WindowPlace,
    occurrence_id: Option<u64>,
) -> bool {
    &&& expected.index == place.1
    &&& store.session_spec(place.0) matches Some(session)
    &&& session.window_spec(place.1) matches Some(window)
    &&& window.id == expected.id
    &&& expected.occurrence_id is Some ==> occurrence_id == expected.occurrence_id
}

/// Why a request for a window is refused.
pub open spec fn window_identity_refusal(
    store: SessionStore,
    expected: Option<ExpectedSessionIdentity>,
    place: sessions::WindowPlace,
    occurrence_id: Option<u64>,
) -> Option<ErrorModel> {
    match session_identity_refusal(store, expected, place.0) {
        Some(refusal) => Some(refusal),
        None => match expected {
            Some(ExpectedSessionIdentity { window: Some(window), .. }) => if is_expected_window(
                store,
                window,
                place,
                occurrence_id,
            ) {
                None
            } else {
                Some(
                    ErrorModel::InvalidTarget {
                        value: sessions::window_place_text(place),
                        reason: "window identity changed before mutation"@,
                    },
                )
            },
            _ => None,
        },
    }
}

/// Refuses a request for a session that is not the one it was made of.
pub fn require_expected_session_identity(
    store: &SessionStore,
    expected: &Option<ExpectedSessionIdentity>,
    session_name: &str,
) -> (result: Result<(), RmuxError>)
    ensures
        scope_support::refusal_of(result) == session_identity_refusal(
            *store,
            *expected,
            session_name@,
        ),
{
    match expected {
        None => Ok(()),
        Some(expected) => {
            if text::same_text(expected.name.as_str(), session_name) && store.session_has_id(
                session_name,
                expected.id,
            ) {
                Ok(())
            } else {
                Err(RmuxError::SessionNotFound(session_name.to_owned()))
            }
        },
    }
}

/// Refuses a request for a window that is not the one it was made of.
/// `occurrence_id` is that of the link at the target.
pub fn require_expected_window_identity(
    store: &SessionStore,
    expected: &Option<ExpectedSessionIdentity>,
    target: &WindowTarget,
    occurrence_id: Option<u64>,
) -> (result: Result<(), RmuxError>)
    ensures
        scope_support::refusal_of(result) == window_identity_refusal(
            *store,
            *expected,
            target@,
            occurrence_id,
        ),
{
    match require_expected_session_identity(store, expected, target.session_name.as_str()) {
        Err(error) => {
            return Err(error);
        },
        Ok(()) => {},
    }
    let expected_window: ExpectedWindowIdentity = match expected {
        Some(expected) => match expected.window {
            Some(window) => window,
            None => {
                return Ok(());
            },
        },
        None => {
            return Ok(());
        },
    };
    let same_window = match store.session(target.session_name.as_str()) {
        Some(session) => match session.window_at(target.window_index) {
            Some(window) => window.id == expected_window.id,
            None => false,
        },
        None => false,
    };
    let same_link = match expected_window.occurrence_id {
        Some(_) => occurrence_id == expected_window.occurrence_id,
        None => true,
    };
    if expected_window.index == target.window_index && same_window && same_link {
        Ok(())
    } else {
        let value = target.to_text();
        Err(error::invalid_target(value.as_str(), "window identity changed before mutation"))
    }
}

/// The place of the pane with the id `pane_id` in the window that a request was
/// made of; `None` where it was made of none. `occurrence_id` is that of the
/// link at the window's place.
pub fn resolve_expected_window_pane_target(
    store: &SessionStore,
    expected: &Option<ExpectedSessionIdentity>,
    session_name: &str,
    pane_id: u32,
    occurrence_id: Option<u64>,
) -> (result: Result<Option<PaneTarget>, RmuxError>)
    ensures
        match *expected {
            Some(ExpectedSessionIdentity { window: Some(window), .. }) => {
                let place = (session_name@, window.index);
                match window_identity_refusal(*store, *expected, place, occurrence_id) {
                    Some(refusal) => result matches Err(error) && error@ == refusal,
                    None => {
                        let found = store.session_spec(session_name@)->0.window_spec(
                            window.index,
                        )->0;
                        match sessions::pane_with_id(found.panes@, pane_id) {
                            Some(pane) => result matches Ok(Some(target)) && target@ == (
                                session_name@,
                                window.index,
                                pane.index,
                            ),
                            None => result matches Err(error) && error@
                                == (ErrorModel::PaneNotFound {
                                session_name: session_name@,
                                pane_id,
                            }),
                        }
                    },
                }
            },
            _ => result == Ok::<Option<PaneTarget>, RmuxError>(None),
        },
{
    let window: ExpectedWindowIdentity = match expected {
        Some(expected) => match expected.window {
            Some(window) => window,
            None => {
                return Ok(None);
            },
        },
        None => {
            return Ok(None);
        },
    };
    let window_target = WindowTarget {
        session_name: session_name.to_owned(),
        window_index: window.index,
    };
    match require_expected_window_identity(store, expected, &window_target, occurrence_id) {
        Err(error) => {
            return Err(error);
        },
        Ok(()) => {},
    }
    match store.session(session_name) {
        Some(session) => match session.window_at(window.index) {
            Some(found) => match found.pane_by_id(pane_id) {
                Some(pane) => Ok(
                    Some(
                        PaneTarget {
                            session_name: session_name.to_owned(),
                            window_index: window.index,
                            pane_index: pane.index,
                        },
                    ),
                ),
                None => Err(
                    RmuxError::PaneNotFound { session_name: session_name.to_owned(), pane_id },
                ),
            },
            None => Err(RmuxError::SessionNotFound(session_name.to_owned())),
        },
        None => Err(RmuxError::SessionNotFound(session_name.to_owned())),
    }
}

/// A request that was made of a session goes to that session or is refused:
/// where it is let through, the session of that name has the id that the
/// request was made of.
pub proof fn let_through_only_to_the_session_meant(
    store: SessionStore,
    expected: ExpectedSessionIdentity,
    name: Seq<char>,
)
    ensures
        session_identity_refusal(store, Some(expected), name) is None ==> expected.name@ == name
            && store.session_spec(name)->0.id == expected.id,
{
}

/// A request that was made of a session is let through to the session of that name with
/// that id alone, and one that was made of none to any.
pub proof fn a_request_reaches_the_session_it_was_made_of(
    store: SessionStore,
    expected: ExpectedSessionIdentity,
    name: &str,
    none: Option<ExpectedSessionIdentity>,
    some: Option<ExpectedSessionIdentity>,
    unbound: Result<(), RmuxError>,
    bound: Result<(), RmuxError>,
)
    requires
        none is None,
        some == Some(expected),
        call_ensures(require_expected_session_identity, (&store, &none, name), unbound),
        call_ensures(require_expected_session_identity, (&store, &some, name), bound),
    ensures
        unbound is Ok,
        bound is Ok == (expected.name@ == name@ && (store.session_spec(name@) matches Some(session)
            && session.id == expected.id)),
        bound matches Err(error) ==> error@ == ErrorModel::SessionNotFound(name@),
{
}

/// A request that was made of a window is let through where the window at its place has
/// the index and the id that were meant, and, where one link of it was meant, that link.
pub proof fn a_request_reaches_the_window_it_was_made_of(
    store: SessionStore,
    expected: ExpectedSessionIdentity,
    wanted: ExpectedWindowIdentity,
    place: sessions::WindowPlace,
    occurrence_id: Option<u64>,
    session: sessions::Session,
)
    requires
        expected.window == Some(wanted),
        expected.name@ == place.0,
        store.session_spec(place.0) == Some(session),
        session.id == expected.id,
    ensures
        ({
            let same = wanted.index == place.1 && (session.window_spec(place.1) matches Some(window)
                && window.id == wanted.id) && (wanted.occurrence_id is None || wanted.occurrence_id
                == occurrence_id);
            window_identity_refusal(store, Some(expected), place, occurrence_id) == if same {
                None
            } else {
                Some(
                    ErrorModel::InvalidTarget {
                        value: place.0 + ":"@ + text::decimal(place.1 as nat),
                        reason: "window identity changed before mutation"@,
                    },
                )
            }
        }),
{
}

} // verus!
