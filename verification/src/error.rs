//! What a request is answered with when it is refused.
use vstd::prelude::*;

verus! {

/// Why a request was refused.
#[derive(Debug, PartialEq, Eq)]
pub enum RmuxError {
    Server(String),
    Message(String),
    SessionNotFound(String),
    InvalidTarget { value: String, reason: String },
    PaneNotFound { session_name: String, pane_id: u32 },
    OwnedSessionLeaseLost { session_name: String },
}

/// A refusal as a value.
pub enum ErrorModel {
    Server(Seq<char>),
    Message(Seq<char>),
    SessionNotFound(Seq<char>),
    InvalidTarget { value: Seq<char>, reason: Seq<char> },
    PaneNotFound { session_name: Seq<char>, pane_id: u32 },
    OwnedSessionLeaseLost { session_name: Seq<char> },
}

impl View for RmuxError {
    type V = ErrorModel;

    open spec fn view(&self) -> ErrorModel {
        match self {
            RmuxError::Server(text) => ErrorModel::Server(text@),
            RmuxError::Message(text) => ErrorModel::Message(text@),
            RmuxError::SessionNotFound(name) => ErrorModel::SessionNotFound(name@),
            RmuxError::InvalidTarget { value, reason } => ErrorModel::InvalidTarget {
                value: value@,
                reason: reason@,
            },
            RmuxError::PaneNotFound { session_name, pane_id } => ErrorModel::PaneNotFound {
                session_name: session_name@,
                pane_id: *pane_id,
            },
            RmuxError::OwnedSessionLeaseLost { session_name } => {
                ErrorModel::OwnedSessionLeaseLost { session_name: session_name@ }
            },
        }
    }
}

impl Clone for RmuxError {
    fn clone(&self) -> (copy: Self)
        ensures
            copy@ == self@,
    {
        match self {
            RmuxError::Server(text) => RmuxError::Server(text.clone()),
            RmuxError::Message(text) => RmuxError::Message(text.clone()),
            RmuxError::SessionNotFound(name) => RmuxError::SessionNotFound(name.clone()),
            RmuxError::InvalidTarget { value, reason } => RmuxError::InvalidTarget {
                value: value.clone(),
                reason: reason.clone(),
            },
            RmuxError::PaneNotFound { session_name, pane_id } => RmuxError::PaneNotFound {
                session_name: session_name.clone(),
                pane_id: *pane_id,
            },
            RmuxError::OwnedSessionLeaseLost { session_name } => {
                RmuxError::OwnedSessionLeaseLost { session_name: session_name.clone() }
            },
        }
    }
}

/// A refusal with a fixed text.
pub fn server_error(text: &str) -> (error: RmuxError)
    ensures
        error@ == ErrorModel::Server(text@),
{
    RmuxError::Server(text.to_owned())
}

/// A refusal of a target.
pub fn invalid_target(value: &str, reason: &str) -> (error: RmuxError)
    ensures
        error@ == (ErrorModel::InvalidTarget { value: value@, reason: reason@ }),
{
    RmuxError::InvalidTarget { value: value.to_owned(), reason: reason.to_owned() }
}

/// Each kind of refusal is told apart from the others, and keeps its parts in their
/// places.
pub proof fn a_refusal_keeps_its_parts(
    text: String,
    other: String,
    pane_id: u32,
    refused: RmuxError,
    value: &str,
    reason: &str,
)
    requires
        call_ensures(invalid_target, (value, reason), refused),
    ensures
        RmuxError::Server(text)@ == ErrorModel::Server(text@),
        RmuxError::Message(text)@ == ErrorModel::Message(text@),
        RmuxError::SessionNotFound(text)@ == ErrorModel::SessionNotFound(text@),
        (RmuxError::InvalidTarget { value: text, reason: other })@ == (ErrorModel::InvalidTarget {
            value: text@,
            reason: other@,
        }),
        (RmuxError::PaneNotFound { session_name: text, pane_id })@ == (ErrorModel::PaneNotFound {
            session_name: text@,
            pane_id,
        }),
        (RmuxError::OwnedSessionLeaseLost { session_name: text })@ == (
        ErrorModel::OwnedSessionLeaseLost { session_name: text@ }),
        refused matches RmuxError::InvalidTarget { value: v, reason: r } && v@ == value@ && r@
            == reason@,
{
}

} // verus!
