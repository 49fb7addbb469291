//! Server events of a control-mode client, and those that wait for the command
//! that is running.
use crate::control_lines;
use std::collections::VecDeque;
use vstd::prelude::*;

verus! {

/// How many notifications may wait.
pub const MAX_DEFERRED_CONTROL_NOTIFICATIONS: usize = 1024;

/// How many bytes the waiting notifications may have together.
pub const MAX_DEFERRED_CONTROL_NOTIFICATION_BYTES: usize = 4_194_304;

/// How many server events a client's channel holds.
pub const CONTROL_SERVER_EVENT_CAPACITY: usize = 256;

/// How many pane events a client's channel holds.
pub const CONTROL_PANE_EVENT_CAPACITY: usize = 256;

/// What the server tells a control-mode client's loop.
#[derive(Debug, PartialEq, Eq)]
pub enum ControlServerEvent {
    SessionChanged(Option<String>),
    Refresh,
    Notification(String),
    Exit(Option<String>),
}

/// What is to be done on a server event.
#[derive(Debug, PartialEq, Eq)]
pub enum ControlEventAction {
    /// The event waits, or was dropped.
    Nothing,
    /// Subscribe to the panes of the session anew.
    Refresh,
    /// Send the line, after the pane output that is ready.
    Notify(String),
    /// Send the exit line with this reason, and end.
    Exit(Option<String>),
}

/// Events that wait for the command that is running.
#[derive(Debug, PartialEq, Eq)]
pub struct DeferredServerEvents {
    pub notifications: VecDeque<String>,
    pub notification_bytes: usize,
    pub session_change: Option<Option<String>>,
    pub exit_reason: Option<Option<String>>,
}

/// A text that may be missing, as a value.
pub open spec fn optional_text(text: Option<String>) -> Option<Seq<char>> {
    match text {
        Some(text) => Some(text@),
        None => None,
    }
}

/// `event` was taken from `before`, which leaves `after`: notifications come first,
/// in order, then a change of session, then the exit.
pub open spec fn took_event(
    before: DeferredServerEvents,
    after: DeferredServerEvents,
    event: ControlServerEvent,
) -> bool {
    match event {
        ControlServerEvent::Notification(line) => {
            &&& before.notifications@.len() > 0
            &&& line == before.notifications@[0]
            &&& after.notifications@ == before.notifications@.subrange(
                1,
                before.notifications@.len() as int,
            )
            &&& after.session_change == before.session_change
            &&& after.exit_reason == before.exit_reason
        },
        ControlServerEvent::SessionChanged(session) => {
            &&& before.notifications@.len() == 0
            &&& before.session_change == Some(session)
            &&& after == (DeferredServerEvents { session_change: None, ..before })
        },
        ControlServerEvent::Exit(reason) => {
            &&& before.notifications@.len() == 0
            &&& before.session_change is None
            &&& before.exit_reason == Some(reason)
            &&& after == (DeferredServerEvents { exit_reason: None, ..before })
        },
        ControlServerEvent::Refresh => false,
    }
}

impl Default for DeferredServerEvents {
    fn default() -> (value: Self)
        ensures
            value.wf(),
            value.notifications@.len() == 0,
            value.session_change is None,
            value.exit_reason is None,
    {
        DeferredServerEvents::new()
    }
}

impl DeferredServerEvents {
    /// The byte count agrees with the notifications, and both keep to their
    /// limits.
    pub open spec fn wf(&self) -> bool {
        &&& self.notification_bytes == control_lines::total_bytes(
            control_lines::texts(self.notifications@),
        )
        &&& self.notifications@.len() <= MAX_DEFERRED_CONTROL_NOTIFICATIONS
        &&& self.notification_bytes <= MAX_DEFERRED_CONTROL_NOTIFICATION_BYTES
    }

    /// No event waits.
    pub open spec fn is_empty(&self) -> bool {
        self.notifications@.len() == 0 && self.session_change is None && self.exit_reason is None
    }

    /// `line` finds room among the waiting notifications.
    pub open spec fn has_room_for(&self, line: Seq<char>) -> bool {
        &&& self.notifications@.len() < MAX_DEFERRED_CONTROL_NOTIFICATIONS
        &&& self.notification_bytes + control_lines::byte_len(line)
            <= MAX_DEFERRED_CONTROL_NOTIFICATION_BYTES
    }

    /// The events that wait, but for the exit, in the order in which they are handled:
    /// notifications as they came, then a change of session.
    pub open spec fn before_exit(&self) -> Seq<ControlServerEvent> {
        self.notifications@.map_values(|line: String| ControlServerEvent::Notification(line)) + (
        match self.session_change {
            Some(session) => seq![ControlServerEvent::SessionChanged(session)],
            None => Seq::empty(),
        })
    }

    /// The events that wait, in the order in which they are handled: notifications
    /// as they came, then a change of session, then the exit.
    pub open spec fn waiting(&self) -> Seq<ControlServerEvent> {
        self.before_exit() + (match self.exit_reason {
            Some(reason) => seq![ControlServerEvent::Exit(reason)],
            None => Seq::empty(),
        })
    }

    /// No events.
    pub fn new() -> (deferred: Self)
        ensures
            deferred.wf(),
            deferred.is_empty(),
    {
        let deferred = DeferredServerEvents {
            notifications: VecDeque::new(),
            notification_bytes: 0,
            session_change: None,
            exit_reason: None,
        };
        assert(control_lines::texts(deferred.notifications@) =~= Seq::<Seq<char>>::empty());
        deferred
    }

    /// Keeps a notification. One too many drops them all and makes the client
    /// exit; once an exit waits, notifications are dropped.
    pub fn defer_notification(&mut self, line: String)
        requires
            old(self).wf(),
        ensures
            final(self).wf(),
            final(self).session_change == old(self).session_change,
            if old(self).exit_reason is Some {
                *final(self) == *old(self)
            } else if old(self).has_room_for(line@) {
                &&& final(self).notifications@ == old(self).notifications@.push(line)
                &&& final(self).exit_reason is None
            } else {
                &&& final(self).notifications@.len() == 0
                &&& final(self).exit_reason matches Some(reason)
                &&& optional_text(reason) == Some("control notification queue exceeded"@)
            },
    {
        if self.exit_reason.is_some() {
            return;
        }
        let len: usize = control_lines::line_byte_len(line.as_str());
        let next_bytes: usize = self.notification_bytes.saturating_add(len);
        if self.notifications.len() >= MAX_DEFERRED_CONTROL_NOTIFICATIONS || next_bytes
            > MAX_DEFERRED_CONTROL_NOTIFICATION_BYTES {
            self.notifications.clear();
            self.notification_bytes = 0;
            self.exit_reason = Some(Some("control notification queue exceeded".to_owned()));
            assert(control_lines::texts(self.notifications@) =~= Seq::<Seq<char>>::empty());
            return;
        }
        let ghost before = control_lines::texts(self.notifications@);
        self.notification_bytes = next_bytes;
        self.notifications.push_back(line);
        proof {
            assert(control_lines::texts(self.notifications@) =~= before.push(line@));
            assert(before.push(line@).drop_last() =~= before);
        }
    }

    /// Takes the notification that waits longest.
    pub fn pop_notification(&mut self) -> (line: Option<String>)
        requires
            old(self).wf(),
        ensures
            final(self).wf(),
            final(self).session_change == old(self).session_change,
            final(self).exit_reason == old(self).exit_reason,
            match line {
                Some(line) => {
                    &&& old(self).notifications@.len() > 0
                    &&& line == old(self).notifications@[0]
                    &&& final(self).notifications@ == old(self).notifications@.subrange(
                        1,
                        old(self).notifications@.len() as int,
                    )
                    &&& final(self).notification_bytes == old(self).notification_bytes
                        - control_lines::byte_len(line@)
                },
                None => old(self).notifications@.len() == 0 && *final(self) == *old(self),
            },
    {
        if self.notifications.len() == 0 {
            return None;
        }
        let ghost before = control_lines::texts(self.notifications@);
        match self.notifications.pop_front() {
            None => None,
            Some(line) => {
                let len: usize = control_lines::line_byte_len(line.as_str());
                proof {
                    control_lines::lemma_total_bytes_front(before);
                    assert(control_lines::texts(self.notifications@) =~= before.subrange(
                        1,
                        before.len() as int,
                    ));
                    assert(before[0] == line@);
                }
                self.notification_bytes = self.notification_bytes.saturating_sub(len);
                Some(line)
            },
        }
    }

    /// Keeps a change of session, in place of an earlier one. Once an exit waits
    /// it is dropped.
    pub fn defer_session_change(&mut self, next_session: Option<String>)
        requires
            old(self).wf(),
        ensures
            final(self).wf(),
            *final(self) == (DeferredServerEvents {
                session_change: if old(self).exit_reason is Some {
                    old(self).session_change
                } else {
                    Some(next_session)
                },
                ..*old(self)
            }),
    {
        if self.exit_reason.is_some() {
            return;
        }
        self.session_change = Some(next_session);
    }

    /// Takes the event to handle next now that no command runs: notifications
    /// first, in order, then a change of session, then the exit.
    pub fn next_event(&mut self) -> (event: Option<ControlServerEvent>)
        requires
            old(self).wf(),
        ensures
            final(self).wf(),
            match event {
                Some(event) => took_event(*old(self), *final(self), event),
                None => old(self).is_empty() && *final(self) == *old(self),
            },
    {
        match self.pop_notification() {
            Some(line) => {
                return Some(ControlServerEvent::Notification(line));
            },
            None => {},
        }
        match self.session_change.take() {
            Some(session) => {
                return Some(ControlServerEvent::SessionChanged(session));
            },
            None => {},
        }
        match self.exit_reason.take() {
            Some(reason) => Some(ControlServerEvent::Exit(reason)),
            None => None,
        }
    }
}

/// Events that waited are handled in order and each once: where `after` is what is
/// left of `before` once `event` was taken, `event` is the first of those that waited
/// and the others wait on.
pub proof fn waiting_events_come_in_order(
    before: DeferredServerEvents,
    after: DeferredServerEvents,
    event: ControlServerEvent,
)
    requires
        took_event(before, after, event),
    ensures
        before.waiting() == seq![event] + after.waiting(),
{
    assert(before.waiting() =~= seq![event] + after.waiting());
}

/// Handles a server event: while a command runs, all but a refresh waits.
pub fn handle_server_event(
    event: ControlServerEvent,
    deferred: &mut DeferredServerEvents,
    session_name: &mut Option<String>,
    command_active: bool,
) -> (action: ControlEventAction)
    requires
        old(deferred).wf(),
    ensures
        final(deferred).wf(),
        match event {
            ControlServerEvent::SessionChanged(next) => if command_active {
                &&& action == ControlEventAction::Nothing
                &&& *final(session_name) == *old(session_name)
                &&& *final(deferred) == (DeferredServerEvents {
                    session_change: if old(deferred).exit_reason is Some {
                        old(deferred).session_change
                    } else {
                        Some(next)
                    },
                    ..*old(deferred)
                })
            } else {
                &&& action == ControlEventAction::Refresh
                &&& *final(session_name) == next
                &&& *final(deferred) == *old(deferred)
            },
            ControlServerEvent::Refresh => {
                &&& action == ControlEventAction::Refresh
                &&& *final(session_name) == *old(session_name)
                &&& *final(deferred) == *old(deferred)
            },
            ControlServerEvent::Notification(line) => {
                &&& *final(session_name) == *old(session_name)
                &&& final(deferred).session_change == old(deferred).session_change
                &&& if old(deferred).exit_reason is Some {
                    &&& action == ControlEventAction::Nothing
                    &&& *final(deferred) == *old(deferred)
                } else if command_active {
                    &&& action == ControlEventAction::Nothing
                    &&& if old(deferred).has_room_for(line@) {
                        &&& final(deferred).notifications@ == old(deferred).notifications@.push(
                            line,
                        )
                        &&& final(deferred).exit_reason is None
                    } else {
                        &&& final(deferred).notifications@.len() == 0
                        &&& final(deferred).exit_reason matches Some(reason)
                        &&& optional_text(reason) == Some("control notification queue exceeded"@)
                    }
                } else {
                    &&& action == ControlEventAction::Notify(line)
                    &&& *final(deferred) == *old(deferred)
                }
            },
            ControlServerEvent::Exit(reason) => {
                &&& *final(session_name) == *old(session_name)
                &&& if command_active || old(deferred).notifications@.len() > 0 {
                    &&& action == ControlEventAction::Nothing
                    &&& *final(deferred) == (DeferredServerEvents {
                        exit_reason: Some(reason),
                        ..*old(deferred)
                    })
                } else {
                    &&& action == ControlEventAction::Exit(reason)
                    &&& *final(deferred) == *old(deferred)
                }
            },
        },
{
    match event {
        ControlServerEvent::SessionChanged(next) => {
            if command_active {
                deferred.defer_session_change(next);
                return ControlEventAction::Nothing;
            }
            *session_name = next;
            ControlEventAction::Refresh
        },
        ControlServerEvent::Refresh => ControlEventAction::Refresh,
        ControlServerEvent::Notification(line) => {
            if command_active || deferred.exit_reason.is_some() {
                deferred.defer_notification(line);
                return ControlEventAction::Nothing;
            }
            ControlEventAction::Notify(line)
        },
        ControlServerEvent::Exit(reason) => {
            if command_active || deferred.notifications.len() > 0 {
                deferred.exit_reason = Some(reason);
                return ControlEventAction::Nothing;
            }
            ControlEventAction::Exit(reason)
        },
    }
}

/// Up to 1024 notifications wait, of up to 4194304 bytes together.
pub proof fn notifications_wait_within_the_limits(deferred: DeferredServerEvents, line: Seq<char>)
    ensures
        deferred.has_room_for(line) == (deferred.notifications@.len() < 1024
            && deferred.notification_bytes + vstd::utf8::encode_utf8(line).len() <= 4194304),
        deferred.wf() ==> deferred.notifications@.len() <= 1024 && deferred.notification_bytes
            <= 4194304,
{
}

/// What waits is handled in this order: the notifications as they came, the change of
/// session, the exit.
pub proof fn an_exit_waits_for_all_else(
    deferred: DeferredServerEvents,
    session: Option<String>,
    reason: Option<String>,
    i: int,
)
    requires
        deferred.session_change == Some(session),
        deferred.exit_reason == Some(reason),
        0 <= i < deferred.notifications@.len(),
    ensures
        ({
            let n = deferred.notifications@.len() as int;
            let waiting = deferred.waiting();
            &&& waiting.len() == n + 2
            &&& waiting[i] == ControlServerEvent::Notification(deferred.notifications@[i])
            &&& waiting[n] == ControlServerEvent::SessionChanged(session)
            &&& waiting[n + 1] == ControlServerEvent::Exit(reason)
        }),
{
}

/// The event that comes next is settled by what waits: the first notification, else the
/// change of session, else the exit; and only it is taken away.
pub proof fn the_next_event_is_settled(
    before: DeferredServerEvents,
    after: DeferredServerEvents,
    event: ControlServerEvent,
)
    requires
        took_event(before, after, event),
    ensures
        before.notifications@.len() > 0 ==> event == ControlServerEvent::Notification(
            before.notifications@[0],
        ) && after.notifications@.len() == before.notifications@.len() - 1 && after.session_change
            == before.session_change && after.exit_reason == before.exit_reason,
        before.notifications@.len() == 0 ==> (before.session_change matches Some(session) ==> event
            == ControlServerEvent::SessionChanged(session) && after.session_change is None
            && after.exit_reason == before.exit_reason),
        before.notifications@.len() == 0 && before.session_change is None ==> (before.exit_reason
            matches Some(reason) && event == ControlServerEvent::Exit(reason)
            && after.exit_reason is None),
{
}

} // verus!
